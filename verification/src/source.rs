//! One requirement source and its reading: a package literal, an editable
//! path, the contents of a requirements file, or a project-manifest text.
//! Reading a source yields one per-source specification; the aggregation of
//! many sources lives in the aggregate module.

use vstd::prelude::*;

use crate::extras::{flatten_extra, flatten_extra_spec, map_model};
use crate::name::{normalize_spec, valid_name_spec, ExtraName, PackageName};
use crate::parsers;
use crate::requirement::{
    parse_entry_spec, parse_requirement_entry, EditableRequirement, EntryModel, ReqModel,
    Requirement, RequirementEntry,
};
use crate::strutil;
use crate::{Error, ErrorKind};

verus! {

/// Which optional-dependency groups a manifest read should expand.
#[derive(Debug, Clone)]
pub enum ExtrasSpecification {
    NoneRequested,
    All,
    Listed(Vec<ExtraName>),
}

pub ghost enum ExtrasModel {
    NoneRequested,
    All,
    Listed(Seq<Seq<char>>),
}

impl View for ExtrasSpecification {
    type V = ExtrasModel;

    open spec fn view(&self) -> ExtrasModel {
        match self {
            ExtrasSpecification::NoneRequested => ExtrasModel::NoneRequested,
            ExtrasSpecification::All => ExtrasModel::All,
            ExtrasSpecification::Listed(l) => ExtrasModel::Listed(
                l@.map_values(|e: ExtraName| e@),
            ),
        }
    }
}

/// Whether the selector includes the group of the given (canonical) name.
pub open spec fn extras_contains(m: ExtrasModel, name: Seq<char>) -> bool {
    match m {
        ExtrasModel::All => true,
        ExtrasModel::NoneRequested => false,
        ExtrasModel::Listed(l) => l.contains(name),
    }
}

impl ExtrasSpecification {
    /// Returns true if a name is included in the extra specification.
    pub fn contains(&self, name: &ExtraName) -> (r: bool)
        ensures
            r == extras_contains(self@, name@),
    {
        match self {
            ExtrasSpecification::All => true,
            ExtrasSpecification::NoneRequested => false,
            ExtrasSpecification::Listed(l) => {
                let mut i: usize = 0;
                let ghost lm = l@.map_values(|e: ExtraName| e@);
                while i < l.len()
                    invariant
                        0 <= i <= l.len(),
                        lm == l@.map_values(|e: ExtraName| e@),
                        self@ == ExtrasModel::Listed(lm),
                        forall|k: int| 0 <= k < i ==> lm[k] != name@,
                    decreases l.len() - i,
                {
                    if l[i].eq_name(name) {
                        proof {
                            assert(lm[i as int] == name@);
                            assert(lm.contains(name@));
                        }
                        return true;
                    }
                    i = i + 1;
                }
                proof {
                    if lm.contains(name@) {
                        let k = choose|k: int| 0 <= k < lm.len() && lm[k] == name@;
                        assert(lm[k] == name@);
                    }
                }
                false
            },
        }
    }
}

/// Where one list of requirements comes from.
#[derive(Debug, Clone)]
pub enum RequirementsSource {
    /// A package literal given directly (for example on a command line).
    Package(String),
    /// An editable path given directly.
    Editable(String),
    /// The path of a requirements file.
    RequirementsTxt(String),
    /// The path of a project manifest.
    PyprojectToml(String),
}

pub ghost enum SourceModel {
    Package(Seq<char>),
    Editable(Seq<char>),
    RequirementsTxt(Seq<char>),
    PyprojectToml(Seq<char>),
}

impl View for RequirementsSource {
    type V = SourceModel;

    open spec fn view(&self) -> SourceModel {
        match self {
            RequirementsSource::Package(s) => SourceModel::Package(s@),
            RequirementsSource::Editable(s) => SourceModel::Editable(s@),
            RequirementsSource::RequirementsTxt(s) => SourceModel::RequirementsTxt(s@),
            RequirementsSource::PyprojectToml(s) => SourceModel::PyprojectToml(s@),
        }
    }
}

/// The last path component: everything after the final `/`.
pub open spec fn path_file_name(p: Seq<char>) -> Seq<char> {
    p.skip(strutil::last_index_spec(p, '/') + 1)
}

impl RequirementsSource {
    /// Classifies a path: a file named `pyproject.toml` is a project
    /// manifest, anything else a requirements file.
    pub fn from_path(path: String) -> (r: RequirementsSource)
        ensures
            path_file_name(path@) == "pyproject.toml"@ ==> r == (RequirementsSource::PyprojectToml(
                path,
            )),
            path_file_name(path@) != "pyproject.toml"@ ==> r == (
            RequirementsSource::RequirementsTxt(path)),
    {
        let n: usize = path.as_str().unicode_len();
        let fname = match strutil::last_index(path.as_str(), '/') {
            Some(i) => {
                proof {
                    strutil::lemma_last_index(path@, '/');
                }
                strutil::substring(path.as_str(), i + 1, n)
            },
            None => {
                proof {
                    assert(path@.skip(0) =~= path@);
                }
                strutil::substring(path.as_str(), 0, n)
            },
        };
        proof {
            assert(path@.subrange(strutil::last_index_spec(path@, '/') + 1, n as int)
                =~= path_file_name(path@));
        }
        if strutil::str_eq(fname.as_str(), "pyproject.toml") {
            RequirementsSource::PyprojectToml(path)
        } else {
            RequirementsSource::RequirementsTxt(path)
        }
    }

    /// Wraps a user-provided string assumed to be a package literal. Whether
    /// the string was instead meant as a requirements file is a question for
    /// the surrounding tool's terminal prompt, outside this library.
    pub fn from_package(name: String) -> (r: RequirementsSource)
        ensures
            r == (RequirementsSource::Package(name)),
    {
        RequirementsSource::Package(name)
    }

    /// Whether a bare literal looks like a requirements file name, the test
    /// a surrounding prompt would use.
    pub fn looks_like_requirements_file(name: &str) -> (r: bool)
        ensures
            r == (strutil::ends_with_spec(name@, ".txt"@) || strutil::ends_with_spec(
                name@,
                ".in"@,
            )),
    {
        strutil::ends_with(name, ".txt") || strutil::ends_with(name, ".in")
    }

    /// The display form: `-e ` before an editable path, the bare text
    /// otherwise.
    pub fn display_string(&self) -> (r: String)
        ensures
            match self@ {
                SourceModel::Editable(p) => r@ == "-e "@ + p,
                SourceModel::Package(p) => r@ == p,
                SourceModel::RequirementsTxt(p) => r@ == p,
                SourceModel::PyprojectToml(p) => r@ == p,
            },
    {
        match self {
            RequirementsSource::Editable(p) => String::from_str("-e ").concat(p.as_str()),
            RequirementsSource::Package(p) => p.clone(),
            RequirementsSource::RequirementsTxt(p) => p.clone(),
            RequirementsSource::PyprojectToml(p) => p.clone(),
        }
    }
}

/// One parsed line of a requirements file, with its editable flag.
#[derive(Debug, Clone)]
pub struct RequirementsFileEntry {
    pub requirement: RequirementEntry,
    pub editable: bool,
}

pub ghost struct FileEntryModel {
    pub requirement: EntryModel,
    pub editable: bool,
}

impl View for RequirementsFileEntry {
    type V = FileEntryModel;

    open spec fn view(&self) -> FileEntryModel {
        FileEntryModel { requirement: self.requirement@, editable: self.editable }
    }
}

/// A find-links location: a URL or a local directory path.
#[derive(Debug, Clone)]
pub enum FindLinksLocation {
    Url(String),
    Path(String),
}

pub ghost enum FindLinksModel {
    Url(Seq<char>),
    Path(Seq<char>),
}

impl View for FindLinksLocation {
    type V = FindLinksModel;

    open spec fn view(&self) -> FindLinksModel {
        match self {
            FindLinksLocation::Url(u) => FindLinksModel::Url(u@),
            FindLinksLocation::Path(p) => FindLinksModel::Path(p@),
        }
    }
}

/// What the external requirements-file reader hands back for one file:
/// its requirements with editable flags, the constraints pulled in through
/// nested constraint-file directives, editable entries, and the file's index
/// configuration.
#[derive(Debug, Clone)]
pub struct RequirementsFileData {
    pub requirements: Vec<RequirementsFileEntry>,
    pub constraints: Vec<Requirement>,
    pub editables: Vec<EditableRequirement>,
    pub index_url: Option<String>,
    pub extra_index_urls: Vec<String>,
    pub no_index: bool,
    pub find_links: Vec<FindLinksLocation>,
}

pub ghost struct FileDataModel {
    pub requirements: Seq<FileEntryModel>,
    pub constraints: Seq<ReqModel>,
    pub editables: Seq<Seq<char>>,
    pub index_url: Option<Seq<char>>,
    pub extra_index_urls: Seq<Seq<char>>,
    pub no_index: bool,
    pub find_links: Seq<FindLinksModel>,
}

impl View for RequirementsFileData {
    type V = FileDataModel;

    open spec fn view(&self) -> FileDataModel {
        FileDataModel {
            requirements: self.requirements@.map_values(|e: RequirementsFileEntry| e@),
            constraints: self.constraints@.map_values(|q: Requirement| q@),
            editables: self.editables@.map_values(|e: EditableRequirement| e@),
            index_url: match &self.index_url {
                Some(u) => Some(u@),
                None => None,
            },
            extra_index_urls: self.extra_index_urls@.map_values(|u: String| u@),
            no_index: self.no_index,
            find_links: self.find_links@.map_values(|f: FindLinksLocation| f@),
        }
    }
}

/// One source together with what was read for it: a literal carries itself,
/// a requirements file carries the reader's output, a manifest carries its
/// raw text.
#[derive(Debug, Clone)]
pub enum LoadedSource {
    Package(String),
    Editable(String),
    RequirementsFile(RequirementsFileData),
    ProjectManifest(String),
}

pub ghost enum LoadedModel {
    Package(Seq<char>),
    Editable(Seq<char>),
    RequirementsFile(FileDataModel),
    ProjectManifest(Seq<char>),
}

impl View for LoadedSource {
    type V = LoadedModel;

    open spec fn view(&self) -> LoadedModel {
        match self {
            LoadedSource::Package(s) => LoadedModel::Package(s@),
            LoadedSource::Editable(s) => LoadedModel::Editable(s@),
            LoadedSource::RequirementsFile(d) => LoadedModel::RequirementsFile(d@),
            LoadedSource::ProjectManifest(s) => LoadedModel::ProjectManifest(s@),
        }
    }
}

/// One per-source specification: the shape every source reduces to before
/// aggregation.
#[derive(Debug, Clone)]
pub struct RequirementsSpecification {
    /// The name of the project specifying requirements.
    pub project: Option<PackageName>,
    /// The requirements for the project.
    pub requirements: Vec<RequirementEntry>,
    /// The constraints for the project.
    pub constraints: Vec<Requirement>,
    /// The overrides for the project.
    pub overrides: Vec<Requirement>,
    /// Packages to install as editable installs.
    pub editables: Vec<EditableRequirement>,
    /// The extras actually used to collect requirements.
    pub extras: Vec<ExtraName>,
    /// The primary index URL, when one was given explicitly.
    pub index_url: Option<String>,
    /// The extra index URLs, in source order.
    pub extra_index_urls: Vec<String>,
    /// Whether index usage is disallowed.
    pub no_index: bool,
    /// The find-links locations, in source order.
    pub find_links: Vec<FindLinksLocation>,
}

pub ghost struct SpecModel {
    pub project: Option<Seq<char>>,
    pub requirements: Seq<EntryModel>,
    pub constraints: Seq<ReqModel>,
    pub overrides: Seq<ReqModel>,
    pub editables: Seq<Seq<char>>,
    pub extras: Seq<Seq<char>>,
    pub index_url: Option<Seq<char>>,
    pub extra_index_urls: Seq<Seq<char>>,
    pub no_index: bool,
    pub find_links: Seq<FindLinksModel>,
}

impl View for RequirementsSpecification {
    type V = SpecModel;

    open spec fn view(&self) -> SpecModel {
        SpecModel {
            project: match &self.project {
                Some(p) => Some(p@),
                None => None,
            },
            requirements: self.requirements@.map_values(|e: RequirementEntry| e@),
            constraints: self.constraints@.map_values(|q: Requirement| q@),
            overrides: self.overrides@.map_values(|q: Requirement| q@),
            editables: self.editables@.map_values(|e: EditableRequirement| e@),
            extras: self.extras@.map_values(|e: ExtraName| e@),
            index_url: match &self.index_url {
                Some(u) => Some(u@),
                None => None,
            },
            extra_index_urls: self.extra_index_urls@.map_values(|u: String| u@),
            no_index: self.no_index,
            find_links: self.find_links@.map_values(|f: FindLinksLocation| f@),
        }
    }
}

/// The all-empty specification.
pub open spec fn empty_spec_model() -> SpecModel {
    SpecModel {
        project: None,
        requirements: Seq::empty(),
        constraints: Seq::empty(),
        overrides: Seq::empty(),
        editables: Seq::empty(),
        extras: Seq::empty(),
        index_url: None,
        extra_index_urls: Seq::empty(),
        no_index: false,
        find_links: Seq::empty(),
    }
}

impl RequirementsSpecification {
    /// An empty specification, the aggregation's starting point.
    pub fn empty() -> (r: RequirementsSpecification)
        ensures
            r@ == empty_spec_model(),
    {
        let r = RequirementsSpecification {
            project: None,
            requirements: Vec::new(),
            constraints: Vec::new(),
            overrides: Vec::new(),
            editables: Vec::new(),
            extras: Vec::new(),
            index_url: None,
            extra_index_urls: Vec::new(),
            no_index: false,
            find_links: Vec::new(),
        };
        proof {
            assert(r@.requirements =~= empty_spec_model().requirements);
            assert(r@.constraints =~= empty_spec_model().constraints);
            assert(r@.overrides =~= empty_spec_model().overrides);
            assert(r@.editables =~= empty_spec_model().editables);
            assert(r@.extras =~= empty_spec_model().extras);
            assert(r@.extra_index_urls =~= empty_spec_model().extra_index_urls);
            assert(r@.find_links =~= empty_spec_model().find_links);
        }
        r
    }
}

/// Requirement strings parsed in order, each of which must be a named
/// requirement: an unnamed one, or a malformed one, fails the whole list.
pub open spec fn parse_named_reqs(ss: Seq<Seq<char>>) -> Result<Seq<ReqModel>, ErrorKind>
    decreases ss.len(),
{
    if ss.len() == 0 {
        Ok(Seq::empty())
    } else {
        match parse_entry_spec(ss[0]) {
            Ok(EntryModel::Named(r)) => match parse_named_reqs(ss.drop_first()) {
                Ok(rest) => Ok(seq![r] + rest),
                Err(k) => Err(k),
            },
            Ok(EntryModel::Unnamed(_)) => Err(ErrorKind::Parse),
            Err(k) => Err(k),
        }
    }
}

fn parse_named_reqs_exec(ss: &Vec<String>, i: usize) -> (r: Result<Vec<Requirement>, Error>)
    requires
        i <= ss.len(),
    ensures
        r is Ok <==> parse_named_reqs(ss.deep_view().skip(i as int)) is Ok,
        r is Ok ==> r.unwrap()@.map_values(|q: Requirement| q@) == parse_named_reqs(
            ss.deep_view().skip(i as int),
        )->Ok_0,
        r is Ok ==> forall|k: int| 0 <= k < r.unwrap().len() ==> (#[trigger] r.unwrap()@[k]).wf(),
        r is Err ==> parse_named_reqs(ss.deep_view().skip(i as int)) is Err && r.unwrap_err().kind()
            == parse_named_reqs(ss.deep_view().skip(i as int))->Err_0,
    decreases ss.len() - i,
{
    let ghost tail = ss.deep_view().skip(i as int);
    if i == ss.len() {
        let out: Vec<Requirement> = Vec::new();
        proof {
            assert(tail.len() == 0);
            assert(out@.map_values(|q: Requirement| q@) =~= Seq::<ReqModel>::empty());
        }
        return Ok(out);
    }
    proof {
        assert(tail[0] == ss.deep_view()[i as int]);
        assert(tail.drop_first() =~= ss.deep_view().skip(i + 1));
    }
    match parse_requirement_entry(ss[i].as_str()) {
        Ok(RequirementEntry::Named(q)) => {
            match parse_named_reqs_exec(ss, i + 1) {
                Ok(mut rest) => {
                    rest.insert(0, q);
                    proof {
                        assert(rest@.map_values(|x: Requirement| x@) =~= seq![
                            parse_entry_spec(tail[0])->Ok_0->Named_0,
                        ] + parse_named_reqs(tail.drop_first())->Ok_0);
                    }
                    Ok(rest)
                },
                Err(e) => Err(e),
            }
        },
        Ok(RequirementEntry::Unnamed(u)) => Err(Error::ParseError(u.url)),
        Err(e) => Err(e),
    }
}

/// Optional-dependency groups: each key must be a valid extra name, each
/// entry a named requirement.
pub open spec fn parse_groups(gs: Seq<(Seq<char>, Seq<Seq<char>>)>) -> Result<
    Seq<(Seq<char>, Seq<ReqModel>)>,
    ErrorKind,
>
    decreases gs.len(),
{
    if gs.len() == 0 {
        Ok(Seq::empty())
    } else if !valid_name_spec(gs[0].0) {
        Err(ErrorKind::InvalidName)
    } else {
        match parse_named_reqs(gs[0].1) {
            Ok(reqs) => match parse_groups(gs.drop_first()) {
                Ok(rest) => Ok(seq![(normalize_spec(gs[0].0), reqs)] + rest),
                Err(k) => Err(k),
            },
            Err(k) => Err(k),
        }
    }
}

fn parse_groups_exec(gs: &Vec<(String, Vec<String>)>, i: usize) -> (r: Result<
    Vec<(ExtraName, Vec<Requirement>)>,
    Error,
>)
    requires
        i <= gs.len(),
    ensures
        r is Ok <==> parse_groups(gs.deep_view().skip(i as int)) is Ok,
        r is Ok ==> map_model(r.unwrap()@) == parse_groups(gs.deep_view().skip(i as int))->Ok_0,
        r is Ok ==> forall|k: int| 0 <= k < r.unwrap().len() ==> (#[trigger] r.unwrap()@[k]).0.wf(),
        r is Err ==> parse_groups(gs.deep_view().skip(i as int)) is Err && r.unwrap_err().kind()
            == parse_groups(gs.deep_view().skip(i as int))->Err_0,
    decreases gs.len() - i,
{
    let ghost tail = gs.deep_view().skip(i as int);
    if i == gs.len() {
        let out: Vec<(ExtraName, Vec<Requirement>)> = Vec::new();
        proof {
            assert(tail.len() == 0);
            assert(map_model(out@) =~= Seq::<(Seq<char>, Seq<ReqModel>)>::empty());
        }
        return Ok(out);
    }
    proof {
        assert(tail[0] == gs.deep_view()[i as int]);
        assert(tail[0].0 == gs@[i as int].0@);
        assert(tail[0].1 == gs@[i as int].1.deep_view());
        assert(tail.drop_first() =~= gs.deep_view().skip(i + 1));
    }
    let key = match ExtraName::parse(gs[i].0.as_str()) {
        Ok(k) => k,
        Err(()) => {
            return Err(Error::NameError(gs[i].0.clone()));
        },
    };
    proof {
        assert(gs@[i as int].1.deep_view() =~= gs@[i as int].1@.map_values(|x: String| x@));
    }
    let reqs = match parse_named_reqs_exec(&gs[i].1, 0) {
        Ok(reqs) => reqs,
        Err(e) => {
            proof {
                assert(gs@[i as int].1.deep_view().skip(0) =~= gs@[i as int].1.deep_view());
            }
            return Err(e);
        },
    };
    proof {
        assert(gs@[i as int].1.deep_view().skip(0) =~= gs@[i as int].1.deep_view());
    }
    match parse_groups_exec(gs, i + 1) {
        Ok(mut rest) => {
            rest.insert(0, (key, reqs));
            proof {
                assert(map_model(rest@) =~= seq![
                    (normalize_spec(tail[0].0), parse_named_reqs(tail[0].1)->Ok_0),
                ] + parse_groups(tail.drop_first())->Ok_0);
            }
            Ok(rest)
        },
        Err(e) => Err(e),
    }
}

/// Walks the groups in document order: a group the selector includes is
/// flattened (against the whole group map) and appended, and its name is
/// recorded as used.
pub open spec fn select_groups(
    gs: Seq<(Seq<char>, Seq<ReqModel>)>,
    full: Seq<(Seq<char>, Seq<ReqModel>)>,
    extras: ExtrasModel,
    project: Seq<char>,
) -> (Seq<ReqModel>, Seq<Seq<char>>)
    decreases gs.len(),
{
    if gs.len() == 0 {
        (Seq::empty(), Seq::empty())
    } else {
        let rest = select_groups(gs.drop_first(), full, extras, project);
        if extras_contains(extras, gs[0].0) {
            (flatten_extra_spec(project, gs[0].1, full) + rest.0, seq![gs[0].0] + rest.1)
        } else {
            rest
        }
    }
}

fn select_groups_exec(
    gs: &Vec<(ExtraName, Vec<Requirement>)>,
    i: usize,
    extras: &ExtrasSpecification,
    project: &PackageName,
) -> (r: (Vec<Requirement>, Vec<ExtraName>))
    requires
        i <= gs.len(),
    ensures
        r.0@.map_values(|q: Requirement| q@) == select_groups(
            map_model(gs@).skip(i as int),
            map_model(gs@),
            extras@,
            project@,
        ).0,
        r.1@.map_values(|e: ExtraName| e@) == select_groups(
            map_model(gs@).skip(i as int),
            map_model(gs@),
            extras@,
            project@,
        ).1,
    decreases gs.len() - i,
{
    let ghost tail = map_model(gs@).skip(i as int);
    if i == gs.len() {
        let r: (Vec<Requirement>, Vec<ExtraName>) = (Vec::new(), Vec::new());
        proof {
            assert(tail.len() == 0);
            assert(r.0@.map_values(|q: Requirement| q@) =~= Seq::<ReqModel>::empty());
            assert(r.1@.map_values(|e: ExtraName| e@) =~= Seq::<Seq<char>>::empty());
        }
        return r;
    }
    proof {
        assert(tail[0] == map_model(gs@)[i as int]);
        assert(tail.drop_first() =~= map_model(gs@).skip(i + 1));
    }
    let (mut rest_reqs, mut rest_used) = select_groups_exec(gs, i + 1, extras, project);
    if extras.contains(&gs[i].0) {
        let flat = flatten_extra(project, &gs[i].1, gs);
        proof {
            assert(gs@[i as int].1@.map_values(|q: Requirement| q@) == map_model(
                gs@,
            )[i as int].1);
        }
        let mut out = flat;
        let ghost outm = out@.map_values(|q: Requirement| q@);
        let mut j: usize = 0;
        while j < rest_reqs.len()
            invariant
                0 <= j <= rest_reqs.len(),
                out.len() == outm.len() + j,
                forall|k: int| 0 <= k < outm.len() ==> (#[trigger] out@[k])@ == outm[k],
                forall|k: int| 0 <= k < j ==> out@[outm.len() + k]@ == (#[trigger] rest_reqs@[k])@,
            decreases rest_reqs.len() - j,
        {
            out.push(rest_reqs[j].duplicate());
            j = j + 1;
        }
        let mut used: Vec<ExtraName> = Vec::new();
        used.push(gs[i].0.duplicate());
        let mut j2: usize = 0;
        while j2 < rest_used.len()
            invariant
                0 <= j2 <= rest_used.len(),
                used.len() == 1 + j2,
                used@[0]@ == map_model(gs@)[i as int].0,
                forall|k: int| 0 <= k < j2 ==> used@[1 + k]@ == (#[trigger] rest_used@[k])@,
            decreases rest_used.len() - j2,
        {
            used.push(rest_used[j2].duplicate());
            j2 = j2 + 1;
        }
        proof {
            assert(out@.map_values(|q: Requirement| q@) =~= flatten_extra_spec(
                project@,
                tail[0].1,
                map_model(gs@),
            ) + select_groups(tail.drop_first(), map_model(gs@), extras@, project@).0);
            assert(used@.map_values(|e: ExtraName| e@) =~= seq![tail[0].0] + select_groups(
                tail.drop_first(),
                map_model(gs@),
                extras@,
                project@,
            ).1);
        }
        (out, used)
    } else {
        (rest_reqs, rest_used)
    }
}

/// Appends the names of `b` that `a` does not already hold, in order,
/// keeping first occurrences: the used-extras field stays a set.
pub open spec fn append_unique(a: Seq<Seq<char>>, b: Seq<Seq<char>>) -> Seq<Seq<char>>
    decreases b.len(),
{
    if b.len() == 0 {
        a
    } else {
        let a2 = if a.contains(b[0]) {
            a
        } else {
            a.push(b[0])
        };
        append_unique(a2, b.drop_first())
    }
}

/// The distinct names of `s`, first occurrences first.
pub open spec fn dedup_names(s: Seq<Seq<char>>) -> Seq<Seq<char>> {
    append_unique(Seq::empty(), s)
}

/// Appending only absent names keeps the list free of duplicates.
pub proof fn lemma_append_unique_no_dup(a: Seq<Seq<char>>, b: Seq<Seq<char>>)
    requires
        a.no_duplicates(),
    ensures
        append_unique(a, b).no_duplicates(),
    decreases b.len(),
{
    if b.len() > 0 {
        if !a.contains(b[0]) {
            let a2 = a.push(b[0]);
            assert forall|i: int, j: int|
                0 <= i < a2.len() && 0 <= j < a2.len() && i != j implies a2[i] != a2[j] by {
                if i == a.len() && a2[i] == a2[j] {
                    assert(a.contains(a[j]));
                }
                if j == a.len() && a2[i] == a2[j] {
                    assert(a.contains(a[i]));
                }
            }
            lemma_append_unique_no_dup(a2, b.drop_first());
        } else {
            lemma_append_unique_no_dup(a, b.drop_first());
        }
    }
}

fn extra_in(l: &Vec<ExtraName>, e: &ExtraName) -> (r: bool)
    ensures
        r == l@.map_values(|x: ExtraName| x@).contains(e@),
{
    let ghost lm = l@.map_values(|x: ExtraName| x@);
    let mut i: usize = 0;
    while i < l.len()
        invariant
            0 <= i <= l.len(),
            lm == l@.map_values(|x: ExtraName| x@),
            forall|k: int| 0 <= k < i ==> lm[k] != e@,
        decreases l.len() - i,
    {
        if l[i].eq_name(e) {
            proof {
                assert(lm[i as int] == e@);
                assert(lm.contains(e@));
            }
            return true;
        }
        i = i + 1;
    }
    proof {
        if lm.contains(e@) {
            let k = choose|k: int| 0 <= k < lm.len() && lm[k] == e@;
            assert(lm[k] == e@);
        }
    }
    false
}

/// Adds to `a` the names of `b` it does not already hold, in order.
pub(crate) fn merge_extras(a: Vec<ExtraName>, b: Vec<ExtraName>) -> (r: Vec<ExtraName>)
    ensures
        r@.map_values(|x: ExtraName| x@) == append_unique(
            a@.map_values(|x: ExtraName| x@),
            b@.map_values(|x: ExtraName| x@),
        ),
{
    let ghost am = a@.map_values(|x: ExtraName| x@);
    let ghost bm = b@.map_values(|x: ExtraName| x@);
    let mut out = a;
    let mut rest = b;
    while rest.len() > 0
        invariant
            append_unique(
                out@.map_values(|x: ExtraName| x@),
                rest@.map_values(|x: ExtraName| x@),
            ) == append_unique(am, bm),
        decreases rest.len(),
    {
        let ghost pre_out = out@.map_values(|x: ExtraName| x@);
        let ghost pre_rest = rest@.map_values(|x: ExtraName| x@);
        let e = rest.remove(0);
        proof {
            assert(rest@.map_values(|x: ExtraName| x@) =~= pre_rest.drop_first());
            assert(e@ == pre_rest[0]);
        }
        if !extra_in(&out, &e) {
            out.push(e);
            proof {
                assert(out@.map_values(|x: ExtraName| x@) =~= pre_out.push(pre_rest[0]));
            }
        }
    }
    proof {
        assert(rest@.map_values(|x: ExtraName| x@).len() == 0);
    }
    out
}

/// The named requirements of a list, as requirement entries.
pub open spec fn named_entries(rs: Seq<ReqModel>) -> Seq<EntryModel> {
    rs.map_values(|r: ReqModel| EntryModel::Named(r))
}

/// What reading one manifest text denotes: a specification carrying the
/// declared project name, the default dependencies, and the flattened
/// requested optional groups. A text that is not well-formed TOML, a
/// malformed dependency list or entry, is a parse failure; an invalid
/// project or group name, or a missing project name when a group is
/// requested, is a name failure.
pub open spec fn from_manifest_spec(s: Seq<char>, extras: ExtrasModel) -> Result<
    SpecModel,
    ErrorKind,
> {
    if !parsers::manifest_wf(s) {
        Err(ErrorKind::Parse)
    } else if parsers::manifest_deps_of(s) is None {
        Err(ErrorKind::Parse)
    } else {
        match parse_named_reqs(parsers::manifest_deps_of(s).unwrap()) {
            Err(k) => Err(k),
            Ok(base) => {
                let name_raw = parsers::manifest_name_of(s);
                if name_raw is Some && !valid_name_spec(name_raw.unwrap()) {
                    Err(ErrorKind::InvalidName)
                } else {
                    let project = if name_raw is Some {
                        Some(normalize_spec(name_raw.unwrap()))
                    } else {
                        Option::<Seq<char>>::None
                    };
                    if extras is NoneRequested {
                        Ok(
                            SpecModel {
                                project,
                                requirements: named_entries(base),
                                ..empty_spec_model()
                            },
                        )
                    } else if parsers::manifest_extras_of(s) is None {
                        Err(ErrorKind::Parse)
                    } else {
                        match parse_groups(parsers::manifest_extras_of(s).unwrap()) {
                            Err(k) => Err(k),
                            Ok(groups) => {
                                if project is None {
                                    Err(ErrorKind::InvalidName)
                                } else {
                                    let sel = select_groups(
                                        groups,
                                        groups,
                                        extras,
                                        project.unwrap(),
                                    );
                                    Ok(
                                        SpecModel {
                                            project,
                                            requirements: named_entries(base + sel.0),
                                            extras: dedup_names(sel.1),
                                            ..empty_spec_model()
                                        },
                                    )
                                }
                            },
                        }
                    }
                }
            },
        }
    }
}

/// The text a parse failure of this source names: the literal itself or the
/// manifest text. Sources whose reading cannot fail to parse name nothing.
pub open spec fn loaded_text(src: LoadedModel) -> Seq<char> {
    match src {
        LoadedModel::Package(s) => s,
        LoadedModel::Editable(s) => s,
        LoadedModel::ProjectManifest(s) => s,
        LoadedModel::RequirementsFile(_) => Seq::empty(),
    }
}

/// What reading one loaded source denotes.
pub open spec fn from_source_spec(src: LoadedModel, extras: ExtrasModel) -> Result<
    SpecModel,
    ErrorKind,
> {
    match src {
        LoadedModel::Package(s) => match parse_entry_spec(s) {
            Ok(e) => Ok(SpecModel { requirements: seq![e], ..empty_spec_model() }),
            Err(k) => Err(k),
        },
        LoadedModel::Editable(s) => Ok(
            SpecModel { editables: seq![trim_spec_of(s)], ..empty_spec_model() },
        ),
        LoadedModel::RequirementsFile(d) => Ok(
            SpecModel {
                requirements: d.requirements.map_values(|e: FileEntryModel| e.requirement),
                constraints: d.constraints,
                editables: d.editables,
                index_url: d.index_url,
                extra_index_urls: d.extra_index_urls,
                no_index: d.no_index,
                find_links: d.find_links,
                ..empty_spec_model()
            },
        ),
        LoadedModel::ProjectManifest(s) => from_manifest_spec(s, extras),
    }
}

/// Trimming as the editable reader applies it.
pub open spec fn trim_spec_of(s: Seq<char>) -> Seq<char> {
    strutil::trim_spec(s)
}

/// Reads one loaded source into a per-source specification; exactly the
/// denotation of `from_source_spec`, with a well-formed result.
pub fn from_source(source: LoadedSource, extras: &ExtrasSpecification) -> (r: Result<
    RequirementsSpecification,
    Error,
>)
    ensures
        r is Ok <==> from_source_spec(source@, extras@) is Ok,
        r is Ok ==> r.unwrap()@ == from_source_spec(source@, extras@)->Ok_0,
        r is Ok ==> r.unwrap()@.extras.no_duplicates(),
        r is Err ==> r.unwrap_err().kind() == from_source_spec(source@, extras@)->Err_0,
        r is Err && r.unwrap_err().kind() == ErrorKind::Parse ==> (r.unwrap_err()
            matches Error::ParseError(t) && t@ == loaded_text(source@)),
{
    let ghost srcm = source@;
    match source {
        LoadedSource::Package(s) => match parse_requirement_entry(s.as_str()) {
            Ok(e) => {
                let mut spec = RequirementsSpecification::empty();
                spec.requirements.push(e);
                proof {
                    assert(spec@.requirements =~= seq![parse_entry_spec(s@)->Ok_0]);
                    assert(spec@ == from_source_spec(srcm, extras@)->Ok_0);
                }
                Ok(spec)
            },
            Err(e) => Err(e),
        },
        LoadedSource::Editable(s) => {
            let mut spec = RequirementsSpecification::empty();
            let p = strutil::trim(s.as_str());
            spec.editables.push(EditableRequirement { path: p });
            proof {
                assert(spec@.editables =~= seq![trim_spec_of(s@)]);
                assert(spec@ == from_source_spec(srcm, extras@)->Ok_0);
            }
            Ok(spec)
        },
        LoadedSource::RequirementsFile(d) => {
            let RequirementsFileData {
                requirements,
                constraints,
                editables,
                index_url,
                extra_index_urls,
                no_index,
                find_links,
            } = d;
            let mut entries: Vec<RequirementEntry> = Vec::new();
            let mut rs = requirements;
            let ghost rsm = rs@.map_values(|e: RequirementsFileEntry| e@);
            while rs.len() > 0
                invariant
                    entries@.map_values(|e: RequirementEntry| e@) + rs@.map_values(
                        |e: RequirementsFileEntry| e@,
                    ).map_values(|e: FileEntryModel| e.requirement) =~= rsm.map_values(
                        |e: FileEntryModel| e.requirement,
                    ),
                decreases rs.len(),
            {
                let ghost pre = entries@.map_values(|e: RequirementEntry| e@);
                let ghost rem = rs@.map_values(|e: RequirementsFileEntry| e@);
                let head = rs.remove(0);
                entries.push(head.requirement);
                proof {
                    assert(entries@.map_values(|e: RequirementEntry| e@) =~= pre.push(
                        rem[0].requirement,
                    ));
                    assert(rs@.map_values(|e: RequirementsFileEntry| e@) =~= rem.drop_first());
                    assert(entries@.map_values(|e: RequirementEntry| e@) + rs@.map_values(
                        |e: RequirementsFileEntry| e@,
                    ).map_values(|e: FileEntryModel| e.requirement) =~= pre + rem.map_values(
                        |e: FileEntryModel| e.requirement,
                    ));
                }
            }
            let spec = RequirementsSpecification {
                project: None,
                requirements: entries,
                constraints,
                overrides: Vec::new(),
                editables,
                extras: Vec::new(),
                index_url,
                extra_index_urls,
                no_index,
                find_links,
            };
            proof {
                assert(rs@.map_values(|e: RequirementsFileEntry| e@).map_values(
                    |e: FileEntryModel| e.requirement,
                ) =~= Seq::<EntryModel>::empty());
                assert(spec@.requirements =~= rsm.map_values(|e: FileEntryModel| e.requirement));
                assert(spec@.overrides =~= Seq::<ReqModel>::empty());
                assert(spec@.extras =~= Seq::<Seq<char>>::empty());
                assert(spec@ == from_source_spec(srcm, extras@)->Ok_0);
            }
            Ok(spec)
        },
        LoadedSource::ProjectManifest(s) => from_manifest(s.as_str(), extras),
    }
}

fn from_manifest(s: &str, extras: &ExtrasSpecification) -> (r: Result<
    RequirementsSpecification,
    Error,
>)
    ensures
        r is Ok <==> from_manifest_spec(s@, extras@) is Ok,
        r is Ok ==> r.unwrap()@ == from_manifest_spec(s@, extras@)->Ok_0,
        r is Ok ==> r.unwrap()@.extras.no_duplicates(),
        r is Err ==> r.unwrap_err().kind() == from_manifest_spec(s@, extras@)->Err_0,
        r is Err && r.unwrap_err().kind() == ErrorKind::Parse ==> (r.unwrap_err()
            matches Error::ParseError(t) && t@ == s@),
{
    if !parsers::manifest_parses(s) {
        return Err(Error::ParseError(s.to_owned()));
    }
    let deps = match parsers::manifest_dependencies(s) {
        Some(d) => d,
        None => {
            return Err(Error::ParseError(s.to_owned()));
        },
    };
    proof {
        assert(deps.deep_view() =~= deps@.map_values(|x: String| x@));
        assert(deps.deep_view().skip(0) =~= deps.deep_view());
    }
    let base = match parse_named_reqs_exec(&deps, 0) {
        Ok(b) => b,
        Err(e) => {
            return Err(match e {
                Error::ParseError(_) => Error::ParseError(s.to_owned()),
                other => other,
            });
        },
    };
    let project = match parsers::manifest_project_name(s) {
        Some(raw) => match PackageName::parse(raw.as_str()) {
            Ok(p) => Some(p),
            Err(()) => {
                return Err(Error::NameError(raw));
            },
        },
        None => None,
    };
    let is_none_requested = match extras {
        ExtrasSpecification::NoneRequested => true,
        _ => false,
    };
    if is_none_requested {
        let mut spec = RequirementsSpecification::empty();
        spec.project = project;
        spec.requirements = named_entries_exec(base);
        proof {
            assert(spec@ == from_manifest_spec(s@, extras@)->Ok_0);
        }
        return Ok(spec);
    }
    let groups_raw = match parsers::manifest_optional_dependencies(s) {
        Some(g) => g,
        None => {
            return Err(Error::ParseError(s.to_owned()));
        },
    };
    proof {
        assert(groups_raw.deep_view().skip(0) =~= groups_raw.deep_view());
    }
    let groups = match parse_groups_exec(&groups_raw, 0) {
        Ok(g) => g,
        Err(e) => {
            return Err(match e {
                Error::ParseError(_) => Error::ParseError(s.to_owned()),
                other => other,
            });
        },
    };
    let project = match project {
        Some(p) => p,
        None => {
            return Err(Error::NameError(s.to_owned()));
        },
    };
    proof {
        assert(map_model(groups@).skip(0) =~= map_model(groups@));
    }
    let (sel_reqs, used) = select_groups_exec(&groups, 0, extras, &project);
    let mut all = base;
    let ghost basem = all@.map_values(|q: Requirement| q@);
    let mut j: usize = 0;
    while j < sel_reqs.len()
        invariant
            0 <= j <= sel_reqs.len(),
            all.len() == basem.len() + j,
            forall|k: int| 0 <= k < basem.len() ==> (#[trigger] all@[k])@ == basem[k],
            forall|k: int| 0 <= k < j ==> all@[basem.len() + k]@ == (#[trigger] sel_reqs@[k])@,
        decreases sel_reqs.len() - j,
    {
        all.push(sel_reqs[j].duplicate());
        j = j + 1;
    }
    proof {
        assert(all@.map_values(|q: Requirement| q@) =~= basem + select_groups(
            map_model(groups@),
            map_model(groups@),
            extras@,
            project@,
        ).0);
    }
    let mut spec = RequirementsSpecification::empty();
    spec.project = Some(project);
    spec.requirements = named_entries_exec(all);
    let empty_seen: Vec<ExtraName> = Vec::new();
    proof {
        assert(empty_seen@.map_values(|x: ExtraName| x@) =~= Seq::<Seq<char>>::empty());
        lemma_append_unique_no_dup(
            Seq::<Seq<char>>::empty(),
            used@.map_values(|x: ExtraName| x@),
        );
    }
    spec.extras = merge_extras(empty_seen, used);
    proof {
        assert(spec@ == from_manifest_spec(s@, extras@)->Ok_0);
    }
    Ok(spec)
}

fn named_entries_exec(rs: Vec<Requirement>) -> (r: Vec<RequirementEntry>)
    ensures
        r@.map_values(|e: RequirementEntry| e@) == named_entries(
            rs@.map_values(|q: Requirement| q@),
        ),
{
    let ghost rsm = rs@.map_values(|q: Requirement| q@);
    let mut out: Vec<RequirementEntry> = Vec::new();
    let mut rs = rs;
    while rs.len() > 0
        invariant
            out@.map_values(|e: RequirementEntry| e@) + named_entries(
                rs@.map_values(|q: Requirement| q@),
            ) =~= named_entries(rsm),
        decreases rs.len(),
    {
        let ghost pre = out@.map_values(|e: RequirementEntry| e@);
        let ghost rem = rs@.map_values(|q: Requirement| q@);
        let head = rs.remove(0);
        out.push(RequirementEntry::Named(head));
        proof {
            assert(out@.map_values(|e: RequirementEntry| e@) =~= pre.push(
                EntryModel::Named(rem[0]),
            ));
            assert(rs@.map_values(|q: Requirement| q@) =~= rem.drop_first());
            assert(pre.push(EntryModel::Named(rem[0])) + named_entries(rem.drop_first()) =~= pre
                + named_entries(rem));
        }
    }
    proof {
        assert(named_entries(rs@.map_values(|q: Requirement| q@)) =~= Seq::<EntryModel>::empty());
        assert(out@.map_values(|e: RequirementEntry| e@) =~= out@.map_values(
            |e: RequirementEntry| e@,
        ) + Seq::<EntryModel>::empty());
    }
    out
}

/// A failed list parse is always a parse failure.
proof fn lemma_parse_named_reqs_err_kind(ss: Seq<Seq<char>>)
    ensures
        parse_named_reqs(ss) is Err ==> parse_named_reqs(ss)->Err_0 == ErrorKind::Parse,
    decreases ss.len(),
{
    if ss.len() > 0 {
        lemma_parse_named_reqs_err_kind(ss.drop_first());
    }
}

/// A failed group parse is a parse failure or an invalid name.
proof fn lemma_parse_groups_err_kind(gs: Seq<(Seq<char>, Seq<Seq<char>>)>)
    ensures
        parse_groups(gs) is Err ==> (parse_groups(gs)->Err_0 == ErrorKind::Parse || parse_groups(
            gs,
        )->Err_0 == ErrorKind::InvalidName),
    decreases gs.len(),
{
    if gs.len() > 0 {
        lemma_parse_named_reqs_err_kind(gs[0].1);
        lemma_parse_groups_err_kind(gs.drop_first());
    }
}

/// Reading one source fails only with a parse or name error: conflicts and
/// role violations arise in aggregation alone.
pub proof fn lemma_from_source_err_kind(src: LoadedModel, extras: ExtrasModel)
    ensures
        from_source_spec(src, extras) is Err ==> (from_source_spec(src, extras)->Err_0
            == ErrorKind::Parse || from_source_spec(src, extras)->Err_0
            == ErrorKind::InvalidName),
{
    match src {
        LoadedModel::ProjectManifest(s) => {
            if parsers::manifest_wf(s) && parsers::manifest_deps_of(s) is Some {
                lemma_parse_named_reqs_err_kind(parsers::manifest_deps_of(s).unwrap());
                if parsers::manifest_extras_of(s) is Some {
                    lemma_parse_groups_err_kind(parsers::manifest_extras_of(s).unwrap());
                }
            }
        },
        _ => {},
    }
}

/// Whether a manifest read with this selector would, per the advisory rule,
/// deserve a hint: it yields no requirements while its build backend is a
/// legacy one whose dependency declarations this library does not read.
pub open spec fn legacy_backend_hint_spec(s: Seq<char>, extras: ExtrasModel) -> bool {
    match from_manifest_spec(s, extras) {
        Ok(m) => m.requirements.len() == 0 && parsers::manifest_build_requires_of(s) is Some
            && exists|k: int|
            0 <= k < parsers::manifest_build_requires_of(s)->Some_0.len() && starts_with_poetry(
                parsers::manifest_build_requires_of(s)->Some_0[k],
            ),
        Err(_) => false,
    }
}

/// Whether a build requirement names the legacy backend family: its parsed
/// canonical name starts with `poetry`.
pub open spec fn starts_with_poetry(s: Seq<char>) -> bool {
    match parse_entry_spec(s) {
        Ok(EntryModel::Named(r)) => strutil::starts_with_spec(r.name, "poetry"@),
        _ => false,
    }
}

/// Computes the non-fatal advisory for a manifest read: true exactly when
/// the read succeeds with no requirements and a build requirement names the
/// legacy backend family. The caller may surface it; reading continues
/// either way.
pub fn legacy_backend_hint(s: &str, extras: &ExtrasSpecification) -> (r: bool)
    ensures
        r == legacy_backend_hint_spec(s@, extras@),
{
    let spec = match from_manifest(s, extras) {
        Ok(sp) => sp,
        Err(_) => {
            return false;
        },
    };
    if spec.requirements.len() != 0 {
        proof {
            assert(from_manifest_spec(s@, extras@)->Ok_0.requirements.len() != 0);
        }
        return false;
    }
    let reqs = match parsers::manifest_build_requires(s) {
        Some(rq) => rq,
        None => {
            proof {
                assert(from_manifest_spec(s@, extras@) is Ok ==> parsers::manifest_wf(s@));
            }
            return false;
        },
    };
    let ghost rm = reqs.deep_view();
    let mut i: usize = 0;
    while i < reqs.len()
        invariant
            0 <= i <= reqs.len(),
            rm == reqs.deep_view(),
            parsers::manifest_build_requires_of(s@) is Some,
            rm == parsers::manifest_build_requires_of(s@)->Some_0,
            from_manifest_spec(s@, extras@) is Ok,
            from_manifest_spec(s@, extras@)->Ok_0.requirements.len() == 0,
            forall|k: int| 0 <= k < i ==> !starts_with_poetry(rm[k]),
        decreases reqs.len() - i,
    {
        proof {
            assert(rm[i as int] == reqs@[i as int]@);
        }
        match parse_requirement_entry(reqs[i].as_str()) {
            Ok(RequirementEntry::Named(q)) => {
                if strutil::starts_with(q.name.as_str(), "poetry") {
                    proof {
                        assert(rm == parsers::manifest_build_requires_of(s@)->Some_0);
                        assert(starts_with_poetry(
                            parsers::manifest_build_requires_of(s@)->Some_0[i as int],
                        ));
                    }
                    return true;
                }
            },
            _ => {},
        }
        i = i + 1;
    }
    proof {
        if exists|k: int| 0 <= k < rm.len() && starts_with_poetry(rm[k]) {
            let k = choose|k: int| 0 <= k < rm.len() && starts_with_poetry(rm[k]);
            assert(!starts_with_poetry(rm[k]));
        }
    }
    false
}

} // verus!
