//! Requirements: named package requirements, URL-only (unnamed) requirements,
//! editable entries, and the grammar that reads one requirement literal.
//!
//! The accepted literal grammar is deliberately small: an optional environment
//! marker after the first `;`; a body that is either a URL or local path
//! (an unnamed requirement) or a name token, an optional bracketed
//! comma-separated extras list, and an optional version constraint — `@ url`
//! or a specifier string beginning with `=`, `<`, `>`, `!` or `~`.

use vstd::prelude::*;

use crate::name::{is_name_char, normalize_spec, valid_name_spec, ExtraName, PackageName};
use crate::strutil;
use crate::strutil::{contains_spec, first_index_spec, lemma_first_index, starts_with_spec,
    trim_spec};
use crate::{Error, ErrorKind};

verus! {

/// A version constraint: either a specifier string or a direct URL.
#[derive(Debug, Clone)]
pub enum VersionOrUrl {
    Specifier(String),
    Url(String),
}

pub ghost enum VersionOrUrlModel {
    Specifier(Seq<char>),
    Url(Seq<char>),
}

impl View for VersionOrUrl {
    type V = VersionOrUrlModel;

    open spec fn view(&self) -> VersionOrUrlModel {
        match self {
            VersionOrUrl::Specifier(s) => VersionOrUrlModel::Specifier(s@),
            VersionOrUrl::Url(u) => VersionOrUrlModel::Url(u@),
        }
    }
}

impl VersionOrUrl {
    pub fn duplicate(&self) -> (r: VersionOrUrl)
        ensures
            r@ == self@,
    {
        match self {
            VersionOrUrl::Specifier(s) => VersionOrUrl::Specifier(s.clone()),
            VersionOrUrl::Url(u) => VersionOrUrl::Url(u.clone()),
        }
    }
}

/// A named package requirement: name, requested extras, optional version or
/// URL constraint, optional environment marker. Identity is the name.
#[derive(Debug, Clone)]
pub struct Requirement {
    pub name: PackageName,
    pub extras: Vec<ExtraName>,
    pub version_or_url: Option<VersionOrUrl>,
    pub marker: Option<String>,
}

pub ghost struct ReqModel {
    pub name: Seq<char>,
    pub extras: Seq<Seq<char>>,
    pub version_or_url: Option<VersionOrUrlModel>,
    pub marker: Option<Seq<char>>,
}

impl View for Requirement {
    type V = ReqModel;

    open spec fn view(&self) -> ReqModel {
        ReqModel {
            name: self.name@,
            extras: self.extras@.map_values(|e: ExtraName| e@),
            version_or_url: match &self.version_or_url {
                Some(v) => Some(v@),
                None => None,
            },
            marker: match &self.marker {
                Some(m) => Some(m@),
                None => None,
            },
        }
    }
}

impl Requirement {
    /// Well-formed: the name and every extra are canonical.
    pub open spec fn wf(&self) -> bool {
        &&& self.name.wf()
        &&& forall|k: int| 0 <= k < self.extras.len() ==> (#[trigger] self.extras[k]).wf()
    }

    pub fn duplicate(&self) -> (r: Requirement)
        ensures
            r@ == self@,
            r.wf() == self.wf(),
    {
        let mut extras: Vec<ExtraName> = Vec::new();
        let mut i: usize = 0;
        while i < self.extras.len()
            invariant
                0 <= i <= self.extras.len(),
                extras.len() == i,
                forall|k: int| 0 <= k < i ==> extras[k]@ == self.extras[k]@ && extras[k].wf()
                    == (#[trigger] self.extras[k]).wf(),
            decreases self.extras.len() - i,
        {
            extras.push(self.extras[i].duplicate());
            i = i + 1;
        }
        let r = Requirement {
            name: self.name.duplicate(),
            extras,
            version_or_url: match &self.version_or_url {
                Some(v) => Some(v.duplicate()),
                None => None,
            },
            marker: match &self.marker {
                Some(m) => Some(m.clone()),
                None => None,
            },
        };
        proof {
            assert(r@.extras =~= self@.extras);
            assert(forall|k: int|
                0 <= k < self.extras.len() ==> ((#[trigger] r.extras[k]).wf()
                    == self.extras[k].wf()));
        }
        r
    }
}

/// A requirement given only as a URL or local path: no name is known yet.
#[derive(Debug, Clone)]
pub struct UnnamedRequirement {
    pub url: String,
    pub extras: Vec<ExtraName>,
    pub marker: Option<String>,
}

pub ghost struct UnnamedModel {
    pub url: Seq<char>,
    pub extras: Seq<Seq<char>>,
    pub marker: Option<Seq<char>>,
}

impl View for UnnamedRequirement {
    type V = UnnamedModel;

    open spec fn view(&self) -> UnnamedModel {
        UnnamedModel {
            url: self.url@,
            extras: self.extras@.map_values(|e: ExtraName| e@),
            marker: match &self.marker {
                Some(m) => Some(m@),
                None => None,
            },
        }
    }
}

impl UnnamedRequirement {
    pub open spec fn wf(&self) -> bool {
        forall|k: int| 0 <= k < self.extras.len() ==> (#[trigger] self.extras[k]).wf()
    }

    pub fn duplicate(&self) -> (r: UnnamedRequirement)
        ensures
            r@ == self@,
            r.wf() == self.wf(),
    {
        let mut extras: Vec<ExtraName> = Vec::new();
        let mut i: usize = 0;
        while i < self.extras.len()
            invariant
                0 <= i <= self.extras.len(),
                extras.len() == i,
                forall|k: int| 0 <= k < i ==> extras[k]@ == self.extras[k]@ && extras[k].wf()
                    == (#[trigger] self.extras[k]).wf(),
            decreases self.extras.len() - i,
        {
            extras.push(self.extras[i].duplicate());
            i = i + 1;
        }
        let r = UnnamedRequirement {
            url: self.url.clone(),
            extras,
            marker: match &self.marker {
                Some(m) => Some(m.clone()),
                None => None,
            },
        };
        proof {
            assert(r@.extras =~= self@.extras);
            assert(forall|k: int|
                0 <= k < self.extras.len() ==> ((#[trigger] r.extras[k]).wf()
                    == self.extras[k].wf()));
        }
        r
    }
}

/// One entry of a requirement list: already named, or still unnamed.
#[derive(Debug, Clone)]
pub enum RequirementEntry {
    Named(Requirement),
    Unnamed(UnnamedRequirement),
}

pub ghost enum EntryModel {
    Named(ReqModel),
    Unnamed(UnnamedModel),
}

impl View for RequirementEntry {
    type V = EntryModel;

    open spec fn view(&self) -> EntryModel {
        match self {
            RequirementEntry::Named(r) => EntryModel::Named(r@),
            RequirementEntry::Unnamed(u) => EntryModel::Unnamed(u@),
        }
    }
}

impl RequirementEntry {
    pub open spec fn wf(&self) -> bool {
        match self {
            RequirementEntry::Named(r) => r.wf(),
            RequirementEntry::Unnamed(u) => u.wf(),
        }
    }

    pub fn duplicate(&self) -> (r: RequirementEntry)
        ensures
            r@ == self@,
            r.wf() == self.wf(),
    {
        match self {
            RequirementEntry::Named(q) => RequirementEntry::Named(q.duplicate()),
            RequirementEntry::Unnamed(u) => RequirementEntry::Unnamed(u.duplicate()),
        }
    }
}

/// A local project installed by reference; carried opaquely through
/// aggregation.
#[derive(Debug, Clone)]
pub struct EditableRequirement {
    pub path: String,
}

impl View for EditableRequirement {
    type V = Seq<char>;

    open spec fn view(&self) -> Seq<char> {
        self.path@
    }
}

impl EditableRequirement {
    pub fn duplicate(&self) -> (r: EditableRequirement)
        ensures
            r@ == self@,
    {
        EditableRequirement { path: self.path.clone() }
    }
}

/// The length of the maximal name-character prefix of `b`.
pub open spec fn name_end_spec(b: Seq<char>) -> int
    decreases b.len(),
{
    if b.len() == 0 || !is_name_char(b[0]) {
        0
    } else {
        1 + name_end_spec(b.drop_first())
    }
}

pub proof fn lemma_name_end(b: Seq<char>)
    ensures
        0 <= name_end_spec(b) <= b.len(),
        forall|k: int| 0 <= k < name_end_spec(b) ==> is_name_char(#[trigger] b[k]),
        name_end_spec(b) < b.len() ==> !is_name_char(b[name_end_spec(b)]),
    decreases b.len(),
{
    if b.len() > 0 && is_name_char(b[0]) {
        lemma_name_end(b.drop_first());
        assert(forall|k: int| 1 <= k < b.len() ==> b[k] == b.drop_first()[k - 1]);
    }
}

fn name_end(b: &str) -> (r: usize)
    ensures
        r as int == name_end_spec(b@),
{
    let n: usize = b.unicode_len();
    let mut i: usize = 0;
    while i < n
        invariant
            0 <= i <= n,
            n == b@.len(),
            forall|k: int| 0 <= k < i ==> is_name_char(#[trigger] b@[k]),
        decreases n - i,
    {
        let c = b.get_char(i);
        let stop = !(('a' <= c && c <= 'z') || ('A' <= c && c <= 'Z') || ('0' <= c && c <= '9')
            || c == '-' || c == '_' || c == '.');
        if stop {
            proof {
                lemma_name_end(b@);
                let r = name_end_spec(b@);
                if r < i {
                    assert(is_name_char(b@[r]));
                }
                if r > i {
                    assert(is_name_char(b@[i as int]));
                }
            }
            return i;
        }
        i = i + 1;
    }
    proof {
        lemma_name_end(b@);
        let r = name_end_spec(b@);
        if r < n {
            assert(is_name_char(b@[r]));
        }
    }
    n
}

/// The extras inside the brackets: comma-separated name tokens, each trimmed,
/// validated and normalized. `Err` when any token is not a valid name.
pub open spec fn parse_extras_spec(inside: Seq<char>) -> Result<Seq<Seq<char>>, ()>
    decreases inside.len(),
    via parse_extras_spec_dec
{
    let i = first_index_spec(inside, ',');
    if i == -1 {
        let t = trim_spec(inside);
        if valid_name_spec(t) {
            Ok(seq![normalize_spec(t)])
        } else {
            Err(())
        }
    } else {
        let t = trim_spec(inside.take(i));
        if !valid_name_spec(t) {
            Err(())
        } else {
            match parse_extras_spec(inside.skip(i + 1)) {
                Ok(rest) => Ok(seq![normalize_spec(t)] + rest),
                Err(()) => Err(()),
            }
        }
    }
}

#[via_fn]
proof fn parse_extras_spec_dec(inside: Seq<char>) {
    lemma_first_index(inside, ',');
}

fn parse_extras(inside: &str) -> (r: Result<Vec<ExtraName>, ()>)
    ensures
        r is Ok <==> parse_extras_spec(inside@) is Ok,
        r is Ok ==> r.unwrap()@.map_values(|e: ExtraName| e@) == parse_extras_spec(
            inside@,
        ).unwrap(),
        r is Ok ==> forall|k: int|
            0 <= k < r.unwrap()@.len() ==> (#[trigger] r.unwrap()@[k]).wf(),
    decreases inside@.len(),
{
    let n: usize = inside.unicode_len();
    match strutil::first_index(inside, ',') {
        Some(i) => {
            proof {
                lemma_first_index(inside@, ',');
            }
            let head = strutil::trim(strutil::substring(inside, 0, i).as_str());
            proof {
                assert(inside@.subrange(0, i as int) =~= inside@.take(i as int));
            }
            match ExtraName::parse(head.as_str()) {
                Ok(e) => {
                    let tail = strutil::substring(inside, i + 1, n);
                    proof {
                        assert(inside@.subrange(i + 1, n as int) =~= inside@.skip(i + 1));
                    }
                    match parse_extras(tail.as_str()) {
                        Ok(mut rest) => {
                            rest.insert(0, e);
                            proof {
                                assert(rest@.map_values(|x: ExtraName| x@) =~= seq![
                                    normalize_spec(trim_spec(inside@.take(i as int))),
                                ] + parse_extras_spec(inside@.skip(i + 1)).unwrap());
                            }
                            Ok(rest)
                        },
                        Err(()) => Err(()),
                    }
                },
                Err(()) => Err(()),
            }
        },
        None => {
            proof {
                lemma_first_index(inside@, ',');
            }
            let t = strutil::trim(inside);
            match ExtraName::parse(t.as_str()) {
                Ok(e) => {
                    let mut v: Vec<ExtraName> = Vec::new();
                    v.push(e);
                    proof {
                        assert(v@.map_values(|x: ExtraName| x@) =~= seq![
                            normalize_spec(trim_spec(inside@)),
                        ]);
                    }
                    Ok(v)
                },
                Err(()) => Err(()),
            }
        },
    }
}

/// The version part that follows the name and extras: nothing, `@ url`, or a
/// specifier string starting with a comparison operator.
pub open spec fn parse_version_spec(rest: Seq<char>) -> Result<Option<VersionOrUrlModel>, ()> {
    let v = trim_spec(rest);
    if v.len() == 0 {
        Ok(None)
    } else if v[0] == '@' {
        let u = trim_spec(v.drop_first());
        if u.len() == 0 {
            Err(())
        } else {
            Ok(Some(VersionOrUrlModel::Url(u)))
        }
    } else if v[0] == '=' || v[0] == '<' || v[0] == '>' || v[0] == '!' || v[0] == '~' {
        Ok(Some(VersionOrUrlModel::Specifier(v)))
    } else {
        Err(())
    }
}

fn parse_version(rest: &str) -> (r: Result<Option<VersionOrUrl>, ()>)
    ensures
        r is Ok <==> parse_version_spec(rest@) is Ok,
        r is Ok ==> (match r.unwrap() {
            Some(v) => parse_version_spec(rest@).unwrap() == Some(v@),
            None => parse_version_spec(rest@).unwrap() == Option::<VersionOrUrlModel>::None,
        }),
{
    let v = strutil::trim(rest);
    let n: usize = v.as_str().unicode_len();
    if n == 0 {
        return Ok(None);
    }
    let c0 = v.as_str().get_char(0);
    if c0 == '@' {
        let after = strutil::substring(v.as_str(), 1, n);
        proof {
            assert(v@.subrange(1, n as int) =~= v@.drop_first());
        }
        let u = strutil::trim(after.as_str());
        if u.as_str().unicode_len() == 0 {
            return Err(());
        }
        return Ok(Some(VersionOrUrl::Url(u)));
    }
    if c0 == '=' || c0 == '<' || c0 == '>' || c0 == '!' || c0 == '~' {
        return Ok(Some(VersionOrUrl::Specifier(v)));
    }
    Err(())
}

/// Whether a literal body denotes a URL or local path rather than a name.
pub open spec fn is_url_like_spec(b: Seq<char>) -> bool {
    ||| contains_spec(b, "://"@)
    ||| starts_with_spec(b, "./"@)
    ||| starts_with_spec(b, "../"@)
    ||| starts_with_spec(b, "/"@)
}

fn is_url_like(b: &str) -> (r: bool)
    ensures
        r == is_url_like_spec(b@),
{
    strutil::contains_substr(b, "://") || strutil::starts_with(b, "./") || strutil::starts_with(
        b,
        "../",
    ) || strutil::starts_with(b, "/")
}

/// The named-body grammar: name token, optional `[extras]`, optional version
/// part.
pub open spec fn parse_named_spec(b: Seq<char>, marker: Option<Seq<char>>) -> Result<
    EntryModel,
    ErrorKind,
> {
    let k = name_end_spec(b);
    if k == 0 {
        Err(ErrorKind::Parse)
    } else {
        let tok = b.take(k);
        if !valid_name_spec(tok) {
            Err(ErrorKind::Parse)
        } else {
            let nm = normalize_spec(tok);
            let rest = b.skip(k);
            if rest.len() > 0 && rest[0] == '[' {
                let j = first_index_spec(rest, ']');
                if j == -1 {
                    Err(ErrorKind::Parse)
                } else {
                    match parse_extras_spec(rest.subrange(1, j)) {
                        Ok(exs) => match parse_version_spec(rest.skip(j + 1)) {
                            Ok(v) => Ok(
                                EntryModel::Named(
                                    ReqModel { name: nm, extras: exs, version_or_url: v, marker },
                                ),
                            ),
                            Err(()) => Err(ErrorKind::Parse),
                        },
                        Err(()) => Err(ErrorKind::Parse),
                    }
                }
            } else {
                match parse_version_spec(rest) {
                    Ok(v) => Ok(
                        EntryModel::Named(
                            ReqModel {
                                name: nm,
                                extras: Seq::empty(),
                                version_or_url: v,
                                marker,
                            },
                        ),
                    ),
                    Err(()) => Err(ErrorKind::Parse),
                }
            }
        }
    }
}

/// The whole literal grammar. The text after the first `;` is the
/// environment marker (present and nonempty, or the literal is malformed);
/// a URL-like body becomes an unnamed requirement; anything else must parse
/// under the named-body grammar.
pub open spec fn parse_entry_spec(s: Seq<char>) -> Result<EntryModel, ErrorKind> {
    let i = first_index_spec(s, ';');
    let body = if i == -1 {
        trim_spec(s)
    } else {
        trim_spec(s.take(i))
    };
    let marker = if i == -1 {
        Option::<Seq<char>>::None
    } else {
        Some(trim_spec(s.skip(i + 1)))
    };
    if marker is Some && marker.unwrap().len() == 0 {
        Err(ErrorKind::Parse)
    } else if body.len() == 0 {
        Err(ErrorKind::Parse)
    } else if is_url_like_spec(body) {
        Ok(EntryModel::Unnamed(UnnamedModel { url: body, extras: Seq::empty(), marker }))
    } else {
        parse_named_spec(body, marker)
    }
}

fn parse_named(b: &str, marker: Option<String>) -> (r: Result<RequirementEntry, Error>)
    ensures
        r is Ok <==> parse_named_spec(
            b@,
            match marker {
                Some(m) => Some(m@),
                None => None,
            },
        ) is Ok,
        r is Ok ==> r.unwrap()@ == parse_named_spec(
            b@,
            match marker {
                Some(m) => Some(m@),
                None => None,
            },
        )->Ok_0 && r.unwrap().wf(),
        r is Err ==> r.unwrap_err().kind() == ErrorKind::Parse,
{
    let n: usize = b.unicode_len();
    let k = name_end(b);
    proof {
        lemma_name_end(b@);
    }
    if k == 0 {
        return Err(Error::ParseError(b.to_owned()));
    }
    let tok = strutil::substring(b, 0, k);
    proof {
        assert(b@.subrange(0, name_end_spec(b@)) =~= b@.take(name_end_spec(b@)));
    }
    let nm = match PackageName::parse(tok.as_str()) {
        Ok(nm) => nm,
        Err(()) => {
            return Err(Error::ParseError(b.to_owned()));
        },
    };
    let rest = strutil::substring(b, k, n);
    proof {
        assert(b@.subrange(k as int, n as int) =~= b@.skip(k as int));
    }
    let restn: usize = rest.as_str().unicode_len();
    if restn > 0 && rest.as_str().get_char(0) == '[' {
        match strutil::first_index(rest.as_str(), ']') {
            Some(j) => {
                proof {
                    lemma_first_index(rest@, ']');
                }
                let inside = strutil::substring(rest.as_str(), 1, j);
                let exs = match parse_extras(inside.as_str()) {
                    Ok(exs) => exs,
                    Err(()) => {
                        return Err(Error::ParseError(b.to_owned()));
                    },
                };
                let after = strutil::substring(rest.as_str(), j + 1, restn);
                proof {
                    assert(rest@.subrange(j + 1, restn as int) =~= rest@.skip(j + 1));
                }
                match parse_version(after.as_str()) {
                    Ok(v) => {
                        let e = RequirementEntry::Named(
                            Requirement { name: nm, extras: exs, version_or_url: v, marker },
                        );
                        Ok(e)
                    },
                    Err(()) => Err(Error::ParseError(b.to_owned())),
                }
            },
            None => {
                proof {
                    lemma_first_index(rest@, ']');
                }
                Err(Error::ParseError(b.to_owned()))
            },
        }
    } else {
        match parse_version(rest.as_str()) {
            Ok(v) => {
                let extras: Vec<ExtraName> = Vec::new();
                proof {
                    assert(extras@.map_values(|x: ExtraName| x@) =~= Seq::<Seq<char>>::empty());
                }
                let e = RequirementEntry::Named(
                    Requirement { name: nm, extras, version_or_url: v, marker },
                );
                Ok(e)
            },
            Err(()) => Err(Error::ParseError(b.to_owned())),
        }
    }
}

/// Reads one requirement literal under the library's grammar.
///
/// Succeeds exactly when the grammar accepts the literal; the result is the
/// entry the grammar denotes, and a failure is a `ParseError` naming the
/// offending literal.
pub fn parse_requirement_entry(s: &str) -> (r: Result<RequirementEntry, Error>)
    ensures
        r is Ok <==> parse_entry_spec(s@) is Ok,
        r is Ok ==> r.unwrap()@ == parse_entry_spec(s@)->Ok_0 && r.unwrap().wf(),
        r is Err ==> (r.unwrap_err() matches Error::ParseError(t) && t@ == s@),
{
    let n: usize = s.unicode_len();
    let (body, marker) = match strutil::first_index(s, ';') {
        Some(i) => {
            proof {
                lemma_first_index(s@, ';');
            }
            let b = strutil::trim(strutil::substring(s, 0, i).as_str());
            let m = strutil::trim(strutil::substring(s, i + 1, n).as_str());
            proof {
                assert(s@.subrange(0, i as int) =~= s@.take(i as int));
                assert(s@.subrange(i + 1, n as int) =~= s@.skip(i + 1));
            }
            if m.as_str().unicode_len() == 0 {
                return Err(Error::ParseError(s.to_owned()));
            }
            (b, Some(m))
        },
        None => {
            proof {
                lemma_first_index(s@, ';');
            }
            (strutil::trim(s), None)
        },
    };
    if body.as_str().unicode_len() == 0 {
        return Err(Error::ParseError(s.to_owned()));
    }
    if is_url_like(body.as_str()) {
        let extras: Vec<ExtraName> = Vec::new();
        proof {
            assert(extras@.map_values(|x: ExtraName| x@) =~= Seq::<Seq<char>>::empty());
        }
        let u = UnnamedRequirement { url: body, extras, marker };
        return Ok(RequirementEntry::Unnamed(u));
    }
    match parse_named(body.as_str(), marker) {
        Ok(e) => Ok(e),
        Err(_) => Err(Error::ParseError(s.to_owned())),
    }
}

} // verus!
