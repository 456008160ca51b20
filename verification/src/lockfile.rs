//! Preferences from a prior lock output: which previously pinned versions
//! bias re-resolution, under an upgrade strategy. The decision whether to
//! read the lock output at all is separate from the conversion of its
//! entries, so a caller that is told not to read performs no input at all.

use vstd::prelude::*;

use crate::name::PackageName;
use crate::requirement::{EntryModel, ReqModel, RequirementEntry, VersionOrUrlModel};
use crate::source::{FileEntryModel, RequirementsFileEntry};
use crate::strutil;
use crate::strutil::{first_index_spec, starts_with_spec};
use crate::{Error, ErrorKind};

verus! {

/// Which prior pins from a lock output are honored during re-resolution.
#[derive(Debug, Clone)]
pub enum UpgradeStrategy {
    /// Respect every pinned version.
    KeepAll,
    /// Ignore every pinned version.
    DiscardAll,
    /// Ignore the pinned versions of the named packages.
    DiscardPackages(Vec<PackageName>),
}

pub ghost enum UpgradeModel {
    KeepAll,
    DiscardAll,
    DiscardPackages(Seq<Seq<char>>),
}

impl View for UpgradeStrategy {
    type V = UpgradeModel;

    open spec fn view(&self) -> UpgradeModel {
        match self {
            UpgradeStrategy::KeepAll => UpgradeModel::KeepAll,
            UpgradeStrategy::DiscardAll => UpgradeModel::DiscardAll,
            UpgradeStrategy::DiscardPackages(l) => UpgradeModel::DiscardPackages(
                l@.map_values(|p: PackageName| p@),
            ),
        }
    }
}

/// One previously pinned version, biasing future resolution.
#[derive(Debug, Clone)]
pub struct Preference {
    pub name: PackageName,
    pub version: String,
}

pub ghost struct PreferenceModel {
    pub name: Seq<char>,
    pub version: Seq<char>,
}

impl View for Preference {
    type V = PreferenceModel;

    open spec fn view(&self) -> PreferenceModel {
        PreferenceModel { name: self.name@, version: self.version@ }
    }
}

/// Whether the lock output is read at all: only when a path is configured,
/// the path exists, and the strategy is not to discard everything. When
/// this returns false the caller performs no input.
pub fn should_read_lockfile(
    output_file_configured: bool,
    path_exists: bool,
    upgrade: &UpgradeStrategy,
) -> (r: bool)
    ensures
        r == (output_file_configured && path_exists && !(upgrade@ is DiscardAll)),
{
    match upgrade {
        UpgradeStrategy::DiscardAll => false,
        _ => output_file_configured && path_exists,
    }
}

/// The version a simple pin carries: a specifier of the exact form
/// `==version`, with a nonempty version and no further specifier after a
/// comma.
pub open spec fn pin_of(v: Seq<char>) -> Option<Seq<char>> {
    if starts_with_spec(v, "=="@) && v.len() > 2 && first_index_spec(v, ',') == -1 && v[2] != '=' {
        Some(v.skip(2))
    } else {
        None
    }
}

fn pin_of_exec(v: &str) -> (r: Option<String>)
    ensures
        r is Some <==> pin_of(v@) is Some,
        r is Some ==> r.unwrap()@ == pin_of(v@).unwrap(),
{
    let n: usize = v.unicode_len();
    proof {
        reveal_strlit("==");
    }
    if !strutil::starts_with(v, "==") {
        return None;
    }
    if n <= 2 {
        return None;
    }
    if v.get_char(2) == '=' {
        return None;
    }
    match strutil::first_index(v, ',') {
        Some(_) => {
            proof {
                strutil::lemma_first_index(v@, ',');
            }
            None
        },
        None => {
            proof {
                strutil::lemma_first_index(v@, ',');
            }
            let r = strutil::substring(v, 2, n);
            proof {
                assert(v@.subrange(2, n as int) =~= v@.skip(2));
            }
            Some(r)
        },
    }
}

/// What one lock entry converts to: nothing for an editable entry, a
/// preference for a simple pinned named requirement, and a hard conversion
/// error for anything else.
pub open spec fn pref_of_entry(e: FileEntryModel) -> Result<Option<PreferenceModel>, ErrorKind> {
    if e.editable {
        Ok(None)
    } else {
        match e.requirement {
            EntryModel::Unnamed(_) => Err(ErrorKind::PreferenceConversion),
            EntryModel::Named(r) => match r.version_or_url {
                Some(VersionOrUrlModel::Specifier(v)) => match pin_of(v) {
                    Some(ver) => Ok(Some(PreferenceModel { name: r.name, version: ver })),
                    None => Err(ErrorKind::PreferenceConversion),
                },
                _ => Err(ErrorKind::PreferenceConversion),
            },
        }
    }
}

/// All entries converted in order, editables excluded.
pub open spec fn prefs_of(entries: Seq<FileEntryModel>) -> Result<Seq<PreferenceModel>, ErrorKind>
    decreases entries.len(),
{
    if entries.len() == 0 {
        Ok(Seq::empty())
    } else {
        match pref_of_entry(entries[0]) {
            Err(k) => Err(k),
            Ok(head) => match prefs_of(entries.drop_first()) {
                Ok(rest) => match head {
                    Some(p) => Ok(seq![p] + rest),
                    None => Ok(rest),
                },
                Err(k) => Err(k),
            },
        }
    }
}

/// Whether the strategy discards the pin of this package.
pub open spec fn discards(u: UpgradeModel, name: Seq<char>) -> bool {
    match u {
        UpgradeModel::KeepAll => false,
        UpgradeModel::DiscardAll => true,
        UpgradeModel::DiscardPackages(l) => l.contains(name),
    }
}

/// The preferences that survive the strategy, in order.
pub open spec fn kept(prefs: Seq<PreferenceModel>, u: UpgradeModel) -> Seq<PreferenceModel>
    decreases prefs.len(),
{
    if prefs.len() == 0 {
        Seq::empty()
    } else {
        let rest = kept(prefs.drop_first(), u);
        if discards(u, prefs[0].name) {
            rest
        } else {
            seq![prefs[0]] + rest
        }
    }
}

fn prefs_of_exec(entries: &Vec<RequirementsFileEntry>, i: usize) -> (r: Result<
    Vec<Preference>,
    Error,
>)
    requires
        i <= entries.len(),
    ensures
        r is Ok <==> prefs_of(
            entries@.map_values(|e: RequirementsFileEntry| e@).skip(i as int),
        ) is Ok,
        r is Ok ==> r.unwrap()@.map_values(|p: Preference| p@) == prefs_of(
            entries@.map_values(|e: RequirementsFileEntry| e@).skip(i as int),
        )->Ok_0,
        r is Err ==> r.unwrap_err().kind() == prefs_of(
            entries@.map_values(|e: RequirementsFileEntry| e@).skip(i as int),
        )->Err_0,
    decreases entries.len() - i,
{
    let ghost em = entries@.map_values(|e: RequirementsFileEntry| e@).skip(i as int);
    if i == entries.len() {
        let out: Vec<Preference> = Vec::new();
        proof {
            assert(em.len() == 0);
            assert(out@.map_values(|p: Preference| p@) =~= Seq::<PreferenceModel>::empty());
        }
        return Ok(out);
    }
    proof {
        assert(em[0] == entries@.map_values(|e: RequirementsFileEntry| e@)[i as int]);
        assert(em.drop_first() =~= entries@.map_values(|e: RequirementsFileEntry| e@).skip(i + 1));
    }
    let entry = &entries[i];
    let head: Option<Preference> = if entry.editable {
        None
    } else {
        match &entry.requirement {
            RequirementEntry::Unnamed(u) => {
                return Err(Error::PreferenceConversionError(u.url.clone()));
            },
            RequirementEntry::Named(q) => match &q.version_or_url {
                Some(crate::requirement::VersionOrUrl::Specifier(v)) => match pin_of_exec(
                    v.as_str(),
                ) {
                    Some(ver) => Some(Preference { name: q.name.duplicate(), version: ver }),
                    None => {
                        return Err(Error::PreferenceConversionError(v.clone()));
                    },
                },
                _ => {
                    return Err(Error::PreferenceConversionError(q.name.as_str().to_owned()));
                },
            },
        }
    };
    match prefs_of_exec(entries, i + 1) {
        Ok(mut rest) => match head {
            Some(p) => {
                rest.insert(0, p);
                proof {
                    assert(rest@.map_values(|x: Preference| x@) =~= seq![
                        pref_of_entry(em[0])->Ok_0->Some_0,
                    ] + prefs_of(em.drop_first())->Ok_0);
                }
                Ok(rest)
            },
            None => Ok(rest),
        },
        Err(e) => Err(e),
    }
}

fn contains_name(l: &Vec<PackageName>, name: &PackageName) -> (r: bool)
    ensures
        r == l@.map_values(|p: PackageName| p@).contains(name@),
{
    let ghost lm = l@.map_values(|p: PackageName| p@);
    let mut i: usize = 0;
    while i < l.len()
        invariant
            0 <= i <= l.len(),
            lm == l@.map_values(|p: PackageName| p@),
            forall|k: int| 0 <= k < i ==> lm[k] != name@,
        decreases l.len() - i,
    {
        if l[i].eq_name(name) {
            proof {
                assert(lm[i as int] == name@);
                assert(lm.contains(name@));
            }
            return true;
        }
        i = i + 1;
    }
    proof {
        if lm.contains(name@) {
            let k = choose|k: int| 0 <= k < lm.len() && lm[k] == name@;
            assert(lm[k] == name@);
        }
    }
    false
}

fn kept_exec(prefs: Vec<Preference>, upgrade: &UpgradeStrategy) -> (r: Vec<Preference>)
    ensures
        r@.map_values(|p: Preference| p@) == kept(
            prefs@.map_values(|p: Preference| p@),
            upgrade@,
        ),
    decreases prefs.len(),
{
    let ghost pm = prefs@.map_values(|p: Preference| p@);
    if prefs.len() == 0 {
        let out: Vec<Preference> = Vec::new();
        proof {
            assert(out@.map_values(|p: Preference| p@) =~= Seq::<PreferenceModel>::empty());
        }
        return out;
    }
    let mut prefs = prefs;
    let head = prefs.remove(0);
    proof {
        assert(prefs@.map_values(|p: Preference| p@) =~= pm.drop_first());
    }
    let rest = kept_exec(prefs, upgrade);
    let discard = match upgrade {
        UpgradeStrategy::KeepAll => false,
        UpgradeStrategy::DiscardAll => true,
        UpgradeStrategy::DiscardPackages(l) => contains_name(l, &head.name),
    };
    if discard {
        rest
    } else {
        let mut out: Vec<Preference> = Vec::new();
        out.push(head);
        let ghost restm = rest@.map_values(|p: Preference| p@);
        let mut j: usize = 0;
        let mut rest = rest;
        while j < rest.len()
            invariant
                0 <= j <= rest.len(),
                out.len() == 1 + j,
                out@[0]@ == pm[0],
                restm == rest@.map_values(|p: Preference| p@),
                forall|k: int| 0 <= k < j ==> out@[1 + k]@ == restm[k],
            decreases rest.len() - j,
        {
            out.push(Preference {
                name: rest[j].name.duplicate(),
                version: rest[j].version.clone(),
            });
            j = j + 1;
        }
        proof {
            assert(out@.map_values(|p: Preference| p@) =~= seq![pm[0]] + restm);
        }
        out
    }
}

/// Converts the entries read from a lock output into preferences and applies
/// the upgrade strategy: editable entries are excluded unconditionally, an
/// entry that is not a simple pinned name-and-version requirement is a hard
/// conversion error, and the strategy then filters by name.
pub fn load_preferences(entries: Vec<RequirementsFileEntry>, upgrade: &UpgradeStrategy) -> (r:
    Result<Vec<Preference>, Error>)
    ensures
        r is Ok <==> prefs_of(entries@.map_values(|e: RequirementsFileEntry| e@)) is Ok,
        r is Ok ==> r.unwrap()@.map_values(|p: Preference| p@) == kept(
            prefs_of(entries@.map_values(|e: RequirementsFileEntry| e@))->Ok_0,
            upgrade@,
        ),
        r is Err ==> r.unwrap_err().kind() == ErrorKind::PreferenceConversion,
{
    proof {
        assert(entries@.map_values(|e: RequirementsFileEntry| e@).skip(0) =~= entries@.map_values(
            |e: RequirementsFileEntry| e@,
        ));
        lemma_prefs_err_kind(entries@.map_values(|e: RequirementsFileEntry| e@));
    }
    let prefs = match prefs_of_exec(&entries, 0) {
        Ok(p) => p,
        Err(e) => {
            return Err(e);
        },
    };
    Ok(kept_exec(prefs, upgrade))
}

proof fn lemma_prefs_err_kind(entries: Seq<FileEntryModel>)
    ensures
        prefs_of(entries) is Err ==> prefs_of(entries)->Err_0 == ErrorKind::PreferenceConversion,
    decreases entries.len(),
{
    if entries.len() > 0 {
        lemma_prefs_err_kind(entries.drop_first());
    }
}

/// Discarding everything keeps nothing, whatever was pinned.
pub proof fn lemma_discard_all_keeps_nothing(prefs: Seq<PreferenceModel>)
    ensures
        kept(prefs, UpgradeModel::DiscardAll) == Seq::<PreferenceModel>::empty(),
    decreases prefs.len(),
{
    if prefs.len() > 0 {
        lemma_discard_all_keeps_nothing(prefs.drop_first());
    }
}

} // verus!
