//! Name resolution for URL- or path-only requirements: an ordered cascade of
//! best-effort strategies, the first success winning. Wheel and
//! source-archive filename grammars are decided from the URL alone; a local
//! path falls back to the metadata files found at the directory root, probed
//! by the caller (the library itself performs no filesystem reads), taking
//! the first file whose declared name is a syntactically valid package name.

use vstd::prelude::*;

use crate::name::{lower_char_spec, normalize_spec, valid_name_spec, PackageName};
use crate::parsers;
use crate::requirement::{
    EntryModel, ReqModel, Requirement, RequirementEntry, UnnamedModel, UnnamedRequirement,
    VersionOrUrl, VersionOrUrlModel,
};
use crate::source::RequirementsSpecification;
use crate::strutil;
use crate::strutil::{
    ends_with_spec, first_index_spec, last_index_spec, starts_with_spec, trim_spec,
};
use crate::{Error, ErrorKind};

verus! {

/// The URL with any query or fragment part removed.
pub open spec fn url_without_query(u: Seq<char>) -> Seq<char> {
    let q = first_index_spec(u, '?');
    let base = if q == -1 {
        u
    } else {
        u.take(q)
    };
    let h = first_index_spec(base, '#');
    if h == -1 {
        base
    } else {
        base.take(h)
    }
}

/// The last path segment of the URL, before any query or fragment.
pub open spec fn url_filename(u: Seq<char>) -> Seq<char> {
    let b = url_without_query(u);
    b.skip(last_index_spec(b, '/') + 1)
}

fn url_filename_exec(u: &str) -> (r: String)
    ensures
        r@ == url_filename(u@),
{
    let n: usize = u.unicode_len();
    let cut1 = match strutil::first_index(u, '?') {
        Some(q) => {
            proof {
                strutil::lemma_first_index(u@, '?');
            }
            strutil::substring(u, 0, q)
        },
        None => {
            proof {
                assert(u@.take(n as int) =~= u@);
            }
            strutil::substring(u, 0, n)
        },
    };
    proof {
        assert(u@.subrange(0, if first_index_spec(u@, '?') == -1 {
            n as int
        } else {
            first_index_spec(u@, '?')
        }) =~= (if first_index_spec(u@, '?') == -1 {
            u@
        } else {
            u@.take(first_index_spec(u@, '?'))
        }));
    }
    let m: usize = cut1.as_str().unicode_len();
    let base = match strutil::first_index(cut1.as_str(), '#') {
        Some(h) => {
            proof {
                strutil::lemma_first_index(cut1@, '#');
            }
            strutil::substring(cut1.as_str(), 0, h)
        },
        None => cut1,
    };
    proof {
        assert(base@ =~= url_without_query(u@));
    }
    let k: usize = base.as_str().unicode_len();
    match strutil::last_index(base.as_str(), '/') {
        Some(i) => {
            proof {
                strutil::lemma_last_index(base@, '/');
            }
            let r = strutil::substring(base.as_str(), i + 1, k);
            proof {
                assert(base@.subrange(last_index_spec(base@, '/') + 1, k as int) =~= url_filename(
                    u@,
                ));
            }
            r
        },
        None => {
            proof {
                assert(base@.skip(0) =~= base@);
            }
            let r = strutil::substring(base.as_str(), 0, k);
            proof {
                assert(base@.subrange(0, k as int) =~= base@);
            }
            r
        },
    }
}

/// The filename lowered character by character.
pub open spec fn lower_seq(s: Seq<char>) -> Seq<char> {
    s.map_values(|c: char| lower_char_spec(c))
}

/// Whether the filename carries the wheel-archive suffix, case-insensitively.
pub open spec fn has_wheel_suffix(f: Seq<char>) -> bool {
    ends_with_spec(lower_seq(f), ".whl"@)
}

fn has_wheel_suffix_exec(f: &str) -> (r: bool)
    ensures
        r == has_wheel_suffix(f@),
{
    let n: usize = f.unicode_len();
    proof {
        reveal_strlit(".whl");
    }
    if n < 4 {
        return false;
    }
    let c0 = f.get_char(n - 4);
    let c1 = f.get_char(n - 3);
    let c2 = f.get_char(n - 2);
    let c3 = f.get_char(n - 1);
    let ok = c0 == '.' && (c1 == 'w' || c1 == 'W') && (c2 == 'h' || c2 == 'H') && (c3 == 'l' || c3
        == 'L');
    proof {
        let ls = lower_seq(f@);
        assert(ls.len() == n);
        assert(ls[n - 4] == lower_char_spec(f@[n - 4]));
        assert(ls[n - 3] == lower_char_spec(f@[n - 3]));
        assert(ls[n - 2] == lower_char_spec(f@[n - 2]));
        assert(ls[n - 1] == lower_char_spec(f@[n - 1]));
        if ok {
            assert(ls.skip(n - 4) =~= ".whl"@);
        } else {
            if ends_with_spec(ls, ".whl"@) {
                assert(ls.skip(n - 4)[0] == '.' && ls.skip(n - 4)[1] == 'w' && ls.skip(n - 4)[2]
                    == 'h' && ls.skip(n - 4)[3] == 'l');
            }
        }
    }
    ok
}

/// The package name declared by a wheel filename: the first of five or six
/// dash-separated segments of the stem, when it is a valid name and the
/// version segment is nonempty.
pub open spec fn wheel_name_spec(f: Seq<char>) -> Option<Seq<char>> {
    let stem = f.take(f.len() - 4);
    let dashes = strutil::count_char_spec(stem, '-');
    if dashes != 4 && dashes != 5 {
        None
    } else {
        let i = first_index_spec(stem, '-');
        if i <= 0 {
            None
        } else {
            let tok = stem.take(i);
            let after = stem.skip(i + 1);
            let j = first_index_spec(after, '-');
            if j == 0 || after.len() == 0 {
                None
            } else if valid_name_spec(tok) {
                Some(normalize_spec(tok))
            } else {
                None
            }
        }
    }
}

fn wheel_name(f: &str) -> (r: Option<PackageName>)
    requires
        f@.len() >= 4,
    ensures
        r is Some <==> wheel_name_spec(f@) is Some,
        r is Some ==> r.unwrap()@ == wheel_name_spec(f@).unwrap() && r.unwrap().wf(),
{
    let n: usize = f.unicode_len();
    let stem = strutil::substring(f, 0, n - 4);
    proof {
        assert(f@.subrange(0, n - 4) =~= f@.take(f@.len() - 4));
    }
    let dashes = strutil::count_char(stem.as_str(), '-');
    if dashes != 4 && dashes != 5 {
        return None;
    }
    let sn: usize = stem.as_str().unicode_len();
    let i = match strutil::first_index(stem.as_str(), '-') {
        Some(i) => {
            proof {
                strutil::lemma_first_index(stem@, '-');
            }
            i
        },
        None => {
            proof {
                strutil::lemma_first_index(stem@, '-');
                assert(strutil::count_char_spec(stem@, '-') == 4 || strutil::count_char_spec(
                    stem@,
                    '-',
                ) == 5);
                lemma_count_char_zero(stem@, '-');
            }
            return None;
        },
    };
    if i == 0 {
        return None;
    }
    let tok = strutil::substring(stem.as_str(), 0, i);
    proof {
        assert(stem@.subrange(0, i as int) =~= stem@.take(i as int));
    }
    let after = strutil::substring(stem.as_str(), i + 1, sn);
    proof {
        assert(stem@.subrange(i + 1, sn as int) =~= stem@.skip(i + 1));
    }
    let an: usize = after.as_str().unicode_len();
    if an == 0 {
        return None;
    }
    let j_is_zero = after.as_str().get_char(0) == '-';
    proof {
        strutil::lemma_first_index(after@, '-');
        if j_is_zero {
            assert(first_index_spec(after@, '-') == 0);
        } else {
            assert(first_index_spec(after@, '-') != 0);
        }
    }
    if j_is_zero {
        return None;
    }
    match PackageName::parse(tok.as_str()) {
        Ok(p) => Some(p),
        Err(()) => None,
    }
}

proof fn lemma_count_char_zero(s: Seq<char>, c: char)
    requires
        forall|k: int| 0 <= k < s.len() ==> s[k] != c,
    ensures
        strutil::count_char_spec(s, c) == 0,
    decreases s.len(),
{
    if s.len() > 0 {
        lemma_count_char_zero(s.drop_last(), c);
    }
}

/// The stem of a source-archive filename, when the suffix is a known
/// archive suffix (case-insensitively): `.tar.gz`, `.tar.bz2`, `.tar.xz`,
/// `.zip` or `.tar`.
pub open spec fn sdist_stem_spec(f: Seq<char>) -> Option<Seq<char>> {
    let lf = lower_seq(f);
    if ends_with_spec(lf, ".tar.gz"@) {
        Some(f.take(f.len() - 7))
    } else if ends_with_spec(lf, ".tar.bz2"@) {
        Some(f.take(f.len() - 8))
    } else if ends_with_spec(lf, ".tar.xz"@) {
        Some(f.take(f.len() - 7))
    } else if ends_with_spec(lf, ".zip"@) {
        Some(f.take(f.len() - 4))
    } else if ends_with_spec(lf, ".tar"@) {
        Some(f.take(f.len() - 4))
    } else {
        None
    }
}

/// The package name declared by a source-archive filename: the part of the
/// stem before its last dash, when that is a valid name and a nonempty
/// version follows the dash.
pub open spec fn sdist_name_spec(f: Seq<char>) -> Option<Seq<char>> {
    match sdist_stem_spec(f) {
        Some(stem) => {
            let i = last_index_spec(stem, '-');
            if i <= 0 {
                None
            } else if i + 1 >= stem.len() {
                None
            } else {
                let tok = stem.take(i);
                if valid_name_spec(tok) {
                    Some(normalize_spec(tok))
                } else {
                    None
                }
            }
        },
        None => None,
    }
}

fn lower_string(f: &str) -> (r: String)
    ensures
        r@ == lower_seq(f@),
{
    let n: usize = f.unicode_len();
    let mut out = String::new();
    let mut i: usize = 0;
    while i < n
        invariant
            0 <= i <= n,
            n == f@.len(),
            out@ =~= lower_seq(f@).take(i as int),
        decreases n - i,
    {
        let c = f.get_char(i);
        let lc = if 'A' <= c && c <= 'Z' {
            (((c as u32) + 32) as u8) as char
        } else {
            c
        };
        strutil::push_char(&mut out, lc);
        proof {
            assert(lower_seq(f@)[i as int] == lower_char_spec(f@[i as int]));
            assert(lower_seq(f@).take(i + 1) =~= lower_seq(f@).take(i as int).push(
                lower_char_spec(f@[i as int]),
            ));
        }
        i = i + 1;
    }
    proof {
        assert(lower_seq(f@).take(n as int) =~= lower_seq(f@));
    }
    out
}

fn sdist_name(f: &str) -> (r: Option<PackageName>)
    ensures
        r is Some <==> sdist_name_spec(f@) is Some,
        r is Some ==> r.unwrap()@ == sdist_name_spec(f@).unwrap() && r.unwrap().wf(),
{
    let n: usize = f.unicode_len();
    let lf = lower_string(f);
    proof {
        reveal_strlit(".tar.gz");
        reveal_strlit(".tar.bz2");
        reveal_strlit(".tar.xz");
        reveal_strlit(".zip");
        reveal_strlit(".tar");
        assert(lf@.len() == n);
    }
    let stem_len: usize = if strutil::ends_with(lf.as_str(), ".tar.gz") {
        n - 7
    } else if strutil::ends_with(lf.as_str(), ".tar.bz2") {
        n - 8
    } else if strutil::ends_with(lf.as_str(), ".tar.xz") {
        n - 7
    } else if strutil::ends_with(lf.as_str(), ".zip") {
        n - 4
    } else if strutil::ends_with(lf.as_str(), ".tar") {
        n - 4
    } else {
        return None;
    };
    let stem = strutil::substring(f, 0, stem_len);
    proof {
        assert(f@.subrange(0, stem_len as int) =~= sdist_stem_spec(f@).unwrap());
    }
    let i = match strutil::last_index(stem.as_str(), '-') {
        Some(i) => {
            proof {
                strutil::lemma_last_index(stem@, '-');
            }
            i
        },
        None => {
            proof {
                strutil::lemma_last_index(stem@, '-');
            }
            return None;
        },
    };
    if i == 0 {
        return None;
    }
    let sn: usize = stem.as_str().unicode_len();
    if i + 1 >= sn {
        return None;
    }
    let tok = strutil::substring(stem.as_str(), 0, i);
    proof {
        assert(stem@.subrange(0, i as int) =~= stem@.take(i as int));
    }
    match PackageName::parse(tok.as_str()) {
        Ok(p) => Some(p),
        Err(()) => None,
    }
}

/// Whether the URL denotes a local filesystem path.
pub open spec fn is_local_path(u: Seq<char>) -> bool {
    ||| starts_with_spec(u, "file://"@)
    ||| starts_with_spec(u, "/"@)
    ||| starts_with_spec(u, "./"@)
    ||| starts_with_spec(u, "../"@)
}

fn is_local_path_exec(u: &str) -> (r: bool)
    ensures
        r == is_local_path(u@),
{
    strutil::starts_with(u, "file://") || strutil::starts_with(u, "/") || strutil::starts_with(
        u,
        "./",
    ) || strutil::starts_with(u, "../")
}

/// The name declared by a legacy metadata text: the value of the first line
/// that starts with `Name:`, trimmed.
pub open spec fn pkg_info_name_spec(s: Seq<char>) -> Option<Seq<char>>
    decreases s.len(),
    via pkg_info_name_spec_dec
{
    if starts_with_spec(s, "Name:"@) {
        let rest = s.skip(5);
        let e = first_index_spec(rest, '\n');
        if e == -1 {
            Some(trim_spec(rest))
        } else {
            Some(trim_spec(rest.take(e)))
        }
    } else {
        let i = first_index_spec(s, '\n');
        if i == -1 {
            None
        } else {
            pkg_info_name_spec(s.skip(i + 1))
        }
    }
}

#[via_fn]
proof fn pkg_info_name_spec_dec(s: Seq<char>) {
    strutil::lemma_first_index(s, '\n');
}

fn pkg_info_name(s: &str) -> (r: Option<String>)
    ensures
        r is Some <==> pkg_info_name_spec(s@) is Some,
        r is Some ==> r.unwrap()@ == pkg_info_name_spec(s@).unwrap(),
    decreases s@.len(),
{
    let n: usize = s.unicode_len();
    if strutil::starts_with(s, "Name:") {
        proof {
            reveal_strlit("Name:");
        }
        let rest = strutil::substring(s, 5, n);
        proof {
            assert(s@.subrange(5, n as int) =~= s@.skip(5));
        }
        let rn: usize = rest.as_str().unicode_len();
        match strutil::first_index(rest.as_str(), '\n') {
            Some(e) => {
                proof {
                    strutil::lemma_first_index(rest@, '\n');
                }
                let line = strutil::substring(rest.as_str(), 0, e);
                proof {
                    assert(rest@.subrange(0, e as int) =~= rest@.take(e as int));
                }
                Some(strutil::trim(line.as_str()))
            },
            None => {
                proof {
                    strutil::lemma_first_index(rest@, '\n');
                }
                Some(strutil::trim(rest.as_str()))
            },
        }
    } else {
        match strutil::first_index(s, '\n') {
            Some(i) => {
                proof {
                    strutil::lemma_first_index(s@, '\n');
                }
                let tail = strutil::substring(s, i + 1, n);
                proof {
                    assert(s@.subrange(i + 1, n as int) =~= s@.skip(i + 1));
                }
                pkg_info_name(tail.as_str())
            },
            None => {
                proof {
                    strutil::lemma_first_index(s@, '\n');
                }
                None
            },
        }
    }
}

/// The caller-gathered probe of a local directory: whether the path exists,
/// and the text of each candidate metadata file found at its root. The
/// library itself performs no filesystem reads.
#[derive(Debug, Clone)]
pub struct DirProbe {
    pub exists: bool,
    pub pkg_info: Option<String>,
    pub pyproject: Option<String>,
    pub setup_cfg: Option<String>,
    pub setup_py: Option<String>,
}

pub ghost struct ProbeModel {
    pub exists: bool,
    pub pkg_info: Option<Seq<char>>,
    pub pyproject: Option<Seq<char>>,
    pub setup_cfg: Option<Seq<char>>,
    pub setup_py: Option<Seq<char>>,
}

impl View for DirProbe {
    type V = ProbeModel;

    open spec fn view(&self) -> ProbeModel {
        ProbeModel {
            exists: self.exists,
            pkg_info: match &self.pkg_info {
                Some(t) => Some(t@),
                None => None,
            },
            pyproject: match &self.pyproject {
                Some(t) => Some(t@),
                None => None,
            },
            setup_cfg: match &self.setup_cfg {
                Some(t) => Some(t@),
                None => None,
            },
            setup_py: match &self.setup_py {
                Some(t) => Some(t@),
                None => None,
            },
        }
    }
}

impl DirProbe {
    /// A probe for a path that was not found, or was never taken.
    pub fn absent() -> (r: DirProbe)
        ensures
            r@ == (ProbeModel {
                exists: false,
                pkg_info: None,
                pyproject: None,
                setup_cfg: None,
                setup_py: None,
            }),
    {
        DirProbe { exists: false, pkg_info: None, pyproject: None, setup_cfg: None, setup_py: None }
    }
}

/// A raw candidate accepted only when it is a syntactically valid name.
pub open spec fn accepted(c: Option<Seq<char>>) -> Option<Seq<char>> {
    if c is Some && valid_name_spec(c.unwrap()) {
        Some(normalize_spec(c.unwrap()))
    } else {
        None
    }
}

pub open spec fn or_name(a: Option<Seq<char>>, b: Option<Seq<char>>) -> Option<Seq<char>> {
    if a is Some {
        a
    } else {
        b
    }
}

/// The ordered directory cascade: legacy metadata text, the manifest's
/// project name, its legacy build-tool name, the setup-configuration name,
/// and the setup-script scan; the first syntactically valid name wins.
pub open spec fn probe_name_spec(p: ProbeModel) -> Option<Seq<char>> {
    let c1 = match p.pkg_info {
        Some(t) => pkg_info_name_spec(t),
        None => None,
    };
    let c2 = match p.pyproject {
        Some(t) => if parsers::manifest_wf(t) {
            parsers::manifest_name_of(t)
        } else {
            None
        },
        None => None,
    };
    let c3 = match p.pyproject {
        Some(t) => if parsers::manifest_wf(t) {
            parsers::manifest_poetry_name_of(t)
        } else {
            None
        },
        None => None,
    };
    let c4 = match p.setup_cfg {
        Some(t) => parsers::setup_cfg_name_of(t),
        None => None,
    };
    let c5 = match p.setup_py {
        Some(t) => parsers::setup_py_name_of(t),
        None => None,
    };
    or_name(
        accepted(c1),
        or_name(accepted(c2), or_name(accepted(c3), or_name(accepted(c4), accepted(c5)))),
    )
}

fn probe_name(p: &DirProbe) -> (r: Option<PackageName>)
    ensures
        r is Some <==> probe_name_spec(p@) is Some,
        r is Some ==> r.unwrap()@ == probe_name_spec(p@).unwrap() && r.unwrap().wf(),
{
    if let Some(t) = &p.pkg_info {
        if let Some(raw) = pkg_info_name(t.as_str()) {
            if let Ok(nm) = PackageName::parse(raw.as_str()) {
                return Some(nm);
            }
        }
    }
    if let Some(t) = &p.pyproject {
        if let Some(raw) = parsers::manifest_project_name(t.as_str()) {
            if let Ok(nm) = PackageName::parse(raw.as_str()) {
                return Some(nm);
            }
        }
        if let Some(raw) = parsers::manifest_poetry_name(t.as_str()) {
            if let Ok(nm) = PackageName::parse(raw.as_str()) {
                return Some(nm);
            }
        }
    }
    if let Some(t) = &p.setup_cfg {
        if let Some(raw) = parsers::setup_cfg_metadata_name(t.as_str()) {
            if let Ok(nm) = PackageName::parse(raw.as_str()) {
                return Some(nm);
            }
        }
    }
    if let Some(t) = &p.setup_py {
        if let Some(raw) = parsers::setup_py_scan_name(t.as_str()) {
            if let Ok(nm) = PackageName::parse(raw.as_str()) {
                return Some(nm);
            }
        }
    }
    None
}

/// What the whole cascade denotes for one unnamed requirement: the name it
/// is assigned, or the error that aborts resolution. A wheel-suffixed URL
/// whose filename does not parse is malformed; a local path that does not
/// exist is unreadable; a requirement no strategy names fails inference.
pub open spec fn resolve_name_spec(u: UnnamedModel, p: ProbeModel) -> Result<Seq<char>, ErrorKind> {
    let f = url_filename(u.url);
    if has_wheel_suffix(f) {
        match wheel_name_spec(f) {
            Some(n) => Ok(n),
            None => Err(ErrorKind::Parse),
        }
    } else if sdist_name_spec(f) is Some {
        Ok(sdist_name_spec(f).unwrap())
    } else if is_local_path(u.url) {
        if !p.exists {
            Err(ErrorKind::Io)
        } else {
            match probe_name_spec(p) {
                Some(n) => Ok(n),
                None => Err(ErrorKind::NameInference),
            }
        }
    } else {
        Err(ErrorKind::NameInference)
    }
}

/// The named requirement that resolution produces: the inferred name, the
/// original extras and marker, and the URL as the version constraint.
pub open spec fn named_from(u: UnnamedModel, n: Seq<char>) -> ReqModel {
    ReqModel {
        name: n,
        extras: u.extras,
        version_or_url: Some(VersionOrUrlModel::Url(u.url)),
        marker: u.marker,
    }
}

/// Assigns a concrete name to an unnamed requirement: exactly one valid
/// name, or a definite failure; no partial state is retained. No strategy
/// after a success runs, and the URL-based strategies never read the probe.
/// A failed inference and an unreadable path name the original requirement
/// text; a malformed wheel filename names that filename.
pub fn name_requirement(requirement: UnnamedRequirement, probe: &DirProbe) -> (r: Result<
    Requirement,
    Error,
>)
    ensures
        r is Ok <==> resolve_name_spec(requirement@, probe@) is Ok,
        r is Ok ==> r.unwrap()@ == named_from(
            requirement@,
            resolve_name_spec(requirement@, probe@)->Ok_0,
        ),
        r is Ok && requirement.wf() ==> r.unwrap().wf(),
        r is Err ==> r.unwrap_err().kind() == resolve_name_spec(requirement@, probe@)->Err_0,
        r is Err && r.unwrap_err().kind() == ErrorKind::NameInference ==> (r.unwrap_err()
            matches Error::NameInferenceError(t) && t@ == requirement@.url),
        r is Err && r.unwrap_err().kind() == ErrorKind::Io ==> (r.unwrap_err()
            matches Error::IoError(t) && t@ == requirement@.url),
        r is Err && r.unwrap_err().kind() == ErrorKind::Parse ==> (r.unwrap_err()
            matches Error::ParseError(t) && t@ == url_filename(requirement@.url)),
{
    let f = url_filename_exec(requirement.url.as_str());
    let name: PackageName = if has_wheel_suffix_exec(f.as_str()) {
        proof {
            reveal_strlit(".whl");
            assert(lower_seq(f@).len() == f@.len());
        }
        match wheel_name(f.as_str()) {
            Some(n) => n,
            None => {
                return Err(Error::ParseError(f));
            },
        }
    } else {
        match sdist_name(f.as_str()) {
            Some(n) => n,
            None => {
                if is_local_path_exec(requirement.url.as_str()) {
                    if !probe.exists {
                        return Err(Error::IoError(requirement.url));
                    }
                    match probe_name(probe) {
                        Some(n) => n,
                        None => {
                            return Err(Error::NameInferenceError(requirement.url));
                        },
                    }
                } else {
                    return Err(Error::NameInferenceError(requirement.url));
                }
            },
        }
    };
    let UnnamedRequirement { url, extras, marker } = requirement;
    let out = Requirement {
        name,
        extras,
        version_or_url: Some(VersionOrUrl::Url(url)),
        marker,
    };
    proof {
        assert(out@ == named_from(requirement@, resolve_name_spec(requirement@, probe@)->Ok_0));
    }
    Ok(out)
}

/// Resolution is a function of the requirement and the probe alone: two
/// resolutions of the same unnamed requirement against the same probe yield
/// the same named requirement.
pub proof fn lemma_resolution_idempotent(
    u: UnnamedModel,
    p: ProbeModel,
    r1: Result<ReqModel, ErrorKind>,
    r2: Result<ReqModel, ErrorKind>,
)
    requires
        r1 == (match resolve_name_spec(u, p) {
            Ok(n) => Ok::<ReqModel, ErrorKind>(named_from(u, n)),
            Err(k) => Err::<ReqModel, ErrorKind>(k),
        }),
        r2 == (match resolve_name_spec(u, p) {
            Ok(n) => Ok::<ReqModel, ErrorKind>(named_from(u, n)),
            Err(k) => Err::<ReqModel, ErrorKind>(k),
        }),
    ensures
        r1 == r2,
{
}

/// Like a requirements specification, but every requirement is named: the
/// terminal artifact handed to the resolver.
#[derive(Debug, Clone)]
pub struct NamedRequirements {
    pub project: Option<PackageName>,
    pub requirements: Vec<Requirement>,
    pub constraints: Vec<Requirement>,
    pub overrides: Vec<Requirement>,
    pub editables: Vec<crate::requirement::EditableRequirement>,
    pub index_url: Option<String>,
    pub extra_index_urls: Vec<String>,
    pub no_index: bool,
    pub find_links: Vec<crate::source::FindLinksLocation>,
}

pub ghost struct NamedModel {
    pub project: Option<Seq<char>>,
    pub requirements: Seq<ReqModel>,
    pub constraints: Seq<ReqModel>,
    pub overrides: Seq<ReqModel>,
    pub editables: Seq<Seq<char>>,
    pub index_url: Option<Seq<char>>,
    pub extra_index_urls: Seq<Seq<char>>,
    pub no_index: bool,
    pub find_links: Seq<crate::source::FindLinksModel>,
}

impl View for NamedRequirements {
    type V = NamedModel;

    open spec fn view(&self) -> NamedModel {
        NamedModel {
            project: match &self.project {
                Some(p) => Some(p@),
                None => None,
            },
            requirements: self.requirements@.map_values(|q: Requirement| q@),
            constraints: self.constraints@.map_values(|q: Requirement| q@),
            overrides: self.overrides@.map_values(|q: Requirement| q@),
            editables: self.editables@.map_values(
                |e: crate::requirement::EditableRequirement| e@,
            ),
            index_url: match &self.index_url {
                Some(u) => Some(u@),
                None => None,
            },
            extra_index_urls: self.extra_index_urls@.map_values(|u: String| u@),
            no_index: self.no_index,
            find_links: self.find_links@.map_values(|f: crate::source::FindLinksLocation| f@),
        }
    }
}

/// Naming every entry of a requirement list, each unnamed entry resolved
/// against its probe (the probe list is aligned with the entries; a named
/// entry's probe is ignored).
pub open spec fn name_entries_spec(entries: Seq<EntryModel>, probes: Seq<ProbeModel>) -> Result<
    Seq<ReqModel>,
    ErrorKind,
>
    decreases entries.len(),
{
    if entries.len() == 0 {
        Ok(Seq::empty())
    } else {
        let head = match entries[0] {
            EntryModel::Named(r) => Ok::<ReqModel, ErrorKind>(r),
            EntryModel::Unnamed(u) => match resolve_name_spec(u, probes[0]) {
                Ok(n) => Ok::<ReqModel, ErrorKind>(named_from(u, n)),
                Err(k) => Err::<ReqModel, ErrorKind>(k),
            },
        };
        match head {
            Err(k) => Err(k),
            Ok(h) => match name_entries_spec(entries.drop_first(), probes.drop_first()) {
                Ok(rest) => Ok(seq![h] + rest),
                Err(k) => Err(k),
            },
        }
    }
}

fn name_entries_exec(
    entries: &Vec<RequirementEntry>,
    probes: &Vec<DirProbe>,
    i: usize,
) -> (r: Result<Vec<Requirement>, Error>)
    requires
        entries.len() == probes.len(),
        i <= entries.len(),
    ensures
        r is Ok <==> name_entries_spec(
            entries@.map_values(|e: RequirementEntry| e@).skip(i as int),
            probes@.map_values(|p: DirProbe| p@).skip(i as int),
        ) is Ok,
        r is Ok ==> r.unwrap()@.map_values(|q: Requirement| q@) == name_entries_spec(
            entries@.map_values(|e: RequirementEntry| e@).skip(i as int),
            probes@.map_values(|p: DirProbe| p@).skip(i as int),
        )->Ok_0,
        r is Err ==> r.unwrap_err().kind() == name_entries_spec(
            entries@.map_values(|e: RequirementEntry| e@).skip(i as int),
            probes@.map_values(|p: DirProbe| p@).skip(i as int),
        )->Err_0,
    decreases entries.len() - i,
{
    let ghost em = entries@.map_values(|e: RequirementEntry| e@).skip(i as int);
    let ghost pm = probes@.map_values(|p: DirProbe| p@).skip(i as int);
    if i == entries.len() {
        let out: Vec<Requirement> = Vec::new();
        proof {
            assert(em.len() == 0);
            assert(out@.map_values(|q: Requirement| q@) =~= Seq::<ReqModel>::empty());
        }
        return Ok(out);
    }
    proof {
        assert(em[0] == entries@.map_values(|e: RequirementEntry| e@)[i as int]);
        assert(pm[0] == probes@.map_values(|p: DirProbe| p@)[i as int]);
        assert(em.drop_first() =~= entries@.map_values(|e: RequirementEntry| e@).skip(i + 1));
        assert(pm.drop_first() =~= probes@.map_values(|p: DirProbe| p@).skip(i + 1));
    }
    let head = match &entries[i] {
        RequirementEntry::Named(q) => q.duplicate(),
        RequirementEntry::Unnamed(u) => {
            match name_requirement(u.duplicate(), &probes[i]) {
                Ok(q) => q,
                Err(e) => {
                    return Err(e);
                },
            }
        },
    };
    match name_entries_exec(entries, probes, i + 1) {
        Ok(mut rest) => {
            rest.insert(0, head);
            proof {
                assert(rest@.map_values(|q: Requirement| q@) =~= seq![rest@[0]@]
                    + name_entries_spec(em.drop_first(), pm.drop_first())->Ok_0);
            }
            Ok(rest)
        },
        Err(e) => Err(e),
    }
}

impl NamedRequirements {
    /// Converts a specification into fully named requirements, resolving
    /// each remaining unnamed entry against its caller-gathered probe; all
    /// other fields carry over unchanged. No partial result survives an
    /// error.
    pub fn from_spec(spec: RequirementsSpecification, probes: &Vec<DirProbe>) -> (r: Result<
        NamedRequirements,
        Error,
    >)
        requires
            probes.len() == spec.requirements.len(),
        ensures
            r is Ok <==> name_entries_spec(
                spec@.requirements,
                probes@.map_values(|p: DirProbe| p@),
            ) is Ok,
            r is Ok ==> r.unwrap()@ == (NamedModel {
                project: spec@.project,
                requirements: name_entries_spec(
                    spec@.requirements,
                    probes@.map_values(|p: DirProbe| p@),
                )->Ok_0,
                constraints: spec@.constraints,
                overrides: spec@.overrides,
                editables: spec@.editables,
                index_url: spec@.index_url,
                extra_index_urls: spec@.extra_index_urls,
                no_index: spec@.no_index,
                find_links: spec@.find_links,
            }),
            r is Err ==> r.unwrap_err().kind() == name_entries_spec(
                spec@.requirements,
                probes@.map_values(|p: DirProbe| p@),
            )->Err_0,
    {
        proof {
            assert(spec@.requirements.skip(0) =~= spec@.requirements);
            assert(probes@.map_values(|p: DirProbe| p@).skip(0) =~= probes@.map_values(
                |p: DirProbe| p@,
            ));
        }
        let named = match name_entries_exec(&spec.requirements, probes, 0) {
            Ok(n) => n,
            Err(e) => {
                return Err(e);
            },
        };
        let RequirementsSpecification {
            project,
            requirements: _,
            constraints,
            overrides,
            editables,
            extras: _,
            index_url,
            extra_index_urls,
            no_index,
            find_links,
        } = spec;
        Ok(
            NamedRequirements {
                project,
                requirements: named,
                constraints,
                overrides,
                editables,
                index_url,
                extra_index_urls,
                no_index,
                find_links,
            },
        )
    }
}

} // verus!
