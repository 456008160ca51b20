//! Package and extra names: validation of raw name tokens and their
//! canonical (normalized) form, in which letters are lowered and runs of
//! `-`, `_` and `.` collapse to a single `-`.

use vstd::prelude::*;

use crate::strutil;

verus! {

pub open spec fn is_alnum(c: char) -> bool {
    ('a' <= c && c <= 'z') || ('A' <= c && c <= 'Z') || ('0' <= c && c <= '9')
}

pub open spec fn is_lower_alnum(c: char) -> bool {
    ('a' <= c && c <= 'z') || ('0' <= c && c <= '9')
}

/// A separator inside a name token.
pub open spec fn is_sep(c: char) -> bool {
    c == '-' || c == '_' || c == '.'
}

pub open spec fn is_name_char(c: char) -> bool {
    is_alnum(c) || is_sep(c)
}

/// A valid raw name token: nonempty, made of letters, digits and `-`, `_`,
/// `.`, starting and ending with a letter or digit.
pub open spec fn valid_name_spec(s: Seq<char>) -> bool {
    &&& s.len() > 0
    &&& is_alnum(s[0])
    &&& is_alnum(s[s.len() - 1])
    &&& forall|k: int| 0 <= k < s.len() ==> is_name_char(#[trigger] s[k])
}

pub open spec fn lower_char_spec(c: char) -> char {
    if 'A' <= c && c <= 'Z' {
        ((c as int) + 32) as char
    } else {
        c
    }
}

/// The canonical form of a name token: letters lowered, each run of
/// separators replaced by one `-`.
pub open spec fn normalize_spec(s: Seq<char>) -> Seq<char>
    decreases s.len(),
{
    if s.len() == 0 {
        Seq::<char>::empty()
    } else {
        let rest = normalize_spec(s.drop_last());
        let c = s[s.len() - 1];
        if is_sep(c) {
            if s.len() >= 2 && is_sep(s[s.len() - 2]) {
                rest
            } else {
                rest.push('-')
            }
        } else {
            rest.push(lower_char_spec(c))
        }
    }
}

/// A name already in canonical form: nonempty, lowercase letters, digits and
/// single dashes, starting and ending with a letter or digit.
pub open spec fn canonical_name_spec(s: Seq<char>) -> bool {
    &&& s.len() > 0
    &&& is_lower_alnum(s[0])
    &&& is_lower_alnum(s[s.len() - 1])
    &&& forall|k: int| 0 <= k < s.len() ==> (is_lower_alnum(#[trigger] s[k]) || s[k] == '-')
    &&& forall|k: int| 0 <= k < s.len() - 1 ==> !(#[trigger] s[k] == '-' && s[k + 1] == '-')
}

fn lower_char(c: char) -> (r: char)
    ensures
        r == lower_char_spec(c),
{
    if 'A' <= c && c <= 'Z' {
        (((c as u32) + 32) as u8) as char
    } else {
        c
    }
}

fn is_alnum_exec(c: char) -> (r: bool)
    ensures
        r == is_alnum(c),
{
    ('a' <= c && c <= 'z') || ('A' <= c && c <= 'Z') || ('0' <= c && c <= '9')
}

fn is_sep_exec(c: char) -> (r: bool)
    ensures
        r == is_sep(c),
{
    c == '-' || c == '_' || c == '.'
}

/// Validates a raw name token and computes its canonical form.
///
/// Returns `Err(())` exactly when the token is not a valid name.
pub fn normalize_token(s: &str) -> (r: Result<String, ()>)
    ensures
        r is Ok <==> valid_name_spec(s@),
        r is Ok ==> r.unwrap()@ == normalize_spec(s@) && canonical_name_spec(r.unwrap()@),
{
    let n: usize = s.unicode_len();
    if n == 0 {
        return Err(());
    }
    if !is_alnum_exec(s.get_char(0)) {
        return Err(());
    }
    if !is_alnum_exec(s.get_char(n - 1)) {
        return Err(());
    }
    let mut out = String::new();
    let mut i: usize = 0;
    while i < n
        invariant
            0 <= i <= n,
            n == s@.len(),
            n > 0,
            is_alnum(s@[0]),
            is_alnum(s@[n - 1]),
            forall|k: int| 0 <= k < i ==> is_name_char(#[trigger] s@[k]),
            out@ == normalize_spec(s@.take(i as int)),
            i > 0 ==> out@.len() > 0,
            i > 0 ==> is_lower_alnum(out@[0]),
            forall|k: int| 0 <= k < out@.len() ==> (is_lower_alnum(#[trigger] out@[k]) || out@[k]
                == '-'),
            forall|k: int| 0 <= k < out@.len() - 1 ==> !(#[trigger] out@[k] == '-' && out@[k + 1]
                == '-'),
            i > 0 ==> (out@.len() > 0 && (out@[out@.len() - 1] == '-' <==> is_sep(s@[i - 1]))),
        decreases n - i,
    {
        let c = s.get_char(i);
        proof {
            assert(s@.take(i + 1).drop_last() =~= s@.take(i as int));
            assert(s@.take(i + 1)[i as int] == s@[i as int]);
        }
        if is_sep_exec(c) {
            if i == 0 {
                return Err(());
            }
            if !is_sep_exec(s.get_char(i - 1)) {
                strutil::push_char(&mut out, '-');
            }
        } else if is_alnum_exec(c) {
            strutil::push_char(&mut out, lower_char(c));
            proof {
                if 'A' <= c && c <= 'Z' {
                    assert(is_lower_alnum(lower_char_spec(c)));
                }
            }
        } else {
            return Err(());
        }
        i = i + 1;
    }
    proof {
        assert(s@.take(n as int) =~= s@);
        assert(valid_name_spec(s@));
        assert(!is_sep(s@[n - 1]));
        assert(canonical_name_spec(out@));
    }
    Ok(out)
}

/// A package name in canonical form. Identity of a requirement is its name.
#[derive(Debug, Clone)]
pub struct PackageName {
    name: String,
}

impl View for PackageName {
    type V = Seq<char>;

    closed spec fn view(&self) -> Seq<char> {
        self.name@
    }
}

impl PackageName {
    /// Well-formed: the stored name is in canonical form.
    pub open spec fn wf(&self) -> bool {
        canonical_name_spec(self@)
    }

    /// Parses and normalizes a raw package-name token.
    pub fn parse(s: &str) -> (r: Result<PackageName, ()>)
        ensures
            r is Ok <==> valid_name_spec(s@),
            r is Ok ==> r.unwrap()@ == normalize_spec(s@) && r.unwrap().wf(),
    {
        match normalize_token(s) {
            Ok(name) => Ok(PackageName { name }),
            Err(()) => Err(()),
        }
    }

    /// Wraps a string already known to be canonical.
    pub fn from_canonical(name: String) -> (r: PackageName)
        requires
            canonical_name_spec(name@),
        ensures
            r@ == name@,
            r.wf(),
    {
        PackageName { name }
    }

    pub fn as_str(&self) -> (r: &str)
        ensures
            r@ == self@,
    {
        self.name.as_str()
    }

    /// An owned copy with the same canonical name.
    pub fn duplicate(&self) -> (r: PackageName)
        ensures
            r@ == self@,
            r.wf() == self.wf(),
    {
        PackageName { name: self.name.clone() }
    }

    /// Name equality; two canonical names are equal exactly when their
    /// character sequences are.
    pub fn eq_name(&self, other: &PackageName) -> (r: bool)
        ensures
            r == (self@ == other@),
    {
        strutil::str_eq(self.name.as_str(), other.name.as_str())
    }
}

/// The name of an optional-dependency group, in canonical form.
#[derive(Debug, Clone)]
pub struct ExtraName {
    name: String,
}

impl View for ExtraName {
    type V = Seq<char>;

    closed spec fn view(&self) -> Seq<char> {
        self.name@
    }
}

impl ExtraName {
    pub open spec fn wf(&self) -> bool {
        canonical_name_spec(self@)
    }

    /// Parses and normalizes a raw extra-name token.
    pub fn parse(s: &str) -> (r: Result<ExtraName, ()>)
        ensures
            r is Ok <==> valid_name_spec(s@),
            r is Ok ==> r.unwrap()@ == normalize_spec(s@) && r.unwrap().wf(),
    {
        match normalize_token(s) {
            Ok(name) => Ok(ExtraName { name }),
            Err(()) => Err(()),
        }
    }

    pub fn as_str(&self) -> (r: &str)
        ensures
            r@ == self@,
    {
        self.name.as_str()
    }

    pub fn duplicate(&self) -> (r: ExtraName)
        ensures
            r@ == self@,
            r.wf() == self.wf(),
    {
        ExtraName { name: self.name.clone() }
    }

    pub fn eq_name(&self, other: &ExtraName) -> (r: bool)
        ensures
            r == (self@ == other@),
    {
        strutil::str_eq(self.name.as_str(), other.name.as_str())
    }
}

} // verus!
