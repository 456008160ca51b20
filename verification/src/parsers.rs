//! Trusted bindings to the outside text parsers this library consumes as
//! opaque capabilities: TOML manifest field extraction (the `toml` crate),
//! legacy setup-configuration sections (the `configparser` crate) and the
//! best-effort setup-script name scan (the `regex` crate).
//!
//! Each extracted field is given a name by an uninterpreted spec function;
//! the verified logic is proved against those names, and the callers that
//! consume the extracted values state exactly what they do with every
//! possible value.

use vstd::prelude::*;

verus! {

/// Whether the manifest text is a well-formed TOML document.
pub uninterp spec fn manifest_wf(s: Seq<char>) -> bool;

/// The manifest's declared `project.name` field, when present as a string.
pub uninterp spec fn manifest_name_of(s: Seq<char>) -> Option<Seq<char>>;

/// The manifest's nested `tool.poetry.name` field, when present as a string.
pub uninterp spec fn manifest_poetry_name_of(s: Seq<char>) -> Option<Seq<char>>;

/// The manifest's default dependency list: absent lists are empty, a list
/// holding anything but strings has no value.
pub uninterp spec fn manifest_deps_of(s: Seq<char>) -> Option<Seq<Seq<char>>>;

/// The manifest's optional-dependency groups in document order; no value
/// when the table or an entry inside it is malformed.
pub uninterp spec fn manifest_extras_of(s: Seq<char>) -> Option<Seq<(Seq<char>, Seq<Seq<char>>)>>;

/// The manifest's build-system requires list, read like the dependency list.
pub uninterp spec fn manifest_build_requires_of(s: Seq<char>) -> Option<Seq<Seq<char>>>;

/// The `metadata.name` field of a legacy setup-configuration document.
pub uninterp spec fn setup_cfg_name_of(s: Seq<char>) -> Option<Seq<char>>;

/// The name found by the best-effort setup-script scan.
pub uninterp spec fn setup_py_name_of(s: Seq<char>) -> Option<Seq<char>>;

/// Relies on `toml::from_str::<toml::Value>`: whether the text parses as a
/// TOML document.
#[verifier::external_body]
pub fn manifest_parses(s: &str) -> (r: bool)
    ensures
        r == manifest_wf(s@),
{
    toml::from_str::<toml::Value>(s).is_ok()
}

/// Relies on `toml::from_str::<toml::Value>` and `toml::Value::get`/`as_str`:
/// extracts `project.name` when the document parses and the field is a
/// string.
#[verifier::external_body]
pub fn manifest_project_name(s: &str) -> (r: Option<String>)
    ensures
        r is Some <==> (manifest_wf(s@) && manifest_name_of(s@) is Some),
        r is Some ==> r.unwrap()@ == manifest_name_of(s@).unwrap(),
{
    let v: toml::Value = match toml::from_str(s) {
        Ok(v) => v,
        Err(_) => return None,
    };
    let p = match v.get("project") {
        Some(p) => p,
        None => return None,
    };
    let n = match p.get("name") {
        Some(n) => n,
        None => return None,
    };
    n.as_str().map(|x| x.to_string())
}

/// Relies on `toml::from_str::<toml::Value>` and `toml::Value::get`/`as_str`:
/// extracts `tool.poetry.name` when the document parses and the field is a
/// string.
#[verifier::external_body]
pub fn manifest_poetry_name(s: &str) -> (r: Option<String>)
    ensures
        r is Some <==> (manifest_wf(s@) && manifest_poetry_name_of(s@) is Some),
        r is Some ==> r.unwrap()@ == manifest_poetry_name_of(s@).unwrap(),
{
    let v: toml::Value = match toml::from_str(s) {
        Ok(v) => v,
        Err(_) => return None,
    };
    let n = match v.get("tool").and_then(|t| t.get("poetry")).and_then(|p| p.get("name")) {
        Some(n) => n,
        None => return None,
    };
    n.as_str().map(|x| x.to_string())
}

/// Relies on `toml::from_str::<toml::Value>` and `toml::Value::get`/
/// `as_array`/`as_str`: the string entries of `project.dependencies`.
#[verifier::external_body]
pub fn manifest_dependencies(s: &str) -> (r: Option<Vec<String>>)
    ensures
        r is Some <==> (manifest_wf(s@) && manifest_deps_of(s@) is Some),
        r is Some ==> r.unwrap().deep_view() == manifest_deps_of(s@).unwrap(),
{
    let v: toml::Value = match toml::from_str(s) {
        Ok(v) => v,
        Err(_) => return None,
    };
    let d = match v.get("project").and_then(|p| p.get("dependencies")) {
        Some(d) => d,
        None => return Some(Vec::new()),
    };
    let arr = d.as_array()?;
    arr.iter().map(|x| x.as_str().map(|t| t.to_string())).collect()
}

/// Relies on `toml::from_str::<toml::Value>` and `toml::Value::get`/
/// `as_table`/`as_array`/`as_str`: the `project.optional-dependencies`
/// groups, each a named list of strings, in document order.
#[verifier::external_body]
pub fn manifest_optional_dependencies(s: &str) -> (r: Option<Vec<(String, Vec<String>)>>)
    ensures
        r is Some <==> (manifest_wf(s@) && manifest_extras_of(s@) is Some),
        r is Some ==> r.unwrap().deep_view() == manifest_extras_of(s@).unwrap(),
{
    let v: toml::Value = match toml::from_str(s) {
        Ok(v) => v,
        Err(_) => return None,
    };
    let od = match v.get("project").and_then(|p| p.get("optional-dependencies")) {
        Some(d) => d,
        None => return Some(Vec::new()),
    };
    let table = od.as_table()?;
    table.iter().map(
        |(k, val)|
            val.as_array().and_then(
                |arr| arr.iter().map(|x| x.as_str().map(|t| t.to_string())).collect(),
            ).map(|items: Vec<String>| (k.clone(), items)),
    ).collect()
}

/// Relies on `toml::from_str::<toml::Value>` and `toml::Value::get`/
/// `as_array`/`as_str`: the string entries of `build-system.requires`.
#[verifier::external_body]
pub fn manifest_build_requires(s: &str) -> (r: Option<Vec<String>>)
    ensures
        r is Some <==> (manifest_wf(s@) && manifest_build_requires_of(s@) is Some),
        r is Some ==> r.unwrap().deep_view() == manifest_build_requires_of(s@).unwrap(),
{
    let v: toml::Value = match toml::from_str(s) {
        Ok(v) => v,
        Err(_) => return None,
    };
    let d = match v.get("build-system").and_then(|b| b.get("requires")) {
        Some(d) => d,
        None => return Some(Vec::new()),
    };
    let arr = d.as_array()?;
    arr.iter().map(|x| x.as_str().map(|t| t.to_string())).collect()
}

/// Relies on configparser's `Ini` (case-sensitive, multiline): the
/// `metadata.name` field of a legacy setup-configuration document.
#[verifier::external_body]
pub fn setup_cfg_metadata_name(s: &str) -> (r: Option<String>)
    ensures
        r is Some <==> setup_cfg_name_of(s@) is Some,
        r is Some ==> r.unwrap()@ == setup_cfg_name_of(s@).unwrap(),
{
    let mut ini = configparser::ini::Ini::new_cs();
    ini.set_multiline(true);
    if ini.read(s.to_string()).is_err() {
        return None;
    }
    ini.get("metadata", "name")
}

/// Relies on `regex::Regex`: the first `name = "..."`-style assignment in a
/// legacy setup script; the pattern is fixed and valid, so building it never
/// fails, and the result depends on the text alone.
#[verifier::external_body]
pub fn setup_py_scan_name(s: &str) -> (r: Option<String>)
    ensures
        r is Some <==> setup_py_name_of(s@) is Some,
        r is Some ==> r.unwrap()@ == setup_py_name_of(s@).unwrap(),
{
    let re = regex::Regex::new(r#"name\s*[=:]\s*['"](?P<name>[^'"]+)['"]"#).unwrap();
    re.captures(s).and_then(|c| c.name("name")).map(|m| m.as_str().to_string())
}

} // verus!
