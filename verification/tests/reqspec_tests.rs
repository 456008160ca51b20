use reqspec::lockfile::{load_preferences, should_read_lockfile, Preference, UpgradeStrategy};
use reqspec::name::{ExtraName, PackageName};
use reqspec::requirement::{
    parse_requirement_entry, Requirement, RequirementEntry, UnnamedRequirement, VersionOrUrl,
};
use reqspec::resolver::{name_requirement, DirProbe, NamedRequirements};
use reqspec::source::{
    from_source, legacy_backend_hint, ExtrasSpecification, LoadedSource, RequirementsFileData,
    RequirementsFileEntry, RequirementsSource, RequirementsSpecification,
};
use reqspec::Error;

fn named(entry: RequirementEntry) -> Requirement {
    match entry {
        RequirementEntry::Named(r) => r,
        RequirementEntry::Unnamed(_) => panic!("expected a named requirement"),
    }
}

fn parse_named(s: &str) -> Requirement {
    named(parse_requirement_entry(s).unwrap())
}

fn package_name(s: &str) -> PackageName {
    PackageName::parse(s).unwrap()
}

fn lock_entry(s: &str, editable: bool) -> RequirementsFileEntry {
    RequirementsFileEntry { requirement: parse_requirement_entry(s).unwrap(), editable }
}

#[test]
fn parse_bare_name() {
    let r = parse_named("flask");
    assert_eq!(r.name.as_str(), "flask");
    assert!(r.extras.is_empty());
    assert!(r.version_or_url.is_none());
    assert!(r.marker.is_none());
}

#[test]
fn parse_name_is_normalized() {
    let r = parse_named("Flask_Login.Extra");
    assert_eq!(r.name.as_str(), "flask-login-extra");
}

#[test]
fn parse_extras_and_pin() {
    let r = parse_named("pkg[extra1, extra2]==1.0");
    assert_eq!(r.name.as_str(), "pkg");
    let extras: Vec<&str> = r.extras.iter().map(|e| e.as_str()).collect();
    assert_eq!(extras, vec!["extra1", "extra2"]);
    match r.version_or_url {
        Some(VersionOrUrl::Specifier(v)) => assert_eq!(v, "==1.0"),
        _ => panic!("expected a specifier"),
    }
}

#[test]
fn parse_marker() {
    let r = parse_named("pkg ; python_version < '3.9'");
    assert_eq!(r.name.as_str(), "pkg");
    assert_eq!(r.marker.as_deref(), Some("python_version < '3.9'"));
}

#[test]
fn parse_url_requirement_is_unnamed() {
    match parse_requirement_entry("https://example.com/pkg.tar.gz").unwrap() {
        RequirementEntry::Unnamed(u) => assert_eq!(u.url, "https://example.com/pkg.tar.gz"),
        RequirementEntry::Named(_) => panic!("expected an unnamed requirement"),
    }
}

#[test]
fn parse_rejects_garbage() {
    assert!(matches!(parse_requirement_entry("=== nope ==="), Err(Error::ParseError(_))));
    assert!(matches!(parse_requirement_entry(""), Err(Error::ParseError(_))));
    assert!(matches!(parse_requirement_entry("pkg[]"), Err(Error::ParseError(_))));
}

#[test]
fn from_path_classifies_manifests() {
    match RequirementsSource::from_path("some/dir/pyproject.toml".to_string()) {
        RequirementsSource::PyprojectToml(p) => assert_eq!(p, "some/dir/pyproject.toml"),
        _ => panic!("expected a manifest source"),
    }
    match RequirementsSource::from_path("requirements.txt".to_string()) {
        RequirementsSource::RequirementsTxt(p) => assert_eq!(p, "requirements.txt"),
        _ => panic!("expected a requirements-file source"),
    }
}

#[test]
fn from_package_and_display() {
    let s = RequirementsSource::from_package("flask".to_string());
    assert_eq!(s.display_string(), "flask");
    let e = RequirementsSource::Editable("../flask".to_string());
    assert_eq!(e.display_string(), "-e ../flask");
    assert!(RequirementsSource::looks_like_requirements_file("reqs.txt"));
    assert!(RequirementsSource::looks_like_requirements_file("reqs.in"));
    assert!(!RequirementsSource::looks_like_requirements_file("flask"));
}

#[test]
fn extras_specification_contains() {
    let none = ExtrasSpecification::NoneRequested;
    let all = ExtrasSpecification::All;
    let listed = ExtrasSpecification::Listed(vec![ExtraName::parse("dev").unwrap()]);
    let dev = ExtraName::parse("dev").unwrap();
    let test = ExtraName::parse("test").unwrap();
    assert!(!none.contains(&dev));
    assert!(all.contains(&dev));
    assert!(listed.contains(&dev));
    assert!(!listed.contains(&test));
}

// The first non-empty project name among requirements-role sources wins.
#[test]
fn first_project_name_wins() {
    let m1 = "[project]\nname = \"first-proj\"\ndependencies = [\"a\"]\n";
    let m2 = "[project]\nname = \"second-proj\"\ndependencies = [\"b\"]\n";
    let spec = RequirementsSpecification::from_sources(
        vec![
            LoadedSource::Package("c".to_string()),
            LoadedSource::ProjectManifest(m1.to_string()),
            LoadedSource::ProjectManifest(m2.to_string()),
        ],
        vec![],
        vec![],
        &ExtrasSpecification::NoneRequested,
    )
    .unwrap();
    assert_eq!(spec.project.unwrap().as_str(), "first-proj");
    assert_eq!(spec.requirements.len(), 3);
}

fn file_data(index_url: Option<&str>) -> RequirementsFileData {
    RequirementsFileData {
        requirements: vec![lock_entry("pkg==1.0", false)],
        constraints: vec![],
        editables: vec![],
        index_url: index_url.map(|s| s.to_string()),
        extra_index_urls: vec![],
        no_index: false,
        find_links: vec![],
    }
}

// Two distinct explicit primary index URLs conflict; the same one repeated
// does not.
#[test]
fn distinct_index_urls_conflict() {
    let r = RequirementsSpecification::from_sources(
        vec![
            LoadedSource::RequirementsFile(file_data(Some("https://a.example/simple"))),
            LoadedSource::RequirementsFile(file_data(Some("https://b.example/simple"))),
        ],
        vec![],
        vec![],
        &ExtrasSpecification::NoneRequested,
    );
    assert!(matches!(r, Err(Error::ConflictError(_, _))));
}

#[test]
fn repeated_index_url_does_not_conflict() {
    let spec = RequirementsSpecification::from_sources(
        vec![
            LoadedSource::RequirementsFile(file_data(Some("https://a.example/simple"))),
            LoadedSource::RequirementsFile(file_data(Some("https://a.example/simple"))),
        ],
        vec![],
        vec![],
        &ExtrasSpecification::NoneRequested,
    )
    .unwrap();
    assert_eq!(spec.index_url.as_deref(), Some("https://a.example/simple"));
    assert_eq!(spec.requirements.len(), 2);
}

// Extras reference graphs with direct self-reference and mutual reference
// terminate, and each extra expands at most once.
#[test]
fn flatten_self_referential_extra() {
    let manifest = "[project]\nname = \"my-project\"\ndependencies = [\"tomli\"]\n\
[project.optional-dependencies]\ndev = [\"my-project[dev]\", \"pytest\"]\n";
    let spec = from_source(
        LoadedSource::ProjectManifest(manifest.to_string()),
        &ExtrasSpecification::All,
    )
    .unwrap();
    let names: Vec<String> = spec
        .requirements
        .iter()
        .map(|e| match e {
            RequirementEntry::Named(r) => r.name.as_str().to_string(),
            RequirementEntry::Unnamed(_) => panic!("unexpected unnamed entry"),
        })
        .collect();
    // The self-reference inlines the group's own contents once more; the
    // visited set stops any further recursion, so expansion happens exactly
    // once and the walk terminates.
    assert_eq!(names, vec!["tomli", "pytest", "pytest"]);
    let used: Vec<&str> = spec.extras.iter().map(|e| e.as_str()).collect();
    assert_eq!(used, vec!["dev"]);
}

#[test]
fn flatten_mutually_referential_extras() {
    let manifest = "[project]\nname = \"my-project\"\ndependencies = []\n\
[project.optional-dependencies]\na = [\"my-project[b]\", \"left\"]\nb = [\"my-project[a]\", \"right\"]\n";
    let spec = from_source(
        LoadedSource::ProjectManifest(manifest.to_string()),
        &ExtrasSpecification::All,
    )
    .unwrap();
    let names: Vec<String> = spec
        .requirements
        .iter()
        .map(|e| match e {
            RequirementEntry::Named(r) => r.name.as_str().to_string(),
            RequirementEntry::Unnamed(_) => panic!("unexpected unnamed entry"),
        })
        .collect();
    // Each top-level group starts a fresh visited set; within one flatten,
    // each of the two extras expands exactly once and the mutual reference
    // back is skipped, so the walk terminates.
    assert_eq!(names, vec!["left", "right", "left", "right", "left", "right"]);
    let used: Vec<&str> = spec.extras.iter().map(|e| e.as_str()).collect();
    assert_eq!(used, vec!["a", "b"]);
}

#[test]
fn flatten_transitive_extra() {
    let manifest = "[project]\nname = \"my-project\"\ndependencies = [\"tomli\"]\n\
[project.optional-dependencies]\ntest = [\"pep517\"]\ndev = [\"my-project[test]\"]\n";
    let spec = from_source(
        LoadedSource::ProjectManifest(manifest.to_string()),
        &ExtrasSpecification::Listed(vec![ExtraName::parse("dev").unwrap()]),
    )
    .unwrap();
    let names: Vec<String> = spec
        .requirements
        .iter()
        .map(|e| match e {
            RequirementEntry::Named(r) => r.name.as_str().to_string(),
            RequirementEntry::Unnamed(_) => panic!("unexpected unnamed entry"),
        })
        .collect();
    assert_eq!(names, vec!["tomli", "pep517"]);
    let used: Vec<&str> = spec.extras.iter().map(|e| e.as_str()).collect();
    assert_eq!(used, vec!["dev"]);
}

// An unnamed requirement coerced into the constraints or overrides role is
// a role violation.
#[test]
fn unnamed_requirement_rejected_as_constraint() {
    let r = RequirementsSpecification::from_sources(
        vec![],
        vec![LoadedSource::Package("./some/local/dir".to_string())],
        vec![],
        &ExtrasSpecification::NoneRequested,
    );
    assert!(matches!(r, Err(Error::RoleViolationError(_))));
}

#[test]
fn extras_expand_in_document_order() {
    let manifest = "[project]\nname = \"p\"\ndependencies = []\n[project.optional-dependencies]\nzeta = [\"zpkg\"]\nalpha = [\"apkg\"]\n";
    let spec = from_source(
        LoadedSource::ProjectManifest(manifest.to_string()),
        &ExtrasSpecification::All,
    )
    .unwrap();
    let used: Vec<&str> = spec.extras.iter().map(|e| e.as_str()).collect();
    assert_eq!(used, vec!["zeta", "alpha"]);
    let names: Vec<String> = spec
        .requirements
        .iter()
        .map(|e| match e {
            RequirementEntry::Named(r) => r.name.as_str().to_string(),
            RequirementEntry::Unnamed(_) => panic!("unexpected unnamed entry"),
        })
        .collect();
    assert_eq!(names, vec!["zpkg", "apkg"]);
}

#[test]
fn used_extras_stay_a_set() {
    // Two group keys normalize to one name: the used-extras field keeps it
    // once, while both groups still contribute their requirements.
    let manifest = "[project]\nname = \"p\"\ndependencies = []\n[project.optional-dependencies]\ndev = [\"a1\"]\nDEV = [\"a2\"]\n";
    let spec = from_source(
        LoadedSource::ProjectManifest(manifest.to_string()),
        &ExtrasSpecification::All,
    )
    .unwrap();
    let used: Vec<&str> = spec.extras.iter().map(|e| e.as_str()).collect();
    assert_eq!(used, vec!["dev"]);
    assert_eq!(spec.requirements.len(), 2);

    // The same extra used by two sources appears once in the aggregate.
    let m = "[project]\nname = \"q\"\ndependencies = []\n[project.optional-dependencies]\ndev = [\"x\"]\n";
    let agg = RequirementsSpecification::from_sources(
        vec![
            LoadedSource::ProjectManifest(m.to_string()),
            LoadedSource::ProjectManifest(m.to_string()),
        ],
        vec![],
        vec![],
        &ExtrasSpecification::All,
    )
    .unwrap();
    let used: Vec<&str> = agg.extras.iter().map(|e| e.as_str()).collect();
    assert_eq!(used, vec!["dev"]);
}

#[test]
fn archive_names_are_normalized() {
    let r = name_requirement(
        unnamed("https://example.com/My_Pkg-1.0.zip"),
        &DirProbe::absent(),
    )
    .unwrap();
    assert_eq!(r.name.as_str(), "my-pkg");
}

#[test]
fn unnamed_requirement_rejected_as_override() {
    let r = RequirementsSpecification::from_sources(
        vec![],
        vec![],
        vec![LoadedSource::Package("https://example.com/x".to_string())],
        &ExtrasSpecification::NoneRequested,
    );
    assert!(matches!(r, Err(Error::RoleViolationError(_))));
}

fn unnamed(url: &str) -> UnnamedRequirement {
    match parse_requirement_entry(url).unwrap() {
        RequirementEntry::Unnamed(u) => u,
        RequirementEntry::Named(_) => panic!("expected an unnamed requirement"),
    }
}

// Resolving the same unnamed requirement twice yields the same name.
#[test]
fn name_resolution_is_idempotent() {
    let probe = DirProbe::absent();
    let r1 = name_requirement(
        unnamed("https://example.com/anyio-4.3.0-py3-none-any.whl"),
        &probe,
    )
    .unwrap();
    let r2 = name_requirement(
        unnamed("https://example.com/anyio-4.3.0-py3-none-any.whl"),
        &probe,
    )
    .unwrap();
    assert_eq!(r1.name.as_str(), r2.name.as_str());
}

// A wheel-named URL resolves from the filename alone, no probe consulted.
#[test]
fn wheel_url_resolves_without_filesystem() {
    let r = name_requirement(
        unnamed("https://example.com/anyio-4.3.0-py3-none-any.whl"),
        &DirProbe::absent(),
    )
    .unwrap();
    assert_eq!(r.name.as_str(), "anyio");
    match r.version_or_url {
        Some(VersionOrUrl::Url(u)) => {
            assert_eq!(u, "https://example.com/anyio-4.3.0-py3-none-any.whl")
        }
        _ => panic!("expected the URL constraint"),
    }
}

#[test]
fn malformed_wheel_filename_is_an_error() {
    let r = name_requirement(unnamed("https://example.com/strange.whl"), &DirProbe::absent());
    assert!(matches!(r, Err(Error::ParseError(_))));
}

#[test]
fn source_archive_url_resolves() {
    let r = name_requirement(
        unnamed("https://example.com/anyio-4.3.0.tar.gz"),
        &DirProbe::absent(),
    )
    .unwrap();
    assert_eq!(r.name.as_str(), "anyio");
}

// A directory holding only a setup script resolves through the scan.
#[test]
fn setup_py_fallback_resolves() {
    let probe = DirProbe {
        exists: true,
        pkg_info: None,
        pyproject: None,
        setup_cfg: None,
        setup_py: Some("from setuptools import setup\nsetup(\n    name=\"demo-pkg\",\n)\n".to_string()),
    };
    let r = name_requirement(unnamed("./demo"), &probe).unwrap();
    assert_eq!(r.name.as_str(), "demo-pkg");
}

#[test]
fn pkg_info_takes_precedence() {
    let probe = DirProbe {
        exists: true,
        pkg_info: Some("Metadata-Version: 1.0\nName: demo-pki\nVersion: 0.1\n".to_string()),
        pyproject: Some("[project]\nname = \"other\"\n".to_string()),
        setup_cfg: None,
        setup_py: None,
    };
    let r = name_requirement(unnamed("./demo"), &probe).unwrap();
    assert_eq!(r.name.as_str(), "demo-pki");
}

#[test]
fn manifest_then_poetry_then_cfg() {
    let poetry_only = DirProbe {
        exists: true,
        pkg_info: None,
        pyproject: Some("[tool.poetry]\nname = \"poetry-proj\"\n".to_string()),
        setup_cfg: None,
        setup_py: None,
    };
    let r = name_requirement(unnamed("./demo"), &poetry_only).unwrap();
    assert_eq!(r.name.as_str(), "poetry-proj");

    let cfg_only = DirProbe {
        exists: true,
        pkg_info: None,
        pyproject: None,
        setup_cfg: Some("[metadata]\nname = demo-cfg\n".to_string()),
        setup_py: None,
    };
    let r = name_requirement(unnamed("./demo"), &cfg_only).unwrap();
    assert_eq!(r.name.as_str(), "demo-cfg");
}

#[test]
fn missing_local_path_is_an_io_error() {
    let r = name_requirement(unnamed("./does-not-exist"), &DirProbe::absent());
    assert!(matches!(r, Err(Error::IoError(_))));
}

#[test]
fn unresolvable_url_fails_inference() {
    let r = name_requirement(unnamed("https://example.com/archive"), &DirProbe::absent());
    assert!(matches!(r, Err(Error::NameInferenceError(_))));
}

// The lock output is not read at all under the discard-all strategy.
#[test]
fn discard_all_reads_nothing() {
    assert!(!should_read_lockfile(true, true, &UpgradeStrategy::DiscardAll));
    assert!(should_read_lockfile(true, true, &UpgradeStrategy::KeepAll));
    assert!(!should_read_lockfile(false, true, &UpgradeStrategy::KeepAll));
    assert!(!should_read_lockfile(true, false, &UpgradeStrategy::KeepAll));
    let prefs = load_preferences(
        vec![lock_entry("foo==1.0", false)],
        &UpgradeStrategy::DiscardAll,
    )
    .unwrap();
    assert!(prefs.is_empty());
}

// Discarding one package keeps the other pins.
#[test]
fn discard_packages_filters_by_name() {
    let prefs: Vec<Preference> = load_preferences(
        vec![lock_entry("foo==1.0", false), lock_entry("bar==2.0", false)],
        &UpgradeStrategy::DiscardPackages(vec![package_name("foo")]),
    )
    .unwrap();
    assert_eq!(prefs.len(), 1);
    assert_eq!(prefs[0].name.as_str(), "bar");
    assert_eq!(prefs[0].version, "2.0");
}

#[test]
fn keep_all_passes_every_pin_through() {
    let prefs = load_preferences(
        vec![lock_entry("foo==1.0", false), lock_entry("bar==2.0", false)],
        &UpgradeStrategy::KeepAll,
    )
    .unwrap();
    let pins: Vec<String> = prefs
        .iter()
        .map(|p| format!("{}=={}", p.name.as_str(), p.version))
        .collect();
    assert_eq!(pins, vec!["foo==1.0", "bar==2.0"]);
}

#[test]
fn editable_lock_entries_are_excluded() {
    let prefs = load_preferences(
        vec![lock_entry("foo==1.0", true), lock_entry("bar==2.0", false)],
        &UpgradeStrategy::KeepAll,
    )
    .unwrap();
    assert_eq!(prefs.len(), 1);
    assert_eq!(prefs[0].name.as_str(), "bar");
}

#[test]
fn unpinned_lock_entry_fails_conversion() {
    let r = load_preferences(
        vec![lock_entry("foo>=1.0", false)],
        &UpgradeStrategy::KeepAll,
    );
    assert!(matches!(r, Err(Error::PreferenceConversionError(_))));
    let r = load_preferences(vec![lock_entry("foo", false)], &UpgradeStrategy::KeepAll);
    assert!(matches!(r, Err(Error::PreferenceConversionError(_))));
}

// A single package literal aggregated alone round-trips into exactly one
// named requirement with no version constraint.
#[test]
fn single_literal_round_trip() {
    let spec = RequirementsSpecification::from_simple_sources(vec![LoadedSource::Package(
        "flask".to_string(),
    )])
    .unwrap();
    assert_eq!(spec.requirements.len(), 1);
    let named_reqs =
        NamedRequirements::from_spec(spec, &vec![DirProbe::absent()]).unwrap();
    assert_eq!(named_reqs.requirements.len(), 1);
    assert_eq!(named_reqs.requirements[0].name.as_str(), "flask");
    assert!(named_reqs.requirements[0].version_or_url.is_none());
    assert!(named_reqs.constraints.is_empty());
    assert!(named_reqs.overrides.is_empty());
    assert!(named_reqs.project.is_none());
}

#[test]
fn editable_source_carries_through() {
    let spec = from_source(
        LoadedSource::Editable(" ../flask ".to_string()),
        &ExtrasSpecification::NoneRequested,
    )
    .unwrap();
    assert_eq!(spec.editables.len(), 1);
    assert_eq!(spec.editables[0].path, "../flask");
    assert!(spec.requirements.is_empty());
}

#[test]
fn manifest_with_invalid_name_is_a_name_error() {
    let manifest = "[project]\nname = \"-bad-\"\ndependencies = []\n";
    let r = from_source(
        LoadedSource::ProjectManifest(manifest.to_string()),
        &ExtrasSpecification::NoneRequested,
    );
    assert!(matches!(r, Err(Error::NameError(_))));
}

#[test]
fn manifest_without_toml_is_a_parse_error() {
    let r = from_source(
        LoadedSource::ProjectManifest("not = [ toml".to_string()),
        &ExtrasSpecification::NoneRequested,
    );
    assert!(matches!(r, Err(Error::ParseError(_))));
}

#[test]
fn manifest_requesting_extras_needs_a_name() {
    let manifest = "[project.optional-dependencies]\ndev = [\"pytest\"]\n";
    // Wrapped in a project table without a name.
    let manifest = format!("[project]\ndependencies = []\n{manifest}");
    let r = from_source(
        LoadedSource::ProjectManifest(manifest),
        &ExtrasSpecification::All,
    );
    assert!(matches!(r, Err(Error::NameError(_))));
}

#[test]
fn legacy_backend_advisory() {
    let poetry_manifest = "[project]\nname = \"p\"\n[build-system]\nrequires = [\"poetry-core\"]\n";
    assert!(legacy_backend_hint(poetry_manifest, &ExtrasSpecification::NoneRequested));
    let plain = "[project]\nname = \"p\"\ndependencies = [\"a\"]\n\
[build-system]\nrequires = [\"poetry-core\"]\n";
    assert!(!legacy_backend_hint(plain, &ExtrasSpecification::NoneRequested));
    let setuptools = "[project]\nname = \"p\"\n[build-system]\nrequires = [\"setuptools\"]\n";
    assert!(!legacy_backend_hint(setuptools, &ExtrasSpecification::NoneRequested));
}
