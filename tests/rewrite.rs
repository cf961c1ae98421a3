use isildur::identity::rewrite_identity;
use isildur::manifest::{default_renames, DepEntry, Dependency, DependencyRename, Manifest, ManifestError};
use isildur::rewrite::{apply_renames, is_toml_writable, rewrite_dependencies};

fn s(x: &str) -> String {
    x.to_string()
}

fn dep(name: &str, entry: DepEntry) -> Dependency {
    Dependency { name: s(name), entry }
}

fn manifest(deps: Option<Vec<Dependency>>) -> Manifest {
    Manifest { name: s("foo"), description: Some(s("a library")), dependencies: deps }
}

fn rename(a: &str, b: &str) -> Vec<DependencyRename> {
    vec![DependencyRename { original: s(a), substitute: s(b) }]
}

fn pairs(p: &[(&str, &str)]) -> Vec<(String, String)> {
    p.iter().map(|(k, v)| (s(k), s(v))).collect()
}

#[test]
fn shorthand_becomes_expanded() {
    let mut m = manifest(Some(vec![dep("name", DepEntry::Shorthand(s("\"0.3\"")))]));
    let out = rewrite_dependencies(&mut m, &rename("name", "subst"));
    let deps = m.dependencies.unwrap();
    assert_eq!(deps.len(), 1);
    assert_eq!(deps[0].name, "name");
    assert_eq!(
        deps[0].entry,
        DepEntry::Expanded(pairs(&[("version", "\"0.3\""), ("package", "\"subst\"")]))
    );
    assert_eq!(out.redirected, vec![s("name")]);
    assert!(out.unrecognized.is_empty());
}

#[test]
fn expanded_keeps_other_keys() {
    let entry = DepEntry::Expanded(pairs(&[("version", "\"0.3\""), ("features", "[\"x\"]")]));
    let mut m = manifest(Some(vec![dep("name", entry)]));
    rewrite_dependencies(&mut m, &rename("name", "subst"));
    let deps = m.dependencies.unwrap();
    assert_eq!(
        deps[0].entry,
        DepEntry::Expanded(pairs(&[
            ("version", "\"0.3\""),
            ("features", "[\"x\"]"),
            ("package", "\"subst\"")
        ]))
    );
}

#[test]
fn expanded_package_key_is_overwritten_in_place() {
    let entry = DepEntry::Expanded(pairs(&[("package", "\"old\""), ("version", "\"1\"")]));
    let mut m = manifest(Some(vec![dep("name", entry)]));
    rewrite_dependencies(&mut m, &rename("name", "subst"));
    assert_eq!(
        m.dependencies.unwrap()[0].entry,
        DepEntry::Expanded(pairs(&[("package", "\"subst\""), ("version", "\"1\"")]))
    );
}

#[test]
fn absent_dependency_leaves_table_unchanged() {
    let deps = vec![
        dep("serde", DepEntry::Shorthand(s("\"1\""))),
        dep("log", DepEntry::Expanded(pairs(&[("version", "\"0.4\"")]))),
    ];
    let mut m = manifest(Some(deps.clone()));
    let out = rewrite_dependencies(&mut m, &rename("untrusted", "detsurtnu"));
    assert_eq!(m.dependencies, Some(deps));
    assert!(out.redirected.is_empty());
}

#[test]
fn rewriting_twice_equals_rewriting_once() {
    let deps = vec![
        dep("untrusted", DepEntry::Shorthand(s("\"0.3\""))),
        dep("other", DepEntry::Shorthand(s("\"2\""))),
    ];
    let renames = default_renames();
    let mut once = manifest(Some(deps));
    rewrite_dependencies(&mut once, &renames);
    let mut twice = once.clone();
    rewrite_dependencies(&mut twice, &renames);
    assert_eq!(once, twice);
}

#[test]
fn manifest_without_dependencies_is_untouched() {
    let mut m = manifest(None);
    let out = rewrite_dependencies(&mut m, &default_renames());
    assert_eq!(m, manifest(None));
    assert!(out.redirected.is_empty() && out.unrecognized.is_empty());
}

#[test]
fn other_shape_passes_through_and_is_reported() {
    let mut m = manifest(Some(vec![dep("name", DepEntry::Other(s("[1, 2]")))]));
    let out = rewrite_dependencies(&mut m, &rename("name", "subst"));
    assert_eq!(m.dependencies.unwrap()[0].entry, DepEntry::Other(s("[1, 2]")));
    assert_eq!(out.unrecognized, vec![s("name")]);
    assert!(out.redirected.is_empty());
}

#[test]
fn apply_renames_uses_given_text() {
    let mut m = manifest(Some(vec![dep("a", DepEntry::Shorthand(s("'1'")))]));
    apply_renames(&mut m, &pairs(&[("a", "'b'")]));
    assert_eq!(
        m.dependencies.unwrap()[0].entry,
        DepEntry::Expanded(pairs(&[("version", "'1'"), ("package", "'b'")]))
    );
}

#[test]
fn later_rename_of_same_key_wins() {
    let mut m = manifest(Some(vec![dep("a", DepEntry::Shorthand(s("\"1\"")))]));
    let renames = vec![
        DependencyRename { original: s("a"), substitute: s("b") },
        DependencyRename { original: s("a"), substitute: s("c") },
    ];
    rewrite_dependencies(&mut m, &renames);
    assert_eq!(
        m.dependencies.unwrap()[0].entry,
        DepEntry::Expanded(pairs(&[("version", "\"1\""), ("package", "\"c\"")]))
    );
}

#[test]
fn substitute_is_written_as_toml_string() {
    let mut m = manifest(Some(vec![dep("a", DepEntry::Shorthand(s("\"1\"")))]));
    rewrite_dependencies(&mut m, &rename("a", "we\"ird"));
    match &m.dependencies.unwrap()[0].entry {
        DepEntry::Expanded(p) => {
            assert_eq!(p[1].0, "package");
            assert_ne!(p[1].1, "we\"ird");
            assert!(p[1].1.contains("we"));
        }
        other => panic!("unexpected entry {:?}", other),
    }
}

#[test]
fn identity_rewrite_sets_name_and_description() {
    let mut m = manifest(None);
    assert_eq!(rewrite_identity(&mut m, "bar", "foo"), Ok(()));
    assert_eq!(m.name, "bar");
    let d = m.description.clone().unwrap();
    assert!(d.contains("foo"));
    assert!(d.contains("a library"));
    assert_eq!(d, "Automated mirror of foo - a library");
}

#[test]
fn identity_rewrite_is_idempotent() {
    let mut m = manifest(None);
    rewrite_identity(&mut m, "bar", "foo").unwrap();
    let once = m.clone();
    rewrite_identity(&mut m, "bar", "foo").unwrap();
    assert_eq!(m, once);
}

#[test]
fn identity_rewrite_needs_description() {
    let mut m = Manifest { name: s("foo"), description: None, dependencies: None };
    let before = m.clone();
    assert_eq!(rewrite_identity(&mut m, "bar", "foo"), Err(ManifestError::MalformedManifest));
    assert_eq!(m, before);
}

#[test]
fn end_to_end_mirror_of_two_versions() {
    let source: Vec<String> = vec![s("1.0"), s("1.1"), s("1.2")];
    let destination: Vec<String> = vec![s("1.0")];
    let mut todo = isildur::versions::reconcile(&source, Some(&destination));
    todo.sort();
    assert_eq!(todo, vec![s("1.1"), s("1.2")]);
    for _version in &todo {
        let mut m = Manifest {
            name: s("ring"),
            description: Some(s("Safe, fast, small crypto")),
            dependencies: Some(vec![dep("untrusted", DepEntry::Shorthand(s("\"0.3\"")))]),
        };
        rewrite_identity(&mut m, "gnir", "ring").unwrap();
        rewrite_dependencies(&mut m, &default_renames());
        assert_eq!(m.name, "gnir");
        assert_eq!(m.description.unwrap(), "Automated mirror of ring - Safe, fast, small crypto");
        assert_eq!(
            m.dependencies.unwrap()[0].entry,
            DepEntry::Expanded(pairs(&[("version", "\"0.3\""), ("package", "\"detsurtnu\"")]))
        );
    }
}

#[test]
fn substitute_beyond_toml_writer_is_skipped() {
    let deps = vec![dep("a", DepEntry::Shorthand(s("\"1\"")))];
    let mut m = manifest(Some(deps.clone()));
    let long = "'".repeat(256);
    let renames = vec![
        DependencyRename { original: s("a"), substitute: long },
        DependencyRename { original: s("b"), substitute: s("c") },
    ];
    let out = rewrite_dependencies(&mut m, &renames);
    assert_eq!(m.dependencies, Some(deps));
    assert_eq!(out.skipped, vec![s("a")]);
    assert!(out.redirected.is_empty());
}

#[test]
fn quote_runs_below_the_limit_are_written() {
    assert!(is_toml_writable(&"'".repeat(255)));
    assert!(!is_toml_writable(&"'".repeat(256)));
    assert!(!is_toml_writable(&format!("x{}y", "\"".repeat(300))));
    assert!(is_toml_writable(&"'\"".repeat(300)));
    let mut m = manifest(Some(vec![dep("a", DepEntry::Shorthand(s("\"1\"")))]));
    let out = rewrite_dependencies(&mut m, &rename("a", &"'".repeat(255)));
    assert!(out.skipped.is_empty());
    assert_eq!(out.redirected, vec![s("a")]);
}
