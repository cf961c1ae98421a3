use isildur::mirror::{
    build_script_rename, crate_dir_path, crate_file_path, disclaimer, needs_source_patches, publish_args,
    publish_failure_stops, readme_file, readme_with_disclaimer,
};

#[test]
fn work_paths() {
    assert_eq!(crate_file_path("ring", "0.16.20"), "_work/ring-0.16.20.crate");
    assert_eq!(crate_dir_path("ring", "0.16.20"), "_work/ring-0.16.20");
}

#[test]
fn readme_default_and_named() {
    assert_eq!(readme_file(None), "README.md");
    assert_eq!(readme_file(Some("doc/INTRO.md")), "doc/INTRO.md");
}

#[test]
fn readme_gets_disclaimer() {
    let d = disclaimer("ring", "gnir");
    assert!(d.starts_with("\n# gnir - a republish of ring\n\nThis crate is, apart from the name, an exact duplicate of ring."));
    assert!(d.ends_with("Original README.md file follows:\n\n"));
    assert_eq!(readme_with_disclaimer("ring", "gnir", Some("hello")), format!("{}hello", d));
    assert_eq!(
        readme_with_disclaimer("ring", "gnir", None),
        format!("{}No readme file included in crate.", d)
    );
}

#[test]
fn publish_arguments() {
    assert_eq!(publish_args(true), vec!["publish".to_string()]);
    assert_eq!(publish_args(false), vec!["publish".to_string(), "--dry-run".to_string()]);
}

#[test]
fn publish_failure_policy() {
    assert!(publish_failure_stops(false, false));
    assert!(!publish_failure_stops(false, true));
    assert!(!publish_failure_stops(true, false));
    assert!(!publish_failure_stops(true, true));
}

#[test]
fn source_patches_only_for_ring() {
    assert!(needs_source_patches("ring"));
    assert!(!needs_source_patches("untrusted"));
    assert!(!needs_source_patches("rin"));
}

#[test]
fn build_script_rename_expression() {
    assert_eq!(build_script_rename("ring", "gnir"), "s/\"ring\"/\"gnir\"/");
}
