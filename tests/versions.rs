use isildur::versions::reconcile;

fn list(v: &[&str]) -> Vec<String> {
    v.iter().map(|s| s.to_string()).collect()
}

fn sorted(mut v: Vec<String>) -> Vec<String> {
    v.sort();
    v
}

#[test]
fn reconcile_without_destination_keeps_everything() {
    let a = list(&["1.0", "1.1", "1.2"]);
    assert_eq!(reconcile(&a, None), a);
}

#[test]
fn reconcile_removes_published_versions() {
    let a = list(&["1.0", "1.1", "1.2"]);
    let b = list(&["1.0"]);
    assert_eq!(sorted(reconcile(&a, Some(&b))), list(&["1.1", "1.2"]));
}

#[test]
fn reconcile_is_disjoint_from_destination_and_within_source() {
    let a = list(&["0.1.0", "0.2.0", "0.3.0", "0.4.0"]);
    let b = list(&["0.2.0", "0.4.0", "9.9.9"]);
    let r = reconcile(&a, Some(&b));
    for v in &r {
        assert!(a.contains(v));
        assert!(!b.contains(v));
    }
    assert_eq!(r, list(&["0.1.0", "0.3.0"]));
}

#[test]
fn reconcile_against_itself_is_empty() {
    let a = list(&["1.0", "1.1", "1.2"]);
    assert!(reconcile(&a, Some(&a)).is_empty());
}

#[test]
fn reconcile_empty_source() {
    let a: Vec<String> = Vec::new();
    let b = list(&["1.0"]);
    assert!(reconcile(&a, Some(&b)).is_empty());
    assert!(reconcile(&a, None).is_empty());
}

#[test]
fn reconcile_ignores_destination_only_versions() {
    let a = list(&["2.0"]);
    let b = list(&["1.0", "1.5"]);
    assert_eq!(reconcile(&a, Some(&b)), list(&["2.0"]));
}

#[test]
fn reconcile_compares_exact_strings() {
    let a = list(&["1.0", "1.0.0", "1.0-alpha"]);
    let b = list(&["1.0"]);
    assert_eq!(reconcile(&a, Some(&b)), list(&["1.0.0", "1.0-alpha"]));
}
