use composition::totals::ExtensionTotals;

#[test]
fn new_totals_stand_at_zero() {
    let totals = ExtensionTotals::new();
    assert_eq!(totals.get(&"rs".to_string()), 0);
    assert_eq!(totals.get(&"".to_string()), 0);
}

#[test]
fn adding_raises_one_total() {
    let mut totals = ExtensionTotals::new();
    assert!(totals.add("rs".to_string(), 3));
    assert!(totals.add("py".to_string(), 4));
    assert!(totals.add("rs".to_string(), 5));
    assert!(totals.add("go".to_string(), 0));
    assert_eq!(totals.get(&"rs".to_string()), 8);
    assert_eq!(totals.get(&"py".to_string()), 4);
    assert_eq!(totals.get(&"go".to_string()), 0);
    assert_eq!(totals.get(&"RS".to_string()), 0);
}

#[test]
fn adding_too_much_changes_nothing() {
    let mut totals = ExtensionTotals::new();
    assert!(totals.add("rs".to_string(), usize::MAX - 1));
    assert!(!totals.add("rs".to_string(), 2));
    assert_eq!(totals.get(&"rs".to_string()), usize::MAX - 1);
    assert!(totals.add("rs".to_string(), 1));
    assert_eq!(totals.get(&"rs".to_string()), usize::MAX);
    assert!(totals.add("rs".to_string(), 0));
    assert!(totals.add("py".to_string(), usize::MAX));
    assert!(!totals.add("py".to_string(), 1));
}

#[test]
fn merging_adds_extension_by_extension() {
    let mut left = ExtensionTotals::new();
    assert!(left.add("rs".to_string(), 1));
    assert!(left.add("py".to_string(), 2));
    let mut right = ExtensionTotals::new();
    assert!(right.add("py".to_string(), 10));
    assert!(right.add("go".to_string(), 20));
    assert!(left.merge(&right));
    assert_eq!(left.get(&"rs".to_string()), 1);
    assert_eq!(left.get(&"py".to_string()), 12);
    assert_eq!(left.get(&"go".to_string()), 20);
    assert_eq!(right.get(&"py".to_string()), 10);
}

#[test]
fn merging_is_commutative() {
    let mut a = ExtensionTotals::new();
    assert!(a.add("rs".to_string(), 1));
    assert!(a.add("py".to_string(), 2));
    let mut b = ExtensionTotals::new();
    assert!(b.add("py".to_string(), 10));
    assert!(b.add("go".to_string(), 20));
    let mut ab = ExtensionTotals::new();
    assert!(ab.merge(&a));
    assert!(ab.merge(&b));
    let mut ba = ExtensionTotals::new();
    assert!(ba.merge(&b));
    assert!(ba.merge(&a));
    for key in ["rs", "py", "go", "c"] {
        assert_eq!(ab.get(&key.to_string()), ba.get(&key.to_string()));
    }
}

#[test]
fn merging_too_much_is_reported() {
    let mut left = ExtensionTotals::new();
    assert!(left.add("rs".to_string(), usize::MAX));
    let mut right = ExtensionTotals::new();
    assert!(right.add("rs".to_string(), 1));
    assert!(!left.fits_with(&right));
    assert!(!left.merge(&right));
}

#[test]
fn a_merge_that_does_not_fit_changes_nothing() {
    let mut left = ExtensionTotals::new();
    assert!(left.add("a".to_string(), 1));
    assert!(left.add("b".to_string(), usize::MAX));
    let mut right = ExtensionTotals::new();
    assert!(right.add("a".to_string(), 5));
    assert!(right.add("c".to_string(), 6));
    assert!(right.add("b".to_string(), 1));
    assert!(!left.fits_with(&right));
    assert!(!left.merge(&right));
    assert_eq!(left.get(&"a".to_string()), 1);
    assert_eq!(left.get(&"b".to_string()), usize::MAX);
    assert_eq!(left.get(&"c".to_string()), 0);
    assert!(right.fits_with(&ExtensionTotals::new()));
}
