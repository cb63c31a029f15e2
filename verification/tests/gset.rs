use bones_core::crdt::gset::GSet;

#[test]
fn test_gset_insert() {
    let mut set = GSet::new();
    set.insert("hash1".to_string());
    set.insert("hash2".to_string());
    assert_eq!(set.len(), 2);
    assert!(set.contains(&"hash1".to_string()));
    assert!(set.contains(&"hash2".to_string()));
}

#[test]
fn test_gset_idempotent_insert() {
    let mut set = GSet::new();
    set.insert("hash1".to_string());
    set.insert("hash1".to_string());
    assert_eq!(set.len(), 1);
}

#[test]
fn test_gset_merge() {
    let mut a = GSet::new();
    a.insert("hash1".to_string());

    let mut b = GSet::new();
    b.insert("hash2".to_string());

    a.merge(&b);
    assert_eq!(a.len(), 2);
    assert!(a.contains(&"hash1".to_string()));
    assert!(a.contains(&"hash2".to_string()));
}

#[test]
fn test_gset_semilattice_commutative() {
    let mut a = GSet::new();
    a.insert("hash1".to_string());
    let mut b = GSet::new();
    b.insert("hash2".to_string());

    let mut a_merge_b = a.clone();
    a_merge_b.merge(&b);

    let mut b_merge_a = b.clone();
    b_merge_a.merge(&a);

    assert_eq!(a_merge_b, b_merge_a);
}

#[test]
fn test_gset_semilattice_associative() {
    let mut a = GSet::new();
    a.insert("hash1".to_string());
    let mut b = GSet::new();
    b.insert("hash2".to_string());
    let mut c = GSet::new();
    c.insert("hash3".to_string());

    let mut left = a.clone();
    left.merge(&b);
    left.merge(&c);

    let mut right_inner = b.clone();
    right_inner.merge(&c);
    let mut right = a.clone();
    right.merge(&right_inner);

    assert_eq!(left, right);
}

#[test]
fn test_gset_semilattice_idempotent() {
    let mut a = GSet::new();
    a.insert("hash1".to_string());

    let mut a_merge_a = a.clone();
    a_merge_a.merge(&a);

    assert_eq!(a, a_merge_a);
}
