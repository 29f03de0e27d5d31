use parser_database::interner::{StringId, StringInterner};

#[test]
fn interning_is_idempotent() {
    let mut interner = StringInterner::new();
    let a1 = interner.intern(&"User".to_string());
    let a2 = interner.intern(&"User".to_string());
    assert_eq!(a1, a2);
    assert_eq!(interner.len(), 1);
}

#[test]
fn distinct_strings_get_distinct_ids() {
    let mut interner = StringInterner::new();
    let a = interner.intern(&"User".to_string());
    let b = interner.intern(&"Post".to_string());
    assert_ne!(a, b);
    assert_eq!(interner.resolve(a).as_str(), "User");
    assert_eq!(interner.resolve(b).as_str(), "Post");
}

#[test]
fn ids_are_dense_and_stable() {
    let mut interner = StringInterner::new();
    let a = interner.intern(&"a".to_string());
    let b = interner.intern(&"b".to_string());
    let c = interner.intern(&"c".to_string());
    assert_eq!(a, StringId(0));
    assert_eq!(b, StringId(1));
    assert_eq!(c, StringId(2));
    let again = interner.intern(&"b".to_string());
    assert_eq!(again, StringId(1));
    assert_eq!(interner.len(), 3);
}

#[test]
fn foreign_ids_resolve_to_none() {
    let mut interner = StringInterner::new();
    interner.intern(&"x".to_string());
    assert!(interner.get(StringId(0)).is_some());
    assert!(interner.get(StringId(5)).is_none());
}
