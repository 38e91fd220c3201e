//! Interner behaviour on concrete values.

use fix_stacks::interner::Interner;

#[test]
fn interning_is_idempotent() {
    let mut interner = Interner::new();
    let a = interner.intern("alpha/path.c".to_string());
    let b = interner.intern("alpha/path.c".to_string());
    assert_eq!(a.0, b.0);
    assert_eq!(interner.get(a), "alpha/path.c");
    assert_eq!(interner.get(b), "alpha/path.c");
}

#[test]
fn distinct_strings_get_distinct_handles() {
    let mut interner = Interner::new();
    let a = interner.intern("a.c".to_string());
    let b = interner.intern("b.c".to_string());
    let c = interner.intern("c.c".to_string());
    assert_ne!(a.0, b.0);
    assert_ne!(b.0, c.0);
    assert_ne!(a.0, c.0);
    assert_eq!(interner.get(a), "a.c");
    assert_eq!(interner.get(b), "b.c");
    assert_eq!(interner.get(c), "c.c");
    // Re-interning an earlier string still answers the old handle.
    let a2 = interner.intern("a.c".to_string());
    assert_eq!(a2.0, a.0);
}
