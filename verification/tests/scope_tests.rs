use attribute_scope::attribute::Attribute;
use attribute_scope::scope::{AttributeScope, ScopeError};

#[test]
fn smallest_first_reuse() {
    let mut s: AttributeScope<u32> = AttributeScope::new();
    s.add_buffer("a", 0).unwrap();
    for _ in 0..6 {
        s.add_instance();
    }
    s.dispose(2).unwrap();
    s.dispose(5).unwrap();
    s.dispose(1).unwrap();
    assert_eq!(s.add_instance(), 1);
    assert_eq!(s.add_instance(), 2);
    assert_eq!(s.add_instance(), 5);
}

#[test]
fn growth_only_when_pool_empty() {
    let mut s: AttributeScope<u32> = AttributeScope::new();
    s.add_buffer("a", 7).unwrap();
    assert_eq!(s.add_instance(), 0);
    assert_eq!(s.add_instance(), 1);
    assert_eq!(s.size(), 2);
    s.dispose(0).unwrap();
    // The pool is non-empty, so allocation must not grow the scope.
    assert_eq!(s.add_instance(), 0);
    assert_eq!(s.size(), 2);
    // The pool is empty again, so the next allocation grows.
    assert_eq!(s.add_instance(), 2);
    assert_eq!(s.size(), 3);
}

#[test]
fn uniform_length_invariant() {
    let mut s: AttributeScope<i64> = AttributeScope::new();
    s.add_buffer("first", -1).unwrap();
    s.add_instance();
    s.add_instance();
    // A buffer registered later immediately matches the current size.
    s.add_buffer("second", 0).unwrap();
    for b in 0..s.buffer_count() {
        assert_eq!(s.buffer_len(b), s.size());
    }
    s.add_instance();
    s.dispose(1).unwrap();
    for b in 0..s.buffer_count() {
        assert_eq!(s.buffer_len(b), s.size());
    }
    assert_eq!(s.size(), 3);
}

#[test]
fn dispose_resets_to_default() {
    let mut s: AttributeScope<u32> = AttributeScope::new();
    let a = s.add_buffer("a", 11).unwrap();
    let b = s.add_buffer("b", 22).unwrap();
    let ix = s.add_instance();
    s.set_value(a, ix, 100);
    s.set_value(b, ix, 200);
    assert_eq!(s.get_value(a, ix), 100);
    assert_eq!(s.get_value(b, ix), 200);
    s.dispose(ix).unwrap();
    assert_eq!(s.get_value(a, ix), 11);
    assert_eq!(s.get_value(b, ix), 22);
}

#[test]
fn dirty_minimality() {
    let mut s: AttributeScope<u32> = AttributeScope::new();
    let a = s.add_buffer("a", 0).unwrap();
    let _b = s.add_buffer("b", 0).unwrap();
    let c = s.add_buffer("c", 0).unwrap();
    let ix = s.add_instance();
    // Initial pass: the shape is dirty, everything refreshes.
    assert_eq!(s.update(), vec![0, 1, 2]);
    // A frame with zero writes refreshes nothing.
    assert_eq!(s.update(), vec![]);
    // Writing one buffer at one row refreshes exactly that buffer.
    s.set_value(c, ix, 9);
    assert_eq!(s.update(), vec![c]);
    // An allocation that grows the scope refreshes all buffers.
    s.add_instance();
    assert_eq!(s.update(), vec![0, 1, 2]);
    // Disposal writes every buffer's row, so every buffer refreshes,
    // but the shape stays clean.
    s.dispose(ix).unwrap();
    assert_eq!(s.update(), vec![0, 1, 2]);
    // One more write, then a quiet frame again.
    s.set_value(a, ix, 1);
    assert_eq!(s.update(), vec![a]);
    assert_eq!(s.update(), vec![]);
}

#[test]
fn attribute_round_trip() {
    let mut s: AttributeScope<u64> = AttributeScope::new();
    let b = s.add_buffer("values", 0).unwrap();
    let ix = s.add_instance();
    let handle = Attribute::new(ix, b);
    handle.set(&mut s, 0xdead_beef);
    assert_eq!(handle.get(&s), 0xdead_beef);
    handle.set(&mut s, u64::MAX);
    assert_eq!(handle.get(&s), u64::MAX);
    handle.modify(&mut s, |v| v / 2);
    assert_eq!(handle.get(&s), u64::MAX / 2);
    // A second handle over the same cell sees the same value.
    let other = Attribute::new(ix, b);
    assert_eq!(other.get(&s), u64::MAX / 2);
}

#[test]
fn boundary_errors() {
    let mut s: AttributeScope<u8> = AttributeScope::new();
    s.add_buffer("a", 0).unwrap();
    assert_eq!(s.add_buffer("a", 1), Err(ScopeError::DuplicateBufferName));
    assert_eq!(s.dispose(0), Err(ScopeError::DisposeOfUnallocatedIndex));
    let ix = s.add_instance();
    s.dispose(ix).unwrap();
    assert_eq!(s.dispose(ix), Err(ScopeError::DoubleDispose));
    assert_eq!(s.dispose(7), Err(ScopeError::DisposeOfUnallocatedIndex));
}

#[test]
fn lookup_and_contains() {
    let mut s: AttributeScope<u16> = AttributeScope::new();
    let p = s.add_buffer("position", 0).unwrap();
    let c = s.add_buffer("color", 0).unwrap();
    assert_eq!(s.buffer("position"), Some(p));
    assert_eq!(s.buffer("color"), Some(c));
    assert_eq!(s.buffer("normal"), None);
    assert!(s.contains("position"));
    assert!(!s.contains("normal"));
}

#[derive(Clone, Copy, PartialEq, Debug)]
enum Elem {
    Scalar(f32),
    Color([f32; 4]),
}

#[test]
fn end_to_end_scenario() {
    const BLACK: Elem = Elem::Color([0.0, 0.0, 0.0, 1.0]);
    let mut s: AttributeScope<Elem> = AttributeScope::new();
    let position = s.add_buffer("position", Elem::Scalar(0.0)).unwrap();
    let color = s.add_buffer("color", BLACK).unwrap();
    let i0 = s.add_instance();
    let i1 = s.add_instance();
    let i2 = s.add_instance();
    assert_eq!((i0, i1, i2), (0, 1, 2));
    // Initial refresh after the growth caused by the allocations.
    assert_eq!(s.update(), vec![position, color]);
    // One write into "position": the next pass refreshes exactly it.
    let handle = Attribute::new(i1, position);
    handle.set(&mut s, Elem::Scalar(3.5));
    assert_eq!(s.update(), vec![position]);
    assert_eq!(handle.get(&s), Elem::Scalar(3.5));
    assert_eq!(s.get_value(color, i1), BLACK);
    // Reuse: disposing index 0 and allocating again returns 0, not 3.
    s.dispose(i0).unwrap();
    assert_eq!(s.add_instance(), 0);
    assert_eq!(s.size(), 3);
}
