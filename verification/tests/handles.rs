use pairing_signatures::handles::{Arena, Handle};

#[test]
fn arena_hands_out_distinct_handles() {
    let mut arena: Arena<u64> = Arena::new();
    let a = arena.allocate(10).unwrap();
    let b = arena.allocate(20).unwrap();
    let c = arena.allocate(30).unwrap();
    assert_eq!(a, Handle { index: 0, generation: 1 });
    assert_eq!(b, Handle { index: 1, generation: 1 });
    assert_eq!(c, Handle { index: 2, generation: 1 });
    assert_eq!(arena.get(a), Some(&10));
    assert_eq!(arena.get(b), Some(&20));
    assert_eq!(arena.get(c), Some(&30));
}

#[test]
fn arena_release_ends_the_generation() {
    let mut arena: Arena<u64> = Arena::new();
    let a = arena.allocate(10).unwrap();
    let b = arena.allocate(20).unwrap();
    assert!(arena.release(a));
    assert_eq!(arena.get(a), None);
    assert_eq!(arena.get(b), Some(&20));
    assert!(!arena.release(a));
    let c = arena.allocate(30).unwrap();
    assert_eq!(c, Handle { index: 0, generation: 2 });
    assert_eq!(arena.get(c), Some(&30));
    assert_eq!(arena.get(a), None);
    assert!(!arena.release(a));
    assert!(arena.release(c));
    assert!(arena.release(b));
    // the place released last is used first
    let d = arena.allocate(40).unwrap();
    assert_eq!(d, Handle { index: 1, generation: 2 });
    let e = arena.allocate(50).unwrap();
    assert_eq!(e, Handle { index: 0, generation: 3 });
    let f = arena.allocate(60).unwrap();
    assert_eq!(f, Handle { index: 2, generation: 1 });
}

#[test]
fn arena_knows_no_foreign_handle() {
    let mut arena: Arena<u64> = Arena::new();
    assert_eq!(arena.get(Handle { index: 0, generation: 1 }), None);
    assert!(!arena.release(Handle { index: 0, generation: 1 }));
    let a = arena.allocate(1).unwrap();
    assert_eq!(arena.get(Handle { index: a.index, generation: a.generation + 1 }), None);
    assert_eq!(arena.get(Handle { index: a.index, generation: 0 }), None);
    assert_eq!(arena.get(Handle { index: a.index + 1, generation: a.generation }), None);
    assert!(!arena.release(Handle { index: a.index, generation: 0 }));
    assert_eq!(arena.get(a), Some(&1));
}

#[test]
fn handle_is_one_number() {
    let h = Handle { index: 7, generation: 3 };
    assert_eq!(h.to_raw(), 3 * 0x1_0000_0000 + 7);
    assert_eq!(Handle::from_raw(h.to_raw()), h);
    let largest = Handle { index: u32::MAX, generation: u32::MAX };
    assert_eq!(largest.to_raw(), u64::MAX);
    assert_eq!(Handle::from_raw(u64::MAX), largest);
    assert_eq!(Handle::from_raw(0), Handle { index: 0, generation: 0 });
    assert_eq!(Handle::from_raw(0x1_0000_0000), Handle { index: 0, generation: 1 });
    // no handle of a table is the number zero
    let mut arena: Arena<u8> = Arena::new();
    assert_ne!(arena.allocate(0).unwrap().to_raw(), 0);
}
