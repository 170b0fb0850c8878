use wise::{ManageWithRc, Object, ObjectSystem, ObjectTable, Rc};

fn table_with_object() -> (ObjectTable, u64) {
    let mut t = ObjectTable::new(true);
    let r = t.add_object();
    assert_ne!(r, 0);
    (t, r)
}

#[test]
fn from_owned_null_is_none() {
    let (t, r) = table_with_object();
    assert!(Rc::<Object>::new_mut(0).is_none());
    assert!(Rc::<Object>::new_const(0).is_none());
    assert!(0u64.acquire_owned::<Object>().is_none());
    assert!(t.is_live(r));
    assert_eq!(t.retain_count(r), 1);
}

#[test]
fn new_mut_and_new_const_keep_the_reference() {
    let (mut t, r) = table_with_object();
    let m = Rc::<Object>::new_mut(r).unwrap();
    assert_eq!(m.get(), r);
    assert!(m.is_mut());
    assert_eq!(m.strong_count(&t), 1);
    let c = Rc::<Object>::new_const(r).unwrap();
    assert_eq!(c.get(), r);
    assert!(!c.is_mut());
    t.retain(r);
    c.release(&mut t);
    assert_eq!(m.strong_count(&t), 1);
}

#[test]
fn clone_adds_one_and_release_restores() {
    let (mut t, r) = table_with_object();
    let h = Rc::<Object>::new_mut(r).unwrap();
    let before = h.strong_count(&t);
    let c = h.clone_in(&mut t);
    assert_eq!(c.get(), h.get());
    assert_eq!(c.strong_count(&t), before + 1);
    assert_eq!(h.strong_count(&t), 2);
    c.release(&mut t);
    assert_eq!(h.strong_count(&t), before);
}

#[test]
fn n_clones_released_leave_one_owner() {
    let (mut t, r) = table_with_object();
    let h = Rc::<Object>::new_mut(r).unwrap();
    let mut clones = Vec::new();
    for _ in 0..5 {
        clones.push(h.clone_in(&mut t));
    }
    assert_eq!(h.strong_count(&t), 6);
    let survivor = clones.pop().unwrap();
    h.release(&mut t);
    for c in clones {
        c.release(&mut t);
    }
    assert!(t.is_live(r));
    assert_eq!(survivor.strong_count(&t), 1);
    assert_eq!(survivor.get(), r);
    survivor.release(&mut t);
    assert!(!t.is_live(r));
}

#[test]
fn last_release_frees_the_allocation() {
    let (mut t, r) = table_with_object();
    let h = r.acquire_owned::<Object>().unwrap();
    assert_eq!(h.strong_count(&t), 1);
    h.release(&mut t);
    assert!(!t.is_live(r));
}

#[test]
fn acquire_shared_adds_exactly_one() {
    let (mut t, r) = table_with_object();
    let first = r.acquire_shared::<Object, ObjectTable>(&mut t).unwrap();
    assert_eq!(first.get(), r);
    assert_eq!(t.retain_count(r), 2);
    t.retain(r);
    t.retain(r);
    assert_eq!(t.retain_count(r), 4);
    let second = r.acquire_shared::<Object, ObjectTable>(&mut t).unwrap();
    assert_eq!(second.strong_count(&t), 5);
}

#[test]
fn acquire_shared_null_retains_nothing() {
    let (mut t, r) = table_with_object();
    assert!(0u64.acquire_shared::<Object, ObjectTable>(&mut t).is_none());
    assert_eq!(t.retain_count(r), 1);
}

#[test]
fn acquire_owned_does_not_retain() {
    let (t, r) = table_with_object();
    let h = r.acquire_owned::<Object>().unwrap();
    assert_eq!(h.get(), r);
    assert_eq!(h.strong_count(&t), 1);
}

#[test]
fn shared_handle_outlives_the_first_owner() {
    let (mut t, r) = table_with_object();
    let owner = r.acquire_owned::<Object>().unwrap();
    let shared = r.acquire_shared::<Object, ObjectTable>(&mut t).unwrap();
    owner.release(&mut t);
    assert!(t.is_live(r));
    assert_eq!(shared.strong_count(&t), 1);
}

#[test]
fn table_references_are_distinct_and_non_null() {
    let mut t = ObjectTable::new(false);
    let a = t.add_object();
    let b = t.add_object();
    assert_ne!(a, 0);
    assert_ne!(b, 0);
    assert_ne!(a, b);
    assert!(!t.is_live(0));
    assert!(!t.is_live(b + 1));
}
