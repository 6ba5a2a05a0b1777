//! Tests of the identifier store: unique ids, lookups, merging and
//! transmutation.

use zephyr_lang::store::{FunId, Identifier, Store, TypeVarId};

#[test]
fn store() {
    let mut store = Store::new(1);
    let id: FunId = store.add('a');
    let other_id = store.add('b');
    assert_ne!(id, other_id);
    assert_eq!(store.get(id), Some(&'a'));
    assert_eq!(store.get(other_id), Some(&'b'));
}

#[test]
fn fresh_ids_decode_to_module_and_counter() {
    let mut store: Store<TypeVarId, u8> = Store::new(7);
    let a = store.fresh_id();
    let b = store.fresh_id();
    assert_eq!(a.raw(), 7u64 << 32);
    assert_eq!(b.raw(), (7u64 << 32) | 1);
    assert_ne!(a.raw(), b.raw());
}

#[test]
fn insert_replaces_existing_entry() {
    let mut store: Store<FunId, u32> = Store::new(2);
    let id = store.add(10);
    store.insert(id, 20);
    assert_eq!(store.get(id), Some(&20));
}

#[test]
fn extend_unions_stores_of_distinct_modules() {
    let mut a: Store<FunId, char> = Store::new(1);
    let mut b: Store<FunId, char> = Store::new(2);
    let ia = a.add('x');
    let ib = b.add('y');
    a.extend(b);
    assert_eq!(a.get(ia), Some(&'x'));
    assert_eq!(a.get(ib), Some(&'y'));
}

#[test]
fn transmute_keeps_ids_and_drops_entries() {
    let mut store: Store<FunId, u32> = Store::new(3);
    let keep = store.add(4);
    let drop_it = store.add(11);
    let out: Store<FunId, u32> = store.transmute(|v: u32| if v < 10 { Some(v + 100) } else { None });
    assert_eq!(out.get(keep), Some(&104));
    assert_eq!(out.get(drop_it), None);
    // The counter is preserved: a fresh id never collides with a kept entry.
    let mut out = out;
    let fresh = out.fresh_id();
    assert_ne!(fresh.raw(), keep.raw());
    assert_ne!(fresh.raw(), drop_it.raw());
}
