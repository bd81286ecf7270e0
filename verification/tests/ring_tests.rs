//! Tests of the reference counted rings.

use xsk_rs::ring::{RingTable, XskRing, XskRingCons, XskRingProd};
use xsk_rs::table::RefTable;

#[test]
fn default_ring_is_zeroed() {
    let ring = XskRing::default();
    assert_eq!(
        (ring.cached_prod, ring.cached_cons, ring.mask, ring.size),
        (0, 0, 0, 0)
    );
    assert_eq!((ring.producer, ring.consumer, ring.ring, ring.flags), (0, 0, 0, 0));
}

#[test]
fn ring_is_null_until_it_is_set_up() {
    let mut table: RingTable = RefTable::new();
    let mut ring = XskRingCons::default(&mut table, 0x10);
    assert_eq!(*ring.as_ref(&table), XskRing::default());
    assert!(ring.is_ring_null(&table));
    ring.as_mut(&mut table).ring = 0x100;
    assert!(!ring.is_ring_null(&table));
    assert_eq!(ring.as_ref(&table).ring, 0x100);
    assert_eq!(ring.as_ptr(&table), 0x10);

    let mut table: RingTable = RefTable::new();
    let mut ring = XskRingProd::default(&mut table, 0x20);
    assert!(ring.is_ring_null(&table));
    *ring.as_mut(&mut table) = XskRing { size: 8, ring: 0x200, ..XskRing::default() };
    assert!(!ring.is_ring_null(&table));
    assert_eq!(ring.as_ref(&table).size, 8);
    assert_eq!(ring.as_ptr(&table), 0x20);
}

#[test]
fn handle_keeps_the_ring_alive() {
    let mut table: RingTable = RefTable::new();
    let ring = XskRingCons::default(&mut table, 0x10);
    let handle = ring.handle(&mut table);
    assert_eq!(handle.as_ptr(&table), 0x10);
    assert_eq!(ring.drop(&mut table), None);
    assert_eq!(handle.as_ptr(&table), 0x10);
    assert_eq!(handle.drop(&mut table), Some(0x10));

    let ring = XskRingProd::default(&mut table, 0x20);
    let handle = ring.handle(&mut table);
    assert_eq!(handle.as_ptr(&table), 0x20);
    assert_eq!(handle.drop(&mut table), None);
    assert_eq!(ring.drop(&mut table), Some(0x20));
}

#[test]
fn ring_without_handles_is_freed_with_its_wrapper() {
    let mut table: RingTable = RefTable::new();
    let a = XskRingCons::default(&mut table, 0x10);
    let b = XskRingCons::default(&mut table, 0x20);
    assert_eq!(a.drop(&mut table), Some(0x10));
    let c = XskRingCons::default(&mut table, 0x30);
    assert_eq!(b.as_ptr(&table), 0x20);
    assert_eq!(c.as_ptr(&table), 0x30);
    assert_eq!(b.drop(&mut table), Some(0x20));
    assert_eq!(c.drop(&mut table), Some(0x30));
}

#[test]
fn writing_to_a_ring_leaves_the_others_alone() {
    let mut table: RingTable = RefTable::new();
    let mut a = XskRingProd::default(&mut table, 0x10);
    let mut b = XskRingProd::default(&mut table, 0x20);
    a.as_mut(&mut table).ring = 0x100;
    assert!(b.is_ring_null(&table));
    b.as_mut(&mut table).cached_prod = 5;
    assert_eq!(a.as_ref(&table).cached_prod, 0);
    assert_eq!(a.as_ref(&table).ring, 0x100);
    assert_eq!((a.as_ptr(&table), b.as_ptr(&table)), (0x10, 0x20));
}

#[test]
fn table_hands_an_object_back_with_its_last_handle() {
    let mut table = RefTable::new();
    let a = table.share(String::from("a"));
    let b = table.share(String::from("b"));
    let a2 = table.retain(&a);
    let a3 = table.retain(&a2);
    assert_eq!(table.release(a), None);
    table.get_mut(&a2).push('!');
    assert_eq!(table.get(&a3), "a!");
    assert_eq!(table.release(a3), None);
    assert_eq!(table.release(b), Some(String::from("b")));
    assert_eq!(table.release(a2), Some(String::from("a!")));
}
