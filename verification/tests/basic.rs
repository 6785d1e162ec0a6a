use rsdbus::dbus_bool;
use rsdbus::connection::calc_remaining_time;
use rsdbus::slots::{Slot, find_new_slot_id, insert_new_slot, ref_slot, unref_slot};

#[test]
fn it_works() {
    assert_eq!(2 + 2, 4);
}

#[test]
fn dbus_bool_encodes_one_and_zero() {
    assert_eq!(dbus_bool(true), 1);
    assert_eq!(dbus_bool(false), 0);
}

#[test]
fn remaining_time_counts_down() {
    assert_eq!(calc_remaining_time(100, 150, None), Ok(None));
    assert_eq!(calc_remaining_time(100, 150, Some(80)), Ok(Some(30)));
    assert_eq!(calc_remaining_time(100, 180, Some(80)), Err(()));
    assert_eq!(calc_remaining_time(100, 200, Some(80)), Err(()));
}

#[test]
fn slot_ids_fill_the_smallest_gap() {
    let mut slots: Vec<Slot> = Vec::new();
    let id = find_new_slot_id(&slots).unwrap();
    assert_eq!(id, 0);
    insert_new_slot(id, &mut slots);
    let id2 = find_new_slot_id(&slots).unwrap();
    assert_eq!(id2, 1);
    insert_new_slot(id2, &mut slots);
    assert_eq!(slots.len(), 2);
    assert_eq!(slots[0].ref_count, 1);
}

#[test]
fn slot_refcounts_move_up_and_down() {
    let mut slots: Vec<Slot> = Vec::new();
    insert_new_slot(3, &mut slots);
    ref_slot(3, &mut slots);
    assert_eq!(slots[0].ref_count, 2);
    unref_slot(3, &mut slots);
    assert_eq!(slots[0].ref_count, 1);
    unref_slot(3, &mut slots);
    assert_eq!(slots[0].ref_count, -1);
    unref_slot(7, &mut slots);
    assert_eq!(slots[0].ref_count, -1);
}
