//! The slot state machines and mirrors, off the wire.

use egui_pysync::collections::Blob;
use egui_pysync::dict::ValueDict;
use egui_pysync::list::{ListMessage, ValueList, WriteListMessage};
use egui_pysync::transport::WriteMessage;
use egui_pysync::values::{Diff, Value, ValueMessage, ValueStatic};

#[test]
fn pending_counter_gates_inbound_values() {
    let mut slot: Value<i64> = Value::new(10, 0);

    // a disconnected write changes the mirror only
    assert!(slot.set(5, false, false).is_none());
    assert_eq!(*slot.get(), 5);

    // a connected write counts and leaves a frame
    let m = slot.set(7, false, true).unwrap();
    assert!(matches!(m, WriteMessage::Value(10, false, ValueMessage::I64(7))));

    // an inbound value is absorbed for observers while a write pends
    let (head, data) = ValueMessage::I64(9).write_message();
    let seen = slot.process_value(&head, data).unwrap();
    assert_eq!(seen, 9);
    assert_eq!(*slot.get(), 7);

    // once acknowledged, inbound values reach the mirror again
    slot.acknowledge();
    let (head, data) = ValueMessage::I64(9).write_message();
    slot.process_value(&head, data).unwrap();
    assert_eq!(*slot.get(), 9);

    // an unexpected acknowledgement cannot push the counter below zero
    slot.acknowledge();
    slot.acknowledge();
    let (head, data) = ValueMessage::I64(11).write_message();
    slot.process_value(&head, data).unwrap();
    assert_eq!(*slot.get(), 11);
}

#[test]
fn sync_counts_as_one_owed_write() {
    let mut slot: Value<i64> = Value::new(10, 3);
    let m = slot.sync();
    assert!(matches!(m, WriteMessage::Value(10, false, ValueMessage::I64(3))));

    // the peer's own echo of an unrelated value does not overwrite
    let (head, data) = ValueMessage::I64(8).write_message();
    slot.process_value(&head, data).unwrap();
    assert_eq!(*slot.get(), 3);
    slot.acknowledge();
}

#[test]
fn diff_sends_only_changes() {
    let mut slot: Value<i64> = Value::new(10, 1);

    let unchanged = Diff::new(&slot);
    assert!(unchanged.set(&mut slot, false, true).is_none());
    assert_eq!(*slot.get(), 1);

    let mut edit = Diff::new(&slot);
    edit.v = 2;
    let m = edit.set(&mut slot, true, true);
    assert!(m.is_some());
    assert_eq!(*slot.get(), 2);
}

#[test]
fn static_slot_always_adopts() {
    let mut slot: ValueStatic<i64> = ValueStatic::new(10, 1);
    let (head, data) = ValueMessage::I64(4).write_message();
    slot.update_value(&head, data).unwrap();
    assert_eq!(*slot.get(), 4);

    // a wrongly shaped value is refused and changes nothing
    let (head, data) = ValueMessage::U64(4).write_message();
    assert!(slot.update_value(&head, data).is_err());
    assert_eq!(*slot.get(), 4);
}

#[test]
fn list_mirror_applies_frames() {
    let mut list: ValueList<i64> = ValueList::new(10);

    let (head, data) = ListMessage::All(vec![1i64, 2, 3]).write_message();
    list.update_list(&head, data).unwrap();
    assert_eq!(list.get(), vec![1, 2, 3]);

    let (head, data) = ListMessage::Put(1usize, 9i64).write_message();
    list.update_list(&head, data).unwrap();
    assert_eq!(list.get(), vec![1, 9, 3]);

    let (head, data) = ListMessage::Add(4i64).write_message();
    list.update_list(&head, data).unwrap();
    assert_eq!(list.get(), vec![1, 9, 3, 4]);

    let (head, data) = ListMessage::<i64>::Remove(0usize).write_message();
    list.update_list(&head, data).unwrap();
    assert_eq!(list.get(), vec![9, 3, 4]);

    // an index past the end is refused and changes nothing
    let (head, data) = ListMessage::Put(17usize, 0i64).write_message();
    assert!(list.update_list(&head, data).is_err());
    assert_eq!(list.get(), vec![9, 3, 4]);
}

#[test]
fn dict_mirror_updates_and_removals() {
    let mut dict: ValueDict<Blob, i64> = ValueDict::new(10);
    let key = |s: &str| Blob::new(s.as_bytes().to_vec());

    let m = dict.set_item(key("a"), 1, false, true);
    assert!(m.is_some());
    dict.set_item(key("b"), 2, false, false);
    dict.set_item(key("a"), 3, false, false);
    assert_eq!(dict.len(), 2);
    assert_eq!(dict.get_item(&key("a")), Some(3));
    assert_eq!(dict.get_item(&key("b")), Some(2));
    assert_eq!(dict.get_item(&key("c")), None);

    let m = dict.del_item(&key("a"), false, true);
    assert!(m.is_some());
    assert_eq!(dict.get_item(&key("a")), None);
    assert_eq!(dict.len(), 1);

    // removing an absent key changes nothing
    dict.del_item(&key("zzz"), false, false);
    assert_eq!(dict.len(), 1);
}

#[test]
fn dict_replace_keeps_last_entry_for_a_key() {
    let mut dict: ValueDict<i64, i64> = ValueDict::new(10);
    dict.set_item(9, 9, false, false);

    let m = dict.set(vec![(1, 2), (3, 4), (1, 5)], false, true);
    assert!(m.is_some());
    assert_eq!(dict.len(), 2);
    assert_eq!(dict.get_item(&1), Some(5));
    assert_eq!(dict.get_item(&3), Some(4));
    assert_eq!(dict.get_item(&9), None);
}
