//! The dictionary codec, exercised over the wire byte shapes.

use std::collections::HashMap;

use egui_pysync::collections::Blob;
use egui_pysync::dict::{DictMessage, WriteDictMessage};

fn to_map(pairs: Vec<(i64, i64)>) -> HashMap<i64, i64> {
    let mut map = HashMap::new();
    for (k, v) in pairs {
        map.insert(k, v);
    }
    map
}

#[test]
fn test_dict_all_message() {
    let mut dict = HashMap::<i64, i64>::new();
    dict.insert(1, 2);
    dict.insert(3, 4);
    dict.insert(5, 6);
    dict.insert(7, 8);

    let pairs: Vec<(i64, i64)> = dict.iter().map(|(k, v)| (*k, *v)).collect();
    let message = DictMessage::All(pairs);

    let (head, data) = message.write_message();
    assert!(data.is_some());
    let message = DictMessage::<i64, i64>::read_message(&head, data).unwrap();

    match message {
        DictMessage::All(new_pairs) => {
            assert_eq!(dict, to_map(new_pairs));
        }
        _ => panic!("Wrong message type."),
    }
}

#[test]
fn test_dict_all_empty() {
    let dict = HashMap::<i64, i64>::new();
    let pairs: Vec<(i64, i64)> = dict.iter().map(|(k, v)| (*k, *v)).collect();
    let message = DictMessage::All(pairs);

    let (head, data) = message.write_message();
    assert!(data.is_none());
    let message = DictMessage::<i64, i64>::read_message(&head, data).unwrap();

    match message {
        DictMessage::All(new_pairs) => {
            assert_eq!(dict, to_map(new_pairs));
        }
        _ => panic!("Wrong message type."),
    }
}

#[test]
fn test_dict_set_message() {
    let key = 123456789u64;
    let value = 987654321u64;

    let message = DictMessage::Put(key, value);

    let (head, data) = message.write_message();
    assert!(data.is_none());
    let message = DictMessage::<u64, u64>::read_message(&head, data).unwrap();

    match message {
        DictMessage::Put(new_key, new_value) => {
            assert_eq!(key, new_key);
            assert_eq!(value, new_value);
        }
        _ => panic!("Wrong message type."),
    }
}

#[test]
fn test_dict_remove_message() {
    let key = 123456789u64;

    let message = DictMessage::<u64, u64>::Remove(key);
    let (head, data) = message.write_message();
    assert!(data.is_none());
    let message = DictMessage::<u64, u64>::read_message(&head, data).unwrap();

    match message {
        DictMessage::Remove(new_key) => {
            assert_eq!(key, new_key);
        }
        _ => panic!("Wrong message type."),
    }
}

#[test]
fn dict_all_dynamic_keys_and_values() {
    let pairs = vec![
        (Blob::new(b"alpha".to_vec()), Blob::new(b"first".to_vec())),
        (Blob::new(b"b".to_vec()), Blob::new(b"".to_vec())),
        (Blob::new(b"".to_vec()), Blob::new(b"third value".to_vec())),
    ];
    let message = DictMessage::All(pairs);

    let (head, data) = message.write_message();
    assert!(data.is_some());
    // count, then two u16 width tables, then the concatenated sides
    assert_eq!(data.as_ref().unwrap().len(), 3 * 4 + 6 + 16);
    let message = DictMessage::<Blob, Blob>::read_message(&head, data).unwrap();

    match message {
        DictMessage::All(new_pairs) => {
            assert_eq!(new_pairs.len(), 3);
            assert_eq!(new_pairs[0].0.bytes, b"alpha".to_vec());
            assert_eq!(new_pairs[0].1.bytes, b"first".to_vec());
            assert_eq!(new_pairs[1].0.bytes, b"b".to_vec());
            assert_eq!(new_pairs[1].1.bytes, b"".to_vec());
            assert_eq!(new_pairs[2].0.bytes, b"".to_vec());
            assert_eq!(new_pairs[2].1.bytes, b"third value".to_vec());
        }
        _ => panic!("Wrong message type."),
    }
}

#[test]
fn dict_all_mixed_layouts() {
    // dynamic keys, fixed values
    let pairs = vec![
        (Blob::new(b"one".to_vec()), 1i64),
        (Blob::new(b"two".to_vec()), 2i64),
    ];
    let (head, data) = DictMessage::All(pairs).write_message();
    let message = DictMessage::<Blob, i64>::read_message(&head, data).unwrap();
    match message {
        DictMessage::All(new_pairs) => {
            assert_eq!(new_pairs[0].0.bytes, b"one".to_vec());
            assert_eq!(new_pairs[0].1, 1);
            assert_eq!(new_pairs[1].0.bytes, b"two".to_vec());
            assert_eq!(new_pairs[1].1, 2);
        }
        _ => panic!("Wrong message type."),
    }

    // fixed keys, dynamic values
    let pairs = vec![
        (10u64, Blob::new(b"ten".to_vec())),
        (20u64, Blob::new(b"twenty".to_vec())),
    ];
    let (head, data) = DictMessage::All(pairs).write_message();
    let message = DictMessage::<u64, Blob>::read_message(&head, data).unwrap();
    match message {
        DictMessage::All(new_pairs) => {
            assert_eq!(new_pairs[0].0, 10);
            assert_eq!(new_pairs[0].1.bytes, b"ten".to_vec());
            assert_eq!(new_pairs[1].0, 20);
            assert_eq!(new_pairs[1].1.bytes, b"twenty".to_vec());
        }
        _ => panic!("Wrong message type."),
    }
}

#[test]
fn dict_set_and_remove_dynamic() {
    let message = DictMessage::Put(Blob::new(b"key".to_vec()), Blob::new(b"value".to_vec()));
    let (head, data) = message.write_message();
    assert!(data.is_some());
    let message = DictMessage::<Blob, Blob>::read_message(&head, data).unwrap();
    match message {
        DictMessage::Put(k, v) => {
            assert_eq!(k.bytes, b"key".to_vec());
            assert_eq!(v.bytes, b"value".to_vec());
        }
        _ => panic!("Wrong message type."),
    }

    let message = DictMessage::<Blob, i64>::Remove(Blob::new(b"gone".to_vec()));
    let (head, data) = message.write_message();
    assert!(data.is_some());
    let message = DictMessage::<Blob, i64>::read_message(&head, data).unwrap();
    match message {
        DictMessage::Remove(k) => {
            assert_eq!(k.bytes, b"gone".to_vec());
        }
        _ => panic!("Wrong message type."),
    }
}

#[test]
fn dict_corrupted_data_is_refused() {
    let mut dict = HashMap::<i64, i64>::new();
    dict.insert(1, 2);
    let pairs: Vec<(i64, i64)> = dict.iter().map(|(k, v)| (*k, *v)).collect();
    let (head, data) = DictMessage::All(pairs).write_message();
    let mut data = data.unwrap();
    data.pop();
    assert!(DictMessage::<i64, i64>::read_message(&head, Some(data)).is_err());
    assert!(DictMessage::<i64, i64>::read_message(&head, None).is_err());
}
