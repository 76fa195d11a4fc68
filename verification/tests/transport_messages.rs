//! The frame codec: header discipline and round trips for every kind.

use egui_pysync::commands::CommandMessage;
use egui_pysync::graphs::{Graph, GraphElement, GraphMessage, Precision, WriteGraphMessage};
use egui_pysync::image::{HistogramMessage, ImageDataMessage, ImageMessage, ImageType};
use egui_pysync::list::{ListMessage, WriteListMessage};
use egui_pysync::transport::{ReadMessage, WriteMessage, HEAD_SIZE, SIZE_START};
use egui_pysync::values::ValueMessage;

fn reread(head: &[u8], data: Option<Vec<u8>>) -> ReadMessage {
    assert_eq!(head.len(), HEAD_SIZE);
    let t0 = head[0] as i8;
    // byte 0 is negative exactly when a payload follows
    assert_eq!(t0 < 0, data.is_some());
    if let Some(ref d) = data {
        let size = u32::from_le_bytes(head[SIZE_START..].try_into().unwrap()) as usize;
        assert_eq!(size, d.len());
    }
    let t = if t0 < 0 { -t0 } else { t0 };
    ReadMessage::parse(head, t, data).unwrap()
}

#[test]
fn value_frame_round_trip() {
    let (head, data) = WriteMessage::Value(11, true, ValueMessage::I64(42)).parse();
    assert_eq!(head[0], 16);
    assert_eq!(u32::from_le_bytes(head[1..5].try_into().unwrap()), 11);
    assert_eq!(head[5], 1);
    // the scalar sits inline: tag then eight little-endian bytes
    assert_eq!(head[6], 1);
    assert_eq!(head[7], 0x2A);
    assert_eq!(&head[8..15], &[0u8; 7]);
    match reread(&head, data) {
        ReadMessage::Value(id, update, sub, d) => {
            assert_eq!(id, 11);
            assert!(update);
            assert!(d.is_none());
            match ValueMessage::read_message(&sub, d).unwrap() {
                ValueMessage::I64(x) => assert_eq!(x, 42),
                _ => panic!("Wrong value shape."),
            }
        }
        _ => panic!("Wrong message kind."),
    }
}

#[test]
fn bytes_value_frame_round_trip() {
    let payload = b"hello wire".to_vec();
    let (head, data) = WriteMessage::Value(12, false, ValueMessage::Bytes(payload.clone())).parse();
    assert!((head[0] as i8) < 0);
    match reread(&head, data) {
        ReadMessage::Value(id, update, sub, d) => {
            assert_eq!(id, 12);
            assert!(!update);
            match ValueMessage::read_message(&sub, d).unwrap() {
                ValueMessage::Bytes(b) => assert_eq!(b, payload),
                _ => panic!("Wrong value shape."),
            }
        }
        _ => panic!("Wrong message kind."),
    }
}

#[test]
fn command_frames_round_trip() {
    let (head, data) = WriteMessage::Command(CommandMessage::Handshake(7, 0xAB)).parse();
    assert_eq!(head[0], 64);
    match reread(&head, data) {
        ReadMessage::Command(CommandMessage::Handshake(v, t)) => {
            assert_eq!(v, 7);
            assert_eq!(t, 0xAB);
        }
        _ => panic!("Wrong message kind."),
    }

    let (head, data) = WriteMessage::ack(11).parse();
    match reread(&head, data) {
        ReadMessage::Command(CommandMessage::Ack(id)) => assert_eq!(id, 11),
        _ => panic!("Wrong message kind."),
    }

    let (head, data) =
        WriteMessage::Command(CommandMessage::Error(b"trouble".to_vec())).parse();
    assert!((head[0] as i8) < 0);
    match reread(&head, data) {
        ReadMessage::Command(CommandMessage::Error(e)) => assert_eq!(e, b"trouble".to_vec()),
        _ => panic!("Wrong message kind."),
    }

    let delta = 0.25f32.to_bits();
    let (head, data) = WriteMessage::Command(CommandMessage::Update(delta)).parse();
    match reread(&head, data) {
        ReadMessage::Command(CommandMessage::Update(b)) => {
            assert_eq!(f32::from_bits(b), 0.25);
        }
        _ => panic!("Wrong message kind."),
    }
}

#[test]
fn image_frame_round_trip() {
    let message = ImageMessage::Data(ImageDataMessage {
        image_size: [2, 3],
        rect: Some([1, 2, 3, 4]),
        data: vec![9u8; 6],
        image_type: ImageType::Gray,
        histogram: Some(vec![1.5f32.to_bits(), 2.5f32.to_bits()]),
    });
    let (head, data) = WriteMessage::Image(13, true, message).parse();
    match reread(&head, data) {
        ReadMessage::Image(id, update, ImageMessage::Data(d)) => {
            assert_eq!(id, 13);
            assert!(update);
            assert_eq!(d.image_size, [2, 3]);
            assert_eq!(d.rect, Some([1, 2, 3, 4]));
            assert_eq!(d.data, vec![9u8; 6]);
            assert!(matches!(d.image_type, ImageType::Gray));
            let hist = d.histogram.unwrap();
            assert_eq!(f32::from_bits(hist[0]), 1.5);
            assert_eq!(f32::from_bits(hist[1]), 2.5);
        }
        _ => panic!("Wrong message kind."),
    }
}

#[test]
fn histogram_frame_round_trip() {
    let bins = vec![0.5f32.to_bits(), 1.0f32.to_bits(), 2.0f32.to_bits()];
    let (head, data) =
        WriteMessage::Histogram(14, false, HistogramMessage(Some(bins.clone()))).parse();
    match reread(&head, data) {
        ReadMessage::Histogram(id, _, HistogramMessage(h)) => {
            assert_eq!(id, 14);
            assert_eq!(h.unwrap(), bins);
        }
        _ => panic!("Wrong message kind."),
    }

    // an empty length encodes "clear"
    let (head, data) = WriteMessage::Histogram(14, false, HistogramMessage(None)).parse();
    assert!(data.is_none());
    match reread(&head, data) {
        ReadMessage::Histogram(_, _, HistogramMessage(h)) => assert!(h.is_none()),
        _ => panic!("Wrong message kind."),
    }
}

#[test]
fn list_frame_round_trip() {
    let message: ListMessage<i64> = ListMessage::All(vec![5, -6, 7]);
    let (sub, data) = message.write_message();
    let back = ListMessage::<i64>::read_message(&sub, data).unwrap();
    match back {
        ListMessage::All(items) => assert_eq!(items, vec![5, -6, 7]),
        _ => panic!("Wrong message type."),
    }

    let (sub, data) = ListMessage::Put(2usize, 9i64).write_message();
    match ListMessage::<i64>::read_message(&sub, data).unwrap() {
        ListMessage::Put(i, v) => {
            assert_eq!(i, 2);
            assert_eq!(v, 9);
        }
        _ => panic!("Wrong message type."),
    }

    let (sub, data) = ListMessage::Add(3i64).write_message();
    assert!(matches!(
        ListMessage::<i64>::read_message(&sub, data).unwrap(),
        ListMessage::Add(3)
    ));

    let (sub, data) = ListMessage::<i64>::Remove(1usize).write_message();
    assert!(matches!(
        ListMessage::<i64>::read_message(&sub, data).unwrap(),
        ListMessage::Remove(1)
    ));
}

#[test]
fn graph_frame_round_trip() {
    let graph = Graph::<u64> {
        y: vec![1.0f64.to_bits(), 2.0f64.to_bits()],
        x: Some(vec![0.0f64.to_bits(), 1.0f64.to_bits()]),
    };
    let gd = graph.to_graph_data(None);
    let (head, data) = WriteMessage::graph(15, false, GraphMessage::Put(0, gd)).parse();
    assert!((head[0] as i8) < 0);
    match reread(&head, data) {
        ReadMessage::Graph(id, _, sub, d) => {
            assert_eq!(id, 15);
            let back = GraphMessage::<u64>::read_message(&sub, d).unwrap();
            match back {
                GraphMessage::Put(idx, gd) => {
                    assert_eq!(idx, 0);
                    let g = Graph::<u64>::from_graph_data(gd);
                    assert_eq!(
                        g.y.iter().map(|b| f64::from_bits(*b)).collect::<Vec<_>>(),
                        vec![1.0, 2.0]
                    );
                    assert_eq!(
                        g.x.unwrap()
                            .iter()
                            .map(|b| f64::from_bits(*b))
                            .collect::<Vec<_>>(),
                        vec![0.0, 1.0]
                    );
                }
                _ => panic!("Wrong message type."),
            }
        }
        _ => panic!("Wrong message kind."),
    }

    // the other element width is refused
    let graph = Graph::<u32> { y: vec![1.0f32.to_bits()], x: None };
    let gd = graph.to_graph_data(None);
    let (sub, data) = WriteGraphMessage::write_message(&GraphMessage::Put(0, gd));
    assert!(GraphMessage::<u64>::read_message(&sub, data).is_err());
}

#[test]
fn unknown_kind_is_refused() {
    let head = vec![0u8; HEAD_SIZE];
    assert!(ReadMessage::parse(&head, 17, None).is_err());
}

#[test]
fn stray_or_missing_payloads_are_refused() {
    // a scalar frame must not carry a payload
    let (head, _) = ValueMessage::I64(1).write_message();
    assert!(ValueMessage::read_message(&head, Some(vec![0u8; 4])).is_err());

    // a byte-string frame must carry one
    let (head, _) = ValueMessage::Bytes(b"x".to_vec()).write_message();
    assert!(ValueMessage::read_message(&head, None).is_err());

    // a histogram shorter than its advertised length is refused
    let (head, data) =
        WriteMessage::Histogram(14, false, HistogramMessage(Some(vec![7u32]))).parse();
    let mut data = data.unwrap();
    data.pop();
    let t = -(head[0] as i8);
    assert!(ReadMessage::parse(&head, t, Some(data)).is_err());
}

#[test]
fn precision_tags_match_the_element_widths() {
    assert_eq!(Precision::F32.tag(), <u32 as GraphElement>::ptag());
    assert_eq!(Precision::F64.tag(), <u64 as GraphElement>::ptag());
}
