//! End-to-end scenarios: handshake, echo, sync, reconnect and the
//! pending-write reconciliation, driven through the wire codec.

use egui_pysync::client::{handle_message, ClientCore, ClientStep, ConnectionState};
use egui_pysync::dict::ValueDict;
use egui_pysync::graphs::{Graph, GraphMessage, ValueGraphs};
use egui_pysync::server::{server_handle_message, HandshakeOutcome, ServerCore, ServerStep};
use egui_pysync::states_creator::ValuesCreator;
use egui_pysync::transport::{ReadMessage, WriteMessage};
use egui_pysync::values::Value;

fn through_wire(message: WriteMessage) -> ReadMessage {
    let (head, data) = message.parse();
    let t0 = head[0] as i8;
    let t = if t0 < 0 { -t0 } else { t0 };
    ReadMessage::parse(&head, t, data).unwrap()
}

#[test]
fn handshake_reject_wrong_version() {
    let server = ServerCore::new(7, Some(vec![0xAB]));
    let client = ClientCore::new(6, 0xAB);
    let opening = through_wire(client.handshake_message());
    match server.check_handshake(&opening) {
        HandshakeOutcome::Reject(text) => {
            assert!(text.contains("different version"));
        }
        HandshakeOutcome::Accept => panic!("A wrong version must be refused."),
    }

    // the right version with a listed token is accepted
    let good = ClientCore::new(7, 0xAB);
    let opening = through_wire(good.handshake_message());
    assert!(matches!(
        server.check_handshake(&opening),
        HandshakeOutcome::Accept
    ));

    // the right version with an unlisted token is refused
    let bad_token = ClientCore::new(7, 0xCD);
    let opening = through_wire(bad_token.handshake_message());
    assert!(matches!(
        server.check_handshake(&opening),
        HandshakeOutcome::Reject(_)
    ));
}

#[test]
fn scalar_echo() {
    // slot id 11 of shape i64, initial 0, on both sides
    let mut client_creator = ValuesCreator::new();
    client_creator.add_value(0i64);
    let mut client_slot = client_creator.add_value(0i64);
    assert_eq!(client_slot.id(), 11);
    let client_vals = client_creator.get_values();

    let mut server_creator = ValuesCreator::new();
    server_creator.add_value(0i64);
    let mut server_slot = server_creator.add_value(0i64);
    let server_vals = server_creator.get_values();

    // the client sets 42 with the signal flag while connected
    let outbound = client_slot.set(42, true, true).unwrap();
    let frame = through_wire(outbound);

    // the server dispatches it to the slot and notifies (11, 42)
    match server_handle_message(frame, &server_vals) {
        ServerStep::DispatchValue(id, signal, head, data) => {
            assert_eq!(id, 11);
            assert!(signal);
            let notified = server_slot.process_value(&head, data).unwrap();
            assert_eq!(notified, 42);
        }
        _ => panic!("The value must dispatch."),
    }
    assert_eq!(*server_slot.get(), 42);

    // the server acknowledges; the client's pending count returns to zero
    let ack = through_wire(WriteMessage::ack(11));
    match handle_message(ack, &client_vals).unwrap() {
        ClientStep::Ignore => {}
        _ => panic!("An acknowledgement carries nothing else for the client."),
    }
    client_slot.acknowledge();
    assert_eq!(*client_slot.get(), 42);
}

#[test]
fn dict_replace_on_sync() {
    let mut server_dict: ValueDict<i64, i64> = ValueDict::new(11);
    server_dict.set_item(1, 2, false, false);
    server_dict.set_item(3, 4, false, false);

    let frame = through_wire(server_dict.sync());
    let mut client_dict: ValueDict<i64, i64> = ValueDict::new(11);
    match frame {
        ReadMessage::Dict(id, _, head, data) => {
            assert_eq!(id, 11);
            // count 2, then 32 bytes of packed pairs
            assert_eq!(u64::from_le_bytes(head[1..9].try_into().unwrap()), 2);
            assert_eq!(data.as_ref().unwrap().len(), 32);
            client_dict.update_dict(&head, data).unwrap();
        }
        _ => panic!("Wrong message kind."),
    }
    assert_eq!(client_dict.get_item(&1), Some(2));
    assert_eq!(client_dict.get_item(&3), Some(4));
    assert_eq!(client_dict.len(), 2);
}

#[test]
fn graph_add_points() {
    // series 0 with y=[1,2], x=[0,1] on the server
    let mut server_graphs: ValueGraphs<u64> = ValueGraphs::new(11);
    let series = Graph::<u64> {
        y: vec![1.0f64.to_bits(), 2.0f64.to_bits()],
        x: Some(vec![0.0f64.to_bits(), 1.0f64.to_bits()]),
    };
    let put = server_graphs.set(0, series, false, true).unwrap();

    // the client adopts the series
    let mut client_graphs: ValueGraphs<u64> = ValueGraphs::new(11);
    match through_wire(put) {
        ReadMessage::Graph(_, _, head, data) => {
            client_graphs.update_graph(&head, data).unwrap();
        }
        _ => panic!("Wrong message kind."),
    }

    // the server appends y=[3], x=[2] and the client follows
    let added = Graph::<u64> {
        y: vec![3.0f64.to_bits()],
        x: Some(vec![2.0f64.to_bits()]),
    };
    let add = WriteMessage::graph(11, false, GraphMessage::AddPoints(0, added.to_graph_data(None)));
    match through_wire(add) {
        ReadMessage::Graph(_, _, head, data) => {
            client_graphs.update_graph(&head, data).unwrap();
        }
        _ => panic!("Wrong message kind."),
    }

    let got = client_graphs.get(0).unwrap();
    let xs: Vec<f64> = got.x.unwrap().iter().map(|b| f64::from_bits(*b)).collect();
    let ys: Vec<f64> = got.y.iter().map(|b| f64::from_bits(*b)).collect();
    assert_eq!(xs, vec![0.0, 1.0, 2.0]);
    assert_eq!(ys, vec![1.0, 2.0, 3.0]);
}

#[test]
fn graph_axis_mismatch_leaves_series_alone() {
    let mut graphs: ValueGraphs<u64> = ValueGraphs::new(11);
    let series = Graph::<u64> {
        y: vec![1.0f64.to_bits(), 2.0f64.to_bits()],
        x: Some(vec![0.0f64.to_bits(), 1.0f64.to_bits()]),
    };
    graphs.set(0, series, false, false);

    // appending range-axis points to a paired-axis series is an error
    let linear = Graph::<u64> { y: vec![9.0f64.to_bits(), 10.0f64.to_bits()], x: None };
    let add = WriteMessage::graph(11, false, GraphMessage::AddPoints(0, linear.to_graph_data(None)));
    match through_wire(add) {
        ReadMessage::Graph(_, _, head, data) => {
            assert!(graphs.update_graph(&head, data).is_err());
        }
        _ => panic!("Wrong message kind."),
    }

    // and the series is untouched
    let got = graphs.get(0).unwrap();
    assert_eq!(got.y.len(), 2);
    assert_eq!(f64::from_bits(got.y[0]), 1.0);
    assert_eq!(f64::from_bits(got.y[1]), 2.0);
}

#[test]
fn reconnect_drains_and_syncs_once() {
    let mut server = ServerCore::new(7, None);
    assert!(!server.is_running());
    server.start();
    assert!(server.is_running());

    // a first session, with a slot and a leftover frame in the queue
    let mut slot: Value<i64> = Value::new(10, 5);
    let mut queue: Vec<WriteMessage> = Vec::new();
    server.attach_client();
    queue.push(slot.set(6, false, true).unwrap());

    // the server stops: the client is detached and the listener rests
    let (stopped, had_client) = server.stop();
    assert!(stopped);
    assert!(had_client);
    assert!(!server.is_running());

    server.start();
    // on the fresh attachment the leftovers drain first, then the sync
    // sweep runs exactly once over the sync-capable slots
    queue.clear();
    queue.push(slot.sync());
    server.attach_client();
    assert_eq!(queue.len(), 1);
    match through_wire(queue.remove(0)) {
        ReadMessage::Value(id, update, head, data) => {
            assert_eq!(id, 10);
            assert!(!update);
            let mut client_slot: Value<i64> = Value::new(10, 0);
            client_slot.process_value(&head, data).unwrap();
            assert_eq!(*client_slot.get(), 6);
        }
        _ => panic!("Wrong message kind."),
    }
}

#[test]
fn concurrent_set_and_receive() {
    // the client sets slot 20 to A while connected: one write pending
    let mut client_slot: Value<i64> = Value::new(20, 0);
    let to_server = client_slot.set(1, false, true).unwrap();

    // an older server value B arrives before the echo: the mirror
    // keeps A, the value serves observers only
    let mut server_slot: Value<i64> = Value::new(20, 0);
    let b_frame = through_wire(server_slot.set(2, false, true).unwrap());
    match b_frame {
        ReadMessage::Value(_, _, head, data) => {
            let seen = client_slot.process_value(&head, data).unwrap();
            assert_eq!(seen, 2);
            assert_eq!(*client_slot.get(), 1);
        }
        _ => panic!("Wrong message kind."),
    }

    // the server receives A and acknowledges; the client owes nothing
    match through_wire(to_server) {
        ReadMessage::Value(_, _, head, data) => {
            server_slot.process_value(&head, data).unwrap();
        }
        _ => panic!("Wrong message kind."),
    }
    server_slot.acknowledge();
    client_slot.acknowledge();

    // a later server value C now overrides the client's mirror
    server_slot.acknowledge();
    let c_frame = through_wire(server_slot.set(3, false, true).unwrap());
    match c_frame {
        ReadMessage::Value(_, _, head, data) => {
            client_slot.process_value(&head, data).unwrap();
        }
        _ => panic!("Wrong message kind."),
    }
    assert_eq!(*client_slot.get(), 3);
}

#[test]
fn graph_built_and_extended_from_buffers() {
    // a two-row buffer builds a paired-axis series
    let buffer: Vec<u64> = [0.0f64, 1.0, 10.0, 20.0].iter().map(|v| v.to_bits()).collect();
    let shape = vec![2usize, 2usize];
    let mut graph = egui_pysync::graphs::buffer_to_graph::<u64>(&buffer, &shape, None).unwrap();
    assert_eq!(graph.y.len(), 2);
    assert_eq!(f64::from_bits(graph.y[0]), 10.0);
    assert_eq!(f64::from_bits(graph.x.as_ref().unwrap()[1]), 1.0);

    // appending a one-row buffer to a paired-axis series is refused
    let linear: Vec<u64> = vec![5.0f64.to_bits(), 6.0f64.to_bits()];
    let one_row = vec![2usize];
    let err = egui_pysync::graphs::buffer_to_graph_add::<u64>(
        &mut graph,
        &linear,
        &one_row,
        Some([0.0f64.to_bits(), 1.0f64.to_bits()]),
    );
    assert!(err.is_err());
    assert_eq!(graph.y.len(), 2);

    // a matching two-row buffer extends both axes
    let more: Vec<u64> = [2.0f64, 3.0, 30.0, 40.0].iter().map(|v| v.to_bits()).collect();
    egui_pysync::graphs::buffer_to_graph_add::<u64>(&mut graph, &more, &shape, None).unwrap();
    assert_eq!(graph.y.len(), 4);
    assert_eq!(f64::from_bits(graph.y[3]), 40.0);
    assert_eq!(f64::from_bits(graph.x.as_ref().unwrap()[3]), 3.0);

    // the slot op packs only the new points for the peer
    let mut graphs: egui_pysync::graphs::ValueGraphs<u64> = egui_pysync::graphs::ValueGraphs::new(11);
    graphs.set(7, graph, false, false);
    let more2: Vec<u64> = [4.0f64, 50.0].iter().map(|v| v.to_bits()).collect();
    let add = graphs
        .add_points(7, &more2, &vec![2usize, 1usize], None, false, true)
        .unwrap()
        .unwrap();
    match through_wire(add) {
        ReadMessage::Graph(_, _, head, data) => {
            match egui_pysync::graphs::GraphMessage::<u64>::read_message(&head, data).unwrap() {
                egui_pysync::graphs::GraphMessage::AddPoints(idx, gd) => {
                    assert_eq!(idx, 7);
                    assert_eq!(gd.points(), 1);
                }
                _ => panic!("Wrong message type."),
            }
        }
        _ => panic!("Wrong message kind."),
    }
    assert_eq!(graphs.len(7), Some(5));
}

#[test]
fn client_reports_session_state() {
    let mut core = ClientCore::new(1, 0);
    assert_eq!(core.state(), ConnectionState::NotConnected);
    core.connect_attempt(false);
    assert_eq!(core.state(), ConnectionState::NotConnected);
    core.connect_attempt(true);
    assert_eq!(core.state(), ConnectionState::Connected);
    core.disconnected();
    assert_eq!(core.state(), ConnectionState::Disconnected);
}

#[test]
fn graph_sync_replays_every_series_in_order() {
    let mut server_graphs: ValueGraphs<u64> = ValueGraphs::new(11);
    let first = Graph::<u64> {
        y: vec![1.0f64.to_bits(), 2.0f64.to_bits()],
        x: Some(vec![0.0f64.to_bits(), 1.0f64.to_bits()]),
    };
    let second = Graph::<u64> { y: vec![7.0f64.to_bits(), 8.0f64.to_bits()], x: None };
    server_graphs.set(3, first, false, false);
    server_graphs.set(1, second, false, false);

    // the sweep: a reset first, then one Put per stored series, in order
    let batch = server_graphs.sync();
    assert_eq!(batch.len(), 3);
    let mut client_graphs: ValueGraphs<u64> = ValueGraphs::new(11);
    client_graphs.set(9, Graph::<u64> { y: vec![0, 0], x: None }, false, false);
    for message in batch {
        match through_wire(message) {
            ReadMessage::Graph(id, _, head, data) => {
                assert_eq!(id, 11);
                client_graphs.update_graph(&head, data).unwrap();
            }
            _ => panic!("Wrong message kind."),
        }
    }

    // the stale series is gone and both synced series came over intact
    assert_eq!(client_graphs.count(), 2);
    assert!(client_graphs.get(9).is_none());
    let got = client_graphs.get(3).unwrap();
    assert_eq!(f64::from_bits(got.y[1]), 2.0);
    assert_eq!(f64::from_bits(got.x.unwrap()[1]), 1.0);
    let got = client_graphs.get(1).unwrap();
    assert!(got.x.is_none());
    assert_eq!(f64::from_bits(got.y[0]), 7.0);
}
