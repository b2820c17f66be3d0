use irro::connection::Connection;
use irro::in_air::{DesyncError, InAirQueue};
use irro::message::{submit, ConstructionError, Message, SubmitError};
use std::sync::mpsc;

fn message(command: u16, payload: Vec<u8>) -> (Message, mpsc::Receiver<Vec<u8>>) {
    Message::new(command, payload).unwrap()
}

#[test]
fn test_in_air_queue() {
    let mut queue = InAirQueue::new();
    assert_eq!(queue.size(), 0);

    let (sender, receiver_a) = mpsc::channel();
    queue.push(2, sender);
    assert_eq!(queue.size(), 2);

    let (sender, receiver_b) = mpsc::channel();
    queue.push(3, sender);
    assert_eq!(queue.size(), 5);

    let (sender, receiver_c) = mpsc::channel();
    queue.push(4, sender);
    assert_eq!(queue.size(), 9);

    queue.respond(vec![1, 2]).unwrap();
    assert_eq!(queue.size(), 7);
    let response = receiver_a.recv().unwrap();
    assert_eq!(response, vec![1, 2]);

    queue.respond(vec![3, 4]).unwrap();
    assert_eq!(queue.size(), 4);
    let response = receiver_b.recv().unwrap();
    assert_eq!(response, vec![3, 4]);

    queue.respond(vec![5, 6]).unwrap();
    assert_eq!(queue.size(), 0);
    let response = receiver_c.recv().unwrap();
    assert_eq!(response, vec![5, 6]);
}

#[test]
fn in_air_queue_respond_when_empty() {
    let mut queue = InAirQueue::new();
    assert_eq!(queue.respond(vec![1]), Err(DesyncError));
    assert_eq!(queue.size(), 0);
}

#[test]
fn in_air_queue_fifo_with_interleaving() {
    let mut queue = InAirQueue::new();
    let (sender, receiver_a) = mpsc::channel();
    queue.push(10, sender);
    let (sender, receiver_b) = mpsc::channel();
    queue.push(20, sender);
    queue.respond(vec![7]).unwrap();
    let (sender, receiver_c) = mpsc::channel();
    queue.push(30, sender);
    assert_eq!(queue.size(), 50);
    queue.respond(vec![8]).unwrap();
    assert_eq!(queue.size(), 30);
    queue.respond(vec![9]).unwrap();
    assert_eq!(queue.size(), 0);
    assert_eq!(receiver_a.recv().unwrap(), vec![7]);
    assert_eq!(receiver_b.recv().unwrap(), vec![8]);
    assert_eq!(receiver_c.recv().unwrap(), vec![9]);
}

#[test]
fn test_connection() {
    let mut connection = Connection::new();
    let (message_a, receiver_a) = message(23, vec![6, 2, 1]);
    let (message_b, receiver_b) = message(25, vec![10, 20, 30, 40]);

    let out = connection.process_messages(vec![message_a, message_b]);
    assert_eq!(&out[..7], &[0u8, 23, 0, 3, 6, 2, 1]);
    assert_eq!(&out[7..], &[0u8, 25, 0, 4, 10, 20, 30, 40]);

    connection.process_responses(&[0u8, 5, 10, 9, 8, 7, 6]).unwrap();
    connection.process_responses(&[0u8, 2, 255, 128]).unwrap();

    let recv = receiver_b.recv().unwrap();
    assert_eq!(recv, vec![255, 128]);

    let recv = receiver_a.recv().unwrap();
    assert_eq!(recv, vec![10, 9, 8, 7, 6]);
}

#[test]
fn message_size_limit() {
    let (m, _r) = message(7, vec![0; 60]);
    assert_eq!(m.len(), 64);
    let (m, _r) = message(7, vec![]);
    assert_eq!(m.len(), 4);
    let (m, _r) = message(7, vec![1, 2, 3]);
    assert_eq!(m.len(), 7);
    match Message::new(7, vec![0; 61]) {
        Err(e) => assert_eq!(e, ConstructionError { payload_len: 61 }),
        Ok(_) => panic!("a 65-byte frame was accepted"),
    }
}

#[test]
fn message_destructure() {
    let (m, receiver) = message(0x1234, vec![9, 8]);
    let (command, payload, sender) = m.destructure();
    assert_eq!(command, 0x1234);
    assert_eq!(payload, vec![9, 8]);
    sender.send(vec![1]).unwrap();
    assert_eq!(receiver.recv().unwrap(), vec![1]);
}

#[test]
fn submit_rejects_oversized_and_closed() {
    let (link, inbox) = mpsc::channel();
    match submit(&link, 1, vec![0; 61]) {
        Err(SubmitError::TooLarge(e)) => assert_eq!(e.payload_len, 61),
        _ => panic!("oversized payload was submitted"),
    }
    assert!(submit(&link, 1, vec![5]).is_ok());
    let (command, payload, _) = inbox.try_recv().unwrap().destructure();
    assert_eq!((command, payload), (1, vec![5]));
    drop(inbox);
    assert!(matches!(submit(&link, 1, vec![5]), Err(SubmitError::LinkClosed)));
}

#[test]
fn round_trip() {
    let mut connection = Connection::new();
    let (m, receiver) = message(0x0001, vec![]);
    let out = connection.process_messages(vec![m]);
    assert_eq!(out, vec![0, 1, 0, 0]);
    connection.process_responses(&[0x00, 0x01, 0x41]).unwrap();
    assert_eq!(receiver.recv().unwrap(), vec![0x41]);
    assert_eq!(connection.in_air_size(), 0);
}

#[test]
fn backpressure_defers_until_room() {
    let mut connection = Connection::new();
    let (a, receiver_a) = message(1, vec![0; 6]);
    let (b, _receiver_b) = message(2, vec![0; 46]);
    let out = connection.process_messages(vec![a, b]);
    assert_eq!(out.len(), 60);
    assert_eq!(connection.in_air_size(), 60);

    let (c, _receiver_c) = message(3, vec![1; 10]);
    let out = connection.process_messages(vec![c]);
    assert!(out.is_empty());
    assert_eq!(connection.waiting_count(), 1);

    // A small message submitted later waits behind the deferred one.
    let (d, _receiver_d) = message(4, vec![2, 2]);
    let out = connection.process_messages(vec![d]);
    assert!(out.is_empty());
    assert_eq!(connection.waiting_count(), 2);

    connection.process_responses(&[0, 0]).unwrap();
    assert_eq!(receiver_a.recv().unwrap(), Vec::<u8>::new());
    assert_eq!(connection.in_air_size(), 50);

    let out = connection.process_messages(vec![]);
    let mut expected = vec![0u8, 3, 0, 10];
    expected.extend_from_slice(&[1; 10]);
    assert_eq!(out, expected);
    assert_eq!(connection.in_air_size(), 64);
    assert_eq!(connection.waiting_count(), 1);

    connection.process_responses(&[0, 0]).unwrap();
    assert_eq!(connection.in_air_size(), 14);
    let out = connection.process_messages(vec![]);
    assert_eq!(out, vec![0, 4, 0, 2, 2, 2]);
    assert_eq!(connection.in_air_size(), 20);
    assert_eq!(connection.waiting_count(), 0);
}

#[test]
fn small_message_sent_immediately_when_room() {
    let mut connection = Connection::new();
    let (m, _receiver) = message(9, vec![1, 2]);
    let out = connection.process_messages(vec![m]);
    assert_eq!(out, vec![0, 9, 0, 2, 1, 2]);
    assert_eq!(connection.in_air_size(), 6);
}

#[test]
fn full_buffer_message_fits_empty_link() {
    let mut connection = Connection::new();
    let (m, _receiver) = message(0x0102, vec![3; 60]);
    let out = connection.process_messages(vec![m]);
    assert_eq!(out.len(), 64);
    assert_eq!(&out[..4], &[1, 2, 0, 60]);
    assert_eq!(connection.in_air_size(), 64);
}

#[test]
fn desync_is_reported() {
    let mut connection = Connection::new();
    assert_eq!(connection.process_responses(&[0x00, 0x01, 0x41]), Err(DesyncError));
}

#[test]
fn desync_after_last_expected_response() {
    let mut connection = Connection::new();
    let (m, receiver) = message(1, vec![]);
    connection.process_messages(vec![m]);
    let result = connection.process_responses(&[0, 1, 7, 0, 1, 8]);
    assert_eq!(result, Err(DesyncError));
    assert_eq!(receiver.recv().unwrap(), vec![7]);
}

#[test]
fn dropped_receiver_is_silent() {
    let mut connection = Connection::new();
    let (m, receiver) = message(0x0001, vec![]);
    drop(receiver);
    connection.process_messages(vec![m]);
    assert_eq!(connection.process_responses(&[0x00, 0x01, 0x41]), Ok(()));
    assert_eq!(connection.in_air_size(), 0);
}

#[test]
fn truncated_frame_waits_for_rest() {
    let mut connection = Connection::new();
    let (m, receiver) = message(1, vec![]);
    connection.process_messages(vec![m]);
    connection.process_responses(&[0x00]).unwrap();
    assert!(receiver.try_recv().is_err());
    connection.process_responses(&[0x03, 1, 2]).unwrap();
    assert!(receiver.try_recv().is_err());
    assert_eq!(connection.in_air_size(), 4);
    connection.process_responses(&[3]).unwrap();
    assert_eq!(receiver.recv().unwrap(), vec![1, 2, 3]);
    assert_eq!(connection.in_air_size(), 0);
}

#[test]
fn empty_read_changes_nothing() {
    let mut connection = Connection::new();
    let (m, _receiver) = message(1, vec![5]);
    connection.process_messages(vec![m]);
    connection.process_responses(&[]).unwrap();
    assert_eq!(connection.in_air_size(), 5);
}
