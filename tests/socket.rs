use vsock_socket::packet::{Packet, VSockOp, FLAGS_ALL, MAX_PAYLOAD_SIZE};
use vsock_socket::socket::{
    Handshake, PendingConnect, Socket, SocketConnector, SocketError, SocketListener, STREAM_BUFFER_LENGTH,
};
use vsock_socket::transport::VSock;

const GUEST_PORT: u32 = 5;
const HOST_PORT: u32 = 1234;

fn packet_from_host(op: VSockOp, buf_alloc: u32, fwd_cnt: u32) -> Packet {
    let mut p = Packet::new_control(HOST_PORT, GUEST_PORT, op);
    p.set_buf_alloc(buf_alloc);
    p.set_fwd_cnt(fwd_cnt);
    p
}

fn data_from_host(data: &[u8]) -> Packet {
    data_with_credit(data, STREAM_BUFFER_LENGTH, 0)
}

fn data_with_credit(data: &[u8], buf_alloc: u32, fwd_cnt: u32) -> Packet {
    let mut p = Packet::new_data(data, HOST_PORT, GUEST_PORT).unwrap();
    p.set_buf_alloc(buf_alloc);
    p.set_fwd_cnt(fwd_cnt);
    p
}

fn connected(h: Handshake<PendingConnect>) -> Socket {
    match h {
        Handshake::Connected(s) => s,
        _ => panic!("handshake did not complete"),
    }
}

fn accepted(h: Handshake<SocketListener>) -> Socket {
    match h {
        Handshake::Connected(s) => s,
        _ => panic!("handshake did not complete"),
    }
}

/// A guest socket connected to the host port, with the handshake packets already taken.
fn connected_socket() -> Socket {
    let mut pending = SocketConnector::new(VSock::new(), HOST_PORT, GUEST_PORT).connect();
    pending.take_sent();
    pending.deliver(packet_from_host(VSockOp::Response, STREAM_BUFFER_LENGTH, 0));
    connected(pending.finish())
}

/// A connected socket that has learnt of the host's buffer of `buf_alloc` bytes.
fn socket_with_credit(buf_alloc: u32) -> Socket {
    let mut socket = connected_socket();
    socket.deliver(packet_from_host(VSockOp::CreditUpdate, buf_alloc, 0));
    socket.deliver(data_with_credit(&[9], buf_alloc, 0));
    let mut one = [0u8; 1];
    socket.read_exact(&mut one).unwrap();
    assert_eq!(one, [9]);
    socket.take_sent();
    socket
}

#[test]
fn handshake_between_connector_and_listener() {
    // The connector sends its request first.
    let mut pending = SocketConnector::new(VSock::new(), HOST_PORT, GUEST_PORT).connect();
    let requests = pending.take_sent();
    assert_eq!(requests.len(), 1);
    assert_eq!(requests[0].get_op(), VSockOp::Request);
    assert_eq!(requests[0].get_src_port(), GUEST_PORT);
    assert_eq!(requests[0].get_dst_port(), HOST_PORT);
    assert_eq!(requests[0].get_buf_alloc(), u32::MAX);
    assert_eq!(requests[0].get_fwd_cnt(), 0);
    // No reply yet: the connector keeps waiting.
    let mut pending = match pending.finish() {
        Handshake::Waiting(p) => p,
        _ => panic!("expected to wait for the reply"),
    };

    // The listener takes the request and replies.
    let mut listener = SocketListener::new(VSock::new(), HOST_PORT);
    for p in requests {
        listener.deliver(p);
    }
    let mut listener_socket = accepted(listener.accept());
    assert!(listener_socket.is_connected());
    assert_eq!(listener_socket.host_port(), GUEST_PORT);
    let replies = listener_socket.take_sent();
    assert_eq!(replies.len(), 1);
    let reply = &replies[0];
    assert_eq!(reply.get_op(), VSockOp::Response);
    assert_eq!(reply.get_src_port(), HOST_PORT);
    assert_eq!(reply.get_dst_port(), GUEST_PORT);
    assert_eq!(reply.get_buf_alloc(), u32::MAX);
    assert_eq!(reply.get_fwd_cnt(), 0);

    // The reply completes the connector's handshake.
    for p in replies {
        pending.deliver(p);
    }
    let mut connector_socket = connected(pending.finish());
    assert!(connector_socket.is_connected());
    assert_eq!(connector_socket.host_port(), HOST_PORT);
    assert_eq!(connector_socket.local_port(), GUEST_PORT);
    assert!(connector_socket.take_sent().is_empty());
}

#[test]
fn connect_fails_on_unexpected_op() {
    let mut pending = SocketConnector::new(VSock::new(), HOST_PORT, GUEST_PORT).connect();
    pending.deliver(packet_from_host(VSockOp::Rst, 0, 0));
    assert!(matches!(pending.finish(), Handshake::Refused(SocketError::UnexpectedOp(VSockOp::Rst))));
}

#[test]
fn connect_ignores_packets_for_other_ports() {
    let mut pending = SocketConnector::new(VSock::new(), HOST_PORT, GUEST_PORT).connect();
    pending.deliver(Packet::new_control(HOST_PORT + 1, GUEST_PORT, VSockOp::Rst));
    pending.deliver(Packet::new_control(HOST_PORT, GUEST_PORT + 1, VSockOp::Rst));
    pending.deliver(packet_from_host(VSockOp::Response, 0, 0));
    assert!(matches!(pending.finish(), Handshake::Connected(_)));
}

#[test]
fn connect_without_reply_keeps_waiting() {
    let mut pending = SocketConnector::new(VSock::new(), HOST_PORT, GUEST_PORT).connect();
    pending.deliver(Packet::new_control(HOST_PORT + 1, GUEST_PORT, VSockOp::Response));
    let pending = match pending.finish() {
        Handshake::Waiting(p) => p,
        _ => panic!("expected to wait"),
    };
    let mut pending = pending;
    assert_eq!(pending.take_sent().len(), 1);
}

#[test]
fn accept_without_request_keeps_waiting() {
    let listener = SocketListener::new(VSock::new(), HOST_PORT);
    let mut listener = match listener.accept() {
        Handshake::Waiting(l) => l,
        _ => panic!("expected to wait"),
    };
    let mut request = Packet::new_control(GUEST_PORT, HOST_PORT, VSockOp::Request);
    request.set_buf_alloc(STREAM_BUFFER_LENGTH);
    listener.deliver(request);
    let socket = accepted(listener.accept());
    assert_eq!(socket.host_port(), GUEST_PORT);
}

#[test]
fn accept_fails_on_unexpected_op() {
    let mut listener = SocketListener::new(VSock::new(), HOST_PORT);
    listener.deliver(Packet::new_control(GUEST_PORT, HOST_PORT, VSockOp::Rw));
    assert!(matches!(listener.accept(), Handshake::Refused(SocketError::UnexpectedOp(VSockOp::Rw))));
}

#[test]
fn rst_ends_the_stream_and_disconnects() {
    let mut socket = connected_socket();
    socket.deliver(packet_from_host(VSockOp::Rst, 0, 0));
    let mut buf = [0u8; 4];
    assert_eq!(socket.read_exact(&mut buf), Err(SocketError::EndOfStream));
    assert!(!socket.is_connected());
    assert_eq!(socket.read_exact(&mut buf), Err(SocketError::Disconnected));
    assert_eq!(socket.write_all(&[1, 2, 3]), Err(SocketError::Disconnected));
    assert!(socket.take_sent().is_empty());
    // A disconnected socket sends nothing on shutdown.
    let mut vsock = socket.shutdown();
    assert!(vsock.take_sent().is_empty());
}

#[test]
fn shutdown_from_peer_is_answered_with_rst() {
    let mut socket = connected_socket();
    socket.deliver(packet_from_host(VSockOp::Shutdown, 0, 0));
    let mut buf = [0u8; 1];
    assert_eq!(socket.read_exact(&mut buf), Err(SocketError::EndOfStream));
    assert!(!socket.is_connected());
    let sent = socket.take_sent();
    assert_eq!(sent.len(), 1);
    assert_eq!(sent[0].get_op(), VSockOp::Rst);
    assert_eq!(sent[0].get_src_port(), GUEST_PORT);
    assert_eq!(sent[0].get_dst_port(), HOST_PORT);
}

#[test]
fn write_of_one_more_than_a_packet_is_split_in_two() {
    let mut socket = socket_with_credit(u32::MAX);
    let data: Vec<u8> = (0..MAX_PAYLOAD_SIZE + 1).map(|i| (i % 251) as u8).collect();
    socket.write_all(&data).unwrap();
    let sent = socket.take_sent();
    assert_eq!(sent.len(), 2);
    assert_eq!(sent[0].get_payload().len(), MAX_PAYLOAD_SIZE);
    assert_eq!(sent[1].get_payload().len(), 1);
    assert_eq!(sent[0].get_op(), VSockOp::Rw);
    assert_eq!(sent[1].get_payload(), &data[MAX_PAYLOAD_SIZE..]);
    assert_eq!(socket.sent_bytes(), (MAX_PAYLOAD_SIZE + 1) as u32);
}

#[test]
fn every_packet_carries_credit_info() {
    let mut socket = socket_with_credit(u32::MAX);
    socket.write_all(&[1, 2]).unwrap();
    let sent = socket.take_sent();
    assert_eq!(sent[0].get_buf_alloc(), STREAM_BUFFER_LENGTH);
    assert_eq!(sent[0].get_fwd_cnt(), 1);
}

#[test]
fn write_then_read_on_the_peer_round_trips() {
    // Guest writes, host reads.
    let mut writer = socket_with_credit(u32::MAX);
    let data: Vec<u8> = (0..2 * MAX_PAYLOAD_SIZE + 7).map(|i| (i * 7 % 256) as u8).collect();
    writer.write_all(&data).unwrap();

    let mut request = Packet::new_control(GUEST_PORT, HOST_PORT, VSockOp::Request);
    request.set_buf_alloc(STREAM_BUFFER_LENGTH);
    let mut listener = SocketListener::new(VSock::new(), HOST_PORT);
    listener.deliver(request);
    let mut reader = accepted(listener.accept());
    reader.take_sent();
    let sent = writer.take_sent();
    assert_eq!(sent.len(), 3);
    for p in sent {
        reader.deliver(p);
    }
    let mut out = vec![0u8; data.len()];
    reader.read_exact(&mut out).unwrap();
    assert_eq!(out, data);
    assert_eq!(reader.processed_bytes(), data.len() as u32);
}

#[test]
fn round_trip_ignores_traffic_for_other_connections() {
    let mut writer = socket_with_credit(u32::MAX);
    let data: Vec<u8> = (0..MAX_PAYLOAD_SIZE + 10).map(|i| (i % 13) as u8).collect();
    writer.write_all(&data).unwrap();
    let sent = writer.take_sent();
    assert_eq!(sent.len(), 2);

    let mut request = Packet::new_control(GUEST_PORT, HOST_PORT, VSockOp::Request);
    request.set_buf_alloc(STREAM_BUFFER_LENGTH);
    let mut listener = SocketListener::new(VSock::new(), HOST_PORT);
    listener.deliver(request);
    let mut reader = accepted(listener.accept());
    for p in sent {
        // A packet for another connection arrives before each one of ours.
        reader.deliver(Packet::new_control(GUEST_PORT + 1, HOST_PORT, VSockOp::Rst));
        reader.deliver(p);
    }
    let mut first = vec![0u8; 100];
    let mut second = vec![0u8; data.len() - 100];
    reader.read_exact(&mut first).unwrap();
    reader.read_exact(&mut second).unwrap();
    first.extend_from_slice(&second);
    assert_eq!(first, data);
    assert!(reader.is_connected());
}

#[test]
fn reads_split_across_packet_boundaries_keep_order() {
    let mut socket = connected_socket();
    socket.deliver(data_from_host(&[1, 2, 3, 4, 5]));
    socket.deliver(data_from_host(&[6, 7]));
    socket.deliver(data_from_host(&[8, 9, 10]));
    let mut a = [0u8; 2];
    let mut b = [0u8; 6];
    let mut c = [0u8; 2];
    socket.read_exact(&mut a).unwrap();
    socket.read_exact(&mut b).unwrap();
    socket.read_exact(&mut c).unwrap();
    assert_eq!(a, [1, 2]);
    assert_eq!(b, [3, 4, 5, 6, 7, 8]);
    assert_eq!(c, [9, 10]);
    assert_eq!(socket.processed_bytes(), 10);
}

#[test]
fn empty_data_packet_adds_no_bytes() {
    let mut socket = connected_socket();
    socket.deliver(data_from_host(&[]));
    socket.deliver(data_from_host(&[42]));
    let mut a = [0u8; 1];
    socket.read_exact(&mut a).unwrap();
    assert_eq!(a, [42]);
}

#[test]
fn read_without_data_reports_no_packet() {
    let mut socket = connected_socket();
    let mut a = [0u8; 1];
    assert_eq!(socket.read_exact(&mut a), Err(SocketError::NoPacket));
    assert!(socket.is_connected());
}

#[test]
fn bytes_of_a_failed_read_are_kept_for_the_next() {
    let mut socket = connected_socket();
    socket.deliver(data_from_host(&[1, 2]));
    let mut buf = [0u8; 4];
    assert_eq!(socket.read_exact(&mut buf), Err(SocketError::NoPacket));
    assert_eq!(socket.processed_bytes(), 0);
    socket.deliver(data_from_host(&[3, 4, 5]));
    socket.read_exact(&mut buf).unwrap();
    assert_eq!(buf, [1, 2, 3, 4]);
    assert_eq!(socket.processed_bytes(), 4);
    let mut last = [0u8; 1];
    socket.read_exact(&mut last).unwrap();
    assert_eq!(last, [5]);
}

#[test]
fn handshake_op_on_established_stream_is_a_protocol_violation() {
    let mut socket = connected_socket();
    socket.deliver(packet_from_host(VSockOp::Request, 0, 0));
    let mut a = [0u8; 1];
    assert_eq!(socket.read_exact(&mut a), Err(SocketError::ProtocolViolation(VSockOp::Request)));
    assert!(!socket.is_connected());
}

#[test]
fn credit_request_is_answered_with_credit_update() {
    let mut socket = connected_socket();
    socket.deliver(packet_from_host(VSockOp::CreditRequest, 100, 3));
    socket.deliver(data_from_host(&[1]));
    let mut a = [0u8; 1];
    socket.read_exact(&mut a).unwrap();
    let sent = socket.take_sent();
    // Only the answer: one byte read leaves the peer's view of our space far from the limit.
    assert_eq!(sent.len(), 1);
    assert_eq!(sent[0].get_op(), VSockOp::CreditUpdate);
    assert_eq!(sent[0].get_buf_alloc(), u32::MAX);
    assert_eq!(sent[0].get_fwd_cnt(), 0);
    assert_eq!(socket.peer_processed_bytes(), 0);
    assert_eq!(socket.peer_buffer_size(), STREAM_BUFFER_LENGTH);
}

#[test]
fn credit_fields_refresh_from_every_packet() {
    let mut socket = connected_socket();
    socket.deliver(packet_from_host(VSockOp::CreditUpdate, 100, 3));
    socket.deliver(data_with_credit(&[5], 200, 7));
    let mut a = [0u8; 1];
    socket.read_exact(&mut a).unwrap();
    assert_eq!(socket.peer_buffer_size(), 200);
    assert_eq!(socket.peer_processed_bytes(), 7);
}

#[test]
fn write_is_refused_when_the_peer_buffer_is_full() {
    let mut socket = connected_socket();
    // Nothing advertised yet: the peer's buffer counts as empty of room.
    assert_eq!(socket.write_all(&[1]), Err(SocketError::PeerBufferFull));
    let mut socket = socket_with_credit(10);
    assert_eq!(socket.write_all(&[0u8; 11]), Err(SocketError::PeerBufferFull));
    assert_eq!(socket.sent_bytes(), 0);
    assert!(socket.take_sent().is_empty());
    socket.write_all(&[0u8; 10]).unwrap();
    assert_eq!(socket.sent_bytes(), 10);
    assert_eq!(socket.write_all(&[0u8; 1]), Err(SocketError::PeerBufferFull));
}

#[test]
fn free_space_uses_wrapping_arithmetic() {
    let mut socket = connected_socket();
    // The peer has processed more than we have sent, modulo 2^32.
    socket.deliver(data_with_credit(&[0], 4, u32::MAX));
    let mut a = [0u8; 1];
    socket.read_exact(&mut a).unwrap();
    // free = 4 - (0 - MAX) = 4 - 1 = 3
    assert_eq!(socket.write_all(&[0u8; 4]), Err(SocketError::PeerBufferFull));
    socket.write_all(&[0u8; 3]).unwrap();
}

#[test]
fn write_of_nothing_sends_nothing() {
    let mut socket = connected_socket();
    socket.write_all(&[]).unwrap();
    assert!(socket.take_sent().is_empty());
    assert_eq!(socket.flush(), Ok(()));
}

#[test]
fn shutdown_sends_shutdown_with_all_flags() {
    let mut socket = connected_socket();
    socket.deliver(data_from_host(&[1, 2, 3]));
    let mut buf = [0u8; 3];
    socket.read_exact(&mut buf).unwrap();
    let mut vsock = socket.shutdown();
    let sent = vsock.take_sent();
    assert_eq!(sent.len(), 1);
    assert_eq!(sent[0].get_op(), VSockOp::Shutdown);
    assert_eq!(sent[0].get_flags(), FLAGS_ALL);
    assert_eq!(sent[0].get_buf_alloc(), STREAM_BUFFER_LENGTH);
    assert_eq!(sent[0].get_fwd_cnt(), 3);
    assert_eq!(sent[0].get_src_port(), GUEST_PORT);
    assert_eq!(sent[0].get_dst_port(), HOST_PORT);
}

#[test]
fn oversized_data_packet_is_refused_by_the_codec() {
    let data = vec![0u8; MAX_PAYLOAD_SIZE + 1];
    assert!(Packet::new_data(&data, 1, 2).is_err());
    assert!(Packet::new_data(&data[..MAX_PAYLOAD_SIZE], 1, 2).is_ok());
}

#[test]
fn op_codes_round_trip() {
    for op in [
        VSockOp::Request,
        VSockOp::Response,
        VSockOp::Rst,
        VSockOp::Shutdown,
        VSockOp::Rw,
        VSockOp::CreditUpdate,
        VSockOp::CreditRequest,
    ] {
        assert_eq!(VSockOp::from_code(op.code()), Some(op));
    }
    assert_eq!(VSockOp::Request.code(), 1);
    assert_eq!(VSockOp::CreditRequest.code(), 7);
    assert_eq!(VSockOp::from_code(0), None);
    assert_eq!(VSockOp::from_code(8), None);
}
