use vstd::prelude::*;
use crate::packet::{
    Packet, PacketError, PacketView, VSockOp, control_view, data_view, DATA_BUFFER_SIZE,
    FLAGS_ALL, MAX_PAYLOAD_SIZE, QUEUE_SIZE,
};
use crate::transport::{PacketFilter, TransportView, VSock, first_match};
use std::collections::VecDeque;

verus! {

/// The receive-buffer size this side advertises: the largest representable value, since the
/// socket has no fixed limit and should not send more credit updates than needed.
pub const STREAM_BUFFER_LENGTH: u32 = 0xffff_ffff;

/// When the peer's view of our free buffer space falls below this many bytes, the read path
/// sends an unsolicited credit update so that the peer does not stall.
pub const CREDIT_UPDATE_LIMIT: usize = DATA_BUFFER_SIZE * QUEUE_SIZE;

/// Addition modulo 2^32.
pub open spec fn add32(a: u32, b: u32) -> u32 {
    vstd::wrapping::u32_specs::wrapping_add(a, b)
}

/// Subtraction modulo 2^32.
pub open spec fn sub32(a: u32, b: u32) -> u32 {
    vstd::wrapping::u32_specs::wrapping_sub(a, b)
}

/// Errors returned by the socket operations.
#[derive(Clone, Copy, Debug, PartialEq, Eq, Structural)]
pub enum SocketError {
    /// The handshake received a packet whose operation is not the expected one.
    UnexpectedOp(VSockOp),
    /// The transport holds no packet that the operation waits for.
    NoPacket,
    /// The peer's advertised stream buffer has no room for the next chunk.
    PeerBufferFull,
    /// The packet codec refused a payload as too large for a single packet.
    PayloadTooLarge,
    /// The peer reset or shut down the connection: no more data will come.
    EndOfStream,
    /// A data operation was attempted on a disconnected socket (a programmer error).
    Disconnected,
    /// A handshake-only operation arrived on an established connection (a fatal protocol
    /// violation by the peer); the socket is disconnected.
    ProtocolViolation(VSockOp),
}

/// The transport handle and the two ports of a connection.
pub struct SocketConfiguration {
    vsock: VSock,
    local_port: u32,
    host_port: u32,
}

/// What a configuration holds.
pub struct ConfigView {
    pub transport: TransportView,
    pub local_port: u32,
    pub host_port: u32,
}

impl View for SocketConfiguration {
    type V = ConfigView;

    closed spec fn view(&self) -> ConfigView {
        ConfigView { transport: self.vsock@, local_port: self.local_port, host_port: self.host_port }
    }
}

impl SocketConfiguration {
    pub fn new(vsock: VSock, local_port: u32, host_port: u32) -> (r: SocketConfiguration)
        ensures
            r@ == (ConfigView { transport: vsock@, local_port, host_port }),
    {
        SocketConfiguration { vsock, local_port, host_port }
    }
}

/// What a socket holds: connection state, flow-control counters, unread bytes of the current
/// data packet, and the transport's queues.
pub struct SocketView {
    pub connected: bool,
    pub local_port: u32,
    pub host_port: u32,
    pub processed_bytes: u32,
    pub previous_processed_bytes: u32,
    pub sent_bytes: u32,
    pub peer_processed_bytes: u32,
    pub peer_buffer_size: u32,
    pub pending: Seq<u8>,
    pub transport: TransportView,
}

/// A freshly connected socket over the given configuration.
pub open spec fn initial_socket(c: ConfigView) -> SocketView {
    SocketView {
        connected: true,
        local_port: c.local_port,
        host_port: c.host_port,
        processed_bytes: 0,
        previous_processed_bytes: 0,
        sent_bytes: 0,
        peer_processed_bytes: 0,
        peer_buffer_size: 0,
        pending: Seq::empty(),
        transport: c.transport,
    }
}

/// A packet stamped with this side's flow-control fields.
pub open spec fn stamped(p: PacketView, processed: u32) -> PacketView {
    PacketView { buf_alloc: STREAM_BUFFER_LENGTH, fwd_cnt: processed, ..p }
}

/// The transport after sending a packet.
pub open spec fn sent_on(t: TransportView, p: PacketView) -> TransportView {
    TransportView { tx: t.tx.push(p), ..t }
}

/// The socket after stamping and sending a packet: the advertised count is remembered.
pub open spec fn after_send(s: SocketView, p: PacketView) -> SocketView {
    SocketView {
        previous_processed_bytes: s.processed_bytes,
        transport: sent_on(s.transport, stamped(p, s.processed_bytes)),
        ..s
    }
}

/// The socket after sending a control packet with the given operation.
pub open spec fn send_control(s: SocketView, op: VSockOp) -> SocketView {
    after_send(s, control_view(s.local_port, s.host_port, op))
}

/// The handshake packet: a control packet advertising the full buffer and nothing processed.
pub open spec fn handshake_packet(src_port: u32, dst_port: u32, op: VSockOp) -> PacketView {
    stamped(control_view(src_port, dst_port, op), 0)
}

/// The filter for packets of an established connection.
pub open spec fn stream_filter(local_port: u32, host_port: u32) -> PacketFilter {
    PacketFilter { dst_port: local_port, src_port: Some(host_port) }
}

/// The configuration of a connector once its connection request is sent.
pub open spec fn request_sent(c: ConfigView) -> ConfigView {
    ConfigView {
        transport: sent_on(c.transport, handshake_packet(c.local_port, c.host_port, VSockOp::Request)),
        ..c
    }
}

/// The outcome of taking the reply to a sent connection request: the first packet from the
/// host's port to ours; `NoPacket` when none has arrived yet.
pub open spec fn finish_spec(c: ConfigView) -> Result<SocketView, SocketError> {
    let t = c.transport;
    let i = first_match(t.rx, stream_filter(c.local_port, c.host_port));
    if i >= t.rx.len() {
        Err(SocketError::NoPacket)
    } else if t.rx[i].op == VSockOp::Response {
        Ok(initial_socket(ConfigView { transport: TransportView { rx: t.rx.remove(i), ..t }, ..c }))
    } else {
        Err(SocketError::UnexpectedOp(t.rx[i].op))
    }
}

/// What a listener holds: the transport and the port it listens on. The peer's port is not
/// known before a request arrives, so a listener has none.
pub struct ListenerView {
    pub transport: TransportView,
    pub local_port: u32,
}

/// The outcome of `accept`: the first packet addressed to the listening port; `NoPacket` when
/// none has arrived yet.
pub open spec fn accept_spec(l: ListenerView) -> Result<SocketView, SocketError> {
    let rx = l.transport.rx;
    let i = first_match(rx, PacketFilter { dst_port: l.local_port, src_port: None });
    if i >= rx.len() {
        Err(SocketError::NoPacket)
    } else if rx[i].op == VSockOp::Request {
        let host = rx[i].src_port;
        let t = TransportView { rx: rx.remove(i), ..l.transport };
        Ok(initial_socket(ConfigView {
            transport: sent_on(t, handshake_packet(l.local_port, host, VSockOp::Response)),
            local_port: l.local_port,
            host_port: host,
        }))
    } else {
        Err(SocketError::UnexpectedOp(rx[i].op))
    }
}

/// The peer's free buffer space as this side computes it, modulo 2^32.
pub open spec fn peer_free_space(s: SocketView) -> u32 {
    sub32(s.peer_buffer_size, sub32(s.sent_bytes, s.peer_processed_bytes))
}

/// The outcome of sending one chunk, of at most `MAX_PAYLOAD_SIZE` bytes, as a data packet.
pub open spec fn send_data_spec(s: SocketView, chunk: Seq<u8>) -> (SocketView, Result<(), SocketError>) {
    if chunk.len() > peer_free_space(s) {
        (s, Err(SocketError::PeerBufferFull))
    } else {
        let s1 = SocketView { sent_bytes: add32(s.sent_bytes, chunk.len() as u32), ..s };
        (after_send(s1, data_view(chunk, s.local_port, s.host_port)), Ok(()))
    }
}

/// The length of the next chunk of a write of `len` bytes.
pub open spec fn chunk_len(len: nat) -> nat {
    if len < MAX_PAYLOAD_SIZE {
        len
    } else {
        MAX_PAYLOAD_SIZE as nat
    }
}

/// The outcome of sending `data` in chunks of at most `MAX_PAYLOAD_SIZE` bytes, stopping at the
/// first chunk that is refused.
pub open spec fn write_loop(s: SocketView, data: Seq<u8>) -> (SocketView, Result<(), SocketError>)
    decreases data.len(),
{
    if data.len() == 0 {
        (s, Ok(()))
    } else {
        let k = chunk_len(data.len()) as int;
        let (s1, r) = send_data_spec(s, data.take(k));
        match r {
            Err(e) => (s1, Err(e)),
            Ok(_) => write_loop(s1, data.skip(k)),
        }
    }
}

/// Whether an unsolicited credit update is due.
pub open spec fn must_send_credit_update_spec(s: SocketView) -> bool {
    sub32(STREAM_BUFFER_LENGTH, sub32(s.processed_bytes, s.previous_processed_bytes)) < CREDIT_UPDATE_LIMIT
}

/// The socket after taking packet `i` off the receive queue and refreshing the peer's credit
/// information from its header.
pub open spec fn take_packet(s: SocketView, i: int) -> SocketView {
    let p = s.transport.rx[i];
    SocketView {
        peer_buffer_size: p.buf_alloc,
        peer_processed_bytes: p.fwd_cnt,
        transport: TransportView { rx: s.transport.rx.remove(i), ..s.transport },
        ..s
    }
}

/// The outcome of waiting for the next data on the connection: control packets are handled on
/// the way (a credit request is answered, a credit update only refreshes the peer's credit),
/// a reset or shutdown ends the stream, and a data packet delivers its payload.
pub open spec fn recv_data(s: SocketView) -> (SocketView, Result<Seq<u8>, SocketError>)
    decreases s.transport.rx.len(),
{
    let i = first_match(s.transport.rx, stream_filter(s.local_port, s.host_port));
    if i < 0 || i >= s.transport.rx.len() {
        (s, Err(SocketError::NoPacket))
    } else {
        let p = s.transport.rx[i];
        let s1 = take_packet(s, i);
        match p.op {
            VSockOp::CreditRequest => recv_data(send_control(s1, VSockOp::CreditUpdate)),
            VSockOp::CreditUpdate => recv_data(s1),
            VSockOp::Request | VSockOp::Response => (
                SocketView { connected: false, ..s1 },
                Err(SocketError::ProtocolViolation(p.op)),
            ),
            VSockOp::Rst => (SocketView { connected: false, ..s1 }, Err(SocketError::EndOfStream)),
            VSockOp::Shutdown => (
                SocketView { connected: false, ..send_control(s1, VSockOp::Rst) },
                Err(SocketError::EndOfStream),
            ),
            VSockOp::Rw => (s1, Ok(p.payload)),
        }
    }
}

/// The smaller of two lengths.
pub open spec fn min_len(a: nat, b: nat) -> nat {
    if a < b {
        a
    } else {
        b
    }
}

/// The outcome of one partial read of at most `want` bytes: from the pending bytes if there are
/// any, else from the next data packet; what is left over becomes pending.
pub open spec fn read_partial_spec(s: SocketView, want: nat) -> (SocketView, Result<Seq<u8>, SocketError>) {
    let (s1, r) = if s.pending.len() > 0 {
        (SocketView { pending: Seq::empty(), ..s }, Ok(s.pending))
    } else {
        recv_data(s)
    };
    match r {
        Err(e) => (s1, Err(e)),
        Ok(b) => {
            let k = min_len(want, b.len()) as int;
            (SocketView { pending: b.skip(k), ..s1 }, Ok(b.take(k)))
        },
    }
}

/// The outcome of partial reads until `want` bytes are read or one of them fails: the state,
/// the bytes read, and the error that stopped the reads, if any.
pub open spec fn read_loop(s: SocketView, want: nat) -> (SocketView, Seq<u8>, Option<SocketError>)
    decreases want, s.transport.rx.len(),
    via read_loop_decreases
{
    if want == 0 {
        (s, Seq::empty(), None)
    } else {
        let (s1, r) = read_partial_spec(s, want);
        match r {
            Err(e) => (s1, Seq::empty(), Some(e)),
            Ok(b) => {
                let (s2, b2, e2) = read_loop(s1, (want - b.len()) as nat);
                (s2, b + b2, e2)
            },
        }
    }
}

#[via_fn]
proof fn read_loop_decreases(s: SocketView, want: nat) {
    if want > 0 {
        lemma_read_partial_progress(s, want);
    }
}

/// A partial read that succeeds gives at most `want` bytes, and either gives some or takes a
/// packet off the receive queue. One that fails leaves no pending bytes.
pub proof fn lemma_read_partial_progress(s: SocketView, want: nat)
    requires
        want > 0,
    ensures
        read_partial_spec(s, want).1 matches Ok(b) ==> b.len() <= want && (b.len() > 0
            || read_partial_spec(s, want).0.transport.rx.len() < s.transport.rx.len()),
        read_partial_spec(s, want).1 is Ok ==> read_partial_spec(s, want).0.connected == s.connected,
        read_partial_spec(s, want).1 is Err ==> read_partial_spec(s, want).0.pending.len() == 0,
        read_partial_spec(s, want).0.local_port == s.local_port,
        read_partial_spec(s, want).0.host_port == s.host_port,
        read_partial_spec(s, want).0.processed_bytes == s.processed_bytes,
        read_partial_spec(s, want).0.sent_bytes == s.sent_bytes,
{
    lemma_recv_data_frame(s);
}

/// Waiting for data leaves the pending bytes, the ports and the local counters as they were;
/// when data comes, the connection is as it was and a packet has left the receive queue.
pub proof fn lemma_recv_data_frame(s: SocketView)
    ensures
        recv_data(s).1 is Ok ==> recv_data(s).0.transport.rx.len() < s.transport.rx.len()
            && recv_data(s).0.connected == s.connected,
        recv_data(s).0.pending == s.pending,
        recv_data(s).0.local_port == s.local_port,
        recv_data(s).0.host_port == s.host_port,
        recv_data(s).0.processed_bytes == s.processed_bytes,
        recv_data(s).0.sent_bytes == s.sent_bytes,
    decreases s.transport.rx.len(),
{
    let i = first_match(s.transport.rx, stream_filter(s.local_port, s.host_port));
    if 0 <= i < s.transport.rx.len() {
        let s1 = take_packet(s, i);
        lemma_recv_data_frame(s1);
        lemma_recv_data_frame(send_control(s1, VSockOp::CreditUpdate));
    }
}

/// The socket after a successful read of `n` bytes: the processed count advances modulo 2^32,
/// and a credit update is sent if one is due.
pub open spec fn after_read(s: SocketView, n: nat) -> SocketView {
    let s1 = SocketView { processed_bytes: add32(s.processed_bytes, (n % 0x1_0000_0000) as u32), ..s };
    if must_send_credit_update_spec(s1) {
        send_control(s1, VSockOp::CreditUpdate)
    } else {
        s1
    }
}

/// The outcome of `read_exact` of `n` bytes. When the reads fail, the bytes read so far are put
/// back in front of the pending bytes and are not counted as processed.
pub open spec fn read_exact_spec(s: SocketView, n: nat) -> (SocketView, Result<Seq<u8>, SocketError>) {
    if !s.connected {
        (s, Err(SocketError::Disconnected))
    } else {
        let (s1, b, e) = read_loop(s, n);
        match e {
            None => (after_read(s1, n), Ok(b)),
            Some(err) => (SocketView { pending: b + s1.pending, ..s1 }, Err(err)),
        }
    }
}

/// The outcome of `write_all`.
pub open spec fn write_all_spec(s: SocketView, data: Seq<u8>) -> (SocketView, Result<(), SocketError>) {
    if !s.connected {
        (s, Err(SocketError::Disconnected))
    } else {
        write_loop(s, data)
    }
}

/// The state that `shutdown` leaves in the transport.
pub open spec fn shutdown_spec(s: SocketView) -> TransportView {
    if s.connected {
        sent_on(
            s.transport,
            stamped(
                PacketView { flags: FLAGS_ALL, ..control_view(s.local_port, s.host_port, VSockOp::Shutdown) },
                s.processed_bytes,
            ),
        )
    } else {
        s.transport
    }
}

/// The step a handshake has reached.
pub enum Handshake<P> {
    /// The handshake succeeded.
    Connected(Socket),
    /// No packet for the handshake has arrived yet: deliver more and try again.
    Waiting(P),
    /// The peer answered with an unexpected operation; the attempt is abandoned.
    Refused(SocketError),
}

/// Connector to initiate a connection to a listener on the host.
pub struct SocketConnector {
    config: SocketConfiguration,
}

impl View for SocketConnector {
    type V = ConfigView;

    closed spec fn view(&self) -> ConfigView {
        self.config@
    }
}

impl SocketConnector {
    pub fn new(vsock: VSock, host_port: u32, local_port: u32) -> (r: SocketConnector)
        ensures
            r@ == (ConfigView { transport: vsock@, local_port, host_port }),
    {
        SocketConnector { config: SocketConfiguration::new(vsock, local_port, host_port) }
    }

    /// Sends the connection request, advertising the full buffer and nothing processed. The
    /// reply is taken by `PendingConnect::finish`.
    pub fn connect(self) -> (r: PendingConnect)
        ensures
            r@ == request_sent(self@),
    {
        let mut config = self.config;
        let mut packet = Packet::new_control(config.local_port, config.host_port, VSockOp::Request);
        packet.set_buf_alloc(STREAM_BUFFER_LENGTH);
        packet.set_fwd_cnt(0);
        config.vsock.write_packet(packet);
        PendingConnect { config }
    }
}

/// A connector whose request is sent and which waits for the reply.
pub struct PendingConnect {
    config: SocketConfiguration,
}

impl View for PendingConnect {
    type V = ConfigView;

    closed spec fn view(&self) -> ConfigView {
        self.config@
    }
}

impl PendingConnect {
    /// Queues a packet that arrived from the peer.
    pub fn deliver(&mut self, packet: Packet)
        ensures
            final(self)@ == (ConfigView {
                transport: TransportView { rx: old(self)@.transport.rx.push(packet@), ..old(self)@.transport },
                ..old(self)@
            }),
    {
        self.config.vsock.deliver(packet);
    }

    /// Hands out the packets sent so far, in order of sending.
    pub fn take_sent(&mut self) -> (r: Vec<Packet>)
        ensures
            crate::transport::packet_views(r@) == old(self)@.transport.tx,
            final(self)@ == (ConfigView {
                transport: TransportView { tx: Seq::empty(), ..old(self)@.transport },
                ..old(self)@
            }),
    {
        self.config.vsock.take_sent()
    }

    /// Takes the first packet from the host's port to ours: a response makes the connection,
    /// any other operation refuses it. With no such packet yet, the connector is handed back
    /// unchanged to wait for one.
    pub fn finish(self) -> (r: Handshake<PendingConnect>)
        ensures
            r is Waiting <==> finish_spec(self@) == Err::<SocketView, SocketError>(SocketError::NoPacket),
            r matches Handshake::Waiting(p) ==> p@ == self@,
            r matches Handshake::Connected(s) ==> finish_spec(self@) == Ok::<SocketView, SocketError>(s@)
                && s.wf(),
            r matches Handshake::Refused(e) ==> finish_spec(self@) == Err::<SocketView, SocketError>(e),
    {
        let mut config = self.config;
        let filter = PacketFilter { dst_port: config.local_port, src_port: Some(config.host_port) };
        match config.vsock.read_filtered_packet(filter) {
            None => Handshake::Waiting(PendingConnect { config }),
            Some(reply) => {
                let op = reply.get_op();
                if op == VSockOp::Response {
                    Handshake::Connected(Socket::new(config))
                } else {
                    Handshake::Refused(SocketError::UnexpectedOp(op))
                }
            },
        }
    }
}

/// Listener that waits for a connection initiated from the host.
pub struct SocketListener {
    vsock: VSock,
    local_port: u32,
}

impl View for SocketListener {
    type V = ListenerView;

    closed spec fn view(&self) -> ListenerView {
        ListenerView { transport: self.vsock@, local_port: self.local_port }
    }
}

impl SocketListener {
    /// A listener on `port`.
    pub fn new(vsock: VSock, port: u32) -> (r: SocketListener)
        ensures
            r@ == (ListenerView { transport: vsock@, local_port: port }),
    {
        SocketListener { vsock, local_port: port }
    }

    /// Queues a packet that arrived from a peer.
    pub fn deliver(&mut self, packet: Packet)
        ensures
            final(self)@ == (ListenerView {
                transport: TransportView { rx: old(self)@.transport.rx.push(packet@), ..old(self)@.transport },
                ..old(self)@
            }),
    {
        self.vsock.deliver(packet);
    }

    /// Takes the first packet addressed to the listening port: a connection request binds the
    /// peer's port and is answered with a response, any other operation refuses the connection.
    /// With no such packet yet, the listener is handed back unchanged to wait for one.
    pub fn accept(self) -> (r: Handshake<SocketListener>)
        ensures
            r is Waiting <==> accept_spec(self@) == Err::<SocketView, SocketError>(SocketError::NoPacket),
            r matches Handshake::Waiting(l) ==> l@ == self@,
            r matches Handshake::Connected(s) ==> accept_spec(self@) == Ok::<SocketView, SocketError>(s@)
                && s.wf(),
            r matches Handshake::Refused(e) ==> accept_spec(self@) == Err::<SocketView, SocketError>(e),
    {
        let mut vsock = self.vsock;
        let local_port = self.local_port;
        let filter = PacketFilter { dst_port: local_port, src_port: None };
        match vsock.read_filtered_packet(filter) {
            None => Handshake::Waiting(SocketListener { vsock, local_port }),
            Some(request) => {
                let op = request.get_op();
                if op == VSockOp::Request {
                    let host_port = request.get_src_port();
                    let mut packet = Packet::new_control(local_port, host_port, VSockOp::Response);
                    packet.set_buf_alloc(STREAM_BUFFER_LENGTH);
                    packet.set_fwd_cnt(0);
                    vsock.write_packet(packet);
                    Handshake::Connected(Socket::new(SocketConfiguration::new(vsock, local_port, host_port)))
                } else {
                    Handshake::Refused(SocketError::UnexpectedOp(op))
                }
            },
        }
    }
}

/// The state of the connection.
#[derive(Clone, Copy, Debug, PartialEq, Eq, Structural)]
pub enum ConnectionState {
    Connected,
    Disconnected,
}

/// A connection-oriented socket.
pub struct Socket {
    config: SocketConfiguration,
    connection_state: ConnectionState,
    /// Free-running count of payload bytes delivered to the reader.
    processed_bytes: u32,
    /// The value of `processed_bytes` sent to the peer in the most recent packet header.
    previous_processed_bytes: u32,
    /// Free-running count of payload bytes sent.
    sent_bytes: u32,
    /// The peer's processed count, from the most recent packet header.
    peer_processed_bytes: u32,
    /// The size of the peer's stream buffer, from the most recent packet header.
    peer_buffer_size: u32,
    /// Unread bytes of the last data packet; never empty when present.
    pending_data: Option<VecDeque<u8>>,
}

impl View for Socket {
    type V = SocketView;

    closed spec fn view(&self) -> SocketView {
        SocketView {
            connected: self.connection_state == ConnectionState::Connected,
            local_port: self.config.local_port,
            host_port: self.config.host_port,
            processed_bytes: self.processed_bytes,
            previous_processed_bytes: self.previous_processed_bytes,
            sent_bytes: self.sent_bytes,
            peer_processed_bytes: self.peer_processed_bytes,
            peer_buffer_size: self.peer_buffer_size,
            pending: match self.pending_data {
                Some(v) => v@,
                None => Seq::empty(),
            },
            transport: self.config.vsock@,
        }
    }
}

impl Socket {
    /// Well-formedness: pending bytes, when present, are never empty.
    pub closed spec fn wf(&self) -> bool {
        self.pending_data matches Some(v) ==> v@.len() > 0
    }

    fn new(config: SocketConfiguration) -> (r: Socket)
        ensures
            r@ == initial_socket(config@),
            r.wf(),
    {
        let r = Socket {
            config,
            connection_state: ConnectionState::Connected,
            processed_bytes: 0,
            previous_processed_bytes: 0,
            sent_bytes: 0,
            peer_processed_bytes: 0,
            peer_buffer_size: 0,
            pending_data: None,
        };
        r
    }

    /// Whether the connection is still established.
    pub fn is_connected(&self) -> (r: bool)
        ensures
            r == self@.connected,
    {
        self.connection_state == ConnectionState::Connected
    }

    pub fn local_port(&self) -> (r: u32)
        ensures
            r == self@.local_port,
    {
        self.config.local_port
    }

    pub fn host_port(&self) -> (r: u32)
        ensures
            r == self@.host_port,
    {
        self.config.host_port
    }

    pub fn processed_bytes(&self) -> (r: u32)
        ensures
            r == self@.processed_bytes,
    {
        self.processed_bytes
    }

    pub fn sent_bytes(&self) -> (r: u32)
        ensures
            r == self@.sent_bytes,
    {
        self.sent_bytes
    }

    pub fn peer_processed_bytes(&self) -> (r: u32)
        ensures
            r == self@.peer_processed_bytes,
    {
        self.peer_processed_bytes
    }

    pub fn peer_buffer_size(&self) -> (r: u32)
        ensures
            r == self@.peer_buffer_size,
    {
        self.peer_buffer_size
    }

    /// Queues a packet that arrived from the peer on this socket's transport.
    pub fn deliver(&mut self, packet: Packet)
        requires
            old(self).wf(),
        ensures
            final(self).wf(),
            final(self)@ == (SocketView {
                transport: TransportView { rx: old(self)@.transport.rx.push(packet@), ..old(self)@.transport },
                ..old(self)@
            }),
    {
        self.config.vsock.deliver(packet);
    }

    /// Hands out the packets this socket has sent so far, in order of sending.
    pub fn take_sent(&mut self) -> (r: Vec<Packet>)
        requires
            old(self).wf(),
        ensures
            final(self).wf(),
            crate::transport::packet_views(r@) == old(self)@.transport.tx,
            final(self)@ == (SocketView {
                transport: TransportView { tx: Seq::empty(), ..old(self)@.transport },
                ..old(self)@
            }),
    {
        self.config.vsock.take_sent()
    }

    /// Shuts the connection down and releases the transport. If still connected, the peer is
    /// told with a shutdown packet, all flags set and stamped with this side's credit
    /// information, that no more data will be sent or received.
    pub fn shutdown(self) -> (r: VSock)
        ensures
            r@ == shutdown_spec(self@),
    {
        let mut config = self.config;
        if self.connection_state == ConnectionState::Connected {
            let mut packet = Packet::new_control(config.local_port, config.host_port, VSockOp::Shutdown);
            packet.set_flags(FLAGS_ALL);
            packet.set_buf_alloc(STREAM_BUFFER_LENGTH);
            packet.set_fwd_cnt(self.processed_bytes);
            config.vsock.write_packet(packet);
        }
        config.vsock
    }

    /// Whether an unsolicited credit update is due: the peer's view of our free space, computed
    /// from the advertised buffer size, has drifted below the limit.
    fn must_send_credit_update(&self) -> (r: bool)
        ensures
            r == must_send_credit_update_spec(self@),
    {
        STREAM_BUFFER_LENGTH.wrapping_sub(self.processed_bytes.wrapping_sub(self.previous_processed_bytes))
            < CREDIT_UPDATE_LIMIT as u32
    }

    /// Stamps a packet with this side's credit information and remembers what was advertised.
    fn set_credit_info(&mut self, packet: &mut Packet)
        requires
            old(self).wf(),
        ensures
            final(self).wf(),
            final(packet)@ == stamped(old(packet)@, old(self)@.processed_bytes),
            final(self)@ == (SocketView { previous_processed_bytes: old(self)@.processed_bytes, ..old(self)@ }),
    {
        packet.set_buf_alloc(STREAM_BUFFER_LENGTH);
        packet.set_fwd_cnt(self.processed_bytes);
        self.previous_processed_bytes = self.processed_bytes;
    }

    /// Sends a control packet with the given operation to the peer.
    fn send_control_packet(&mut self, op: VSockOp)
        requires
            old(self)@.connected,
            old(self).wf(),
        ensures
            final(self).wf(),
            final(self)@ == send_control(old(self)@, op),
    {
        let mut packet = Packet::new_control(self.config.local_port, self.config.host_port, op);
        self.set_credit_info(&mut packet);
        self.config.vsock.write_packet(packet);
    }

    /// Sends one chunk as a data packet, unless it is too large or the peer has no room for it.
    fn send_data_packet(&mut self, data: &[u8]) -> (r: Result<(), SocketError>)
        requires
            old(self)@.connected,
            data@.len() <= MAX_PAYLOAD_SIZE,
            old(self).wf(),
        ensures
            (final(self)@, r) == send_data_spec(old(self)@, data@),
            final(self).wf(),
    {
        let len = data.len() as u32;
        if len > self.peer_buffer_size.wrapping_sub(self.sent_bytes.wrapping_sub(self.peer_processed_bytes)) {
            return Err(SocketError::PeerBufferFull);
        }
        match Packet::new_data(data, self.config.local_port, self.config.host_port) {
            Ok(packet) => {
                let mut packet = packet;
                self.sent_bytes = self.sent_bytes.wrapping_add(len);
                self.set_credit_info(&mut packet);
                self.config.vsock.write_packet(packet);
                Ok(())
            },
            Err(PacketError::PayloadTooLarge) => Err(SocketError::PayloadTooLarge),
        }
    }

    /// Sends all of `data`, split into packets of at most `MAX_PAYLOAD_SIZE` bytes. Fails without
    /// waiting at the first chunk for which the peer's advertised buffer has no room; the chunks
    /// before it stay sent.
    pub fn write_all(&mut self, data: &[u8]) -> (r: Result<(), SocketError>)
        requires
            old(self).wf(),
        ensures
            final(self).wf(),
            (final(self)@, r) == write_all_spec(old(self)@, data@),
    {
        if self.connection_state != ConnectionState::Connected {
            return Err(SocketError::Disconnected);
        }
        let data_len = data.len();
        let mut start: usize = 0;
        assert(data@.skip(0) =~= data@);
        while start < data_len
            invariant
                start <= data_len == data@.len(),
                old(self)@.connected,
                self@.connected,
                self.wf(),
                write_loop(old(self)@, data@) == write_loop(self@, data@.skip(start as int)),
            decreases data_len - start,
        {
            let end = if data_len - start < MAX_PAYLOAD_SIZE { data_len } else { start + MAX_PAYLOAD_SIZE };
            let ghost rest = data@.skip(start as int);
            let ghost before = self@;
            let chunk = slice_range(data, start, end);
            assert(chunk@ =~= rest.take(chunk_len(rest.len()) as int));
            let r = self.send_data_packet(chunk);
            assert(rest.skip(chunk_len(rest.len()) as int) =~= data@.skip(end as int));
            assert(rest.len() > 0);
            if r.is_err() {
                assert(write_loop(before, rest) == (self@, r));
                return r;
            }
            start = end;
        }
        assert(data@.skip(start as int) =~= Seq::<u8>::empty());
        Ok(())
    }

    /// Waits for the next data on the connection, handling control packets on the way.
    fn read_data(&mut self) -> (r: Result<VecDeque<u8>, SocketError>)
        requires
            old(self)@.connected,
            old(self).wf(),
        ensures
            final(self).wf(),
            recv_data(old(self)@) == (final(self)@, match r {
                Ok(v) => Ok(v@),
                Err(e) => Err(e),
            }),
    {
        loop
            invariant
                recv_data(self@) == recv_data(old(self)@),
                self@.connected,
                self.wf(),
            decreases self@.transport.rx.len(),
        {
            let filter = PacketFilter { dst_port: self.config.local_port, src_port: Some(self.config.host_port) };
            let ghost s0 = self@;
            let packet = match self.config.vsock.read_filtered_packet(filter) {
                None => return Err(SocketError::NoPacket),
                Some(p) => p,
            };
            self.peer_buffer_size = packet.get_buf_alloc();
            self.peer_processed_bytes = packet.get_fwd_cnt();
            let ghost i = first_match(s0.transport.rx, stream_filter(s0.local_port, s0.host_port));
            assert(self@ == take_packet(s0, i));
            let op = packet.get_op();
            match op {
                VSockOp::CreditRequest => {
                    self.send_control_packet(VSockOp::CreditUpdate);
                },
                VSockOp::CreditUpdate => {},
                VSockOp::Request | VSockOp::Response => {
                    self.connection_state = ConnectionState::Disconnected;
                    return Err(SocketError::ProtocolViolation(op));
                },
                VSockOp::Rst => {
                    self.connection_state = ConnectionState::Disconnected;
                    return Err(SocketError::EndOfStream);
                },
                VSockOp::Shutdown => {
                    self.send_control_packet(VSockOp::Rst);
                    self.connection_state = ConnectionState::Disconnected;
                    return Err(SocketError::EndOfStream);
                },
                VSockOp::Rw => {
                    let data = packet.get_payload();
                    let mut result: VecDeque<u8> = VecDeque::with_capacity(data.len());
                    let mut i: usize = 0;
                    while i < data.len()
                        invariant
                            i <= data@.len(),
                            result@ == data@.take(i as int),
                        decreases data@.len() - i,
                    {
                        result.push_back(data[i]);
                        i = i + 1;
                        assert(result@ =~= data@.take(i as int));
                    }
                    assert(result@ =~= data@);
                    return Ok(result);
                },
            }
        }
    }

    /// Fills `dest` from `start` on with as much data as one source gives: the pending bytes, or
    /// else the next data packet. Bytes left over stay pending.
    fn read_partial(&mut self, dest: &mut [u8], start: usize) -> (r: Result<usize, SocketError>)
        requires
            start < old(dest)@.len(),
            old(self)@.connected,
            old(self).wf(),
        ensures
            final(self).wf(),
            final(dest)@.len() == old(dest)@.len(),
            r is Err ==> final(dest)@ == old(dest)@,
            final(dest)@.subrange(0, start as int) == old(dest)@.subrange(0, start as int),
            ({
                let (s, res) = read_partial_spec(old(self)@, (old(dest)@.len() - start) as nat);
                &&& final(self)@ == s
                &&& res matches Ok(b) ==> (r == Ok::<usize, SocketError>(b.len() as usize)
                    && final(dest)@.subrange(start as int, start + b.len()) == b
                    && final(dest)@.subrange(start + b.len(), old(dest)@.len() as int)
                        == old(dest)@.subrange(start + b.len(), old(dest)@.len() as int))
                &&& res matches Err(e) ==> r == Err::<usize, SocketError>(e)
            }),
    {
        let source = match self.pending_data.take() {
            Some(data) => data,
            None => VecDeque::new(),
        };
        assert(self.wf());
        assert(self@ == (SocketView { pending: Seq::empty(), ..old(self)@ })) by {
            assert(self@.pending =~= Seq::<u8>::empty());
        };
        let mut source = if source.len() > 0 {
            source
        } else {
            assert(self@ == old(self)@) by {
                assert(self@.pending =~= old(self)@.pending);
            };
            proof {
                lemma_recv_data_frame(old(self)@);
            }
            match self.read_data() {
                Ok(data) => data,
                Err(e) => return Err(e),
            }
        };
        let ghost s1 = self@;
        let ghost whole = source@;
        let len = dest.len();
        let mut position: usize = start;
        while position < len && source.len() > 0
            invariant
                start <= position <= len == dest@.len(),
                position - start <= whole.len(),
                source@ == whole.skip(position - start),
                dest@.subrange(0, start as int) == old(dest)@.subrange(0, start as int),
                dest@.subrange(start as int, position as int) == whole.take(position - start),
                forall|j: int| position <= j < len ==> dest@[j] == old(dest)@[j],
            decreases len - position,
        {
            let ghost before = dest@;
            if let Some(byte) = source.pop_front() {
                dest[position] = byte;
                position = position + 1;
                assert(dest@.subrange(0, start as int) =~= before.subrange(0, start as int));
                assert(dest@.subrange(start as int, position as int) =~= whole.take(position - start));
                assert(source@ =~= whole.skip(position - start));
            }
        }
        let taken = position - start;
        assert(dest@.subrange(position as int, len as int) =~= old(dest)@.subrange(position as int, len as int));
        if source.len() > 0 {
            self.pending_data = Some(source);
        }
        assert(self@ == (SocketView { pending: whole.skip(taken as int), ..s1 })) by {
            assert(self@.pending =~= whole.skip(taken as int));
        };
        Ok(taken)
    }

    /// Fills `dest` completely from the stream, then advances the processed count and sends a
    /// credit update if one is due. Fails with `Disconnected` on a disconnected socket, with
    /// `EndOfStream` when the peer resets or shuts the connection down before `dest` is full, and
    /// with `NoPacket` when the transport runs out of packets first. On failure the bytes taken
    /// from the stream so far are left at the front of `dest` and are not counted as processed.
    pub fn read_exact(&mut self, dest: &mut [u8]) -> (r: Result<(), SocketError>)
        requires
            old(self).wf(),
        ensures
            final(self).wf(),
            final(dest)@.len() == old(dest)@.len(),
            ({
                let (s, res) = read_exact_spec(old(self)@, old(dest)@.len());
                &&& final(self)@ == s
                &&& res matches Ok(b) ==> (r is Ok && final(dest)@ == b)
                &&& res matches Err(e) ==> r == Err::<(), SocketError>(e)
            }),
    {
        if self.connection_state != ConnectionState::Connected {
            return Err(SocketError::Disconnected);
        }
        let len = dest.len();
        let mut count: usize = 0;
        while count < len
            invariant
                count <= len == dest@.len() == old(dest)@.len(),
                old(self)@.connected,
                self@.connected,
                self.wf(),
                ({
                    let (s_all, b_all, e_all) = read_loop(old(self)@, len as nat);
                    let (s_rest, b_rest, e_rest) = read_loop(self@, (len - count) as nat);
                    &&& s_all == s_rest
                    &&& e_all == e_rest
                    &&& b_all == dest@.take(count as int) + b_rest
                }),
            decreases len - count, self@.transport.rx.len(),
        {
            let ghost before = self@;
            let ghost dest_before = dest@;
            let want: Ghost<nat> = Ghost((len - count) as nat);
            proof {
                lemma_read_partial_progress(before, want@);
            }
            match self.read_partial(dest, count) {
                Ok(n) => {
                    proof {
                        let b = read_partial_spec(before, want@).1->Ok_0;
                        let head = dest_before.take(count as int);
                        assert(dest@.take(count as int) =~= head);
                        assert(dest@.take(count + n) =~= head + b);
                        let b2 = read_loop(self@, (want@ - n) as nat).1;
                        assert(head + b + b2 =~= head + (b + b2));
                    }
                    count = count + n;
                },
                Err(e) => {
                    proof {
                        assert(dest@.take(count as int) + Seq::<u8>::empty() =~= dest@.take(count as int));
                    }
                    self.put_back(dest, count);
                    return Err(e);
                },
            }
        }
        assert(dest@.take(len as int) + Seq::<u8>::empty() =~= dest@);
        self.processed_bytes = self.processed_bytes.wrapping_add((count as u64 % 0x1_0000_0000u64) as u32);
        if self.must_send_credit_update() {
            self.send_control_packet(VSockOp::CreditUpdate);
        }
        Ok(())
    }

    /// Makes the first `count` bytes of `src` pending again, in front of no other pending bytes.
    fn put_back(&mut self, src: &[u8], count: usize)
        requires
            count <= src@.len(),
            old(self)@.pending.len() == 0,
            old(self).wf(),
        ensures
            final(self).wf(),
            final(self)@ == (SocketView { pending: src@.take(count as int) + old(self)@.pending, ..old(self)@ }),
    {
        let mut v: VecDeque<u8> = VecDeque::new();
        let mut i: usize = 0;
        while i < count
            invariant
                i <= count <= src@.len(),
                v@ == src@.take(i as int),
            decreases count - i,
        {
            v.push_back(src[i]);
            i = i + 1;
            assert(v@ =~= src@.take(i as int));
        }
        if count > 0 {
            self.pending_data = Some(v);
        }
        assert(self@.pending =~= src@.take(count as int) + old(self)@.pending);
    }

    /// Flushing does nothing: every write is sent in full before it returns.
    pub fn flush(&mut self) -> (r: Result<(), SocketError>)
        requires
            old(self).wf(),
        ensures
            final(self).wf(),
            r is Ok,
            final(self)@ == old(self)@,
    {
        Ok(())
    }
}

/// The bytes of `data` from `start` up to `end`.
fn slice_range(data: &[u8], start: usize, end: usize) -> (r: &[u8])
    requires
        start <= end <= data@.len(),
    ensures
        r@ == data@.subrange(start as int, end as int),
{
    let (head, _) = data.split_at(end);
    let (_, r) = head.split_at(start);
    r
}

} // verus!
