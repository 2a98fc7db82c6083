use vstd::prelude::*;
use crate::packet::{control_view, data_view, PacketView, VSockOp, MAX_PAYLOAD_SIZE};
use crate::transport::{PacketFilter, accepts, first_match};
use crate::socket::{
    SocketError, SocketView, add32, after_read, chunk_len, lemma_read_partial_progress,
    must_send_credit_update_spec, peer_free_space, read_exact_spec, read_loop,
    read_partial_spec, recv_data, send_control, send_data_spec, stamped, stream_filter,
    take_packet, write_all_spec, write_loop,
};

verus! {

/// A chunk that fits into one packet is refused exactly when it is longer than the peer's free
/// space, `peer_buffer_size - (sent_bytes - peer_processed_bytes)` modulo 2^32; a refused chunk
/// changes nothing, and a sent one advances `sent_bytes` by its length modulo 2^32.
pub proof fn lemma_chunk_refused_iff_no_room(s: SocketView, chunk: Seq<u8>)
    requires
        chunk.len() <= MAX_PAYLOAD_SIZE,
    ensures
        send_data_spec(s, chunk).1 is Err <==> chunk.len() > peer_free_space(s),
        send_data_spec(s, chunk).1 is Err ==> send_data_spec(s, chunk).0 == s
            && send_data_spec(s, chunk).1 == Err::<(), SocketError>(SocketError::PeerBufferFull),
        send_data_spec(s, chunk).1 is Ok ==> send_data_spec(s, chunk).0.sent_bytes
            == (s.sent_bytes + chunk.len()) % 0x1_0000_0000,
{
}

/// A successful write of `data` advances `sent_bytes` by its length modulo 2^32 and leaves
/// `processed_bytes` alone.
pub proof fn lemma_write_advances_sent(s: SocketView, data: Seq<u8>)
    requires
        write_all_spec(s, data).1 is Ok,
    ensures
        write_all_spec(s, data).0.sent_bytes == (s.sent_bytes + data.len()) % 0x1_0000_0000,
        write_all_spec(s, data).0.processed_bytes == s.processed_bytes,
{
    lemma_write_loop_counts(s, data);
}

proof fn lemma_write_loop_counts(s: SocketView, data: Seq<u8>)
    ensures
        write_loop(s, data).1 is Ok ==> write_loop(s, data).0.sent_bytes
            == (s.sent_bytes + data.len()) % 0x1_0000_0000,
        write_loop(s, data).0.processed_bytes == s.processed_bytes,
    decreases data.len(),
{
    if data.len() > 0 {
        let k = chunk_len(data.len()) as int;
        let s1 = send_data_spec(s, data.take(k)).0;
        lemma_write_loop_counts(s1, data.skip(k));
        assert(((s.sent_bytes + k) % 0x1_0000_0000 + (data.len() - k)) % 0x1_0000_0000
            == (s.sent_bytes + data.len()) % 0x1_0000_0000) by (nonlinear_arith)
            requires
                0 <= k <= data.len(),
        ;
    }
}

/// Reading leaves `sent_bytes` alone, and a successful read of `n` bytes advances
/// `processed_bytes` by `n` modulo 2^32.
pub proof fn lemma_read_advances_processed(s: SocketView, n: nat)
    requires
        read_exact_spec(s, n).1 is Ok,
    ensures
        read_exact_spec(s, n).0.processed_bytes == (s.processed_bytes + n) % 0x1_0000_0000,
        read_exact_spec(s, n).0.sent_bytes == s.sent_bytes,
{
    lemma_read_loop_frame(s, n);
    assert((s.processed_bytes + n % 0x1_0000_0000) % 0x1_0000_0000
        == (s.processed_bytes + n) % 0x1_0000_0000) by (nonlinear_arith);
}

proof fn lemma_read_loop_frame(s: SocketView, n: nat)
    ensures
        read_loop(s, n).0.processed_bytes == s.processed_bytes,
        read_loop(s, n).0.sent_bytes == s.sent_bytes,
        read_loop(s, n).0.local_port == s.local_port,
        read_loop(s, n).0.host_port == s.host_port,
        read_loop(s, n).2 is None ==> read_loop(s, n).0.connected == s.connected,
    decreases n, s.transport.rx.len(),
{
    if n > 0 {
        lemma_read_partial_progress(s, n);
        let (s1, r) = read_partial_spec(s, n);
        if r is Ok {
            lemma_read_loop_frame(s1, (n - r->Ok_0.len()) as nat);
        }
    }
}

/// After a successful read, an unsolicited credit update is sent exactly when
/// `MAX_U32 - (processed_bytes - previous_processed_bytes) < CREDIT_UPDATE_LIMIT` holds of the
/// advanced counters, and nothing is sent otherwise.
pub proof fn lemma_credit_update_iff_due(s: SocketView, n: nat)
    requires
        read_exact_spec(s, n).1 is Ok,
    ensures
        ({
            let s1 = read_loop(s, n).0;
            let s2 = SocketView {
                processed_bytes: add32(s1.processed_bytes, (n % 0x1_0000_0000) as u32),
                ..s1
            };
            let tx = read_exact_spec(s, n).0.transport.tx;
            &&& must_send_credit_update_spec(s2) ==> tx == s1.transport.tx.push(
                stamped(control_view(s.local_port, s.host_port, VSockOp::CreditUpdate), s2.processed_bytes),
            )
            &&& !must_send_credit_update_spec(s2) ==> tx == s1.transport.tx
        }),
{
    lemma_read_loop_frame(s, n);
}

/// Reassembly keeps the stream's order across read boundaries: reading `a` bytes and then `b`
/// bytes gives the same bytes, the same state and the same outcome as reading `a + b` bytes at
/// once, also where a packet's payload is split between the two reads.
#[verifier::rlimit(60)]
pub proof fn lemma_read_split(s: SocketView, a: nat, b: nat)
    requires
        read_loop(s, a).2 is None,
    ensures
        ({
            let (sa, ba, ea) = read_loop(s, a);
            let (sb, bb, eb) = read_loop(sa, b);
            read_loop(s, a + b) == (sb, ba + bb, eb)
        }),
    decreases a, s.transport.rx.len(),
{
    let (sa, ba, ea) = read_loop(s, a);
    let (sb, bb, eb) = read_loop(sa, b);
    if a == 0 {
        assert(Seq::<u8>::empty() + bb =~= bb);
    } else {
        lemma_read_partial_progress(s, a);
        crate::socket::lemma_recv_data_frame(s);
        let (src_state, src) = if s.pending.len() > 0 {
            (SocketView { pending: Seq::empty(), ..s }, Ok::<Seq<u8>, SocketError>(s.pending))
        } else {
            recv_data(s)
        };
        let bytes = src->Ok_0;
        let len = bytes.len();
        if len <= a {
            let s1 = SocketView { pending: bytes.skip(len as int), ..src_state };
            assert(bytes.take(len as int) =~= bytes);
            assert(read_partial_spec(s, a + b) == (s1, Ok::<Seq<u8>, SocketError>(bytes)));
            assert(read_partial_spec(s, a) == (s1, Ok::<Seq<u8>, SocketError>(bytes)));
            let rest = (a - len) as nat;
            lemma_read_split(s1, rest, b);
            assert((rest + b) as nat == (a + b - len) as nat);
            let r1 = read_loop(s1, rest).1;
            assert(bytes + (r1 + bb) =~= (bytes + r1) + bb);
        } else {
            let ta = SocketView { pending: bytes.skip(a as int), ..src_state };
            assert(read_partial_spec(s, a) == (ta, Ok::<Seq<u8>, SocketError>(bytes.take(a as int))));
            assert(bytes.take(a as int).len() == a);
            assert(read_loop(ta, 0) == (ta, Seq::<u8>::empty(), None::<SocketError>));
            assert(bytes.take(a as int) + Seq::<u8>::empty() =~= bytes.take(a as int));
            assert(sa == ta);
            if b == 0 {
                assert(a + b == a);
                assert(ba + Seq::<u8>::empty() =~= ba);
            } else {
                let p = bytes.skip(a as int);
                let k2 = crate::socket::min_len(b, p.len());
                let u = SocketView { pending: p.skip(k2 as int), ..src_state };
                assert(read_partial_spec(ta, b) == (u, Ok::<Seq<u8>, SocketError>(p.take(k2 as int))));
                let k = crate::socket::min_len(a + b, len);
                assert(k == a + k2);
                assert(bytes.skip(k as int) =~= p.skip(k2 as int));
                assert(bytes.take(k as int) =~= bytes.take(a as int) + p.take(k2 as int));
                assert(read_partial_spec(s, a + b) == (u, Ok::<Seq<u8>, SocketError>(bytes.take(k as int))));
                assert((a + b - k) as nat == (b - k2) as nat);
                let rr = read_loop(u, (b - k2) as nat).1;
                assert(bytes.take(a as int) + (p.take(k2 as int) + rr)
                    =~= (bytes.take(a as int) + p.take(k2 as int)) + rr);
            }
        }
    }
}

/// Writing never takes back a sent packet: the packets sent before a write stay at the front of
/// the transmit queue.
proof fn lemma_write_loop_keeps_sent(s: SocketView, data: Seq<u8>)
    ensures
        write_loop(s, data).0.transport.tx.len() >= s.transport.tx.len(),
        forall|i: int| 0 <= i < s.transport.tx.len()
            ==> #[trigger] write_loop(s, data).0.transport.tx[i] == s.transport.tx[i],
    decreases data.len(),
{
    if data.len() > 0 {
        let k = chunk_len(data.len()) as int;
        let s1 = send_data_spec(s, data.take(k)).0;
        lemma_write_loop_keeps_sent(s1, data.skip(k));
        if send_data_spec(s, data.take(k)).1 is Ok {
            assert forall|i: int| 0 <= i < s.transport.tx.len()
                implies #[trigger] write_loop(s, data).0.transport.tx[i] == s.transport.tx[i] by {
                assert(s1.transport.tx[i] == s.transport.tx[i]);
            };
        }
    }
}

/// The packets of `rx` that the filter lets through, in order.
pub open spec fn matching(rx: Seq<PacketView>, f: PacketFilter) -> Seq<PacketView>
    decreases rx.len(),
{
    if rx.len() == 0 {
        Seq::empty()
    } else if accepts(f, rx[0]) {
        seq![rx[0]] + matching(rx.drop_first(), f)
    } else {
        matching(rx.drop_first(), f)
    }
}

/// The first packet the filter lets through is the first of `matching`, and taking it off the
/// queue takes it off `matching`.
proof fn lemma_first_match_matching(rx: Seq<PacketView>, f: PacketFilter)
    requires
        matching(rx, f).len() > 0,
    ensures
        0 <= first_match(rx, f) < rx.len(),
        rx[first_match(rx, f)] == matching(rx, f)[0],
        matching(rx.remove(first_match(rx, f)), f) == matching(rx, f).drop_first(),
    decreases rx.len(),
{
    let t = rx.drop_first();
    if accepts(f, rx[0]) {
        assert(rx.remove(0) =~= t);
        assert(matching(rx, f).drop_first() =~= matching(t, f));
    } else {
        lemma_first_match_matching(t, f);
        let i = first_match(t, f);
        let r = rx.remove(i + 1);
        assert(r.drop_first() =~= t.remove(i));
        assert(r[0] == rx[0]);
    }
}

/// What a successful write sends arrives in order: a peer whose receive queue holds, among
/// packets for other connections, exactly the packets that a write of `data` sent from the
/// writer's port to its own, reads back `data` unchanged with a read of `data.len()` bytes, and
/// is left with no pending bytes.
pub proof fn lemma_write_then_read(s: SocketView, data: Seq<u8>, r: SocketView)
    requires
        write_all_spec(s, data).1 is Ok,
        r.local_port == s.host_port,
        r.host_port == s.local_port,
        r.pending.len() == 0,
        s.transport.tx + matching(r.transport.rx, stream_filter(r.local_port, r.host_port))
            == write_all_spec(s, data).0.transport.tx,
    ensures
        read_loop(r, data.len()).1 == data,
        read_loop(r, data.len()).2 is None,
        read_loop(r, data.len()).0.pending.len() == 0,
{
    lemma_write_loop_then_read(s, data, r);
}

proof fn lemma_write_loop_then_read(s: SocketView, data: Seq<u8>, r: SocketView)
    requires
        write_loop(s, data).1 is Ok,
        r.local_port == s.host_port,
        r.host_port == s.local_port,
        r.pending.len() == 0,
        s.transport.tx + matching(r.transport.rx, stream_filter(r.local_port, r.host_port))
            == write_loop(s, data).0.transport.tx,
    ensures
        read_loop(r, data.len()).1 == data,
        read_loop(r, data.len()).2 is None,
        read_loop(r, data.len()).0.pending.len() == 0,
    decreases data.len(),
{
    if data.len() == 0 {
        assert(data =~= Seq::<u8>::empty());
    } else {
        let k = chunk_len(data.len()) as int;
        let chunk = data.take(k);
        let s1 = send_data_spec(s, chunk).0;
        let rest = data.skip(k);
        let fin = write_loop(s, data).0.transport.tx;
        let f = stream_filter(r.local_port, r.host_port);
        let m = matching(r.transport.rx, f);
        lemma_write_loop_keeps_sent(s1, rest);
        let n = s.transport.tx.len() as int;
        assert(fin[n] == s1.transport.tx[n]);
        assert((s.transport.tx + m)[n] == m[0]);
        lemma_first_match_matching(r.transport.rx, f);
        let i = first_match(r.transport.rx, f);
        let pc = r.transport.rx[i];
        assert(pc.payload == chunk);
        let r1 = take_packet(r, i);
        assert(matching(r1.transport.rx, f) == m.drop_first());
        assert(s1.transport.tx + matching(r1.transport.rx, f) =~= fin);
        assert(recv_data(r) == (r1, Ok::<Seq<u8>, SocketError>(chunk)));
        let r2 = SocketView { pending: chunk.skip(k), ..r1 };
        assert(read_partial_spec(r, data.len()) == (r2, Ok::<Seq<u8>, SocketError>(chunk.take(k))));
        assert(chunk.take(k) =~= chunk);
        lemma_write_loop_then_read(s1, rest, r2);
        assert((data.len() - k) as nat == rest.len());
        assert(chunk + rest =~= data);
    }
}

/// A read of no more bytes than are pending takes them from the pending bytes alone: it gives
/// their first `n` bytes, leaves the rest pending and takes no packet off the receive queue.
pub proof fn lemma_read_from_pending(s: SocketView, n: nat)
    requires
        s.connected,
        n <= s.pending.len(),
    ensures
        read_exact_spec(s, n).1 == Ok::<Seq<u8>, SocketError>(s.pending.take(n as int)),
        read_exact_spec(s, n).0.pending == s.pending.skip(n as int),
        read_exact_spec(s, n).0.transport.rx == s.transport.rx,
{
    let s1 = SocketView { pending: s.pending.skip(n as int), ..s };
    if n == 0 {
        assert(s.pending.take(0) =~= Seq::<u8>::empty());
        assert(s.pending.skip(0) =~= s.pending);
        assert(s1 == s);
    } else {
        assert(read_partial_spec(s, n) == (s1, Ok::<Seq<u8>, SocketError>(s.pending.take(n as int))));
        assert(s.pending.take(n as int).len() == n);
        assert(read_loop(s1, 0) == (s1, Seq::<u8>::empty(), None::<SocketError>));
        assert(s.pending.take(n as int) + Seq::<u8>::empty() =~= s.pending.take(n as int));
    }
}

/// The number of packets that a write of `len` bytes is split into.
pub open spec fn chunk_count(len: nat) -> nat {
    ((len + MAX_PAYLOAD_SIZE - 1) / MAX_PAYLOAD_SIZE as int) as nat
}

/// The `i`-th chunk of `data`: bytes `i * MAX_PAYLOAD_SIZE` up to the next boundary or the end.
pub open spec fn chunk_of(data: Seq<u8>, i: int) -> Seq<u8> {
    let end = if (i + 1) * MAX_PAYLOAD_SIZE < data.len() {
        (i + 1) * MAX_PAYLOAD_SIZE
    } else {
        data.len() as int
    };
    data.subrange(i * MAX_PAYLOAD_SIZE, end)
}

/// A successful write sends one data packet per chunk of `MAX_PAYLOAD_SIZE` bytes, in order,
/// after the packets sent before it, each stamped with this side's credit information.
pub proof fn lemma_write_chunks(s: SocketView, data: Seq<u8>)
    requires
        write_all_spec(s, data).1 is Ok,
    ensures
        ({
            let tx = write_all_spec(s, data).0.transport.tx;
            let n = s.transport.tx.len() as int;
            &&& tx.len() == n + chunk_count(data.len())
            &&& tx.subrange(0, n) == s.transport.tx
            &&& forall|i: int| 0 <= i < chunk_count(data.len()) ==> #[trigger] tx[n + i] == stamped(
                data_view(chunk_of(data, i), s.local_port, s.host_port),
                s.processed_bytes,
            )
        }),
{
    lemma_write_loop_chunks(s, data);
    lemma_write_loop_keeps_sent(s, data);
    let tx = write_all_spec(s, data).0.transport.tx;
    assert(tx.subrange(0, s.transport.tx.len() as int) =~= s.transport.tx);
}

proof fn lemma_write_loop_chunks(s: SocketView, data: Seq<u8>)
    requires
        write_loop(s, data).1 is Ok,
    ensures
        ({
            let tx = write_loop(s, data).0.transport.tx;
            let n = s.transport.tx.len() as int;
            &&& tx.len() == n + chunk_count(data.len())
            &&& forall|i: int| 0 <= i < chunk_count(data.len()) ==> #[trigger] tx[n + i] == stamped(
                data_view(chunk_of(data, i), s.local_port, s.host_port),
                s.processed_bytes,
            )
        }),
    decreases data.len(),
{
    if data.len() > 0 {
        let k = chunk_len(data.len()) as int;
        let chunk = data.take(k);
        let s1 = send_data_spec(s, chunk).0;
        let rest = data.skip(k);
        lemma_write_loop_chunks(s1, rest);
        lemma_write_loop_keeps_sent(s1, rest);
        let tx = write_loop(s, data).0.transport.tx;
        let n = s.transport.tx.len() as int;
        assert(chunk_count(data.len()) == 1 + chunk_count(rest.len()));
        assert(tx[n] == s1.transport.tx[n]);
        assert(chunk =~= chunk_of(data, 0));
        assert forall|i: int| 0 <= i < chunk_count(data.len()) implies #[trigger] tx[n + i] == stamped(
            data_view(chunk_of(data, i), s.local_port, s.host_port),
            s.processed_bytes,
        ) by {
            if i > 0 {
                assert(chunk_count(rest.len()) >= 1);
                assert(rest.len() > 0);
                assert(k == MAX_PAYLOAD_SIZE);
                assert(tx[(n + 1) + (i - 1)] == tx[n + i]);
                lemma_chunk_of_rest(data, i);
            }
        };
    } else {
        assert(chunk_count(0) == 0);
    }
}

/// Past the first chunk, the chunks of `data` are those of what follows the first chunk.
proof fn lemma_chunk_of_rest(data: Seq<u8>, i: int)
    requires
        data.len() > MAX_PAYLOAD_SIZE,
        0 < i < chunk_count(data.len()),
    ensures
        chunk_of(data.skip(MAX_PAYLOAD_SIZE as int), i - 1) == chunk_of(data, i),
{
    let m = MAX_PAYLOAD_SIZE as int;
    let len = data.len() as int;
    assert(i * m < len) by (nonlinear_arith)
        requires
            i < (len + m - 1) / m,
            m > 0,
    ;
    assert((i - 1) * m + m == i * m) by (nonlinear_arith);
    assert(i * m + m == (i + 1) * m) by (nonlinear_arith);
    assert(chunk_of(data.skip(m), i - 1) =~= chunk_of(data, i));
}

/// A write on a connected socket is refused only for want of room at the peer, and then at some
/// chunk `i`: the chunks before it stay sent and counted in `sent_bytes`, and chunk `i`, which is
/// longer than the peer's free space after them, is neither sent nor counted.
pub proof fn lemma_write_refusal(s: SocketView, data: Seq<u8>)
    requires
        s.connected,
        write_all_spec(s, data).1 is Err,
    ensures
        ({
            let (s2, r) = write_all_spec(s, data);
            let n = s.transport.tx.len() as int;
            &&& r == Err::<(), SocketError>(SocketError::PeerBufferFull)
            &&& exists|i: int| #![trigger chunk_of(data, i)] 0 <= i < chunk_count(data.len())
                && s2.sent_bytes == (s.sent_bytes + i * MAX_PAYLOAD_SIZE) % 0x1_0000_0000
                && s2.transport.tx.len() == n + i
                && s2.transport.tx.subrange(0, n) == s.transport.tx
                && (forall|j: int| 0 <= j < i ==> #[trigger] s2.transport.tx[n + j] == stamped(
                    data_view(chunk_of(data, j), s.local_port, s.host_port),
                    s.processed_bytes,
                ))
                && chunk_of(data, i).len() > peer_free_space(s2)
        }),
{
    lemma_write_loop_refusal(s, data);
    lemma_write_loop_keeps_sent(s, data);
    let tx = write_all_spec(s, data).0.transport.tx;
    assert(tx.subrange(0, s.transport.tx.len() as int) =~= s.transport.tx);
}

#[verifier::rlimit(80)]
proof fn lemma_write_loop_refusal(s: SocketView, data: Seq<u8>)
    requires
        write_loop(s, data).1 is Err,
    ensures
        ({
            let (s2, r) = write_loop(s, data);
            let n = s.transport.tx.len() as int;
            &&& r == Err::<(), SocketError>(SocketError::PeerBufferFull)
            &&& exists|i: int| #![trigger chunk_of(data, i)] 0 <= i < chunk_count(data.len())
                && s2.sent_bytes == (s.sent_bytes + i * MAX_PAYLOAD_SIZE) % 0x1_0000_0000
                && s2.transport.tx.len() == n + i
                && (forall|j: int| 0 <= j < i ==> #[trigger] s2.transport.tx[n + j] == stamped(
                    data_view(chunk_of(data, j), s.local_port, s.host_port),
                    s.processed_bytes,
                ))
                && chunk_of(data, i).len() > peer_free_space(s2)
        }),
    decreases data.len(),
{
    let k = chunk_len(data.len()) as int;
    let chunk = data.take(k);
    let (s1, r1) = send_data_spec(s, chunk);
    let rest = data.skip(k);
    let (s2, r) = write_loop(s, data);
    let n = s.transport.tx.len() as int;
    assert(chunk =~= chunk_of(data, 0));
    assert(chunk_count(data.len()) >= 1);
    if r1 is Err {
        assert(s.sent_bytes == (s.sent_bytes + 0 * MAX_PAYLOAD_SIZE) % 0x1_0000_0000);
        assert(chunk_of(data, 0).len() > peer_free_space(s2));
    } else {
        lemma_write_loop_refusal(s1, rest);
        lemma_write_loop_keeps_sent(s1, rest);
        let i2 = choose|i: int| #![trigger chunk_of(rest, i)] 0 <= i < chunk_count(rest.len())
            && s2.sent_bytes == (s1.sent_bytes + i * MAX_PAYLOAD_SIZE) % 0x1_0000_0000
            && s2.transport.tx.len() == n + 1 + i
            && (forall|j: int| 0 <= j < i ==> #[trigger] s2.transport.tx[n + 1 + j] == stamped(
                data_view(chunk_of(rest, j), s1.local_port, s1.host_port),
                s1.processed_bytes,
            ))
            && chunk_of(rest, i).len() > peer_free_space(s2);
        assert(rest.len() > 0);
        assert(k == MAX_PAYLOAD_SIZE);
        let i = i2 + 1;
        assert(chunk_count(data.len()) == 1 + chunk_count(rest.len()));
        lemma_chunk_of_rest(data, i);
        let m = MAX_PAYLOAD_SIZE as int;
        let a = s.sent_bytes as int;
        assert(((a + m) % 0x1_0000_0000 + i2 * m) % 0x1_0000_0000 == (a + i * m) % 0x1_0000_0000)
            by (nonlinear_arith)
            requires
                i == i2 + 1,
        ;
        assert(s2.transport.tx[n] == s1.transport.tx[n]);
        assert forall|j: int| 0 <= j < i implies #[trigger] s2.transport.tx[n + j] == stamped(
            data_view(chunk_of(data, j), s.local_port, s.host_port),
            s.processed_bytes,
        ) by {
            if j > 0 {
                assert(s2.transport.tx[n + 1 + (j - 1)] == s2.transport.tx[n + j]);
                lemma_chunk_of_rest(data, j);
            }
        };
        assert(chunk_of(data, i).len() > peer_free_space(s2));
    }
}

/// Two sockets with the same receive queue, pending bytes, ports and connection state: the
/// rest of their state (counters, what was sent) has no say in what they read.
pub open spec fn same_stream(s: SocketView, t: SocketView) -> bool {
    &&& s.transport.rx == t.transport.rx
    &&& s.pending == t.pending
    &&& s.local_port == t.local_port
    &&& s.host_port == t.host_port
    &&& s.connected == t.connected
}

proof fn lemma_recv_data_same_stream(s: SocketView, t: SocketView)
    requires
        same_stream(s, t),
    ensures
        recv_data(s).1 == recv_data(t).1,
        same_stream(recv_data(s).0, recv_data(t).0),
    decreases s.transport.rx.len(),
{
    let i = first_match(s.transport.rx, stream_filter(s.local_port, s.host_port));
    if 0 <= i < s.transport.rx.len() {
        let s1 = take_packet(s, i);
        let t1 = take_packet(t, i);
        lemma_recv_data_same_stream(s1, t1);
        lemma_recv_data_same_stream(
            send_control(s1, VSockOp::CreditUpdate),
            send_control(t1, VSockOp::CreditUpdate),
        );
    }
}

proof fn lemma_read_loop_same_stream(s: SocketView, t: SocketView, n: nat)
    requires
        same_stream(s, t),
    ensures
        read_loop(s, n).1 == read_loop(t, n).1,
        read_loop(s, n).2 == read_loop(t, n).2,
        same_stream(read_loop(s, n).0, read_loop(t, n).0),
    decreases n, s.transport.rx.len(),
{
    if n > 0 {
        lemma_read_partial_progress(s, n);
        lemma_recv_data_same_stream(s, t);
        let (s1, r) = read_partial_spec(s, n);
        let (t1, q) = read_partial_spec(t, n);
        assert(r == q);
        assert(same_stream(s1, t1));
        if r is Ok {
            lemma_read_loop_same_stream(s1, t1, (n - r->Ok_0.len()) as nat);
        }
    }
}

/// The total of a sequence of read lengths.
pub open spec fn sum_lens(lens: Seq<nat>) -> nat
    decreases lens.len(),
{
    if lens.len() == 0 {
        0
    } else {
        lens[0] + sum_lens(lens.drop_first())
    }
}

/// The outcome of `read_exact` calls of the given lengths, one after the other, stopping at the
/// first that fails: the state, the bytes read by the successful calls, and the error if any.
pub open spec fn read_seq(s: SocketView, lens: Seq<nat>) -> (SocketView, Seq<u8>, Option<SocketError>)
    decreases lens.len(),
{
    if lens.len() == 0 {
        (s, Seq::empty(), None)
    } else {
        let (s1, r) = read_exact_spec(s, lens[0]);
        match r {
            Err(e) => (s1, Seq::empty(), Some(e)),
            Ok(b) => {
                let (s2, b2, e2) = read_seq(s1, lens.drop_first());
                (s2, b + b2, e2)
            },
        }
    }
}

/// Reassembly keeps the stream's order whatever the split: successful `read_exact` calls of any
/// lengths give, one after the other, exactly the bytes of one read of their total length, and
/// leave the receive queue and the pending bytes as that read does.
pub proof fn lemma_read_seq(s: SocketView, lens: Seq<nat>)
    requires
        s.connected,
        read_seq(s, lens).2 is None,
    ensures
        read_loop(s, sum_lens(lens)).2 is None,
        read_seq(s, lens).1 == read_loop(s, sum_lens(lens)).1,
        same_stream(read_seq(s, lens).0, read_loop(s, sum_lens(lens)).0),
    decreases lens.len(),
{
    if lens.len() == 0 {
        assert(read_loop(s, 0) == (s, Seq::<u8>::empty(), None::<SocketError>));
    } else {
        let a = lens[0];
        let rest = lens.drop_first();
        let r_total = sum_lens(rest);
        let (s1p, b, e) = read_loop(s, a);
        assert(e is None);
        lemma_read_loop_frame(s, a);
        let s1 = after_read(s1p, a);
        assert(same_stream(s1, s1p));
        lemma_read_seq(s1, rest);
        lemma_read_loop_same_stream(s1, s1p, r_total);
        lemma_read_split(s, a, r_total);
        assert(sum_lens(lens) == a + r_total);
    }
}

} // verus!
