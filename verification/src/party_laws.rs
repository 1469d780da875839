//! How messages travel from one title to another: sent, repeated, received, queued and handed out.
use crate::assoc;
use crate::delivery;
use crate::delivery::{ChangeView, DeliveryView};
use crate::outbound::{OutboundView, ParcelView};
use crate::party;
use crate::party::{EndpointView, FrameView, NetworkView, PeerView};
use crate::reliable;
use crate::reliable::{MsgView, PendingView, ReceiverView, RetransmitView, SenderView};
use crate::table;
use crate::wire;
use crate::wire::DatagramView;
use vstd::prelude::*;

verus! {

// Batches

/// Where messages are not held back, a batch is the front of the queue: together with what stays
/// it is the queue. It stops short of the end only where it is full or a peer has joined.
pub proof fn batch_is_the_front(p: Seq<ChangeView>, room: nat)
    ensures
        ({
            let batch = delivery::batch_of(p, false, room);
            let rest = delivery::left_of(p, false, room);
            &&& batch + rest == p
            &&& rest.len() > 0 ==> batch.len() == room || (batch.len() > 0 && batch.last()
                is RemoteJoined)
        }),
    decreases p.len(),
{
    let batch = delivery::batch_of(p, false, room);
    let rest = delivery::left_of(p, false, room);
    if p.len() > 0 && room > 0 && !(p[0] is RemoteJoined) {
        let t = p.drop_first();
        batch_is_the_front(t, (room - 1) as nat);
        let b = delivery::batch_of(t, false, (room - 1) as nat);
        assert(batch =~= seq![p[0]] + b);
        assert(batch + rest =~= seq![p[0]] + (b + rest));
        assert(seq![p[0]] + t =~= p);
        if b.len() > 0 {
            assert(batch.last() == b.last());
        }
    } else {
        assert(batch + rest =~= p);
    }
}

/// A batch that the title gives back is gone, and what is queued waits as before; giving back
/// nothing changes nothing.
pub proof fn returned_batch_is_gone(d: DeliveryView, v: Seq<Option<delivery::Returned>>)
    ensures
        v.len() > 0 ==> d.finishing(v).in_flight.len() == 0 && !d.finishing(v).outstanding
            && d.finishing(v).pending == d.pending,
        v.len() == 0 ==> d.finishing(v) == d,
{
}

/// Two batches after each other are the front of the queue: nothing is handed out twice, nothing
/// is left out, and the order stays.
pub proof fn batches_follow_each_other(d: DeliveryView, v: Seq<Option<delivery::Returned>>)
    requires
        !d.outstanding,
        v.len() > 0,
    ensures
        ({
            let first = d.starting(false);
            let second = first.finishing(v).starting(false);
            first.in_flight + second.in_flight + second.pending == d.pending
        }),
{
    let first = d.starting(false);
    let second = first.finishing(v).starting(false);
    batch_is_the_front(d.pending, delivery::BATCH_CAP as nat);
    batch_is_the_front(first.pending, delivery::BATCH_CAP as nat);
    assert(first.in_flight + second.in_flight + second.pending =~= first.in_flight + (
    second.in_flight + second.pending));
}

/// A change that is queued waits behind all that wait, and one that is no message always gets in.
pub proof fn queued_change_waits(d: DeliveryView, c: ChangeView)
    requires
        !(c is Message) || d.pending.len() < 128,
    ensures
        d.queueing(c).pending == d.pending.push(c),
        d.queueing(c).in_flight == d.in_flight,
        d.queueing(c).outstanding == d.outstanding,
        d.queueing(c).ledger.dropped == d.ledger.dropped,
{
}

/// How many of some changes are of a kind.
pub open spec fn count_of(v: Seq<ChangeView>, kind: u32) -> nat
    decreases v.len(),
{
    if v.len() == 0 {
        0
    } else {
        count_of(v.drop_last(), kind) + (if v.last().kind() == kind { 1nat } else { 0 })
    }
}

/// Handing out a batch counts each of its changes once under its kind, and no other kind.
pub proof fn handed_changes_are_counted(d: DeliveryView, hold: bool, kind: u32)
    requires
        !d.outstanding,
        kind < d.ledger.handed.len(),
    ensures
        d.starting(hold).ledger.handed[kind as int] == (d.ledger.handed[kind as int] + count_of(
            d.starting(hold).in_flight,
            kind,
        )) % 0x1_0000_0000_0000_0000,
{
    lemma_counted(d.ledger.handed, d.starting(hold).in_flight, kind);
}

proof fn lemma_counted(counts: Seq<u64>, v: Seq<ChangeView>, kind: u32)
    requires
        kind < counts.len(),
    ensures
        delivery::counted_all(counts, v).len() == counts.len(),
        delivery::counted_all(counts, v)[kind as int] == (counts[kind as int] + count_of(v, kind))
            % 0x1_0000_0000_0000_0000,
    decreases v.len(),
{
    if v.len() > 0 {
        lemma_counted(counts, v.drop_last(), kind);
    }
}

// Receiving

/// What the title is told of how a message was sent is whether it was guaranteed and whether it
/// was sequential, and nothing else.
pub proof fn told_options_are_the_sent_ones(options: u32)
    ensures
        reliable::is_guaranteed(party::received_options(options)) == reliable::is_guaranteed(
            options,
        ),
        reliable::is_sequential(party::received_options(options)) == reliable::is_sequential(
            options,
        ),
        party::received_options(options) < 4,
{
    assert((options & 3) & 1 == options & 1) by (bit_vector);
    assert((options & 3) & 2 == options & 2) by (bit_vector);
    assert((options & 3) < 4) by (bit_vector);
}

/// The change by which the title gets a message.
pub open spec fn told_message(network: u64, entity: Seq<char>, m: MsgView) -> ChangeView {
    ChangeView::Message {
        network,
        entity,
        options: party::received_options(m.options),
        payload: m.payload,
    }
}

/// The messages that a receiver hands over are queued for the title, all of them and in their
/// order, as long as there is room.
pub proof fn handed_messages_are_queued(
    d: DeliveryView,
    network: u64,
    entity: Seq<char>,
    ms: Seq<MsgView>,
)
    requires
        d.pending.len() + ms.len() <= 128,
    ensures
        party::delivering(d, network, entity, ms).pending == d.pending + ms.map_values(
            |m: MsgView| told_message(network, entity, m),
        ),
        party::delivering(d, network, entity, ms).in_flight == d.in_flight,
        party::delivering(d, network, entity, ms).outstanding == d.outstanding,
    decreases ms.len(),
{
    let all = ms.map_values(|m: MsgView| told_message(network, entity, m));
    if ms.len() > 0 {
        let t = ms.drop_last();
        handed_messages_are_queued(d, network, entity, t);
        assert(all =~= t.map_values(|m: MsgView| told_message(network, entity, m)).push(
            told_message(network, entity, ms.last()),
        ));
        assert(party::delivering(d, network, entity, ms).pending =~= d.pending + all);
    } else {
        assert(d.pending + all =~= d.pending);
    }
}

/// A message that is neither guaranteed nor sequential, from a peer that is known, reaches an open
/// title as it was sent.
pub proof fn plain_message_reaches_the_title(
    n: NetworkView,
    g: DatagramView,
    ip: Seq<char>,
    udp_port: u16,
    d: DeliveryView,
    now: u64,
)
    requires
        g.kind == wire::KIND_MSG,
        n.knows(g.entity),
        n.is_open(),
        n.pending_rx.len() == 0,
        !reliable::is_guaranteed(g.options),
        !reliable::is_sequential(g.options),
        d.pending.len() < 128,
    ensures
        n.receiving(g, ip, udp_port, d, now).1.pending == d.pending.push(
            told_message(n.id, g.entity, MsgView { payload: g.payload, options: g.options }),
        ),
{
    assert(wire::KIND_MSG != wire::KIND_HELLO);
    let m = MsgView { payload: g.payload, options: g.options };
    let p = PeerView { entity: g.entity, ip, udp_port };
    let h = n.hearing(p);
    lemma_heard(n, p, g.entity);
    let a = h.acknowledged(g.entity, g.ack);
    lemma_acknowledged(h, g.entity, g.ack, g.entity);
    let e = a.remotes[assoc::place(a.remotes, g.entity)->0].1;
    crate::reliable_laws::unsequenced_is_handed_over(e.rx, g.seq, m, now);
    handed_messages_are_queued(d, n.id, g.entity, seq![m]);
    assert(d.pending + seq![m].map_values(|m: MsgView| told_message(n.id, g.entity, m))
        =~= d.pending.push(told_message(n.id, g.entity, m)));
}

pub proof fn lemma_with_remote(n: NetworkView, i: int, e: EndpointView, entity: Seq<char>)
    requires
        0 <= i < n.remotes.len(),
    ensures
        assoc::place(n.with_remote(i, e).remotes, entity) == assoc::place(n.remotes, entity),
{
    let r = n.with_remote(i, e).remotes;
    assoc::lemma_place(n.remotes, entity);
    assoc::lemma_place(r, entity);
    assert forall|j: int| 0 <= j < r.len() implies (#[trigger] r[j]).0 == n.remotes[j].0 by {}
    if let Some(k) = assoc::place(n.remotes, entity) {
        assoc::lemma_place_is(r, entity, k);
    } else if let Some(k) = assoc::place(r, entity) {
        assert(n.remotes[k].0 == entity);
    }
}

proof fn lemma_heard(n: NetworkView, p: PeerView, entity: Seq<char>)
    ensures
        ({
            let h = n.hearing(p);
            &&& assoc::place(h.remotes, entity) == assoc::place(n.remotes, entity)
            &&& h.remotes.len() == n.remotes.len()
            &&& h.id == n.id && h.pending_rx == n.pending_rx && h.local_endpoint == n.local_endpoint
            &&& h.peer_delivered == n.peer_delivered
        }),
{
    assoc::lemma_place(n.remotes, p.entity);
    if let Some(i) = assoc::place(n.remotes, p.entity) {
        lemma_with_remote(
            n,
            i,
            EndpointView { ip: p.ip, udp_port: p.udp_port, ..n.remotes[i].1 },
            entity,
        );
    }
}

proof fn lemma_acknowledged(n: NetworkView, from: Seq<char>, ack: u32, entity: Seq<char>)
    ensures
        ({
            let a = n.acknowledged(from, ack);
            &&& assoc::place(a.remotes, entity) == assoc::place(n.remotes, entity)
            &&& a.id == n.id && a.pending_rx == n.pending_rx && a.local_endpoint == n.local_endpoint
            &&& a.peer_delivered == n.peer_delivered
        }),
{
    assoc::lemma_place(n.remotes, from);
    if let Some(i) = assoc::place(n.remotes, from) {
        let tx = n.remotes[i].1.tx;
        lemma_with_remote(n, i, EndpointView { tx: tx.acked(ack), ..n.remotes[i].1 }, entity);
    }
}

/// An acknowledgement settles what its peer was sent up to it and nothing else, and it settles
/// nothing that another peer was sent. An acknowledgement of 0 settles nothing.
pub proof fn acknowledgement_settles_one_peer(
    n: NetworkView,
    from: Seq<char>,
    ack: u32,
    k: u32,
    other: Seq<char>,
)
    requires
        n.knows(from),
    ensures
        ({
            let before = assoc::lookup(n.remotes, from)->0;
            let after = assoc::lookup(n.acknowledged(from, ack).remotes, from);
            &&& after is Some
            &&& ack != 0 ==> (after->0.tx.pending.contains_key(k) <==> before.tx.pending.contains_key(
                k,
            ) && reliable::newer(k, ack))
            &&& after->0.tx.pending.contains_key(k) ==> after->0.tx.pending[k]
                == before.tx.pending[k]
            &&& ack == 0 ==> after->0 == before
            &&& after->0.rx == before.rx && after->0.ip == before.ip
            &&& other != from ==> assoc::lookup(n.acknowledged(from, ack).remotes, other)
                == assoc::lookup(n.remotes, other)
        }),
{
    assoc::lemma_place(n.remotes, from);
    assoc::lemma_place(n.remotes, other);
    lemma_acknowledged(n, from, ack, from);
    lemma_acknowledged(n, from, ack, other);
}

/// A message of a peer that is not known waits, the oldest that waits gives way where there is no
/// room, and the peers are asked for; the title gets nothing.
pub proof fn message_of_a_stranger_waits(n: NetworkView, f: FrameView, d: DeliveryView, now: u64)
    requires
        !n.knows(f.entity),
    ensures
        ({
            let (m, e) = n.messaged(f, d, now);
            &&& e == d
            &&& m.pending_rx.len() > 0 && m.pending_rx.last() == f
            &&& n.pending_rx.len() < 128 ==> m.pending_rx == n.pending_rx.push(f)
            &&& n.pending_rx.len() >= 128 ==> m.pending_rx == n.pending_rx.skip(1).push(f)
            &&& m.poll_requested
            &&& m.remotes == n.remotes
        }),
{
}

proof fn lemma_taking(n: NetworkView, f: FrameView, d: DeliveryView, now: u64, entity: Seq<char>)
    ensures
        ({
            let m = n.taking(f, d, now).0;
            &&& m.knows(entity) == n.knows(entity)
            &&& m.is_open() == n.is_open()
            &&& m.pending_rx == n.pending_rx
        }),
{
    assoc::lemma_place(n.remotes, f.entity);
    if let Some(i) = assoc::place(n.remotes, f.entity) {
        let e = n.remotes[i].1;
        let (rx, o) = e.rx.receive(f.seq, MsgView { payload: f.payload, options: f.options }, now);
        lemma_with_remote(n, i, EndpointView { rx, ..e }, entity);
    }
}

/// Once the title may get messages and every sender is known, no message waits any longer.
pub proof fn waiting_messages_are_taken(n: NetworkView, d: DeliveryView, now: u64)
    requires
        n.is_open(),
        forall|i: int|
            0 <= i < n.pending_rx.len() ==> n.knows((#[trigger] n.pending_rx[i]).entity),
    ensures
        n.flushing(d, now).0.pending_rx.len() == 0,
    decreases n.pending_rx.len(),
{
    if n.pending_rx.len() > 0 {
        let f = n.pending_rx[0];
        let rest = NetworkView { pending_rx: n.pending_rx.drop_first(), ..n };
        assert(n.knows(f.entity));
        let (m, e) = rest.taking(f, d, now);
        lemma_taking(rest, f, d, now, f.entity);
        assert forall|i: int| 0 <= i < m.pending_rx.len() implies m.knows(
            (#[trigger] m.pending_rx[i]).entity,
        ) by {
            assert(m.pending_rx[i] == n.pending_rx[i + 1]);
            lemma_taking(rest, f, d, now, m.pending_rx[i].entity);
            assert(rest.knows(m.pending_rx[i].entity));
        }
        waiting_messages_are_taken(m, e, now);
    }
}

/// A peer that is taken in is known by its address, and the exchange with it starts anew.
pub proof fn new_peer_starts_anew(n: NetworkView, p: PeerView, listed: bool, uid: u16, other: Seq<char>)
    requires
        n.takes_in(p.entity, listed),
        !p.entity.contains('\0'),
    ensures
        ({
            let after = assoc::lookup(n.ensuring(p, listed, uid).remotes, p.entity);
            &&& after is Some
            &&& after->0.entity == p.entity && after->0.uid == uid
            &&& after->0.ip == p.ip && after->0.udp_port == p.udp_port
            &&& after->0.tx.next_gseq == 1 && after->0.tx.next_bseq == 1
                && after->0.tx.pending.len() == 0
            &&& after->0.rx.g_next == 1 && after->0.rx.ack_due_at is None && !after->0.rx.be_seen
            &&& other != p.entity ==> assoc::lookup(n.ensuring(p, listed, uid).remotes, other)
                == assoc::lookup(n.remotes, other)
        }),
{
    assoc::lemma_place(n.remotes, p.entity);
    let e = party::fresh_endpoint(p, uid);
    assert(n.ensuring(p, listed, uid).remotes == assoc::with(n.remotes, p.entity, e));
    assoc::set_is_found(n.remotes, p.entity, e, other);
}

/// A peer that is not known and is heard of is remembered with its address, so that it can be
/// taken in later, unless it already is or there is no room.
pub proof fn stranger_is_remembered(n: NetworkView, p: PeerView)
    requires
        n.connect_completed,
        p.ip.len() > 0,
        !n.knows(p.entity),
        n.pending_peers.len() < 16,
    ensures
        n.hearing(p).remotes == n.remotes,
        exists|i: int|
            0 <= i < n.hearing(p).pending_peers.len() && (#[trigger] n.hearing(
                p,
            ).pending_peers[i]).entity == p.entity,
        (forall|i: int|
            0 <= i < n.pending_peers.len() ==> (#[trigger] n.pending_peers[i]).entity != p.entity)
            ==> n.hearing(p).pending_peers == n.pending_peers.push(p),
{
    let h = n.hearing(p);
    if h.pending_peers.len() > n.pending_peers.len() {
        assert(h.pending_peers[n.pending_peers.len() as int] == p);
    }
}

// Sending

/// A peer that can be reached gets one datagram for each thing that is sent, at its own address.
pub open spec fn is_for(o: OutboundView, e: EndpointView) -> bool {
    o.ip == e.ip && o.udp_port == e.udp_port
}

/// The name of the local user fits into a datagram.
pub open spec fn fits(n: NetworkView) -> bool {
    let e = vstd::utf8::encode_utf8(n.local_entity());
    e.len() <= wire::ENTITY_ROOM && forall|i: int| 0 <= i < e.len() ==> #[trigger] e[i] != 0
}

proof fn lemma_packet(
    n: NetworkView,
    kind: u8,
    options: u32,
    seq: u32,
    ack: u32,
    payload: Seq<u8>,
)
    requires
        fits(n),
        payload.len() <= wire::MAX_PAYLOAD,
    ensures
        wire::is_wire(n.packet(kind, options, seq, ack, payload)),
        wire::wire_content(n.packet(kind, options, seq, ack, payload)) == (DatagramView {
            kind,
            entity: n.local_entity(),
            options,
            seq,
            ack,
            payload,
        }),
{
    let e = vstd::utf8::encode_utf8(n.local_entity());
    wire::packet_reads_back(
        vstd::utf8::encode_utf8(n.descriptor.id()),
        e,
        kind,
        options,
        seq,
        ack,
        payload,
    );
    crate::bytes::text_reads_back(n.local_entity());
}

/// Each peer with an address is sent what is to be sent: a datagram to that address, from the
/// local user, with the payload and the options, under the number that the peer's sender gives it
/// and with what is acknowledged to that peer.
pub proof fn every_peer_is_sent_to(
    n: NetworkView,
    p: ParcelView,
    resolves: Seq<bool>,
    now: u64,
    k: nat,
    i: int,
) -> (j: int)
    requires
        n.bound,
        fits(n),
        p.payload.len() <= wire::MAX_PAYLOAD,
        k <= n.remotes.len(),
        0 <= i < k,
        n.remotes[i].1.udp_port != 0,
        resolves[i],
    ensures
        ({
            let e = n.remotes[i].1;
            let out = n.datagrams(p, resolves, now, k);
            let c = wire::wire_content(out[j].data);
            &&& 0 <= j < out.len()
            &&& is_for(out[j], e)
            &&& wire::is_wire(out[j].data)
            &&& c.kind == p.kind && c.payload == p.payload && c.options == p.options
            &&& c.entity == n.local_entity()
            &&& c.ack == e.rx.ack()
            &&& p.kind == wire::KIND_MSG ==> c.seq == e.tx.sending(p.payload, p.options, now).1
        }),
    decreases k,
{
    let before = n.datagrams(p, resolves, now, (k - 1) as nat);
    let out = n.datagrams(p, resolves, now, k);
    if i == k - 1 {
        let e = n.remotes[i].1;
        lemma_packet(n, p.kind, p.options, e.number_of(p, now), e.rx.ack(), p.payload);
        before.len() as int
    } else {
        let j = every_peer_is_sent_to(n, p, resolves, now, (k - 1) as nat, i);
        assert(out[j] == before[j]);
        j
    }
}

/// Nobody is sent more than one datagram for one thing that is sent, and a peer without an address
/// gets none.
pub proof fn no_peer_is_sent_to_twice(
    n: NetworkView,
    p: ParcelView,
    resolves: Seq<bool>,
    now: u64,
    k: nat,
)
    requires
        k <= n.remotes.len(),
    ensures
        n.datagrams(p, resolves, now, k).len() <= k,
        (forall|i: int| 0 <= i < k ==> (#[trigger] n.remotes[i]).1.udp_port == 0) ==> n.datagrams(
            p,
            resolves,
            now,
            k,
        ).len() == 0,
    decreases k,
{
    if k > 0 {
        no_peer_is_sent_to_twice(n, p, resolves, now, (k - 1) as nat);
        if forall|i: int| 0 <= i < k ==> (#[trigger] n.remotes[i]).1.udp_port == 0 {
            assert(n.remotes[k - 1].1.udp_port == 0);
        }
    }
}

/// A guaranteed message that was sent to a peer is pending there with its payload; what is owed to
/// the peer as an acknowledgement has gone along with it.
pub proof fn sent_message_is_pending(
    n: NetworkView,
    p: ParcelView,
    resolves: Seq<bool>,
    now: u64,
    i: int,
)
    requires
        n.bound,
        p.kind == wire::KIND_MSG,
        reliable::is_guaranteed(p.options),
        0 <= i < n.remotes.len(),
        n.remotes[i].1.udp_port != 0,
        resolves[i],
    ensures
        ({
            let before = n.remotes[i].1;
            let m = n.after_sending(p, resolves, now);
            let after = m.remotes[i].1;
            let seq = before.tx.next_gseq;
            &&& m.remotes.len() == n.remotes.len() && m.remotes[i].0 == n.remotes[i].0
            &&& after.tx.pending.contains_key(seq)
            &&& after.tx.pending[seq].payload == p.payload
            &&& after.tx.pending[seq].options == p.options
            &&& after.tx.pending[seq].last_sent_ms == now
            &&& after.rx.ack_due_at is None
            &&& after.rx.ack() == before.rx.ack() && after.rx.g_buf == before.rx.g_buf
        }),
{
}

proof fn lemma_ascending_has(s: Set<u32>, k: u32)
    requires
        s.finite(),
    ensures
        table::ascending(s).contains(k) <==> s.contains(k),
    decreases s.len(),
{
    let all = table::ascending(s);
    if s.len() > 0 {
        crate::reliable_laws::lemma_has_ends(s);
        let l = table::least(s);
        let rest = table::ascending(s.remove(l));
        lemma_ascending_has(s.remove(l), k);
        if s.contains(k) {
            if k == l {
                assert(all[0] == k);
            } else {
                let i = choose|i: int| 0 <= i < rest.len() && rest[i] == k;
                assert(all[i + 1] == k);
            }
        }
        if all.contains(k) {
            let i = choose|i: int| 0 <= i < all.len() && all[i] == k;
            if i > 0 {
                assert(rest[i - 1] == k);
                assert(rest.contains(k));
            }
        }
    } else {
        assert(s =~= Set::empty());
    }
}

proof fn lemma_sendable_has(v: Seq<RetransmitView>, r: RetransmitView)
    ensures
        crate::outbound::sendable(v).contains(r) <==> v.contains(r) && !r.gave_up,
    decreases v.len(),
{
    let all = crate::outbound::sendable(v);
    if v.len() > 0 {
        let t = v.drop_last();
        let rest = crate::outbound::sendable(t);
        lemma_sendable_has(t, r);
        if v.contains(r) && !r.gave_up {
            let i = choose|i: int| 0 <= i < v.len() && v[i] == r;
            if i < t.len() {
                assert(t[i] == r);
                let k = choose|k: int| 0 <= k < rest.len() && rest[k] == r;
                assert(all[k] == r);
            } else {
                assert(all[all.len() - 1] == r);
            }
        }
        if all.contains(r) {
            let k = choose|k: int| 0 <= k < all.len() && all[k] == r;
            if k < rest.len() {
                assert(rest[k] == r);
                assert(t.contains(r));
                let i = choose|i: int| 0 <= i < t.len() && t[i] == r;
                assert(v[i] == r);
            } else {
                assert(v[v.len() - 1] == r);
            }
        }
    }
}

/// A guaranteed message whose timeout has passed is sent again, to the address of its peer, under
/// the same number and with the same payload and options, as long as it has retries left.
pub proof fn due_message_is_repeated(n: NetworkView, e: EndpointView, now: u64, k: u32) -> (j: int)
    requires
        fits(n),
        e.tx.wf(),
        e.tx.pending.contains_key(k),
        reliable::is_due(e.tx.pending[k], now),
        e.tx.pending[k].retries < 8,
        e.tx.pending[k].payload.len() <= wire::MAX_PAYLOAD,
    ensures
        ({
            let out = n.clock_datagrams(e, now);
            let c = wire::wire_content(out[j].data);
            &&& 0 <= j < out.len()
            &&& is_for(out[j], e)
            &&& c.kind == wire::KIND_MSG && c.seq == k && c.payload == e.tx.pending[k].payload
            &&& c.options == e.tx.pending[k].options && c.ack == e.rx.ack()
            &&& c.entity == n.local_entity()
        }),
{
    reveal(NetworkView::clock_datagrams);
    let r = reliable::retransmission(k, e.tx.pending[k]);
    let j = lemma_due_is_listed(e.tx.pending, now, k);
    lemma_packet(n, wire::KIND_MSG, r.options, r.seq, e.rx.ack(), r.payload);
    let again = n.repeats(e, reliable::due_list(e.tx.pending, now));
    assert(again.len() > 0);
    assert(n.clock_datagrams(e, now) == again);
    assert(again[j] == OutboundView {
        ip: e.ip,
        udp_port: e.udp_port,
        data: n.packet(wire::KIND_MSG, r.options, r.seq, e.rx.ack(), r.payload),
    });
    j
}

proof fn lemma_due_is_listed(pending: Map<u32, PendingView>, now: u64, k: u32) -> (j: int)
    requires
        pending.dom().finite(),
        pending.contains_key(k),
        reliable::is_due(pending[k], now),
        pending[k].retries < 8,
    ensures
        ({
            let again = crate::outbound::sendable(reliable::due_list(pending, now));
            0 <= j < again.len() && again[j] == reliable::retransmission(k, pending[k])
        }),
{
    reveal(reliable::due_list);
    let due = reliable::due_numbers(pending, now);
    lemma_ascending_has(due, k);
    let numbers = table::ascending(due);
    let list = reliable::due_list(pending, now);
    let i = choose|i: int| 0 <= i < numbers.len() && numbers[i] == k;
    let r = reliable::retransmission(k, pending[k]);
    assert(list[i] == r);
    assert(list.contains(r));
    lemma_sendable_has(list, r);
    let again = crate::outbound::sendable(list);
    choose|j: int| 0 <= j < again.len() && again[j] == r
}

/// Where nothing is due, an acknowledgement is sent by itself exactly when it is overdue, and
/// nothing else is sent.
pub proof fn acknowledgement_is_sent_alone(n: NetworkView, e: EndpointView, now: u64)
    requires
        fits(n),
        e.tx.wf(),
        forall|k: u32| #[trigger]
            e.tx.pending.contains_key(k) ==> !reliable::is_due(e.tx.pending[k], now),
    ensures
        ({
            let out = n.clock_datagrams(e, now);
            let c = wire::wire_content(out[0].data);
            &&& reliable::is_ack_overdue(e.rx.ack_due_at, now) ==> out.len() == 1 && is_for(
                out[0],
                e,
            ) && c.kind == wire::KIND_ACK && c.ack == e.rx.ack() && c.payload.len() == 0
            &&& !reliable::is_ack_overdue(e.rx.ack_due_at, now) ==> out.len() == 0
        }),
{
    reveal(reliable::due_list);
    reveal(NetworkView::clock_datagrams);
    let due = reliable::due_numbers(e.tx.pending, now);
    assert(due =~= Set::empty());
    assert(table::ascending(due).len() == 0);
    let list = reliable::due_list(e.tx.pending, now);
    assert(list.len() == 0);
    assert(crate::outbound::sendable(list).len() == 0);
    assert(n.repeats(e, list).len() == 0);
    lemma_packet(n, wire::KIND_ACK, 0, 0, e.rx.ack(), Seq::empty());
}

/// What stands where in a datagram: the mark of the format, the kind, the version, the length of
/// the payload, the options, the number, what is acknowledged, and the payload behind them.
pub proof fn datagram_layout(
    network: Seq<u8>,
    entity: Seq<u8>,
    kind: u8,
    options: u32,
    seq: u32,
    ack: u32,
    payload: Seq<u8>,
)
    ensures
        ({
            let p = wire::packet(network, entity, kind, options, seq, ack, payload);
            &&& p.len() == 60 + payload.len()
            &&& p[0] == 0x47 && p[1] == 0x42 && p[2] == 0x46 && p[3] == 0x52
            &&& p[4] == kind && p[5] == 3 && p[6] == 0 && p[7] == 0
            &&& p.subrange(44, 48) == crate::bytes::le(payload.len(), 4)
            &&& p.subrange(48, 52) == crate::bytes::le(options as nat, 4)
            &&& p.subrange(52, 56) == crate::bytes::le(seq as nat, 4)
            &&& p.subrange(56, 60) == crate::bytes::le(ack as nat, 4)
            &&& p.skip(60) == payload
        }),
{
    let p = wire::packet(network, entity, kind, options, seq, ack, payload);
    lemma_le_len(payload.len(), 4);
    lemma_le_len(options as nat, 4);
    lemma_le_len(seq as nat, 4);
    lemma_le_len(ack as nat, 4);
    assert(p.subrange(44, 48) =~= crate::bytes::le(payload.len(), 4));
    assert(p.subrange(48, 52) =~= crate::bytes::le(options as nat, 4));
    assert(p.subrange(52, 56) =~= crate::bytes::le(seq as nat, 4));
    assert(p.subrange(56, 60) =~= crate::bytes::le(ack as nat, 4));
    assert(p.skip(60) =~= payload);
}

proof fn lemma_le_len(n: nat, width: nat)
    ensures
        crate::bytes::le(n, width).len() == width,
    decreases width,
{
    if width > 0 {
        lemma_le_len(n / 256, (width - 1) as nat);
    }
}

}
