//! What a peer sends to the others: messages, repetitions and acknowledgements.
use crate::assoc;
use crate::bytes;
use crate::descriptor;
use crate::party;
use crate::party::{Endpoint, EndpointView, Network, NetworkView};
use crate::reliable;
use crate::reliable::{
    PendingView, ReceiverView, Retransmit, RetransmitView, SenderView,
};
use crate::tally::{Fate, ModeCounts};
use crate::wire;
use vstd::prelude::*;

verus! {

/// A datagram and where it goes.
pub struct Outbound {
    pub ip: String,
    pub udp_port: u16,
    pub data: Vec<u8>,
}

#[verifier::ext_equal]
pub struct OutboundView {
    pub ip: Seq<char>,
    pub udp_port: u16,
    pub data: Seq<u8>,
}

impl View for Outbound {
    type V = OutboundView;

    open spec fn view(&self) -> OutboundView {
        OutboundView { ip: self.ip@, udp_port: self.udp_port, data: self.data@ }
    }
}

pub open spec fn outbounds(v: Seq<Outbound>) -> Seq<OutboundView> {
    v.map_values(|o: Outbound| o@)
}

/// Something to send to each peer.
pub struct Parcel {
    pub kind: u8,
    pub options: u32,
    pub payload: Vec<u8>,
}

#[verifier::ext_equal]
pub struct ParcelView {
    pub kind: u8,
    pub options: u32,
    pub payload: Seq<u8>,
}

impl View for Parcel {
    type V = ParcelView;

    open spec fn view(&self) -> ParcelView {
        ParcelView { kind: self.kind, options: self.options, payload: self.payload@ }
    }
}

/// A receiver whose acknowledgement a packet carries.
pub open spec fn carried(rx: ReceiverView) -> ReceiverView {
    ReceiverView { ack_due_at: None, ..rx }
}

impl EndpointView {
    /// The peer can be sent to. `resolves` says whether its address is one.
    pub open spec fn has_address(self, resolves: bool) -> bool {
        self.udp_port != 0 && resolves
    }

    /// The peer once it was sent something. Messages go through its sender.
    pub open spec fn after_sending(self, p: ParcelView, now: u64) -> EndpointView {
        EndpointView {
            tx: if p.kind == wire::KIND_MSG {
                self.tx.sending(p.payload, p.options, now).0
            } else {
                self.tx
            },
            rx: carried(self.rx),
            ..self
        }
    }

    /// The counts once the peer was sent something: a message counts, and so does one that had to
    /// leave the table of its pending ones for it.
    pub open spec fn counting_sent(self, p: ParcelView, now: u64, c: ModeCounts) -> ModeCounts {
        if p.kind == wire::KIND_MSG {
            match self.tx.sending(p.payload, p.options, now).2 {
                Some((_, options)) => c.counting(p.options, Fate::Sent).counting(
                    options,
                    Fate::Evicted,
                ),
                None => c.counting(p.options, Fate::Sent),
            }
        } else {
            c
        }
    }

    /// The counts once the clock was looked at: each message that was sent again counts.
    #[verifier::opaque]
    pub open spec fn counting_repeated(self, now: u64, c: ModeCounts) -> ModeCounts {
        c.counting_each(
            repeated_options(reliable::due_list(self.tx.pending, now)),
            Fate::Retransmitted,
        )
    }

    /// The number under which the peer is sent something.
    pub open spec fn number_of(self, p: ParcelView, now: u64) -> u32 {
        if p.kind == wire::KIND_MSG {
            self.tx.sending(p.payload, p.options, now).1
        } else {
            0
        }
    }

    /// The peer once the clock was looked at: what is due was sent again, and an acknowledgement
    /// that no packet carried in time was sent by itself.
    #[verifier::opaque]
    pub open spec fn after_clock(self, now: u64) -> EndpointView {
        EndpointView {
            tx: SenderView {
                pending: self.tx.pending.map_values(
                    |p: PendingView| reliable::after_clock(p, now),
                ),
                ..self.tx
            },
            rx: if sendable(reliable::due_list(self.tx.pending, now)).len() > 0
                || reliable::is_ack_overdue(self.rx.ack_due_at, now) {
                carried(self.rx)
            } else {
                self.rx
            },
            ..self
        }
    }
}

/// What is to be sent again of what is due: all that was not given up.
pub open spec fn sendable(v: Seq<RetransmitView>) -> Seq<RetransmitView>
    decreases v.len(),
{
    if v.len() == 0 {
        Seq::empty()
    } else if v.last().gave_up {
        sendable(v.drop_last())
    } else {
        sendable(v.drop_last()).push(v.last())
    }
}

/// The options of what is to be sent again of what is due.
pub open spec fn repeated_options(v: Seq<RetransmitView>) -> Seq<u32> {
    sendable(v).map_values(|r: RetransmitView| r.options)
}

impl NetworkView {
    /// The datagram with these contents from the local user.
    pub open spec fn packet(
        self,
        kind: u8,
        options: u32,
        seq: u32,
        ack: u32,
        payload: Seq<u8>,
    ) -> Seq<u8> {
        wire::packet(
            vstd::utf8::encode_utf8(self.descriptor.id()),
            vstd::utf8::encode_utf8(self.local_entity()),
            kind,
            options,
            seq,
            ack,
            payload,
        )
    }

    /// The network once something was sent to each peer that has an address. A network without a
    /// socket sends nothing.
    pub open spec fn after_sending(self, p: ParcelView, resolves: Seq<bool>, now: u64) -> NetworkView {
        if self.bound {
            NetworkView {
                remotes: Seq::new(
                    self.remotes.len(),
                    |i: int|
                        if self.remotes[i].1.has_address(resolves[i]) {
                            (self.remotes[i].0, self.remotes[i].1.after_sending(p, now))
                        } else {
                            self.remotes[i]
                        },
                ),
                counts: self.counts_sent(p, resolves, now, self.remotes.len()),
                ..self
            }
        } else {
            self
        }
    }

    /// The counts once something was sent to those of the first `k` peers that have an address.
    pub open spec fn counts_sent(
        self,
        p: ParcelView,
        resolves: Seq<bool>,
        now: u64,
        k: nat,
    ) -> ModeCounts
        decreases k,
    {
        if k == 0 {
            self.counts
        } else {
            let before = self.counts_sent(p, resolves, now, (k - 1) as nat);
            let e = self.remotes[k - 1].1;
            if e.has_address(resolves[k - 1]) {
                e.counting_sent(p, now, before)
            } else {
                before
            }
        }
    }

    /// The counts once the clock was looked at for those of the first `k` peers that have an
    /// address.
    pub open spec fn counts_repeated(self, resolves: Seq<bool>, now: u64, k: nat) -> ModeCounts
        decreases k,
    {
        if k == 0 {
            self.counts
        } else {
            let before = self.counts_repeated(resolves, now, (k - 1) as nat);
            let e = self.remotes[k - 1].1;
            if e.has_address(resolves[k - 1]) {
                e.counting_repeated(now, before)
            } else {
                before
            }
        }
    }

    /// The datagrams that carry something to the first `k` peers.
    pub open spec fn datagrams(self, p: ParcelView, resolves: Seq<bool>, now: u64, k: nat) -> Seq<
        OutboundView,
    >
        decreases k,
    {
        if k == 0 || !self.bound {
            Seq::empty()
        } else {
            let before = self.datagrams(p, resolves, now, (k - 1) as nat);
            let e = self.remotes[k - 1].1;
            if e.has_address(resolves[k - 1]) {
                before.push(
                    OutboundView {
                        ip: e.ip,
                        udp_port: e.udp_port,
                        data: self.packet(
                            p.kind,
                            p.options,
                            e.number_of(p, now),
                            e.rx.ack(),
                            p.payload,
                        ),
                    },
                )
            } else {
                before
            }
        }
    }

    /// The datagrams that repeat messages to a peer.
    pub open spec fn repeats(self, e: EndpointView, v: Seq<RetransmitView>) -> Seq<OutboundView> {
        sendable(v).map_values(
            |r: RetransmitView|
                OutboundView {
                    ip: e.ip,
                    udp_port: e.udp_port,
                    data: self.packet(wire::KIND_MSG, r.options, r.seq, e.rx.ack(), r.payload),
                },
        )
    }

    /// The datagrams that the clock calls for to a peer: the repetitions, or the acknowledgement
    /// by itself where there are none and it is overdue.
    #[verifier::opaque]
    pub open spec fn clock_datagrams(self, e: EndpointView, now: u64) -> Seq<OutboundView> {
        let again = self.repeats(e, reliable::due_list(e.tx.pending, now));
        if again.len() == 0 && reliable::is_ack_overdue(e.rx.ack_due_at, now) {
            seq![
                OutboundView {
                    ip: e.ip,
                    udp_port: e.udp_port,
                    data: self.packet(wire::KIND_ACK, 0, 0, e.rx.ack(), Seq::empty()),
                },
            ]
        } else {
            again
        }
    }

    /// The network once the clock was looked at.
    pub open spec fn after_clock(self, resolves: Seq<bool>, now: u64) -> NetworkView {
        if self.bound {
            NetworkView {
                remotes: Seq::new(
                    self.remotes.len(),
                    |i: int|
                        if self.remotes[i].1.has_address(resolves[i]) {
                            (self.remotes[i].0, self.remotes[i].1.after_clock(now))
                        } else {
                            self.remotes[i]
                        },
                ),
                counts: self.counts_repeated(resolves, now, self.remotes.len()),
                ..self
            }
        } else {
            self
        }
    }

    /// The datagrams that the clock calls for to the first `k` peers.
    pub open spec fn all_clock_datagrams(self, resolves: Seq<bool>, now: u64, k: nat) -> Seq<
        OutboundView,
    >
        decreases k,
    {
        if k == 0 || !self.bound {
            Seq::empty()
        } else {
            let before = self.all_clock_datagrams(resolves, now, (k - 1) as nat);
            let e = self.remotes[k - 1].1;
            if e.has_address(resolves[k - 1]) {
                before + self.clock_datagrams(e, now)
            } else {
                before
            }
        }
    }

    /// A timer of this network runs out by a time.
    pub open spec fn has_deadline(self, t: int) -> bool {
        exists|i: int|
            0 <= i < self.remotes.len() && endpoint_deadline((#[trigger] self.remotes[i]).1, t)
    }
}

/// A timer of a peer runs out by a time: a message that was not given up is to be repeated, or an
/// acknowledgement to be sent by itself.
pub open spec fn endpoint_deadline(e: EndpointView, t: int) -> bool {
    ||| exists|k: u32| #[trigger]
        e.tx.pending.contains_key(k) && !e.tx.pending[k].gave_up && reliable::deadline(
            e.tx.pending[k],
        ) <= t
    ||| reliable::ack_deadline(e.rx.ack_due_at) is Some && reliable::ack_deadline(
        e.rx.ack_due_at,
    )->0 <= t
}

/// The identity under which a network sends.
struct Identity {
    id: String,
    entity: Vec<u8>,
}

impl Identity {
    spec fn is_of(self, n: NetworkView) -> bool {
        &&& self.id@ == n.descriptor.id()
        &&& self.entity@ == vstd::utf8::encode_utf8(n.local_entity())
    }

    fn packet(
        &self,
        Ghost(n): Ghost<NetworkView>,
        kind: u8,
        options: u32,
        seq: u32,
        ack: u32,
        payload: &[u8],
    ) -> (r: Vec<u8>)
        requires
            self.is_of(n),
        ensures
            r@ == n.packet(kind, options, seq, ack, payload@),
    {
        wire::wire_packet(self.id.as_str(), self.entity.as_slice(), kind, options, seq, ack, payload)
    }
}

/// Sends something to a peer.
fn send_one(
    e: &mut Endpoint,
    who: &Identity,
    Ghost(n): Ghost<NetworkView>,
    p: &Parcel,
    now: u64,
    counts: &mut ModeCounts,
) -> (r: Outbound)
    requires
        who.is_of(n),
    ensures
        final(e)@ == old(e)@.after_sending(p@, now),
        *final(counts) == old(e)@.counting_sent(p@, now, *old(counts)),
        r@ == (OutboundView {
            ip: old(e)@.ip,
            udp_port: old(e)@.udp_port,
            data: n.packet(
                p@.kind,
                p@.options,
                old(e)@.number_of(p@, now),
                old(e)@.rx.ack(),
                p@.payload,
            ),
        }),
        old(e)@.wf() ==> final(e)@.wf(),
{
    let seq: u32 = if p.kind == wire::KIND_MSG {
        let out = e.tx.send(bytes::copied(p.payload.as_slice()), p.options, now);
        counts.count(p.options, Fate::Sent);
        if let Some((_seq, options)) = out.evicted {
            counts.count(options, Fate::Evicted);
        }
        out.seq
    } else {
        0
    };
    let ack: u32 = e.rx.piggyback_ack();
    let data = who.packet(Ghost(n), p.kind, p.options, seq, ack, p.payload.as_slice());
    Outbound { ip: e.ip.clone(), udp_port: e.udp_port, data }
}

impl Network {
    fn identity(&self) -> (r: Identity)
        requires
            self@.wf(),
        ensures
            r.is_of(self@),
    {
        let entity = match &self.local_user {
            Some(e) => bytes::copied(e.as_str().as_bytes()),
            None => {
                assert(vstd::utf8::encode_utf8(Seq::<char>::empty()) =~= Seq::empty());
                Vec::new()
            },
        };
        Identity { id: self.descriptor.id_str(), entity }
    }

    /// Sends something to each peer that has an address. `resolves` says of each peer, in order,
    /// whether its address is one.
    pub fn send_udp_all(&mut self, p: &Parcel, resolves: &[bool], now: u64) -> (r: Vec<Outbound>)
        requires
            old(self)@.wf(),
            resolves@.len() == old(self)@.remotes.len(),
        ensures
            final(self)@ == old(self)@.after_sending(p@, resolves@, now),
            outbounds(r@) == old(self)@.datagrams(
                p@,
                resolves@,
                now,
                old(self)@.remotes.len(),
            ),
            final(self)@.wf(),
    {
        let mut r: Vec<Outbound> = Vec::new();
        assert(outbounds(r@) =~= Seq::empty());
        if !self.bound {
            return r;
        }
        let who = self.identity();
        let ghost n = self@;
        let ghost after = n.after_sending(p@, resolves@, now);
        let count: usize = self.remotes.len();
        let mut i: usize = 0;
        assert(after.remotes.len() == n.remotes.len());
        assert(n.remotes.len() == count);
        while i < count
            invariant
                i <= count,
                n.bound,
                n.wf(),
                who.is_of(n),
                count == n.remotes.len() == resolves@.len() == self@.remotes.len(),
                after == n.after_sending(p@, resolves@, now),
                self@ == (NetworkView {
                    remotes: self@.remotes,
                    counts: n.counts_sent(p@, resolves@, now, i as nat),
                    ..n
                }),
                forall|j: int| 0 <= j < i ==> self@.remotes[j] == #[trigger] after.remotes[j],
                forall|j: int| i <= j < count ==> self@.remotes[j] == #[trigger] n.remotes[j],
                forall|j: int| 0 <= j < i ==> (#[trigger] self@.remotes[j]).1.wf(),
                outbounds(r@) == n.datagrams(p@, resolves@, now, i as nat),
            decreases count - i,
        {
            let ghost here = self@;
            let ghost sofar = outbounds(r@);
            assert(here.remotes[i as int] == n.remotes[i as int]);
            assert(self.remotes@.len() == self@.remotes.len());
            let (name, mut e) = self.remotes.remove(i);
            assert(self@.remotes =~= here.remotes.remove(i as int));
            assert(e@ == n.remotes[i as int].1);
            if e.udp_port != 0 && resolves[i] {
                let o = send_one(&mut e, &who, Ghost(n), p, now, &mut self.counts);
                r.push(o);
                assert(outbounds(r@) =~= sofar.push(o@));
            }
            self.remotes.insert(i, (name, e));
            assert(self@.remotes =~= here.remotes.update(i as int, (name@, e@)));
            assert(after.remotes[i as int] == (name@, e@));
            i += 1;
        }
        assert(self@.remotes =~= after.remotes);
        proof {
            lemma_same_names(n, after);
        }
        r
    }
}

/// Peers under the same names stay distinct.
proof fn lemma_same_names(n: NetworkView, m: NetworkView)
    requires
        n.wf(),
        m == (NetworkView { remotes: m.remotes, counts: m.counts, ..n }),
        n.remotes.len() == m.remotes.len(),
        forall|i: int| 0 <= i < n.remotes.len() ==> (#[trigger] m.remotes[i]).0 == n.remotes[i].0,
        forall|i: int| 0 <= i < n.remotes.len() ==> (#[trigger] m.remotes[i]).1.wf(),
    ensures
        m.wf(),
{
    assert forall|i: int, j: int| 0 <= i < j < m.remotes.len() implies (#[trigger] m.remotes[i]).0
        != (#[trigger] m.remotes[j]).0 by {
        assert(n.remotes[i].0 != n.remotes[j].0);
    }
}

/// Repeats messages to a peer.
fn repeat_all(
    e: &mut Endpoint,
    who: &Identity,
    Ghost(n): Ghost<NetworkView>,
    report: Vec<Retransmit>,
    out: &mut Vec<Outbound>,
    counts: &mut ModeCounts,
) -> (sent: bool)
    requires
        who.is_of(n),
    ensures
        ({
            let v = report@.map_values(|r: Retransmit| r@);
            &&& outbounds(final(out)@) == outbounds(old(out)@) + n.repeats(old(e)@, v)
            &&& sent == (sendable(v).len() > 0)
            &&& *final(counts) == old(counts).counting_each(
                repeated_options(v),
                Fate::Retransmitted,
            )
            &&& final(e)@ == (if sent {
                EndpointView { rx: carried(old(e)@.rx), ..old(e)@ }
            } else {
                old(e)@
            })
        }),
{
    let ghost v = report@.map_values(|r: Retransmit| r@);
    let mut sent = false;
    let mut i: usize = 0;
    assert(v.take(0) =~= Seq::empty());
    assert(outbounds(out@) =~= outbounds(old(out)@) + n.repeats(old(e)@, v.take(0)));
    assert(repeated_options(v.take(0)) =~= Seq::empty());
    while i < report.len()
        invariant
            i <= report@.len(),
            v == report@.map_values(|r: Retransmit| r@),
            who.is_of(n),
            outbounds(out@) == outbounds(old(out)@) + n.repeats(old(e)@, v.take(i as int)),
            sent == (sendable(v.take(i as int)).len() > 0),
            *counts == old(counts).counting_each(
                repeated_options(v.take(i as int)),
                Fate::Retransmitted,
            ),
            e@ == (if sent {
                EndpointView { rx: carried(old(e)@.rx), ..old(e)@ }
            } else {
                old(e)@
            }),
        decreases report@.len() - i,
    {
        let ghost here = v.take(i as int);
        let ghost next = v.take(i + 1);
        assert(next.drop_last() =~= here);
        assert(next.last() == report@[i as int]@);
        if !report[i].gave_up {
            let ghost sofar = outbounds(out@);
            let ack: u32 = e.rx.piggyback_ack();
            let data = who.packet(
                Ghost(n),
                wire::KIND_MSG,
                report[i].options,
                report[i].seq,
                ack,
                report[i].payload.as_slice(),
            );
            let o = Outbound { ip: e.ip.clone(), udp_port: e.udp_port, data };
            out.push(o);
            sent = true;
            counts.count(report[i].options, Fate::Retransmitted);
            assert(repeated_options(next) =~= repeated_options(here).push(report@[i as int].options));
            assert(repeated_options(next).drop_last() =~= repeated_options(here));
            assert(outbounds(out@) =~= sofar.push(o@));
            assert(n.repeats(old(e)@, next) =~= n.repeats(old(e)@, here).push(o@));
            assert(outbounds(out@) =~= outbounds(old(out)@) + n.repeats(old(e)@, next));
        }
        i += 1;
    }
    assert(v.take(i as int) =~= v);
    sent
}

/// Looking at the clock keeps a peer well-formed.
proof fn lemma_clock_wf(e: EndpointView, now: u64)
    requires
        e.wf(),
    ensures
        e.after_clock(now).wf(),
{
    reveal(EndpointView::after_clock);
    let before = e.tx.pending;
    let after = e.after_clock(now).tx.pending;
    assert(after.dom() =~= before.dom());
    assert forall|k: u32| #[trigger] after.contains_key(k) implies reliable::on_schedule(
        after[k],
    ) by {
        assert(before.contains_key(k));
        reliable::retry_keeps_schedule(before[k], now);
    }
}

/// Looks at the clock for a peer.
fn service_one(
    e: &mut Endpoint,
    who: &Identity,
    Ghost(n): Ghost<NetworkView>,
    now: u64,
    out: &mut Vec<Outbound>,
    counts: &mut ModeCounts,
)
    requires
        who.is_of(n),
    ensures
        final(e)@ == old(e)@.after_clock(now),
        *final(counts) == old(e)@.counting_repeated(now, *old(counts)),
        outbounds(final(out)@) == outbounds(old(out)@) + n.clock_datagrams(old(e)@, now),
{
    let ghost before = e@;
    let report = e.tx.due(now);
    proof {
        reveal(EndpointView::after_clock);
        reveal(EndpointView::counting_repeated);
        reveal(NetworkView::clock_datagrams);
        reliable::due_report_is(report@, before.tx.pending, now);
    }
    let sent = repeat_all(e, who, Ghost(n), report, out, counts);
    let ghost sofar = outbounds(out@);
    match e.rx.forced_ack(now) {
        Some(ack) => {
            let data = who.packet(Ghost(n), wire::KIND_ACK, 0, 0, ack, Vec::new().as_slice());
            let o = Outbound { ip: e.ip.clone(), udp_port: e.udp_port, data };
            out.push(o);
            assert(outbounds(out@) =~= sofar.push(o@));
            assert(!sent);
            assert(n.repeats(before, reliable::due_list(before.tx.pending, now))
                =~= Seq::empty());
            assert(o@.data == n.packet(wire::KIND_ACK, 0, 0, ack, Seq::empty()));
            assert(outbounds(out@) =~= outbounds(old(out)@) + n.clock_datagrams(before, now));
        },
        None => {
            assert(outbounds(out@) =~= outbounds(old(out)@) + n.clock_datagrams(before, now));
        },
    }
    assert(e@.tx == before.after_clock(now).tx);
    assert(e@ == before.after_clock(now));
}

impl Network {
    /// Looks at the clock for one peer.
    fn service_at(
        &mut self,
        i: usize,
        who: &Identity,
        Ghost(n): Ghost<NetworkView>,
        resolves: bool,
        now: u64,
        out: &mut Vec<Outbound>,
    )
        requires
            who.is_of(n),
            i < old(self)@.remotes.len(),
        ensures
            ({
                let e = old(self)@.remotes[i as int].1;
                let served = e.has_address(resolves);
                &&& final(self)@ == (NetworkView {
                    counts: if served {
                        e.counting_repeated(now, old(self)@.counts)
                    } else {
                        old(self)@.counts
                    },
                    ..old(self)@.with_remote(
                        i as int,
                        if served { e.after_clock(now) } else { e },
                    )
                })
                &&& outbounds(final(out)@) == outbounds(old(out)@) + (if served {
                    n.clock_datagrams(e, now)
                } else {
                    Seq::empty()
                })
            }),
    {
        let ghost here = self@;
        assert(self.remotes@.len() == self@.remotes.len());
        let (name, mut e) = self.remotes.remove(i);
        assert(self@.remotes =~= here.remotes.remove(i as int));
        assert(e@ == here.remotes[i as int].1);
        if e.udp_port != 0 && resolves {
            service_one(&mut e, who, Ghost(n), now, out, &mut self.counts);
        } else {
            assert(outbounds(out@) =~= outbounds(out@) + Seq::empty());
        }
        self.remotes.insert(i, (name, e));
        assert(self@.remotes =~= here.remotes.update(i as int, (name@, e@)));
    }

    /// Looks at the clock: repeats what is due to each peer that has an address, and sends the
    /// acknowledgements that no packet carried in time.
    pub fn reliable_service(&mut self, resolves: &[bool], now: u64) -> (r: Vec<Outbound>)
        requires
            old(self)@.wf(),
            resolves@.len() == old(self)@.remotes.len(),
        ensures
            final(self)@ == old(self)@.after_clock(resolves@, now),
            outbounds(r@) == old(self)@.all_clock_datagrams(
                resolves@,
                now,
                old(self)@.remotes.len(),
            ),
            final(self)@.wf(),
    {
        let mut r: Vec<Outbound> = Vec::new();
        assert(outbounds(r@) =~= Seq::empty());
        if !self.bound {
            return r;
        }
        let who = self.identity();
        let ghost n = self@;
        let ghost after = n.after_clock(resolves@, now);
        let count: usize = self.remotes.len();
        let mut i: usize = 0;
        assert(after.remotes.len() == n.remotes.len());
        assert(n.remotes.len() == count);
        while i < count
            invariant
                i <= count,
                n.bound,
                who.is_of(n),
                count == n.remotes.len() == resolves@.len() == self@.remotes.len(),
                after == n.after_clock(resolves@, now),
                self@ == (NetworkView {
                    remotes: self@.remotes,
                    counts: n.counts_repeated(resolves@, now, i as nat),
                    ..n
                }),
                forall|j: int| 0 <= j < i ==> self@.remotes[j] == #[trigger] after.remotes[j],
                forall|j: int| i <= j < count ==> self@.remotes[j] == #[trigger] n.remotes[j],
                outbounds(r@) == n.all_clock_datagrams(resolves@, now, i as nat),
            decreases count - i,
        {
            let ghost here = self@;
            let ghost sofar = outbounds(r@);
            assert(here.remotes[i as int] == n.remotes[i as int]);
            self.service_at(i, &who, Ghost(n), resolves[i], now, &mut r);
            assert(self@.remotes[i as int] == after.remotes[i as int]);
            assert(outbounds(r@) =~= n.all_clock_datagrams(resolves@, now, (i + 1) as nat));
            i += 1;
        }
        assert(self@.remotes =~= after.remotes);
        proof {
            assert forall|j: int| 0 <= j < n.remotes.len() implies (
            #[trigger] after.remotes[j]).1.wf() by {
                assert(n.remotes[j].1.wf());
                lemma_clock_wf(n.remotes[j].1, now);
            }
            lemma_same_names(n, after);
        }
        r
    }

    /// Whether a timer of this network runs out by a time.
    fn deadline_by(&self, t: u64) -> (r: bool)
        ensures
            r == self@.has_deadline(t as int),
    {
        let mut i: usize = 0;
        while i < self.remotes.len()
            invariant
                i <= self.remotes@.len(),
                forall|j: int|
                    0 <= j < i ==> !endpoint_deadline((#[trigger] self@.remotes[j]).1, t as int),
            decreases self.remotes@.len() - i,
        {
            let e = &self.remotes[i].1;
            assert(self@.remotes[i as int].1 == e@);
            if let Some(at) = e.tx.next_rto_ms() {
                if at <= t {
                    proof {
                        let k = choose|k: u32| #[trigger]
                            e@.tx.pending.contains_key(k) && !e@.tx.pending[k].gave_up
                                && reliable::deadline(e@.tx.pending[k]) == at;
                        assert(e@.tx.pending.contains_key(k));
                    }
                    assert(endpoint_deadline(self@.remotes[i as int].1, t as int));
                    return true;
                }
            }
            if let Some(at) = e.rx.next_ack_due_ms() {
                if at <= t {
                    assert(endpoint_deadline(self@.remotes[i as int].1, t as int));
                    return true;
                }
            }
            i += 1;
        }
        false
    }
}

/// The models of some networks.
pub open spec fn networks(v: Seq<Network>) -> Seq<NetworkView> {
    v.map_values(|n: Network| n@)
}

/// How long the transport may wait before it looks at its timers again: one millisecond where one
/// has run out or is about to, else as long as it waits at most.
pub fn next_transport_wait_ms(v: &Vec<Network>, now: u64) -> (r: u64)
    ensures
        r == (if exists|i: int|
            0 <= i < v@.len() && (#[trigger] networks(v@)[i]).has_deadline(now + 1) {
            1
        } else {
            party::TRANSPORT_POLL_MS
        }),
{
    let mut i: usize = 0;
    while i < v.len()
        invariant
            i <= v@.len(),
            forall|j: int|
                0 <= j < i ==> !(#[trigger] networks(v@)[j]).has_deadline(now + 1),
        decreases v@.len() - i,
    {
        assert(networks(v@)[i as int] == v@[i as int]@);
        let soon = if now < u64::MAX {
            v[i].deadline_by(now + 1)
        } else {
            let r = v[i].deadline_by(now);
            proof {
                lemma_last_deadline(v@[i as int]@, now);
            }
            r
        };
        if soon {
            return 1;
        }
        i += 1;
    }
    party::TRANSPORT_POLL_MS
}

/// No deadline lies beyond the end of the clock.
proof fn lemma_last_deadline(n: NetworkView, now: u64)
    requires
        now == u64::MAX,
    ensures
        n.has_deadline(now as int) == n.has_deadline(now + 1),
{
    if n.has_deadline(now + 1) {
        let i = choose|i: int|
            0 <= i < n.remotes.len() && endpoint_deadline((#[trigger] n.remotes[i]).1, now + 1);
        assert(endpoint_deadline(n.remotes[i].1, now as int));
    }
    if n.has_deadline(now as int) {
        let i = choose|i: int|
            0 <= i < n.remotes.len() && endpoint_deadline((#[trigger] n.remotes[i]).1, now as int);
        assert(endpoint_deadline(n.remotes[i].1, now + 1));
    }
}

/// A network without a socket sends nothing, and nothing becomes of its peers.
pub proof fn unbound_network_is_silent(
    n: NetworkView,
    p: ParcelView,
    resolves: Seq<bool>,
    now: u64,
    k: nat,
)
    requires
        !n.bound,
    ensures
        n.datagrams(p, resolves, now, k).len() == 0,
        n.all_clock_datagrams(resolves, now, k).len() == 0,
        n.after_sending(p, resolves, now) == n,
        n.after_clock(resolves, now) == n,
{
}

/// Where a name stands depends on the names alone.
proof fn lemma_same_place(
    a: Seq<(Seq<char>, EndpointView)>,
    b: Seq<(Seq<char>, EndpointView)>,
    name: Seq<char>,
)
    requires
        a.len() == b.len(),
        forall|i: int| 0 <= i < a.len() ==> (#[trigger] a[i]).0 == b[i].0,
    ensures
        assoc::place(a, name) == assoc::place(b, name),
    decreases a.len(),
{
    if a.len() > 0 {
        assert(a[0].0 == b[0].0);
        assert forall|i: int| 0 <= i < a.len() - 1 implies (#[trigger] a.drop_first()[i]).0
            == b.drop_first()[i].0 by {
            assert(a[i + 1].0 == b[i + 1].0);
        }
        lemma_same_place(a.drop_first(), b.drop_first(), name);
    }
}

/// A message that one peer sends goes through the receiver of the other, with the options and the
/// number that it was sent with, and its acknowledgement reaches the sender there: between the two
/// stands only the wire.
pub proof fn sent_message_is_received(
    a: NetworkView,
    to: EndpointView,
    p: ParcelView,
    sent_at: u64,
    b: NetworkView,
    from: party::PeerView,
    d: crate::delivery::DeliveryView,
    now: u64,
)
    requires
        p.kind == wire::KIND_MSG,
        p.payload.len() <= wire::MAX_PAYLOAD,
        vstd::utf8::encode_utf8(a.local_entity()).len() <= wire::ENTITY_ROOM,
        forall|i: int|
            0 <= i < vstd::utf8::encode_utf8(a.local_entity()).len()
                ==> vstd::utf8::encode_utf8(a.local_entity())[i] != 0,
        from.entity == a.local_entity(),
        b.knows(from.entity),
        b.is_open(),
        b.pending_rx.len() == 0,
    ensures
        ({
            let number = to.number_of(p, sent_at);
            let data = a.packet(p.kind, p.options, number, to.rx.ack(), p.payload);
            &&& wire::is_wire(data)
            &&& b.receiving(wire::wire_content(data), from.ip, from.udp_port, d, now)
                == b.hearing(from).acknowledged(from.entity, to.rx.ack()).taking(
                party::FrameView {
                    entity: from.entity,
                    payload: p.payload,
                    options: p.options,
                    seq: number,
                },
                d,
                now,
            )
        }),
{
    wire::packet_reads_back(
        vstd::utf8::encode_utf8(a.descriptor.id()),
        vstd::utf8::encode_utf8(a.local_entity()),
        p.kind,
        p.options,
        to.number_of(p, sent_at),
        to.rx.ack(),
        p.payload,
    );
    bytes::text_reads_back(a.local_entity());
    assoc::lemma_place(b.remotes, from.entity);
    let heard = b.hearing(from);
    lemma_same_place(b.remotes, heard.remotes, from.entity);
    let n = heard.acknowledged(from.entity, to.rx.ack());
    lemma_same_place(heard.remotes, n.remotes, from.entity);
    assert(n.knows(from.entity));
    let data = a.packet(p.kind, p.options, to.number_of(p, sent_at), to.rx.ack(), p.payload);
    let g = wire::wire_content(data);
    assert(party::PeerView { entity: g.entity, ip: from.ip, udp_port: from.udp_port } == from);
}

}
