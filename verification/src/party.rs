//! A network of peers as one of them sees it: who takes part, what arrives from them and what is
//! sent to them.
use crate::assoc;
use crate::delivery::{Change, ChangeView, Delivery, DeliveryView};
use crate::descriptor;
use crate::descriptor::{Descriptor, DescriptorView};
use crate::lobby_model;
use crate::reliable;
use crate::reliable::{MsgView, Receiver, ReceiverView, RecvMsg, RecvOutcome, Sender, SenderView};
use crate::tally::{Fate, ModeCounts};
use crate::text;
use crate::wire;
use crate::wire::DatagramView;
use vstd::prelude::*;

verus! {

/// How many peers a network takes in.
pub const REMOTE_CAP: usize = 8;

/// How many peers that were heard but not taken in are remembered.
pub const CANDIDATE_CAP: usize = 16;

/// How many messages wait for their sender to be taken in.
pub const FRAME_CAP: usize = 128;

/// How long the broker remembers a member without hearing of it is thrice as long as this, in
/// milliseconds: the peer registers anew as often.
pub const REGISTER_MS: u64 = 10_000;

/// After how long a request for the peers counts as lost.
pub const PEER_POLL_TIMEOUT_MS: u64 = 10_000;

/// For how long messages are held back at most while the title has not heard of their sender.
pub const HOLD_TIMEOUT_MS: u64 = 10_000;

/// How long the transport waits at most between two looks at its socket.
pub const TRANSPORT_POLL_MS: u64 = 2;

/// A peer.
pub struct Endpoint {
    pub entity: String,
    pub uid: u16,
    pub ip: String,
    pub udp_port: u16,
    pub tx: Sender,
    pub rx: Receiver,
}

#[verifier::ext_equal]
pub struct EndpointView {
    pub entity: Seq<char>,
    pub uid: u16,
    pub ip: Seq<char>,
    pub udp_port: u16,
    pub tx: SenderView,
    pub rx: ReceiverView,
}

impl View for Endpoint {
    type V = EndpointView;

    open spec fn view(&self) -> EndpointView {
        EndpointView {
            entity: self.entity@,
            uid: self.uid,
            ip: self.ip@,
            udp_port: self.udp_port,
            tx: self.tx@,
            rx: self.rx@,
        }
    }
}

/// A message that waits for its sender to be taken in.
pub struct Frame {
    pub entity: String,
    pub payload: Vec<u8>,
    pub options: u32,
    pub seq: u32,
}

#[verifier::ext_equal]
pub struct FrameView {
    pub entity: Seq<char>,
    pub payload: Seq<u8>,
    pub options: u32,
    pub seq: u32,
}

impl View for Frame {
    type V = FrameView;

    open spec fn view(&self) -> FrameView {
        FrameView {
            entity: self.entity@,
            payload: self.payload@,
            options: self.options,
            seq: self.seq,
        }
    }
}

/// A peer that was heard or told of, and the address under which it was.
pub struct Peer {
    pub entity: String,
    pub ip: String,
    pub udp_port: u16,
}

#[verifier::ext_equal]
pub struct PeerView {
    pub entity: Seq<char>,
    pub ip: Seq<char>,
    pub udp_port: u16,
}

impl View for Peer {
    type V = PeerView;

    open spec fn view(&self) -> PeerView {
        PeerView { entity: self.entity@, ip: self.ip@, udp_port: self.udp_port }
    }
}

pub open spec fn frames(v: Seq<Frame>) -> Seq<FrameView> {
    v.map_values(|f: Frame| f@)
}

pub open spec fn peers(v: Seq<Peer>) -> Seq<PeerView> {
    v.map_values(|p: Peer| p@)
}

pub open spec fn text_view(s: Option<String>) -> Option<Seq<char>> {
    match s {
        Some(t) => Some(t@),
        None => None,
    }
}

/// A network. Times are in milliseconds.
pub struct Network {
    /// The number by which the library tells its networks apart, whatever their identifiers.
    pub id: u64,
    pub descriptor: Descriptor,
    /// The entity of the local user, where there is one.
    pub local_user: Option<String>,
    /// The local endpoint, where it was created.
    pub local_endpoint: Option<u16>,
    pub remotes: Vec<(String, Endpoint)>,
    /// The network has its socket.
    pub bound: bool,
    pub udp_port: u16,
    pub connect_completed: bool,
    /// When the broker was last told of this peer.
    pub last_register: u64,
    pub pending_rx: Vec<Frame>,
    pub pending_peers: Vec<Peer>,
    /// The title has dealt with the creation of the local endpoint: only then may it hear of
    /// peers.
    pub endpoint_delivered: bool,
    /// The title has dealt with the joining of a peer: only then may it get messages.
    pub peer_delivered: bool,
    /// Since when messages are held back.
    pub hold_start: Option<u64>,
    /// Somebody was heard of whom the broker should be asked.
    pub poll_requested: bool,
    pub poll_inflight: bool,
    pub poll_sent_at: u64,
    pub poll_applied_seq: u64,
    /// How the messages of this network fared.
    pub counts: ModeCounts,
}

#[verifier::ext_equal]
pub struct NetworkView {
    pub id: u64,
    pub descriptor: DescriptorView,
    pub local_user: Option<Seq<char>>,
    pub local_endpoint: Option<u16>,
    pub remotes: Seq<(Seq<char>, EndpointView)>,
    pub bound: bool,
    pub udp_port: u16,
    pub connect_completed: bool,
    pub last_register: u64,
    pub pending_rx: Seq<FrameView>,
    pub pending_peers: Seq<PeerView>,
    pub endpoint_delivered: bool,
    pub peer_delivered: bool,
    pub hold_start: Option<u64>,
    pub poll_requested: bool,
    pub poll_inflight: bool,
    pub poll_sent_at: u64,
    pub poll_applied_seq: u64,
    pub counts: ModeCounts,
}

impl View for Network {
    type V = NetworkView;

    open spec fn view(&self) -> NetworkView {
        NetworkView {
            id: self.id,
            descriptor: self.descriptor@,
            local_user: text_view(self.local_user),
            local_endpoint: self.local_endpoint,
            remotes: assoc::pairs(self.remotes@),
            bound: self.bound,
            udp_port: self.udp_port,
            connect_completed: self.connect_completed,
            last_register: self.last_register,
            pending_rx: frames(self.pending_rx@),
            pending_peers: peers(self.pending_peers@),
            endpoint_delivered: self.endpoint_delivered,
            peer_delivered: self.peer_delivered,
            hold_start: self.hold_start,
            poll_requested: self.poll_requested,
            poll_inflight: self.poll_inflight,
            poll_sent_at: self.poll_sent_at,
            poll_applied_seq: self.poll_applied_seq,
            counts: self.counts,
        }
    }
}

/// What is reported to the title of the way in which a message arrived: guaranteed or not,
/// sequential or not.
pub open spec fn received_options(options: u32) -> u32 {
    options & 3
}

/// An entity as the title is told of it: one with a zero character cannot be told and is `x`.
pub open spec fn told_entity(entity: Seq<char>) -> Seq<char> {
    if entity.contains('\0') { "x"@ } else { entity }
}

/// An entity as the title is told of it.
pub fn tell_entity(entity: &str) -> (r: String)
    ensures
        r@ == told_entity(entity@),
{
    if lobby_model::can_keep(entity) {
        entity.to_owned()
    } else {
        "x".to_owned()
    }
}

/// A peer that was just taken in.
pub open spec fn fresh_endpoint(p: PeerView, uid: u16) -> EndpointView {
    EndpointView {
        entity: told_entity(p.entity),
        uid,
        ip: p.ip,
        udp_port: p.udp_port,
        tx: SenderView { next_gseq: 1, next_bseq: 1, pending: Map::empty() },
        rx: ReceiverView::start(),
    }
}

/// The options of some messages.
pub open spec fn options_of(v: Seq<(u32, u32)>) -> Seq<u32> {
    v.map_values(|c: (u32, u32)| c.1)
}

/// The queue with each of some messages of a peer queued.
pub open spec fn delivering(
    d: DeliveryView,
    network: u64,
    entity: Seq<char>,
    ms: Seq<MsgView>,
) -> DeliveryView
    decreases ms.len(),
{
    if ms.len() == 0 {
        d
    } else {
        delivering(d, network, entity, ms.drop_last()).queueing(
            ChangeView::Message {
                network,
                entity,
                options: received_options(ms.last().options),
                payload: ms.last().payload,
            },
        )
    }
}

impl EndpointView {
    pub open spec fn wf(self) -> bool {
        self.tx.wf() && self.rx.wf()
    }
}

impl NetworkView {
    /// What every operation keeps.
    pub open spec fn wf(self) -> bool {
        &&& self.descriptor.wf()
        &&& assoc::distinct(self.remotes)
        &&& self.remotes.len() <= REMOTE_CAP
        &&& forall|i: int| 0 <= i < self.remotes.len() ==> (#[trigger] self.remotes[i]).1.wf()
        &&& self.pending_peers.len() <= CANDIDATE_CAP
    }

    pub open spec fn local_entity(self) -> Seq<char> {
        match self.local_user {
            Some(e) => e,
            None => Seq::empty(),
        }
    }

    /// Whether a peer was taken in.
    pub open spec fn knows(self, entity: Seq<char>) -> bool {
        assoc::place(self.remotes, entity) is Some
    }

    /// Peers can be taken in: the connection is made, and the title has dealt with the creation of
    /// the local endpoint.
    pub open spec fn admits(self, entity: Seq<char>) -> bool {
        &&& entity.len() > 0
        &&& self.connect_completed
        &&& entity != self.local_entity()
        &&& self.local_endpoint is Some
        &&& self.endpoint_delivered
    }

    /// The network with another value for a peer that it knows.
    pub open spec fn with_remote(self, i: int, e: EndpointView) -> NetworkView {
        NetworkView { remotes: self.remotes.update(i, (self.remotes[i].0, e)), ..self }
    }

    /// A peer that is known was heard under some address, which is its address from now on.
    pub open spec fn moving(self, p: PeerView) -> NetworkView {
        match assoc::place(self.remotes, p.entity) {
            Some(i) if self.admits(p.entity) && p.udp_port != 0 => self.with_remote(
                i,
                EndpointView { ip: p.ip, udp_port: p.udp_port, ..self.remotes[i].1 },
            ),
            _ => self,
        }
    }

    /// A peer is new and can be taken in. `listed` says whether the title has a row for it.
    pub open spec fn takes_in(self, entity: Seq<char>, listed: bool) -> bool {
        self.admits(entity) && !self.knows(entity) && listed && self.remotes.len() < REMOTE_CAP
    }

    /// A peer was told of: one that is known moves, one that is new may be taken in.
    pub open spec fn ensuring(self, p: PeerView, listed: bool, uid: u16) -> NetworkView {
        if self.takes_in(p.entity, listed) {
            NetworkView {
                remotes: self.remotes.push((p.entity, fresh_endpoint(p, uid))),
                ..self
            }
        } else {
            self.moving(p)
        }
    }

    /// A peer that is not known was heard: it is remembered once, as long as there is room.
    pub open spec fn noticing(self, p: PeerView) -> NetworkView {
        if (exists|i: int|
            0 <= i < self.pending_peers.len() && (#[trigger] self.pending_peers[i]).entity
                == p.entity) || self.pending_peers.len() >= CANDIDATE_CAP {
            self
        } else {
            NetworkView { pending_peers: self.pending_peers.push(p), ..self }
        }
    }

    /// A datagram came from some address; an empty one cannot be answered.
    pub open spec fn hearing(self, p: PeerView) -> NetworkView {
        if !self.connect_completed || p.ip.len() == 0 {
            self
        } else if self.knows(p.entity) {
            self.moving(p)
        } else {
            self.noticing(p)
        }
    }

    /// A peer acknowledges what it was sent, and each message that it thereby settles counts; 0
    /// acknowledges nothing.
    pub open spec fn acknowledged(self, entity: Seq<char>, ack: u32) -> NetworkView {
        match assoc::place(self.remotes, entity) {
            Some(i) if ack != 0 => {
                let tx = self.remotes[i].1.tx;
                NetworkView {
                    counts: self.counts.counting_each(
                        options_of(reliable::acked_list(tx.pending, ack)),
                        Fate::Acked,
                    ),
                    ..self.with_remote(
                        i,
                        EndpointView { tx: tx.acked(ack), ..self.remotes[i].1 },
                    )
                }
            },
            _ => self,
        }
    }

    /// A message of a peer that is known goes through its receiver, and what that hands over is
    /// queued for the title. What the receiver made of it counts.
    pub open spec fn taking(self, f: FrameView, d: DeliveryView, now: u64) -> (
        NetworkView,
        DeliveryView,
    ) {
        match assoc::place(self.remotes, f.entity) {
            Some(i) => {
                let e = self.remotes[i].1;
                let (rx, o) = e.rx.receive(
                    f.seq,
                    MsgView { payload: f.payload, options: f.options },
                    now,
                );
                (
                    NetworkView {
                        counts: self.counts.arriving(f.options, rx.last_evicted is Some, o),
                        ..self.with_remote(i, EndpointView { rx, ..e })
                    },
                    delivering(d, self.id, f.entity, reliable::handed_over(o)),
                )
            },
            None => (self, d),
        }
    }

    /// The title may get messages.
    pub open spec fn is_open(self) -> bool {
        self.local_endpoint is Some && self.peer_delivered
    }

    /// The messages that wait are taken in order, up to the first one whose sender is not known.
    pub open spec fn flushing(self, d: DeliveryView, now: u64) -> (NetworkView, DeliveryView)
        decreases self.pending_rx.len(),
    {
        if self.is_open() && self.pending_rx.len() > 0 && self.knows(self.pending_rx[0].entity) {
            let f = self.pending_rx[0];
            let (n, e) = NetworkView {
                pending_rx: self.pending_rx.drop_first(),
                ..self
            }.taking(f, d, now);
            n.flushing(e, now)
        } else {
            (self, d)
        }
    }

    /// A message is kept, in place of the oldest where there is no room.
    pub open spec fn keeping(self, f: FrameView) -> NetworkView {
        NetworkView {
            pending_rx: (if self.pending_rx.len() >= FRAME_CAP {
                self.pending_rx.drop_first()
            } else {
                self.pending_rx
            }).push(f),
            ..self
        }
    }

    /// A message has arrived. It waits until the title may get messages of its sender, and behind
    /// the messages that wait.
    pub open spec fn messaged(self, f: FrameView, d: DeliveryView, now: u64) -> (
        NetworkView,
        DeliveryView,
    ) {
        if !self.knows(f.entity) {
            (NetworkView { poll_requested: true, ..self }.keeping(f), d)
        } else if !self.is_open() {
            (self.keeping(f), d)
        } else if self.pending_rx.len() > 0 {
            NetworkView { pending_rx: self.pending_rx.push(f), ..self }.flushing(d, now)
        } else {
            self.taking(f, d, now)
        }
    }

    /// A datagram has arrived from some address.
    pub open spec fn receiving(
        self,
        g: DatagramView,
        ip: Seq<char>,
        udp_port: u16,
        d: DeliveryView,
        now: u64,
    ) -> (NetworkView, DeliveryView) {
        let n = self.hearing(PeerView { entity: g.entity, ip, udp_port }).acknowledged(
            g.entity,
            g.ack,
        );
        if g.kind == wire::KIND_HELLO {
            (NetworkView { poll_requested: true, ..n }, d)
        } else if g.kind == wire::KIND_MSG {
            n.messaged(
                FrameView {
                    entity: g.entity,
                    payload: g.payload,
                    options: g.options,
                    seq: g.seq,
                },
                d,
                now,
            )
        } else {
            (n, d)
        }
    }
}

/// What is reported to the title of the way in which a message arrived.
pub fn recv_opts_for(options: u32) -> (r: u32)
    ensures
        r == received_options(options),
{
    options & 3
}

/// Queues messages of a peer for the title.
fn deliver_all(d: &mut Delivery, network: u64, entity: &str, ms: Vec<RecvMsg>)
    ensures
        final(d)@ == delivering(old(d)@, network, entity@, reliable::msgs(ms@)),
        old(d)@.wf() ==> final(d)@.wf(),
{
    let ghost all = reliable::msgs(ms@);
    let n: usize = ms.len();
    let mut ms = ms;
    let mut i: usize = 0;
    assert(all.take(0) =~= Seq::empty());
    assert(ms@ =~= ms@.skip(0));
    while i < n
        invariant
            i <= n,
            n == all.len(),
            reliable::msgs(ms@) == all.skip(i as int),
            d@ == delivering(old(d)@, network, entity@, all.take(i as int)),
            old(d)@.wf() ==> d@.wf(),
        decreases n - i,
    {
        assert(reliable::msgs(ms@).len() == n - i);
        let ghost here = reliable::msgs(ms@);
        let m = ms.remove(0);
        assert(m@ == here[0]);
        assert(reliable::msgs(ms@) =~= here.drop_first());
        assert(here.drop_first() =~= all.skip(i + 1));
        assert(all.take(i + 1).drop_last() =~= all.take(i as int));
        let kept = d.queue(
            Change::Message {
                network,
                entity: entity.to_owned(),
                options: recv_opts_for(m.options),
                payload: m.payload,
            },
        );
        i += 1;
    }
    assert(all.take(n as int) =~= all);
}

impl Network {
    /// Puts a peer back into its place.
    fn put_back(&mut self, i: usize, name: String, e: Endpoint, Ghost(before): Ghost<NetworkView>)
        requires
            i < before.remotes.len(),
            name@ == before.remotes[i as int].0,
            old(self)@ == (NetworkView { remotes: before.remotes.remove(i as int), ..before }),
        ensures
            final(self)@ == before.with_remote(i as int, e@),
    {
        assert(self@.remotes.len() == self.remotes@.len());
        let ghost here = self@.remotes;
        self.remotes.insert(i, (name, e));
        assert(self@.remotes =~= here.insert(i as int, (name@, e@)));
        assert(self@.remotes =~= before.with_remote(i as int, e@).remotes);
    }

    fn is_local(&self, entity: &str) -> (r: bool)
        ensures
            r == (entity@ == self@.local_entity()),
    {
        match &self.local_user {
            Some(e) => text::eq(entity, e.as_str()),
            None => {
                assert(entity@.len() == 0 ==> entity@ =~= Seq::empty());
                text::is_empty(entity)
            },
        }
    }

    /// Whether peers can be taken in.
    fn is_ready(&self, entity: &str) -> (r: bool)
        ensures
            r == self@.admits(entity@),
    {
        !text::is_empty(entity) && self.connect_completed && !self.is_local(entity)
            && self.local_endpoint.is_some() && self.endpoint_delivered
    }

    /// A peer that is known was heard under some address.
    fn move_to(&mut self, p: Peer)
        ensures
            final(self)@ == old(self)@.moving(p@),
            old(self)@.wf() ==> final(self)@.wf(),
    {
        if !self.is_ready(p.entity.as_str()) || p.udp_port == 0 {
            return;
        }
        if let Some(i) = assoc::find(&self.remotes, p.entity.as_str()) {
            let ghost before = self@;
            let (name, mut e) = self.remotes.remove(i);
            assert(self@.remotes =~= before.remotes.remove(i as int));
            e.ip = p.ip;
            e.udp_port = p.udp_port;
            self.put_back(i, name, e, Ghost(before));
            proof {
                lemma_with_remote(before, i as int, e@);
            }
        }
    }

    /// A peer was told of. It is taken in where that can be, and then the title hears of it.
    /// Tells whether it was: then the other peers are to be greeted.
    pub fn ensure_remote(&mut self, d: &mut Delivery, p: Peer, listed: bool, uid: u16) -> (r: bool)
        ensures
            r == old(self)@.takes_in(p@.entity, listed),
            final(self)@ == old(self)@.ensuring(p@, listed, uid),
            final(d)@ == (if r {
                old(d)@.queueing(
                    ChangeView::RemoteJoined {
                        network: old(self)@.id,
                        entity: p@.entity,
                        uid,
                    },
                )
            } else {
                old(d)@
            }),
            old(self)@.wf() ==> final(self)@.wf(),
            old(d)@.wf() ==> final(d)@.wf(),
    {
        let known = assoc::find(&self.remotes, p.entity.as_str()).is_some();
        if known || !listed || self.remotes.len() >= REMOTE_CAP || !self.is_ready(
            p.entity.as_str(),
        ) {
            self.move_to(p);
            return false;
        }
        let ghost before = self@;
        let e = Endpoint {
            entity: tell_entity(p.entity.as_str()),
            uid,
            ip: p.ip,
            udp_port: p.udp_port,
            tx: Sender::new(),
            rx: Receiver::new(),
        };
        self.remotes.push((p.entity.clone(), e));
        assert(e@ == fresh_endpoint(p@, uid));
        assert(self@.remotes =~= before.remotes.push((p@.entity, e@)));
        proof {
            assoc::lemma_place(before.remotes, p@.entity);
        }
        let kept = d.queue(Change::RemoteJoined { network: self.id, entity: p.entity, uid });
        true
    }

    /// A peer that is not known was heard.
    pub fn queue_pending_peer(&mut self, p: Peer)
        ensures
            final(self)@ == old(self)@.noticing(p@),
            old(self)@.wf() ==> final(self)@.wf(),
    {
        let ghost waiting = self@.pending_peers;
        let mut i: usize = 0;
        while i < self.pending_peers.len()
            invariant
                i <= self.pending_peers@.len(),
                self@ == old(self)@,
                waiting == self@.pending_peers,
                forall|j: int| 0 <= j < i ==> (#[trigger] waiting[j]).entity != p@.entity,
            decreases self.pending_peers@.len() - i,
        {
            assert(waiting[i as int] == self.pending_peers@[i as int]@);
            if text::eq(self.pending_peers[i].entity.as_str(), p.entity.as_str()) {
                return;
            }
            i += 1;
        }
        if self.pending_peers.len() >= CANDIDATE_CAP {
            return;
        }
        self.pending_peers.push(p);
        assert(self@.pending_peers =~= waiting.push(p@));
    }

    /// A datagram came from some address.
    fn hear(&mut self, entity: &str, ip: &str, udp_port: u16)
        ensures
            final(self)@ == old(self)@.hearing(
                PeerView { entity: entity@, ip: ip@, udp_port },
            ),
            old(self)@.wf() ==> final(self)@.wf(),
    {
        if !self.connect_completed || text::is_empty(ip) {
            return;
        }
        let p = Peer { entity: entity.to_owned(), ip: ip.to_owned(), udp_port };
        if assoc::find(&self.remotes, entity).is_some() {
            self.move_to(p);
        } else {
            self.queue_pending_peer(p);
        }
    }

    /// A peer acknowledges what it was sent.
    fn acknowledge(&mut self, entity: &str, ack: u32)
        ensures
            final(self)@ == old(self)@.acknowledged(entity@, ack),
            old(self)@.wf() ==> final(self)@.wf(),
    {
        if ack == 0 {
            return;
        }
        if let Some(i) = assoc::find(&self.remotes, entity) {
            let ghost before = self@;
            let (name, mut e) = self.remotes.remove(i);
            assert(self@.remotes =~= before.remotes.remove(i as int));
            let cleared = e.tx.on_ack(ack);
            self.put_back(i, name, e, Ghost(before));
            proof {
                lemma_with_remote(before, i as int, e@);
                reliable::acked_report_is(cleared@, before.remotes[i as int].1.tx.pending, ack);
            }
            self.count_acked(&cleared);
        }
    }

    /// Counts messages that were acknowledged.
    fn count_acked(&mut self, cleared: &Vec<(u32, u32)>)
        ensures
            final(self)@ == (NetworkView {
                counts: old(self)@.counts.counting_each(options_of(cleared@), Fate::Acked),
                ..old(self)@
            }),
    {
        let ghost all = options_of(cleared@);
        let mut i: usize = 0;
        assert(all.take(0) =~= Seq::empty());
        while i < cleared.len()
            invariant
                i <= cleared@.len(),
                all == options_of(cleared@),
                self@ == (NetworkView {
                    counts: old(self)@.counts.counting_each(all.take(i as int), Fate::Acked),
                    ..old(self)@
                }),
            decreases cleared@.len() - i,
        {
            assert(all.take(i + 1).drop_last() =~= all.take(i as int));
            self.counts.count(cleared[i].1, Fate::Acked);
            i += 1;
        }
        assert(all.take(i as int) =~= all);
    }

    /// A message goes through the receiver of its sender, and what that hands over is queued for
    /// the title.
    pub fn deliver_reliable(&mut self, d: &mut Delivery, f: Frame, now: u64)
        ensures
            final(self)@ == old(self)@.taking(f@, old(d)@, now).0,
            final(d)@ == old(self)@.taking(f@, old(d)@, now).1,
            old(self)@.wf() ==> final(self)@.wf(),
            old(d)@.wf() ==> final(d)@.wf(),
    {
        if let Some(i) = assoc::find(&self.remotes, f.entity.as_str()) {
            let ghost before = self@;
            let (name, mut e) = self.remotes.remove(i);
            assert(self@.remotes =~= before.remotes.remove(i as int));
            let outcome = e.rx.on_message(f.seq, f.options, f.payload, now);
            let evicted = e.rx.last_evicted.is_some();
            self.put_back(i, name, e, Ghost(before));
            proof {
                lemma_with_remote(before, i as int, e@);
            }
            self.counts.count_arrival(f.options, evicted, &outcome);
            if let RecvOutcome::Delivered(ms) = outcome {
                deliver_all(d, self.id, f.entity.as_str(), ms);
            }
        }
    }

    /// Takes the messages that wait, in order, up to the first one whose sender is not known.
    pub fn flush_pending_rx(&mut self, d: &mut Delivery, now: u64)
        ensures
            final(self)@ == old(self)@.flushing(old(d)@, now).0,
            final(d)@ == old(self)@.flushing(old(d)@, now).1,
            old(self)@.wf() ==> final(self)@.wf(),
            old(d)@.wf() ==> final(d)@.wf(),
    {
        let mut more = true;
        while more
            invariant
                self@.flushing(d@, now) == old(self)@.flushing(old(d)@, now),
                old(self)@.wf() ==> self@.wf(),
                old(d)@.wf() ==> d@.wf(),
                !more ==> self@.flushing(d@, now) == (self@, d@),
            decreases self@.pending_rx.len() + (if more { 1int } else { 0 }),
        {
            let ghost before = self@;
            if self.local_endpoint.is_none() || !self.peer_delivered || self.pending_rx.len() == 0 {
                more = false;
            } else {
                assert(before.pending_rx[0] == self.pending_rx@[0]@);
                if assoc::find(&self.remotes, self.pending_rx[0].entity.as_str()).is_none() {
                    more = false;
                } else {
                    let f = self.pending_rx.remove(0);
                    assert(self@.pending_rx =~= before.pending_rx.drop_first());
                    assert(self@ == NetworkView {
                        pending_rx: before.pending_rx.drop_first(),
                        ..before
                    });
                    self.deliver_reliable(d, f, now);
                }
            }
        }
    }

    /// Keeps a message, in place of the oldest where there is no room.
    fn keep(&mut self, f: Frame)
        ensures
            final(self)@ == old(self)@.keeping(f@),
            old(self)@.wf() ==> final(self)@.wf(),
    {
        let ghost before = self@.pending_rx;
        if self.pending_rx.len() >= FRAME_CAP {
            let old = self.pending_rx.remove(0);
            assert(self@.pending_rx =~= before.drop_first());
        }
        let ghost here = self@.pending_rx;
        self.pending_rx.push(f);
        assert(self@.pending_rx =~= here.push(f@));
    }

    /// A message has arrived.
    fn take_message(&mut self, d: &mut Delivery, f: Frame, now: u64)
        ensures
            final(self)@ == old(self)@.messaged(f@, old(d)@, now).0,
            final(d)@ == old(self)@.messaged(f@, old(d)@, now).1,
            old(self)@.wf() ==> final(self)@.wf(),
            old(d)@.wf() ==> final(d)@.wf(),
    {
        if assoc::find(&self.remotes, f.entity.as_str()).is_none() {
            self.poll_requested = true;
            assert(self@ == NetworkView { poll_requested: true, ..old(self)@ });
            self.keep(f);
        } else if self.local_endpoint.is_none() || !self.peer_delivered {
            self.keep(f);
        } else if self.pending_rx.len() > 0 {
            let ghost before = self@.pending_rx;
            self.pending_rx.push(f);
            assert(self@.pending_rx =~= before.push(f@));
            assert(self@ == NetworkView { pending_rx: before.push(f@), ..old(self)@ });
            self.flush_pending_rx(d, now);
        } else {
            self.deliver_reliable(d, f, now);
        }
    }

    /// A datagram has arrived. Tells whether it was one of this format; another is ignored.
    pub fn on_datagram(
        &mut self,
        d: &mut Delivery,
        data: &[u8],
        ip: &str,
        udp_port: u16,
        now: u64,
    ) -> (r: bool)
        ensures
            r == wire::is_wire(data@),
            (final(self)@, final(d)@) == (if r {
                old(self)@.receiving(wire::wire_content(data@), ip@, udp_port, old(d)@, now)
            } else {
                (old(self)@, old(d)@)
            }),
            old(self)@.wf() ==> final(self)@.wf(),
            old(d)@.wf() ==> final(d)@.wf(),
    {
        match wire::parse_packet(data) {
            None => false,
            Some(g) => {
                self.hear(g.entity.as_str(), ip, udp_port);
                self.acknowledge(g.entity.as_str(), g.ack);
                if g.kind == wire::KIND_HELLO {
                    self.poll_requested = true;
                } else if g.kind == wire::KIND_MSG {
                    self.take_message(
                        d,
                        Frame {
                            entity: g.entity,
                            payload: g.payload,
                            options: g.options,
                            seq: g.seq,
                        },
                        now,
                    );
                }
                true
            },
        }
    }
}

/// Another value for a peer keeps the network well-formed.
proof fn lemma_with_remote(n: NetworkView, i: int, e: EndpointView)
    requires
        0 <= i < n.remotes.len(),
    ensures
        n.wf() && e.wf() ==> n.with_remote(i, e).wf(),
{
}

/// Until the title may get messages, none is queued for it: whatever arrives, the queue stays as
/// it is.
pub proof fn closed_network_keeps_messages(
    n: NetworkView,
    g: DatagramView,
    ip: Seq<char>,
    udp_port: u16,
    d: DeliveryView,
    now: u64,
)
    requires
        !n.is_open(),
    ensures
        n.receiving(g, ip, udp_port, d, now).1 == d,
{
}

/// A peer is taken in once: one that is known is not taken in again, whatever is told of it.
pub proof fn peer_joins_once(n: NetworkView, p: PeerView, listed: bool, uid: u16, again: PeerView)
    requires
        n.takes_in(p.entity, listed),
        again.entity == p.entity,
    ensures
        n.ensuring(p, listed, uid).knows(p.entity),
        !n.ensuring(p, listed, uid).takes_in(again.entity, listed),
{
    let m = n.ensuring(p, listed, uid);
    assoc::lemma_place(n.remotes, p.entity);
    assoc::lemma_place_is(m.remotes, p.entity, n.remotes.len() as int);
}

/// The title hears of a peer only once it has dealt with the creation of the local endpoint.
pub proof fn peers_wait_for_the_endpoint(n: NetworkView, entity: Seq<char>, listed: bool)
    requires
        !n.endpoint_delivered,
    ensures
        !n.takes_in(entity, listed),
{
}

/// A peer that was heard under a new address is sent to at that address from then on.
pub proof fn moved_peer_is_followed(n: NetworkView, p: PeerView)
    requires
        n.admits(p.entity),
        n.knows(p.entity),
        p.udp_port != 0,
    ensures
        assoc::lookup(n.moving(p).remotes, p.entity) is Some,
        assoc::lookup(n.moving(p).remotes, p.entity)->0.ip == p.ip,
        assoc::lookup(n.moving(p).remotes, p.entity)->0.udp_port == p.udp_port,
{
    assoc::lemma_place(n.remotes, p.entity);
    let i = assoc::place(n.remotes, p.entity)->0;
    let m = n.moving(p);
    assert forall|j: int| 0 <= j < i implies (#[trigger] m.remotes[j]).0 != p.entity by {
        assert(m.remotes[j] == n.remotes[j]);
    }
    assoc::lemma_place_is(m.remotes, p.entity, i);
}

}
