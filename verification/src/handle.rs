//! All that one title has of the library: its users and networks, the changes that it is owed, and
//! what waits to be sent or asked.
use crate::broker_queue;
use crate::broker_queue::{BrokerTask, PollResult, ResultView, TaskView};
use crate::delivery;
use crate::delivery::{Change, ChangeView, Delivery, DeliveryView, Returned};
use crate::descriptor;
use crate::descriptor::{Descriptor, DescriptorView, Ip4};
use crate::outbound;
use crate::outbound::{Parcel, ParcelView};
use crate::party;
use crate::party::{EndpointView, Network, NetworkView, Peer, PeerView};
use crate::reliable::{Receiver, ReceiverView, SenderView};
use crate::tally::ModeCounts;
use crate::text;
use crate::wire;
use vstd::prelude::*;

verus! {

/// How often the broker is asked who takes part, in milliseconds.
pub const POLL_MS: u64 = 200;

/// How many jobs are sent in one go.
pub const OUTBOX_BATCH: usize = 128;

/// How many networks the title is shown.
pub const SHOWN_NETWORKS: u32 = 8;

/// The next numbers of users, endpoints, networks and requests. They go on over all handles of a process.
#[derive(Clone, Copy, PartialEq, Eq, Structural)]
pub struct Counters {
    pub user: u64,
    pub uid: u16,
    pub network: u64,
    pub poll: u64,
}

/// Something to send to the peers of a network.
pub struct OutJob {
    pub network: u64,
    pub parcel: Parcel,
}

#[verifier::ext_equal]
pub struct JobView {
    pub network: u64,
    pub parcel: ParcelView,
}

impl View for OutJob {
    type V = JobView;

    open spec fn view(&self) -> JobView {
        JobView { network: self.network, parcel: self.parcel@ }
    }
}

pub open spec fn jobs(v: Seq<OutJob>) -> Seq<JobView> {
    v.map_values(|j: OutJob| j@)
}

/// The greeting of a network's peers.
pub open spec fn greeting(network: u64) -> JobView {
    JobView {
        network,
        parcel: ParcelView { kind: wire::KIND_HELLO, options: 0, payload: Seq::empty() },
    }
}

pub struct Handle {
    /// The users, under their numbers.
    pub users: Vec<(u64, String)>,
    pub networks: Vec<Network>,
    /// The networks that were left. The title may still name them.
    pub left: Vec<Network>,
    pub delivery: Delivery,
    pub last_peer_poll: u64,
    pub counters: Counters,
    /// What waits to be sent.
    pub outbox: Vec<OutJob>,
    /// What waits to be asked of the broker.
    pub requests: Vec<BrokerTask>,
    /// What the broker has replied.
    pub results: Vec<(u64, PollResult)>,
}

#[verifier::ext_equal]
pub struct HandleView {
    pub users: Seq<(u64, Seq<char>)>,
    pub networks: Seq<NetworkView>,
    pub left: Seq<NetworkView>,
    pub delivery: DeliveryView,
    pub last_peer_poll: u64,
    pub counters: Counters,
    pub outbox: Seq<JobView>,
    pub requests: Seq<TaskView>,
    pub results: Seq<(u64, ResultView)>,
}

pub open spec fn users(v: Seq<(u64, String)>) -> Seq<(u64, Seq<char>)> {
    v.map_values(|u: (u64, String)| (u.0, u.1@))
}

impl View for Handle {
    type V = HandleView;

    open spec fn view(&self) -> HandleView {
        HandleView {
            users: users(self.users@),
            networks: outbound::networks(self.networks@),
            left: outbound::networks(self.left@),
            delivery: self.delivery@,
            last_peer_poll: self.last_peer_poll,
            counters: self.counters,
            outbox: jobs(self.outbox@),
            requests: broker_queue::tasks(self.requests@),
            results: broker_queue::results(self.results@),
        }
    }
}

/// How long ago something was.
pub open spec fn elapsed(now: u64, then: u64) -> int {
    if now > then { now - then } else { 0 }
}

pub open spec fn next16(n: u16) -> u16 {
    ((n + 1) % 0x1_0000) as u16
}

pub open spec fn next64(n: u64) -> u64 {
    ((n + 1) % 0x1_0000_0000_0000_0000) as u64
}

/// Where a network first stands.
pub open spec fn network_place(v: Seq<NetworkView>, id: u64) -> Option<int>
    decreases v.len(),
{
    if v.len() == 0 {
        None
    } else if v[0].id == id {
        Some(0)
    } else {
        match network_place(v.drop_first(), id) {
            Some(i) => Some(i + 1),
            None => None,
        }
    }
}

/// Where a network with an identifier first stands.
pub open spec fn ident_place(v: Seq<NetworkView>, ident: Seq<char>) -> Option<int>
    decreases v.len(),
{
    if v.len() == 0 {
        None
    } else if v[0].descriptor.id() == ident {
        Some(0)
    } else {
        match ident_place(v.drop_first(), ident) {
            Some(i) => Some(i + 1),
            None => None,
        }
    }
}

/// A network that nobody has joined yet.
pub open spec fn new_network(
    id: u64,
    descriptor: DescriptorView,
    user: Option<Seq<char>>,
    udp_port: u16,
    now: u64,
) -> NetworkView {
    NetworkView {
        id,
        descriptor,
        local_user: user,
        local_endpoint: None,
        remotes: Seq::empty(),
        bound: true,
        udp_port,
        connect_completed: false,
        last_register: now,
        pending_rx: Seq::empty(),
        pending_peers: Seq::empty(),
        endpoint_delivered: false,
        peer_delivered: false,
        hold_start: None,
        poll_requested: false,
        poll_inflight: false,
        poll_sent_at: now,
        poll_applied_seq: 0,
        counts: ModeCounts::nothing(),
    }
}

impl EndpointView {
    /// The peer as if nothing had been exchanged with it.
    pub open spec fn reset(self) -> EndpointView {
        EndpointView {
            tx: SenderView { next_gseq: 1, next_bseq: 1, pending: Map::empty() },
            rx: ReceiverView::start(),
            ..self
        }
    }
}

impl NetworkView {
    /// The registration of the local user with the broker.
    pub open spec fn registration(self, entity: Seq<char>, quiet: bool) -> TaskView {
        TaskView::Register {
            network_id: self.descriptor.id(),
            entity,
            udp_port: self.udp_port,
            quiet,
        }
    }

    /// The broker is to be told again that the local user takes part.
    pub open spec fn must_register(self, now: u64) -> bool {
        self.connect_completed && elapsed(now, self.last_register) >= party::REGISTER_MS
    }

    /// The broker is to be asked who takes part: it was not, or the request counts as lost.
    pub open spec fn must_ask(self, now: u64) -> bool {
        self.connect_completed && !(self.poll_inflight && elapsed(now, self.poll_sent_at)
            < party::PEER_POLL_TIMEOUT_MS)
    }

    /// The network once the broker was told and asked what it is to be.
    pub open spec fn asking(self, now: u64) -> NetworkView {
        NetworkView {
            last_register: if self.must_register(now) { now } else { self.last_register },
            poll_inflight: self.poll_inflight || self.must_ask(now),
            poll_sent_at: if self.must_ask(now) { now } else { self.poll_sent_at },
            ..self
        }
    }

    /// Somebody should be looked for: the network waits for its first peer, or somebody was heard.
    pub open spec fn announces(self) -> bool {
        ||| self.endpoint_delivered && self.remotes.len() == 0 && self.local_endpoint is Some
        ||| self.poll_requested
    }

    /// The title has not yet dealt with the joining of a peer that takes part.
    pub open spec fn owes_peer(self) -> bool {
        self.endpoint_delivered && !self.peer_delivered && self.remotes.len() > 0
    }

    /// The network once it was noted since when messages are held back.
    pub open spec fn holding(self, now: u64) -> NetworkView {
        NetworkView {
            hold_start: if !self.owes_peer() {
                None
            } else if self.hold_start is Some {
                self.hold_start
            } else {
                Some(now)
            },
            ..self
        }
    }

    /// For how long messages have been held back.
    pub open spec fn held_for(self, now: u64) -> int {
        match self.hold_start {
            Some(t) => elapsed(now, t),
            None => 0,
        }
    }

    /// The connection to the network is made.
    pub open spec fn connected(self) -> NetworkView {
        NetworkView { connect_completed: true, ..self }
    }

    /// The network once it was left: without its socket, and as if nothing had been exchanged with
    /// its peers.
    pub open spec fn closed(self) -> NetworkView {
        NetworkView {
            bound: false,
            connect_completed: false,
            remotes: self.remotes.map_values(
                |e: (Seq<char>, EndpointView)| (e.0, e.1.reset()),
            ),
            ..self
        }
    }

    /// A peer as the network hears of it from the broker.
    pub open spec fn told(self, p: PeerView) -> PeerView {
        PeerView { ip: descriptor::peer_address(p.ip, self.descriptor), ..p }
    }
}

/// Messages are to be held back: the title owes some peer's joining, and none of them for too
/// long.
pub open spec fn holds_back(v: Seq<NetworkView>, now: u64) -> bool {
    &&& exists|i: int|
        0 <= i < v.len() && (#[trigger] v[i]).owes_peer() && v[i].held_for(now)
            < party::HOLD_TIMEOUT_MS
    &&& !exists|i: int|
        0 <= i < v.len() && (#[trigger] v[i]).owes_peer() && v[i].held_for(now)
            >= party::HOLD_TIMEOUT_MS
}

impl HandleView {
    /// What every operation keeps.
    pub open spec fn wf(self) -> bool {
        &&& self.delivery.wf()
        &&& forall|i: int| 0 <= i < self.networks.len() ==> (#[trigger] self.networks[i]).wf()
        &&& forall|i: int| 0 <= i < self.left.len() ==> (#[trigger] self.left[i]).wf()
    }

    pub open spec fn with_network(self, i: int, n: NetworkView) -> HandleView {
        HandleView { networks: self.networks.update(i, n), ..self }
    }

    pub open spec fn owing(self, c: ChangeView) -> HandleView {
        HandleView { delivery: self.delivery.queueing(c), ..self }
    }

    pub open spec fn requesting(self, t: TaskView) -> HandleView {
        HandleView { requests: broker_queue::queueing(self.requests, t), ..self }
    }

    pub open spec fn posting(self, j: JobView) -> HandleView {
        HandleView { outbox: self.outbox.push(j), ..self }
    }

    /// A peer was told of to a network. Where it is taken in, the title is owed its joining and
    /// the peers of the network are greeted.
    pub open spec fn ensuring(self, i: int, p: PeerView, listed: Seq<Seq<char>>) -> HandleView {
        let n = self.networks[i];
        let is_listed = listed.contains(p.entity);
        let h = self.with_network(i, n.ensuring(p, is_listed, self.counters.uid));
        if n.takes_in(p.entity, is_listed) {
            HandleView {
                counters: Counters { uid: next16(self.counters.uid), ..self.counters },
                ..h
            }.owing(
                ChangeView::RemoteJoined {
                    network: n.id,
                    entity: p.entity,
                    uid: self.counters.uid,
                },
            ).posting(greeting(n.id))
        } else {
            h
        }
    }

    /// Some peers were told of to a network, one after the other.
    pub open spec fn ensuring_all(self, i: int, ps: Seq<PeerView>, listed: Seq<Seq<char>>) -> HandleView
        decreases ps.len(),
    {
        if ps.len() == 0 {
            self
        } else {
            self.ensuring_all(i, ps.drop_last(), listed).ensuring(i, ps.last(), listed)
        }
    }

    /// A network tells and asks the broker what it is to.
    pub open spec fn asking(self, i: int, now: u64) -> HandleView {
        let n = self.networks[i];
        let told = if n.must_register(now) && n.local_entity().len() > 0 {
            self.requesting(n.registration(n.local_entity(), true))
        } else {
            self
        };
        let asked = if n.must_ask(now) {
            HandleView {
                counters: Counters { poll: next64(self.counters.poll), ..self.counters },
                ..told
            }.requesting(
                TaskView::PollPeers {
                    network_id: n.descriptor.id(),
                    epoch: n.id,
                    seq: self.counters.poll,
                },
            )
        } else {
            told
        };
        asked.with_network(i, n.asking(now))
    }

    /// The first `k` networks tell and ask the broker what they are to.
    pub open spec fn asking_all(self, k: nat, now: u64) -> HandleView
        decreases k,
    {
        if k == 0 {
            self
        } else {
            let h = self.asking_all((k - 1) as nat, now);
            h.with_network(
                k - 1,
                NetworkView { poll_requested: false, ..h.networks[k - 1] },
            ).asking(k - 1, now)
        }
    }

    /// A reply of the broker is applied to the network that asked. One that is not newer than
    /// what was applied before is dropped.
    pub open spec fn applying(self, i: int, listed: Seq<Seq<char>>) -> HandleView {
        let n = self.networks[i];
        match broker_queue::result_for(self.results, n.id) {
            Some(r) if n.connect_completed => {
                let h = HandleView {
                    results: broker_queue::without_result(self.results, n.id),
                    ..self
                };
                if r.seq <= n.poll_applied_seq {
                    h.with_network(i, NetworkView { poll_inflight: false, ..n })
                } else {
                    h.with_network(
                        i,
                        NetworkView { poll_inflight: false, poll_applied_seq: r.seq, ..n },
                    ).ensuring_all(i, r.members.map_values(|p: PeerView| n.told(p)), listed)
                }
            },
            _ => self,
        }
    }

    pub open spec fn applying_all(self, k: nat, listed: Seq<Seq<char>>) -> HandleView
        decreases k,
    {
        if k == 0 {
            self
        } else {
            self.applying_all((k - 1) as nat, listed).applying(k - 1, listed)
        }
    }

    /// The peers that a network has heard are told of to it.
    pub open spec fn draining(self, i: int, listed: Seq<Seq<char>>) -> HandleView {
        let n = self.networks[i];
        self.with_network(i, NetworkView { pending_peers: Seq::empty(), ..n }).ensuring_all(
            i,
            n.pending_peers,
            listed,
        )
    }

    pub open spec fn draining_all(self, k: nat, listed: Seq<Seq<char>>) -> HandleView
        decreases k,
    {
        if k == 0 {
            self
        } else {
            self.draining_all((k - 1) as nat, listed).draining(k - 1, listed)
        }
    }

    /// The broker is to be asked now.
    pub open spec fn must_poll(self, now: u64) -> bool {
        ||| exists|i: int| 0 <= i < self.networks.len() && (#[trigger] self.networks[i]).announces()
        ||| elapsed(now, self.last_peer_poll) > POLL_MS
    }

    /// The numbers of the networks.
    pub open spec fn live(self) -> Seq<u64> {
        self.networks.map_values(|n: NetworkView| n.id)
    }

    /// Before a batch is built: the broker is asked, its replies are applied, and peers that were
    /// heard are told of.
    pub open spec fn refreshed(self, listed: Seq<Seq<char>>, now: u64) -> HandleView {
        let asked = if self.must_poll(now) {
            HandleView { last_peer_poll: now, ..self }.asking_all(self.networks.len(), now)
        } else {
            self
        };
        let swept = HandleView {
            results: broker_queue::live_results(asked.results, asked.live()),
            ..asked
        };
        swept.applying_all(self.networks.len(), listed).draining_all(self.networks.len(), listed)
    }

    /// The title asks for a batch.
    pub open spec fn starting(self, listed: Seq<Seq<char>>, now: u64) -> HandleView {
        let h = self.refreshed(listed, now);
        if h.delivery.outstanding {
            h
        } else {
            let networks = h.networks.map_values(|n: NetworkView| n.holding(now));
            HandleView {
                networks,
                delivery: h.delivery.starting(holds_back(networks, now)),
                ..h
            }
        }
    }
}

/// Whether a text is among others.
fn is_among(v: &Vec<String>, t: &str) -> (r: bool)
    ensures
        r == text::views(v@).contains(t@),
{
    let ghost w = text::views(v@);
    let mut i: usize = 0;
    while i < v.len()
        invariant
            i <= v@.len(),
            w == text::views(v@),
            forall|j: int| 0 <= j < i ==> w[j] != t@,
        decreases v@.len() - i,
    {
        assert(w[i as int] == v@[i as int]@);
        if text::eq(v[i].as_str(), t) {
            return true;
        }
        i += 1;
    }
    false
}

impl Handle {
    /// A peer was told of to a network.
    fn ensure_at(&mut self, i: usize, p: Peer, listed: &Vec<String>)
        requires
            i < old(self)@.networks.len(),
        ensures
            final(self)@ == old(self)@.ensuring(i as int, p@, text::views(listed@)),
            old(self)@.wf() ==> final(self)@.wf(),
    {
        let ghost before = self@;
        assert(self.networks@.len() == self@.networks.len());
        let is_listed = is_among(listed, p.entity.as_str());
        let uid: u16 = self.counters.uid;
        let ghost n0 = self.networks@[i as int]@;
        assert(n0 == before.networks[i as int]);
        let taken = self.networks[i].ensure_remote(&mut self.delivery, p, is_listed, uid);
        assert(self@.networks =~= before.networks.update(i as int, n0.ensuring(p@, is_listed, uid)));
        proof {
            lemma_with_network(before, i as int, self.networks@[i as int]@);
        }
        if taken {
            self.counters.uid = uid.wrapping_add(1);
            let network: u64 = self.networks[i].id;
            self.post_greeting(network);
        }
    }

    /// Has a network's peers greeted.
    fn post_greeting(&mut self, network: u64)
        ensures
            final(self)@ == old(self)@.posting(greeting(network)),
    {
        let ghost before = self@.outbox;
        let j = OutJob {
            network,
            parcel: Parcel { kind: wire::KIND_HELLO, options: 0, payload: Vec::new() },
        };
        assert(j@.parcel.payload =~= Seq::empty());
        self.outbox.push(j);
        assert(self@.outbox =~= before.push(greeting(network)));
    }
}

/// Another value for a network keeps the handle well-formed.
proof fn lemma_with_network(h: HandleView, i: int, n: NetworkView)
    requires
        0 <= i < h.networks.len(),
    ensures
        h.wf() && n.wf() ==> h.with_network(i, n).wf(),
{
}

/// A network is looked up by its number.
proof fn lemma_network_place(v: Seq<NetworkView>, id: u64)
    ensures
        match network_place(v, id) {
            Some(i) => 0 <= i < v.len() && v[i].id == id && forall|j: int|
                0 <= j < i ==> (#[trigger] v[j]).id != id,
            None => forall|j: int| 0 <= j < v.len() ==> (#[trigger] v[j]).id != id,
        },
    decreases v.len(),
{
    if v.len() > 0 && v[0].id != id {
        let r = v.drop_first();
        lemma_network_place(r, id);
        assert forall|j: int| 0 < j < v.len() implies v[j] == r[j - 1] by {}
    }
}

proof fn lemma_network_place_is(v: Seq<NetworkView>, id: u64, i: int)
    requires
        0 <= i < v.len(),
        v[i].id == id,
        forall|j: int| 0 <= j < i ==> (#[trigger] v[j]).id != id,
    ensures
        network_place(v, id) == Some(i),
    decreases i,
{
    if i > 0 {
        lemma_network_place_is(v.drop_first(), id, i - 1);
    }
}

proof fn lemma_ident_place(v: Seq<NetworkView>, ident: Seq<char>)
    ensures
        match ident_place(v, ident) {
            Some(i) => 0 <= i < v.len() && v[i].descriptor.id() == ident && forall|j: int|
                0 <= j < i ==> (#[trigger] v[j]).descriptor.id() != ident,
            None => forall|j: int| 0 <= j < v.len() ==> (#[trigger] v[j]).descriptor.id() != ident,
        },
    decreases v.len(),
{
    if v.len() > 0 && v[0].descriptor.id() != ident {
        let r = v.drop_first();
        lemma_ident_place(r, ident);
        assert forall|j: int| 0 < j < v.len() implies v[j] == r[j - 1] by {}
    }
}

proof fn lemma_ident_place_is(v: Seq<NetworkView>, ident: Seq<char>, i: int)
    requires
        0 <= i < v.len(),
        v[i].descriptor.id() == ident,
        forall|j: int| 0 <= j < i ==> (#[trigger] v[j]).descriptor.id() != ident,
    ensures
        ident_place(v, ident) == Some(i),
    decreases i,
{
    if i > 0 {
        lemma_ident_place_is(v.drop_first(), ident, i - 1);
    }
}

/// Finds a network by its number.
pub fn find_network(v: &Vec<Network>, id: u64) -> (r: Option<usize>)
    ensures
        match r {
            Some(i) => network_place(outbound::networks(v@), id) == Some(i as int) && i < v@.len(),
            None => network_place(outbound::networks(v@), id) is None,
        },
{
    let ghost w = outbound::networks(v@);
    let mut i: usize = 0;
    while i < v.len()
        invariant
            i <= v@.len(),
            w == outbound::networks(v@),
            forall|j: int| 0 <= j < i ==> (#[trigger] w[j]).id != id,
        decreases v@.len() - i,
    {
        assert(w[i as int] == v@[i as int]@);
        if v[i].id == id {
            proof {
                lemma_network_place_is(w, id, i as int);
            }
            return Some(i);
        }
        i += 1;
    }
    proof {
        lemma_network_place(w, id);
    }
    None
}

/// Finds a network by its identifier.
pub fn find_ident(v: &Vec<Network>, ident: &str) -> (r: Option<usize>)
    requires
        forall|i: int| 0 <= i < v@.len() ==> (#[trigger] outbound::networks(v@)[i]).wf(),
    ensures
        match r {
            Some(i) => ident_place(outbound::networks(v@), ident@) == Some(i as int) && i
                < v@.len(),
            None => ident_place(outbound::networks(v@), ident@) is None,
        },
{
    let ghost w = outbound::networks(v@);
    let mut i: usize = 0;
    while i < v.len()
        invariant
            i <= v@.len(),
            w == outbound::networks(v@),
            forall|i: int| 0 <= i < v@.len() ==> (#[trigger] w[i]).wf(),
            forall|j: int| 0 <= j < i ==> (#[trigger] w[j]).descriptor.id() != ident@,
        decreases v@.len() - i,
    {
        assert(w[i as int] == v@[i as int]@);
        if text::eq(v[i].descriptor.id_str().as_str(), ident) {
            proof {
                lemma_ident_place_is(w, ident@, i as int);
            }
            return Some(i);
        }
        i += 1;
    }
    proof {
        lemma_ident_place(w, ident@);
    }
    None
}

impl Handle {
    /// Some peers were told of to a network, one after the other.
    fn ensure_each(&mut self, i: usize, ps: Vec<Peer>, listed: &Vec<String>)
        requires
            i < old(self)@.networks.len(),
        ensures
            final(self)@ == old(self)@.ensuring_all(
                i as int,
                party::peers(ps@),
                text::views(listed@),
            ),
            final(self)@.networks.len() == old(self)@.networks.len(),
            old(self)@.wf() ==> final(self)@.wf(),
    {
        let ghost all = party::peers(ps@);
        let mut ps = ps;
        let n: usize = ps.len();
        let mut k: usize = 0;
        assert(all.take(0) =~= Seq::empty());
        assert(all.skip(0) =~= all);
        while k < n
            invariant
                k <= n,
                n == all.len(),
                i < self@.networks.len(),
                self@.networks.len() == old(self)@.networks.len(),
                party::peers(ps@) == all.skip(k as int),
                self@ == old(self)@.ensuring_all(
                    i as int,
                    all.take(k as int),
                    text::views(listed@),
                ),
                old(self)@.wf() ==> self@.wf(),
            decreases n - k,
        {
            assert(party::peers(ps@).len() == ps@.len());
            let ghost here = party::peers(ps@);
            let p = ps.remove(0);
            assert(here[0] == p@);
            assert(party::peers(ps@) =~= here.drop_first());
            assert(here.drop_first() =~= all.skip(k + 1));
            assert(all.take(k + 1).drop_last() =~= all.take(k as int));
            self.ensure_at(i, p, listed);
            k += 1;
        }
        assert(all.take(n as int) =~= all);
    }

    /// A network tells and asks the broker what it is to.
    fn poll_peers_request(&mut self, i: usize, now: u64)
        requires
            i < old(self)@.networks.len(),
            old(self)@.wf(),
        ensures
            final(self)@ == old(self)@.asking(i as int, now),
            final(self)@.wf(),
    {
        let ghost before = self@;
        let ghost n = before.networks[i as int];
        assert(n == self.networks@[i as int]@);
        assert(n.wf());
        if !self.networks[i].connect_completed {
            assert(before.networks.update(i as int, n) =~= before.networks);
            return;
        }
        if now.saturating_sub(self.networks[i].last_register) >= party::REGISTER_MS {
            let entity = match &self.networks[i].local_user {
                Some(e) => e.clone(),
                None => String::new(),
            };
            assert(entity@ =~= n.local_entity());
            if !text::is_empty(entity.as_str()) {
                let network_id = self.networks[i].descriptor.id_str();
                let udp_port: u16 = self.networks[i].udp_port;
                broker_queue::dispatch_broker(
                    &mut self.requests,
                    BrokerTask::Register { network_id, entity, udp_port, quiet: true },
                );
            }
            self.networks[i].last_register = now;
        }
        if !(self.networks[i].poll_inflight && now.saturating_sub(self.networks[i].poll_sent_at)
            < party::PEER_POLL_TIMEOUT_MS) {
            let seq: u64 = self.counters.poll;
            self.counters.poll = seq.wrapping_add(1);
            let network_id = self.networks[i].descriptor.id_str();
            let epoch: u64 = self.networks[i].id;
            broker_queue::dispatch_broker(
                &mut self.requests,
                BrokerTask::PollPeers { network_id, epoch, seq },
            );
            self.networks[i].poll_inflight = true;
            self.networks[i].poll_sent_at = now;
        }
        assert(self.networks@[i as int]@ == n.asking(now));
        assert(self@.networks =~= before.networks.update(i as int, n.asking(now)));
        assert(self@ == before.asking(i as int, now));
    }
}

/// The title has dealt with a change of a kind in a network.
pub open spec fn dealt_with(v: Seq<Option<Returned>>, kind: u32, network: u64) -> bool {
    exists|i: int|
        0 <= i < v.len() && #[trigger] v[i] == Some(Returned { kind, network: Some(network) })
}

impl NetworkView {
    /// The title has dealt with some changes.
    pub open spec fn noting(self, v: Seq<Option<Returned>>) -> NetworkView {
        NetworkView {
            endpoint_delivered: self.endpoint_delivered || dealt_with(v, 10, self.id),
            peer_delivered: self.peer_delivered || dealt_with(v, 12, self.id),
            ..self
        }
    }
}

impl HandleView {
    /// The title returns a batch.
    pub open spec fn finishing(self, v: Seq<Option<Returned>>) -> HandleView {
        let seen = delivery::looked_at(v);
        HandleView {
            networks: self.networks.map_values(|n: NetworkView| n.noting(seen)),
            left: self.left.map_values(|n: NetworkView| n.noting(seen)),
            delivery: self.delivery.finishing(v),
            ..self
        }
    }
}

/// Whether the title has dealt with a change of a kind in a network.
fn has_dealt_with(v: &[Option<Returned>], kind: u32, network: u64) -> (r: bool)
    ensures
        r == dealt_with(delivery::looked_at(v@), kind, network),
{
    let n: usize = if v.len() <= delivery::RETURN_CAP { v.len() } else { delivery::RETURN_CAP };
    let ghost seen = delivery::looked_at(v@);
    let mut i: usize = 0;
    while i < n
        invariant
            i <= n,
            n == seen.len(),
            n <= v@.len(),
            seen == delivery::looked_at(v@),
            forall|j: int|
                0 <= j < i ==> #[trigger] seen[j] != Some(
                    Returned { kind, network: Some(network) },
                ),
        decreases n - i,
    {
        assert(seen[i as int] == v@[i as int]);
        if let Some(r) = v[i] {
            if r.kind == kind {
                if let Some(id) = r.network {
                    if id == network {
                        return true;
                    }
                }
            }
        }
        i += 1;
    }
    false
}

/// The title has dealt with some changes.
fn note_all(v: &mut Vec<Network>, returned: &[Option<Returned>])
    ensures
        outbound::networks(final(v)@) == outbound::networks(old(v)@).map_values(
            |n: NetworkView| n.noting(delivery::looked_at(returned@)),
        ),
{
    let ghost before = outbound::networks(v@);
    let ghost seen = delivery::looked_at(returned@);
    let mut i: usize = 0;
    while i < v.len()
        invariant
            i <= v@.len(),
            before == outbound::networks(old(v)@),
            before.len() == v@.len(),
            seen == delivery::looked_at(returned@),
            forall|j: int| 0 <= j < i ==> (#[trigger] v@[j])@ == before[j].noting(seen),
            forall|j: int| i <= j < v@.len() ==> (#[trigger] v@[j])@ == before[j],
        decreases v@.len() - i,
    {
        let id: u64 = v[i].id;
        if has_dealt_with(returned, 10, id) {
            v[i].endpoint_delivered = true;
        }
        if has_dealt_with(returned, 12, id) {
            v[i].peer_delivered = true;
        }
        assert(v@[i as int]@ == before[i as int].noting(seen));
        i += 1;
    }
    assert(outbound::networks(v@) =~= before.map_values(|n: NetworkView| n.noting(seen)));
}

/// Notes of each network since when messages are held back. Tells whether they are to be, which
/// is so where some network holds them back and none has for too long.
fn note_holds(v: &mut Vec<Network>, now: u64) -> (r: bool)
    ensures
        outbound::networks(final(v)@) == outbound::networks(old(v)@).map_values(
            |n: NetworkView| n.holding(now),
        ),
        r == holds_back(outbound::networks(final(v)@), now),
{
    let ghost before = outbound::networks(v@);
    let ghost after = before.map_values(|n: NetworkView| n.holding(now));
    let mut holding = false;
    let mut timed_out = false;
    let mut i: usize = 0;
    while i < v.len()
        invariant
            i <= v@.len(),
            before == outbound::networks(old(v)@),
            before.len() == v@.len(),
            after == before.map_values(|n: NetworkView| n.holding(now)),
            forall|j: int| 0 <= j < i ==> (#[trigger] v@[j])@ == after[j],
            forall|j: int| i <= j < v@.len() ==> (#[trigger] v@[j])@ == before[j],
            holding == exists|j: int|
                0 <= j < i && (#[trigger] after[j]).owes_peer() && after[j].held_for(now)
                    < party::HOLD_TIMEOUT_MS,
            timed_out == exists|j: int|
                0 <= j < i && (#[trigger] after[j]).owes_peer() && after[j].held_for(now)
                    >= party::HOLD_TIMEOUT_MS,
        decreases v@.len() - i,
    {
        let owes = v[i].endpoint_delivered && !v[i].peer_delivered && v[i].remotes.len() > 0;
        assert(owes == before[i as int].owes_peer());
        if !owes {
            v[i].hold_start = None;
            assert(!after[i as int].owes_peer());
        } else {
            let start: u64 = match v[i].hold_start {
                Some(t) => t,
                None => now,
            };
            v[i].hold_start = Some(start);
            assert(after[i as int].owes_peer());
            assert(after[i as int].held_for(now) == elapsed(now, start));
            if now.saturating_sub(start) >= party::HOLD_TIMEOUT_MS {
                timed_out = true;
            } else {
                holding = true;
            }
        }
        assert(v@[i as int]@ == after[i as int]);
        i += 1;
    }
    assert(outbound::networks(v@) =~= after);
    holding && !timed_out
}

impl Handle {
    /// Each network tells and asks the broker what it is to.
    fn ask_all(&mut self, now: u64)
        requires
            old(self)@.wf(),
        ensures
            final(self)@ == old(self)@.asking_all(old(self)@.networks.len(), now),
            final(self)@.networks.len() == old(self)@.networks.len(),
            final(self)@.wf(),
    {
        let n: usize = self.networks.len();
        let mut i: usize = 0;
        while i < n
            invariant
                i <= n,
                n == self@.networks.len() == old(self)@.networks.len(),
                self@ == old(self)@.asking_all(i as nat, now),
                self@.wf(),
            decreases n - i,
        {
            let ghost before = self@;
            assert(self.networks@.len() == self@.networks.len());
            assert(before.networks[i as int] == self.networks@[i as int]@);
            self.networks[i].poll_requested = false;
            let ghost quiet = NetworkView { poll_requested: false, ..before.networks[i as int] };
            assert(self@.networks =~= before.networks.update(i as int, quiet));
            assert(self@ == before.with_network(i as int, quiet));
            assert(quiet.wf());
            self.poll_peers_request(i, now);
            i += 1;
        }
    }

    /// Applies a reply of the broker to the network that asked.
    fn poll_peers_apply(&mut self, i: usize, listed: &Vec<String>)
        requires
            i < old(self)@.networks.len(),
            old(self)@.wf(),
        ensures
            final(self)@ == old(self)@.applying(i as int, text::views(listed@)),
            final(self)@.networks.len() == old(self)@.networks.len(),
            final(self)@.wf(),
    {
        let ghost before = self@;
        let ghost n = before.networks[i as int];
        assert(n == self.networks@[i as int]@);
        assert(n.wf());
        if !self.networks[i].connect_completed {
            return;
        }
        let id: u64 = self.networks[i].id;
        if let Some(r) = broker_queue::take_peer_result(&mut self.results, id) {
            self.networks[i].poll_inflight = false;
            if r.seq <= self.networks[i].poll_applied_seq {
                assert(self@.networks =~= before.networks.update(
                    i as int,
                    NetworkView { poll_inflight: false, ..n },
                ));
                return;
            }
            self.networks[i].poll_applied_seq = r.seq;
            let ghost m = NetworkView { poll_inflight: false, poll_applied_seq: r.seq, ..n };
            assert(self@.networks =~= before.networks.update(i as int, m));
            let members = self.networks[i].tell(r.members);
            assert(party::peers(members@) =~= r@.members.map_values(|p: PeerView| n.told(p)));
            self.ensure_each(i, members, listed);
        }
    }

    /// Applies the replies of the broker.
    fn apply_all(&mut self, listed: &Vec<String>)
        requires
            old(self)@.wf(),
        ensures
            final(self)@ == old(self)@.applying_all(
                old(self)@.networks.len(),
                text::views(listed@),
            ),
            final(self)@.networks.len() == old(self)@.networks.len(),
            final(self)@.wf(),
    {
        let n: usize = self.networks.len();
        let mut i: usize = 0;
        while i < n
            invariant
                i <= n,
                n == self@.networks.len() == old(self)@.networks.len(),
                self@ == old(self)@.applying_all(i as nat, text::views(listed@)),
                self@.wf(),
            decreases n - i,
        {
            self.poll_peers_apply(i, listed);
            i += 1;
        }
    }

    /// Tells a network of the peers that it has heard.
    fn drain_pending_peers(&mut self, i: usize, listed: &Vec<String>)
        requires
            i < old(self)@.networks.len(),
            old(self)@.wf(),
        ensures
            final(self)@ == old(self)@.draining(i as int, text::views(listed@)),
            final(self)@.networks.len() == old(self)@.networks.len(),
            final(self)@.wf(),
    {
        let ghost before = self@;
        let ghost n = before.networks[i as int];
        assert(n == self.networks@[i as int]@);
        assert(n.wf());
        let mut ps: Vec<Peer> = Vec::new();
        ps.append(&mut self.networks[i].pending_peers);
        assert(party::peers(ps@) =~= n.pending_peers);
        assert(self.networks@[i as int]@.pending_peers =~= Seq::empty());
        let ghost m = NetworkView { pending_peers: Seq::empty(), ..n };
        assert(self@.networks =~= before.networks.update(i as int, m));
        proof {
            lemma_with_network(before, i as int, m);
        }
        assert(self@ == before.with_network(i as int, m));
        self.ensure_each(i, ps, listed);
    }

    fn drain_all(&mut self, listed: &Vec<String>)
        requires
            old(self)@.wf(),
        ensures
            final(self)@ == old(self)@.draining_all(
                old(self)@.networks.len(),
                text::views(listed@),
            ),
            final(self)@.networks.len() == old(self)@.networks.len(),
            final(self)@.wf(),
    {
        let n: usize = self.networks.len();
        let mut i: usize = 0;
        while i < n
            invariant
                i <= n,
                n == self@.networks.len() == old(self)@.networks.len(),
                self@ == old(self)@.draining_all(i as nat, text::views(listed@)),
                self@.wf(),
            decreases n - i,
        {
            self.drain_pending_peers(i, listed);
            i += 1;
        }
    }

    /// Whether somebody should be looked for at once.
    fn announces(&self) -> (r: bool)
        ensures
            r == exists|i: int|
                0 <= i < self@.networks.len() && (#[trigger] self@.networks[i]).announces(),
    {
        let mut i: usize = 0;
        while i < self.networks.len()
            invariant
                i <= self.networks@.len(),
                forall|j: int| 0 <= j < i ==> !(#[trigger] self@.networks[j]).announces(),
            decreases self.networks@.len() - i,
        {
            let n = &self.networks[i];
            assert(self@.networks[i as int] == n@);
            if (n.endpoint_delivered && n.remotes.len() == 0 && n.local_endpoint.is_some())
                || n.poll_requested {
                assert(self@.networks[i as int].announces());
                return true;
            }
            i += 1;
        }
        false
    }

    /// The numbers of the networks.
    fn live(&self) -> (r: Vec<u64>)
        ensures
            r@ == self@.live(),
    {
        let mut r: Vec<u64> = Vec::new();
        let mut i: usize = 0;
        while i < self.networks.len()
            invariant
                i <= self.networks@.len(),
                r@.len() == i,
                forall|j: int| 0 <= j < i ==> r@[j] == self@.networks[j].id,
            decreases self.networks@.len() - i,
        {
            r.push(self.networks[i].id);
            i += 1;
        }
        assert(r@ =~= self@.live());
        r
    }

    /// Asks the broker where it is time, applies its replies, and tells the networks of the peers
    /// that they have heard. `listed` are the entities that the title has rows for.
    pub fn refresh(&mut self, listed: &Vec<String>, now: u64)
        requires
            old(self)@.wf(),
        ensures
            final(self)@ == old(self)@.refreshed(text::views(listed@), now),
            final(self)@.wf(),
    {
        let announced = self.announces();
        if announced || now.saturating_sub(self.last_peer_poll) > POLL_MS {
            self.last_peer_poll = now;
            assert(self@.networks == old(self)@.networks && self@.left == old(self)@.left);
            assert(self@.wf());
            self.ask_all(now);
        }
        let ghost asked = self@;
        let live = self.live();
        let mut stale: Vec<(u64, PollResult)> = Vec::new();
        stale.append(&mut self.results);
        assert(broker_queue::results(stale@) =~= asked.results);
        self.results = broker_queue::drop_stale_peer_results(stale, &live);
        assert(self@.networks == asked.networks && self@.left == asked.left);
        assert(self@.wf());
        self.apply_all(listed);
        self.drain_all(listed);
    }

    /// The title asks for a batch, which is then in `delivery.in_flight`.
    pub fn start_processing(&mut self, listed: &Vec<String>, now: u64)
        requires
            old(self)@.wf(),
        ensures
            final(self)@ == old(self)@.starting(text::views(listed@), now),
            final(self)@.wf(),
    {
        self.refresh(listed, now);
        let ghost before = self@;
        if !self.delivery.outstanding {
            let hold = note_holds(&mut self.networks, now);
            self.delivery.start(hold);
            proof {
                assert forall|i: int| 0 <= i < self@.networks.len() implies (
                #[trigger] self@.networks[i]).wf() by {
                    assert(before.networks[i].wf());
                    assert(self@.networks[i] == before.networks[i].holding(now));
                }
            }
        }
    }

    /// The title returns a batch. What it has dealt with lets the networks go on.
    pub fn finish_processing(&mut self, returned: &[Option<Returned>])
        requires
            old(self)@.wf(),
        ensures
            final(self)@ == old(self)@.finishing(returned@),
            final(self)@.wf(),
    {
        let ghost before = self@;
        note_all(&mut self.networks, returned);
        note_all(&mut self.left, returned);
        self.delivery.finish(returned);
        proof {
            let seen = delivery::looked_at(returned@);
            assert forall|i: int| 0 <= i < self@.networks.len() implies (
            #[trigger] self@.networks[i]).wf() by {
                assert(before.networks[i].wf());
                assert(self@.networks[i] == before.networks[i].noting(seen));
            }
            assert forall|i: int| 0 <= i < self@.left.len() implies (#[trigger] self@.left[i]).wf() by {
                assert(before.left[i].wf());
                assert(self@.left[i] == before.left[i].noting(seen));
            }
        }
    }
}

impl Network {
    /// The peers as this network hears of them from the broker.
    fn tell(&self, ps: Vec<Peer>) -> (r: Vec<Peer>)
        requires
            self@.wf(),
        ensures
            r@.len() == ps@.len(),
            forall|i: int| 0 <= i < r@.len() ==> (#[trigger] r@[i])@ == self@.told(ps@[i]@),
    {
        let ghost all = ps@;
        let mut ps = ps;
        let mut r: Vec<Peer> = Vec::new();
        assert(all.skip(0) =~= all);
        while ps.len() > 0
            invariant
                self@.wf(),
                r@.len() + ps@.len() == all.len(),
                ps@ == all.skip(r@.len() as int),
                forall|i: int| 0 <= i < r@.len() ==> (#[trigger] r@[i])@ == self@.told(all[i]@),
            decreases ps@.len(),
        {
            let p = ps.remove(0);
            assert(p == all[r@.len() as int]);
            let ip = descriptor::rewrite_peer_ip(p.ip, &self.descriptor);
            r.push(Peer { entity: p.entity, ip, udp_port: p.udp_port });
            assert(ps@ =~= all.skip(r@.len() as int));
        }
        r
    }
}

/// How long before its making a handle counts as having asked the broker, in milliseconds.
pub const FIRST_POLL_MS: u64 = 10_000;

/// A handle that nothing was done with.
pub open spec fn new_handle(now: u64, counters: Counters) -> HandleView {
    HandleView {
        users: Seq::empty(),
        networks: Seq::empty(),
        left: Seq::empty(),
        delivery: delivery::idle(),
        last_peer_poll: if now > FIRST_POLL_MS { (now - FIRST_POLL_MS) as u64 } else { 0 },
        counters,
        outbox: Seq::empty(),
        requests: Seq::empty(),
        results: Seq::empty(),
    }
}

/// The users without one.
pub open spec fn without_user(v: Seq<(u64, Seq<char>)>, id: u64) -> Seq<(u64, Seq<char>)>
    decreases v.len(),
{
    if v.len() == 0 {
        Seq::empty()
    } else if v.last().0 == id {
        without_user(v.drop_last(), id)
    } else {
        without_user(v.drop_last(), id).push(v.last())
    }
}

/// The jobs for a network, or those for the others, in their order.
pub open spec fn jobs_for(v: Seq<JobView>, network: u64, is_for: bool) -> Seq<JobView>
    decreases v.len(),
{
    if v.len() == 0 {
        Seq::empty()
    } else if (v.last().network == network) == is_for {
        jobs_for(v.drop_last(), network, is_for).push(v.last())
    } else {
        jobs_for(v.drop_last(), network, is_for)
    }
}

/// A message that can be sent: to so many peers at most, in so many parts, and neither empty nor
/// too long.
pub open spec fn is_sendable(target_count: u32, part_count: u32, len: nat) -> bool {
    1 <= part_count <= 8 && target_count <= 8 && 1 <= len <= wire::MAX_PAYLOAD
}

impl HandleView {
    /// The user who came last.
    pub open spec fn last_user(self) -> Option<Seq<char>> {
        if self.users.len() > 0 { Some(self.users.last().1) } else { None }
    }

    /// A network is added, under the next number.
    pub open spec fn adding(
        self,
        d: DescriptorView,
        user: Option<Seq<char>>,
        udp_port: u16,
        now: u64,
    ) -> HandleView {
        HandleView {
            networks: self.networks.push(
                new_network(self.counters.network, d, user, udp_port, now),
            ),
            counters: Counters { network: next64(self.counters.network), ..self.counters },
            ..self
        }
    }

    /// A network is created: the broker is told of its user, and the title of the network.
    pub open spec fn creating(
        self,
        ident: Seq<char>,
        user: Option<Seq<char>>,
        udp_port: u16,
        ip: Ip4,
        now: u64,
    ) -> HandleView {
        let d = descriptor::descriptor_of(ident).with_port(udp_port).with_ip(ip);
        let h = self.adding(d, user, udp_port, now);
        let n = h.networks.last();
        (if n.local_entity().len() > 0 {
            h.requesting(n.registration(n.local_entity(), false))
        } else {
            h
        }).owing(ChangeView::NetworkCreated { network: n.id })
    }

    /// The connection to a network is made, of which the title hears once.
    pub open spec fn connecting_at(self, i: int) -> HandleView {
        let n = self.networks[i];
        if n.connect_completed {
            self
        } else {
            self.with_network(i, n.connected()).owing(ChangeView::Connected { network: n.id })
        }
    }

    /// The title connects to the network of a record. One that it has is connected to; else a new
    /// one is added, which needs a socket.
    pub open spec fn connecting(self, d: DescriptorView, socket: Option<u16>, now: u64) -> Option<
        (HandleView, u64),
    > {
        match ident_place(self.networks, d.id()) {
            Some(i) => Some(
                (self.connecting_at(i).asking(i, now), self.networks[i].id),
            ),
            None => match socket {
                Some(udp_port) => {
                    let h = self.adding(d, self.last_user(), udp_port, now);
                    let n = h.networks.last();
                    let told = match n.local_user {
                        Some(e) => h.requesting(n.registration(e, false)),
                        None => h,
                    };
                    let last = self.networks.len() as int;
                    Some(
                        (
                            told.connecting_at(last).asking(last, now).posting(greeting(n.id)),
                            n.id,
                        ),
                    )
                },
                None => None,
            },
        }
    }

    /// A local user is let into a network; one that was left is taken up again.
    pub open spec fn authenticating(self, id: u64) -> HandleView {
        let h = match (network_place(self.networks, id), network_place(self.left, id)) {
            (None, Some(i)) => HandleView {
                networks: self.networks.push(self.left[i]),
                left: self.left.remove(i),
                ..self
            },
            _ => self,
        };
        h.owing(ChangeView::Authenticated { network: id })
    }

    /// The local endpoint of a network is created, and messages that wait may go on.
    pub open spec fn endpoint_creating(self, id: u64, user: Option<Seq<char>>, now: u64) -> HandleView {
        let uid = self.counters.uid;
        let h = HandleView {
            counters: Counters { uid: next16(uid), ..self.counters },
            ..self
        }.owing(ChangeView::EndpointCreated { network: id, uid });
        match (network_place(self.networks, id), network_place(self.left, id)) {
            (Some(i), _) => {
                let n = NetworkView {
                    local_endpoint: Some(uid),
                    local_user: user,
                    ..self.networks[i]
                };
                let (m, d) = n.flushing(h.delivery, now);
                HandleView { delivery: d, ..h.with_network(i, m) }
            },
            (None, Some(i)) => {
                let n = NetworkView {
                    local_endpoint: Some(uid),
                    local_user: user,
                    ..self.left[i]
                };
                let (m, d) = n.flushing(h.delivery, now);
                HandleView { delivery: d, left: self.left.update(i, m), ..h }
            },
            (None, None) => h,
        }
    }

    /// A network is left: the title hears of it, the broker is told, and the network is closed.
    pub open spec fn leaving(self, id: u64) -> HandleView {
        let h = self.owing(ChangeView::NetworkLeft { network: id });
        match network_place(self.networks, id) {
            Some(i) => {
                let n = self.networks[i];
                let told = if n.local_entity().len() > 0 {
                    h.requesting(
                        TaskView::Leave {
                            network_id: n.descriptor.id(),
                            entity: n.local_entity(),
                        },
                    )
                } else {
                    h
                };
                HandleView {
                    networks: self.networks.remove(i),
                    left: self.left.push(n.closed()),
                    ..told
                }
            },
            None => h,
        }
    }
}

/// The entity of an optional user.
fn entity_of(user: &Option<String>) -> (r: String)
    ensures
        r@ == match party::text_view(*user) {
            Some(e) => e,
            None => Seq::empty(),
        },
{
    match user {
        Some(e) => e.clone(),
        None => {
            let r = String::new();
            assert(r@ =~= Seq::empty());
            r
        },
    }
}

impl Network {
    /// A network that nobody has joined yet.
    pub fn new(
        id: u64,
        descriptor: Descriptor,
        user: Option<String>,
        udp_port: u16,
        now: u64,
    ) -> (r: Network)
        requires
            descriptor@.wf(),
        ensures
            r@ == new_network(id, descriptor@, party::text_view(user), udp_port, now),
            r@.wf(),
    {
        let r = Network {
            id,
            descriptor,
            local_user: user,
            local_endpoint: None,
            remotes: Vec::new(),
            bound: true,
            udp_port,
            connect_completed: false,
            last_register: now,
            pending_rx: Vec::new(),
            pending_peers: Vec::new(),
            endpoint_delivered: false,
            peer_delivered: false,
            hold_start: None,
            poll_requested: false,
            poll_inflight: false,
            poll_sent_at: now,
            poll_applied_seq: 0,
            counts: ModeCounts::new(),
        };
        assert(r@.remotes =~= Seq::empty());
        assert(r@.pending_rx =~= Seq::empty());
        assert(r@.pending_peers =~= Seq::empty());
        r
    }

    /// Closes the network: it gives up its socket, and forgets what was exchanged with its peers.
    pub fn close(&mut self)
        ensures
            final(self)@ == old(self)@.closed(),
            old(self)@.wf() ==> final(self)@.wf(),
    {
        let ghost before = self@;
        let ghost after = before.closed();
        let n: usize = self.remotes.len();
        let mut i: usize = 0;
        self.bound = false;
        self.connect_completed = false;
        while i < n
            invariant
                i <= n,
                n == self.remotes@.len() == before.remotes.len(),
                after == before.closed(),
                self@ == (NetworkView {
                    bound: false,
                    connect_completed: false,
                    remotes: self@.remotes,
                    ..before
                }),
                forall|j: int| 0 <= j < i ==> #[trigger] self@.remotes[j] == after.remotes[j],
                forall|j: int| i <= j < n ==> #[trigger] self@.remotes[j] == before.remotes[j],
            decreases n - i,
        {
            let ghost here = self@;
            assert(here.remotes[i as int] == (
                self.remotes@[i as int].0@,
                self.remotes@[i as int].1@,
            ));
            let dropped = self.remotes[i].1.tx.drop_all();
            self.remotes[i].1.rx = Receiver::new();
            assert(self.remotes@[i as int].1@ == before.remotes[i as int].1.reset());
            assert(self@.remotes =~= here.remotes.update(i as int, after.remotes[i as int]));
            i += 1;
        }
        assert(self@.remotes =~= after.remotes);
        proof {
            if before.wf() {
                lemma_closed(before);
            }
        }
    }
}

proof fn lemma_closed(n: NetworkView)
    requires
        n.wf(),
    ensures
        n.closed().wf(),
{
    let m = n.closed();
    assert forall|i: int, j: int| 0 <= i < j < m.remotes.len() implies (#[trigger] m.remotes[i]).0
        != (#[trigger] m.remotes[j]).0 by {
        assert(n.remotes[i].0 != n.remotes[j].0);
    }
}

/// Whether a message can be sent.
pub fn accepts_message(target_count: u32, part_count: u32, len: usize) -> (r: bool)
    ensures
        r == is_sendable(target_count, part_count, len as nat),
{
    1 <= part_count && part_count <= 8 && target_count <= 8 && 1 <= len && len <= wire::MAX_PAYLOAD
}

/// One more change, request or job keeps the handle well-formed.
proof fn lemma_more(h: HandleView, c: ChangeView, t: TaskView, j: JobView)
    ensures
        h.wf() ==> h.owing(c).wf(),
        h.wf() ==> h.requesting(t).wf(),
        h.wf() ==> h.posting(j).wf(),
{
    if h.wf() {
        assert(h.owing(c).networks == h.networks);
        assert(h.requesting(t).networks == h.networks);
        assert(h.posting(j).networks == h.networks);
    }
}

/// The counts of some networks together.
pub open spec fn all_counts(v: Seq<NetworkView>) -> ModeCounts
    decreases v.len(),
{
    if v.len() == 0 {
        ModeCounts::nothing()
    } else {
        all_counts(v.drop_last()).plus(v.last().counts)
    }
}

fn network_counts(v: &Vec<Network>) -> (r: ModeCounts)
    ensures
        r == all_counts(outbound::networks(v@)),
{
    let ghost all = outbound::networks(v@);
    let mut r = ModeCounts::new();
    let mut i: usize = 0;
    while i < v.len()
        invariant
            i <= v@.len(),
            all == outbound::networks(v@),
            r == all_counts(all.take(i as int)),
        decreases v@.len() - i,
    {
        assert(all.take(i + 1).drop_last() =~= all.take(i as int));
        assert(all.take(i + 1).last() == v@[i as int]@);
        r.include_counts(&v[i].counts);
        i += 1;
    }
    assert(all.take(i as int) =~= all);
    r
}

impl Handle {
    pub fn new(now: u64, counters: Counters) -> (r: Handle)
        ensures
            r@ == new_handle(now, counters),
            r@.wf(),
    {
        let r = Handle {
            users: Vec::new(),
            networks: Vec::new(),
            left: Vec::new(),
            delivery: Delivery::new(),
            last_peer_poll: now.saturating_sub(FIRST_POLL_MS),
            counters,
            outbox: Vec::new(),
            requests: Vec::new(),
            results: Vec::new(),
        };
        assert(r@.users =~= Seq::empty());
        assert(r@.networks =~= Seq::empty());
        assert(r@.left =~= Seq::empty());
        assert(r@.outbox =~= Seq::empty());
        assert(r@.requests =~= Seq::empty());
        assert(r@.results =~= Seq::empty());
        r
    }

    /// Adds a local user and gives its number.
    pub fn create_local_user(&mut self, entity: &str) -> (id: u64)
        ensures
            id == old(self)@.counters.user,
            final(self)@ == (HandleView {
                users: old(self)@.users.push((id, entity@)),
                counters: Counters { user: next64(id), ..old(self)@.counters },
                ..old(self)@
            }),
    {
        let ghost before = self@.users;
        let id: u64 = self.counters.user;
        self.counters.user = id.wrapping_add(1);
        self.users.push((id, entity.to_owned()));
        assert(self@.users =~= before.push((id, entity@)));
        id
    }

    /// Removes a local user.
    pub fn destroy_local_user(&mut self, id: u64)
        ensures
            final(self)@ == (HandleView {
                users: without_user(old(self)@.users, id),
                ..old(self)@
            }),
    {
        let ghost all = self@.users;
        let mut rest: Vec<(u64, String)> = Vec::new();
        let n: usize = self.users.len();
        let mut i: usize = 0;
        assert(all.take(0) =~= Seq::empty());
        assert(users(rest@) =~= Seq::empty());
        assert(all.len() == n);
        while i < n
            invariant
                i <= n,
                n == all.len() == self.users@.len(),
                self@ == old(self)@,
                all == self@.users,
                users(rest@) == without_user(all.take(i as int), id),
            decreases n - i,
        {
            assert(all.take(i + 1).drop_last() =~= all.take(i as int));
            assert(all[i as int] == (self.users@[i as int].0, self.users@[i as int].1@));
            if self.users[i].0 != id {
                let ghost sofar = users(rest@);
                rest.push((self.users[i].0, self.users[i].1.clone()));
                assert(users(rest@) =~= sofar.push(all[i as int]));
            }
            i += 1;
        }
        assert(all.take(n as int) =~= all);
        self.users = rest;
    }

    /// Adds a network under the next number.
    fn add(&mut self, d: Descriptor, user: Option<String>, udp_port: u16, now: u64) -> (id: u64)
        requires
            d@.wf(),
            old(self)@.wf(),
        ensures
            final(self)@ == old(self)@.adding(d@, party::text_view(user), udp_port, now),
            id == final(self)@.networks.last().id,
            final(self)@.wf(),
    {
        let ghost before = self@;
        let id: u64 = self.counters.network;
        self.counters.network = id.wrapping_add(1);
        let n = Network::new(id, d, user, udp_port, now);
        self.networks.push(n);
        assert(self@.networks =~= before.networks.push(n@));
        assert forall|i: int| 0 <= i < self@.networks.len() implies (
        #[trigger] self@.networks[i]).wf() by {
            if i < before.networks.len() {
                assert(before.networks[i].wf());
            }
        }
        assert(self@.left == before.left);
        id
    }

    /// The title creates a network. Gives its number.
    pub fn create_new_network(
        &mut self,
        ident: &str,
        user: Option<String>,
        udp_port: u16,
        ip: Ip4,
        now: u64,
    ) -> (id: u64)
        requires
            old(self)@.wf(),
        ensures
            id == old(self)@.counters.network,
            final(self)@ == old(self)@.creating(ident@, party::text_view(user), udp_port, ip, now),
            final(self)@.wf(),
    {
        let mut d = Descriptor::new(ident);
        d.set_port(udp_port);
        d.set_advert_ip(ip);
        let entity = entity_of(&user);
        let network_id = d.id_str();
        let id: u64 = self.add(d, user, udp_port, now);
        let ghost h = self@;
        let ghost n = h.networks.last();
        proof {
            lemma_more(
                h,
                ChangeView::NetworkCreated { network: id },
                n.registration(entity@, false),
                greeting(id),
            );
        }
        if !text::is_empty(entity.as_str()) {
            broker_queue::dispatch_broker(
                &mut self.requests,
                BrokerTask::Register { network_id, entity, udp_port, quiet: false },
            );
        }
        let ghost told = self@;
        proof {
            lemma_more(
                told,
                ChangeView::NetworkCreated { network: id },
                n.registration(entity@, false),
                greeting(id),
            );
        }
        let kept = self.delivery.queue(Change::NetworkCreated { network: id });
        id
    }

    /// The connection to a network is made.
    fn emit_connect_completed(&mut self, i: usize)
        requires
            i < old(self)@.networks.len(),
            old(self)@.wf(),
        ensures
            final(self)@ == old(self)@.connecting_at(i as int),
            final(self)@.networks.len() == old(self)@.networks.len(),
            final(self)@.wf(),
    {
        let ghost before = self@;
        let ghost n = before.networks[i as int];
        assert(n == self.networks@[i as int]@);
        assert(n.wf());
        if self.networks[i].connect_completed {
            return;
        }
        self.networks[i].connect_completed = true;
        assert(self@.networks =~= before.networks.update(i as int, n.connected()));
        assert(self@ == before.with_network(i as int, n.connected()));
        let network: u64 = self.networks[i].id;
        proof {
            lemma_with_network(before, i as int, n.connected());
            lemma_more(
                self@,
                ChangeView::Connected { network },
                n.registration(Seq::empty(), false),
                greeting(network),
            );
        }
        let kept = self.delivery.queue(Change::Connected { network });
    }

    /// The title connects to the network of a record. `socket` is the port of a new socket, where
    /// one could be had; it is used only for a network that the title does not have. Gives the
    /// number of the network.
    pub fn connect_network(&mut self, d: Descriptor, socket: Option<u16>, now: u64) -> (r: Option<
        u64,
    >)
        requires
            d@.wf(),
            old(self)@.wf(),
        ensures
            match r {
                Some(id) => old(self)@.connecting(d@, socket, now) == Some((final(self)@, id)),
                None => old(self)@.connecting(d@, socket, now) is None && final(self)@
                    == old(self)@,
            },
            final(self)@.wf(),
    {
        let ident = d.id_str();
        let ghost before = self@;
        assert(before.networks.len() == self.networks@.len());
        if let Some(i) = find_ident(&self.networks, ident.as_str()) {
            let id: u64 = self.networks[i].id;
            assert(id == before.networks[i as int].id);
            self.emit_connect_completed(i);
            self.poll_peers_request(i, now);
            return Some(id);
        }
        let udp_port: u16 = match socket {
            Some(p) => p,
            None => {
                return None;
            },
        };
        let last: usize = self.networks.len();
        let count: usize = self.users.len();
        assert(self@.users.len() == count);
        let user = if count > 0 {
            assert(self@.users[count - 1].1 == self.users@[count - 1].1@);
            Some(self.users[count - 1].1.clone())
        } else {
            None
        };
        let copy = match &user {
            Some(e) => Some(e.clone()),
            None => None,
        };
        assert(party::text_view(user) == before.last_user());
        assert(party::text_view(copy) == before.last_user());
        let ghost dv = d@;
        let id: u64 = self.add(d, user, udp_port, now);
        let ghost h = self@;
        assert(h == before.adding(dv, before.last_user(), udp_port, now));
        let ghost n = h.networks.last();
        if let Some(entity) = copy {
            broker_queue::dispatch_broker(
                &mut self.requests,
                BrokerTask::Register { network_id: ident, entity, udp_port, quiet: false },
            );
            proof {
                lemma_more(
                    h,
                    ChangeView::Connected { network: id },
                    n.registration(entity@, false),
                    greeting(id),
                );
            }
        }
        let ghost told = self@;
        assert(told.networks.len() == last + 1);
        self.emit_connect_completed(last);
        self.poll_peers_request(last, now);
        let ghost asked = self@;
        proof {
            lemma_more(
                asked,
                ChangeView::Connected { network: id },
                n.registration(Seq::empty(), false),
                greeting(id),
            );
        }
        self.post_greeting(id);
        Some(id)
    }

    /// A local user is let into a network.
    pub fn authenticate_local_user(&mut self, id: u64)
        requires
            old(self)@.wf(),
        ensures
            final(self)@ == old(self)@.authenticating(id),
            final(self)@.wf(),
    {
        let ghost before = self@;
        let listed = find_network(&self.networks, id);
        let gone = find_network(&self.left, id);
        if listed.is_none() {
            if let Some(i) = gone {
                let n = self.left.remove(i);
                assert(n@ == before.left[i as int]);
                assert(self@.left =~= before.left.remove(i as int));
                self.networks.push(n);
                assert(self@.networks =~= before.networks.push(n@));
                proof {
                    assert(before.left[i as int].wf());
                    assert forall|j: int| 0 <= j < self@.networks.len() implies (
                    #[trigger] self@.networks[j]).wf() by {
                        if j < before.networks.len() {
                            assert(before.networks[j].wf());
                        }
                    }
                    assert forall|j: int| 0 <= j < self@.left.len() implies (
                    #[trigger] self@.left[j]).wf() by {
                        assert(before.left[if j < i { j } else { j + 1 }].wf());
                    }
                }
            }
        }
        let ghost h = self@;
        let kept = self.delivery.queue(Change::Authenticated { network: id });
        assert(self@.networks == h.networks && self@.left == h.left);
    }

    /// The title creates the local endpoint of a network. Gives its number.
    pub fn create_endpoint(&mut self, id: u64, user: Option<String>, now: u64) -> (uid: u16)
        requires
            old(self)@.wf(),
        ensures
            uid == old(self)@.counters.uid,
            final(self)@ == old(self)@.endpoint_creating(id, party::text_view(user), now),
            final(self)@.wf(),
    {
        let ghost before = self@;
        let uid: u16 = self.counters.uid;
        self.counters.uid = uid.wrapping_add(1);
        let kept = self.delivery.queue(Change::EndpointCreated { network: id, uid });
        let ghost h = self@;
        assert(h.networks == before.networks && h.left == before.left);
        assert(h.wf());
        if let Some(i) = find_network(&self.networks, id) {
            assert(before.networks[i as int] == self.networks@[i as int]@);
            assert(before.networks[i as int].wf());
            self.networks[i].local_endpoint = Some(uid);
            self.networks[i].local_user = user;
            let ghost n = self.networks@[i as int]@;
            self.networks[i].flush_pending_rx(&mut self.delivery, now);
            let ghost m = n.flushing(h.delivery, now).0;
            assert(self@.networks =~= before.networks.update(i as int, m));
            proof {
                lemma_with_network(h, i as int, m);
            }
            assert(self@.networks == h.with_network(i as int, m).networks);
            assert(self@.left == h.left);
        } else if let Some(i) = find_network(&self.left, id) {
            assert(before.left[i as int] == self.left@[i as int]@);
            assert(before.left[i as int].wf());
            self.left[i].local_endpoint = Some(uid);
            self.left[i].local_user = user;
            let ghost n = self.left@[i as int]@;
            self.left[i].flush_pending_rx(&mut self.delivery, now);
            let ghost m = n.flushing(h.delivery, now).0;
            assert(self@.left =~= before.left.update(i as int, m));
            assert(self@.networks == h.networks);
            assert forall|j: int| 0 <= j < self@.left.len() implies (#[trigger] self@.left[j]).wf() by {
                if j != i {
                    assert(before.left[j].wf());
                }
            }
        }
        uid
    }

    /// The title leaves a network.
    pub fn leave_network(&mut self, id: u64)
        requires
            old(self)@.wf(),
        ensures
            final(self)@ == old(self)@.leaving(id),
            final(self)@.wf(),
    {
        let ghost before = self@;
        let kept = self.delivery.queue(Change::NetworkLeft { network: id });
        assert(self@.networks == before.networks && self@.left == before.left);
        assert(self@.wf());
        if let Some(i) = find_network(&self.networks, id) {
            let ghost n = before.networks[i as int];
            assert(n == self.networks@[i as int]@);
            assert(n.wf());
            let entity = entity_of(&self.networks[i].local_user);
            if !text::is_empty(entity.as_str()) {
                let network_id = self.networks[i].descriptor.id_str();
                broker_queue::dispatch_broker(
                    &mut self.requests,
                    BrokerTask::Leave { network_id, entity },
                );
            }
            let mut gone = self.networks.remove(i);
            assert(self@.networks =~= before.networks.remove(i as int));
            gone.close();
            self.left.push(gone);
            assert(self@.left =~= before.left.push(n.closed()));
            proof {
                assert forall|j: int| 0 <= j < self@.networks.len() implies (
                #[trigger] self@.networks[j]).wf() by {
                    assert(before.networks[if j < i { j } else { j + 1 }].wf());
                }
                assert forall|j: int| 0 <= j < self@.left.len() implies (
                #[trigger] self@.left[j]).wf() by {
                    if j < before.left.len() {
                        assert(before.left[j].wf());
                    }
                }
            }
        }
    }

    /// Closes all networks.
    pub fn cleanup(&mut self)
        ensures
            final(self)@ == (HandleView {
                networks: old(self)@.networks.map_values(|n: NetworkView| n.closed()),
                ..old(self)@
            }),
    {
        let ghost before = self@;
        let mut i: usize = 0;
        while i < self.networks.len()
            invariant
                i <= self.networks@.len(),
                self@ == (HandleView { networks: self@.networks, ..before }),
                self@.networks.len() == before.networks.len() == self.networks@.len(),
                forall|j: int|
                    0 <= j < i ==> #[trigger] self@.networks[j] == before.networks[j].closed(),
                forall|j: int|
                    i <= j < self.networks@.len() ==> #[trigger] self@.networks[j]
                        == before.networks[j],
            decreases self.networks@.len() - i,
        {
            let ghost here = self@;
            assert(here.networks[i as int] == self.networks@[i as int]@);
            self.networks[i].close();
            assert(self@.networks =~= here.networks.update(
                i as int,
                before.networks[i as int].closed(),
            ));
            i += 1;
        }
        assert(self@.networks =~= before.networks.map_values(|n: NetworkView| n.closed()));
    }

    /// Has something sent to the peers of a network.
    pub fn enqueue_out(&mut self, job: OutJob)
        ensures
            final(self)@ == old(self)@.posting(job@),
    {
        let ghost before = self@.outbox;
        self.outbox.push(job);
        assert(self@.outbox =~= before.push(job@));
    }

    /// Takes the next jobs to send, in order.
    pub fn service_outbox(&mut self) -> (r: Vec<OutJob>)
        ensures
            ({
                let all = old(self)@.outbox;
                let k = if all.len() <= OUTBOX_BATCH { all.len() as int } else { OUTBOX_BATCH as int };
                &&& jobs(r@) == all.take(k)
                &&& final(self)@ == (HandleView { outbox: all.skip(k), ..old(self)@ })
            }),
    {
        let ghost all = self@.outbox;
        let mut r: Vec<OutJob> = Vec::new();
        assert(jobs(r@) =~= all.take(0));
        assert(all.skip(0) =~= all);
        while r.len() < OUTBOX_BATCH && self.outbox.len() > 0
            invariant
                r@.len() <= OUTBOX_BATCH,
                r@.len() <= all.len(),
                all == old(self)@.outbox,
                jobs(r@) == all.take(r@.len() as int),
                self@ == (HandleView { outbox: all.skip(r@.len() as int), ..old(self)@ }),
            decreases self.outbox@.len(),
        {
            assert(self@.outbox.len() == self.outbox@.len());
            let ghost here = self@.outbox;
            let ghost sofar = jobs(r@);
            let j = self.outbox.remove(0);
            assert(here[0] == j@);
            assert(self@.outbox =~= here.drop_first());
            r.push(j);
            assert(jobs(r@) =~= sofar.push(j@));
            assert(jobs(r@) =~= all.take(r@.len() as int));
            assert(self@.outbox =~= all.skip(r@.len() as int));
        }
        assert(self@.outbox.len() == self.outbox@.len());
        r
    }

    /// Takes the jobs of a network, in order, and leaves those of the others in theirs.
    pub fn drain_outbox_for(&mut self, network: u64) -> (r: Vec<OutJob>)
        ensures
            jobs(r@) == jobs_for(old(self)@.outbox, network, true),
            final(self)@ == (HandleView {
                outbox: jobs_for(old(self)@.outbox, network, false),
                ..old(self)@
            }),
    {
        let ghost all = self@.outbox;
        let mut r: Vec<OutJob> = Vec::new();
        let mut rest: Vec<OutJob> = Vec::new();
        let ghost mut k: int = 0;
        assert(all.take(0) =~= Seq::empty());
        assert(jobs(r@) =~= Seq::empty());
        assert(jobs(rest@) =~= Seq::empty());
        assert(all.skip(0) =~= all);
        while self.outbox.len() > 0
            invariant
                0 <= k <= all.len(),
                all == old(self)@.outbox,
                jobs(r@) == jobs_for(all.take(k), network, true),
                jobs(rest@) == jobs_for(all.take(k), network, false),
                self@ == (HandleView { outbox: all.skip(k), ..old(self)@ }),
            decreases self.outbox@.len(),
        {
            assert(self@.outbox.len() == self.outbox@.len());
            let ghost here = self@.outbox;
            let j = self.outbox.remove(0);
            assert(here[0] == j@);
            assert(self@.outbox =~= here.drop_first());
            assert(here.drop_first() =~= all.skip(k + 1));
            assert(all.take(k + 1).drop_last() =~= all.take(k));
            if j.network == network {
                let ghost sofar = jobs(r@);
                r.push(j);
                assert(jobs(r@) =~= sofar.push(j@));
            } else {
                let ghost sofar = jobs(rest@);
                rest.push(j);
                assert(jobs(rest@) =~= sofar.push(j@));
            }
            proof {
                k = k + 1;
            }
        }
        assert(self@.outbox.len() == self.outbox@.len());
        assert(all.take(k) =~= all);
        self.outbox = rest;
        r
    }

    /// How the messages of all networks fared, of those that were left too.
    pub fn fared(&self) -> (r: ModeCounts)
        ensures
            r == all_counts(self@.networks).plus(all_counts(self@.left)),
    {
        let mut r = network_counts(&self.networks);
        r.include_counts(&network_counts(&self.left));
        r
    }

    /// How many networks the title is shown.
    pub fn network_count(&self) -> (r: u32)
        ensures
            r == if self@.networks.len() <= SHOWN_NETWORKS {
                self@.networks.len()
            } else {
                SHOWN_NETWORKS as nat
            },
    {
        let n: usize = self.networks.len();
        assert(self@.networks.len() == n);
        if n <= 8 {
            n as u32
        } else {
            SHOWN_NETWORKS
        }
    }
}

/// A network that was left is gone from the networks, has no socket, and its peers are as if
/// nothing had been exchanged with them.
pub proof fn left_network_is_closed(h: HandleView, id: u64)
    requires
        network_place(h.networks, id) is Some,
    ensures
        h.leaving(id).networks.len() == h.networks.len() - 1,
        !h.leaving(id).left.last().bound,
        !h.leaving(id).left.last().connect_completed,
        h.leaving(id).left.last().id == id,
        forall|i: int|
            0 <= i < h.leaving(id).left.last().remotes.len() ==> (
            #[trigger] h.leaving(id).left.last().remotes[i]).1.tx.pending.len() == 0,
{
    lemma_network_place(h.networks, id);
}

/// A reply of the broker that is not newer than what was applied changes no peer and owes the
/// title nothing.
pub proof fn stale_reply_is_dropped(h: HandleView, i: int, listed: Seq<Seq<char>>)
    requires
        0 <= i < h.networks.len(),
        broker_queue::result_for(h.results, h.networks[i].id) is Some,
        broker_queue::result_for(h.results, h.networks[i].id)->0.seq
            <= h.networks[i].poll_applied_seq,
    ensures
        h.applying(i, listed).delivery == h.delivery,
        h.applying(i, listed).networks[i].remotes == h.networks[i].remotes,
        h.applying(i, listed).networks[i].poll_applied_seq == h.networks[i].poll_applied_seq,
{
}

/// Messages are not held back for ever: once some network has held them back for the full time,
/// they go on.
pub proof fn holding_back_ends(v: Seq<NetworkView>, i: int, now: u64)
    requires
        0 <= i < v.len(),
        v[i].owes_peer(),
        v[i].held_for(now) >= party::HOLD_TIMEOUT_MS,
    ensures
        !holds_back(v, now),
{
}

/// A request for the peers that is lost does not stop the asking: after the full time another is
/// made.
pub proof fn lost_request_is_repeated(n: NetworkView, now: u64)
    requires
        n.connect_completed,
        elapsed(now, n.poll_sent_at) >= party::PEER_POLL_TIMEOUT_MS,
    ensures
        n.must_ask(now),
{
}

/// The title hears once that the connection to a network is made.
pub proof fn connected_once(h: HandleView, i: int)
    requires
        0 <= i < h.networks.len(),
    ensures
        h.connecting_at(i).connecting_at(i) == h.connecting_at(i),
{
}

}
