//! The state changes that the library owes the title: a queue, and the batch that the title has in
//! hand.
use vstd::prelude::*;

verus! {

/// How many changes may wait before messages are dropped. Other changes are never dropped: the
/// title waits for each of them.
pub const PENDING_CAP: usize = 128;

/// How many changes a batch holds at most.
pub const BATCH_CAP: usize = 32;

/// How many changes of a returned batch are looked at.
pub const RETURN_CAP: usize = 64;

/// How many kinds of changes are counted.
pub const KINDS: usize = 32;

/// Something that happened, for the title to hear of. Networks go by their number.
pub enum Change {
    /// A network was created.
    NetworkCreated { network: u64 },
    /// The connection to a network is made.
    Connected { network: u64 },
    /// A local user was let in.
    Authenticated { network: u64 },
    /// The local endpoint was created.
    EndpointCreated { network: u64, uid: u16 },
    /// A peer has joined.
    RemoteJoined { network: u64, entity: String, uid: u16 },
    /// The network was left.
    NetworkLeft { network: u64 },
    /// A peer has sent a message.
    Message { network: u64, entity: String, options: u32, payload: Vec<u8> },
}

#[verifier::ext_equal]
pub enum ChangeView {
    NetworkCreated { network: u64 },
    Connected { network: u64 },
    Authenticated { network: u64 },
    EndpointCreated { network: u64, uid: u16 },
    RemoteJoined { network: u64, entity: Seq<char>, uid: u16 },
    NetworkLeft { network: u64 },
    Message { network: u64, entity: Seq<char>, options: u32, payload: Seq<u8> },
}

impl View for Change {
    type V = ChangeView;

    open spec fn view(&self) -> ChangeView {
        match *self {
            Change::NetworkCreated { network } => ChangeView::NetworkCreated { network },
            Change::Connected { network } => ChangeView::Connected { network },
            Change::Authenticated { network } => ChangeView::Authenticated { network },
            Change::EndpointCreated { network, uid } => ChangeView::EndpointCreated {
                network,
                uid,
            },
            Change::RemoteJoined { network, entity, uid } => ChangeView::RemoteJoined {
                network,
                entity: entity@,
                uid,
            },
            Change::NetworkLeft { network } => ChangeView::NetworkLeft { network },
            Change::Message { network, entity, options, payload } => ChangeView::Message {
                network,
                entity: entity@,
                options,
                payload: payload@,
            },
        }
    }
}

impl ChangeView {
    /// The number by which the title tells the kinds apart.
    pub open spec fn kind(self) -> u32 {
        match self {
            ChangeView::NetworkCreated { .. } => 2,
            ChangeView::Connected { .. } => 3,
            ChangeView::Authenticated { .. } => 4,
            ChangeView::EndpointCreated { .. } => 10,
            ChangeView::RemoteJoined { .. } => 12,
            ChangeView::NetworkLeft { .. } => 19,
            ChangeView::Message { .. } => 21,
        }
    }

    /// Whether the title was sent a message.
    pub open spec fn is_message(self) -> bool {
        self is Message
    }
}

impl Change {
    /// The number by which the title tells the kinds apart.
    pub fn kind(&self) -> (r: u32)
        ensures
            r == self@.kind(),
    {
        match self {
            Change::NetworkCreated { .. } => 2,
            Change::Connected { .. } => 3,
            Change::Authenticated { .. } => 4,
            Change::EndpointCreated { .. } => 10,
            Change::RemoteJoined { .. } => 12,
            Change::NetworkLeft { .. } => 19,
            Change::Message { .. } => 21,
        }
    }
}

/// The models of a list of changes.
pub open spec fn changes(v: Seq<Change>) -> Seq<ChangeView> {
    v.map_values(|c: Change| c@)
}

/// One more, with the wrap-around of the machine.
pub open spec fn one_more(n: u64) -> u64 {
    plus(n, 1)
}

/// A sum, with the wrap-around of the machine.
pub open spec fn plus(n: u64, k: int) -> u64 {
    ((n + k) % 0x1_0000_0000_0000_0000) as u64
}

/// The counts with one more of a kind.
pub open spec fn counted(counts: Seq<u64>, kind: u32) -> Seq<u64> {
    if kind < counts.len() {
        counts.update(kind as int, one_more(counts[kind as int]))
    } else {
        counts
    }
}

/// The counts with each of some changes counted.
pub open spec fn counted_all(counts: Seq<u64>, v: Seq<ChangeView>) -> Seq<u64>
    decreases v.len(),
{
    if v.len() == 0 {
        counts
    } else {
        counted(counted_all(counts, v.drop_last()), v.last().kind())
    }
}

/// Counts one more of a kind.
fn count(counts: &mut Vec<u64>, kind: u32)
    ensures
        final(counts)@ == counted(old(counts)@, kind),
{
    if (kind as usize) < counts.len() {
        let n: u64 = counts[kind as usize];
        counts.set(kind as usize, n.wrapping_add(1));
    }
}

/// As many zeros as there are kinds.
fn no_counts() -> (r: Vec<u64>)
    ensures
        r@ == zero_counts(),
{
    let mut r: Vec<u64> = Vec::new();
    while r.len() < KINDS
        invariant
            r@.len() <= KINDS,
            forall|i: int| 0 <= i < r@.len() ==> r@[i] == 0,
        decreases KINDS - r@.len(),
    {
        r.push(0);
    }
    assert(r@ =~= zero_counts());
    r
}

pub open spec fn zero_counts() -> Seq<u64> {
    Seq::new(KINDS as nat, |i: int| 0u64)
}

/// What has passed through the queue.
pub struct Ledger {
    /// By kind: queued, handed to the title, taken back from it.
    pub queued: Vec<u64>,
    pub handed: Vec<u64>,
    pub reclaimed: Vec<u64>,
    /// How many batches held anything, and how much the last one held.
    pub batches: u64,
    pub last_batch: u64,
    /// How many changes the title returned last.
    pub last_reclaimed: u64,
    /// How many messages were held back, how often a batch was full, and how many messages were
    /// dropped.
    pub deferred: u64,
    pub cap_hits: u64,
    pub dropped: u64,
}

#[verifier::ext_equal]
pub struct LedgerView {
    pub queued: Seq<u64>,
    pub handed: Seq<u64>,
    pub reclaimed: Seq<u64>,
    pub batches: u64,
    pub last_batch: u64,
    pub last_reclaimed: u64,
    pub deferred: u64,
    pub cap_hits: u64,
    pub dropped: u64,
}

impl View for Ledger {
    type V = LedgerView;

    open spec fn view(&self) -> LedgerView {
        LedgerView {
            queued: self.queued@,
            handed: self.handed@,
            reclaimed: self.reclaimed@,
            batches: self.batches,
            last_batch: self.last_batch,
            last_reclaimed: self.last_reclaimed,
            deferred: self.deferred,
            cap_hits: self.cap_hits,
            dropped: self.dropped,
        }
    }
}

/// The queue and the batch.
pub struct Delivery {
    pub pending: Vec<Change>,
    pub in_flight: Vec<Change>,
    /// The title has the batch in hand: nothing may touch it until it is returned.
    pub outstanding: bool,
    pub ledger: Ledger,
}

#[verifier::ext_equal]
pub struct DeliveryView {
    pub pending: Seq<ChangeView>,
    pub in_flight: Seq<ChangeView>,
    pub outstanding: bool,
    pub ledger: LedgerView,
}

impl View for Delivery {
    type V = DeliveryView;

    open spec fn view(&self) -> DeliveryView {
        DeliveryView {
            pending: changes(self.pending@),
            in_flight: changes(self.in_flight@),
            outstanding: self.outstanding,
            ledger: self.ledger@,
        }
    }
}

/// Nothing has happened yet.
pub open spec fn idle() -> DeliveryView {
    DeliveryView {
        pending: Seq::empty(),
        in_flight: Seq::empty(),
        outstanding: false,
        ledger: LedgerView {
            queued: zero_counts(),
            handed: zero_counts(),
            reclaimed: zero_counts(),
            batches: 0,
            last_batch: 0,
            last_reclaimed: 0,
            deferred: 0,
            cap_hits: 0,
            dropped: 0,
        },
    }
}

/// The batch out of a queue when it has room for `room` changes: the changes in order, without
/// the messages where they are held back, up to and with the first peer that has joined. The title
/// looks a peer up when a message of it arrives, so that change is the last of its batch.
pub open spec fn batch_of(p: Seq<ChangeView>, hold: bool, room: nat) -> Seq<ChangeView>
    decreases p.len(),
{
    if p.len() == 0 || room == 0 {
        Seq::empty()
    } else if hold && p[0].is_message() {
        batch_of(p.drop_first(), hold, room)
    } else if p[0] is RemoteJoined {
        seq![p[0]]
    } else {
        seq![p[0]] + batch_of(p.drop_first(), hold, (room - 1) as nat)
    }
}

/// What stays in the queue: the messages that are held back, then what was not looked at.
pub open spec fn left_of(p: Seq<ChangeView>, hold: bool, room: nat) -> Seq<ChangeView>
    decreases p.len(),
{
    if p.len() == 0 || room == 0 {
        p
    } else if hold && p[0].is_message() {
        seq![p[0]] + left_of(p.drop_first(), hold, room)
    } else if p[0] is RemoteJoined {
        p.drop_first()
    } else {
        left_of(p.drop_first(), hold, (room - 1) as nat)
    }
}

/// How many messages are held back.
pub open spec fn held_back(p: Seq<ChangeView>, hold: bool, room: nat) -> nat
    decreases p.len(),
{
    if p.len() == 0 || room == 0 {
        0
    } else if hold && p[0].is_message() {
        1 + held_back(p.drop_first(), hold, room)
    } else if p[0] is RemoteJoined {
        0
    } else {
        held_back(p.drop_first(), hold, (room - 1) as nat)
    }
}

/// The batch is full before the queue is empty.
pub open spec fn runs_full(p: Seq<ChangeView>, hold: bool, room: nat) -> bool
    decreases p.len(),
{
    if p.len() == 0 {
        false
    } else if room == 0 {
        true
    } else if hold && p[0].is_message() {
        runs_full(p.drop_first(), hold, room)
    } else if p[0] is RemoteJoined {
        false
    } else {
        runs_full(p.drop_first(), hold, (room - 1) as nat)
    }
}

/// A change that the title returns: its kind, and its network where it has one.
#[derive(Clone, Copy)]
pub struct Returned {
    pub kind: u32,
    pub network: Option<u64>,
}

/// The returned changes that are looked at.
pub open spec fn looked_at(v: Seq<Option<Returned>>) -> Seq<Option<Returned>> {
    if v.len() <= RETURN_CAP { v } else { v.take(RETURN_CAP as int) }
}

/// How many of some places hold a change.
pub open spec fn present(v: Seq<Option<Returned>>) -> nat
    decreases v.len(),
{
    if v.len() == 0 {
        0
    } else {
        present(v.drop_last()) + (if v.last() is Some { 1nat } else { 0 })
    }
}

/// The counts with each of some returned changes counted.
pub open spec fn counted_back(counts: Seq<u64>, v: Seq<Option<Returned>>) -> Seq<u64>
    decreases v.len(),
{
    if v.len() == 0 {
        counts
    } else {
        match v.last() {
            Some(r) => counted(counted_back(counts, v.drop_last()), r.kind),
            None => counted_back(counts, v.drop_last()),
        }
    }
}

impl DeliveryView {
    /// What every operation keeps: a batch that holds anything is in the title's hand.
    pub open spec fn wf(self) -> bool {
        &&& self.outstanding <==> self.in_flight.len() > 0
        &&& self.in_flight.len() <= BATCH_CAP
    }

    /// The title returns a batch, which is then gone.
    pub open spec fn finishing(self, v: Seq<Option<Returned>>) -> DeliveryView {
        if v.len() == 0 {
            self
        } else {
            DeliveryView {
                in_flight: Seq::empty(),
                outstanding: false,
                ledger: LedgerView {
                    reclaimed: counted_back(self.ledger.reclaimed, looked_at(v)),
                    last_reclaimed: present(looked_at(v)) as u64,
                    ..self.ledger
                },
                ..self
            }
        }
    }

    /// The queue with one more change, or without it where it is a message and too many wait.
    pub open spec fn queueing(self, c: ChangeView) -> DeliveryView {
        if c.is_message() && self.pending.len() >= PENDING_CAP {
            DeliveryView {
                ledger: LedgerView { dropped: one_more(self.ledger.dropped), ..self.ledger },
                ..self
            }
        } else {
            DeliveryView {
                pending: self.pending.push(c),
                ledger: LedgerView {
                    queued: counted(self.ledger.queued, c.kind()),
                    ..self.ledger
                },
                ..self
            }
        }
    }

    /// The title asks for a batch. While it has one in hand, it gets that one again.
    pub open spec fn starting(self, hold: bool) -> DeliveryView {
        if self.outstanding {
            self
        } else {
            let room = BATCH_CAP as nat;
            let batch = batch_of(self.pending, hold, room);
            DeliveryView {
                pending: left_of(self.pending, hold, room),
                in_flight: batch,
                outstanding: batch.len() > 0,
                ledger: LedgerView {
                    handed: counted_all(self.ledger.handed, batch),
                    batches: if batch.len() > 0 {
                        one_more(self.ledger.batches)
                    } else {
                        self.ledger.batches
                    },
                    last_batch: batch.len() as u64,
                    deferred: plus(
                        self.ledger.deferred,
                        held_back(self.pending, hold, room) as int,
                    ),
                    cap_hits: if runs_full(self.pending, hold, room) {
                        one_more(self.ledger.cap_hits)
                    } else {
                        self.ledger.cap_hits
                    },
                    ..self.ledger
                },
            }
        }
    }
}

impl Ledger {
    pub fn new() -> (r: Ledger)
        ensures
            r@ == idle().ledger,
    {
        Ledger {
            queued: no_counts(),
            handed: no_counts(),
            reclaimed: no_counts(),
            batches: 0,
            last_batch: 0,
            last_reclaimed: 0,
            deferred: 0,
            cap_hits: 0,
            dropped: 0,
        }
    }
}

impl Delivery {
    pub fn new() -> (r: Delivery)
        ensures
            r@ == idle(),
            r@.wf(),
    {
        let r = Delivery {
            pending: Vec::new(),
            in_flight: Vec::new(),
            outstanding: false,
            ledger: Ledger::new(),
        };
        assert(r@.pending =~= Seq::empty());
        assert(r@.in_flight =~= Seq::empty());
        r
    }

    /// Queues a change, or drops it where it is a message and too many changes wait. Tells whether
    /// it was queued.
    pub fn queue(&mut self, c: Change) -> (kept: bool)
        ensures
            final(self)@ == old(self)@.queueing(c@),
            old(self)@.wf() ==> final(self)@.wf(),
            kept == !(c@.is_message() && old(self)@.pending.len() >= PENDING_CAP),
    {
        let kind: u32 = c.kind();
        if kind == 21 && self.pending.len() >= PENDING_CAP {
            self.ledger.dropped = self.ledger.dropped.wrapping_add(1);
            return false;
        }
        count(&mut self.ledger.queued, kind);
        let ghost before = changes(self.pending@);
        self.pending.push(c);
        assert(changes(self.pending@) =~= before.push(c@));
        true
    }

    /// Moves changes from the queue into the batch. Returns the messages that are held back, and
    /// whether the batch was full before the queue was empty.
    fn fill(&mut self, hold: bool) -> (r: (Vec<Change>, bool))
        requires
            old(self)@.in_flight.len() == 0,
        ensures
            ({
                let p = old(self)@.pending;
                let room = BATCH_CAP as nat;
                &&& final(self)@.in_flight == batch_of(p, hold, room)
                &&& changes(r.0@) + final(self)@.pending == left_of(p, hold, room)
                &&& r.0@.len() == held_back(p, hold, room)
                &&& r.1 == runs_full(p, hold, room)
                &&& final(self)@.in_flight.len() <= BATCH_CAP
                &&& final(self)@.outstanding == old(self)@.outstanding
                &&& final(self)@.ledger == (LedgerView {
                    handed: counted_all(old(self)@.ledger.handed, final(self)@.in_flight),
                    ..old(self)@.ledger
                })
            }),
    {
        let ghost p = self@.pending;
        let ghost room = BATCH_CAP as nat;
        let mut deferred: Vec<Change> = Vec::new();
        let mut full = false;
        let mut more = true;
        assert(self@.in_flight =~= Seq::empty());
        assert(batch_of(p, hold, room) =~= self@.in_flight + batch_of(p, hold, room));
        assert(left_of(p, hold, room) =~= changes(deferred@) + left_of(p, hold, room));
        assert(counted_all(self@.ledger.handed, self@.in_flight) =~= self@.ledger.handed);
        while more
            invariant
                self@.outstanding == old(self)@.outstanding,
                self@.ledger == (LedgerView {
                    handed: counted_all(old(self)@.ledger.handed, self@.in_flight),
                    ..old(self)@.ledger
                }),
                self@.in_flight.len() <= BATCH_CAP,
                room == BATCH_CAP,
                more ==> {
                    let left = (room - self@.in_flight.len()) as nat;
                    &&& !full
                    &&& batch_of(p, hold, room) == self@.in_flight + batch_of(
                        self@.pending,
                        hold,
                        left,
                    )
                    &&& left_of(p, hold, room) == changes(deferred@) + left_of(
                        self@.pending,
                        hold,
                        left,
                    )
                    &&& held_back(p, hold, room) == deferred@.len() + held_back(
                        self@.pending,
                        hold,
                        left,
                    )
                    &&& runs_full(p, hold, room) == runs_full(self@.pending, hold, left)
                },
                !more ==> {
                    &&& batch_of(p, hold, room) == self@.in_flight
                    &&& left_of(p, hold, room) == changes(deferred@) + self@.pending
                    &&& held_back(p, hold, room) == deferred@.len()
                    &&& runs_full(p, hold, room) == full
                },
            decreases self@.pending.len() + (if more { 1int } else { 0 }),
        {
            let ghost here = self@.pending;
            let ghost batch = self@.in_flight;
            let ghost back = changes(deferred@);
            let ghost left = (room - batch.len()) as nat;
            if self.pending.len() == 0 {
                more = false;
                assert(batch + batch_of(here, hold, left) =~= batch);
            } else if self.in_flight.len() >= BATCH_CAP {
                full = true;
                more = false;
                assert(batch + batch_of(here, hold, left) =~= batch);
            } else {
                let c = self.pending.remove(0);
                assert(self@.pending =~= here.drop_first());
                assert(c@ == here[0]);
                let kind: u32 = c.kind();
                if kind == 21 && hold {
                    deferred.push(c);
                    assert(changes(deferred@) =~= back.push(here[0]));
                    assert(back + (seq![here[0]] + left_of(here.drop_first(), hold, left))
                        =~= changes(deferred@) + left_of(here.drop_first(), hold, left));
                } else {
                    count(&mut self.ledger.handed, kind);
                    self.in_flight.push(c);
                    assert(self@.in_flight =~= batch.push(here[0]));
                    assert(self@.in_flight.drop_last() =~= batch);
                    if kind == 12 {
                        more = false;
                        assert(batch + seq![here[0]] =~= self@.in_flight);
                    } else {
                        let ghost rest = batch_of(here.drop_first(), hold, (left - 1) as nat);
                        assert(batch + (seq![here[0]] + rest) =~= self@.in_flight + rest);
                    }
                }
            }
        }
        (deferred, full)
    }

    /// The title asks for a batch. With `hold`, messages are held back.
    pub fn start(&mut self, hold: bool)
        ensures
            final(self)@ == old(self)@.starting(hold),
            old(self)@.wf() ==> final(self)@.wf(),
    {
        if self.outstanding {
            return;
        }
        self.in_flight = Vec::new();
        assert(self@.in_flight =~= Seq::empty());
        let (mut deferred, full) = self.fill(hold);
        let ghost kept = changes(deferred@);
        let ghost rest = self@.pending;
        let n: usize = deferred.len();
        deferred.append(&mut self.pending);
        self.pending = deferred;
        assert(changes(self.pending@) =~= kept + rest);
        self.ledger.deferred = self.ledger.deferred.wrapping_add(n as u64);
        if full {
            self.ledger.cap_hits = self.ledger.cap_hits.wrapping_add(1);
        }
        if self.in_flight.len() > 0 {
            self.ledger.batches = self.ledger.batches.wrapping_add(1);
        }
        self.ledger.last_batch = self.in_flight.len() as u64;
        self.outstanding = self.in_flight.len() > 0;
    }

    /// The title returns a batch.
    pub fn finish(&mut self, returned: &[Option<Returned>])
        ensures
            final(self)@ == old(self)@.finishing(returned@),
            old(self)@.wf() ==> final(self)@.wf(),
    {
        if returned.len() == 0 {
            return;
        }
        let n: usize = if returned.len() <= RETURN_CAP { returned.len() } else { RETURN_CAP };
        let ghost seen = looked_at(returned@);
        let mut reclaimed: u64 = 0;
        let mut i: usize = 0;
        assert(counted_back(self.ledger.reclaimed@, seen.take(0)) =~= self.ledger.reclaimed@);
        while i < n
            invariant
                i <= n <= RETURN_CAP,
                n <= returned@.len(),
                seen == looked_at(returned@),
                n == seen.len(),
                reclaimed == present(seen.take(i as int)),
                reclaimed <= i,
                self@.pending == old(self)@.pending,
                self@.in_flight == old(self)@.in_flight,
                self@.outstanding == old(self)@.outstanding,
                self@.ledger == (LedgerView {
                    reclaimed: counted_back(old(self)@.ledger.reclaimed, seen.take(i as int)),
                    ..old(self)@.ledger
                }),
            decreases n - i,
        {
            assert(seen.take(i + 1).drop_last() =~= seen.take(i as int));
            assert(seen[i as int] == returned@[i as int]);
            if let Some(r) = returned[i] {
                reclaimed += 1;
                count(&mut self.ledger.reclaimed, r.kind);
            }
            i += 1;
        }
        assert(seen.take(n as int) =~= seen);
        self.in_flight = Vec::new();
        assert(self@.in_flight =~= Seq::empty());
        self.outstanding = false;
        self.ledger.last_reclaimed = reclaimed;
    }
}

/// The messages among some changes.
pub open spec fn messages(v: Seq<ChangeView>) -> Seq<ChangeView>
    decreases v.len(),
{
    if v.len() == 0 {
        Seq::empty()
    } else if v[0].is_message() {
        seq![v[0]] + messages(v.drop_first())
    } else {
        messages(v.drop_first())
    }
}

/// The other changes.
pub open spec fn others(v: Seq<ChangeView>) -> Seq<ChangeView>
    decreases v.len(),
{
    if v.len() == 0 {
        Seq::empty()
    } else if v[0].is_message() {
        others(v.drop_first())
    } else {
        seq![v[0]] + others(v.drop_first())
    }
}

/// Nothing is lost or made up, and nothing overtakes its like: the messages of the batch and then
/// those that stay are the messages that were queued, in their order, and so are the other changes.
pub proof fn batch_keeps_order(p: Seq<ChangeView>, hold: bool, room: nat)
    ensures
        messages(batch_of(p, hold, room)) + messages(left_of(p, hold, room)) == messages(p),
        others(batch_of(p, hold, room)) + others(left_of(p, hold, room)) == others(p),
    decreases p.len(),
{
    let batch = batch_of(p, hold, room);
    let left = left_of(p, hold, room);
    if p.len() == 0 || room == 0 {
        assert(messages(batch) + messages(left) =~= messages(p));
        assert(others(batch) + others(left) =~= others(p));
    } else if hold && p[0].is_message() {
        batch_keeps_order(p.drop_first(), hold, room);
        lemma_no_messages(p.drop_first(), room);
        assert(left.drop_first() =~= left_of(p.drop_first(), hold, room));
        assert(messages(batch) =~= Seq::empty());
        assert(messages(batch) + messages(left) =~= messages(p));
    } else if p[0] is RemoteJoined {
        reveal_with_fuel(messages, 2);
        reveal_with_fuel(others, 2);
        assert(batch.drop_first() =~= Seq::empty());
        assert(messages(batch) =~= Seq::empty());
        assert(messages(batch) + messages(left) =~= messages(p));
        assert(others(batch) =~= seq![p[0]]);
        assert(others(batch) + others(left) =~= others(p));
    } else {
        let rest = batch_of(p.drop_first(), hold, (room - 1) as nat);
        batch_keeps_order(p.drop_first(), hold, (room - 1) as nat);
        assert(batch.drop_first() =~= rest);
        if p[0].is_message() {
            assert(messages(batch) + messages(left) =~= seq![p[0]] + (messages(rest) + messages(
                left,
            )));
        } else {
            assert(others(batch) + others(left) =~= seq![p[0]] + (others(rest) + others(left)));
        }
    }
}

/// While messages are held back, a batch has none.
proof fn lemma_no_messages(p: Seq<ChangeView>, room: nat)
    ensures
        messages(batch_of(p, true, room)) == Seq::<ChangeView>::empty(),
    decreases p.len(),
{
    if p.len() == 0 || room == 0 {
    } else if p[0].is_message() {
        lemma_no_messages(p.drop_first(), room);
    } else if p[0] is RemoteJoined {
        reveal_with_fuel(messages, 2);
        assert(batch_of(p, true, room).drop_first() =~= Seq::empty());
        assert(messages(batch_of(p, true, room)) =~= Seq::empty());
    } else {
        lemma_no_messages(p.drop_first(), (room - 1) as nat);
        assert(batch_of(p, true, room).drop_first() =~= batch_of(
            p.drop_first(),
            true,
            (room - 1) as nat,
        ));
    }
}

/// While messages are held back, the title gets none.
pub proof fn held_messages_stay(d: DeliveryView)
    requires
        !d.outstanding,
    ensures
        messages(d.starting(true).in_flight).len() == 0,
{
    lemma_no_messages(d.pending, BATCH_CAP as nat);
}

/// A peer that joins is the last change of its batch, and a batch has its limit.
pub proof fn joining_ends_a_batch(p: Seq<ChangeView>, hold: bool, room: nat)
    ensures
        batch_of(p, hold, room).len() <= room,
        forall|i: int|
            0 <= i < batch_of(p, hold, room).len() && (#[trigger] batch_of(p, hold, room)[i]
                is RemoteJoined) ==> i == batch_of(p, hold, room).len() - 1,
    decreases p.len(),
{
    if p.len() > 0 && room > 0 {
        if hold && p[0].is_message() {
            joining_ends_a_batch(p.drop_first(), hold, room);
        } else if !(p[0] is RemoteJoined) {
            let rest = batch_of(p.drop_first(), hold, (room - 1) as nat);
            joining_ends_a_batch(p.drop_first(), hold, (room - 1) as nat);
            assert forall|i: int|
                0 <= i < batch_of(p, hold, room).len() && (#[trigger] batch_of(p, hold, room)[i]
                    is RemoteJoined) implies i == batch_of(p, hold, room).len() - 1 by {
                assert(rest[i - 1] is RemoteJoined);
            }
        }
    }
}

/// The batch in the title's hand is not touched: until it is returned, asking for a batch gives it
/// again, and once it is returned, the next batch goes on with the queue.
pub proof fn batch_is_given_again(d: DeliveryView, hold: bool, again: bool)
    requires
        d.wf(),
    ensures
        d.starting(hold).outstanding ==> d.starting(hold).starting(again) == d.starting(hold),
        d.starting(hold).outstanding <==> d.starting(hold).in_flight.len() > 0,
{
}

/// The delivery does not stall: where messages are not held back, or another change waits, the
/// title that returned its batch gets a new one.
pub proof fn delivery_goes_on(d: DeliveryView, hold: bool)
    requires
        !d.outstanding,
        d.pending.len() > 0,
        !hold || others(d.pending).len() > 0,
    ensures
        d.starting(hold).in_flight.len() > 0,
{
    lemma_goes_on(d.pending, hold, BATCH_CAP as nat);
}

proof fn lemma_goes_on(p: Seq<ChangeView>, hold: bool, room: nat)
    requires
        p.len() > 0,
        room > 0,
        !hold || others(p).len() > 0,
    ensures
        batch_of(p, hold, room).len() > 0,
    decreases p.len(),
{
    if hold && p[0].is_message() {
        assert(others(p) == others(p.drop_first()));
        lemma_goes_on(p.drop_first(), hold, room);
    }
}

/// Only messages are ever dropped, and only where too many changes wait.
pub proof fn only_messages_are_dropped(d: DeliveryView, c: ChangeView)
    ensures
        d.queueing(c).pending != d.pending.push(c) ==> c.is_message() && d.pending.len()
            >= PENDING_CAP && d.queueing(c).pending == d.pending,
{
}

}
