//! What decides when something observed is worth telling: at most so often, only when it has
//! changed, only the first time.
use crate::assoc;
use crate::delivery::{Delivery, DeliveryView};
use crate::notes;
use crate::reliable;
use crate::table;
use crate::text;
use std::collections::BTreeMap;
use vstd::prelude::*;

verus! {

/// How long after a probe the next one waits, in milliseconds.
pub const PROBE_PASS_MS: u64 = 200;

/// How long the queue stays untold of where it does not change, in milliseconds.
pub const STATE_HEARTBEAT_MS: u64 = 30000;

/// How many values are told apart.
pub const EVENT_SLOTS: usize = 16;

/// How many threads are told apart.
pub const THREAD_SLOTS: usize = 8;

/// One more, as far as can be counted.
pub open spec fn one_more(n: u64) -> u64 {
    if n == u64::MAX { n } else { (n + 1) as u64 }
}

pub fn bump(n: u64) -> (r: u64)
    ensures
        r == one_more(n),
{
    if n == u64::MAX {
        n
    } else {
        n + 1
    }
}

/// The time since then on a clock that may have started anew.
pub open spec fn since(now: u64, then: u64) -> int {
    if now >= then { now - then } else { now - then + 18446744073709551616 }
}

fn elapsed(now: u64, then: u64) -> (r: u64)
    ensures
        r == since(now, then),
{
    if now >= then {
        now - then
    } else {
        u64::MAX - (then - now) + 1
    }
}

/// Lets something through at most once in a while, and counts what it lets through and what not.
#[verifier::ext_equal]
pub struct Gate {
    pub last: u64,
    pub passed: u64,
    pub skipped: u64,
}

/// It is time again. A gate that never let anything through does.
pub open spec fn is_due(last: u64, now: u64, period: u64) -> bool {
    last == 0 || since(now, last) >= period
}

impl Gate {
    pub fn new() -> (r: Gate)
        ensures
            r == (Gate { last: 0, passed: 0, skipped: 0 }),
    {
        Gate { last: 0, passed: 0, skipped: 0 }
    }

    /// Whether it is time again.
    pub fn due(&mut self, now: u64, period: u64) -> (r: bool)
        ensures
            r == is_due(old(self).last, now, period),
            *final(self) == (if r {
                Gate { last: now, passed: one_more(old(self).passed), skipped: old(self).skipped }
            } else {
                Gate {
                    last: old(self).last,
                    passed: old(self).passed,
                    skipped: one_more(old(self).skipped),
                }
            }),
    {
        if self.last != 0 && elapsed(now, self.last) < period {
            self.skipped = bump(self.skipped);
            return false;
        }
        self.last = now;
        self.passed = bump(self.passed);
        true
    }
}

/// Lets something through when it has changed, and else at most once in a while.
#[verifier::ext_equal]
pub struct ChangeGate {
    pub key: u64,
    pub last: u64,
}

impl ChangeGate {
    /// Nothing was let through yet.
    pub fn new() -> (r: ChangeGate)
        ensures
            r == (ChangeGate { key: u64::MAX, last: 0 }),
    {
        ChangeGate { key: u64::MAX, last: 0 }
    }

    /// Whether something is let through, and whether it is time again.
    pub fn pass(&mut self, key: u64, now: u64, period: u64) -> (r: (bool, bool))
        ensures
            r.1 == is_due(old(self).last, now, period),
            r.0 == (old(self).key != key || r.1),
            *final(self) == (ChangeGate {
                key,
                last: if r.0 { now } else { old(self).last },
            }),
    {
        let changed = self.key != key;
        let due = self.last == 0 || elapsed(now, self.last) >= period;
        self.key = key;
        if changed || due {
            self.last = now;
        }
        (changed || due, due)
    }
}

/// What of the queue the title was last told.
#[verifier::ext_equal]
pub struct StateLog {
    /// Nothing before the first time.
    pub key: Option<(usize, usize, usize, bool)>,
    pub at: u64,
}

impl StateLog {
    pub fn new(now: u64) -> (r: StateLog)
        ensures
            r == (StateLog { key: None, at: now }),
    {
        StateLog { key: None, at: now }
    }

    /// Whether the state of the queue is worth telling: 1 where it has changed, 2 where it has not
    /// been told of for long, else 0.
    pub fn due(&mut self, next: (usize, usize, usize, bool), now: u64) -> (r: u8)
        ensures
            r == (if old(self).key != Some(next) {
                1int
            } else if now >= old(self).at + STATE_HEARTBEAT_MS {
                2int
            } else {
                0int
            }),
            *final(self) == (if r == 0 {
                *old(self)
            } else {
                StateLog { key: Some(next), at: now }
            }),
    {
        let changed = match self.key {
            Some(k) => k.0 != next.0 || k.1 != next.1 || k.2 != next.2 || k.3 != next.3,
            None => true,
        };
        if !changed && (now < self.at || now - self.at < STATE_HEARTBEAT_MS) {
            return 0;
        }
        self.key = Some(next);
        self.at = now;
        if changed {
            1
        } else {
            2
        }
    }
}

/// How long a kind of line is not told again: thirty seconds, in units of 2^-32 seconds.
pub const RATE_LIMIT: u64 = 0x1e_0000_0000;

/// The most kinds of lines that are remembered, one more apart.
pub const RATE_KEYS: usize = 64;

/// When each kind of line was last told.
pub struct RateLimit {
    pub told: Vec<(String, u64)>,
}

impl View for RateLimit {
    type V = Seq<(Seq<char>, u64)>;

    open spec fn view(&self) -> Seq<(Seq<char>, u64)> {
        assoc::pairs(self.told@)
    }
}

/// What is remembered when the next line comes: where there are too many kinds, all are forgotten.
pub open spec fn recalled(m: Seq<(Seq<char>, u64)>) -> Seq<(Seq<char>, u64)> {
    if m.len() > RATE_KEYS { Seq::empty() } else { m }
}

/// A kind of line may be told: it was not told before, or long enough ago.
pub open spec fn may_tell(m: Seq<(Seq<char>, u64)>, key: Seq<char>, now: u64) -> bool {
    match assoc::lookup(m, key) {
        Some(t) => now >= t + RATE_LIMIT,
        None => true,
    }
}

impl RateLimit {
    pub fn new() -> (r: RateLimit)
        ensures
            r@ == Seq::<(Seq<char>, u64)>::empty(),
    {
        let r = RateLimit { told: Vec::new() };
        assert(r@ =~= Seq::empty());
        r
    }

    /// Whether a line of a kind is told now. The times are in units of 2^-32 seconds.
    pub fn due(&mut self, key: &str, now: u64) -> (r: bool)
        ensures
            r == may_tell(recalled(old(self)@), key@, now),
            final(self)@ == (if r {
                assoc::with(recalled(old(self)@), key@, now)
            } else {
                recalled(old(self)@)
            }),
            final(self)@.len() <= RATE_KEYS + 1,
    {
        assert(self@.len() == self.told@.len());
        if self.told.len() > RATE_KEYS {
            self.told = Vec::new();
            assert(self@ =~= Seq::empty());
        }
        proof {
            assoc::lemma_place(self@, key@);
        }
        let late = match assoc::get(&self.told, key) {
            Some(t) => now >= *t && now - *t >= RATE_LIMIT,
            None => true,
        };
        if late {
            assoc::put(&mut self.told, key, now);
        }
        late
    }
}

/// A kind of line that was told is not told again before its time.
pub proof fn told_once_in_a_while(m: Seq<(Seq<char>, u64)>, key: Seq<char>, now: u64, later: u64)
    requires
        later < now + RATE_LIMIT,
    ensures
        !may_tell(assoc::with(m, key, now), key, later),
{
    assoc::set_is_found(m, key, now, key);
}

/// For each kind of line: since when it is counted, and how many were not told since.
pub struct Throttle {
    pub lines: Vec<(String, Tally)>,
}

/// A line that is told at most once a second.
#[derive(Clone, Copy)]
pub struct Tally {
    pub since: u64,
    pub hidden: u32,
}

impl View for Tally {
    type V = Tally;

    open spec fn view(&self) -> Tally {
        *self
    }
}

impl View for Throttle {
    type V = Seq<(Seq<char>, Tally)>;

    open spec fn view(&self) -> Seq<(Seq<char>, Tally)> {
        assoc::pairs(self.lines@)
    }
}

/// What is known of a kind of line: from the first time on it is counted.
pub open spec fn tally_of(m: Seq<(Seq<char>, Tally)>, key: Seq<char>, now: u64) -> Tally {
    match assoc::lookup(m, key) {
        Some(t) => t,
        None => Tally { since: now, hidden: 0 },
    }
}

/// One more that was not told.
pub open spec fn hidden_more(n: u32) -> u32 {
    if n == u32::MAX { n } else { (n + 1) as u32 }
}

impl Throttle {
    pub fn new() -> (r: Throttle)
        ensures
            r@ == Seq::<(Seq<char>, Tally)>::empty(),
    {
        let r = Throttle { lines: Vec::new() };
        assert(r@ =~= Seq::empty());
        r
    }

    /// Whether a line is told, and then how many were not told before it. The times are in
    /// milliseconds.
    pub fn pass(&mut self, key: &str, now: u64) -> (r: Option<u32>)
        ensures
            ({
                let t = tally_of(old(self)@, key@, now);
                let late = now >= t.since + 1000;
                &&& r == (if late { Some(t.hidden) } else { None })
                &&& final(self)@ == assoc::with(
                    old(self)@,
                    key@,
                    if late {
                        Tally { since: now, hidden: 0 }
                    } else {
                        Tally { since: t.since, hidden: hidden_more(t.hidden) }
                    },
                )
            }),
    {
        let t = match assoc::get(&self.lines, key) {
            Some(t) => *t,
            None => Tally { since: now, hidden: 0 },
        };
        if now >= t.since && now - t.since >= 1000 {
            assoc::put(&mut self.lines, key, Tally { since: now, hidden: 0 });
            Some(t.hidden)
        } else {
            let hidden: u32 = if t.hidden == u32::MAX {
                t.hidden
            } else {
                t.hidden + 1
            };
            assoc::put(&mut self.lines, key, Tally { since: t.since, hidden });
            None
        }
    }
}

/// A line with how many were not told before it.
pub open spec fn throttled_line(msg: Seq<char>, hidden: u32) -> Seq<char> {
    if hidden > 0 {
        msg + " [+"@ + text::decimal(hidden as nat) + " more in the previous second]"@
    } else {
        msg
    }
}

/// Writes a line with how many were not told before it.
pub fn with_hidden(msg: &str, hidden: u32) -> (r: String)
    ensures
        r@ == throttled_line(msg@, hidden),
{
    let mut r = msg.to_owned();
    if hidden > 0 {
        r.append(" [+");
        text::push_decimal(&mut r, hidden as u64);
        r.append(" more in the previous second]");
    }
    r
}

/// How often each kind of message was seen, for telling of some of them.
pub struct Sampler {
    pub counts: Vec<(String, Times)>,
}

/// A count.
#[derive(Clone, Copy)]
pub struct Times {
    pub n: u32,
}

impl View for Times {
    type V = u32;

    open spec fn view(&self) -> u32 {
        self.n
    }
}

impl View for Sampler {
    type V = Seq<(Seq<char>, u32)>;

    open spec fn view(&self) -> Seq<(Seq<char>, u32)> {
        assoc::pairs(self.counts@)
    }
}

/// The sixteen first of a kind are told of, then ever fewer.
pub open spec fn is_sampled(n: u32) -> bool {
    n <= 16 || n == 50 || n == 100 || n % 250 == 0
}

/// How often a kind was seen, with once more.
pub open spec fn seen_times(m: Seq<(Seq<char>, u32)>, key: Seq<char>) -> u32 {
    match assoc::lookup(m, key) {
        Some(n) => hidden_more(n),
        None => 1,
    }
}

/// The counts after a kind was seen once more.
pub open spec fn seen_once_more(m: Seq<(Seq<char>, u32)>, key: Seq<char>) -> Seq<(Seq<char>, u32)> {
    assoc::with(m, key, seen_times(m, key))
}

impl Sampler {
    pub fn new() -> (r: Sampler)
        ensures
            r@ == Seq::<(Seq<char>, u32)>::empty(),
    {
        let r = Sampler { counts: Vec::new() };
        assert(r@ =~= Seq::empty());
        r
    }

    /// Whether one more message of a kind is told of.
    pub fn should_log_payload(&mut self, key: &str, all: bool) -> (r: bool)
        ensures
            r == (all || is_sampled(seen_times(old(self)@, key@))),
            final(self)@ == (if all { old(self)@ } else { seen_once_more(old(self)@, key@) }),
    {
        if all {
            return true;
        }
        let n: u32 = match assoc::get(&self.counts, key) {
            Some(t) => if t.n == u32::MAX {
                t.n
            } else {
                t.n + 1
            },
            None => 1,
        };
        assoc::put(&mut self.counts, key, Times { n });
        n <= 16 || n == 50 || n == 100 || n % 250 == 0
    }
}

/// The values that an event word had, with how often.
pub struct EventTable {
    pub slots: Vec<(u32, u64)>,
    pub last: Option<u32>,
    pub seen: u64,
    pub missing: u64,
    pub overflow: u64,
}

#[verifier::ext_equal]
pub struct EventView {
    pub slots: Seq<(u32, u64)>,
    pub last: Option<u32>,
    pub seen: u64,
    pub missing: u64,
    pub overflow: u64,
}

impl View for EventTable {
    type V = EventView;

    open spec fn view(&self) -> EventView {
        EventView {
            slots: self.slots@,
            last: self.last,
            seen: self.seen,
            missing: self.missing,
            overflow: self.overflow,
        }
    }
}

/// Where a value stands.
pub open spec fn slot_of(v: Seq<(u32, u64)>, value: u32) -> Option<int>
    decreases v.len(),
{
    if v.len() == 0 {
        None
    } else if v[0].0 == value {
        Some(0)
    } else {
        match slot_of(v.drop_first(), value) {
            Some(i) => Some(i + 1),
            None => None,
        }
    }
}

proof fn lemma_slot_of(v: Seq<(u32, u64)>, value: u32, k: int)
    requires
        0 <= k <= v.len(),
        forall|j: int| 0 <= j < k ==> (#[trigger] v[j]).0 != value,
        k == v.len() || v[k].0 == value,
    ensures
        slot_of(v, value) == (if k == v.len() { None } else { Some(k) }),
    decreases k,
{
    if k > 0 {
        lemma_slot_of(v.drop_first(), value, k - 1);
    }
}

impl EventView {
    /// A value was read, or none could be.
    pub open spec fn noting(self, value: Option<u32>) -> EventView {
        match value {
            None => EventView { missing: one_more(self.missing), ..self },
            Some(v) => {
                let seen = EventView { seen: one_more(self.seen), last: Some(v), ..self };
                match slot_of(self.slots, v) {
                    Some(i) => EventView {
                        slots: self.slots.update(i, (v, one_more(self.slots[i].1))),
                        ..seen
                    },
                    None => if self.slots.len() < EVENT_SLOTS {
                        EventView { slots: self.slots.push((v, 1)), ..seen }
                    } else {
                        EventView { overflow: one_more(self.overflow), ..seen }
                    },
                }
            },
        }
    }
}

impl EventTable {
    pub fn new() -> (r: EventTable)
        ensures
            r@ == (EventView {
                slots: Seq::empty(),
                last: None,
                seen: 0,
                missing: 0,
                overflow: 0,
            }),
    {
        EventTable { slots: Vec::new(), last: None, seen: 0, missing: 0, overflow: 0 }
    }

    /// Counts a reading of the event word; the result tells whether the value has changed.
    pub fn note_eventbus(&mut self, value: Option<u32>) -> (r: bool)
        ensures
            final(self)@ == old(self)@.noting(value),
            r == (value is Some && old(self)@.last != value),
    {
        let v = match value {
            Some(v) => v,
            None => {
                self.missing = bump(self.missing);
                return false;
            },
        };
        let changed = match self.last {
            Some(l) => l != v,
            None => true,
        };
        let mut k: usize = 0;
        let ghost all = self.slots@;
        while k < self.slots.len() && self.slots[k].0 != v
            invariant
                k <= self.slots@.len(),
                self@ == old(self)@,
                all == self.slots@,
                forall|j: int| 0 <= j < k ==> (#[trigger] all[j]).0 != v,
            decreases self.slots@.len() - k,
        {
            k += 1;
        }
        proof {
            lemma_slot_of(all, v, k as int);
        }
        self.seen = bump(self.seen);
        self.last = Some(v);
        if k < self.slots.len() {
            let n: u64 = bump(self.slots[k].1);
            self.slots[k] = (v, n);
        } else if self.slots.len() < EVENT_SLOTS {
            self.slots.push((v, 1));
        } else {
            self.overflow = bump(self.overflow);
        }
        changed
    }
}

/// A value is never lost: as long as not too many are told apart, each one that was read is
/// counted, and no other count changes.
pub proof fn events_are_counted(t: EventView, v: u32)
    requires
        t.slots.len() < EVENT_SLOTS || slot_of(t.slots, v) is Some,
    ensures
        slot_of(t.noting(Some(v)).slots, v) is Some,
        t.noting(Some(v)).overflow == t.overflow,
        forall|j: int|
            0 <= j < t.slots.len() && slot_of(t.slots, v) != Some(j) ==> #[trigger] t.noting(
                Some(v),
            ).slots[j] == t.slots[j],
{
    lemma_slot_found(t.slots, v);
    match slot_of(t.slots, v) {
        Some(i) => {
            let w = t.slots.update(i, (v, one_more(t.slots[i].1)));
            assert forall|j: int| 0 <= j < i implies (#[trigger] w[j]).0 != v by {
                assert(t.slots[j].0 != v);
            }
            lemma_slot_of(w, v, i);
        },
        None => {
            let w = t.slots.push((v, 1));
            assert forall|j: int| 0 <= j < t.slots.len() implies (#[trigger] w[j]).0 != v by {
                assert(t.slots[j].0 != v);
            }
            lemma_slot_of(w, v, t.slots.len() as int);
        },
    }
}

proof fn lemma_slot_found(v: Seq<(u32, u64)>, value: u32)
    ensures
        match slot_of(v, value) {
            Some(i) => 0 <= i < v.len() && v[i].0 == value && forall|j: int|
                0 <= j < i ==> (#[trigger] v[j]).0 != value,
            None => forall|j: int| 0 <= j < v.len() ==> (#[trigger] v[j]).0 != value,
        },
    decreases v.len(),
{
    if v.len() > 0 && v[0].0 != value {
        let r = v.drop_first();
        lemma_slot_found(r, value);
        assert forall|j: int| 0 < j < v.len() implies v[j] == r[j - 1] by {}
    }
}

/// The threads that called, with how often.
pub struct ThreadTable {
    pub slots: Vec<(u32, u64)>,
    pub total: u64,
    pub overflow: bool,
}

#[verifier::ext_equal]
pub struct ThreadView {
    pub slots: Seq<(u32, u64)>,
    pub total: u64,
    pub overflow: bool,
}

impl View for ThreadTable {
    type V = ThreadView;

    open spec fn view(&self) -> ThreadView {
        ThreadView { slots: self.slots@, total: self.total, overflow: self.overflow }
    }
}

impl ThreadView {
    /// A thread has called.
    pub open spec fn noting(self, thread: u32) -> ThreadView {
        let t = ThreadView { total: one_more(self.total), ..self };
        match slot_of(self.slots, thread) {
            Some(i) => ThreadView {
                slots: self.slots.update(i, (thread, one_more(self.slots[i].1))),
                ..t
            },
            None => if self.slots.len() < THREAD_SLOTS {
                ThreadView { slots: self.slots.push((thread, 1)), ..t }
            } else {
                ThreadView { overflow: true, ..t }
            },
        }
    }
}

/// The threads that called, as words.
pub open spec fn thread_words(v: Seq<(u32, u64)>) -> Seq<Seq<char>> {
    v.map_values(
        |e: (u32, u64)| notes::hex_number(e.0 as nat) + ":"@ + text::decimal(e.1 as nat),
    )
}

impl ThreadTable {
    pub fn new() -> (r: ThreadTable)
        ensures
            r@ == (ThreadView { slots: Seq::empty(), total: 0, overflow: false }),
    {
        ThreadTable { slots: Vec::new(), total: 0, overflow: false }
    }

    /// Counts a call of a thread; the result tells whether it is the first one.
    pub fn note_party_thread(&mut self, thread: u32) -> (r: bool)
        ensures
            final(self)@ == old(self)@.noting(thread),
            r == (slot_of(old(self)@.slots, thread) is None && old(self)@.slots.len()
                < THREAD_SLOTS),
    {
        let mut k: usize = 0;
        let ghost all = self.slots@;
        while k < self.slots.len() && self.slots[k].0 != thread
            invariant
                k <= self.slots@.len(),
                self@ == old(self)@,
                all == self.slots@,
                forall|j: int| 0 <= j < k ==> (#[trigger] all[j]).0 != thread,
            decreases self.slots@.len() - k,
        {
            k += 1;
        }
        proof {
            lemma_slot_of(all, thread, k as int);
        }
        self.total = bump(self.total);
        if k < self.slots.len() {
            let n: u64 = bump(self.slots[k].1);
            self.slots[k] = (thread, n);
            false
        } else if self.slots.len() < THREAD_SLOTS {
            self.slots.push((thread, 1));
            true
        } else {
            self.overflow = true;
            false
        }
    }

    /// Tells which threads called.
    pub fn thread_probe_note(&self, now: u32) -> (r: String)
        ensures
            r@ == notes::tagged(
                notes::tagged("threads="@, text::decimal(self@.slots.len()), " now="@),
                notes::hex_number(now as nat) + " ["@,
                notes::joined(
                    if self@.overflow {
                        thread_words(self@.slots).push("overflow"@)
                    } else {
                        thread_words(self@.slots)
                    },
                    " "@,
                ),
            ) + "]"@,
    {
        let mut parts: Vec<String> = Vec::new();
        let mut i: usize = 0;
        assert(text::views(parts@) =~= thread_words(self.slots@.take(0)));
        while i < self.slots.len()
            invariant
                i <= self.slots@.len(),
                text::views(parts@) == thread_words(self.slots@.take(i as int)),
            decreases self.slots@.len() - i,
        {
            let ghost sofar = text::views(parts@);
            let mut t = notes::hex_text(self.slots[i].0 as u64);
            t.append(":");
            text::push_decimal(&mut t, self.slots[i].1);
            notes::put(&mut parts, t);
            assert(thread_words(self.slots@.take(i + 1)) =~= sofar.push(
                notes::hex_number(self.slots@[i as int].0 as nat) + ":"@ + text::decimal(
                    self.slots@[i as int].1 as nat,
                ),
            ));
            i += 1;
        }
        assert(self.slots@.take(i as int) =~= self.slots@);
        if self.overflow {
            notes::put(&mut parts, "overflow".to_owned());
        }
        let mut r = notes::line("threads=");
        notes::tag(&mut r, text::decimal_text(self.slots.len() as u64).as_str(), " now=");
        let mut t = notes::hex_text(now as u64);
        t.append(" [");
        notes::tag(&mut r, t.as_str(), notes::join(&parts, " ").as_str());
        r.append("]");
        r
    }
}

/// Messages that were counted by their first word, in each direction.
pub struct MessageStats {
    pub sent: u64,
    pub received: u64,
    pub sent_kinds: BTreeMap<u32, u64>,
    pub received_kinds: BTreeMap<u32, u64>,
    /// When they were last told of, in milliseconds.
    pub told_at: u64,
}

#[verifier::ext_equal]
pub struct StatsView {
    pub sent: u64,
    pub received: u64,
    pub sent_kinds: Map<u32, u64>,
    pub received_kinds: Map<u32, u64>,
    pub told_at: u64,
}

impl View for MessageStats {
    type V = StatsView;

    open spec fn view(&self) -> StatsView {
        StatsView {
            sent: self.sent,
            received: self.received,
            sent_kinds: self.sent_kinds@,
            received_kinds: self.received_kinds@,
            told_at: self.told_at,
        }
    }
}

/// One more of a kind.
pub open spec fn counting(m: Map<u32, u64>, kind: u32) -> Map<u32, u64> {
    m.insert(
        kind,
        if m.contains_key(kind) {
            one_more(m[kind])
        } else {
            1
        },
    )
}

fn count(m: &mut BTreeMap<u32, u64>, kind: u32)
    ensures
        final(m)@ == counting(old(m)@, kind),
{
    let n: u64 = match table::get(m, kind) {
        Some(n) => bump(*n),
        None => 1,
    };
    table::put_in(m, kind, n);
}

impl StatsView {
    /// A message went or came.
    pub open spec fn counted(self, sending: bool, kind: u32) -> StatsView {
        if sending {
            StatsView {
                sent: one_more(self.sent),
                sent_kinds: counting(self.sent_kinds, kind),
                ..self
            }
        } else {
            StatsView {
                received: one_more(self.received),
                received_kinds: counting(self.received_kinds, kind),
                ..self
            }
        }
    }

    /// It is time to tell of the messages: after a while, and for a close look also at every
    /// fiftieth.
    pub open spec fn due(self, now: u64, close: bool) -> bool {
        if close {
            now >= self.told_at + 5000 || (self.sent + self.received) % 50 == 0
        } else {
            now >= self.told_at + 30000
        }
    }
}

/// The counts of each kind, in order.
pub open spec fn kind_words(m: Map<u32, u64>, keys: Seq<u32>) -> Seq<Seq<char>> {
    keys.map_values(|k: u32| text::decimal(k as nat) + ":"@ + text::decimal(m[k] as nat))
}

/// The counts of each kind, in order.
pub open spec fn kinds_text(m: Map<u32, u64>) -> Seq<char> {
    notes::joined(kind_words(m, table::ascending(m.dom())), ","@)
}

/// Writes the counts of each kind, in order.
pub fn fmt_ops(m: &BTreeMap<u32, u64>) -> (r: String)
    ensures
        r@ == kinds_text(m@),
{
    let keys = table::ascending_keys(m);
    proof {
        table::ascending_is_unique(keys@, m@.dom());
    }
    let mut parts: Vec<String> = Vec::new();
    let mut i: usize = 0;
    assert(text::views(parts@) =~= kind_words(m@, keys@.take(0)));
    while i < keys.len()
        invariant
            i <= keys@.len(),
            forall|k: u32| keys@.contains(k) <==> m@.contains_key(k),
            text::views(parts@) == kind_words(m@, keys@.take(i as int)),
        decreases keys@.len() - i,
    {
        assert(keys@.contains(keys@[i as int]));
        let ghost sofar = text::views(parts@);
        let k: u32 = keys[i];
        let n: u64 = match table::get(m, k) {
            Some(n) => *n,
            None => 0,
        };
        let mut t = text::decimal_text(k as u64);
        t.append(":");
        text::push_decimal(&mut t, n);
        notes::put(&mut parts, t);
        assert(kind_words(m@, keys@.take(i + 1)) =~= sofar.push(
            text::decimal(k as nat) + ":"@ + text::decimal(n as nat),
        ));
        i += 1;
    }
    assert(keys@.take(i as int) =~= keys@);
    notes::join(&parts, ",")
}

/// Nothing was counted yet.
pub open spec fn no_stats(now: u64) -> StatsView {
    StatsView {
        sent: 0,
        received: 0,
        sent_kinds: Map::empty(),
        received_kinds: Map::empty(),
        told_at: now,
    }
}

impl MessageStats {
    pub fn new(now: u64) -> (r: MessageStats)
        ensures
            r@ == no_stats(now),
    {
        MessageStats {
            sent: 0,
            received: 0,
            sent_kinds: BTreeMap::new(),
            received_kinds: BTreeMap::new(),
            told_at: now,
        }
    }

    /// Counts a message; the result tells whether it is time to tell of them.
    pub fn bump_msg_stats(&mut self, sending: bool, kind: u32, now: u64, close: bool) -> (r: bool)
        ensures
            r == old(self)@.counted(sending, kind).due(now, close),
            final(self)@ == (StatsView {
                told_at: if r { now } else { old(self)@.told_at },
                ..old(self)@.counted(sending, kind)
            }),
    {
        if sending {
            self.sent = bump(self.sent);
            count(&mut self.sent_kinds, kind);
        } else {
            self.received = bump(self.received);
            count(&mut self.received_kinds, kind);
        }
        let late = now >= self.told_at && now - self.told_at >= (if close {
            5000
        } else {
            30000
        });
        let fiftieth = ((self.sent % 50) + (self.received % 50)) % 50 == 0;
        let r = late || (close && fiftieth);
        if r {
            self.told_at = now;
        }
        r
    }
}

/// How messages of one mode of delivery fared.
#[derive(Clone, Copy)]
#[verifier::ext_equal]
pub struct RelCounts {
    pub sent: u64,
    pub retransmitted: u64,
    pub acked: u64,
    pub dup_dropped: u64,
    pub ooo_dropped: u64,
    pub ooo_queued: u64,
    pub evicted: u64,
}

impl RelCounts {
    pub open spec fn is_zero(self) -> bool {
        self.sent == 0 && self.retransmitted == 0 && self.acked == 0 && self.dup_dropped == 0
            && self.ooo_dropped == 0 && self.ooo_queued == 0 && self.evicted == 0
    }
}

/// The short name of a mode of delivery.
pub open spec fn mode_word(mode: int) -> Seq<char> {
    if mode == 0 {
        "guar-seq"@
    } else if mode == 1 {
        "guar-nonseq"@
    } else if mode == 2 {
        "best-seq"@
    } else {
        "best-nonseq"@
    }
}

/// How messages of one mode of delivery fared, in words.
pub open spec fn fared(mode: int, c: RelCounts) -> Seq<char> {
    let a = notes::tagged(mode_word(mode), "(sent="@, text::decimal(c.sent as nat));
    let b = notes::tagged(a, " retransmitted="@, text::decimal(c.retransmitted as nat));
    let d = notes::tagged(b, " acked="@, text::decimal(c.acked as nat));
    let e = notes::tagged(d, " dup-dropped="@, text::decimal(c.dup_dropped as nat));
    let f = notes::tagged(e, " out-of-order-dropped="@, text::decimal(c.ooo_dropped as nat));
    let g = notes::tagged(f, " out-of-order-queued="@, text::decimal(c.ooo_queued as nat));
    notes::tagged(g, " evicted="@, text::decimal(c.evicted as nat)) + ")"@
}

/// How messages fared in each mode of delivery in which there were any.
pub open spec fn fared_words(v: Seq<RelCounts>) -> Seq<Seq<char>>
    decreases v.len(),
{
    if v.len() == 0 {
        Seq::empty()
    } else if v.last().is_zero() {
        fared_words(v.drop_last())
    } else {
        fared_words(v.drop_last()).push(fared(v.len() - 1, v.last()))
    }
}

fn fared_text(mode: usize, c: &RelCounts) -> (r: String)
    requires
        mode < 4,
    ensures
        r@ == fared(mode as int, *c),
{
    let mut r = notes::line(reliable::mode_name(mode));
    notes::tag(&mut r, "(sent=", text::decimal_text(c.sent).as_str());
    notes::tag(&mut r, " retransmitted=", text::decimal_text(c.retransmitted).as_str());
    notes::tag(&mut r, " acked=", text::decimal_text(c.acked).as_str());
    notes::tag(&mut r, " dup-dropped=", text::decimal_text(c.dup_dropped).as_str());
    notes::tag(&mut r, " out-of-order-dropped=", text::decimal_text(c.ooo_dropped).as_str());
    notes::tag(&mut r, " out-of-order-queued=", text::decimal_text(c.ooo_queued).as_str());
    notes::tag(&mut r, " evicted=", text::decimal_text(c.evicted).as_str());
    r.append(")");
    r
}

/// Tells how messages fared in each of the four modes of delivery.
pub fn reliable_stats_note(v: &Vec<RelCounts>) -> (r: String)
    requires
        v@.len() <= 4,
    ensures
        r@ == (if fared_words(v@).len() == 0 {
            "reliable=none"@
        } else {
            "reliable "@ + notes::joined(fared_words(v@), " "@)
        }),
{
    let mut parts: Vec<String> = Vec::new();
    let mut i: usize = 0;
    assert(text::views(parts@) =~= fared_words(v@.take(0)));
    while i < v.len()
        invariant
            i <= v@.len(),
            v@.len() <= 4,
            text::views(parts@) == fared_words(v@.take(i as int)),
        decreases v@.len() - i,
    {
        assert(v@.take(i + 1).drop_last() =~= v@.take(i as int));
        let c = &v[i];
        if !(c.sent == 0 && c.retransmitted == 0 && c.acked == 0 && c.dup_dropped == 0
            && c.ooo_dropped == 0 && c.ooo_queued == 0 && c.evicted == 0) {
            notes::put(&mut parts, fared_text(i, c));
        }
        i += 1;
    }
    assert(v@.take(i as int) =~= v@);
    assert(text::views(parts@).len() == parts@.len());
    if parts.len() == 0 {
        "reliable=none".to_owned()
    } else {
        let mut r = notes::line("reliable ");
        r.append(notes::join(&parts, " ").as_str());
        r
    }
}

/// Large enough to tell of a character, and of the kind that does.
pub open spec fn is_snapshot(op: u32, len: nat) -> bool {
    op == 2 && len >= 600
}

/// Whether a message tells of a character.
pub fn is_chara_snapshot(op: u32, len: usize) -> (r: bool)
    ensures
        r == is_snapshot(op, len as nat),
{
    op == 2 && len >= 600
}

/// What is remembered of the messages that went by.
#[derive(Clone, Copy)]
#[verifier::ext_equal]
pub struct Marks {
    pub guest_ready_sent: bool,
    pub snapshot_sent: bool,
    pub sync_sent: bool,
    pub sync_received: bool,
}

/// The first words of a message, with zero for one that is not there.
pub open spec fn head_word(data: Seq<u8>, at: int) -> nat {
    match notes::word_at(data, at) {
        Some(n) => n,
        None => 0,
    }
}

impl Marks {
    /// A message went by.
    pub open spec fn noting(self, sending: bool, data: Seq<u8>) -> Marks {
        let op = head_word(data, 0);
        let sub = head_word(data, 4);
        Marks {
            guest_ready_sent: self.guest_ready_sent || (sending && op == 3 && sub == 5),
            snapshot_sent: self.snapshot_sent || (sending && op == 2 && data.len() >= 600),
            sync_sent: self.sync_sent || (sending && op == 3 && sub == 7),
            sync_received: self.sync_received || (!sending && op == 3 && sub == 7),
        }
    }

    /// Remembers a message that went by.
    pub fn note(&mut self, sending: bool, data: &[u8])
        ensures
            *final(self) == old(self).noting(sending, data@),
    {
        let op: u32 = match notes::u32le(data, 0) {
            Some(n) => n,
            None => 0,
        };
        let sub: u32 = match notes::u32le(data, 4) {
            Some(n) => n,
            None => 0,
        };
        if sending && op == 3 && sub == 5 {
            self.guest_ready_sent = true;
        }
        if sending && is_chara_snapshot(op, data.len()) {
            self.snapshot_sent = true;
        }
        if op == 3 && sub == 7 {
            if sending {
                self.sync_sent = true;
            } else {
                self.sync_received = true;
            }
        }
    }
}

/// The line that tells of the queue of changes for the title.
pub open spec fn ledger_words(d: DeliveryView, why: Seq<char>, holds: Seq<char>, skipped: u64) -> Seq<
    char,
> {
    let l = d.ledger;
    let a = notes::tagged("delivery ledger["@, why, "] pending="@);
    let a = notes::tagged(a, text::decimal(d.pending.len()), " in_flight="@);
    let a = notes::tagged(a, text::decimal(d.in_flight.len()), " batches="@);
    let a = notes::tagged(a, text::decimal(l.batches as nat), " last_out="@);
    let a = notes::tagged(a, text::decimal(l.last_batch as nat), " last_reclaimed="@);
    let a = notes::tagged(a, text::decimal(l.last_reclaimed as nat), " queued=["@);
    let a = notes::tagged(
        a,
        notes::words_or(notes::count_words(l.queued), "-"@, " "@),
        "] out=["@,
    );
    let a = notes::tagged(
        a,
        notes::words_or(notes::count_words(l.handed), "-"@, " "@),
        "] back=["@,
    );
    let a = notes::tagged(
        a,
        notes::words_or(notes::count_words(l.reclaimed), "-"@, " "@),
        "] deferred21="@,
    );
    let a = notes::tagged(a, text::decimal(l.deferred as nat), " cap_hits="@);
    let a = notes::tagged(a, text::decimal(l.cap_hits as nat), " dropped="@);
    let a = notes::tagged(a, text::decimal(l.dropped as nat), " type12_hold="@);
    let a = notes::tagged(a, holds, " hb_skipped="@);
    a + text::decimal(skipped as nat)
}

/// Writes the line that tells of the queue of changes for the title.
pub fn ledger_text(d: &Delivery, why: &str, holds: &str, skipped: u64) -> (r: String)
    ensures
        r@ == ledger_words(d@, why@, holds@, skipped),
{
    let l = &d.ledger;
    assert(d@.pending.len() == d.pending@.len());
    assert(d@.in_flight.len() == d.in_flight@.len());
    let mut r = notes::line("delivery ledger[");
    notes::tag(&mut r, why, "] pending=");
    notes::tag(&mut r, text::decimal_text(d.pending.len() as u64).as_str(), " in_flight=");
    notes::tag(&mut r, text::decimal_text(d.in_flight.len() as u64).as_str(), " batches=");
    notes::tag(&mut r, text::decimal_text(l.batches).as_str(), " last_out=");
    notes::tag(&mut r, text::decimal_text(l.last_batch).as_str(), " last_reclaimed=");
    notes::tag(&mut r, text::decimal_text(l.last_reclaimed).as_str(), " queued=[");
    notes::tag(&mut r, notes::fmt_type_counts(&l.queued).as_str(), "] out=[");
    notes::tag(&mut r, notes::fmt_type_counts(&l.handed).as_str(), "] back=[");
    notes::tag(&mut r, notes::fmt_type_counts(&l.reclaimed).as_str(), "] deferred21=");
    notes::tag(&mut r, text::decimal_text(l.deferred).as_str(), " cap_hits=");
    notes::tag(&mut r, text::decimal_text(l.cap_hits).as_str(), " dropped=");
    notes::tag(&mut r, text::decimal_text(l.dropped).as_str(), " type12_hold=");
    notes::tag(&mut r, holds, " hb_skipped=");
    text::push_decimal(&mut r, skipped);
    r
}

}
