//! Reliable delivery over datagrams: one [`Sender`] and one [`Receiver`] per pairing of endpoints.
//!
//! A message names its delivery mode in an options word.
//!   * Guaranteed: it is retransmitted until the peer acknowledges it.
//!   * Sequential: it is ordered with the other sequential messages of the same pairing.
//!   * Sequential and best effort: an arrival older than one already delivered is dropped.
//!   * Sequential and guaranteed: an early arrival waits in a bounded buffer for its predecessors.
//!
//! Guaranteed messages are numbered from 1 in one sequence space, which acknowledgements cover
//! cumulatively. Best-effort sequential messages have a space of their own, so a lost one never
//! holds an acknowledgement back. Number 0 stands for a message outside both spaces: both leave it
//! out when they start over behind the highest number.
use std::collections::BTreeMap;
use crate::table;
use crate::text;
use vstd::prelude::*;

verus! {

/// Whether messages are numbered, acknowledged and retransmitted at all.
pub const PARTY_RELIABLE: bool = true;

pub const SEND_GUARANTEED: u32 = 0x1;

pub const SEND_SEQUENTIAL: u32 = 0x2;

pub const SEND_DONT_COPY_DATA_BUFFERS: u32 = 0x4;

pub const SEND_ALWAYS_COALESCE_UNTIL_FLUSHED: u32 = 0x8;

pub const SEND_ALLOW_LAZY_ACKNOWLEDGEMENT: u32 = 0x10;

/// The first retransmission timeout. It doubles with each retry, up to [`RTO_MAX_MS`].
pub const RTO_FIRST_MS: u64 = 60;

pub const RTO_MAX_MS: u64 = 500;

/// How often one message is retransmitted before the sender gives up on it. It stays pending.
pub const MAX_RETRIES: u32 = 8;

/// The most messages that wait for an acknowledgement; the lowest number is evicted first.
pub const PENDING_CAP: usize = 4096;

/// The most guaranteed messages that a receiver remembers beyond the contiguous prefix.
pub const OOO_CAP: usize = 256;

/// How long a receiver waits for return traffic before it sends an acknowledgement by itself.
pub const ACK_DELAY_MS: u64 = 30;

pub fn guaranteed(options: u32) -> (r: bool)
    ensures
        r == is_guaranteed(options),
{
    options & SEND_GUARANTEED != 0
}

pub open spec fn is_guaranteed(options: u32) -> bool {
    options & SEND_GUARANTEED != 0
}

pub fn sequential(options: u32) -> (r: bool)
    ensures
        r == is_sequential(options),
{
    options & SEND_SEQUENTIAL != 0
}

pub open spec fn is_sequential(options: u32) -> bool {
    options & SEND_SEQUENTIAL != 0
}

/// Whether the sender allows the receiver to acknowledge on return traffic only.
pub open spec fn is_lazy(options: u32) -> bool {
    options & SEND_ALLOW_LAZY_ACKNOWLEDGEMENT != 0
}

/// `a` follows `b` by less than half of the wrapping sequence space.
pub open spec fn newer(a: u32, b: u32) -> bool {
    0 < (a - b) % 0x1_0000_0000 < 0x8000_0000
}

/// The number after `a` in the wrapping sequence space, which leaves out 0.
pub open spec fn succ(a: u32) -> u32 {
    if a == u32::MAX { 1 } else { (a + 1) as u32 }
}

/// The number after `a` in the wrapping sequence space, which leaves out 0.
fn following(a: u32) -> (r: u32)
    ensures
        r == succ(a),
        r != 0,
{
    if a == u32::MAX {
        1
    } else {
        a + 1
    }
}

/// True when `a` is newer than `b` in the wrapping sequence space.
pub fn seq_after(a: u32, b: u32) -> (r: bool)
    ensures
        r == newer(a, b),
{
    let d: u32 = a.wrapping_sub(b);
    0 < d && d < 0x8000_0000
}

/// True when `a` is not newer than `b` in the wrapping sequence space.
pub fn seq_le(a: u32, b: u32) -> (r: bool)
    ensures
        r == !newer(a, b),
{
    !seq_after(a, b)
}

/// The delivery mode as an index: guaranteed before best effort, sequential before nonsequential.
pub fn mode_index(options: u32) -> (r: usize)
    ensures
        r == (if is_guaranteed(options) { 0int } else { 2 }) + (if is_sequential(options) { 0int } else { 1 }),
{
    match (guaranteed(options), sequential(options)) {
        (true, true) => 0,
        (true, false) => 1,
        (false, true) => 2,
        (false, false) => 3,
    }
}

/// The short name of a delivery mode.
pub fn mode_name(mode: usize) -> (r: &'static str)
    requires
        mode < 4,
    ensures
        mode == 0 ==> r@ == "guar-seq"@,
        mode == 1 ==> r@ == "guar-nonseq"@,
        mode == 2 ==> r@ == "best-seq"@,
        mode == 3 ==> r@ == "best-nonseq"@,
{
    if mode == 0 {
        "guar-seq"
    } else if mode == 1 {
        "guar-nonseq"
    } else if mode == 2 {
        "best-seq"
    } else {
        "best-nonseq"
    }
}

/// The options word and the names of its bits.
pub open spec fn options_text(options: u32) -> Seq<char> {
    "0x"@ + text::hex(options as nat, 8) + " ["@ + (if is_guaranteed(options) {
        "GuaranteedDelivery(0x1)"@
    } else {
        "BestEffortDelivery(0x0)"@
    }) + "|"@ + (if is_sequential(options) {
        "SequentialDelivery(0x2)"@
    } else {
        "NonsequentialDelivery(0x0)"@
    }) + (if options & SEND_DONT_COPY_DATA_BUFFERS != 0 {
        "|DontCopyDataBuffers(0x4)"@
    } else {
        ""@
    }) + (if options & SEND_ALWAYS_COALESCE_UNTIL_FLUSHED != 0 {
        "|AlwaysCoalesceUntilFlushed(0x8)"@
    } else {
        ""@
    }) + "|"@ + (if is_lazy(options) {
        "AllowLazyAcknowledgement(0x10)"@
    } else {
        "RequireTimelyAcknowledgement(0x0 default; ignored unless 0x1 is set)"@
    }) + "]"@
}

/// Renders an options word for a reader.
pub fn decode_options(options: u32) -> (r: String)
    ensures
        r@ == options_text(options),
{
    let mut r = String::new();
    r.append("0x");
    text::push_hex(&mut r, options as u64, 8);
    r.append(" [");
    r.append(
        if guaranteed(options) {
            "GuaranteedDelivery(0x1)"
        } else {
            "BestEffortDelivery(0x0)"
        },
    );
    r.append("|");
    r.append(
        if sequential(options) {
            "SequentialDelivery(0x2)"
        } else {
            "NonsequentialDelivery(0x0)"
        },
    );
    r.append(
        if options & SEND_DONT_COPY_DATA_BUFFERS != 0 {
            "|DontCopyDataBuffers(0x4)"
        } else {
            ""
        },
    );
    r.append(
        if options & SEND_ALWAYS_COALESCE_UNTIL_FLUSHED != 0 {
            "|AlwaysCoalesceUntilFlushed(0x8)"
        } else {
            ""
        },
    );
    r.append("|");
    r.append(
        if options & SEND_ALLOW_LAZY_ACKNOWLEDGEMENT != 0 {
            "AllowLazyAcknowledgement(0x10)"
        } else {
            "RequireTimelyAcknowledgement(0x0 default; ignored unless 0x1 is set)"
        },
    );
    r.append("]");
    assert(r@ =~= options_text(options));
    r
}

/// A guaranteed message that waits for its acknowledgement.
#[derive(Clone, Debug)]
pub struct Pending {
    pub payload: Vec<u8>,
    pub options: u32,
    pub first_sent_ms: u64,
    pub last_sent_ms: u64,
    pub retries: u32,
    pub rto_ms: u64,
    pub gave_up: bool,
}

pub struct PendingView {
    pub payload: Seq<u8>,
    pub options: u32,
    pub first_sent_ms: u64,
    pub last_sent_ms: u64,
    pub retries: u32,
    pub rto_ms: u64,
    pub gave_up: bool,
}

impl View for Pending {
    type V = PendingView;

    open spec fn view(&self) -> PendingView {
        PendingView {
            payload: self.payload@,
            options: self.options,
            first_sent_ms: self.first_sent_ms,
            last_sent_ms: self.last_sent_ms,
            retries: self.retries,
            rto_ms: self.rto_ms,
            gave_up: self.gave_up,
        }
    }
}

/// What [`Sender::send`] made of a message.
#[derive(Clone, Debug)]
pub struct Outgoing {
    pub seq: u32,
    pub payload: Vec<u8>,
    pub options: u32,
    /// The number and options of a pending message that had to leave for this one.
    pub evicted: Option<(u32, u32)>,
}

/// A message whose timeout has passed. With `gave_up` set it is not to be sent.
#[derive(Clone, Debug)]
pub struct Retransmit {
    pub seq: u32,
    pub payload: Vec<u8>,
    pub options: u32,
    pub retries: u32,
    pub first: bool,
    pub gave_up: bool,
}

pub struct RetransmitView {
    pub seq: u32,
    pub payload: Seq<u8>,
    pub options: u32,
    pub retries: u32,
    pub first: bool,
    pub gave_up: bool,
}

impl View for Retransmit {
    type V = RetransmitView;

    open spec fn view(&self) -> RetransmitView {
        RetransmitView {
            seq: self.seq,
            payload: self.payload@,
            options: self.options,
            retries: self.retries,
            first: self.first,
            gave_up: self.gave_up,
        }
    }
}

/// The sending side of a pairing.
pub struct Sender {
    pub next_gseq: u32,
    pub next_bseq: u32,
    pub pending: BTreeMap<u32, Pending>,
}

#[verifier::ext_equal]
pub struct SenderView {
    pub next_gseq: u32,
    pub next_bseq: u32,
    pub pending: Map<u32, PendingView>,
}

impl View for Sender {
    type V = SenderView;

    open spec fn view(&self) -> SenderView {
        SenderView {
            next_gseq: self.next_gseq,
            next_bseq: self.next_bseq,
            pending: self.pending@.map_values(|p: Pending| p@),
        }
    }
}

/// The timeout that follows a given number of retries.
pub open spec fn backoff(retries: u32) -> u64
    decreases retries,
{
    if retries == 0 {
        RTO_FIRST_MS
    } else {
        let doubled = 2 * backoff((retries - 1) as u32);
        if doubled < RTO_MAX_MS { doubled as u64 } else { RTO_MAX_MS }
    }
}

/// Every timeout lies between the first one and the limit.
pub proof fn backoff_bounds(retries: u32)
    ensures
        RTO_FIRST_MS <= backoff(retries) <= RTO_MAX_MS,
    decreases retries,
{
    if retries > 0 {
        backoff_bounds((retries - 1) as u32);
    }
}

/// A message as it is pending right after it was sent for the first time.
pub open spec fn fresh(payload: Seq<u8>, options: u32, now_ms: u64) -> PendingView {
    PendingView {
        payload,
        options,
        first_sent_ms: now_ms,
        last_sent_ms: now_ms,
        retries: 0,
        rto_ms: RTO_FIRST_MS,
        gave_up: false,
    }
}

/// A pending message keeps to the retry schedule.
pub open spec fn on_schedule(p: PendingView) -> bool {
    &&& p.retries <= MAX_RETRIES
    &&& p.rto_ms == backoff(p.retries)
    &&& p.gave_up ==> p.retries == MAX_RETRIES
    &&& p.first_sent_ms <= p.last_sent_ms
}

/// The timeout of a pending message has passed.
pub open spec fn is_due(p: PendingView, now_ms: u64) -> bool {
    !p.gave_up && (if now_ms > p.last_sent_ms { now_ms - p.last_sent_ms } else { 0 }) >= p.rto_ms
}

/// When the timeout of a pending message passes, as far as the clock can tell.
pub open spec fn deadline(p: PendingView) -> u64 {
    if p.last_sent_ms + p.rto_ms > u64::MAX {
        u64::MAX
    } else {
        (p.last_sent_ms + p.rto_ms) as u64
    }
}

/// What becomes of a pending message when the sender looks at the clock.
pub open spec fn after_clock(p: PendingView, now_ms: u64) -> PendingView {
    if !is_due(p, now_ms) {
        p
    } else if p.retries >= MAX_RETRIES {
        PendingView { gave_up: true, ..p }
    } else {
        PendingView {
            retries: (p.retries + 1) as u32,
            last_sent_ms: now_ms,
            rto_ms: if 2 * p.rto_ms < RTO_MAX_MS { (2 * p.rto_ms) as u64 } else { RTO_MAX_MS },
            ..p
        }
    }
}

/// The timeouts of a message are 60 ms at first and double with each retry up to 500 ms, for as
/// many retries as it has: a look at the clock keeps a message on that schedule.
pub proof fn retry_keeps_schedule(p: PendingView, now_ms: u64)
    requires
        on_schedule(p),
    ensures
        on_schedule(after_clock(p, now_ms)),
{
    backoff_bounds(p.retries);
    if is_due(p, now_ms) && p.retries < MAX_RETRIES {
        assert(backoff((p.retries + 1) as u32) == after_clock(p, now_ms).rto_ms);
    }
}

/// A message is given up at most once: it is never due again.
pub proof fn given_up_once(p: PendingView, now_ms: u64, later_ms: u64)
    requires
        after_clock(p, now_ms).gave_up,
    ensures
        !is_due(after_clock(p, now_ms), later_ms),
        after_clock(after_clock(p, now_ms), later_ms) == after_clock(p, now_ms),
{
}

/// A message that has not been given up is due from its deadline on, and not before.
pub proof fn due_from_deadline_on(p: PendingView, now_ms: u64)
    requires
        !p.gave_up,
        p.rto_ms > 0,
        p.last_sent_ms + p.rto_ms <= u64::MAX,
    ensures
        is_due(p, now_ms) <==> deadline(p) <= now_ms,
{
}

/// What the sender reports of a pending message whose timeout has passed.
pub open spec fn retransmission(seq: u32, p: PendingView) -> RetransmitView {
    if p.retries >= MAX_RETRIES {
        RetransmitView {
            seq,
            payload: Seq::empty(),
            options: p.options,
            retries: p.retries,
            first: false,
            gave_up: true,
        }
    } else {
        RetransmitView {
            seq,
            payload: p.payload,
            options: p.options,
            retries: (p.retries + 1) as u32,
            first: p.retries == 0,
            gave_up: false,
        }
    }
}

/// `report` lists, by ascending number, one retransmission for each message that is due.
pub open spec fn reports_due(
    report: Seq<Retransmit>,
    pending: Map<u32, PendingView>,
    now_ms: u64,
) -> bool {
    &&& forall|i: int, j: int| 0 <= i < j < report.len() ==> report[i].seq < report[j].seq
    &&& forall|i: int|
        0 <= i < report.len() ==> {
            let seq = (#[trigger] report[i]).seq;
            pending.contains_key(seq) && is_due(pending[seq], now_ms) && report[i]@
                == retransmission(seq, pending[seq])
        }
    &&& forall|k: u32| #[trigger]
        pending.contains_key(k) && is_due(pending[k], now_ms) ==> exists|i: int|
            0 <= i < report.len() && (#[trigger] report[i]).seq == k
}

/// The messages that are due, by ascending number, as the sender reports them.
#[verifier::opaque]
pub open spec fn due_list(pending: Map<u32, PendingView>, now_ms: u64) -> Seq<RetransmitView> {
    table::ascending(due_numbers(pending, now_ms)).map_values(
        |k: u32| retransmission(k, pending[k]),
    )
}

/// The numbers of the messages that are due.
pub open spec fn due_numbers(pending: Map<u32, PendingView>, now_ms: u64) -> Set<u32> {
    pending.dom().filter(|k: u32| is_due(pending[k], now_ms))
}

/// There is one report of what is due.
pub proof fn due_report_is(report: Seq<Retransmit>, pending: Map<u32, PendingView>, now_ms: u64)
    requires
        reports_due(report, pending, now_ms),
    ensures
        report.map_values(|r: Retransmit| r@) == due_list(pending, now_ms),
{
    reveal(due_list);
    let numbers = report.map_values(|r: Retransmit| r.seq);
    let due = due_numbers(pending, now_ms);
    assert forall|k: u32| numbers.contains(k) <==> due.contains(k) by {
        if numbers.contains(k) {
            let i = choose|i: int| 0 <= i < numbers.len() && numbers[i] == k;
            assert(report[i].seq == k);
        }
        if due.contains(k) {
            assert(pending.contains_key(k));
            let i = choose|i: int| 0 <= i < report.len() && (#[trigger] report[i]).seq == k;
            assert(numbers[i] == k);
        }
    }
    table::ascending_is_unique(numbers, due);
    assert forall|i: int| 0 <= i < report.len() implies #[trigger] report[i]@ == due_list(
        pending,
        now_ms,
    )[i] by {
        assert(numbers[i] == report[i].seq);
    }
    assert(report.map_values(|r: Retransmit| r@) =~= due_list(pending, now_ms));
}

/// `cleared` lists, by ascending number, each pending message that is not newer than `ack`.
pub open spec fn reports_acked(
    cleared: Seq<(u32, u32)>,
    pending: Map<u32, PendingView>,
    ack: u32,
) -> bool {
    &&& forall|i: int, j: int| 0 <= i < j < cleared.len() ==> cleared[i].0 < cleared[j].0
    &&& forall|i: int|
        0 <= i < cleared.len() ==> {
            let (seq, options) = #[trigger] cleared[i];
            pending.contains_key(seq) && !newer(seq, ack) && options == pending[seq].options
        }
    &&& forall|k: u32| #[trigger]
        pending.contains_key(k) && !newer(k, ack) ==> exists|i: int|
            0 <= i < cleared.len() && (#[trigger] cleared[i]).0 == k
}

/// The numbers of the pending messages that an acknowledgement covers.
pub open spec fn acked_numbers(pending: Map<u32, PendingView>, ack: u32) -> Set<u32> {
    pending.dom().filter(|k: u32| !newer(k, ack))
}

/// The pending messages that an acknowledgement covers, by ascending number, with their options.
#[verifier::opaque]
pub open spec fn acked_list(pending: Map<u32, PendingView>, ack: u32) -> Seq<(u32, u32)> {
    table::ascending(acked_numbers(pending, ack)).map_values(|k: u32| (k, pending[k].options))
}

/// There is one report of what an acknowledgement covers.
pub proof fn acked_report_is(cleared: Seq<(u32, u32)>, pending: Map<u32, PendingView>, ack: u32)
    requires
        reports_acked(cleared, pending, ack),
    ensures
        cleared == acked_list(pending, ack),
{
    reveal(acked_list);
    let numbers = cleared.map_values(|c: (u32, u32)| c.0);
    let acked = acked_numbers(pending, ack);
    assert forall|k: u32| numbers.contains(k) <==> acked.contains(k) by {
        if numbers.contains(k) {
            let i = choose|i: int| 0 <= i < numbers.len() && numbers[i] == k;
            assert(cleared[i].0 == k);
        }
        if acked.contains(k) {
            assert(pending.contains_key(k));
            let i = choose|i: int| 0 <= i < cleared.len() && (#[trigger] cleared[i]).0 == k;
            assert(numbers[i] == k);
        }
    }
    table::ascending_is_unique(numbers, acked);
    assert forall|i: int| 0 <= i < cleared.len() implies #[trigger] cleared[i] == acked_list(
        pending,
        ack,
    )[i] by {
        assert(numbers[i] == cleared[i].0);
    }
    assert(cleared =~= acked_list(pending, ack));
}

impl SenderView {
    /// What every operation of a sender keeps.
    pub open spec fn wf(self) -> bool {
        &&& self.next_gseq != 0
        &&& self.next_bseq != 0
        &&& !self.pending.contains_key(0)
        &&& self.pending.dom().finite()
        &&& self.pending.len() <= PENDING_CAP
        &&& forall|k: u32| #[trigger] self.pending.contains_key(k) ==> on_schedule(self.pending[k])
    }

    /// The sender without the pending messages that `ack` covers.
    pub open spec fn acked(self, ack: u32) -> SenderView {
        SenderView {
            pending: self.pending.remove_keys(self.pending.dom().filter(|k: u32| !newer(k, ack))),
            ..self
        }
    }

    /// The message that leaves when one more becomes pending.
    pub open spec fn evicts(self) -> Option<(u32, u32)> {
        if self.pending.len() >= PENDING_CAP {
            let k = table::least(self.pending.dom());
            Some((k, self.pending[k].options))
        } else {
            None
        }
    }

    /// What sending a message leads to: the sender afterwards, the number of the message and what
    /// had to leave. Only a guaranteed message becomes pending, and only a guaranteed or a
    /// sequential one is numbered.
    pub open spec fn sending(self, payload: Seq<u8>, options: u32, now_ms: u64) -> (
        SenderView,
        u32,
        Option<(u32, u32)>,
    ) {
        if is_guaranteed(options) {
            let kept = match self.evicts() {
                Some((k, _)) => self.pending.remove(k),
                None => self.pending,
            };
            (
                SenderView {
                    next_gseq: succ(self.next_gseq),
                    next_bseq: self.next_bseq,
                    pending: kept.insert(self.next_gseq, fresh(payload, options, now_ms)),
                },
                self.next_gseq,
                self.evicts(),
            )
        } else if is_sequential(options) {
            (
                SenderView { next_bseq: succ(self.next_bseq), ..self },
                self.next_bseq,
                None,
            )
        } else {
            (self, 0, None)
        }
    }
}

impl Sender {
    pub fn new() -> (r: Sender)
        ensures
            r@ == (SenderView { next_gseq: 1, next_bseq: 1, pending: Map::empty() }),
            r@.wf(),
    {
        let r = Sender { next_gseq: 1, next_bseq: 1, pending: BTreeMap::new() };
        assert(r@.pending =~= Map::empty());
        r
    }

    /// Numbers a guaranteed message and makes it pending.
    fn hold(&mut self, payload: &Vec<u8>, options: u32, now_ms: u64) -> (r: (
        u32,
        Option<(u32, u32)>,
    ))
        ensures
            r.0 == old(self)@.next_gseq,
            r.1 == old(self)@.evicts(),
            final(self).next_gseq == succ(old(self)@.next_gseq),
            final(self).next_bseq == old(self)@.next_bseq,
            final(self)@.pending == (match old(self)@.evicts() {
                Some((k, _)) => old(self)@.pending.remove(k),
                None => old(self)@.pending,
            }).insert(r.0, fresh(payload@, options, now_ms)),
            old(self)@.wf() ==> final(self)@.wf(),
    {
        let mut evicted: Option<(u32, u32)> = None;
        let seq: u32 = self.next_gseq;
        self.next_gseq = following(self.next_gseq);
        assert(old(self)@.pending.dom() =~= old(self).pending@.dom());
        if table::size(&self.pending) >= PENDING_CAP {
            if let Some(k) = table::first_key(&self.pending) {
                if let Some(v) = table::take_out(&mut self.pending, k) {
                    evicted = Some((k, v.options));
                }
            }
        }
        let ghost kept = self@.pending;
        assert(kept =~= match old(self)@.evicts() {
            Some((k, _)) => old(self)@.pending.remove(k),
            None => old(self)@.pending,
        });
        let copy = payload.clone();
        assert(copy@ =~= payload@);
        table::put_in(
            &mut self.pending,
            seq,
            Pending {
                payload: copy,
                options,
                first_sent_ms: now_ms,
                last_sent_ms: now_ms,
                retries: 0,
                rto_ms: RTO_FIRST_MS,
                gave_up: false,
            },
        );
        assert(self@.pending =~= kept.insert(seq, fresh(payload@, options, now_ms)));
        (seq, evicted)
    }

    /// Numbers a message where its mode asks for a number. A guaranteed one becomes pending, in
    /// place of the pending message with the lowest number where the limit is reached.
    pub fn send(&mut self, payload: Vec<u8>, options: u32, now_ms: u64) -> (r: Outgoing)
        ensures
            r.payload@ == payload@,
            r.options == options,
            final(self)@ == old(self)@.sending(payload@, options, now_ms).0,
            r.seq == old(self)@.sending(payload@, options, now_ms).1,
            r.evicted == old(self)@.sending(payload@, options, now_ms).2,
            old(self)@.wf() ==> final(self)@.wf(),
            old(self)@.wf() ==> (r.seq != 0 <==> is_guaranteed(options) || is_sequential(options)),
    {
        if !PARTY_RELIABLE {
            return Outgoing { seq: 0, payload, options, evicted: None };
        }
        if guaranteed(options) {
            let (seq, evicted) = self.hold(&payload, options, now_ms);
            Outgoing { seq, payload, options, evicted }
        } else if sequential(options) {
            let seq: u32 = self.next_bseq;
            self.next_bseq = following(self.next_bseq);
            Outgoing { seq, payload, options, evicted: None }
        } else {
            Outgoing { seq: 0, payload, options, evicted: None }
        }
    }

    /// Cumulative acknowledgement: clears every pending message that is not newer than `ack`, and
    /// returns the number and options of each.
    pub fn on_ack(&mut self, ack: u32) -> (cleared: Vec<(u32, u32)>)
        ensures
            reports_acked(cleared@, old(self)@.pending, ack),
            final(self)@ == old(self)@.acked(ack),
            old(self)@.wf() ==> final(self)@.wf(),
    {
        let ghost before = self@.pending;
        let keys = table::ascending_keys(&self.pending);
        let mut cleared: Vec<(u32, u32)> = Vec::new();
        let mut i: usize = 0;
        while i < keys.len()
            invariant
                i <= keys.len(),
                forall|a: int, b: int| 0 <= a < b < keys@.len() ==> keys@[a] < keys@[b],
                forall|k: u32| keys@.contains(k) <==> before.contains_key(k),
                before == old(self)@.pending,
                self.next_gseq == old(self).next_gseq,
                self.next_bseq == old(self).next_bseq,
                forall|k: u32| #[trigger]
                    self@.pending.contains_key(k) <==> before.contains_key(k) && !(!newer(k, ack)
                        && keys@.take(i as int).contains(k)),
                forall|k: u32| #[trigger]
                    self@.pending.contains_key(k) ==> self@.pending[k] == before[k],
                forall|a: int, b: int| 0 <= a < b < cleared@.len() ==> cleared@[a].0 < cleared@[b].0,
                forall|a: int|
                    0 <= a < cleared@.len() ==> {
                        let (seq, options) = #[trigger] cleared@[a];
                        before.contains_key(seq) && !newer(seq, ack) && options
                            == before[seq].options && (i < keys@.len() ==> seq < keys@[i as int])
                    },
                forall|b: int|
                    0 <= b < i && !newer(#[trigger] keys@[b], ack) ==> exists|a: int|
                        0 <= a < cleared@.len() && (#[trigger] cleared@[a]).0 == keys@[b],
            decreases keys.len() - i,
        {
            let k: u32 = keys[i];
            let ghost here = cleared@;
            let ghost left = self@.pending;
            assert(keys@.contains(k));
            assert(!keys@.take(i as int).contains(k));
            assert(self@.pending.contains_key(k));
            assert(keys@.take(i + 1) =~= keys@.take(i as int).push(k));
            assert forall|j: u32| keys@.take(i + 1).contains(j) <==> keys@.take(i as int).contains(j)
                || j == k by {
                let short = keys@.take(i as int);
                if short.contains(j) {
                    let n = choose|n: int| 0 <= n < short.len() && short[n] == j;
                    assert(short.push(k)[n] == j);
                }
                assert(short.push(k)[short.len() as int] == k);
            }
            if seq_le(k, ack) {
                if let Some(p) = table::take_out(&mut self.pending, k) {
                    assert(self@.pending =~= left.remove(k));
                    cleared.push((k, p.options));
                    assert(cleared@[here.len() as int].0 == k);
                    assert forall|b: int| 0 <= b < i && !newer(#[trigger] keys@[b], ack) implies exists|
                        a: int,
                    |
                        0 <= a < cleared@.len() && (#[trigger] cleared@[a]).0 == keys@[b] by {
                        let a = choose|a: int|
                            0 <= a < here.len() && (#[trigger] here[a]).0 == keys@[b];
                        assert(cleared@[a].0 == keys@[b]);
                    }
                }
            }
            i += 1;
        }
        proof {
            assert(keys@.take(i as int) =~= keys@);
            let gone = before.dom().filter(|k: u32| !newer(k, ack));
            assert(self@.pending =~= before.remove_keys(gone));
            assert forall|k: u32| #[trigger]
                before.contains_key(k) && !newer(k, ack) implies exists|a: int|
                0 <= a < cleared@.len() && (#[trigger] cleared@[a]).0 == k by {
                assert(keys@.contains(k));
                let b = choose|b: int| 0 <= b < keys@.len() && keys@[b] == k;
                assert(!newer(keys@[b], ack));
            }
            if old(self)@.wf() {
                vstd::set_lib::lemma_len_subset(self@.pending.dom(), before.dom());
            }
        }
        cleared
    }

    /// The earliest time at which a pending message is to be retransmitted, if any still is.
    pub fn next_rto_ms(&self) -> (r: Option<u64>)
        ensures
            r is None <==> forall|k: u32| #[trigger]
                self@.pending.contains_key(k) ==> self@.pending[k].gave_up,
            r is Some ==> {
                &&& exists|k: u32| #[trigger]
                    self@.pending.contains_key(k) && !self@.pending[k].gave_up && deadline(
                        self@.pending[k],
                    ) == r->0
                &&& forall|k: u32| #[trigger]
                    self@.pending.contains_key(k) && !self@.pending[k].gave_up ==> r->0 <= deadline(
                        self@.pending[k],
                    )
            },
    {
        let keys = table::ascending_keys(&self.pending);
        let mut r: Option<u64> = None;
        let mut i: usize = 0;
        while i < keys.len()
            invariant
                i <= keys.len(),
                forall|k: u32| keys@.contains(k) <==> self@.pending.contains_key(k),
                r is None <==> forall|j: int|
                    0 <= j < i ==> self@.pending[#[trigger] keys@[j]].gave_up,
                r is Some ==> {
                    &&& exists|j: int|
                        0 <= j < i && !self@.pending[#[trigger] keys@[j]].gave_up && deadline(
                            self@.pending[keys@[j]],
                        ) == r->0
                    &&& forall|j: int|
                        0 <= j < i && !self@.pending[#[trigger] keys@[j]].gave_up ==> r->0
                            <= deadline(self@.pending[keys@[j]])
                },
            decreases keys.len() - i,
        {
            assert(keys@.contains(keys@[i as int]));
            if let Some(p) = table::get(&self.pending, keys[i]) {
                assert(p@ == self@.pending[keys@[i as int]]);
                if !p.gave_up {
                    let t: u64 = p.last_sent_ms.saturating_add(p.rto_ms);
                    r = match r {
                        Some(best) if best <= t => Some(best),
                        _ => Some(t),
                    };
                }
            }
            i += 1;
        }
        proof {
            assert forall|k: u32| #[trigger] self@.pending.contains_key(k) implies exists|j: int|
                0 <= j < keys@.len() && #[trigger] keys@[j] == k by {
                assert(keys@.contains(k));
            }
            if r is Some {
                let j = choose|j: int|
                    0 <= j < keys@.len() && !self@.pending[#[trigger] keys@[j]].gave_up && deadline(
                        self@.pending[keys@[j]],
                    ) == r->0;
                assert(keys@.contains(keys@[j]));
                assert(self@.pending.contains_key(keys@[j]));
            } else {
                assert forall|k: u32| #[trigger] self@.pending.contains_key(k) implies self@.pending[k].gave_up by {
                    let j = choose|j: int| 0 <= j < keys@.len() && #[trigger] keys@[j] == k;
                }
            }
        }
        r
    }

    /// The messages whose timeout has passed at `now_ms`, each counted as one more retry with a
    /// doubled timeout. A message out of retries is reported once more, as given up.
    pub fn due(&mut self, now_ms: u64) -> (report: Vec<Retransmit>)
        ensures
            reports_due(report@, old(self)@.pending, now_ms),
            final(self)@ == (SenderView {
                pending: old(self)@.pending.map_values(|p: PendingView| after_clock(p, now_ms)),
                ..old(self)@
            }),
            old(self)@.wf() ==> final(self)@.wf(),
    {
        let mut report: Vec<Retransmit> = Vec::new();
        if !PARTY_RELIABLE {
            return report;
        }
        let ghost before = self@.pending;
        let keys = table::ascending_keys(&self.pending);
        let mut i: usize = 0;
        while i < keys.len()
            invariant
                i <= keys.len(),
                forall|a: int, b: int| 0 <= a < b < keys@.len() ==> keys@[a] < keys@[b],
                forall|k: u32| keys@.contains(k) <==> before.contains_key(k),
                before == old(self)@.pending,
                self.next_gseq == old(self).next_gseq,
                self.next_bseq == old(self).next_bseq,
                self@.pending.dom() == before.dom(),
                forall|b: int|
                    0 <= b < i ==> self@.pending[#[trigger] keys@[b]] == after_clock(
                        before[keys@[b]],
                        now_ms,
                    ),
                forall|b: int|
                    i <= b < keys@.len() ==> self@.pending[#[trigger] keys@[b]] == before[keys@[b]],
                forall|a: int, b: int| 0 <= a < b < report@.len() ==> report@[a].seq < report@[b].seq,
                forall|a: int|
                    0 <= a < report@.len() ==> {
                        let seq = (#[trigger] report@[a]).seq;
                        before.contains_key(seq) && is_due(before[seq], now_ms) && report@[a]@
                            == retransmission(seq, before[seq]) && (i < keys@.len() ==> seq
                            < keys@[i as int])
                    },
                forall|b: int|
                    0 <= b < i && is_due(before[#[trigger] keys@[b]], now_ms) ==> exists|a: int|
                        0 <= a < report@.len() && (#[trigger] report@[a]).seq == keys@[b],
            decreases keys.len() - i,
        {
            let k: u32 = keys[i];
            let ghost here = report@;
            let ghost left = self@.pending;
            assert(keys@.contains(k));
            assert(left.dom().contains(k));
            if let Some(mut p) = table::take_out(&mut self.pending, k) {
                assert(p@ == before[k]);
                if !p.gave_up && now_ms.saturating_sub(p.last_sent_ms) >= p.rto_ms {
                    if p.retries >= MAX_RETRIES {
                        p.gave_up = true;
                        report.push(
                            Retransmit {
                                seq: k,
                                payload: Vec::new(),
                                options: p.options,
                                retries: p.retries,
                                first: false,
                                gave_up: true,
                            },
                        );
                    } else {
                        p.retries = p.retries + 1;
                        p.last_sent_ms = now_ms;
                        p.rto_ms = if p.rto_ms < RTO_MAX_MS && 2 * p.rto_ms < RTO_MAX_MS {
                            2 * p.rto_ms
                        } else {
                            RTO_MAX_MS
                        };
                        let copy = p.payload.clone();
                        assert(copy@ =~= p.payload@);
                        report.push(
                            Retransmit {
                                seq: k,
                                payload: copy,
                                options: p.options,
                                retries: p.retries,
                                first: p.retries == 1,
                                gave_up: false,
                            },
                        );
                    }
                    assert(report@[here.len() as int].seq == k);
                    assert(report@[here.len() as int]@ == retransmission(k, before[k]));
                }
                assert(p@ == after_clock(before[k], now_ms));
                table::put_in(&mut self.pending, k, p);
                assert(self@.pending =~= left.insert(k, after_clock(before[k], now_ms)));
                assert(self@.pending.dom() =~= before.dom());
            }
            assert forall|b: int| 0 <= b < i && is_due(before[#[trigger] keys@[b]], now_ms) implies exists|
                a: int,
            |
                0 <= a < report@.len() && (#[trigger] report@[a]).seq == keys@[b] by {
                let a = choose|a: int| 0 <= a < here.len() && (#[trigger] here[a]).seq == keys@[b];
                assert(report@[a].seq == keys@[b]);
            }
            i += 1;
        }
        proof {
            let then = before.map_values(|p: PendingView| after_clock(p, now_ms));
            assert forall|k: u32| #[trigger] before.contains_key(k) implies exists|b: int|
                0 <= b < keys@.len() && #[trigger] keys@[b] == k by {
                assert(keys@.contains(k));
            }
            assert forall|k: u32| #[trigger]
                before.contains_key(k) && is_due(before[k], now_ms) implies exists|a: int|
                0 <= a < report@.len() && (#[trigger] report@[a]).seq == k by {
                let b = choose|b: int| 0 <= b < keys@.len() && #[trigger] keys@[b] == k;
            }
            assert forall|k: u32| #[trigger] before.contains_key(k) implies self@.pending[k]
                == then[k] by {
                let b = choose|b: int| 0 <= b < keys@.len() && #[trigger] keys@[b] == k;
            }
            assert(self@.pending =~= then);
            if old(self)@.wf() {
                assert forall|k: u32| #[trigger] then.contains_key(k) implies on_schedule(then[k]) by {
                    assert(before.contains_key(k));
                    retry_keeps_schedule(before[k], now_ms);
                }
            }
        }
        report
    }

    /// The endpoint is gone: nothing is pending and numbering starts over. Returns how many
    /// messages were pending.
    pub fn drop_all(&mut self) -> (n: usize)
        ensures
            n == old(self)@.pending.len(),
            final(self)@ == (SenderView { next_gseq: 1, next_bseq: 1, pending: Map::empty() }),
            final(self)@.wf(),
    {
        assert(self@.pending.dom() =~= self.pending@.dom());
        let n: usize = table::size(&self.pending);
        self.pending.clear();
        self.next_gseq = 1;
        self.next_bseq = 1;
        assert(self@.pending =~= Map::empty());
        n
    }
}

impl Default for Sender {
    fn default() -> (r: Sender)
        ensures
            r@ == (SenderView { next_gseq: 1, next_bseq: 1, pending: Map::empty() }),
    {
        Sender::new()
    }
}

/// A payload that a receiver hands to the application, with the options it was sent with.
#[derive(Clone, Debug)]
pub struct RecvMsg {
    pub payload: Vec<u8>,
    pub options: u32,
}

pub struct MsgView {
    pub payload: Seq<u8>,
    pub options: u32,
}

impl View for RecvMsg {
    type V = MsgView;

    open spec fn view(&self) -> MsgView {
        MsgView { payload: self.payload@, options: self.options }
    }
}

/// What a receiver made of an arriving message.
#[derive(Clone, Debug)]
pub enum RecvOutcome {
    /// Handed to the application, in this order.
    Delivered(Vec<RecvMsg>),
    /// Kept until the messages before it have arrived.
    Queued { seq: u32, expected: u32 },
    DroppedDuplicate,
    /// Best effort and not newer than one that was delivered.
    DroppedOutOfOrder { seq: u32, high: u32 },
}

#[verifier::ext_equal]
pub enum OutcomeView {
    Delivered(Seq<MsgView>),
    Queued { seq: u32, expected: u32 },
    DroppedDuplicate,
    DroppedOutOfOrder { seq: u32, high: u32 },
}

/// The models of a list of messages.
pub open spec fn msgs(v: Seq<RecvMsg>) -> Seq<MsgView> {
    v.map_values(|m: RecvMsg| m@)
}

impl View for RecvOutcome {
    type V = OutcomeView;

    open spec fn view(&self) -> OutcomeView {
        match *self {
            RecvOutcome::Delivered(v) => OutcomeView::Delivered(msgs(v@)),
            RecvOutcome::Queued { seq, expected } => OutcomeView::Queued { seq, expected },
            RecvOutcome::DroppedDuplicate => OutcomeView::DroppedDuplicate,
            RecvOutcome::DroppedOutOfOrder { seq, high } => OutcomeView::DroppedOutOfOrder {
                seq,
                high,
            },
        }
    }
}

/// The receiving side of a pairing.
pub struct Receiver {
    /// The first guaranteed number that is missing: all before it have arrived.
    pub g_next: u32,
    /// What has arrived beyond it: options and payload of a sequential message, the options alone
    /// of a nonsequential one, which was handed over at once.
    pub g_buf: BTreeMap<u32, (u32, Vec<u8>)>,
    pub be_last: u32,
    pub be_seen: bool,
    /// When the first message that no acknowledgement covers yet arrived.
    pub ack_due_at: Option<u64>,
    /// What left the buffer in the last call of [`Receiver::on_message`].
    pub last_evicted: Option<u32>,
}

#[verifier::ext_equal]
pub struct ReceiverView {
    pub g_next: u32,
    pub g_buf: Map<u32, MsgView>,
    pub be_last: u32,
    pub be_seen: bool,
    pub ack_due_at: Option<u64>,
    pub last_evicted: Option<u32>,
}

/// The model of the messages in a buffer.
pub open spec fn buffered(m: Map<u32, (u32, Vec<u8>)>) -> Map<u32, MsgView> {
    m.map_values(|e: (u32, Vec<u8>)| MsgView { payload: e.1@, options: e.0 })
}

impl View for Receiver {
    type V = ReceiverView;

    open spec fn view(&self) -> ReceiverView {
        ReceiverView {
            g_next: self.g_next,
            g_buf: buffered(self.g_buf@),
            be_last: self.be_last,
            be_seen: self.be_seen,
            ack_due_at: self.ack_due_at,
            last_evicted: self.last_evicted,
        }
    }
}

/// What a remembered message still has to hand over: a nonsequential one was handed over when it
/// arrived.
pub open spec fn still_owed(m: MsgView) -> Seq<MsgView> {
    if is_sequential(m.options) { seq![m] } else { Seq::empty() }
}

/// The messages that a buffer releases when everything before `next` has arrived: those numbered
/// without a gap from `next` on.
pub open spec fn released(next: u32, buf: Map<u32, MsgView>) -> Seq<MsgView>
    decreases buf.dom().len(),
{
    if buf.dom().finite() && buf.contains_key(next) {
        still_owed(buf[next]) + released(succ(next), buf.remove(next))
    } else {
        Seq::empty()
    }
}

/// The first number from `next` on that a buffer lacks.
pub open spec fn first_gap(next: u32, buf: Map<u32, MsgView>) -> u32
    decreases buf.dom().len(),
{
    if buf.dom().finite() && buf.contains_key(next) {
        first_gap(succ(next), buf.remove(next))
    } else {
        next
    }
}

/// What stays in a buffer that released its messages from `next` on.
pub open spec fn unreleased(next: u32, buf: Map<u32, MsgView>) -> Map<u32, MsgView>
    decreases buf.dom().len(),
{
    if buf.dom().finite() && buf.contains_key(next) {
        unreleased(succ(next), buf.remove(next))
    } else {
        buf
    }
}

/// A buffer that released its messages is a part of what it was, without the next number.
proof fn lemma_unreleased(next: u32, buf: Map<u32, MsgView>)
    requires
        buf.dom().finite(),
    ensures
        unreleased(next, buf).submap_of(buf),
        unreleased(next, buf).dom().finite(),
        unreleased(next, buf).len() <= buf.len(),
        !unreleased(next, buf).contains_key(first_gap(next, buf)),
        next != 0 ==> first_gap(next, buf) != 0,
    decreases buf.dom().len(),
{
    if buf.contains_key(next) {
        lemma_unreleased(succ(next), buf.remove(next));
    }
}

impl ReceiverView {
    /// A receiver that nothing has arrived at.
    pub open spec fn start() -> ReceiverView {
        ReceiverView {
            g_next: 1,
            g_buf: Map::empty(),
            be_last: 0,
            be_seen: false,
            ack_due_at: None,
            last_evicted: None,
        }
    }

    /// What every operation of a receiver keeps.
    pub open spec fn wf(self) -> bool {
        &&& self.g_next != 0
        &&& self.g_buf.dom().finite()
        &&& self.g_buf.len() <= OOO_CAP
        &&& !self.g_buf.contains_key(self.g_next)
        &&& !self.g_buf.contains_key(0)
    }

    /// The cumulative acknowledgement: nothing up to it is missing. Where the first number is the
    /// next one it is 0, which no message has; it covers nothing at the start, and the numbers
    /// before the turn later.
    pub open spec fn ack(self) -> u32 {
        if self.g_next == 0 { u32::MAX } else { (self.g_next - 1) as u32 }
    }

    /// A guaranteed message of this number has arrived before, as far as is remembered.
    pub open spec fn has_seen(self, seq: u32) -> bool {
        !newer(seq, self.ack()) || self.g_buf.contains_key(seq)
    }

    /// The number that leaves a full buffer: the highest.
    pub open spec fn overflow(self) -> Option<u32> {
        if self.g_buf.len() >= OOO_CAP { Some(table::greatest(self.g_buf.dom())) } else { None }
    }

    /// The receiver with one more message remembered.
    pub open spec fn remembering(self, seq: u32, m: MsgView) -> ReceiverView {
        let kept = match self.overflow() {
            Some(k) => self.g_buf.remove(k),
            None => self.g_buf,
        };
        ReceiverView { g_buf: kept.insert(seq, m), last_evicted: self.overflow(), ..self }
    }

    /// The receiver once its buffer has released what it can.
    pub open spec fn settled(self) -> ReceiverView {
        ReceiverView {
            g_next: first_gap(self.g_next, self.g_buf),
            g_buf: unreleased(self.g_next, self.g_buf),
            ..self
        }
    }

    /// A guaranteed message starts the acknowledgement timer, unless it runs or the sender is lazy.
    pub open spec fn timed(self, options: u32, now_ms: u64) -> ReceiverView {
        ReceiverView {
            ack_due_at: if is_lazy(options) || self.ack_due_at is Some {
                self.ack_due_at
            } else {
                Some(now_ms)
            },
            last_evicted: None,
            ..self
        }
    }

    /// What an arriving message leads to: the receiver afterwards and the outcome.
    pub open spec fn receive(
        self,
        seq: u32,
        m: MsgView,
        now_ms: u64,
    ) -> (ReceiverView, OutcomeView) {
        let quiet = ReceiverView { last_evicted: None, ..self };
        if seq == 0 || (!is_guaranteed(m.options) && !is_sequential(m.options)) {
            (quiet, OutcomeView::Delivered(seq![m]))
        } else if is_guaranteed(m.options) {
            let timed = self.timed(m.options, now_ms);
            if self.has_seen(seq) {
                (timed, OutcomeView::DroppedDuplicate)
            } else if !is_sequential(m.options) {
                let held = timed.remembering(
                    seq,
                    MsgView { payload: Seq::empty(), options: m.options },
                );
                (
                    held.settled(),
                    OutcomeView::Delivered(seq![m] + released(held.g_next, held.g_buf)),
                )
            } else if seq == self.g_next {
                let moved = ReceiverView { g_next: succ(self.g_next), ..timed };
                (
                    moved.settled(),
                    OutcomeView::Delivered(seq![m] + released(moved.g_next, moved.g_buf)),
                )
            } else {
                (
                    timed.remembering(seq, m),
                    OutcomeView::Queued { seq, expected: self.g_next },
                )
            }
        } else if self.be_seen && !newer(seq, self.be_last) {
            (quiet, OutcomeView::DroppedOutOfOrder { seq, high: self.be_last })
        } else {
            (
                ReceiverView { be_seen: true, be_last: seq, ..quiet },
                OutcomeView::Delivered(seq![m]),
            )
        }
    }
}

impl Receiver {
    pub fn new() -> (r: Receiver)
        ensures
            r@ == ReceiverView::start(),
            r@.wf(),
    {
        let r = Receiver {
            g_next: 1,
            g_buf: BTreeMap::new(),
            be_last: 0,
            be_seen: false,
            ack_due_at: None,
            last_evicted: None,
        };
        assert(r@.g_buf =~= Map::empty());
        r
    }

    /// The cumulative acknowledgement that this receiver owes.
    pub fn ack_value(&self) -> (r: u32)
        ensures
            r == self@.ack(),
    {
        self.g_next.wrapping_sub(1)
    }

    pub fn buffered_len(&self) -> (n: usize)
        ensures
            n == self@.g_buf.len(),
    {
        assert(self@.g_buf.dom() =~= self.g_buf@.dom());
        table::size(&self.g_buf)
    }

    /// Moves what the buffer can release from `g_next` on to the end of `out`.
    fn release(&mut self, out: &mut Vec<RecvMsg>)
        ensures
            final(self)@ == old(self)@.settled(),
            msgs(final(out)@) == msgs(old(out)@) + released(
                old(self)@.g_next,
                old(self)@.g_buf,
            ),
    {
        assert(self@.g_buf.dom() =~= self.g_buf@.dom());
        let mut more = true;
        while more
            invariant
                self@.g_buf.dom().finite(),
                self.be_last == old(self).be_last,
                self.be_seen == old(self).be_seen,
                self.ack_due_at == old(self).ack_due_at,
                self.last_evicted == old(self).last_evicted,
                first_gap(self@.g_next, self@.g_buf) == first_gap(
                    old(self)@.g_next,
                    old(self)@.g_buf,
                ),
                unreleased(self@.g_next, self@.g_buf) == unreleased(
                    old(self)@.g_next,
                    old(self)@.g_buf,
                ),
                msgs(out@) + released(self@.g_next, self@.g_buf) == msgs(old(out)@) + released(
                    old(self)@.g_next,
                    old(self)@.g_buf,
                ),
                !more ==> !self@.g_buf.contains_key(self@.g_next),
            decreases self@.g_buf.dom().len() + (if more { 1int } else { 0 }),
        {
            let ghost here = self@;
            let ghost sofar = msgs(out@);
            if let Some((options, payload)) = table::take_out(&mut self.g_buf, self.g_next) {
                self.g_next = following(self.g_next);
                let ghost m = MsgView { payload: payload@, options };
                assert(here.g_buf[here.g_next] == m);
                assert(self@.g_buf =~= here.g_buf.remove(here.g_next));
                if sequential(options) {
                    out.push(RecvMsg { payload, options });
                    assert(msgs(out@) =~= sofar.push(m));
                }
                assert(msgs(out@) =~= sofar + still_owed(m));
                assert(sofar + released(here.g_next, here.g_buf) =~= msgs(out@) + released(
                    self@.g_next,
                    self@.g_buf,
                ));
            } else {
                assert(self@.g_buf =~= here.g_buf);
                more = false;
            }
        }
        assert(released(self@.g_next, self@.g_buf) =~= Seq::empty());
    }

    /// Makes room in a full buffer, highest number first so that the prefix stays reachable, and
    /// remembers a message.
    fn remember(&mut self, seq: u32, options: u32, payload: Vec<u8>)
        requires
            old(self)@.last_evicted is None,
        ensures
            final(self)@ == old(self)@.remembering(seq, MsgView { payload: payload@, options }),
            final(self)@.g_buf.dom().finite(),
            old(self)@.g_buf.len() <= OOO_CAP ==> final(self)@.g_buf.len() <= OOO_CAP,
    {
        assert(self@.g_buf.dom() =~= self.g_buf@.dom());
        if table::size(&self.g_buf) >= OOO_CAP {
            if let Some(k) = table::last_key(&self.g_buf) {
                table::take_out(&mut self.g_buf, k);
                self.last_evicted = Some(k);
            }
        }
        table::put_in(&mut self.g_buf, seq, (options, payload));
        assert(self@.g_buf.dom() =~= self.g_buf@.dom());
        assert(self@.g_buf =~= old(self)@.remembering(
            seq,
            MsgView { payload: payload@, options },
        ).g_buf);
    }

    /// Takes in one message.
    pub fn on_message(&mut self, seq: u32, options: u32, payload: Vec<u8>, now_ms: u64) -> (r:
        RecvOutcome)
        ensures
            (final(self)@, r@) == old(self)@.receive(
                seq,
                MsgView { payload: payload@, options },
                now_ms,
            ),
            old(self)@.wf() ==> final(self)@.wf(),
    {
        let ghost m = MsgView { payload: payload@, options };
        assert(self@.g_buf.dom() =~= self.g_buf@.dom());
        self.last_evicted = None;
        if !PARTY_RELIABLE || seq == 0 {
            let r = RecvOutcome::Delivered(vec![RecvMsg { payload, options }]);
            assert(r@->Delivered_0 =~= seq![m]);
            return r;
        }
        if guaranteed(options) {
            if options & SEND_ALLOW_LAZY_ACKNOWLEDGEMENT == 0 {
                if self.ack_due_at.is_none() {
                    self.ack_due_at = Some(now_ms);
                }
            }
            let ghost timed = self@;
            if seq_le(seq, self.ack_value()) || table::has(&self.g_buf, seq) {
                return RecvOutcome::DroppedDuplicate;
            }
            let mut out: Vec<RecvMsg> = Vec::new();
            if sequential(options) {
                if seq == self.g_next {
                    out.push(RecvMsg { payload, options });
                    assert(msgs(out@) =~= seq![m]);
                    self.g_next = following(self.g_next);
                    self.release(&mut out);
                    proof {
                        lemma_unreleased(succ(timed.g_next), timed.g_buf);
                    }
                    return RecvOutcome::Delivered(out);
                }
                self.remember(seq, options, payload);
                return RecvOutcome::Queued { seq, expected: self.g_next };
            }
            self.remember(seq, options, Vec::new());
            out.push(RecvMsg { payload, options });
            assert(msgs(out@) =~= seq![m]);
            proof {
                lemma_unreleased(self@.g_next, self@.g_buf);
                assert(timed.wf() ==> !self@.g_buf.contains_key(0));
            }
            self.release(&mut out);
            return RecvOutcome::Delivered(out);
        }
        if sequential(options) {
            if self.be_seen && !seq_after(seq, self.be_last) {
                return RecvOutcome::DroppedOutOfOrder { seq, high: self.be_last };
            }
            self.be_seen = true;
            self.be_last = seq;
        }
        let r = RecvOutcome::Delivered(vec![RecvMsg { payload, options }]);
        assert(r@->Delivered_0 =~= seq![m]);
        r
    }

    /// A packet to the peer is about to carry the acknowledgement: returns it and stops the timer.
    pub fn piggyback_ack(&mut self) -> (r: u32)
        ensures
            r == old(self)@.ack(),
            final(self)@ == (ReceiverView { ack_due_at: None, ..old(self)@ }),
    {
        self.ack_due_at = None;
        self.ack_value()
    }

    /// When an acknowledgement is to be sent by itself, if one is owed.
    pub fn next_ack_due_ms(&self) -> (r: Option<u64>)
        ensures
            r == ack_deadline(self@.ack_due_at),
    {
        match self.ack_due_at {
            Some(t) => Some(t.saturating_add(ACK_DELAY_MS)),
            None => None,
        }
    }

    /// The acknowledgement to send by itself, once no packet has carried it in time.
    pub fn forced_ack(&mut self, now_ms: u64) -> (r: Option<u32>)
        ensures
            is_ack_overdue(old(self)@.ack_due_at, now_ms) ==> {
                &&& r == Some(old(self)@.ack())
                &&& final(self)@ == (ReceiverView { ack_due_at: None, ..old(self)@ })
            },
            !is_ack_overdue(old(self)@.ack_due_at, now_ms) ==> {
                &&& r is None
                &&& final(self)@ == old(self)@
            },
    {
        if let Some(t) = self.ack_due_at {
            if now_ms.saturating_sub(t) >= ACK_DELAY_MS {
                self.ack_due_at = None;
                return Some(self.ack_value());
            }
        }
        None
    }
}

impl Default for Receiver {
    fn default() -> (r: Receiver)
        ensures
            r@ == ReceiverView::start(),
    {
        Receiver::new()
    }
}

/// When an acknowledgement is to be sent by itself, as far as the clock can tell.
pub open spec fn ack_deadline(ack_due_at: Option<u64>) -> Option<u64> {
    match ack_due_at {
        Some(t) => Some(
            if t + ACK_DELAY_MS > u64::MAX { u64::MAX } else { (t + ACK_DELAY_MS) as u64 },
        ),
        None => None,
    }
}

/// An acknowledgement has been owed for the full delay.
pub open spec fn is_ack_overdue(ack_due_at: Option<u64>, now_ms: u64) -> bool {
    ack_due_at is Some && now_ms - ack_due_at->0 >= ACK_DELAY_MS
}

/// Of two numbers less than half of the sequence space apart, one is newer exactly when the other
/// is not and they differ.
pub proof fn newer_is_antisymmetric(a: u32, b: u32)
    requires
        (a - b) % 0x1_0000_0000 != 0x8000_0000,
    ensures
        newer(a, b) <==> !newer(b, a) && a != b,
{
}

/// What an outcome hands to the application.
pub open spec fn handed_over(o: OutcomeView) -> Seq<MsgView> {
    match o {
        OutcomeView::Delivered(v) => v,
        _ => Seq::empty(),
    }
}

/// The number of the message at a place of a stream. The first has number 1, and behind the highest
/// number the numbers start over with 1.
pub open spec fn number(place: int) -> u32 {
    (1 + place % 0xffff_ffff) as u32
}

/// The first place from `from` on at which a message has this number.
pub open spec fn place_from(from: int, seq: u32) -> int {
    from + (seq - 1 - from) % 0xffff_ffff
}

/// The receiver has taken in part of a stream: the messages before place `p`, which its
/// acknowledgement covers, and the ones in its buffer.
pub open spec fn follows(r: ReceiverView, sent: Seq<MsgView>, p: int) -> bool {
    &&& 0 <= p <= sent.len()
    &&& r.g_next == number(p)
    &&& r.g_buf.dom().finite()
    &&& forall|k: u32| #[trigger] r.g_buf.contains_key(k) ==> ahead(sent, p, k, r.g_buf[k])
}

/// A message of this number belongs to a stream, behind place `p`.
pub open spec fn ahead(sent: Seq<MsgView>, p: int, seq: u32, m: MsgView) -> bool {
    seq != 0 && p < place_from(p, seq) < sent.len() && m == sent[place_from(p, seq)]
}

/// All messages of a stream are guaranteed and sequential.
pub open spec fn is_ordered_stream(sent: Seq<MsgView>) -> bool {
    forall|i: int|
        0 <= i < sent.len() ==> is_guaranteed((#[trigger] sent[i]).options) && is_sequential(
            sent[i].options,
        )
}

/// A number behind a place has the same place from the next one on, unless that is where it stands.
proof fn lemma_next_place(p: int, k: u32)
    requires
        0 <= p,
        k != 0,
        place_from(p - 1, k) > p - 1,
    ensures
        k == number(p) ==> place_from(p - 1, k) == p,
        k != number(p) ==> place_from(p - 1, k) == place_from(p, k) && place_from(p, k) > p,
        succ(number(p)) == number(p + 1),
{
    let m: int = 0xffff_ffff;
    let x = (k - 1 - p) % m;
    assert((k - p) % m == if x == m - 1 { 0 } else { x + 1 });
    assert(x == 0 <==> k - 1 == p % m);
}

/// A buffer that holds part of a stream releases the stream from its next message on.
proof fn lemma_released_stream(p: int, buf: Map<u32, MsgView>, sent: Seq<MsgView>)
    requires
        buf.dom().finite(),
        is_ordered_stream(sent),
        0 <= p <= sent.len(),
        forall|k: u32| #[trigger] buf.contains_key(k) ==> ahead(sent, p - 1, k, buf[k]),
    ensures
        ({
            let q = p + released(number(p), buf).len();
            &&& p <= q <= sent.len()
            &&& released(number(p), buf) == sent.subrange(p, q)
            &&& first_gap(number(p), buf) == number(q)
            &&& unreleased(number(p), buf).dom().finite()
            &&& forall|k: u32| #[trigger]
                unreleased(number(p), buf).contains_key(k) ==> ahead(
                    sent,
                    q,
                    k,
                    unreleased(number(p), buf)[k],
                )
        }),
    decreases buf.dom().len(),
{
    let next = number(p);
    if buf.contains_key(next) {
        let rest = buf.remove(next);
        assert(buf.contains_key(next));
        lemma_next_place(p, next);
        assert forall|k: u32| #[trigger] rest.contains_key(k) implies ahead(sent, p, k, rest[k]) by {
            assert(buf.contains_key(k));
            lemma_next_place(p, k);
        }
        lemma_released_stream(p + 1, rest, sent);
        let q = p + 1 + released(number(p + 1), rest).len();
        assert(sent.subrange(p, q) =~= seq![sent[p]] + sent.subrange(p + 1, q));
    } else {
        assert(sent.subrange(p, p) =~= Seq::empty());
        assert forall|k: u32| #[trigger] buf.contains_key(k) implies ahead(sent, p, k, buf[k]) by {
            lemma_next_place(p, k);
        }
    }
}

/// Numbers tell places apart that are less than half of the numbers away from each other.
proof fn lemma_window(p: int, j: int)
    requires
        0 <= p,
        0 <= j,
        p - 0x8000_0000 <= j < p + 0x7fff_fffe,
    ensures
        number(p) != 0,
        number(j) != 0,
        number(p) - 1 == p % 0xffff_ffff,
        newer(number(j), (number(p) - 1) as u32) <==> j >= p,
        number(j) == number(p) <==> j == p,
        j >= p ==> place_from(p, number(j)) == j,
        succ(number(p)) == number(p + 1),
{
    let m: int = 0xffff_ffff;
    let a = p % m;
    let b = j % m;
    let d = j - p;
    assert(b == a + d || b == a + d - m || b == a + d + m);
    if d >= 0 {
        assert((number(j) - 1 - p) % m == d);
    }
}

/// Guaranteed sequential messages are handed over exactly once and strictly in the order in which
/// they were sent, however they arrive: whatever message of the stream arrives, the receiver hands
/// over a stretch of the stream from the first missing message on, and goes on following the
/// stream behind it. Something is handed over exactly when the first missing message arrives. The
/// stream may be longer than there are numbers; an arrival is less than half of the numbers away
/// from the first missing message.
pub proof fn guaranteed_stream_in_order(
    r: ReceiverView,
    sent: Seq<MsgView>,
    p: int,
    j: int,
    now_ms: u64,
)
    requires
        follows(r, sent, p),
        is_ordered_stream(sent),
        0 <= j < sent.len(),
        p - 0x8000_0000 <= j < p + 0x7fff_fffe,
    ensures
        ({
            let (after, outcome) = r.receive(number(j), sent[j], now_ms);
            let q = p + handed_over(outcome).len();
            &&& follows(after, sent, q)
            &&& handed_over(outcome) == sent.subrange(p, q)
            &&& q > p <==> j == p
        }),
{
    let seq = number(j);
    let (after, outcome) = r.receive(seq, sent[j], now_ms);
    assert(sent.subrange(p, p) =~= Seq::empty());
    lemma_window(p, j);
    if j == p {
        assert(!r.g_buf.contains_key(seq));
        lemma_released_stream(p + 1, r.g_buf, sent);
        let q = p + 1 + released(number(p + 1), r.g_buf).len();
        assert(sent.subrange(p, q) =~= seq![sent[p]] + sent.subrange(p + 1, q));
    }
}

/// A message that arrives at some time.
pub struct Arrival {
    pub seq: u32,
    pub m: MsgView,
    pub now_ms: u64,
}

/// What a run of arrivals leads to: the receiver afterwards, and all that it has handed over.
pub open spec fn taking(r: ReceiverView, arrivals: Seq<Arrival>) -> (ReceiverView, Seq<MsgView>)
    decreases arrivals.len(),
{
    if arrivals.len() == 0 {
        (r, Seq::empty())
    } else {
        let (before, out) = taking(r, arrivals.drop_last());
        let a = arrivals.last();
        let (after, outcome) = before.receive(a.seq, a.m, a.now_ms);
        (after, out + handed_over(outcome))
    }
}

/// All arrivals are messages of a stream, under the numbers that they have there.
pub open spec fn come_from(arrivals: Seq<Arrival>, sent: Seq<MsgView>) -> bool {
    forall|i: int|
        0 <= i < arrivals.len() ==> 1 <= (#[trigger] arrivals[i]).seq <= sent.len()
            && arrivals[i].m == sent[arrivals[i].seq - 1]
}

/// A guaranteed message of this number is among the arrivals.
pub open spec fn has_arrived(arrivals: Seq<Arrival>, seq: u32) -> bool {
    exists|i: int|
        0 <= i < arrivals.len() && is_guaranteed((#[trigger] arrivals[i]).m.options)
            && arrivals[i].seq == seq
}

/// Over any run of arrivals, in any order and with repeats, what a receiver has handed over of a
/// guaranteed sequential stream is the beginning of that stream: each message once, and in order.
pub proof fn stream_is_handed_over_in_order(sent: Seq<MsgView>, arrivals: Seq<Arrival>)
    requires
        is_ordered_stream(sent),
        sent.len() < 0x7fff_fffe,
        come_from(arrivals, sent),
    ensures
        ({
            let (r, out) = taking(ReceiverView::start(), arrivals);
            &&& follows(r, sent, out.len() as int)
            &&& r.ack() == out.len()
            &&& out == sent.take(out.len() as int)
        }),
    decreases arrivals.len(),
{
    if arrivals.len() == 0 {
        assert(sent.take(0) =~= Seq::empty());
    } else {
        let a = arrivals.last();
        let (before, out) = taking(ReceiverView::start(), arrivals.drop_last());
        assert forall|i: int| 0 <= i < arrivals.drop_last().len() implies 1 <= (
        #[trigger] arrivals.drop_last()[i]).seq <= sent.len() && arrivals.drop_last()[i].m
            == sent[arrivals.drop_last()[i].seq - 1] by {
            assert(arrivals[i] == arrivals.drop_last()[i]);
        }
        stream_is_handed_over_in_order(sent, arrivals.drop_last());
        let p = out.len() as int;
        let j = a.seq - 1;
        assert(a == arrivals[arrivals.len() - 1]);
        assert(number(j) == a.seq);
        guaranteed_stream_in_order(before, sent, p, j, a.now_ms);
        let q = p + handed_over(before.receive(a.seq, a.m, a.now_ms).1).len();
        assert(sent.take(p) + sent.subrange(p, q) =~= sent.take(q));
    }
}

/// One arrival more.
proof fn lemma_has_arrived(arrivals: Seq<Arrival>, seq: u32)
    requires
        arrivals.len() > 0,
    ensures
        has_arrived(arrivals, seq) <==> has_arrived(arrivals.drop_last(), seq) || (is_guaranteed(
            arrivals.last().m.options,
        ) && arrivals.last().seq == seq),
{
    let rest = arrivals.drop_last();
    let n = rest.len() as int;
    assert(arrivals[n] == arrivals.last());
    if has_arrived(arrivals, seq) {
        let i = choose|i: int|
            0 <= i < arrivals.len() && is_guaranteed((#[trigger] arrivals[i]).m.options)
                && arrivals[i].seq == seq;
        if i < n {
            assert(rest[i] == arrivals[i]);
        }
    }
    if has_arrived(rest, seq) {
        let i = choose|i: int|
            0 <= i < rest.len() && is_guaranteed((#[trigger] rest[i]).m.options) && rest[i].seq
                == seq;
        assert(arrivals[i] == rest[i]);
    }
}

/// The guaranteed arrivals are among the first so many numbers that the buffer never overflows.
pub open spec fn fits_buffer(arrivals: Seq<Arrival>) -> bool {
    forall|i: int|
        0 <= i < arrivals.len() && is_guaranteed((#[trigger] arrivals[i]).m.options) ==> 1
            <= arrivals[i].seq <= OOO_CAP
}

/// A receiver remembers exactly what has arrived.
spec fn remembers(r: ReceiverView, arrivals: Seq<Arrival>) -> bool {
    &&& 1 <= r.g_next <= OOO_CAP + 1
    &&& r.g_buf.dom().finite()
    &&& forall|k: u32| #[trigger] r.g_buf.contains_key(k) ==> r.g_next < k <= OOO_CAP
    &&& forall|k: u32|
        1 <= k <= OOO_CAP + 1 ==> (#[trigger] has_arrived(arrivals, k) <==> k < r.g_next
            || r.g_buf.contains_key(k))
}

/// Numbers between two bounds are no more than the bounds are apart.
proof fn lemma_few_numbers(s: Set<u32>, low: u32, high: u32)
    requires
        low <= high,
        s.finite(),
        forall|k: u32| #[trigger] s.contains(k) ==> low < k <= high,
    ensures
        s.len() <= high - low,
    decreases high - low,
{
    if low == high {
        assert(s =~= Set::empty());
    } else {
        lemma_few_numbers(s.remove(high), low, (high - 1) as u32);
    }
}

/// A buffer releases all numbers from `next` on up to its first gap, and keeps those behind it.
proof fn lemma_settling(next: u32, buf: Map<u32, MsgView>, top: u32)
    requires
        buf.dom().finite(),
        next <= top + 1,
        top < u32::MAX,
        forall|k: u32| #[trigger] buf.contains_key(k) ==> next <= k <= top,
    ensures
        next <= first_gap(next, buf) <= top + 1,
        !buf.contains_key(first_gap(next, buf)),
        forall|k: u32| next <= k < first_gap(next, buf) ==> #[trigger] buf.contains_key(k),
        forall|k: u32| #[trigger]
            unreleased(next, buf).contains_key(k) <==> buf.contains_key(k) && k > first_gap(
                next,
                buf,
            ),
        unreleased(next, buf).dom().finite(),
    decreases buf.dom().len(),
{
    if buf.contains_key(next) {
        lemma_settling(succ(next), buf.remove(next), top);
        assert forall|k: u32| next <= k < first_gap(next, buf) implies #[trigger] buf.contains_key(
            k,
        ) by {
            if k != next {
                assert(buf.remove(next).contains_key(k));
            }
        }
    }
}

/// One guaranteed arrival more is remembered.
proof fn lemma_remembers(r: ReceiverView, arrivals: Seq<Arrival>)
    requires
        arrivals.len() > 0,
        remembers(r, arrivals.drop_last()),
        fits_buffer(arrivals),
    ensures
        ({
            let a = arrivals.last();
            let after = r.receive(a.seq, a.m, a.now_ms).0;
            &&& remembers(after, arrivals)
            &&& r.g_next <= after.g_next
            &&& !is_guaranteed(a.m.options) ==> after.g_next == r.g_next
        }),
{
    let a = arrivals.last();
    let seq = a.seq;
    let after = r.receive(seq, a.m, a.now_ms).0;
    let top = OOO_CAP as u32;
    assert(a == arrivals[arrivals.len() - 1]);
    assert forall|k: u32| true implies (#[trigger] has_arrived(arrivals, k) <==> has_arrived(
        arrivals.drop_last(),
        k,
    ) || (is_guaranteed(a.m.options) && seq == k)) by {
        lemma_has_arrived(arrivals, k);
    }
    if is_guaranteed(a.m.options) && !r.has_seen(seq) {
        lemma_few_numbers(r.g_buf.dom(), 1, top);
        assert(r.overflow() is None);
        if !is_sequential(a.m.options) {
            let held = r.timed(a.m.options, a.now_ms).remembering(
                seq,
                MsgView { payload: Seq::empty(), options: a.m.options },
            );
            lemma_settling(held.g_next, held.g_buf, top);
            assert forall|k: u32| 1 <= k <= OOO_CAP + 1 implies (#[trigger] has_arrived(arrivals, k)
                <==> k < after.g_next || after.g_buf.contains_key(k)) by {
                assert(has_arrived(arrivals.drop_last(), k) <==> k < r.g_next
                    || r.g_buf.contains_key(k));
                assert(held.g_buf.contains_key(k) <==> r.g_buf.contains_key(k) || k == seq);
            }
        } else if seq == r.g_next {
            lemma_settling(succ(r.g_next), r.g_buf, top);
            assert forall|k: u32| 1 <= k <= OOO_CAP + 1 implies (#[trigger] has_arrived(arrivals, k)
                <==> k < after.g_next || after.g_buf.contains_key(k)) by {
                assert(has_arrived(arrivals.drop_last(), k) <==> k < r.g_next
                    || r.g_buf.contains_key(k));
            }
        } else {
            assert forall|k: u32| 1 <= k <= OOO_CAP + 1 implies (#[trigger] has_arrived(arrivals, k)
                <==> k < after.g_next || after.g_buf.contains_key(k)) by {
                assert(has_arrived(arrivals.drop_last(), k) <==> k < r.g_next
                    || r.g_buf.contains_key(k));
            }
        }
    } else {
        assert(after.g_next == r.g_next && after.g_buf == r.g_buf);
        assert forall|k: u32| 1 <= k <= OOO_CAP + 1 implies (#[trigger] has_arrived(arrivals, k)
            <==> k < after.g_next || after.g_buf.contains_key(k)) by {
            assert(has_arrived(arrivals.drop_last(), k) <==> k < r.g_next || r.g_buf.contains_key(k));
        }
    }
}

proof fn lemma_all_remembered(arrivals: Seq<Arrival>)
    requires
        fits_buffer(arrivals),
    ensures
        remembers(taking(ReceiverView::start(), arrivals).0, arrivals),
    decreases arrivals.len(),
{
    if arrivals.len() > 0 {
        lemma_fits_buffer(arrivals);
        lemma_all_remembered(arrivals.drop_last());
        lemma_remembers(taking(ReceiverView::start(), arrivals.drop_last()).0, arrivals);
    }
}

proof fn lemma_fits_buffer(arrivals: Seq<Arrival>)
    requires
        arrivals.len() > 0,
        fits_buffer(arrivals),
    ensures
        fits_buffer(arrivals.drop_last()),
{
    let rest = arrivals.drop_last();
    assert forall|i: int| 0 <= i < rest.len() && is_guaranteed((#[trigger] rest[i]).m.options) implies 1
        <= rest[i].seq <= OOO_CAP by {
        assert(rest[i] == arrivals[i]);
    }
}

/// Over any run of arrivals of all modes, in any order and with repeats, the acknowledgement is the
/// highest number up to which every guaranteed message has arrived. It never goes back, and
/// best-effort messages never change it.
pub proof fn acknowledgement_is_the_arrived_prefix(arrivals: Seq<Arrival>)
    requires
        fits_buffer(arrivals),
    ensures
        ({
            let n = taking(ReceiverView::start(), arrivals).0.ack();
            &&& n <= OOO_CAP
            &&& forall|k: u32| 1 <= k <= n ==> #[trigger] has_arrived(arrivals, k)
            &&& !has_arrived(arrivals, (n + 1) as u32)
            &&& arrivals.len() > 0 ==> taking(
                ReceiverView::start(),
                arrivals.drop_last(),
            ).0.ack() <= n
            &&& arrivals.len() > 0 && !is_guaranteed(arrivals.last().m.options) ==> taking(
                ReceiverView::start(),
                arrivals.drop_last(),
            ).0.ack() == n
        }),
{
    lemma_all_remembered(arrivals);
    if arrivals.len() > 0 {
        lemma_fits_buffer(arrivals);
        lemma_all_remembered(arrivals.drop_last());
        lemma_remembers(taking(ReceiverView::start(), arrivals.drop_last()).0, arrivals);
    }
}

/// Once every message of a guaranteed sequential stream has arrived, in whatever order and however
/// often, all of the stream was handed over, each message once and in order, all of it is
/// acknowledged, and nothing is left in the buffer. The stream is no longer than the buffer.
pub proof fn whole_stream_is_handed_over(sent: Seq<MsgView>, arrivals: Seq<Arrival>)
    requires
        is_ordered_stream(sent),
        sent.len() <= OOO_CAP,
        come_from(arrivals, sent),
        forall|k: u32| 1 <= k <= sent.len() ==> #[trigger] has_arrived(arrivals, k),
    ensures
        ({
            let (r, out) = taking(ReceiverView::start(), arrivals);
            &&& out == sent
            &&& r.ack() == sent.len()
            &&& r.g_buf == Map::<u32, MsgView>::empty()
            &&& r.g_buf.len() == 0
        }),
{
    let (r, out) = taking(ReceiverView::start(), arrivals);
    stream_is_handed_over_in_order(sent, arrivals);
    lemma_all_remembered(arrivals);
    let next = r.g_next;
    if next <= sent.len() {
        assert(has_arrived(arrivals, next));
    }
    assert(sent.take(sent.len() as int) =~= sent);
    assert forall|k: u32| !r.g_buf.contains_key(k) by {
        if r.g_buf.contains_key(k) {
            assert(ahead(sent, out.len() as int, k, r.g_buf[k]));
        }
    }
    assert(r.g_buf =~= Map::<u32, MsgView>::empty());
}

/// A guaranteed message that is acknowledged or remembered is not handed over again.
pub proof fn seen_is_not_handed_over(r: ReceiverView, seq: u32, m: MsgView, now_ms: u64)
    requires
        seq != 0,
        is_guaranteed(m.options),
        r.has_seen(seq),
    ensures
        handed_over(r.receive(seq, m, now_ms).1) == Seq::<MsgView>::empty(),
        r.receive(seq, m, now_ms).0.ack() == r.ack(),
        r.receive(seq, m, now_ms).0.g_buf == r.g_buf,
{
}

/// A best-effort sequential message is handed over exactly when it is newer than every one handed
/// over since, so none ever follows a newer one; and it never touches what is acknowledged.
pub proof fn best_effort_never_goes_back(r: ReceiverView, seq: u32, m: MsgView, now_ms: u64)
    requires
        seq != 0,
        !is_guaranteed(m.options),
        is_sequential(m.options),
    ensures
        ({
            let (after, outcome) = r.receive(seq, m, now_ms);
            &&& handed_over(outcome) == (if !r.be_seen || newer(seq, r.be_last) {
                seq![m]
            } else {
                Seq::empty()
            })
            &&& r.be_seen && after.be_last != r.be_last ==> newer(after.be_last, r.be_last)
            &&& handed_over(outcome).len() > 0 ==> after.be_seen && after.be_last == seq
            &&& after.ack() == r.ack() && after.g_buf == r.g_buf && after.ack_due_at == r.ack_due_at
        }),
{
}

/// An acknowledgement is sent by itself from its deadline on, and not before.
pub proof fn ack_forced_from_deadline_on(ack_due_at: Option<u64>, now_ms: u64)
    requires
        ack_due_at is Some ==> ack_due_at->0 + ACK_DELAY_MS <= u64::MAX,
    ensures
        is_ack_overdue(ack_due_at, now_ms) <==> ack_deadline(ack_due_at) is Some && ack_deadline(
            ack_due_at,
        )->0 <= now_ms,
{
}

/// Every guaranteed message that is not lazy leaves an acknowledgement owed, a duplicate included:
/// it arrived again because the acknowledgement was lost.
pub proof fn duplicates_are_acknowledged(r: ReceiverView, seq: u32, m: MsgView, now_ms: u64)
    requires
        seq != 0,
        is_guaranteed(m.options),
        !is_lazy(m.options),
    ensures
        r.receive(seq, m, now_ms).0.ack_due_at is Some,
        r.ack_due_at is Some ==> r.receive(seq, m, now_ms).0.ack_due_at == r.ack_due_at,
        r.ack_due_at is None ==> r.receive(seq, m, now_ms).0.ack_due_at == Some(now_ms),
{
}

/// What a receiver acknowledges, its sender stops retransmitting, and nothing else: of a stream
/// shorter than half of the sequence space, the messages beyond the acknowledgement stay pending.
pub proof fn acknowledged_is_settled(r: ReceiverView, sent: Seq<MsgView>, p: int, s: SenderView)
    requires
        follows(r, sent, p),
        sent.len() < 0x7fff_ffff,
        forall|k: u32| #[trigger] s.pending.contains_key(k) ==> 0 < k <= sent.len(),
    ensures
        forall|k: u32| #[trigger]
            s.acked(r.ack()).pending.contains_key(k) <==> s.pending.contains_key(k) && k > r.ack(),
{
}

}
