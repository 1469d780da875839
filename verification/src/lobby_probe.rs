//! What is told of the queue of changes between the lobby client and the title.
use crate::notes;
use crate::text;
use vstd::prelude::*;

verus! {

/// How long an unchanged queue stays untold of, in milliseconds.
pub const BEAT_MS: u64 = 30_000;

/// How full the queue is, and whether the title holds a batch.
#[derive(Clone, Copy, PartialEq, Eq, Structural)]
pub struct QueueState {
    pub pending: u64,
    pub in_flight: u64,
    pub outstanding: bool,
}

/// What has gone through the queue so far.
#[derive(Clone, Copy)]
#[verifier::ext_equal]
pub struct QueueTotals {
    pub starts: u64,
    pub finishes: u64,
    /// Batches with something in them.
    pub batches: u64,
    pub queued: u64,
    pub reclaimed: u64,
    pub max_pending: u64,
    pub max_in_flight: u64,
    /// How often the title asked again before it gave its batch back.
    pub latched: u64,
    /// How often it gave something back that it was not given.
    pub stray: u64,
    /// How often it gave back something else than it was given.
    pub mismatch: u64,
}

pub open spec fn larger(a: u64, b: u64) -> u64 {
    if a >= b { a } else { b }
}

pub open spec fn no_totals() -> QueueTotals {
    QueueTotals {
        starts: 0,
        finishes: 0,
        batches: 0,
        queued: 0,
        reclaimed: 0,
        max_pending: 0,
        max_in_flight: 0,
        latched: 0,
        stray: 0,
        mismatch: 0,
    }
}

impl QueueTotals {
    pub fn new() -> (r: QueueTotals)
        ensures
            r == no_totals(),
    {
        QueueTotals {
            starts: 0,
            finishes: 0,
            batches: 0,
            queued: 0,
            reclaimed: 0,
            max_pending: 0,
            max_in_flight: 0,
            latched: 0,
            stray: 0,
            mismatch: 0,
        }
    }

    /// Remembers how full the queue has been.
    pub fn probe_snapshot(&mut self, s: &QueueState)
        ensures
            *final(self) == (QueueTotals {
                max_pending: larger(old(self).max_pending, s.pending),
                max_in_flight: larger(old(self).max_in_flight, s.in_flight),
                ..*old(self)
            }),
    {
        if s.pending > self.max_pending {
            self.max_pending = s.pending;
        }
        if s.in_flight > self.max_in_flight {
            self.max_in_flight = s.in_flight;
        }
    }
}

pub open spec fn bit(b: bool) -> Seq<char> {
    if b { "1"@ } else { "0"@ }
}

fn bit_text(b: bool) -> (r: &'static str)
    ensures
        r@ == bit(b),
{
    if b {
        "1"
    } else {
        "0"
    }
}

/// The line that tells of the queue from time to time.
pub open spec fn beat_words(s: QueueState, t: QueueTotals, changed: bool) -> Seq<char> {
    let a = notes::tagged("pfqueue hb pending="@, text::decimal(s.pending as nat), " inflight="@);
    let a = notes::tagged(a, text::decimal(s.in_flight as nat), " outstanding="@);
    let a = notes::tagged(a, bit(s.outstanding), " starts="@);
    let a = notes::tagged(a, text::decimal(t.starts as nat), " finishes="@);
    let a = notes::tagged(a, text::decimal(t.finishes as nat), " batches_nonzero="@);
    let a = notes::tagged(a, text::decimal(t.batches as nat), " queued="@);
    let a = notes::tagged(a, text::decimal(t.queued as nat), " reclaimed="@);
    let a = notes::tagged(a, text::decimal(t.reclaimed as nat), " max_pending="@);
    let a = notes::tagged(a, text::decimal(t.max_pending as nat), " max_inflight="@);
    let a = notes::tagged(a, text::decimal(t.max_in_flight as nat), " latch="@);
    let a = notes::tagged(a, text::decimal(t.latched as nat), " stray="@);
    let a = notes::tagged(a, text::decimal(t.stray as nat), " mismatch="@);
    notes::tagged(
        a,
        text::decimal(t.mismatch as nat),
        if changed { " changed=1"@ } else { ""@ },
    )
}

fn beat_text(s: &QueueState, t: &QueueTotals, changed: bool) -> (r: String)
    ensures
        r@ == beat_words(*s, *t, changed),
{
    let mut r = notes::line("pfqueue hb pending=");
    notes::tag(&mut r, text::decimal_text(s.pending).as_str(), " inflight=");
    notes::tag(&mut r, text::decimal_text(s.in_flight).as_str(), " outstanding=");
    notes::tag(&mut r, bit_text(s.outstanding), " starts=");
    notes::tag(&mut r, text::decimal_text(t.starts).as_str(), " finishes=");
    notes::tag(&mut r, text::decimal_text(t.finishes).as_str(), " batches_nonzero=");
    notes::tag(&mut r, text::decimal_text(t.batches).as_str(), " queued=");
    notes::tag(&mut r, text::decimal_text(t.queued).as_str(), " reclaimed=");
    notes::tag(&mut r, text::decimal_text(t.reclaimed).as_str(), " max_pending=");
    notes::tag(&mut r, text::decimal_text(t.max_pending).as_str(), " max_inflight=");
    notes::tag(&mut r, text::decimal_text(t.max_in_flight).as_str(), " latch=");
    notes::tag(&mut r, text::decimal_text(t.latched).as_str(), " stray=");
    notes::tag(&mut r, text::decimal_text(t.stray).as_str(), " mismatch=");
    notes::tag(
        &mut r,
        text::decimal_text(t.mismatch).as_str(),
        if changed {
            " changed=1"
        } else {
            ""
        },
    );
    r
}

/// Tells of the queue where it has changed, and else once in a while, whether or not the title
/// calls.
#[verifier::ext_equal]
pub struct QueueBeat {
    pub last: Option<QueueState>,
    pub at: u64,
}

impl QueueBeat {
    pub fn new() -> (r: QueueBeat)
        ensures
            r == (QueueBeat { last: None, at: 0 }),
    {
        QueueBeat { last: None, at: 0 }
    }

    /// Looks at the queue; the result is the line, where one is told.
    pub fn beat(&mut self, s: &QueueState, t: &QueueTotals, now: u64) -> (r: Option<String>)
        ensures
            ({
                let changed = old(self).last != Some(*s);
                let tells = changed || now >= old(self).at + BEAT_MS;
                &&& *final(self) == (if tells {
                    QueueBeat { last: Some(*s), at: now }
                } else {
                    *old(self)
                })
                &&& match r {
                    Some(line) => tells && line@ == beat_words(*s, *t, changed),
                    None => !tells,
                }
            }),
    {
        let changed = match self.last {
            Some(k) => k != *s,
            None => true,
        };
        if !changed && (now < self.at || now - self.at < BEAT_MS) {
            return None;
        }
        self.last = Some(*s);
        self.at = now;
        Some(beat_text(s, t, changed))
    }
}

/// Why a line on the queue is told: it has changed, or it was not told of for long.
pub open spec fn reason_words(changed: bool) -> Seq<char> {
    if changed { " changed=1"@ } else { " hb=1"@ }
}

fn reason_text(changed: bool) -> (r: &'static str)
    ensures
        r@ == reason_words(changed),
{
    if changed {
        " changed=1"
    } else {
        " hb=1"
    }
}

/// The line that tells of a batch of `n` changes that the title was given.
pub fn start_line(n: u64, s: &QueueState, changed: bool) -> (r: String)
    ensures
        ({
            let a = notes::tagged("pfqueue start n="@, text::decimal(n as nat), " pending="@);
            let a = notes::tagged(a, text::decimal(s.pending as nat), " inflight="@);
            let a = notes::tagged(a, text::decimal(s.in_flight as nat), " outstanding="@);
            r@ == notes::tagged(a, bit(s.outstanding), reason_words(changed))
        }),
{
    let mut r = notes::line("pfqueue start n=");
    notes::tag(&mut r, text::decimal_text(n).as_str(), " pending=");
    notes::tag(&mut r, text::decimal_text(s.pending).as_str(), " inflight=");
    notes::tag(&mut r, text::decimal_text(s.in_flight).as_str(), " outstanding=");
    notes::tag(&mut r, bit_text(s.outstanding), reason_text(changed));
    r
}

/// The line that tells of a batch of `n` changes that the title gave back, of which `pending` are
/// left.
pub fn finish_line(n: u64, pending: u64, changed: bool) -> (r: String)
    ensures
        ({
            let a = notes::tagged(
                if n == 0 { "pfqueue finish count=0 reclaimed="@ } else { "pfqueue finish reclaimed="@ },
                text::decimal(n as nat),
                " pending="@,
            );
            r@ == notes::tagged(
                notes::tagged(a, text::decimal(pending as nat), " inflight=0 outstanding=0"@),
                reason_words(changed),
                ""@,
            )
        }),
{
    let mut r = notes::line(
        if n == 0 {
            "pfqueue finish count=0 reclaimed="
        } else {
            "pfqueue finish reclaimed="
        },
    );
    notes::tag(&mut r, text::decimal_text(n).as_str(), " pending=");
    notes::tag(&mut r, text::decimal_text(pending).as_str(), " inflight=0 outstanding=0");
    notes::tag(&mut r, reason_text(changed), "");
    r
}

}
