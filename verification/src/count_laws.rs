//! What the counts say of what happened.
use crate::diag;
use crate::diag::{EventView, RelCounts};
use crate::reliable;
use crate::reliable::OutcomeView;
use crate::tally::{Fate, ModeCounts};
use vstd::prelude::*;

verus! {

/// How many messages had a fate.
pub open spec fn count(c: RelCounts, fate: Fate) -> u64 {
    match fate {
        Fate::Sent => c.sent,
        Fate::Retransmitted => c.retransmitted,
        Fate::Acked => c.acked,
        Fate::DupDropped => c.dup_dropped,
        Fate::OooDropped => c.ooo_dropped,
        Fate::OooQueued => c.ooo_queued,
        Fate::Evicted => c.evicted,
    }
}

/// The counts of the mode of some options.
pub open spec fn mode_of(c: ModeCounts, options: u32) -> RelCounts {
    if reliable::is_guaranteed(options) {
        if reliable::is_sequential(options) {
            c.guar_seq
        } else {
            c.guar_nonseq
        }
    } else if reliable::is_sequential(options) {
        c.best_seq
    } else {
        c.best_nonseq
    }
}

/// The fate of a message counts once, under that fate and under the mode in which the message was
/// sent, and nowhere else.
pub proof fn fate_counts_once(c: ModeCounts, options: u32, fate: Fate, other: Fate, others: u32)
    requires
        count(mode_of(c, options), fate) < u64::MAX,
    ensures
        ({
            let d = c.counting(options, fate);
            &&& count(mode_of(d, options), fate) == count(mode_of(c, options), fate) + 1
            &&& other != fate ==> count(mode_of(d, options), other) == count(
                mode_of(c, options),
                other,
            )
            &&& reliable::is_guaranteed(options) != reliable::is_guaranteed(others)
                || reliable::is_sequential(options) != reliable::is_sequential(others) ==> mode_of(
                d,
                others,
            ) == mode_of(c, others)
        }),
{
}

/// A message that is handed over counts no loss; one that waits counts as such, and so does each
/// that is dropped, by its reason.
pub proof fn arrival_counts_its_outcome(c: ModeCounts, options: u32, o: OutcomeView)
    requires
        forall|f: Fate| #[trigger] count(mode_of(c, options), f) < u64::MAX,
    ensures
        ({
            let d = c.arriving(options, false, o);
            let before = mode_of(c, options);
            let after = mode_of(d, options);
            &&& o is Delivered ==> d == c
            &&& o is Queued ==> after.ooo_queued == before.ooo_queued + 1 && after.dup_dropped
                == before.dup_dropped && after.ooo_dropped == before.ooo_dropped
            &&& o is DroppedDuplicate ==> after.dup_dropped == before.dup_dropped + 1
                && after.ooo_queued == before.ooo_queued && after.ooo_dropped
                == before.ooo_dropped
            &&& o is DroppedOutOfOrder ==> after.ooo_dropped == before.ooo_dropped + 1
                && after.dup_dropped == before.dup_dropped && after.ooo_queued
                == before.ooo_queued
        }),
{
    assert(count(mode_of(c, options), Fate::OooQueued) < u64::MAX);
    assert(count(mode_of(c, options), Fate::DupDropped) < u64::MAX);
    assert(count(mode_of(c, options), Fate::OooDropped) < u64::MAX);
}

/// A value that is read counts once more under that value, and is the last one; one that cannot be
/// read counts as missing.
pub proof fn value_counts_once_more(t: EventView, v: u32)
    requires
        t.seen < u64::MAX,
        t.missing < u64::MAX,
        diag::slot_of(t.slots, v) matches Some(i) ==> 0 <= i < t.slots.len() && t.slots[i].1
            < u64::MAX,
        diag::slot_of(t.slots, v) is Some || t.slots.len() < diag::EVENT_SLOTS,
    ensures
        ({
            let n = t.noting(Some(v));
            let at = diag::slot_of(t.slots, v);
            &&& n.seen == t.seen + 1 && n.last == Some(v) && n.missing == t.missing
            &&& at matches Some(i) ==> n.slots[i] == (v, (t.slots[i].1 + 1) as u64)
            &&& at is None ==> n.slots == t.slots.push((v, 1))
            &&& t.noting(None).missing == t.missing + 1 && t.noting(None).slots == t.slots
                && t.noting(None).seen == t.seen
        }),
{
}

}
