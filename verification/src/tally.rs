//! How messages fared, counted by the mode of delivery that they were sent with.
use crate::diag;
use crate::diag::RelCounts;
use crate::reliable;
use crate::reliable::{OutcomeView, RecvOutcome};
use vstd::prelude::*;

verus! {

/// What became of a message.
#[derive(Clone, Copy, Debug, PartialEq, Eq, Structural)]
pub enum Fate {
    Sent,
    Retransmitted,
    /// Its acknowledgement has arrived.
    Acked,
    /// It had arrived before.
    DupDropped,
    /// A newer best-effort message was handed over before it.
    OooDropped,
    /// It waits for its predecessors.
    OooQueued,
    /// A full table let a message go: this one at its sender, one for which this one came at a
    /// receiver.
    Evicted,
}

/// The counts of one mode when nothing was counted.
pub open spec fn nothing_counted() -> RelCounts {
    RelCounts {
        sent: 0,
        retransmitted: 0,
        acked: 0,
        dup_dropped: 0,
        ooo_dropped: 0,
        ooo_queued: 0,
        evicted: 0,
    }
}

/// The counts of one mode with one more of a fate.
pub open spec fn raised(c: RelCounts, fate: Fate) -> RelCounts {
    match fate {
        Fate::Sent => RelCounts { sent: diag::one_more(c.sent), ..c },
        Fate::Retransmitted => RelCounts { retransmitted: diag::one_more(c.retransmitted), ..c },
        Fate::Acked => RelCounts { acked: diag::one_more(c.acked), ..c },
        Fate::DupDropped => RelCounts { dup_dropped: diag::one_more(c.dup_dropped), ..c },
        Fate::OooDropped => RelCounts { ooo_dropped: diag::one_more(c.ooo_dropped), ..c },
        Fate::OooQueued => RelCounts { ooo_queued: diag::one_more(c.ooo_queued), ..c },
        Fate::Evicted => RelCounts { evicted: diag::one_more(c.evicted), ..c },
    }
}

fn raise(c: RelCounts, fate: Fate) -> (r: RelCounts)
    ensures
        r == raised(c, fate),
{
    match fate {
        Fate::Sent => RelCounts { sent: diag::bump(c.sent), ..c },
        Fate::Retransmitted => RelCounts { retransmitted: diag::bump(c.retransmitted), ..c },
        Fate::Acked => RelCounts { acked: diag::bump(c.acked), ..c },
        Fate::DupDropped => RelCounts { dup_dropped: diag::bump(c.dup_dropped), ..c },
        Fate::OooDropped => RelCounts { ooo_dropped: diag::bump(c.ooo_dropped), ..c },
        Fate::OooQueued => RelCounts { ooo_queued: diag::bump(c.ooo_queued), ..c },
        Fate::Evicted => RelCounts { evicted: diag::bump(c.evicted), ..c },
    }
}

/// Two counts together, as far as can be counted.
pub open spec fn sum(a: u64, b: u64) -> u64 {
    if a + b > u64::MAX { u64::MAX } else { (a + b) as u64 }
}

/// The counts of one mode together with others.
pub open spec fn sums(a: RelCounts, b: RelCounts) -> RelCounts {
    RelCounts {
        sent: sum(a.sent, b.sent),
        retransmitted: sum(a.retransmitted, b.retransmitted),
        acked: sum(a.acked, b.acked),
        dup_dropped: sum(a.dup_dropped, b.dup_dropped),
        ooo_dropped: sum(a.ooo_dropped, b.ooo_dropped),
        ooo_queued: sum(a.ooo_queued, b.ooo_queued),
        evicted: sum(a.evicted, b.evicted),
    }
}

fn together(a: RelCounts, b: RelCounts) -> (r: RelCounts)
    ensures
        r == sums(a, b),
{
    RelCounts {
        sent: a.sent.saturating_add(b.sent),
        retransmitted: a.retransmitted.saturating_add(b.retransmitted),
        acked: a.acked.saturating_add(b.acked),
        dup_dropped: a.dup_dropped.saturating_add(b.dup_dropped),
        ooo_dropped: a.ooo_dropped.saturating_add(b.ooo_dropped),
        ooo_queued: a.ooo_queued.saturating_add(b.ooo_queued),
        evicted: a.evicted.saturating_add(b.evicted),
    }
}

/// The counts of each mode of delivery.
#[derive(Clone, Copy)]
#[verifier::ext_equal]
pub struct ModeCounts {
    pub guar_seq: RelCounts,
    pub guar_nonseq: RelCounts,
    pub best_seq: RelCounts,
    pub best_nonseq: RelCounts,
}

impl ModeCounts {
    /// Nothing was counted.
    pub open spec fn nothing() -> ModeCounts {
        ModeCounts {
            guar_seq: nothing_counted(),
            guar_nonseq: nothing_counted(),
            best_seq: nothing_counted(),
            best_nonseq: nothing_counted(),
        }
    }

    /// The counts of the modes in the order of their indexes.
    pub open spec fn by_mode(self) -> Seq<RelCounts> {
        seq![self.guar_seq, self.guar_nonseq, self.best_seq, self.best_nonseq]
    }

    /// A message that was sent with these options had this fate.
    pub open spec fn counting(self, options: u32, fate: Fate) -> ModeCounts {
        match (reliable::is_guaranteed(options), reliable::is_sequential(options)) {
            (true, true) => ModeCounts { guar_seq: raised(self.guar_seq, fate), ..self },
            (true, false) => ModeCounts { guar_nonseq: raised(self.guar_nonseq, fate), ..self },
            (false, true) => ModeCounts { best_seq: raised(self.best_seq, fate), ..self },
            (false, false) => ModeCounts { best_nonseq: raised(self.best_nonseq, fate), ..self },
        }
    }

    /// Messages that were sent with each of these options had this fate.
    pub open spec fn counting_each(self, options: Seq<u32>, fate: Fate) -> ModeCounts
        decreases options.len(),
    {
        if options.len() == 0 {
            self
        } else {
            self.counting_each(options.drop_last(), fate).counting(options.last(), fate)
        }
    }

    /// A message with these options has arrived, and the receiver made this of it, with or without
    /// another one evicted.
    pub open spec fn arriving(self, options: u32, evicted: bool, o: OutcomeView) -> ModeCounts {
        let c = if evicted { self.counting(options, Fate::Evicted) } else { self };
        match o {
            OutcomeView::Delivered(_) => c,
            OutcomeView::Queued { .. } => c.counting(options, Fate::OooQueued),
            OutcomeView::DroppedDuplicate => c.counting(options, Fate::DupDropped),
            OutcomeView::DroppedOutOfOrder { .. } => c.counting(options, Fate::OooDropped),
        }
    }

    /// The counts together with others.
    pub open spec fn plus(self, other: ModeCounts) -> ModeCounts {
        ModeCounts {
            guar_seq: sums(self.guar_seq, other.guar_seq),
            guar_nonseq: sums(self.guar_nonseq, other.guar_nonseq),
            best_seq: sums(self.best_seq, other.best_seq),
            best_nonseq: sums(self.best_nonseq, other.best_nonseq),
        }
    }

    pub fn new() -> (r: ModeCounts)
        ensures
            r == ModeCounts::nothing(),
    {
        let c = RelCounts {
            sent: 0,
            retransmitted: 0,
            acked: 0,
            dup_dropped: 0,
            ooo_dropped: 0,
            ooo_queued: 0,
            evicted: 0,
        };
        ModeCounts { guar_seq: c, guar_nonseq: c, best_seq: c, best_nonseq: c }
    }

    /// Counts a message.
    pub fn count(&mut self, options: u32, fate: Fate)
        ensures
            *final(self) == old(self).counting(options, fate),
    {
        match (reliable::guaranteed(options), reliable::sequential(options)) {
            (true, true) => self.guar_seq = raise(self.guar_seq, fate),
            (true, false) => self.guar_nonseq = raise(self.guar_nonseq, fate),
            (false, true) => self.best_seq = raise(self.best_seq, fate),
            (false, false) => self.best_nonseq = raise(self.best_nonseq, fate),
        }
    }

    /// Counts what a receiver made of a message.
    pub fn count_arrival(&mut self, options: u32, evicted: bool, o: &RecvOutcome)
        ensures
            *final(self) == old(self).arriving(options, evicted, o@),
    {
        if evicted {
            self.count(options, Fate::Evicted);
        }
        match o {
            RecvOutcome::Delivered(_) => {},
            RecvOutcome::Queued { .. } => self.count(options, Fate::OooQueued),
            RecvOutcome::DroppedDuplicate => self.count(options, Fate::DupDropped),
            RecvOutcome::DroppedOutOfOrder { .. } => self.count(options, Fate::OooDropped),
        }
    }

    /// Adds other counts to these.
    pub fn include_counts(&mut self, other: &ModeCounts)
        ensures
            *final(self) == old(self).plus(*other),
    {
        self.guar_seq = together(self.guar_seq, other.guar_seq);
        self.guar_nonseq = together(self.guar_nonseq, other.guar_nonseq);
        self.best_seq = together(self.best_seq, other.best_seq);
        self.best_nonseq = together(self.best_nonseq, other.best_nonseq);
    }

    /// The counts of the modes in the order of their indexes.
    pub fn listed(&self) -> (r: Vec<RelCounts>)
        ensures
            r@ == self.by_mode(),
    {
        let r = vec![self.guar_seq, self.guar_nonseq, self.best_seq, self.best_nonseq];
        assert(r@ =~= self.by_mode());
        r
    }
}

/// Counting a message changes the counts of its own mode alone.
pub proof fn other_modes_stay(c: ModeCounts, options: u32, fate: Fate, mode: int)
    requires
        0 <= mode < 4,
    ensures
        c.counting(options, fate).by_mode()[mode] == (if mode == (if reliable::is_guaranteed(
            options,
        ) {
            0int
        } else {
            2
        }) + (if reliable::is_sequential(options) { 0int } else { 1 }) {
            raised(c.by_mode()[mode], fate)
        } else {
            c.by_mode()[mode]
        }),
{
}

}
