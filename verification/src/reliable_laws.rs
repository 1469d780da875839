//! What the two ends of a reliable exchange owe to each other, message by message.
use crate::reliable;
use crate::reliable::{MsgView, PendingView, ReceiverView, SenderView};
use crate::table;
use vstd::prelude::*;

verus! {

/// A message that is neither guaranteed nor sequential is handed over at once and by itself,
/// whatever came before it, and so is every message without a number. Nothing is remembered of it.
pub proof fn unsequenced_is_handed_over(r: ReceiverView, seq: u32, m: MsgView, now_ms: u64)
    requires
        seq == 0 || (!reliable::is_guaranteed(m.options) && !reliable::is_sequential(m.options)),
    ensures
        reliable::handed_over(r.receive(seq, m, now_ms).1) == seq![m],
        r.receive(seq, m, now_ms).0.ack() == r.ack(),
        r.receive(seq, m, now_ms).0.g_buf == r.g_buf,
        r.receive(seq, m, now_ms).0.ack_due_at == r.ack_due_at,
        r.receive(seq, m, now_ms).0.be_last == r.be_last,
        r.receive(seq, m, now_ms).0.be_seen == r.be_seen,
{
}

/// The message stands in a buffer and is owed in order.
pub open spec fn waits_in(buf: Map<u32, MsgView>, m: MsgView) -> bool {
    reliable::is_sequential(m.options) && exists|k: u32| #[trigger] buf.contains_key(k) && buf[k] == m
}

proof fn lemma_released_wait(next: u32, buf: Map<u32, MsgView>)
    ensures
        forall|i: int|
            0 <= i < reliable::released(next, buf).len() ==> waits_in(buf, #[trigger] reliable::released(next, buf)[i]),
    decreases buf.dom().len(),
{
    if buf.dom().finite() && buf.contains_key(next) {
        let rest = buf.remove(next);
        lemma_released_wait(reliable::succ(next), rest);
        let all = reliable::released(next, buf);
        let tail = reliable::released(reliable::succ(next), rest);
        assert forall|i: int| 0 <= i < all.len() implies waits_in(buf, #[trigger] all[i]) by {
            let head = all.len() - tail.len();
            if i >= head {
                assert(all[i] == tail[i - head]);
                assert(waits_in(rest, tail[i - head]));
                let k = choose|k: u32| #[trigger] rest.contains_key(k) && rest[k] == tail[i - head];
                assert(buf.contains_key(k) && buf[k] == all[i]);
            } else {
                assert(all[i] == buf[next]);
            }
        }
    }
}

/// A guaranteed message that is not ordered is handed over when it first arrives, before anything
/// that it lets through; what it lets through are ordered messages that waited for it.
pub proof fn unordered_is_handed_over_at_once(r: ReceiverView, seq: u32, m: MsgView, now_ms: u64)
    requires
        seq != 0,
        reliable::is_guaranteed(m.options),
        !reliable::is_sequential(m.options),
        !r.has_seen(seq),
    ensures
        ({
            let out = reliable::handed_over(r.receive(seq, m, now_ms).1);
            &&& out.len() > 0
            &&& out[0] == m
            &&& forall|i: int| 0 < i < out.len() ==> waits_in(r.g_buf, #[trigger] out[i])
        }),
{
    let held = r.timed(m.options, now_ms).remembering(
        seq,
        MsgView { payload: Seq::empty(), options: m.options },
    );
    lemma_released_wait(held.g_next, held.g_buf);
    let out = reliable::handed_over(r.receive(seq, m, now_ms).1);
    let rest = reliable::released(held.g_next, held.g_buf);
    assert(out =~= seq![m] + rest);
    assert forall|i: int| 0 < i < out.len() implies waits_in(r.g_buf, #[trigger] out[i]) by {
        assert(out[i] == rest[i - 1]);
        assert(waits_in(held.g_buf, rest[i - 1]));
        let k = choose|k: u32| #[trigger] held.g_buf.contains_key(k) && held.g_buf[k] == rest[i - 1];
        assert(k != seq);
        assert(r.g_buf.contains_key(k) && r.g_buf[k] == out[i]);
    }
}

/// The guaranteed ordered message whose turn it is is handed over when it arrives, before those
/// that waited for it; any other is remembered as it is, and nothing is handed over.
pub proof fn ordered_waits_for_its_turn(r: ReceiverView, seq: u32, m: MsgView, now_ms: u64)
    requires
        seq != 0,
        reliable::is_guaranteed(m.options),
        reliable::is_sequential(m.options),
        !r.has_seen(seq),
    ensures
        ({
            let (after, outcome) = r.receive(seq, m, now_ms);
            let out = reliable::handed_over(outcome);
            &&& seq == r.g_next ==> out.len() > 0 && out[0] == m && forall|i: int|
                0 < i < out.len() ==> waits_in(r.g_buf, #[trigger] out[i])
            &&& seq != r.g_next ==> out.len() == 0 && after.g_buf.contains_key(seq)
                && after.g_buf[seq] == m && after.ack() == r.ack()
        }),
{
    if seq == r.g_next {
        lemma_released_wait(reliable::succ(seq), r.g_buf);
        let out = reliable::handed_over(r.receive(seq, m, now_ms).1);
        let rest = reliable::released(reliable::succ(seq), r.g_buf);
        assert(out =~= seq![m] + rest);
        assert forall|i: int| 0 < i < out.len() implies waits_in(r.g_buf, #[trigger] out[i]) by {
            assert(out[i] == rest[i - 1]);
        }
    }
}

/// A lazy sender leaves the acknowledgement timer as it is.
pub proof fn lazy_starts_no_timer(r: ReceiverView, seq: u32, m: MsgView, now_ms: u64)
    requires
        reliable::is_lazy(m.options),
    ensures
        r.receive(seq, m, now_ms).0.ack_due_at == r.ack_due_at,
{
}

pub proof fn lemma_has_ends(s: Set<u32>)
    requires
        s.finite(),
        s.len() > 0,
    ensures
        s.contains(table::greatest(s)),
        forall|j: u32| s.contains(j) ==> j <= table::greatest(s),
        s.contains(table::least(s)),
        forall|j: u32| s.contains(j) ==> table::least(s) <= j,
    decreases s.len(),
{
    let x = s.choose();
    assert(s.contains(x));
    let rest = s.remove(x);
    if rest.len() > 0 {
        lemma_has_ends(rest);
        let g = table::greatest(rest);
        let l = table::least(rest);
        let top = if x > g { x } else { g };
        let low = if x < l { x } else { l };
        assert(s.contains(top) && forall|j: u32| s.contains(j) ==> j <= top) by {
            assert forall|j: u32| s.contains(j) implies j <= top by {
                if j != x {
                    assert(rest.contains(j));
                }
            }
        }
        assert(s.contains(low) && forall|j: u32| s.contains(j) ==> low <= j) by {
            assert forall|j: u32| s.contains(j) implies low <= j by {
                if j != x {
                    assert(rest.contains(j));
                }
            }
        }
    } else {
        assert(rest =~= Set::empty());
        assert forall|j: u32| s.contains(j) implies j == x by {
            if j != x {
                assert(rest.contains(j));
            }
        }
        assert(s.contains(x) && forall|j: u32| s.contains(j) ==> j <= x);
        assert(s.contains(x) && forall|j: u32| s.contains(j) ==> x <= j);
    }
}

/// A buffer that is full loses its highest number to a message that arrives early, and nothing
/// else; one that is not full loses nothing. What left is told.
pub proof fn full_buffer_loses_its_highest(r: ReceiverView, seq: u32, m: MsgView, now_ms: u64)
    requires
        r.wf(),
        seq != 0,
        reliable::is_guaranteed(m.options),
        reliable::is_sequential(m.options),
        !r.has_seen(seq),
        seq != r.g_next,
    ensures
        ({
            let after = r.receive(seq, m, now_ms).0;
            &&& r.g_buf.len() < reliable::OOO_CAP ==> after.last_evicted is None && forall|k: u32|
                r.g_buf.contains_key(k) ==> #[trigger] after.g_buf.contains_key(k) && after.g_buf[k]
                    == r.g_buf[k]
            &&& r.g_buf.len() >= reliable::OOO_CAP ==> after.last_evicted is Some && r.g_buf.contains_key(
                after.last_evicted->0,
            ) && (forall|k: u32| #[trigger]
                r.g_buf.contains_key(k) ==> k <= after.last_evicted->0 && (k
                    != after.last_evicted->0 ==> after.g_buf.contains_key(k) && after.g_buf[k]
                    == r.g_buf[k])) && !after.g_buf.contains_key(after.last_evicted->0)
        }),
{
    if r.g_buf.len() >= reliable::OOO_CAP {
        lemma_has_ends(r.g_buf.dom());
    }
}

/// A guaranteed message stays pending under its number, with the payload and the options that it
/// was sent with, until it is acknowledged; the first retransmission falls due 60 ms after it was
/// sent and repeats number, payload and options.
pub proof fn sent_is_kept_for_resending(s: SenderView, payload: Seq<u8>, options: u32, now_ms: u64)
    requires
        reliable::is_guaranteed(options),
        now_ms + 60 <= u64::MAX,
    ensures
        ({
            let (t, seq, _) = s.sending(payload, options, now_ms);
            let again = reliable::retransmission(seq, t.pending[seq]);
            &&& t.pending.contains_key(seq)
            &&& reliable::deadline(t.pending[seq]) == now_ms + 60
            &&& again.seq == seq && again.payload == payload && again.options == options
            &&& again.first && !again.gave_up && again.retries == 1
        }),
{
}

/// A look at the clock changes neither what a pending message says nor when it was first sent. One
/// that is resent goes out with its own payload, counts one retry more and waits from then on; one
/// that has used up its retries is given up and not sent.
pub proof fn resending_changes_no_message(seq: u32, p: PendingView, now_ms: u64)
    requires
        !p.gave_up,
    ensures
        ({
            let q = reliable::after_clock(p, now_ms);
            let sent = reliable::retransmission(seq, p);
            &&& q.payload == p.payload && q.options == p.options && q.first_sent_ms
                == p.first_sent_ms
            &&& sent.seq == seq && sent.options == p.options
            &&& p.retries < 8 ==> sent.payload == p.payload && !sent.gave_up && sent.retries
                == p.retries + 1 && (sent.first <==> p.retries == 0)
            &&& p.retries >= 8 ==> sent.gave_up && sent.payload.len() == 0
            &&& reliable::is_due(p, now_ms) && p.retries < 8 ==> q.retries == p.retries + 1
                && q.last_sent_ms == now_ms && !q.gave_up && (2 * p.rto_ms <= 500 ==> q.rto_ms == 2
                * p.rto_ms) && (2 * p.rto_ms > 500 ==> q.rto_ms == 500)
            &&& reliable::is_due(p, now_ms) && p.retries >= 8 ==> q.gave_up
            &&& !reliable::is_due(p, now_ms) ==> q == p
        }),
{
}

/// The first timeout is 60 ms, and each is twice the one before it, up to 500 ms.
pub proof fn timeouts_double(retries: u32)
    requires
        retries < u32::MAX,
    ensures
        reliable::backoff(0) == 60,
        2 * reliable::backoff(retries) <= 500 ==> reliable::backoff((retries + 1) as u32) == 2 * reliable::backoff(retries),
        2 * reliable::backoff(retries) > 500 ==> reliable::backoff((retries + 1) as u32) == 500,
{
}

/// Guaranteed messages are numbered one after the other and so, apart from them, are the
/// best-effort ordered ones; the others have no number. Each number is newer than the one before
/// it, and none is 0.
pub proof fn numbers_go_up(
    s: SenderView,
    payload: Seq<u8>,
    options: u32,
    now_ms: u64,
    more: Seq<u8>,
    others: u32,
    later_ms: u64,
)
    requires
        s.next_gseq != 0,
        s.next_bseq != 0,
    ensures
        ({
            let (t, first, _) = s.sending(payload, options, now_ms);
            let (_, second, _) = t.sending(more, others, later_ms);
            let (_, apart, _) = s.sending(more, others, later_ms);
            &&& first != 0 <==> reliable::is_guaranteed(options) || reliable::is_sequential(options)
            &&& reliable::is_guaranteed(options) && reliable::is_guaranteed(others) ==> reliable::newer(second, first) && (first
                < u32::MAX ==> second == first + 1)
            &&& !reliable::is_guaranteed(options) && !reliable::is_guaranteed(others) && reliable::is_sequential(options)
                && reliable::is_sequential(others) ==> reliable::newer(second, first) && (first < u32::MAX ==> second
                == first + 1)
            &&& reliable::is_guaranteed(options) != reliable::is_guaranteed(others) ==> second == apart
            &&& !reliable::is_guaranteed(options) && !reliable::is_sequential(options) ==> t == s
        }),
{
}

/// A sender that has as many messages pending as it can hold lets go of the lowest number when it
/// sends one more, and tells which; the others stay as they are. One with room lets go of none.
pub proof fn full_sender_lets_go_of_the_lowest(
    s: SenderView,
    payload: Seq<u8>,
    options: u32,
    now_ms: u64,
)
    requires
        s.pending.dom().finite(),
        !s.pending.contains_key(s.next_gseq),
        reliable::is_guaranteed(options),
    ensures
        ({
            let (t, seq, gone) = s.sending(payload, options, now_ms);
            &&& gone is Some <==> s.pending.len() >= reliable::PENDING_CAP
            &&& gone is None ==> forall|k: u32| #[trigger]
                s.pending.contains_key(k) ==> t.pending.contains_key(k) && t.pending[k]
                    == s.pending[k]
            &&& gone matches Some((low, told)) ==> s.pending.contains_key(low) && told
                == s.pending[low].options && !t.pending.contains_key(low) && (forall|k: u32|
                #[trigger]
                s.pending.contains_key(k) ==> low <= k && (k != low ==> t.pending.contains_key(k)
                    && t.pending[k] == s.pending[k]))
        }),
{
    if s.pending.len() >= reliable::PENDING_CAP {
        lemma_has_ends(s.pending.dom());
    }
}

}
