//! What a peer asks of the broker: a queue of requests, and the replies that wait to be applied.
use crate::party;
use crate::party::{Peer, PeerView};
use crate::text;
use vstd::prelude::*;

verus! {

/// How many requests wait before a registration leaves for another.
pub const QUEUE_CAP: usize = 512;

/// A request.
pub enum BrokerTask {
    /// Tell the broker that a peer takes part. `quiet` is for what repeats itself.
    Register { network_id: String, entity: String, udp_port: u16, quiet: bool },
    /// Tell the broker that a peer has left.
    Leave { network_id: String, entity: String },
    /// Ask who takes part. `epoch` is the number of the network that asks, `seq` that of the
    /// request.
    PollPeers { network_id: String, epoch: u64, seq: u64 },
}

#[verifier::ext_equal]
pub enum TaskView {
    Register { network_id: Seq<char>, entity: Seq<char>, udp_port: u16, quiet: bool },
    Leave { network_id: Seq<char>, entity: Seq<char> },
    PollPeers { network_id: Seq<char>, epoch: u64, seq: u64 },
}

impl View for BrokerTask {
    type V = TaskView;

    open spec fn view(&self) -> TaskView {
        match *self {
            BrokerTask::Register { network_id, entity, udp_port, quiet } => TaskView::Register {
                network_id: network_id@,
                entity: entity@,
                udp_port,
                quiet,
            },
            BrokerTask::Leave { network_id, entity } => TaskView::Leave {
                network_id: network_id@,
                entity: entity@,
            },
            BrokerTask::PollPeers { network_id, epoch, seq } => TaskView::PollPeers {
                network_id: network_id@,
                epoch,
                seq,
            },
        }
    }
}

pub open spec fn tasks(v: Seq<BrokerTask>) -> Seq<TaskView> {
    v.map_values(|t: BrokerTask| t@)
}

/// Two registrations of one peer in one network.
pub open spec fn same_peer(a: TaskView, b: TaskView) -> bool {
    a is Register && b is Register && a->Register_network_id == b->Register_network_id
        && a->Register_entity == b->Register_entity
}

/// Where a registration of the same peer first stands.
pub open spec fn same_place(q: Seq<TaskView>, t: TaskView) -> Option<int>
    decreases q.len(),
{
    if q.len() == 0 {
        None
    } else if same_peer(q[0], t) {
        Some(0)
    } else {
        match same_place(q.drop_first(), t) {
            Some(i) => Some(i + 1),
            None => None,
        }
    }
}

/// Where a registration first stands.
pub open spec fn register_place(q: Seq<TaskView>) -> Option<int>
    decreases q.len(),
{
    if q.len() == 0 {
        None
    } else if q[0] is Register {
        Some(0)
    } else {
        match register_place(q.drop_first()) {
            Some(i) => Some(i + 1),
            None => None,
        }
    }
}

/// The queue with one more request. A registration replaces the one of the same peer; where there
/// is none and the queue is full, the oldest registration leaves. Other requests always stay.
pub open spec fn queueing(q: Seq<TaskView>, t: TaskView) -> Seq<TaskView> {
    if t is Register {
        match same_place(q, t) {
            Some(i) => q.update(i, t),
            None => match register_place(q) {
                Some(i) if q.len() >= QUEUE_CAP => q.remove(i).push(t),
                _ => q.push(t),
            },
        }
    } else {
        q.push(t)
    }
}

proof fn lemma_same_place(q: Seq<TaskView>, t: TaskView)
    ensures
        match same_place(q, t) {
            Some(i) => 0 <= i < q.len() && same_peer(q[i], t) && forall|j: int|
                0 <= j < i ==> !same_peer(#[trigger] q[j], t),
            None => forall|j: int| 0 <= j < q.len() ==> !same_peer(#[trigger] q[j], t),
        },
    decreases q.len(),
{
    if q.len() > 0 && !same_peer(q[0], t) {
        let r = q.drop_first();
        lemma_same_place(r, t);
        assert forall|j: int| 0 < j < q.len() implies q[j] == r[j - 1] by {}
    }
}

proof fn lemma_same_place_is(q: Seq<TaskView>, t: TaskView, i: int)
    requires
        0 <= i < q.len(),
        same_peer(q[i], t),
        forall|j: int| 0 <= j < i ==> !same_peer(#[trigger] q[j], t),
    ensures
        same_place(q, t) == Some(i),
    decreases i,
{
    if i > 0 {
        lemma_same_place_is(q.drop_first(), t, i - 1);
    }
}

proof fn lemma_register_place(q: Seq<TaskView>)
    ensures
        match register_place(q) {
            Some(i) => 0 <= i < q.len() && q[i] is Register && forall|j: int|
                0 <= j < i ==> !(#[trigger] q[j] is Register),
            None => forall|j: int| 0 <= j < q.len() ==> !(#[trigger] q[j] is Register),
        },
    decreases q.len(),
{
    if q.len() > 0 && !(q[0] is Register) {
        let r = q.drop_first();
        lemma_register_place(r);
        assert forall|j: int| 0 < j < q.len() implies q[j] == r[j - 1] by {}
    }
}

proof fn lemma_register_place_is(q: Seq<TaskView>, i: int)
    requires
        0 <= i < q.len(),
        q[i] is Register,
        forall|j: int| 0 <= j < i ==> !(#[trigger] q[j] is Register),
    ensures
        register_place(q) == Some(i),
    decreases i,
{
    if i > 0 {
        lemma_register_place_is(q.drop_first(), i - 1);
    }
}

/// Where a registration of the same peer first stands.
fn find_same(q: &Vec<BrokerTask>, t: &BrokerTask) -> (r: Option<usize>)
    ensures
        match r {
            Some(i) => same_place(tasks(q@), t@) == Some(i as int) && i < q@.len(),
            None => same_place(tasks(q@), t@) is None,
        },
{
    let ghost v = tasks(q@);
    let mut i: usize = 0;
    while i < q.len()
        invariant
            i <= q@.len(),
            v == tasks(q@),
            forall|j: int| 0 <= j < i ==> !same_peer(#[trigger] v[j], t@),
        decreases q@.len() - i,
    {
        assert(v[i as int] == q@[i as int]@);
        if let (
            BrokerTask::Register { network_id: a, entity: b, .. },
            BrokerTask::Register { network_id: c, entity: d, .. },
        ) = (&q[i], t) {
            if text::eq(a.as_str(), c.as_str()) && text::eq(b.as_str(), d.as_str()) {
                proof {
                    lemma_same_place_is(v, t@, i as int);
                }
                return Some(i);
            }
        }
        i += 1;
    }
    proof {
        lemma_same_place(v, t@);
    }
    None
}

/// Where a registration first stands.
fn find_register(q: &Vec<BrokerTask>) -> (r: Option<usize>)
    ensures
        match r {
            Some(i) => register_place(tasks(q@)) == Some(i as int) && i < q@.len(),
            None => register_place(tasks(q@)) is None,
        },
{
    let ghost v = tasks(q@);
    let mut i: usize = 0;
    while i < q.len()
        invariant
            i <= q@.len(),
            v == tasks(q@),
            forall|j: int| 0 <= j < i ==> !(#[trigger] v[j] is Register),
        decreases q@.len() - i,
    {
        assert(v[i as int] == q@[i as int]@);
        if let BrokerTask::Register { .. } = &q[i] {
            proof {
                lemma_register_place_is(v, i as int);
            }
            return Some(i);
        }
        i += 1;
    }
    proof {
        lemma_register_place(v);
    }
    None
}

/// Queues a request.
pub fn dispatch_broker(q: &mut Vec<BrokerTask>, t: BrokerTask)
    ensures
        tasks(final(q)@) == queueing(tasks(old(q)@), t@),
{
    let ghost v = tasks(q@);
    if let BrokerTask::Register { .. } = &t {
        if let Some(i) = find_same(q, &t) {
            q.set(i, t);
            assert(tasks(q@) =~= v.update(i as int, t@));
            return;
        }
        if q.len() >= QUEUE_CAP {
            if let Some(i) = find_register(q) {
                let gone = q.remove(i);
                assert(tasks(q@) =~= v.remove(i as int));
            }
        }
    }
    let ghost w = tasks(q@);
    q.push(t);
    assert(tasks(q@) =~= w.push(t@));
}

/// The requests other than registrations.
pub open spec fn lasting(q: Seq<TaskView>) -> Seq<TaskView> {
    q.filter(|t: TaskView| !(t is Register))
}

/// No peer registers twice in one network.
pub open spec fn registers_once(q: Seq<TaskView>) -> bool {
    forall|i: int, j: int|
        0 <= i < j < q.len() ==> !same_peer(#[trigger] q[i], #[trigger] q[j])
}

/// Only registrations ever leave the queue, and the other requests keep their order.
pub proof fn only_registrations_leave(q: Seq<TaskView>, t: TaskView)
    ensures
        lasting(queueing(q, t)) == (if t is Register { lasting(q) } else { lasting(q).push(t) }),
{
    let p = |t: TaskView| !(t is Register);
    lemma_same_place(q, t);
    lemma_register_place(q);
    if t is Register {
        match same_place(q, t) {
            Some(i) => {
                lemma_filter_update(q, i, t);
            },
            None => {
                match register_place(q) {
                    Some(i) if q.len() >= QUEUE_CAP => {
                        lemma_filter_remove(q, i);
                        lemma_filter_push(q.remove(i), t);
                    },
                    _ => {
                        lemma_filter_push(q, t);
                    },
                }
            },
        }
    } else {
        lemma_filter_push(q, t);
    }
}

proof fn lemma_filter_push(q: Seq<TaskView>, t: TaskView)
    ensures
        lasting(q.push(t)) == (if t is Register { lasting(q) } else { lasting(q).push(t) }),
{
    reveal(Seq::filter);
    assert(q.push(t).drop_last() =~= q);
}

proof fn lemma_filter_update(q: Seq<TaskView>, i: int, t: TaskView)
    requires
        0 <= i < q.len(),
        q[i] is Register,
        t is Register,
    ensures
        lasting(q.update(i, t)) == lasting(q),
    decreases q.len(),
{
    reveal(Seq::filter);
    if i == q.len() - 1 {
        assert(q.update(i, t).drop_last() =~= q.drop_last());
    } else {
        assert(q.update(i, t).drop_last() =~= q.drop_last().update(i, t));
        lemma_filter_update(q.drop_last(), i, t);
    }
}

proof fn lemma_filter_remove(q: Seq<TaskView>, i: int)
    requires
        0 <= i < q.len(),
        q[i] is Register,
    ensures
        lasting(q.remove(i)) == lasting(q),
    decreases q.len(),
{
    reveal(Seq::filter);
    if i == q.len() - 1 {
        assert(q.remove(i) =~= q.drop_last());
    } else {
        assert(q.remove(i).drop_last() =~= q.drop_last().remove(i));
        assert(q.remove(i).last() == q.last());
        lemma_filter_remove(q.drop_last(), i);
    }
}

/// One registration of a peer is enough: the newest is the one that is queued.
pub proof fn newest_registration_wins(q: Seq<TaskView>, t: TaskView)
    requires
        registers_once(q),
    ensures
        registers_once(queueing(q, t)),
        queueing(q, t).contains(t),
{
    lemma_same_place(q, t);
    lemma_register_place(q);
    let r = queueing(q, t);
    if t is Register {
        match same_place(q, t) {
            Some(i) => {
                assert(r[i] == t);
                assert forall|a: int, b: int| 0 <= a < b < r.len() implies !same_peer(
                    #[trigger] r[a],
                    #[trigger] r[b],
                ) by {
                    assert(!same_peer(q[a], q[b]));
                }
            },
            None => {
                assert(r.last() == t);
                assert forall|a: int, b: int| 0 <= a < b < r.len() implies !same_peer(
                    #[trigger] r[a],
                    #[trigger] r[b],
                ) by {
                    match register_place(q) {
                        Some(i) if q.len() >= QUEUE_CAP => {
                            let c = if a < i { a } else { a + 1 };
                            let d = if b < i { b } else { b + 1 };
                            assert(r[a] == q[c]);
                            if b < r.len() - 1 {
                                assert(r[b] == q[d]);
                                assert(!same_peer(q[c], q[d]));
                            } else {
                                assert(!same_peer(q[c], t));
                            }
                        },
                        _ => {
                            if b < q.len() {
                                assert(!same_peer(q[a], q[b]));
                            } else {
                                assert(!same_peer(q[a], t));
                            }
                        },
                    }
                }
            },
        }
    } else {
        assert(r.last() == t);
        assert forall|a: int, b: int| 0 <= a < b < r.len() implies !same_peer(
            #[trigger] r[a],
            #[trigger] r[b],
        ) by {
            if b < q.len() {
                assert(!same_peer(q[a], q[b]));
            }
        }
    }
}

/// Who takes part in a network, as the broker told in reply to a request.
pub struct PollResult {
    pub seq: u64,
    pub members: Vec<Peer>,
}

#[verifier::ext_equal]
pub struct ResultView {
    pub seq: u64,
    pub members: Seq<PeerView>,
}

impl View for PollResult {
    type V = ResultView;

    open spec fn view(&self) -> ResultView {
        ResultView { seq: self.seq, members: party::peers(self.members@) }
    }
}

/// The replies that wait, each under the number of the network that asked.
pub open spec fn results(v: Seq<(u64, PollResult)>) -> Seq<(u64, ResultView)> {
    v.map_values(|e: (u64, PollResult)| (e.0, e.1@))
}

/// Where the reply for a network first stands.
pub open spec fn result_place(v: Seq<(u64, ResultView)>, epoch: u64) -> Option<int>
    decreases v.len(),
{
    if v.len() == 0 {
        None
    } else if v[0].0 == epoch {
        Some(0)
    } else {
        match result_place(v.drop_first(), epoch) {
            Some(i) => Some(i + 1),
            None => None,
        }
    }
}

/// The replies with one more, in place of an earlier one for the same network.
pub open spec fn stashing(v: Seq<(u64, ResultView)>, epoch: u64, r: ResultView) -> Seq<
    (u64, ResultView),
> {
    match result_place(v, epoch) {
        Some(i) => v.update(i, (epoch, r)),
        None => v.push((epoch, r)),
    }
}

/// The reply for a network, where there is one.
pub open spec fn result_for(v: Seq<(u64, ResultView)>, epoch: u64) -> Option<ResultView> {
    match result_place(v, epoch) {
        Some(i) => Some(v[i].1),
        None => None,
    }
}

/// The replies without the one for a network.
pub open spec fn without_result(v: Seq<(u64, ResultView)>, epoch: u64) -> Seq<(u64, ResultView)> {
    match result_place(v, epoch) {
        Some(i) => v.remove(i),
        None => v,
    }
}

/// The replies for the networks that are still there.
pub open spec fn live_results(v: Seq<(u64, ResultView)>, live: Seq<u64>) -> Seq<(u64, ResultView)>
    decreases v.len(),
{
    if v.len() == 0 {
        Seq::empty()
    } else if live.contains(v.last().0) {
        live_results(v.drop_last(), live).push(v.last())
    } else {
        live_results(v.drop_last(), live)
    }
}

proof fn lemma_result_place(v: Seq<(u64, ResultView)>, epoch: u64)
    ensures
        match result_place(v, epoch) {
            Some(i) => 0 <= i < v.len() && v[i].0 == epoch && forall|j: int|
                0 <= j < i ==> (#[trigger] v[j]).0 != epoch,
            None => forall|j: int| 0 <= j < v.len() ==> (#[trigger] v[j]).0 != epoch,
        },
    decreases v.len(),
{
    if v.len() > 0 && v[0].0 != epoch {
        let r = v.drop_first();
        lemma_result_place(r, epoch);
        assert forall|j: int| 0 < j < v.len() implies v[j] == r[j - 1] by {}
    }
}

proof fn lemma_result_place_is(v: Seq<(u64, ResultView)>, epoch: u64, i: int)
    requires
        0 <= i < v.len(),
        v[i].0 == epoch,
        forall|j: int| 0 <= j < i ==> (#[trigger] v[j]).0 != epoch,
    ensures
        result_place(v, epoch) == Some(i),
    decreases i,
{
    if i > 0 {
        lemma_result_place_is(v.drop_first(), epoch, i - 1);
    }
}

fn find_result(v: &Vec<(u64, PollResult)>, epoch: u64) -> (r: Option<usize>)
    ensures
        match r {
            Some(i) => result_place(results(v@), epoch) == Some(i as int) && i < v@.len(),
            None => result_place(results(v@), epoch) is None,
        },
{
    let ghost w = results(v@);
    let mut i: usize = 0;
    while i < v.len()
        invariant
            i <= v@.len(),
            w == results(v@),
            forall|j: int| 0 <= j < i ==> (#[trigger] w[j]).0 != epoch,
        decreases v@.len() - i,
    {
        assert(w[i as int].0 == v@[i as int].0);
        if v[i].0 == epoch {
            proof {
                lemma_result_place_is(w, epoch, i as int);
            }
            return Some(i);
        }
        i += 1;
    }
    proof {
        lemma_result_place(w, epoch);
    }
    None
}

/// Keeps a reply until it is applied.
pub fn stash_peer_result(v: &mut Vec<(u64, PollResult)>, epoch: u64, r: PollResult)
    ensures
        results(final(v)@) == stashing(results(old(v)@), epoch, r@),
{
    let ghost w = results(v@);
    match find_result(v, epoch) {
        Some(i) => {
            v.set(i, (epoch, r));
            assert(results(v@) =~= w.update(i as int, (epoch, r@)));
        },
        None => {
            v.push((epoch, r));
            assert(results(v@) =~= w.push((epoch, r@)));
        },
    }
}

/// Takes the reply for exactly this network, where it has arrived.
pub fn take_peer_result(v: &mut Vec<(u64, PollResult)>, epoch: u64) -> (r: Option<PollResult>)
    ensures
        results(final(v)@) == without_result(results(old(v)@), epoch),
        match r {
            Some(r) => result_for(results(old(v)@), epoch) == Some(r@),
            None => result_for(results(old(v)@), epoch) is None,
        },
{
    let ghost w = results(v@);
    match find_result(v, epoch) {
        Some(i) => {
            let e = v.remove(i);
            assert(results(v@) =~= w.remove(i as int));
            assert(w[i as int] == (e.0, e.1@));
            Some(e.1)
        },
        None => None,
    }
}

/// Drops the replies for networks that are gone.
pub fn drop_stale_peer_results(v: Vec<(u64, PollResult)>, live: &Vec<u64>) -> (r: Vec<
    (u64, PollResult),
>)
    ensures
        results(r@) == live_results(results(v@), live@),
{
    let ghost w = results(v@);
    let mut v = v;
    let mut r: Vec<(u64, PollResult)> = Vec::new();
    let n: usize = v.len();
    let mut i: usize = 0;
    assert(w.take(0) =~= Seq::empty());
    assert(results(r@) =~= Seq::empty());
    assert(w.skip(0) =~= w);
    while i < n
        invariant
            i <= n,
            n == w.len(),
            results(v@) == w.skip(i as int),
            results(r@) == live_results(w.take(i as int), live@),
        decreases n - i,
    {
        assert(w.take(i + 1).drop_last() =~= w.take(i as int));
        assert(results(v@).len() == v@.len());
        let ghost here = results(v@);
        let e = v.remove(0);
        assert(here[0] == (e.0, e.1@));
        assert(results(v@) =~= here.drop_first());
        assert(here.drop_first() =~= w.skip(i + 1));
        if is_among(e.0, live) {
            let ghost sofar = results(r@);
            r.push(e);
            assert(results(r@) =~= sofar.push((e.0, e.1@)));
        }
        i += 1;
    }
    assert(w.take(n as int) =~= w);
    r
}

fn is_among(k: u64, v: &Vec<u64>) -> (r: bool)
    ensures
        r == v@.contains(k),
{
    let mut i: usize = 0;
    while i < v.len()
        invariant
            i <= v@.len(),
            forall|j: int| 0 <= j < i ==> v@[j] != k,
        decreases v@.len() - i,
    {
        if v[i] == k {
            assert(v@[i as int] == k);
            return true;
        }
        i += 1;
    }
    false
}

}
