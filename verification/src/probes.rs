//! What the readings of the title's own state come to: which memory may be read, what a reading
//! tells, and the lines that tell it.
use crate::lobby_model;
use vstd::prelude::*;

verus! {

/// The hash of the operation that a start of a quest waits for.
pub const ASYNC_OP_HASH: u32 = 0xA596AF73;

/// How much of each list is looked at.
pub const NODE_CAP: usize = 8;

pub const QUEUE_CAP: usize = 192;

pub const TASK_CAP: usize = 64;

pub const NOTICE_CAP: usize = 32;

/// The most rows that a list may have to be believed.
pub const ROW_CAP: u64 = 16;

/// How long the sampled state stays untold of where it does not change, in milliseconds.
pub const SAMPLE_HEARTBEAT_MS: u64 = 5000;

/// How long the session stays untold of where it does not change, in milliseconds.
pub const SESSION_HEARTBEAT_MS: u64 = 10000;

/// A page that may be read: it is no guard page, and its protection includes reading.
pub open spec fn is_readable_page(protect: u32) -> bool {
    let kind = protect & 0xff;
    protect & 0x100 == 0 && (kind == 0x02 || kind == 0x04 || kind == 0x08 || kind == 0x20 || kind
        == 0x40 || kind == 0x80)
}

/// Whether a page may be read.
pub fn page_has_read(protect: u32) -> (r: bool)
    ensures
        r == is_readable_page(protect),
{
    if protect & 0x100 != 0 {
        return false;
    }
    let kind: u32 = protect & 0xff;
    kind == 0x02 || kind == 0x04 || kind == 0x08 || kind == 0x20 || kind == 0x40 || kind == 0x80
}

/// What the system tells of the memory around an address.
pub struct Region {
    pub start: u64,
    pub size: u64,
    pub committed: bool,
    pub protect: u32,
}

/// All of a range lies in one region that may be read.
pub open spec fn range_is_readable(p: u64, n: u64, region: Option<Region>) -> bool {
    match region {
        Some(r) => p != 0 && n != 0 && p + n <= u64::MAX && r.committed && is_readable_page(
            r.protect,
        ) && r.start <= p && p + n <= r.start + r.size,
        None => false,
    }
}

/// Whether a range may be read, by what the system tells of the memory there.
pub fn readable(p: u64, n: u64, region: &Option<Region>) -> (r: bool)
    ensures
        r == range_is_readable(p, n, *region),
{
    let g = match region {
        Some(g) => g,
        None => {
            return false;
        },
    };
    if p == 0 || n == 0 || n > u64::MAX - p {
        return false;
    }
    if !g.committed || !page_has_read(g.protect) {
        return false;
    }
    let end: u64 = if g.size > u64::MAX - g.start {
        u64::MAX
    } else {
        g.start + g.size
    };
    p >= g.start && p + n <= end
}

/// How many rows lie between two addresses, where that can be believed.
pub open spec fn rows_between(begin: u64, end: u64, stride: u64) -> Option<int> {
    if begin == 0 || end < begin || stride == 0 || (end - begin) % (stride as int) != 0 || end
        - begin > stride * ROW_CAP {
        None
    } else {
        Some((end - begin) / (stride as int))
    }
}

/// Counts the rows between two addresses.
pub fn count_rows(begin: u64, end: u64, stride: u64) -> (r: Option<u64>)
    requires
        stride <= 0xffff,
    ensures
        match r {
            Some(n) => rows_between(begin, end, stride) == Some(n as int),
            None => rows_between(begin, end, stride) is None,
        },
{
    if begin == 0 || end < begin || stride == 0 {
        return None;
    }
    let size: u64 = end - begin;
    assert(stride * ROW_CAP <= 0xffff * 16) by (nonlinear_arith)
        requires
            stride <= 0xffff,
            ROW_CAP == 16,
    ;
    if size % stride != 0 || size > stride * ROW_CAP {
        return None;
    }
    Some(size / stride)
}

/// A hash with one more reading in it. A reading that could not be made counts as one of its own.
pub open spec fn mixed(h: u64, v: Option<u64>) -> u64 {
    let x = match v {
        Some(x) => x,
        None => u64::MAX,
    };
    (h ^ x).wrapping_mul(0x100_0000_01b3)
}

/// Mixes one more reading into a hash.
pub fn mix(h: u64, v: Option<u64>) -> (r: u64)
    ensures
        r == mixed(h, v),
{
    let x: u64 = match v {
        Some(x) => x,
        None => u64::MAX,
    };
    (h ^ x).wrapping_mul(0x100_0000_01b3)
}

/// A hash of readings, one after the other.
pub open spec fn mixed_all(v: Seq<Option<u64>>) -> u64
    decreases v.len(),
{
    if v.len() == 0 {
        0xcbf2_9ce4_8422_2325
    } else {
        mixed(mixed_all(v.drop_last()), v.last())
    }
}

/// Hashes readings.
pub fn mix_all(v: &Vec<Option<u64>>) -> (r: u64)
    ensures
        r == mixed_all(v@),
{
    let mut h: u64 = 0xcbf2_9ce4_8422_2325;
    let mut i: usize = 0;
    assert(v@.take(0) =~= Seq::empty());
    while i < v.len()
        invariant
            i <= v@.len(),
            h == mixed_all(v@.take(i as int)),
        decreases v@.len() - i,
    {
        assert(v@.take(i + 1).drop_last() =~= v@.take(i as int));
        h = mix(h, v[i]);
        i += 1;
    }
    assert(v@.take(i as int) =~= v@);
    h
}

/// A hash of bytes.
pub open spec fn hashed(b: Seq<u8>) -> u64
    decreases b.len(),
{
    if b.len() == 0 {
        0xcbf2_9ce4_8422_2325
    } else {
        (hashed(b.drop_last()) ^ (b.last() as u64)).wrapping_mul(0x100_0000_01b3)
    }
}

/// Hashes a text.
pub fn fnv1a(s: &str) -> (r: u64)
    ensures
        r == hashed(lobby_model::utf8(s@)),
{
    let b = s.as_bytes();
    let mut h: u64 = 0xcbf2_9ce4_8422_2325;
    let mut i: usize = 0;
    assert(b@.take(0) =~= Seq::empty());
    while i < b.len()
        invariant
            i <= b@.len(),
            h == hashed(b@.take(i as int)),
        decreases b@.len() - i,
    {
        assert(b@.take(i + 1).drop_last() =~= b@.take(i as int));
        h = (h ^ (b[i] as u64)).wrapping_mul(0x100_0000_01b3);
        i += 1;
    }
    assert(b@.take(i as int) =~= b@);
    h
}

/// A node of a chain of operations: its hash where it can be read, the length of its name where
/// that can be, and whether the next node can be reached.
#[derive(Clone, Copy)]
pub struct Node {
    pub hash: Option<u32>,
    pub name_len: Option<u64>,
    pub next: bool,
}

/// Whether an operation is registered, the length of its name, and whether the chain was too long
/// to be followed.
#[derive(Clone, Copy)]
#[verifier::ext_equal]
pub struct Registered {
    pub present: bool,
    pub name_len: Option<u64>,
    pub cut: bool,
}

/// What a chain of operations tells, from a node on. A chain that breaks off tells nothing.
pub open spec fn registered_from(nodes: Seq<Node>, i: int, hash: u32) -> Option<Registered>
    decreases nodes.len() - i,
{
    if i >= nodes.len() || i >= NODE_CAP || i < 0 {
        Some(Registered { present: false, name_len: None, cut: i >= NODE_CAP })
    } else {
        match nodes[i].hash {
            None => None,
            Some(h) => if h == hash {
                Some(Registered { present: true, name_len: nodes[i].name_len, cut: false })
            } else if !nodes[i].next {
                None
            } else {
                registered_from(nodes, i + 1, hash)
            },
        }
    }
}

/// Follows a chain of operations.
pub fn m1_read(nodes: &Vec<Node>, hash: u32) -> (r: Option<Registered>)
    ensures
        r == registered_from(nodes@, 0, hash),
{
    let mut i: usize = 0;
    while i < nodes.len() && i < NODE_CAP
        invariant
            i <= nodes@.len(),
            i <= NODE_CAP,
            registered_from(nodes@, 0, hash) == registered_from(nodes@, i as int, hash),
        decreases nodes@.len() - i,
    {
        let h: u32 = match nodes[i].hash {
            Some(h) => h,
            None => {
                return None;
            },
        };
        if h == hash {
            return Some(Registered { present: true, name_len: nodes[i].name_len, cut: false });
        }
        if !nodes[i].next {
            return None;
        }
        i += 1;
    }
    Some(Registered { present: false, name_len: None, cut: i >= NODE_CAP })
}

/// How often an operation stands in a queue, how long the queue is, how the first one is meant,
/// and whether the queue was too long to be looked through.
#[derive(Clone, Copy)]
#[verifier::ext_equal]
pub struct Queued {
    pub hits: u32,
    pub total: u64,
    pub mode: Option<u32>,
    pub cut: bool,
}

/// How often a hash occurs.
pub open spec fn occurrences(v: Seq<(u32, u32)>, hash: u32) -> nat
    decreases v.len(),
{
    if v.len() == 0 {
        0
    } else {
        occurrences(v.drop_last(), hash) + (if v.last().1 == hash { 1nat } else { 0nat })
    }
}

/// What stands with the first occurrence of a hash.
pub open spec fn first_mode(v: Seq<(u32, u32)>, hash: u32) -> Option<u32>
    decreases v.len(),
{
    if v.len() == 0 {
        None
    } else {
        match first_mode(v.drop_last(), hash) {
            Some(m) => Some(m),
            None => if v.last().1 == hash { Some(v.last().0) } else { None },
        }
    }
}

/// What is looked at of a list.
pub open spec fn looked_at<T>(v: Seq<T>, cap: int) -> Seq<T> {
    if v.len() > cap { v.take(cap) } else { v }
}

/// Looks through a queue of `total` entries, of which the first ones are given with how they are
/// meant and their hashes.
pub fn boot_queue_read(entries: &Vec<(u32, u32)>, total: u64, hash: u32) -> (r: Queued)
    ensures
        ({
            let v = looked_at(entries@, QUEUE_CAP as int);
            r == (Queued {
                hits: occurrences(v, hash) as u32,
                total,
                mode: first_mode(v, hash),
                cut: v.len() < total,
            })
        }),
{
    let mut hits: u32 = 0;
    let mut mode: Option<u32> = None;
    let mut i: usize = 0;
    assert(entries@.take(0) =~= Seq::empty());
    while i < entries.len() && i < QUEUE_CAP
        invariant
            i <= entries@.len(),
            i <= QUEUE_CAP,
            hits <= i,
            hits == occurrences(entries@.take(i as int), hash),
            mode == first_mode(entries@.take(i as int), hash),
        decreases entries@.len() - i,
    {
        assert(entries@.take(i + 1).drop_last() =~= entries@.take(i as int));
        if entries[i].1 == hash {
            hits += 1;
            if mode.is_none() {
                mode = Some(entries[i].0);
            }
        }
        i += 1;
    }
    assert(entries@.take(i as int) =~= looked_at(entries@, QUEUE_CAP as int));
    Queued { hits, total, mode, cut: (i as u64) < total }
}

/// A task of the loader, as far as it can be read.
#[derive(Clone, Copy)]
pub enum LoaderTask {
    Absent,
    Unreadable,
    Task { state: u32, result: u32, hash: u32 },
}

/// What the tasks of the loader come to.
#[derive(Clone, Copy)]
#[verifier::ext_equal]
pub struct Tasks {
    pub total: u64,
    pub scanned: u64,
    /// How many could be read, and how many of those have ended.
    pub read: u32,
    pub ended: u32,
    /// The state and the result of the task that is looked for.
    pub found: Option<(u32, u32)>,
    /// Some could not be read.
    pub blind: bool,
}

/// How many tasks could be read.
pub open spec fn tasks_read(v: Seq<LoaderTask>) -> nat
    decreases v.len(),
{
    if v.len() == 0 {
        0
    } else {
        tasks_read(v.drop_last()) + (if v.last() is Task { 1nat } else { 0nat })
    }
}

/// How many tasks have ended.
pub open spec fn tasks_ended(v: Seq<LoaderTask>) -> nat
    decreases v.len(),
{
    if v.len() == 0 {
        0
    } else {
        tasks_ended(v.drop_last()) + (match v.last() {
            LoaderTask::Task { state, .. } => if state == 2 { 1nat } else { 0nat },
            _ => 0nat,
        })
    }
}

/// The state and the result of the first task with a hash.
pub open spec fn task_found(v: Seq<LoaderTask>, hash: u32) -> Option<(u32, u32)>
    decreases v.len(),
{
    if v.len() == 0 {
        None
    } else {
        match task_found(v.drop_last(), hash) {
            Some(t) => Some(t),
            None => match v.last() {
                LoaderTask::Task { state, result, hash: h } => if h == hash {
                    Some((state, result))
                } else {
                    None
                },
                _ => None,
            },
        }
    }
}

/// Looks through the tasks of the loader.
pub fn tally_tasks(tasks: &Vec<LoaderTask>, total: u64, hash: u32) -> (r: Tasks)
    ensures
        ({
            let v = looked_at(tasks@, TASK_CAP as int);
            r == (Tasks {
                total,
                scanned: v.len() as u64,
                read: tasks_read(v) as u32,
                ended: tasks_ended(v) as u32,
                found: task_found(v, hash),
                blind: v.contains(LoaderTask::Unreadable),
            })
        }),
{
    let mut read: u32 = 0;
    let mut ended: u32 = 0;
    let mut found: Option<(u32, u32)> = None;
    let mut blind = false;
    let mut i: usize = 0;
    assert(tasks@.take(0) =~= Seq::empty());
    while i < tasks.len() && i < TASK_CAP
        invariant
            i <= tasks@.len(),
            i <= TASK_CAP,
            read <= i,
            ended <= i,
            read == tasks_read(tasks@.take(i as int)),
            ended == tasks_ended(tasks@.take(i as int)),
            found == task_found(tasks@.take(i as int), hash),
            blind == tasks@.take(i as int).contains(LoaderTask::Unreadable),
        decreases tasks@.len() - i,
    {
        let ghost before = tasks@.take(i as int);
        let ghost after = tasks@.take(i + 1);
        assert(after.drop_last() =~= before);
        assert(after[i as int] == tasks@[i as int]);
        proof {
            if before.contains(LoaderTask::Unreadable) {
                let k = choose|k: int| 0 <= k < before.len() && before[k] == LoaderTask::Unreadable;
                assert(after[k] == LoaderTask::Unreadable);
            }
            if after.contains(LoaderTask::Unreadable) && tasks@[i as int] != LoaderTask::Unreadable {
                let k = choose|k: int| 0 <= k < after.len() && after[k] == LoaderTask::Unreadable;
                assert(before[k] == LoaderTask::Unreadable);
            }
        }
        match tasks[i] {
            LoaderTask::Absent => {},
            LoaderTask::Unreadable => {
                blind = true;
            },
            LoaderTask::Task { state, result, hash: h } => {
                read += 1;
                if state == 2 {
                    ended += 1;
                }
                if h == hash && found.is_none() {
                    found = Some((state, result));
                }
            },
        }
        i += 1;
    }
    assert(tasks@.take(i as int) =~= looked_at(tasks@, TASK_CAP as int));
    Tasks { total, scanned: i as u64, read, ended, found, blind }
}

/// What the notices of the loader come to: those that wait, of all and of the one that is looked
/// for, those that tell of an end, and those that close the list.
#[derive(Clone, Copy)]
#[verifier::ext_equal]
pub struct Notices {
    pub total: u64,
    pub scanned: u64,
    pub waiting_here: u32,
    pub waiting: u32,
    pub ends: u32,
    pub closes: u32,
}

/// How many notices have a state.
pub open spec fn with_state(v: Seq<(u32, u32)>, state: u32) -> nat
    decreases v.len(),
{
    if v.len() == 0 {
        0
    } else {
        with_state(v.drop_last(), state) + (if v.last().0 == state { 1nat } else { 0nat })
    }
}

/// How many notices wait for an operation.
pub open spec fn waiting_for(v: Seq<(u32, u32)>, hash: u32) -> nat
    decreases v.len(),
{
    if v.len() == 0 {
        0
    } else {
        waiting_for(v.drop_last(), hash) + (if v.last().0 == 1 && v.last().1 == hash {
            1nat
        } else {
            0nat
        })
    }
}

/// Looks through the notices of the loader.
pub fn tally_notices(notices: &Vec<(u32, u32)>, total: u64, hash: u32) -> (r: Notices)
    ensures
        ({
            let v = looked_at(notices@, NOTICE_CAP as int);
            r == (Notices {
                total,
                scanned: v.len() as u64,
                waiting_here: waiting_for(v, hash) as u32,
                waiting: with_state(v, 1) as u32,
                ends: with_state(v, 2) as u32,
                closes: with_state(v, 3) as u32,
            })
        }),
{
    let mut waiting_here: u32 = 0;
    let mut waiting: u32 = 0;
    let mut ends: u32 = 0;
    let mut closes: u32 = 0;
    let mut i: usize = 0;
    assert(notices@.take(0) =~= Seq::empty());
    while i < notices.len() && i < NOTICE_CAP
        invariant
            i <= notices@.len(),
            i <= NOTICE_CAP,
            waiting_here <= i,
            waiting <= i,
            ends <= i,
            closes <= i,
            waiting_here == waiting_for(notices@.take(i as int), hash),
            waiting == with_state(notices@.take(i as int), 1),
            ends == with_state(notices@.take(i as int), 2),
            closes == with_state(notices@.take(i as int), 3),
        decreases notices@.len() - i,
    {
        assert(notices@.take(i + 1).drop_last() =~= notices@.take(i as int));
        let s: u32 = notices[i].0;
        if s == 1 {
            waiting += 1;
            if notices[i].1 == hash {
                waiting_here += 1;
            }
        } else if s == 2 {
            ends += 1;
        } else if s == 3 {
            closes += 1;
        }
        i += 1;
    }
    assert(notices@.take(i as int) =~= looked_at(notices@, NOTICE_CAP as int));
    Notices { total, scanned: i as u64, waiting_here, waiting, ends, closes }
}

/// What is known of an operation of the loader. What could not be read is not there.
#[derive(Clone, Copy)]
pub struct AsyncState {
    pub manager: Option<u64>,
    pub registered: Option<Registered>,
    pub queued: Option<Queued>,
    pub tasks: Option<Tasks>,
    pub notices: Option<Notices>,
}

/// What is known of an operation in one word.
pub open spec fn verdict(s: AsyncState) -> Seq<char> {
    match (s.tasks, s.notices) {
        (Some(t), Some(n)) => match t.found {
            Some(f) => if f.0 == 2 {
                "completed"@
            } else if f.0 == 1 {
                "loading"@
            } else {
                "-"@
            },
            None => if s.queued is Some && s.queued->0.hits > 0 {
                "queued"@
            } else if s.registered is Some && s.registered->0.present {
                "registered"@
            } else if n.waiting_here > 0 {
                "waited"@
            } else if s.registered is Some {
                "none"@
            } else {
                "-"@
            },
        },
        _ => "ro"@,
    }
}

/// Tells what is known of an operation in one word.
pub fn async_verdict(s: &AsyncState) -> (r: &'static str)
    ensures
        r@ == verdict(*s),
{
    let t = match s.tasks {
        Some(t) => t,
        None => {
            return "ro";
        },
    };
    let n = match s.notices {
        Some(n) => n,
        None => {
            return "ro";
        },
    };
    if let Some(f) = t.found {
        return if f.0 == 2 {
            "completed"
        } else if f.0 == 1 {
            "loading"
        } else {
            "-"
        };
    }
    if let Some(q) = s.queued {
        if q.hits > 0 {
            return "queued";
        }
    }
    match s.registered {
        Some(m) => if m.present {
            "registered"
        } else if n.waiting_here > 0 {
            "waited"
        } else {
            "none"
        },
        None => if n.waiting_here > 0 {
            "waited"
        } else {
            "-"
        },
    }
}

/// What decides whether the title may change how players are matched: the ordinals that it expects
/// and those that it sees, of the one or the other context.
#[derive(Clone, Copy)]
pub struct MatchGate {
    pub context: Option<u8>,
    pub seen0: Option<u32>,
    pub seen1: Option<u32>,
    pub expected0: Option<u32>,
    pub expected1: Option<u32>,
}

/// Whether the barrier is open; that is not known unless all of it could be read.
pub open spec fn gate_open(g: MatchGate) -> Option<bool> {
    match (g.context, g.seen0, g.seen1, g.expected0, g.expected1) {
        (Some(c), Some(s0), Some(s1), Some(e0), Some(e1)) => Some(
            if c != 0 { e1 == s1 } else { e0 == s0 },
        ),
        _ => None,
    }
}

/// Whether the title may change how players are matched.
pub fn can_match(g: &MatchGate) -> (r: Option<bool>)
    ensures
        r == gate_open(*g),
{
    match (g.context, g.seen0, g.seen1, g.expected0, g.expected1) {
        (Some(c), Some(s0), Some(s1), Some(e0), Some(e1)) => Some(
            if c != 0 {
                e1 == s1
            } else {
                e0 == s0
            },
        ),
        _ => None,
    }
}

}
