//! The lines that tell of the title's own state, and when they are told.
use crate::diag::ChangeGate;
use crate::notes;
use crate::probes;
use crate::probes::{AsyncState, MatchGate, Notices, Queued, Registered, Tasks};
use crate::text;
use vstd::prelude::*;

verus! {

/// What was sampled of the title's state.
pub struct SoloSample {
    pub phase: Option<u32>,
    pub session: Option<u64>,
    pub join: Option<u64>,
    pub join_live: Option<u8>,
    pub gate: MatchGate,
    pub armed: Option<u32>,
    pub done: Option<u8>,
    pub skip: Option<u8>,
    pub manager: Option<u64>,
    pub matching: Option<u64>,
    pub matching_result: Option<u32>,
    /// The fields of the quest manager, in the order of their names.
    pub quest: Vec<Option<u32>>,
    pub state: AsyncState,
}

pub open spec fn wide(v: Option<u32>) -> Option<u64> {
    match v {
        Some(n) => Some(n as u64),
        None => None,
    }
}

fn widen(v: Option<u32>) -> (r: Option<u64>)
    ensures
        r == wide(v),
{
    match v {
        Some(n) => Some(n as u64),
        None => None,
    }
}

pub open spec fn wide_byte(v: Option<u8>) -> Option<u64> {
    match v {
        Some(n) => Some(n as u64),
        None => None,
    }
}

fn widen_byte(v: Option<u8>) -> (r: Option<u64>)
    ensures
        r == wide_byte(v),
{
    match v {
        Some(n) => Some(n as u64),
        None => None,
    }
}

pub open spec fn wide_bool(v: Option<bool>) -> Option<u64> {
    match v {
        Some(b) => Some(if b { 1u64 } else { 0u64 }),
        None => None,
    }
}

fn widen_bool(v: Option<bool>) -> (r: Option<u64>)
    ensures
        r == wide_bool(v),
{
    match v {
        Some(b) => Some(
            if b {
                1
            } else {
                0
            },
        ),
        None => None,
    }
}

pub open spec fn bit(b: bool) -> u64 {
    if b { 1 } else { 0 }
}

fn as_bit(b: bool) -> (r: u64)
    ensures
        r == bit(b),
{
    if b {
        1
    } else {
        0
    }
}

/// A registration in one number.
pub open spec fn packed_registration(m: Option<Registered>) -> Option<u64> {
    match m {
        Some(m) => {
            let len = match m.name_len {
                Some(n) => n,
                None => u64::MAX,
            };
            Some(bit(m.present) | (len << 1u64) | (bit(m.cut) << 33u64))
        },
        None => None,
    }
}

fn pack_registration(m: Option<Registered>) -> (r: Option<u64>)
    ensures
        r == packed_registration(m),
{
    match m {
        Some(m) => {
            let len: u64 = match m.name_len {
                Some(n) => n,
                None => u64::MAX,
            };
            Some(as_bit(m.present) | (len << 1u64) | (as_bit(m.cut) << 33u64))
        },
        None => None,
    }
}

/// A place in the queue in one number.
pub open spec fn packed_queue(q: Option<Queued>) -> Option<u64> {
    match q {
        Some(q) => Some((q.hits as u64) | (q.total << 32u64)),
        None => None,
    }
}

pub open spec fn queue_mode(q: Option<Queued>) -> Option<u32> {
    match q {
        Some(q) => q.mode,
        None => None,
    }
}

fn mode_in_queue(q: Option<Queued>) -> (r: Option<u32>)
    ensures
        r == queue_mode(q),
{
    match q {
        Some(q) => q.mode,
        None => None,
    }
}

pub open spec fn queue_cut(q: Option<Queued>) -> Option<u64> {
    match q {
        Some(q) => Some(bit(q.cut)),
        None => None,
    }
}

pub open spec fn wide_all(v: Seq<Option<u32>>) -> Seq<Option<u64>> {
    v.map_values(|x: Option<u32>| wide(x))
}

/// Everything that was sampled, in one list.
pub open spec fn sampled(s: SoloSample) -> Seq<Option<u64>> {
    seq![
        wide(s.phase),
        s.session,
        s.join,
        wide_byte(s.join_live),
        wide_byte(s.gate.context),
        wide(s.gate.seen0),
        wide(s.gate.seen1),
        wide(s.gate.expected0),
        wide(s.gate.expected1),
        wide_bool(probes::gate_open(s.gate)),
        wide(s.armed),
        wide_byte(s.done),
        wide_byte(s.skip),
        s.manager,
        s.matching,
        wide(s.matching_result),
    ] + wide_all(s.quest@) + seq![
        s.state.manager,
        packed_registration(s.state.registered),
        packed_queue(s.state.queued),
        wide(queue_mode(s.state.queued)),
        queue_cut(s.state.queued),
    ]
}

/// The hash of what was sampled.
pub fn solo_key(s: &SoloSample) -> (r: u64)
    ensures
        r == probes::mixed_all(sampled(*s)),
{
    let mut v: Vec<Option<u64>> = Vec::new();
    v.push(widen(s.phase));
    v.push(s.session);
    v.push(s.join);
    v.push(widen_byte(s.join_live));
    v.push(widen_byte(s.gate.context));
    v.push(widen(s.gate.seen0));
    v.push(widen(s.gate.seen1));
    v.push(widen(s.gate.expected0));
    v.push(widen(s.gate.expected1));
    v.push(widen_bool(probes::can_match(&s.gate)));
    v.push(widen(s.armed));
    v.push(widen_byte(s.done));
    v.push(widen_byte(s.skip));
    v.push(s.manager);
    v.push(s.matching);
    v.push(widen(s.matching_result));
    let ghost first = v@;
    let mut i: usize = 0;
    assert(v@ =~= first + wide_all(s.quest@.take(0)));
    while i < s.quest.len()
        invariant
            i <= s.quest@.len(),
            v@ == first + wide_all(s.quest@.take(i as int)),
        decreases s.quest@.len() - i,
    {
        v.push(widen(s.quest[i]));
        assert(v@ =~= first + wide_all(s.quest@.take(i + 1)));
        i += 1;
    }
    assert(s.quest@.take(i as int) =~= s.quest@);
    v.push(s.state.manager);
    v.push(pack_registration(s.state.registered));
    v.push(
        match s.state.queued {
            Some(q) => Some((q.hits as u64) | (q.total << 32u64)),
            None => None,
        },
    );
    v.push(widen(mode_in_queue(s.state.queued)));
    v.push(
        match s.state.queued {
            Some(q) => Some(as_bit(q.cut)),
            None => None,
        },
    );
    assert(v@ =~= sampled(*s));
    probes::mix_all(&v)
}

/// The name of a field of the quest manager.
pub open spec fn quest_name(i: int) -> Seq<char> {
    if i == 0 {
        " q1c530="@
    } else if i == 1 {
        " q6c814="@
    } else if i == 2 {
        " q6c838="@
    } else if i == 3 {
        " q6ccf4="@
    } else if i == 4 {
        " q6ccfc="@
    } else if i == 5 {
        " q1c108="@
    } else if i == 6 {
        " q1beb8="@
    } else {
        " q6c7fc="@
    }
}

fn name_of_quest(i: usize) -> (r: &'static str)
    ensures
        r@ == quest_name(i as int),
{
    if i == 0 {
        " q1c530="
    } else if i == 1 {
        " q6c814="
    } else if i == 2 {
        " q6c838="
    } else if i == 3 {
        " q6ccf4="
    } else if i == 4 {
        " q6ccfc="
    } else if i == 5 {
        " q1c108="
    } else if i == 6 {
        " q1beb8="
    } else {
        " q6c7fc="
    }
}

/// A registration in a word.
pub open spec fn registration_word(m: Option<Registered>) -> Seq<char> {
    match m {
        None => "ro"@,
        Some(m) => if m.present { "1"@ } else { "0"@ },
    }
}

/// The length of the name of an operation, where it is registered.
pub open spec fn name_len_words(m: Option<Registered>) -> Seq<char> {
    match m {
        Some(m) => if m.present {
            match m.name_len {
                Some(n) => " nm_len="@ + text::decimal(n as nat),
                None => " nm_len=?"@,
            }
        } else {
            ""@
        },
        None => ""@,
    }
}

fn name_len_text(m: Option<Registered>) -> (r: String)
    ensures
        r@ == name_len_words(m),
{
    if let Some(m) = m {
        if m.present {
            return match m.name_len {
                Some(n) => {
                    let mut r = " nm_len=".to_owned();
                    text::push_decimal(&mut r, n);
                    r
                },
                None => " nm_len=?".to_owned(),
            };
        }
    }
    "".to_owned()
}

/// A place in the queue in words.
pub open spec fn queue_words(q: Option<Queued>) -> Seq<char> {
    match q {
        None => "ro"@,
        Some(q) => text::decimal(q.hits as nat) + "/"@ + text::decimal(q.total as nat) + (
        match q.mode {
            Some(m) => "/m"@ + text::decimal(m as nat),
            None => ""@,
        }) + (if q.cut { "/trunc"@ } else { ""@ }),
    }
}

fn queue_text(q: Option<Queued>) -> (r: String)
    ensures
        r@ == queue_words(q),
{
    match q {
        None => "ro".to_owned(),
        Some(q) => {
            let mut r = text::decimal_text(q.hits as u64);
            r.append("/");
            text::push_decimal(&mut r, q.total);
            let mode = match q.mode {
                Some(m) => {
                    let mut t = "/m".to_owned();
                    text::push_decimal(&mut t, m as u64);
                    t
                },
                None => "".to_owned(),
            };
            r.append(mode.as_str());
            r.append(
                if q.cut {
                    "/trunc"
                } else {
                    ""
                },
            );
            r
        },
    }
}

/// The fields of the quest manager, after a line.
pub open spec fn with_quest(s: Seq<char>, v: Seq<Option<u32>>) -> Seq<char>
    decreases v.len(),
{
    if v.len() == 0 {
        s
    } else {
        notes::tagged(
            with_quest(s, v.drop_last()),
            quest_name(v.len() - 1),
            notes::shown(v.last()),
        )
    }
}

/// The line that tells of a sample.
pub open spec fn solo_words(
    s: SoloSample,
    now: u64,
    thread: u32,
    pass: u64,
    beat: bool,
    told: u64,
) -> Seq<char> {
    let a = notes::tagged("solo"@, " t="@, text::decimal(now as nat));
    let a = notes::tagged(a, " tid="@, notes::hex_number(thread as nat));
    let a = notes::tagged(a, " pass="@, text::decimal(pass as nat));
    let a = notes::tagged(a, " hb="@, if beat { "1"@ } else { "0"@ });
    let a = notes::tagged(a, " upd_phase="@, notes::shown(s.phase));
    let a = notes::tagged(a, " jl_gate="@, notes::shown_byte(s.join_live));
    let a = notes::tagged(a, " qmsel="@, notes::shown_byte(s.gate.context));
    let a = notes::tagged(a, " qm_obs="@, notes::shown(s.gate.seen0));
    let a = notes::tagged(a, "/"@, notes::shown(s.gate.seen1));
    let a = notes::tagged(a, " qm_exp="@, notes::shown(s.gate.expected0));
    let a = notes::tagged(a, "/"@, notes::shown(s.gate.expected1));
    let a = notes::tagged(a, " canmatch="@, notes::shown_bool(probes::gate_open(s.gate)));
    let a = notes::tagged(a, " arm3="@, notes::shown(s.armed));
    let a = notes::tagged(a, " done3="@, notes::shown_byte(s.done));
    let a = notes::tagged(a, " skip3="@, notes::shown_byte(s.skip));
    let a = notes::tagged(
        a,
        " m1="@,
        registration_word(s.state.registered) + name_len_words(s.state.registered),
    );
    let a = notes::tagged(a, " q="@, queue_words(s.state.queued));
    let a = notes::tagged(a, " qmode="@, notes::shown(queue_mode(s.state.queued)));
    let a = notes::tagged(a, " v="@, probes::verdict(s.state));
    let a = notes::tagged(a, " mat="@, notes::shown_address(s.matching));
    let a = notes::tagged(a, " m50="@, notes::shown(s.matching_result));
    notes::tagged(with_quest(a, s.quest@), " emit="@, text::decimal(told as nat))
}

/// Writes the line that tells of a sample.
pub fn solo_line(
    s: &SoloSample,
    now: u64,
    thread: u32,
    pass: u64,
    beat: bool,
    told: u64,
) -> (r: String)
    ensures
        r@ == solo_words(*s, now, thread, pass, beat, told),
{
    let mut r = notes::line("solo");
    notes::tag(&mut r, " t=", text::decimal_text(now).as_str());
    notes::tag(&mut r, " tid=", notes::hex_text(thread as u64).as_str());
    notes::tag(&mut r, " pass=", text::decimal_text(pass).as_str());
    notes::tag(
        &mut r,
        " hb=",
        if beat {
            "1"
        } else {
            "0"
        },
    );
    notes::tag(&mut r, " upd_phase=", notes::s32(s.phase).as_str());
    notes::tag(&mut r, " jl_gate=", notes::s8(s.join_live).as_str());
    notes::tag(&mut r, " qmsel=", notes::s8(s.gate.context).as_str());
    notes::tag(&mut r, " qm_obs=", notes::s32(s.gate.seen0).as_str());
    notes::tag(&mut r, "/", notes::s32(s.gate.seen1).as_str());
    notes::tag(&mut r, " qm_exp=", notes::s32(s.gate.expected0).as_str());
    notes::tag(&mut r, "/", notes::s32(s.gate.expected1).as_str());
    notes::tag(&mut r, " canmatch=", notes::sbool(probes::can_match(&s.gate)).as_str());
    notes::tag(&mut r, " arm3=", notes::s32(s.armed).as_str());
    notes::tag(&mut r, " done3=", notes::s8(s.done).as_str());
    notes::tag(&mut r, " skip3=", notes::s8(s.skip).as_str());
    let mut m = notes::line(
        match s.state.registered {
            None => "ro",
            Some(m) => if m.present {
                "1"
            } else {
                "0"
            },
        },
    );
    m.append(name_len_text(s.state.registered).as_str());
    notes::tag(&mut r, " m1=", m.as_str());
    notes::tag(&mut r, " q=", queue_text(s.state.queued).as_str());
    notes::tag(&mut r, " qmode=", notes::s32(mode_in_queue(s.state.queued)).as_str());
    notes::tag(&mut r, " v=", probes::async_verdict(&s.state));
    notes::tag(&mut r, " mat=", notes::sptr(s.matching).as_str());
    notes::tag(&mut r, " m50=", notes::s32(s.matching_result).as_str());
    let ghost start = r@;
    let mut i: usize = 0;
    assert(s.quest@.take(0) =~= Seq::empty());
    while i < s.quest.len()
        invariant
            i <= s.quest@.len(),
            r@ == with_quest(start, s.quest@.take(i as int)),
        decreases s.quest@.len() - i,
    {
        assert(s.quest@.take(i + 1).drop_last() =~= s.quest@.take(i as int));
        notes::tag(&mut r, name_of_quest(i), notes::s32(s.quest[i]).as_str());
        i += 1;
    }
    assert(s.quest@.take(i as int) =~= s.quest@);
    notes::tag(&mut r, " emit=", text::decimal_text(told).as_str());
    r
}

/// Tells of samples: of one that has changed, and else once in a while.
pub struct SoloSampler {
    pub gate: ChangeGate,
    pub passes: u64,
    pub told: u64,
}

/// A number after one more, going round.
pub open spec fn next_count(n: u64) -> u64 {
    n.wrapping_add(1)
}

impl SoloSampler {
    pub fn new() -> (r: SoloSampler)
        ensures
            r.gate == (ChangeGate { key: u64::MAX, last: 0 }),
            r.passes == 0,
            r.told == 0,
    {
        SoloSampler { gate: ChangeGate::new(), passes: 0, told: 0 }
    }

    /// Takes a sample; the result is the line that tells of it, where one does.
    pub fn solo_sample_note(&mut self, s: &SoloSample, now: u64, thread: u32) -> (r: Option<String>)
        ensures
            ({
                let key = probes::mixed_all(sampled(*s));
                let due = crate::diag::is_due(
                    old(self).gate.last,
                    now,
                    probes::SAMPLE_HEARTBEAT_MS,
                );
                let tells = old(self).gate.key != key || due;
                let passes = next_count(old(self).passes);
                let told = if tells { next_count(old(self).told) } else { old(self).told };
                &&& final(self).gate == (ChangeGate {
                    key,
                    last: if tells { now } else { old(self).gate.last },
                })
                &&& final(self).passes == passes
                &&& final(self).told == told
                &&& match r {
                    Some(line) => tells && line@ == solo_words(*s, now, thread, passes, due, told),
                    None => !tells,
                }
            }),
    {
        self.passes = self.passes.wrapping_add(1);
        let key: u64 = solo_key(s);
        let (tells, due) = self.gate.pass(key, now, probes::SAMPLE_HEARTBEAT_MS);
        if !tells {
            return None;
        }
        self.told = self.told.wrapping_add(1);
        Some(solo_line(s, now, thread, self.passes, due, self.told))
    }
}

/// What was read of the records that arm the loading of resources, and of the barrier to matching.
pub struct GateReadings {
    pub resources: Option<u64>,
    pub armed: Option<u32>,
    pub done: Option<u8>,
    pub skip: Option<u8>,
    pub jobs_pending: Option<u32>,
    pub jobs_running: Option<u32>,
    pub manager: Option<u64>,
    pub gate: MatchGate,
    pub session: Option<u64>,
    pub net: Option<u64>,
    /// The flag behind `net`, where it could be read.
    pub flag: Option<u8>,
}

/// The flag of being online: none behind a null pointer is a zero, and one that could not be read
/// is not known.
pub open spec fn online_flag(net: Option<u64>, flag: Option<u8>) -> Option<u8> {
    match net {
        Some(n) => if n == 0 { Some(0u8) } else { flag },
        None => None,
    }
}

fn read_online(net: Option<u64>, flag: Option<u8>) -> (r: Option<u8>)
    ensures
        r == online_flag(net, flag),
{
    match net {
        Some(n) => if n == 0 {
            Some(0)
        } else {
            flag
        },
        None => None,
    }
}

/// Whether the flag tells of being online.
pub open spec fn is_online(flag: Option<u8>) -> Option<bool> {
    match flag {
        Some(b) => Some(b & 1 != 0),
        None => None,
    }
}

/// Everything that was read of the barrier, in one list.
pub open spec fn gate_readings(g: GateReadings) -> Seq<Option<u64>> {
    seq![
        g.resources,
        wide(g.armed),
        wide_byte(g.done),
        wide_byte(g.skip),
        wide(g.jobs_pending),
        wide(g.jobs_running),
        g.manager,
        wide_byte(g.gate.context),
        wide(g.gate.seen0),
        wide(g.gate.seen1),
        wide(g.gate.expected0),
        wide(g.gate.expected1),
        g.session,
        g.net,
        wide_byte(online_flag(g.net, g.flag)),
    ]
}

/// The line that tells of the barrier.
pub open spec fn gate_words(g: GateReadings) -> Seq<char> {
    let a = notes::tagged("mode3gate"@, " rm="@, notes::shown_address(g.resources));
    let a = notes::tagged(a, " arm3="@, notes::shown(g.armed));
    let a = notes::tagged(a, " done3="@, notes::shown_byte(g.done));
    let a = notes::tagged(a, " skip3="@, notes::shown_byte(g.skip));
    let a = notes::tagged(a, " jobs="@, notes::shown(g.jobs_pending));
    let a = notes::tagged(a, "/"@, notes::shown(g.jobs_running));
    let a = notes::tagged(a, " qm="@, notes::shown_address(g.manager));
    let a = notes::tagged(a, " sel="@, notes::shown_byte(g.gate.context));
    let a = notes::tagged(a, " obs="@, notes::shown(g.gate.seen0));
    let a = notes::tagged(a, "/"@, notes::shown(g.gate.seen1));
    let a = notes::tagged(a, " exp="@, notes::shown(g.gate.expected0));
    let a = notes::tagged(a, "/"@, notes::shown(g.gate.expected1));
    let a = notes::tagged(a, " canmatch="@, notes::shown_bool(probes::gate_open(g.gate)));
    let a = notes::tagged(
        a,
        " online="@,
        notes::shown_bool(is_online(online_flag(g.net, g.flag))),
    );
    let a = notes::tagged(a, " sess="@, notes::shown_address(g.session));
    notes::tagged(a, " net="@, notes::shown_address(g.net))
}

fn gate_key(g: &GateReadings) -> (r: u64)
    ensures
        r == probes::mixed_all(gate_readings(*g)),
{
    let mut v: Vec<Option<u64>> = Vec::new();
    v.push(g.resources);
    v.push(widen(g.armed));
    v.push(widen_byte(g.done));
    v.push(widen_byte(g.skip));
    v.push(widen(g.jobs_pending));
    v.push(widen(g.jobs_running));
    v.push(g.manager);
    v.push(widen_byte(g.gate.context));
    v.push(widen(g.gate.seen0));
    v.push(widen(g.gate.seen1));
    v.push(widen(g.gate.expected0));
    v.push(widen(g.gate.expected1));
    v.push(g.session);
    v.push(g.net);
    v.push(widen_byte(read_online(g.net, g.flag)));
    assert(v@ =~= gate_readings(*g));
    probes::mix_all(&v)
}

fn gate_line(g: &GateReadings) -> (r: String)
    ensures
        r@ == gate_words(*g),
{
    let online: Option<bool> = match read_online(g.net, g.flag) {
        Some(b) => Some(b & 1 != 0),
        None => None,
    };
    let mut r = notes::line("mode3gate");
    notes::tag(&mut r, " rm=", notes::sptr(g.resources).as_str());
    notes::tag(&mut r, " arm3=", notes::s32(g.armed).as_str());
    notes::tag(&mut r, " done3=", notes::s8(g.done).as_str());
    notes::tag(&mut r, " skip3=", notes::s8(g.skip).as_str());
    notes::tag(&mut r, " jobs=", notes::s32(g.jobs_pending).as_str());
    notes::tag(&mut r, "/", notes::s32(g.jobs_running).as_str());
    notes::tag(&mut r, " qm=", notes::sptr(g.manager).as_str());
    notes::tag(&mut r, " sel=", notes::s8(g.gate.context).as_str());
    notes::tag(&mut r, " obs=", notes::s32(g.gate.seen0).as_str());
    notes::tag(&mut r, "/", notes::s32(g.gate.seen1).as_str());
    notes::tag(&mut r, " exp=", notes::s32(g.gate.expected0).as_str());
    notes::tag(&mut r, "/", notes::s32(g.gate.expected1).as_str());
    notes::tag(&mut r, " canmatch=", notes::sbool(probes::can_match(&g.gate)).as_str());
    notes::tag(&mut r, " online=", notes::sbool(online).as_str());
    notes::tag(&mut r, " sess=", notes::sptr(g.session).as_str());
    notes::tag(&mut r, " net=", notes::sptr(g.net).as_str());
    r
}

/// Tells of the barrier where it has changed, and else once in a while; the result is the line.
pub fn mode3_gate_note(gate: &mut ChangeGate, g: &GateReadings, now: u64) -> (r: Option<String>)
    ensures
        ({
            let key = probes::mixed_all(gate_readings(*g));
            let tells = old(gate).key != key || crate::diag::is_due(
                old(gate).last,
                now,
                probes::SAMPLE_HEARTBEAT_MS,
            );
            &&& *final(gate) == (ChangeGate {
                key,
                last: if tells { now } else { old(gate).last },
            })
            &&& match r {
                Some(line) => tells && line@ == gate_words(*g),
                None => !tells,
            }
        }),
{
    let key: u64 = gate_key(g);
    let (tells, _due) = gate.pass(key, now, probes::SAMPLE_HEARTBEAT_MS);
    if !tells {
        return None;
    }
    Some(gate_line(g))
}

/// A registration, where the line tells of an operation.
pub open spec fn registration_words(m: Option<Registered>) -> Seq<char> {
    match m {
        None => " m1=ro"@,
        Some(m) => if m.present {
            " m1=1"@ + name_len_words(Some(m))
        } else if m.cut {
            " m1trunc=1 m1=0"@
        } else {
            " m1=0"@
        },
    }
}

fn registration_text(m: Option<Registered>) -> (r: String)
    ensures
        r@ == registration_words(m),
{
    match m {
        None => " m1=ro".to_owned(),
        Some(m) => if m.present {
            let mut r = " m1=1".to_owned();
            r.append(name_len_text(Some(m)).as_str());
            r
        } else if m.cut {
            " m1trunc=1 m1=0".to_owned()
        } else {
            " m1=0".to_owned()
        },
    }
}

/// A place in the queue, where the line tells of an operation.
pub open spec fn place_words(q: Option<Queued>) -> Seq<char> {
    match q {
        None => " q=ro"@,
        Some(q) => " q="@ + text::decimal(q.hits as nat) + "/"@ + text::decimal(q.total as nat) + (
        match q.mode {
            Some(m) => " qmode="@ + text::decimal(m as nat),
            None => ""@,
        }) + (if q.cut { " qtrunc=1"@ } else { ""@ }),
    }
}

fn place_text(q: Option<Queued>) -> (r: String)
    ensures
        r@ == place_words(q),
{
    match q {
        None => " q=ro".to_owned(),
        Some(q) => {
            let mut r = " q=".to_owned();
            text::push_decimal(&mut r, q.hits as u64);
            r.append("/");
            text::push_decimal(&mut r, q.total);
            let mode = match q.mode {
                Some(m) => {
                    let mut t = " qmode=".to_owned();
                    text::push_decimal(&mut t, m as u64);
                    t
                },
                None => "".to_owned(),
            };
            r.append(mode.as_str());
            r.append(
                if q.cut {
                    " qtrunc=1"
                } else {
                    ""
                },
            );
            r
        },
    }
}

/// The tasks of the loader, where the line tells of an operation.
pub open spec fn task_words(t: Option<Tasks>) -> Seq<char> {
    match t {
        None => " va=ro"@,
        Some(t) => {
            let a = " va="@ + text::decimal(t.scanned as nat) + "/"@ + text::decimal(
                t.total as nat,
            );
            let a = a + " va2="@ + text::decimal(t.ended as nat) + "/"@ + text::decimal(
                t.read as nat,
            );
            a + (match t.found {
                Some(f) => " vatask="@ + text::decimal(f.0 as nat) + "/"@ + text::decimal(
                    f.1 as nat,
                ),
                None => " vatask=absent"@,
            }) + (if t.blind { " vatask_ro=1"@ } else { ""@ }) + (if t.scanned < t.total {
                " vatrunc=1"@
            } else {
                ""@
            })
        },
    }
}

fn task_text(t: Option<Tasks>) -> (r: String)
    ensures
        r@ == task_words(t),
{
    match t {
        None => " va=ro".to_owned(),
        Some(t) => {
            let mut r = " va=".to_owned();
            text::push_decimal(&mut r, t.scanned);
            r.append("/");
            text::push_decimal(&mut r, t.total);
            r.append(" va2=");
            text::push_decimal(&mut r, t.ended as u64);
            r.append("/");
            text::push_decimal(&mut r, t.read as u64);
            let found = match t.found {
                Some(f) => {
                    let mut w = " vatask=".to_owned();
                    text::push_decimal(&mut w, f.0 as u64);
                    w.append("/");
                    text::push_decimal(&mut w, f.1 as u64);
                    w
                },
                None => " vatask=absent".to_owned(),
            };
            r.append(found.as_str());
            r.append(
                if t.blind {
                    " vatask_ro=1"
                } else {
                    ""
                },
            );
            r.append(
                if t.scanned < t.total {
                    " vatrunc=1"
                } else {
                    ""
                },
            );
            r
        },
    }
}

/// The notices of the loader, where the line tells of an operation.
pub open spec fn notice_words(n: Option<Notices>) -> Seq<char> {
    match n {
        None => " vb=ro"@,
        Some(n) => {
            let a = notes::tagged(" vb1h="@, text::decimal(n.waiting_here as nat), " vb1="@);
            let a = notes::tagged(a, text::decimal(n.waiting as nat), " vb2="@);
            let a = notes::tagged(a, text::decimal(n.ends as nat), " vb3="@);
            let a = notes::tagged(a, text::decimal(n.closes as nat), " vb="@);
            let a = notes::tagged(a, text::decimal(n.scanned as nat), "/"@);
            a + text::decimal(n.total as nat) + (if n.scanned < n.total {
                " vbtrunc=1"@
            } else {
                ""@
            })
        },
    }
}

fn notice_text(n: Option<Notices>) -> (r: String)
    ensures
        r@ == notice_words(n),
{
    match n {
        None => " vb=ro".to_owned(),
        Some(n) => {
            let mut r = notes::line(" vb1h=");
            notes::tag(&mut r, text::decimal_text(n.waiting_here as u64).as_str(), " vb1=");
            notes::tag(&mut r, text::decimal_text(n.waiting as u64).as_str(), " vb2=");
            notes::tag(&mut r, text::decimal_text(n.ends as u64).as_str(), " vb3=");
            notes::tag(&mut r, text::decimal_text(n.closes as u64).as_str(), " vb=");
            notes::tag(&mut r, text::decimal_text(n.scanned).as_str(), "/");
            text::push_decimal(&mut r, n.total);
            r.append(
                if n.scanned < n.total {
                    " vbtrunc=1"
                } else {
                    ""
                },
            );
            r
        },
    }
}

/// The line that tells of an operation of the loader.
pub open spec fn operation_words(s: AsyncState) -> Seq<char> {
    let head = notes::tagged(
        "asyncload"@,
        " h="@,
        notes::hex_word(probes::ASYNC_OP_HASH as nat),
    );
    match s.manager {
        None => head + " mgr=global_ro"@,
        Some(m) => if m == 0 {
            head + " mgr=0x0"@
        } else {
            let a = notes::tagged(head, " mgr="@, notes::hex_number(m as nat));
            let a = notes::tagged(a, registration_words(s.registered), place_words(s.queued));
            let a = notes::tagged(a, task_words(s.tasks), notice_words(s.notices));
            notes::tagged(a, " v="@, probes::verdict(s))
        },
    }
}

/// Writes the line that tells of an operation of the loader.
pub fn asyncload_note(s: &AsyncState) -> (r: String)
    ensures
        r@ == operation_words(*s),
{
    let mut r = notes::line("asyncload");
    notes::tag(&mut r, " h=", notes::hex_word_text(probes::ASYNC_OP_HASH).as_str());
    match s.manager {
        None => {
            r.append(" mgr=global_ro");
        },
        Some(m) => {
            if m == 0 {
                r.append(" mgr=0x0");
            } else {
                notes::tag(&mut r, " mgr=", notes::hex_text(m).as_str());
                notes::tag(
                    &mut r,
                    registration_text(s.registered).as_str(),
                    place_text(s.queued).as_str(),
                );
                notes::tag(
                    &mut r,
                    task_text(s.tasks).as_str(),
                    notice_text(s.notices).as_str(),
                );
                notes::tag(&mut r, " v=", probes::async_verdict(s));
            }
        },
    }
    r
}

}
