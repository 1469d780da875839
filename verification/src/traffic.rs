//! What is told of the messages that go by.
use crate::diag;
use crate::diag::{Marks, MessageStats, Sampler, StatsView};
use crate::notes;
use crate::party::Network;
use crate::party::NetworkView;
use crate::reliable;
use crate::text;
use vstd::prelude::*;

verus! {

/// How many bytes of a message are shown.
pub const SHOWN_BYTES: usize = 72;

/// Which way a message goes.
pub open spec fn way(sending: bool) -> Seq<char> {
    if sending { "send"@ } else { "recv"@ }
}

fn way_text(sending: bool) -> (r: &'static str)
    ensures
        r@ == way(sending),
{
    if sending {
        "send"
    } else {
        "recv"
    }
}

/// The kind of a message goes with its second word in what the title sends of some kinds.
pub open spec fn shown_sub(sending: bool, data: Seq<u8>) -> Option<nat> {
    if sending && (diag::head_word(data, 0) == 2 || diag::head_word(data, 0) == 3) {
        notes::word_at(data, 4)
    } else {
        None
    }
}

/// The line that tells of a message.
pub open spec fn payload_words(sending: bool, extra: Seq<char>, data: Seq<u8>) -> Seq<char> {
    let a = notes::tagged(way(sending), " opcode="@, text::decimal(diag::head_word(data, 0)));
    let a = notes::tagged(a, " len="@, text::decimal(data.len()));
    let a = match shown_sub(sending, data) {
        Some(n) => notes::tagged(a, " sub="@, text::decimal(n)),
        None => a,
    };
    notes::tagged(a, " "@, extra)
}

/// Messages with the same key are alike.
pub open spec fn payload_key(sending: bool, data: Seq<u8>) -> Seq<char> {
    let a = notes::tagged(way(sending), ":"@, text::decimal(diag::head_word(data, 0)));
    let a = notes::tagged(a, ":"@, text::decimal(diag::head_word(data, 4)));
    notes::tagged(a, ":"@, text::decimal(data.len()))
}

/// The line that shows the bytes of a message.
pub open spec fn hex_words(sending: bool, extra: Seq<char>, data: Seq<u8>) -> Seq<char> {
    let shown = if data.len() > SHOWN_BYTES { data.take(SHOWN_BYTES as int) } else { data };
    let a = notes::tagged(way(sending), "_hex opcode="@, text::decimal(diag::head_word(data, 0)));
    let a = notes::tagged(a, " len="@, text::decimal(data.len()));
    let a = notes::tagged(a, " "@, extra);
    let a = notes::tagged(a, " "@, notes::joined(notes::hints(data), " "@));
    let a = if diag::head_word(data, 0) == 3 { a + notes::named_entity(data) } else { a };
    notes::tagged(a, " hex=["@, notes::spaced_hex(shown)) + "]"@
}

fn word_or_zero(data: &[u8], at: usize) -> (r: u32)
    ensures
        r == diag::head_word(data@, at as int),
{
    match notes::u32le(data, at) {
        Some(n) => n,
        None => 0,
    }
}

fn payload_text(sending: bool, extra: &str, data: &[u8]) -> (r: String)
    ensures
        r@ == payload_words(sending, extra@, data@),
{
    let op: u32 = word_or_zero(data, 0);
    let mut r = notes::line(way_text(sending));
    notes::tag(&mut r, " opcode=", text::decimal_text(op as u64).as_str());
    notes::tag(&mut r, " len=", text::decimal_text(data.len() as u64).as_str());
    if sending && (op == 2 || op == 3) {
        if let Some(n) = notes::u32le(data, 4) {
            notes::tag(&mut r, " sub=", text::decimal_text(n as u64).as_str());
        }
    }
    notes::tag(&mut r, " ", extra);
    r
}

fn key_text(sending: bool, data: &[u8]) -> (r: String)
    ensures
        r@ == payload_key(sending, data@),
{
    let mut r = notes::line(way_text(sending));
    notes::tag(&mut r, ":", text::decimal_text(word_or_zero(data, 0) as u64).as_str());
    notes::tag(&mut r, ":", text::decimal_text(word_or_zero(data, 4) as u64).as_str());
    notes::tag(&mut r, ":", text::decimal_text(data.len() as u64).as_str());
    r
}

fn hex_line(sending: bool, extra: &str, data: &[u8]) -> (r: String)
    ensures
        r@ == hex_words(sending, extra@, data@),
{
    let op: u32 = word_or_zero(data, 0);
    let mut r = notes::line(way_text(sending));
    notes::tag(&mut r, "_hex opcode=", text::decimal_text(op as u64).as_str());
    notes::tag(&mut r, " len=", text::decimal_text(data.len() as u64).as_str());
    notes::tag(&mut r, " ", extra);
    notes::tag(&mut r, " ", notes::payload_hints(data).as_str());
    if op == 3 {
        r.append(notes::opcode3_entity(data).as_str());
    }
    assert(data@.len() <= SHOWN_BYTES ==> data@.take(data@.len() as int) =~= data@);
    notes::tag(&mut r, " hex=[", notes::hex_preview(data, SHOWN_BYTES).as_str());
    r.append("]");
    r
}

/// What is remembered, counted and sampled of the messages that go by.
pub struct Traffic {
    pub marks: Marks,
    pub stats: MessageStats,
    pub sampler: Sampler,
}

/// What is told of a message: nothing unless somebody wants to know, and its bytes only of some.
pub open spec fn told(
    sampler: Seq<(Seq<char>, u32)>,
    sending: bool,
    extra: Seq<char>,
    data: Seq<u8>,
    close: bool,
    all: bool,
) -> Seq<Seq<char>> {
    if !close && !all {
        Seq::empty()
    } else if all || diag::is_sampled(diag::seen_times(sampler, payload_key(sending, data))) {
        seq![payload_words(sending, extra, data), hex_words(sending, extra, data)]
    } else {
        seq![payload_words(sending, extra, data)]
    }
}

impl Traffic {
    pub fn new(now: u64) -> (r: Traffic)
        ensures
            r.marks == (Marks {
                guest_ready_sent: false,
                snapshot_sent: false,
                sync_sent: false,
                sync_received: false,
            }),
            r.stats@ == diag::no_stats(now),
            r.sampler@ == Seq::<(Seq<char>, u32)>::empty(),
    {
        Traffic {
            marks: Marks {
                guest_ready_sent: false,
                snapshot_sent: false,
                sync_sent: false,
                sync_received: false,
            },
            stats: MessageStats::new(now),
            sampler: Sampler::new(),
        }
    }

    /// Takes note of a message. `close` asks for a line on each, `all` also for the bytes of each.
    /// Gives whether it is time to tell of the messages as a whole, and the lines on this one.
    pub fn log_payload(
        &mut self,
        sending: bool,
        extra: &str,
        data: &[u8],
        now: u64,
        close: bool,
        all: bool,
    ) -> (r: (bool, Vec<String>))
        ensures
            final(self).marks == old(self).marks.noting(sending, data@),
            r.0 == old(self).stats@.counted(sending, diag::head_word(data@, 0) as u32).due(
                now,
                close,
            ),
            final(self).stats@ == (StatsView {
                told_at: if r.0 { now } else { old(self).stats@.told_at },
                ..old(self).stats@.counted(sending, diag::head_word(data@, 0) as u32)
            }),
            text::views(r.1@) == told(old(self).sampler@, sending, extra@, data@, close, all),
            final(self).sampler@ == (if close && !all {
                diag::seen_once_more(old(self).sampler@, payload_key(sending, data@))
            } else {
                old(self).sampler@
            }),
    {
        self.marks.note(sending, data);
        let op: u32 = word_or_zero(data, 0);
        let due = self.stats.bump_msg_stats(sending, op, now, close);
        let mut lines: Vec<String> = Vec::new();
        assert(text::views(lines@) =~= Seq::empty());
        if !close && !all {
            return (due, lines);
        }
        notes::put(&mut lines, payload_text(sending, extra, data));
        let key = key_text(sending, data);
        if self.sampler.should_log_payload(key.as_str(), all) {
            notes::put(&mut lines, hex_line(sending, extra, data));
        }
        assert(text::views(lines@) =~= told(
            old(self).sampler@,
            sending,
            extra@,
            data@,
            close,
            all,
        ));
        (due, lines)
    }
}

/// The line that tells of the messages as a whole. `reliable` says how they fared, `tail` what
/// carried them.
pub open spec fn stats_words(
    s: StatsView,
    reliable: Seq<char>,
    run: u64,
    skipped: u64,
    tail: Seq<char>,
) -> Seq<char> {
    let a = notes::tagged("msg_stats send="@, text::decimal(s.sent as nat), " recv="@);
    let a = notes::tagged(a, text::decimal(s.received as nat), " send_ops="@);
    let a = notes::tagged(a, diag::kinds_text(s.sent_kinds), " recv_ops="@);
    let a = notes::tagged(a, diag::kinds_text(s.received_kinds), " "@);
    let a = notes::tagged(a, reliable, " probes_run="@);
    let a = notes::tagged(a, text::decimal(run as nat), " probes_skipped="@);
    notes::tagged(a, text::decimal(skipped as nat), tail)
}

/// Writes the line that tells of the messages as a whole.
pub fn stats_line(s: &MessageStats, reliable: &str, run: u64, skipped: u64, tail: &str) -> (r:
    String)
    ensures
        r@ == stats_words(s@, reliable@, run, skipped, tail@),
{
    let mut r = notes::line("msg_stats send=");
    notes::tag(&mut r, text::decimal_text(s.sent).as_str(), " recv=");
    notes::tag(&mut r, text::decimal_text(s.received).as_str(), " send_ops=");
    notes::tag(&mut r, diag::fmt_ops(&s.sent_kinds).as_str(), " recv_ops=");
    notes::tag(&mut r, diag::fmt_ops(&s.received_kinds).as_str(), " ");
    notes::tag(&mut r, reliable, " probes_run=");
    notes::tag(&mut r, text::decimal_text(run).as_str(), " probes_skipped=");
    notes::tag(&mut r, text::decimal_text(skipped).as_str(), tail);
    r
}

/// What the transport has done so far.
#[derive(Clone, Copy)]
pub struct TransportStats {
    pub thread: u32,
    pub up: bool,
    pub wakeups: u64,
    pub jobs: u64,
    pub received: u64,
    pub sent: u64,
}

/// What the transport has done so far, in words.
pub open spec fn transport_words(s: TransportStats) -> Seq<char> {
    let a = notes::tagged(" transport[tid="@, notes::hex_word(s.thread as nat), " up="@);
    let a = notes::tagged(a, notes::shown_bool(Some(s.up)), " wakeups="@);
    let a = notes::tagged(a, text::decimal(s.wakeups as nat), " jobs="@);
    let a = notes::tagged(a, text::decimal(s.jobs as nat), " datagrams_rx="@);
    let a = notes::tagged(a, text::decimal(s.received as nat), " datagrams_tx="@);
    notes::tagged(a, text::decimal(s.sent as nat), "]"@)
}

/// Tells what the transport has done so far.
pub fn transport_stats_note(s: &TransportStats) -> (r: String)
    ensures
        r@ == transport_words(*s),
{
    let mut r = notes::line(" transport[tid=");
    notes::tag(&mut r, notes::hex_word_text(s.thread).as_str(), " up=");
    notes::tag(&mut r, notes::sbool(Some(s.up)).as_str(), " wakeups=");
    notes::tag(&mut r, text::decimal_text(s.wakeups).as_str(), " jobs=");
    notes::tag(&mut r, text::decimal_text(s.jobs).as_str(), " datagrams_rx=");
    notes::tag(&mut r, text::decimal_text(s.received).as_str(), " datagrams_tx=");
    notes::tag(&mut r, text::decimal_text(s.sent).as_str(), "]");
    r
}

/// Tells what was asked of the broker so far.
pub fn broker_stats_note(jobs: u64, up: bool, queue: u64) -> (r: String)
    ensures
        r@ == notes::tagged(
            notes::tagged(
                notes::tagged(" broker[jobs="@, text::decimal(jobs as nat), " up="@),
                notes::shown_bool(Some(up)),
                " queue="@,
            ),
            text::decimal(queue as nat),
            "]"@,
        ),
{
    let mut r = notes::line(" broker[jobs=");
    notes::tag(&mut r, text::decimal_text(jobs).as_str(), " up=");
    notes::tag(&mut r, notes::sbool(Some(up)).as_str(), " queue=");
    notes::tag(&mut r, text::decimal_text(queue).as_str(), "]");
    r
}

/// The options that messages were sent with so far.
pub struct OptionsSeen {
    pub words: Vec<u32>,
}

/// The line that tells of options that were not seen before.
pub open spec fn options_words(options: u32) -> Seq<char> {
    let mode = (if reliable::is_guaranteed(options) { 0int } else { 2 }) + (
    if reliable::is_sequential(options) { 0int } else { 1 });
    let a = notes::tagged("send options word "@, notes::hex_word(options as nat), " decoded: "@);
    let a = notes::tagged(a, reliable::options_text(options), " (mode="@);
    let a = notes::tagged(a, diag::mode_word(mode), ", "@);
    let a = notes::tagged(
        a,
        if reliable::is_guaranteed(options) {
            "guaranteed: pending+retransmit+ack enabled"@
        } else {
            "best-effort: no retransmit"@
        },
        "), first use of this value"@,
    );
    a
}

fn options_line(options: u32) -> (r: String)
    ensures
        r@ == options_words(options),
{
    let mut r = notes::line("send options word ");
    notes::tag(&mut r, notes::hex_word_text(options).as_str(), " decoded: ");
    notes::tag(&mut r, reliable::decode_options(options).as_str(), " (mode=");
    notes::tag(&mut r, reliable::mode_name(reliable::mode_index(options)), ", ");
    notes::tag(
        &mut r,
        if reliable::guaranteed(options) {
            "guaranteed: pending+retransmit+ack enabled"
        } else {
            "best-effort: no retransmit"
        },
        "), first use of this value",
    );
    r
}

impl OptionsSeen {
    pub fn new() -> (r: OptionsSeen)
        ensures
            r.words@ == Seq::<u32>::empty(),
    {
        OptionsSeen { words: Vec::new() }
    }

    /// Tells of options the first time that a message is sent with them.
    pub fn log_send_options_once(&mut self, options: u32) -> (r: Option<String>)
        ensures
            match r {
                Some(line) => !old(self).words@.contains(options) && line@ == options_words(
                    options,
                ) && final(self).words@ == old(self).words@.push(options),
                None => old(self).words@.contains(options) && final(self).words@
                    == old(self).words@,
            },
    {
        let mut i: usize = 0;
        while i < self.words.len()
            invariant
                i <= self.words@.len(),
                self.words@ == old(self).words@,
                forall|j: int| 0 <= j < i ==> #[trigger] self.words@[j] != options,
            decreases self.words@.len() - i,
        {
            if self.words[i] == options {
                return None;
            }
            i += 1;
        }
        self.words.push(options);
        Some(options_line(options))
    }
}

/// A network whose messages are held back until the title knows the peer.
pub open spec fn is_holding(n: NetworkView) -> bool {
    n.endpoint_delivered && !n.peer_delivered && n.remotes.len() > 0
}

/// How long a network has held its messages back, in words.
pub open spec fn hold_words(n: NetworkView, now: u64) -> Seq<char> {
    let a = notes::tagged("id="@, n.descriptor.id(), " remotes="@);
    let a = notes::tagged(a, text::decimal(n.remotes.len()), " held_ms="@);
    a + text::decimal(
        match n.hold_start {
            Some(t) => if now >= t { (now - t) as nat } else { 0 },
            None => 0,
        },
    )
}

/// The networks that hold messages back, each in words.
pub open spec fn holds(v: Seq<NetworkView>, now: u64) -> Seq<Seq<char>>
    decreases v.len(),
{
    if v.len() == 0 {
        Seq::empty()
    } else if is_holding(v.last()) {
        holds(v.drop_last(), now).push(hold_words(v.last(), now))
    } else {
        holds(v.drop_last(), now)
    }
}

/// Tells which networks hold messages back.
pub fn type12_hold_note(v: &Vec<Network>, now: u64) -> (r: String)
    requires
        forall|i: int| 0 <= i < v@.len() ==> (#[trigger] v@[i])@.wf(),
    ensures
        r@ == notes::words_or(holds(v@.map_values(|n: Network| n@), now), "none"@, " "@),
{
    let ghost all = v@.map_values(|n: Network| n@);
    let mut parts: Vec<String> = Vec::new();
    let mut i: usize = 0;
    assert(text::views(parts@) =~= holds(all.take(0), now));
    while i < v.len()
        invariant
            i <= v@.len(),
            all == v@.map_values(|n: Network| n@),
            forall|i: int| 0 <= i < v@.len() ==> (#[trigger] v@[i])@.wf(),
            text::views(parts@) == holds(all.take(i as int), now),
        decreases v@.len() - i,
    {
        assert(all.take(i + 1).drop_last() =~= all.take(i as int));
        let n = &v[i];
        assert(all[i as int] == n@);
        assert(n@.remotes.len() == n.remotes@.len());
        if n.endpoint_delivered && !n.peer_delivered && n.remotes.len() > 0 {
            let held: u64 = match n.hold_start {
                Some(t) => now.saturating_sub(t),
                None => 0,
            };
            let mut r = notes::line("id=");
            notes::tag(&mut r, n.descriptor.id_str().as_str(), " remotes=");
            notes::tag(&mut r, text::decimal_text(n.remotes.len() as u64).as_str(), " held_ms=");
            r.append(text::decimal_text(held).as_str());
            assert(r@ == hold_words(n@, now));
            notes::put(&mut parts, r);
        }
        i += 1;
    }
    assert(all.take(i as int) =~= all);
    assert(text::views(parts@).len() == parts@.len());
    if parts.len() == 0 {
        "none".to_owned()
    } else {
        notes::join(&parts, " ")
    }
}

}
