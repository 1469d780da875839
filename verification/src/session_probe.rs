//! The line that tells of the title's session: its state, who takes part, and what waits.
use crate::lobby_model;
use crate::notes;
use crate::probes;
use crate::text;
use vstd::prelude::*;

verus! {

/// What was read of the session itself.
#[derive(Clone, Copy)]
pub enum SessionReading {
    Unreadable,
    Null,
    /// Only its address is known.
    Closed { address: u64 },
    State { state: i32, detail: Option<SessionDetail> },
}

/// What else was read of the session.
#[derive(Clone, Copy)]
pub struct SessionDetail {
    pub p3c0: u64,
    pub p480: u64,
    pub p4a0: u64,
    pub b4a0: u8,
    pub task: u64,
    pub mode: u32,
    pub b4ac: u8,
    pub p28: u64,
    pub native: bool,
}

/// What was read of a participant.
pub struct MemberSlot {
    pub id: i32,
    pub flag: u8,
    pub unique: i32,
    pub stage: i32,
    pub rank: i32,
    pub entity: String,
}

/// What was read of a row of the ready list.
#[derive(Clone, Copy)]
pub struct ReadyRow {
    pub id: i32,
    pub state: i32,
    pub timer: u8,
    pub skip: u8,
}

/// What was read of the ready list.
pub enum ReadyReading {
    Unreadable,
    Null,
    Closed { address: u64 },
    Empty { address: u64, flag: u8 },
    BadRange { address: u64, flag: u8, begin: u64, end: u64 },
    NoRows { address: u64, flag: u8 },
    Rows { address: u64, flag: u8, rows: Vec<ReadyRow> },
}

/// What was read of the sender.
#[derive(Clone, Copy)]
pub enum SendReading {
    Unreadable,
    Null,
    Closed,
    Field { address: u64 },
}

/// What was read of the overlay and of the latch beside it.
pub struct OverlayReading {
    pub slot: u64,
    pub after: u64,
    pub address: u64,
    /// Which of the lookup identifiers are filled.
    pub filled: Vec<bool>,
    pub latch: Option<(u32, u16)>,
}

/// What was read of the title's session.
pub struct SessionSample {
    pub session: SessionReading,
    pub slots: Vec<MemberSlot>,
    /// The address of the list of participants, where it could be read.
    pub members: Option<u64>,
    pub ready: ReadyReading,
    pub send: SendReading,
    pub overlay: Option<OverlayReading>,
}

/// A whole number in decimal.
pub open spec fn int_word(n: int) -> Seq<char> {
    text::integer_text(n)
}

/// Writes a whole number in decimal.
pub fn int_text(n: i64) -> (r: String)
    ensures
        r@ == int_word(n as int),
{
    let mut r = String::new();
    text::push_integer(&mut r, n);
    assert(r@ =~= int_word(n as int));
    r
}

pub open spec fn detail_words(d: SessionDetail) -> Seq<char> {
    let a = notes::tagged(" +3c0="@, notes::hex_number(d.p3c0 as nat), " +480="@);
    let a = notes::tagged(a, notes::hex_number(d.p480 as nat), " +4a0="@);
    let a = notes::tagged(a, notes::hex_number(d.p4a0 as nat), "/"@);
    let a = notes::tagged(a, text::decimal(d.b4a0 as nat), " +b8="@);
    let a = notes::tagged(a, notes::hex_number(d.task as nat), " mode0="@);
    let a = notes::tagged(a, text::decimal(d.mode as nat), " +4ac="@);
    let a = notes::tagged(a, text::decimal(d.b4ac as nat), " +28="@);
    let a = notes::tagged(a, notes::hex_number(d.p28 as nat), " native="@);
    a + (if d.native { "true"@ } else { "false"@ })
}

fn detail_text(d: &SessionDetail) -> (r: String)
    ensures
        r@ == detail_words(*d),
{
    let mut r = notes::line(" +3c0=");
    notes::tag(&mut r, notes::hex_text(d.p3c0).as_str(), " +480=");
    notes::tag(&mut r, notes::hex_text(d.p480).as_str(), " +4a0=");
    notes::tag(&mut r, notes::hex_text(d.p4a0).as_str(), "/");
    notes::tag(&mut r, text::decimal_text(d.b4a0 as u64).as_str(), " +b8=");
    notes::tag(&mut r, notes::hex_text(d.task).as_str(), " mode0=");
    notes::tag(&mut r, text::decimal_text(d.mode as u64).as_str(), " +4ac=");
    notes::tag(&mut r, text::decimal_text(d.b4ac as u64).as_str(), " +28=");
    notes::tag(&mut r, notes::hex_text(d.p28).as_str(), " native=");
    r.append(
        if d.native {
            "true"
        } else {
            "false"
        },
    );
    r
}

pub open spec fn session_words(s: SessionReading) -> Seq<char> {
    match s {
        SessionReading::Unreadable => "unreadable"@,
        SessionReading::Null => "session=null"@,
        SessionReading::Closed { address } => notes::tagged(
            "session="@,
            notes::hex_number(address as nat),
            " +4 unreadable"@,
        ),
        SessionReading::State { state, detail } => {
            let a = "session+4="@ + int_word(state as int);
            match detail {
                Some(d) => a + detail_words(d),
                None => a,
            }
        },
    }
}

fn session_text(s: &SessionReading) -> (r: String)
    ensures
        r@ == session_words(*s),
{
    match s {
        SessionReading::Unreadable => "unreadable".to_owned(),
        SessionReading::Null => "session=null".to_owned(),
        SessionReading::Closed { address } => {
            let mut r = notes::line("session=");
            notes::tag(&mut r, notes::hex_text(*address).as_str(), " +4 unreadable");
            r
        },
        SessionReading::State { state, detail } => {
            let mut r = notes::line("session+4=");
            r.append(int_text(*state as i64).as_str());
            if let Some(d) = detail {
                r.append(detail_text(d).as_str());
            }
            r
        },
    }
}

/// A participant in words; it is named where its name is known.
pub open spec fn slot_words(s: MemberSlot) -> Seq<char> {
    let a = notes::tagged("id="@, int_word(s.id as int), " +70="@);
    let a = notes::tagged(a, text::decimal(s.flag as nat), " +8="@);
    let a = notes::tagged(a, int_word(s.unique as int), " +6c="@);
    let a = notes::tagged(a, int_word(s.rank as int), " +a0="@);
    let a = a + int_word(s.stage as int);
    if s.entity@.len() == 0 { a } else { a + " eid="@ + s.entity@ }
}

fn slot_text(s: &MemberSlot) -> (r: String)
    ensures
        r@ == slot_words(*s),
{
    let mut r = notes::line("id=");
    notes::tag(&mut r, int_text(s.id as i64).as_str(), " +70=");
    notes::tag(&mut r, text::decimal_text(s.flag as u64).as_str(), " +8=");
    notes::tag(&mut r, int_text(s.unique as i64).as_str(), " +6c=");
    notes::tag(&mut r, int_text(s.rank as i64).as_str(), " +a0=");
    r.append(int_text(s.stage as i64).as_str());
    if !text::is_empty(s.entity.as_str()) {
        r.append(" eid=");
        r.append(s.entity.as_str());
    }
    r
}

pub open spec fn slot_parts(v: Seq<MemberSlot>) -> Seq<Seq<char>> {
    v.map_values(|s: MemberSlot| slot_words(s))
}

/// How many participants have started their part of the mesh.
pub open spec fn started(v: Seq<MemberSlot>) -> nat
    decreases v.len(),
{
    if v.len() == 0 {
        0
    } else {
        started(v.drop_last()) + (if v.last().flag == 1 { 1nat } else { 0nat })
    }
}

pub open spec fn member_words(v: Seq<MemberSlot>, members: Option<u64>) -> Seq<char> {
    if v.len() == 0 {
        match members {
            None => " member_global unreadable"@,
            Some(p) => if p == 0 { " members=null"@ } else { " members=0"@ },
        }
    } else {
        let a = notes::tagged(" members="@, text::decimal(v.len()), " with+70="@);
        let a = notes::tagged(a, text::decimal(started(v)), " ["@);
        notes::tagged(a, notes::joined(slot_parts(v), "; "@), "]"@)
    }
}

fn member_text(v: &Vec<MemberSlot>, members: Option<u64>) -> (r: String)
    ensures
        r@ == member_words(v@, members),
{
    if v.len() == 0 {
        return match members {
            None => " member_global unreadable".to_owned(),
            Some(p) => if p == 0 {
                " members=null".to_owned()
            } else {
                " members=0".to_owned()
            },
        };
    }
    let mut parts: Vec<String> = Vec::new();
    let mut n: u64 = 0;
    let mut i: usize = 0;
    assert(v@.take(0) =~= Seq::empty());
    assert(text::views(parts@) =~= slot_parts(v@.take(0)));
    while i < v.len()
        invariant
            i <= v@.len(),
            n <= i,
            n == started(v@.take(i as int)),
            text::views(parts@) == slot_parts(v@.take(i as int)),
        decreases v@.len() - i,
    {
        assert(v@.take(i + 1).drop_last() =~= v@.take(i as int));
        let ghost sofar = text::views(parts@);
        if v[i].flag == 1 {
            n += 1;
        }
        notes::put(&mut parts, slot_text(&v[i]));
        assert(slot_parts(v@.take(i + 1)) =~= sofar.push(slot_words(v@[i as int])));
        i += 1;
    }
    assert(v@.take(i as int) =~= v@);
    let mut r = notes::line(" members=");
    notes::tag(&mut r, text::decimal_text(v.len() as u64).as_str(), " with+70=");
    notes::tag(&mut r, text::decimal_text(n).as_str(), " [");
    notes::tag(&mut r, notes::join(&parts, "; ").as_str(), "]");
    r
}

pub open spec fn row_words(r: ReadyRow) -> Seq<char> {
    let a = notes::tagged(int_word(r.id as int), ":"@, int_word(r.state as int));
    let a = notes::tagged(a, ":t"@, text::decimal(r.timer as nat));
    notes::tagged(a, ":s"@, text::decimal(r.skip as nat))
}

pub open spec fn row_parts(v: Seq<ReadyRow>) -> Seq<Seq<char>> {
    v.map_values(|r: ReadyRow| row_words(r))
}

pub open spec fn flag_words(address: u64, flag: u8) -> Seq<char> {
    notes::tagged(
        notes::tagged(" ready="@, notes::hex_number(address as nat), " fl="@),
        text::decimal(flag as nat),
        ""@,
    )
}

fn flag_text(address: u64, flag: u8) -> (r: String)
    ensures
        r@ == flag_words(address, flag),
{
    let mut r = notes::line(" ready=");
    notes::tag(&mut r, notes::hex_text(address).as_str(), " fl=");
    notes::tag(&mut r, text::decimal_text(flag as u64).as_str(), "");
    r
}

pub open spec fn ready_words(r: ReadyReading) -> Seq<char> {
    match r {
        ReadyReading::Unreadable => " ready=unreadable"@,
        ReadyReading::Null => " ready=null"@,
        ReadyReading::Closed { address } => notes::tagged(
            " ready="@,
            notes::hex_number(address as nat),
            " +50 unreadable"@,
        ),
        ReadyReading::Empty { address, flag } => flag_words(address, flag) + " n=0"@,
        ReadyReading::BadRange { address, flag, begin, end } => notes::tagged(
            notes::tagged(
                flag_words(address, flag),
                " range_bad "@,
                notes::hex_number(begin as nat),
            ),
            ".."@,
            notes::hex_number(end as nat),
        ),
        ReadyReading::NoRows { address, flag } => flag_words(address, flag) + " vec unreadable"@,
        ReadyReading::Rows { address, flag, rows } => notes::tagged(
            notes::tagged(flag_words(address, flag), " n="@, text::decimal(rows@.len())),
            " ["@,
            notes::joined(row_parts(rows@), "; "@),
        ) + "]"@,
    }
}

fn row_text(w: &ReadyRow) -> (r: String)
    ensures
        r@ == row_words(*w),
{
    let mut r = int_text(w.id as i64);
    notes::tag(&mut r, ":", int_text(w.state as i64).as_str());
    notes::tag(&mut r, ":t", text::decimal_text(w.timer as u64).as_str());
    notes::tag(&mut r, ":s", text::decimal_text(w.skip as u64).as_str());
    r
}

/// Writes the rows of the ready list.
pub fn rows_text(rows: &Vec<ReadyRow>) -> (r: String)
    ensures
        r@ == notes::joined(row_parts(rows@), "; "@),
{
    let mut parts: Vec<String> = Vec::new();
    let mut i: usize = 0;
    assert(text::views(parts@) =~= row_parts(rows@.take(0)));
    while i < rows.len()
        invariant
            i <= rows@.len(),
            text::views(parts@) == row_parts(rows@.take(i as int)),
        decreases rows@.len() - i,
    {
        let ghost sofar = text::views(parts@);
        notes::put(&mut parts, row_text(&rows[i]));
        assert(row_parts(rows@.take(i + 1)) =~= sofar.push(row_words(rows@[i as int])));
        i += 1;
    }
    assert(rows@.take(i as int) =~= rows@);
    notes::join(&parts, "; ")
}

/// Tells of the ready list.
pub fn ready_list_note(s: &ReadyReading) -> (r: String)
    ensures
        r@ == ready_words(*s),
{
    match s {
        ReadyReading::Unreadable => " ready=unreadable".to_owned(),
        ReadyReading::Null => " ready=null".to_owned(),
        ReadyReading::Closed { address } => {
            let mut r = notes::line(" ready=");
            notes::tag(&mut r, notes::hex_text(*address).as_str(), " +50 unreadable");
            r
        },
        ReadyReading::Empty { address, flag } => {
            let mut r = flag_text(*address, *flag);
            r.append(" n=0");
            r
        },
        ReadyReading::BadRange { address, flag, begin, end } => {
            let mut r = flag_text(*address, *flag);
            notes::tag(&mut r, " range_bad ", notes::hex_text(*begin).as_str());
            notes::tag(&mut r, "..", notes::hex_text(*end).as_str());
            r
        },
        ReadyReading::NoRows { address, flag } => {
            let mut r = flag_text(*address, *flag);
            r.append(" vec unreadable");
            r
        },
        ReadyReading::Rows { address, flag, rows } => {
            let mut r = flag_text(*address, *flag);
            notes::tag(&mut r, " n=", text::decimal_text(rows.len() as u64).as_str());
            notes::tag(&mut r, " [", rows_text(rows).as_str());
            r.append("]");
            r
        },
    }
}

pub open spec fn send_words(s: SendReading) -> Seq<char> {
    match s {
        SendReading::Unreadable => ""@,
        SendReading::Null => " send=null"@,
        SendReading::Closed => " send+38 unreadable"@,
        SendReading::Field { address } => if address == 0 {
            " send+38=0"@
        } else {
            " send+38="@ + notes::hex_number(address as nat)
        },
    }
}

fn send_text(s: &SendReading) -> (r: String)
    ensures
        r@ == send_words(*s),
{
    match s {
        SendReading::Unreadable => "".to_owned(),
        SendReading::Null => " send=null".to_owned(),
        SendReading::Closed => " send+38 unreadable".to_owned(),
        SendReading::Field { address } => if *address == 0 {
            " send+38=0".to_owned()
        } else {
            let mut r = notes::line(" send+38=");
            r.append(notes::hex_text(*address).as_str());
            r
        },
    }
}

/// How many are filled.
pub open spec fn filled_count(v: Seq<bool>) -> nat
    decreases v.len(),
{
    if v.len() == 0 {
        0
    } else {
        filled_count(v.drop_last()) + (if v.last() { 1nat } else { 0nat })
    }
}

fn count_filled(v: &Vec<bool>) -> (r: u64)
    ensures
        r == filled_count(v@),
{
    let mut n: u64 = 0;
    let mut i: usize = 0;
    assert(v@.take(0) =~= Seq::empty());
    while i < v.len()
        invariant
            i <= v@.len(),
            n <= i,
            n == filled_count(v@.take(i as int)),
        decreases v@.len() - i,
    {
        assert(v@.take(i + 1).drop_last() =~= v@.take(i as int));
        if v[i] {
            n += 1;
        }
        i += 1;
    }
    assert(v@.take(i as int) =~= v@);
    n
}

pub open spec fn overlay_words(o: Option<OverlayReading>) -> Seq<char> {
    match o {
        None => " overlay unreadable"@,
        Some(o) => {
            let a = notes::tagged(
                " overlay_slot="@,
                notes::hex_number(o.slot as nat),
                " overlay_after="@,
            );
            let a = notes::tagged(a, notes::hex_number(o.after as nat), " overlay_obj="@);
            let a = notes::tagged(a, notes::hex_number(o.address as nat), " ids="@);
            let a = notes::tagged(a, text::decimal(filled_count(o.filled@)), "/12"@);
            match o.latch {
                Some(l) => notes::tagged(
                    notes::tagged(a, " 6c814="@, text::decimal(l.0 as nat)),
                    " 6c818="@,
                    notes::hex_number(l.1 as nat),
                ),
                None => a,
            }
        },
    }
}

fn overlay_text(o: &Option<OverlayReading>) -> (r: String)
    ensures
        r@ == overlay_words(*o),
{
    match o {
        None => " overlay unreadable".to_owned(),
        Some(o) => {
            let mut r = notes::line(" overlay_slot=");
            notes::tag(&mut r, notes::hex_text(o.slot).as_str(), " overlay_after=");
            notes::tag(&mut r, notes::hex_text(o.after).as_str(), " overlay_obj=");
            notes::tag(&mut r, notes::hex_text(o.address).as_str(), " ids=");
            notes::tag(&mut r, text::decimal_text(count_filled(&o.filled)).as_str(), "/12");
            if let Some(l) = o.latch {
                notes::tag(&mut r, " 6c814=", text::decimal_text(l.0 as u64).as_str());
                notes::tag(&mut r, " 6c818=", notes::hex_text(l.1 as u64).as_str());
            }
            r
        },
    }
}

/// What was read of the title's session, in words.
pub open spec fn sample_words(s: SessionSample) -> Seq<char> {
    let a = notes::tagged(
        session_words(s.session),
        member_words(s.slots@, s.members),
        ready_words(s.ready),
    );
    notes::tagged(a, send_words(s.send), overlay_words(s.overlay))
}

/// Tells of the title's session where it has changed, and else once in a while.
#[verifier::ext_equal]
pub struct SessionProbe {
    pub key: u64,
    /// When the session was last told of for want of a change, in milliseconds.
    pub beat_at: Option<u64>,
}

impl SessionProbe {
    pub fn new() -> (r: SessionProbe)
        ensures
            r == (SessionProbe { key: u64::MAX, beat_at: None }),
    {
        SessionProbe { key: u64::MAX, beat_at: None }
    }

    /// Takes a sample; the result is what the line says of it, where one is told.
    pub fn probe_session(&mut self, s: &SessionSample, now: u64) -> (r: Option<String>)
        ensures
            ({
                let words = sample_words(*s);
                let key = probes::hashed(lobby_model::utf8(words));
                let due = match old(self).beat_at {
                    Some(t) => now >= t + probes::SESSION_HEARTBEAT_MS,
                    None => false,
                };
                let tells = old(self).key != key || due;
                &&& *final(self) == (SessionProbe {
                    key,
                    beat_at: if due || old(self).beat_at is None {
                        Some(now)
                    } else {
                        old(self).beat_at
                    },
                })
                &&& match r {
                    Some(line) => tells && line@ == words,
                    None => !tells,
                }
            }),
    {
        let mut words = session_text(&s.session);
        notes::tag(
            &mut words,
            member_text(&s.slots, s.members).as_str(),
            ready_list_note(&s.ready).as_str(),
        );
        notes::tag(
            &mut words,
            send_text(&s.send).as_str(),
            overlay_text(&s.overlay).as_str(),
        );
        let key: u64 = probes::fnv1a(words.as_str());
        let changed = self.key != key;
        self.key = key;
        let due = match self.beat_at {
            Some(t) => now >= t && now - t >= probes::SESSION_HEARTBEAT_MS,
            None => false,
        };
        if due || self.beat_at.is_none() {
            self.beat_at = Some(now);
        }
        if changed || due {
            Some(words)
        } else {
            None
        }
    }
}

/// The calls of the title that were seen, each by its bit.
pub open spec fn export_names(mask: u64) -> Seq<Seq<char>> {
    let a: Seq<Seq<char>> = Seq::empty();
    let a = if mask & 1 != 0 { a.push("Deserialize"@) } else { a };
    let a = if mask & 2 != 0 { a.push("Connect"@) } else { a };
    let a = if mask & 4 != 0 { a.push("CreateNewNetwork"@) } else { a };
    let a = if mask & 8 != 0 { a.push("StartProcessing"@) } else { a };
    let a = if mask & 16 != 0 { a.push("Authenticate"@) } else { a };
    let a = if mask & 32 != 0 { a.push("CreateEndpoint"@) } else { a };
    let a = if mask & 64 != 0 { a.push("LeaveNetwork"@) } else { a };
    if mask & 128 != 0 { a.push("Cleanup"@) } else { a }
}

/// Tells which calls of the title were seen.
pub fn export_trace(mask: u64) -> (r: String)
    ensures
        r@ == notes::words_or(export_names(mask), "-"@, ","@),
{
    let mut v: Vec<String> = Vec::new();
    assert(text::views(v@) =~= Seq::empty());
    if mask & 1 != 0 {
        notes::put(&mut v, "Deserialize".to_owned());
    }
    if mask & 2 != 0 {
        notes::put(&mut v, "Connect".to_owned());
    }
    if mask & 4 != 0 {
        notes::put(&mut v, "CreateNewNetwork".to_owned());
    }
    if mask & 8 != 0 {
        notes::put(&mut v, "StartProcessing".to_owned());
    }
    if mask & 16 != 0 {
        notes::put(&mut v, "Authenticate".to_owned());
    }
    if mask & 32 != 0 {
        notes::put(&mut v, "CreateEndpoint".to_owned());
    }
    if mask & 64 != 0 {
        notes::put(&mut v, "LeaveNetwork".to_owned());
    }
    if mask & 128 != 0 {
        notes::put(&mut v, "Cleanup".to_owned());
    }
    assert(text::views(v@) == export_names(mask));
    assert(text::views(v@).len() == v@.len());
    if v.len() == 0 {
        "-".to_owned()
    } else {
        notes::join(&v, ",")
    }
}

}
