//! The lines that tell how far the title has come with starting a quest.
use crate::lobby_model;
use crate::notes;
use crate::probes;
use crate::session_probe;
use crate::session_probe::{MemberSlot, ReadyRow};
use crate::text;
use vstd::prelude::*;

verus! {

/// A field of the quest manager, which may be the object itself or be pointed to: both readings.
pub struct FieldReading {
    pub name: String,
    pub direct: Option<u32>,
    pub via: Option<u32>,
}

/// A word, or the largest one where it could not be read.
pub open spec fn word_or_max(v: Option<u32>) -> nat {
    match v {
        Some(n) => n as nat,
        None => u32::MAX as nat,
    }
}

fn max_text(v: Option<u32>) -> (r: String)
    ensures
        r@ == text::decimal(word_or_max(v)),
{
    match v {
        Some(n) => text::decimal_text(n as u64),
        None => text::decimal_text(0xffff_ffff),
    }
}

/// A line with a field after it.
pub open spec fn with_field(s: Seq<char>, f: FieldReading) -> Seq<char> {
    let a = notes::tagged(s, " "@, f.name@);
    let a = notes::tagged(a, "=d"@, text::decimal(word_or_max(f.direct)));
    notes::tagged(a, "/v"@, text::decimal(word_or_max(f.via)))
}

/// A line with fields after it.
pub open spec fn with_fields(s: Seq<char>, v: Seq<FieldReading>) -> Seq<char>
    decreases v.len(),
{
    if v.len() == 0 { s } else { with_field(with_fields(s, v.drop_last()), v.last()) }
}

/// What decides whether a quest may start: the fields of the quest manager at `address`, and two
/// words of the session.
pub open spec fn guard_words(
    address: u64,
    fields: Seq<FieldReading>,
    session: Option<(u32, u32)>,
) -> Seq<char> {
    let a = notes::tagged("quest_guard g="@, notes::hex_number(address as nat), ""@);
    let a = with_fields(a, fields);
    match session {
        Some(s) => notes::tagged(
            notes::tagged(a, " session+4="@, text::decimal(s.0 as nat)),
            " +4ac="@,
            text::decimal(s.1 as nat),
        ),
        None => a,
    }
}

/// Tells what decides whether a quest may start.
pub fn quest_guard_note(
    address: u64,
    fields: &Vec<FieldReading>,
    session: Option<(u32, u32)>,
) -> (r: String)
    ensures
        r@ == guard_words(address, fields@, session),
{
    let mut r = notes::line("quest_guard g=");
    notes::tag(&mut r, notes::hex_text(address).as_str(), "");
    let ghost start = r@;
    let mut i: usize = 0;
    assert(fields@.take(0) =~= Seq::empty());
    while i < fields.len()
        invariant
            i <= fields@.len(),
            r@ == with_fields(start, fields@.take(i as int)),
        decreases fields@.len() - i,
    {
        assert(fields@.take(i + 1).drop_last() =~= fields@.take(i as int));
        let f = &fields[i];
        notes::tag(&mut r, " ", f.name.as_str());
        notes::tag(&mut r, "=d", max_text(f.direct).as_str());
        notes::tag(&mut r, "/v", max_text(f.via).as_str());
        i += 1;
    }
    assert(fields@.take(i as int) =~= fields@);
    if let Some(s) = session {
        notes::tag(&mut r, " session+4=", text::decimal_text(s.0 as u64).as_str());
        notes::tag(&mut r, " +4ac=", text::decimal_text(s.1 as u64).as_str());
    }
    r
}

/// An object of the machine that starts a quest on all sides at once, as far as it could be read.
pub struct SyncReading {
    pub name: String,
    /// What the global holds.
    pub pointer: Option<u64>,
    /// The first words of the global.
    pub direct: Option<(u32, u32)>,
    /// The first words of what it points to.
    pub via: Option<(u32, u32, u32)>,
}

/// An object in words.
pub open spec fn sync_object_words(o: SyncReading) -> Seq<char> {
    match o.pointer {
        None => notes::tagged(" "@, o.name@, "=unreadable"@),
        Some(p) => {
            let a = notes::tagged(" "@, o.name@, "="@) + notes::hex_number(p as nat);
            let a = match o.direct {
                Some(d) => notes::tagged(
                    notes::tagged(notes::tagged(a, " ("@, o.name@), "d="@, text::decimal(d.0 as nat)),
                    "/"@,
                    text::decimal(d.1 as nat),
                ) + ")"@,
                None => a,
            };
            match o.via {
                Some(v) => notes::tagged(
                    notes::tagged(
                        notes::tagged(
                            notes::tagged(a, " ("@, o.name@),
                            "v="@,
                            text::decimal(v.0 as nat),
                        ),
                        "/"@,
                        text::decimal(v.1 as nat),
                    ),
                    "/"@,
                    text::decimal(v.2 as nat),
                ) + ")"@,
                None => a,
            }
        },
    }
}

fn sync_object_text(o: &SyncReading) -> (r: String)
    ensures
        r@ == sync_object_words(*o),
{
    let mut r = notes::line(" ");
    let p: u64 = match o.pointer {
        None => {
            notes::tag(&mut r, o.name.as_str(), "=unreadable");
            return r;
        },
        Some(p) => p,
    };
    notes::tag(&mut r, o.name.as_str(), "=");
    r.append(notes::hex_text(p).as_str());
    if let Some(d) = o.direct {
        notes::tag(&mut r, " (", o.name.as_str());
        notes::tag(&mut r, "d=", text::decimal_text(d.0 as u64).as_str());
        notes::tag(&mut r, "/", text::decimal_text(d.1 as u64).as_str());
        r.append(")");
    }
    if let Some(v) = o.via {
        notes::tag(&mut r, " (", o.name.as_str());
        notes::tag(&mut r, "v=", text::decimal_text(v.0 as u64).as_str());
        notes::tag(&mut r, "/", text::decimal_text(v.1 as u64).as_str());
        notes::tag(&mut r, "/", text::decimal_text(v.2 as u64).as_str());
        r.append(")");
    }
    r
}

/// The objects, each in words.
pub open spec fn sync_parts(v: Seq<SyncReading>) -> Seq<Seq<char>> {
    v.map_values(|o: SyncReading| sync_object_words(o))
}

/// Tells how far the machine has come that starts a quest on all sides at once.
pub fn quest_sync_note(v: &Vec<SyncReading>) -> (r: String)
    ensures
        r@ == "quest_sync"@ + notes::joined(sync_parts(v@), ""@),
{
    let mut parts: Vec<String> = Vec::new();
    let mut i: usize = 0;
    assert(text::views(parts@) =~= sync_parts(v@.take(0)));
    while i < v.len()
        invariant
            i <= v@.len(),
            text::views(parts@) == sync_parts(v@.take(i as int)),
        decreases v@.len() - i,
    {
        let ghost sofar = text::views(parts@);
        notes::put(&mut parts, sync_object_text(&v[i]));
        assert(sync_parts(v@.take(i + 1)) =~= sofar.push(sync_object_words(v@[i as int])));
        i += 1;
    }
    assert(v@.take(i as int) =~= v@);
    let mut r = notes::line("quest_sync");
    r.append(notes::join(&parts, "").as_str());
    r
}

/// One of the lists of notices, the most urgent first: how many it has, where that could be read,
/// and the code, kind and flag of its last one, where that could be.
#[derive(Clone, Copy)]
pub struct Bucket {
    pub count: Option<u32>,
    pub last: Option<(u32, u32, u8)>,
}

/// A list of notices in words. Only the last notice of the first list that has any is tested.
pub open spec fn bucket_words(place: nat, b: Bucket, tested: bool) -> Seq<char> {
    let a = notes::tagged(" b"@, text::decimal(place), "="@) + text::decimal(b.count->0 as nat);
    let a = a + (if tested { "(tested)"@ } else { ""@ });
    match b.last {
        None => a + " bad_base"@,
        Some(l) => notes::tagged(
            notes::tagged(
                notes::tagged(a, " last[c"@, notes::hex_number(l.0 as nat)),
                " kind"@,
                text::decimal(l.1 as nat),
            ),
            " 12:"@,
            text::decimal(l.2 as nat),
        ) + "]"@,
    }
}

fn bucket_text(place: u64, b: &Bucket, count: u32, tested: bool) -> (r: String)
    requires
        b.count == Some(count),
    ensures
        r@ == bucket_words(place as nat, *b, tested),
{
    let mut r = notes::line(" b");
    notes::tag(&mut r, text::decimal_text(place).as_str(), "=");
    r.append(text::decimal_text(count as u64).as_str());
    r.append(
        if tested {
            "(tested)"
        } else {
            ""
        },
    );
    match b.last {
        None => {
            r.append(" bad_base");
        },
        Some(l) => {
            notes::tag(&mut r, " last[c", notes::hex_text(l.0 as u64).as_str());
            notes::tag(&mut r, " kind", text::decimal_text(l.1 as u64).as_str());
            notes::tag(&mut r, " 12:", text::decimal_text(l.2 as u64).as_str());
            r.append("]");
        },
    }
    r
}

/// The lists from a place on in words, unless they are empty. What lies behind one that cannot be
/// read is not known. `picked` tells that one of those before has notices.
pub open spec fn buckets_from(v: Seq<Bucket>, i: int, picked: bool) -> Seq<char>
    decreases v.len() - i,
{
    if i < 0 || i >= v.len() || v[i].count is None {
        if picked { Seq::empty() } else { " all_buckets_empty"@ }
    } else if v[i].count->0 == 0 {
        buckets_from(v, i + 1, picked)
    } else {
        bucket_words((v.len() - i) as nat, v[i], !picked) + buckets_from(v, i + 1, true)
    }
}

/// Tells of the notices that can keep a quest from starting.
pub fn quest_array_note(address: u64, v: &Vec<Bucket>) -> (r: String)
    ensures
        r@ == (if address == 0 {
            "quest_array p=0"@
        } else {
            "quest_array p="@ + notes::hex_number(address as nat) + buckets_from(v@, 0, false)
        }),
{
    if address == 0 {
        return "quest_array p=0".to_owned();
    }
    let mut r = notes::line("quest_array p=");
    r.append(notes::hex_text(address).as_str());
    let ghost start = r@;
    let mut i: usize = 0;
    let mut picked = false;
    assert(start + buckets_from(v@, 0, false) =~= r@ + buckets_from(v@, i as int, picked));
    while i < v.len()
        invariant
            i <= v@.len(),
            r@ + buckets_from(v@, i as int, picked) == start + buckets_from(v@, 0, false),
        ensures
            i <= v@.len(),
            i == v@.len() || v@[i as int].count is None,
            r@ + buckets_from(v@, i as int, picked) == start + buckets_from(v@, 0, false),
        decreases v@.len() - i,
    {
        let b = v[i];
        let count: u32 = match b.count {
            Some(n) => n,
            None => {
                break;
            },
        };
        if count > 0 {
            let ghost before = r@;
            let ghost words = bucket_words((v@.len() - i) as nat, b, !picked);
            let ghost rest = buckets_from(v@, i + 1, true);
            r.append(bucket_text((v.len() - i) as u64, &b, count, !picked).as_str());
            assert(r@ =~= before + words);
            assert((before + words) + rest =~= before + (words + rest));
            picked = true;
        }
        i += 1;
    }
    if !picked {
        r.append(" all_buckets_empty");
    } else {
        assert(r@ + Seq::<char>::empty() =~= r@);
    }
    assert(r@ == start + buckets_from(v@, 0, false));
    r
}

/// How the action that starts a quest has ended, in words.
pub open spec fn action_words(code: u32, done: u8) -> Seq<char> {
    notes::tagged(
        notes::tagged("quest_action code="@, notes::hex_number(code as nat), " done="@),
        text::decimal(done as nat),
        ""@,
    )
}

/// Tells how the action that starts a quest has ended: its code and whether it is done. Nothing is
/// told of one that could not be read.
pub fn quest_action_note(address: u64, result: Option<(u32, u8)>) -> (r: Option<String>)
    ensures
        match r {
            Some(line) => if address == 0 {
                line@ == "quest_action p=0"@
            } else {
                result matches Some((code, done)) && line@ == action_words(code, done)
            },
            None => address != 0 && result is None,
        },
{
    if address == 0 {
        return Some("quest_action p=0".to_owned());
    }
    match result {
        None => None,
        Some(x) => {
            let mut r = notes::line("quest_action code=");
            notes::tag(&mut r, notes::hex_text(x.0 as u64).as_str(), " done=");
            notes::tag(&mut r, text::decimal_text(x.1 as u64).as_str(), "");
            Some(r)
        },
    }
}

/// What was read of the rows that wait.
pub enum QueueReading {
    Unknown,
    BadRange { address: u64, flag: u8, begin: u64, end: u64 },
    NoRows { address: u64 },
    Rows { address: u64, flag: u8, rows: Vec<ReadyRow> },
}

/// The rows that wait, in words.
pub open spec fn queue_words(q: QueueReading) -> Seq<char> {
    match q {
        QueueReading::Unknown => "queue=?"@,
        QueueReading::BadRange { address, flag, begin, end } => {
            let a = notes::tagged("queue="@, notes::hex_number(address as nat), " badrange fl="@);
            let a = notes::tagged(a, text::decimal(flag as nat), " begin="@);
            let a = notes::tagged(a, notes::hex_number(begin as nat), " end="@);
            a + notes::hex_number(end as nat)
        },
        QueueReading::NoRows { address } => notes::tagged(
            "queue="@,
            notes::hex_number(address as nat),
            " unreadable"@,
        ),
        QueueReading::Rows { address, flag, rows } => {
            let a = notes::tagged("queue="@, notes::hex_number(address as nat), " fl="@);
            let a = notes::tagged(a, text::decimal(flag as nat), " ["@);
            notes::tagged(a, notes::joined(session_probe::row_parts(rows@), "; "@), "]"@)
        },
    }
}

/// Tells of the rows that wait.
pub fn queue_rows_note(q: &QueueReading) -> (r: String)
    ensures
        r@ == queue_words(*q),
{
    match q {
        QueueReading::Unknown => "queue=?".to_owned(),
        QueueReading::BadRange { address, flag, begin, end } => {
            let mut r = notes::line("queue=");
            notes::tag(&mut r, notes::hex_text(*address).as_str(), " badrange fl=");
            notes::tag(&mut r, text::decimal_text(*flag as u64).as_str(), " begin=");
            notes::tag(&mut r, notes::hex_text(*begin).as_str(), " end=");
            r.append(notes::hex_text(*end).as_str());
            r
        },
        QueueReading::NoRows { address } => {
            let mut r = notes::line("queue=");
            notes::tag(&mut r, notes::hex_text(*address).as_str(), " unreadable");
            r
        },
        QueueReading::Rows { address, flag, rows } => {
            let mut r = notes::line("queue=");
            notes::tag(&mut r, notes::hex_text(*address).as_str(), " fl=");
            notes::tag(&mut r, text::decimal_text(*flag as u64).as_str(), " [");
            notes::tag(&mut r, session_probe::rows_text(rows).as_str(), "]");
            r
        },
    }
}

/// What the row of a participant says, in words.
pub open spec fn work_words(s: MemberSlot) -> Seq<char> {
    let a = notes::tagged("id="@, session_probe::int_word(s.id as int), " +8="@);
    let a = notes::tagged(a, session_probe::int_word(s.unique as int), " +70="@);
    let a = notes::tagged(a, text::decimal(s.flag as nat), " +a0="@);
    a + session_probe::int_word(s.stage as int)
}

pub open spec fn work_parts(v: Seq<MemberSlot>) -> Seq<Seq<char>> {
    v.map_values(|s: MemberSlot| work_words(s))
}

/// Tells of the rows of the participants.
pub fn work_rows_note(v: &Vec<MemberSlot>) -> (r: String)
    ensures
        r@ == (if v@.len() == 0 {
            "rows=0"@
        } else {
            notes::tagged("rows=["@, notes::joined(work_parts(v@), "; "@), "]"@)
        }),
{
    if v.len() == 0 {
        return "rows=0".to_owned();
    }
    let mut parts: Vec<String> = Vec::new();
    let mut i: usize = 0;
    assert(text::views(parts@) =~= work_parts(v@.take(0)));
    while i < v.len()
        invariant
            i <= v@.len(),
            text::views(parts@) == work_parts(v@.take(i as int)),
        decreases v@.len() - i,
    {
        let ghost sofar = text::views(parts@);
        let s = &v[i];
        let mut t = notes::line("id=");
        notes::tag(&mut t, session_probe::int_text(s.id as i64).as_str(), " +8=");
        notes::tag(&mut t, session_probe::int_text(s.unique as i64).as_str(), " +70=");
        notes::tag(&mut t, text::decimal_text(s.flag as u64).as_str(), " +a0=");
        t.append(session_probe::int_text(s.stage as i64).as_str());
        notes::put(&mut parts, t);
        assert(work_parts(v@.take(i + 1)) =~= sofar.push(work_words(v@[i as int])));
        i += 1;
    }
    assert(v@.take(i as int) =~= v@);
    let mut r = notes::line("rows=[");
    notes::tag(&mut r, notes::join(&parts, "; ").as_str(), "]");
    r
}

/// The lookup identifiers that are filled: each has its bit.
pub open spec fn id_mask(filled: Seq<bool>) -> nat
    decreases filled.len(),
{
    if filled.len() == 0 {
        0
    } else {
        (if filled[0] { 1nat } else { 0nat }) + 2 * id_mask(filled.drop_first())
    }
}

/// How many of the lookup identifiers are filled.
pub open spec fn id_count(filled: Seq<bool>) -> nat
    decreases filled.len(),
{
    if filled.len() == 0 {
        0
    } else {
        (if filled[0] { 1nat } else { 0nat }) + id_count(filled.drop_first())
    }
}

/// The bits of as many as are left.
pub open spec fn two_to(n: nat) -> nat
    decreases n,
{
    if n == 0 { 1 } else { 2 * two_to((n - 1) as nat) }
}

proof fn lemma_id_mask(filled: Seq<bool>)
    ensures
        id_mask(filled) < two_to(filled.len()),
        id_count(filled) <= filled.len(),
    decreases filled.len(),
{
    if filled.len() > 0 {
        lemma_id_mask(filled.drop_first());
    }
}

proof fn lemma_two_to(n: nat, m: nat)
    requires
        n <= m,
    ensures
        two_to(n) <= two_to(m),
    decreases m,
{
    if n < m {
        lemma_two_to(n, (m - 1) as nat);
    }
}

/// The lookup identifiers that were last told of.
#[verifier::ext_equal]
pub struct IdTable {
    pub mask: u64,
}

/// The line that tells which lookup identifiers are filled.
pub open spec fn id_words(filled: Seq<bool>) -> Seq<char> {
    notes::tagged(
        notes::tagged("lookup_ids filled="@, text::decimal(id_count(filled)), "/12 mask=0x"@),
        text::hex(id_mask(filled), 4),
        ""@,
    )
}

impl IdTable {
    /// Nothing was told yet.
    pub fn new() -> (r: IdTable)
        ensures
            r == (IdTable { mask: u64::MAX }),
    {
        IdTable { mask: u64::MAX }
    }

    /// Tells which of the twelve lookup identifiers are filled, where that has changed.
    pub fn id_table_note(&mut self, filled: &Vec<bool>) -> (r: Option<String>)
        requires
            filled@.len() == 12,
        ensures
            final(self).mask == id_mask(filled@),
            match r {
                Some(line) => old(self).mask != id_mask(filled@) && line@ == id_words(filled@),
                None => old(self).mask == id_mask(filled@),
            },
    {
        let mut mask: u64 = 0;
        let mut count: u64 = 0;
        let mut i: usize = filled.len();
        assert(filled@.skip(12) =~= Seq::empty());
        while i > 0
            invariant
                i <= 12,
                filled@.len() == 12,
                mask == id_mask(filled@.skip(i as int)),
                count == id_count(filled@.skip(i as int)),
            decreases i,
        {
            let ghost here = filled@.skip(i - 1);
            assert(here.drop_first() =~= filled@.skip(i as int));
            proof {
                lemma_id_mask(filled@.skip(i as int));
                lemma_two_to((12 - i) as nat, 12);
                reveal_with_fuel(two_to, 13);
            }
            i -= 1;
            mask = 2 * mask + (if filled[i] {
                1
            } else {
                0
            });
            count = count + (if filled[i] {
                1
            } else {
                0
            });
            assert(here[0] == filled@[i as int]);
        }
        assert(filled@.skip(0) =~= filled@);
        if self.mask == mask {
            return None;
        }
        self.mask = mask;
        let mut r = notes::line("lookup_ids filled=");
        notes::tag(&mut r, text::decimal_text(count).as_str(), "/12 mask=0x");
        let mut h = String::new();
        text::push_hex(&mut h, mask, 4);
        assert(h@ =~= text::hex(mask as nat, 4));
        notes::tag(&mut r, h.as_str(), "");
        Some(r)
    }
}

/// What the title connects with: the sender's objects, and the record and invitation in them.
pub struct ConnectInputs {
    pub sender: u64,
    pub holder: u64,
    pub inner: u64,
    pub party: u64,
    pub first: u8,
    pub invitation: u64,
}

/// Tells what the title connects with; `None` stands for a sender that could not be read.
pub fn connect_inputs_note(c: &Option<ConnectInputs>) -> (r: String)
    ensures
        r@ == (match *c {
            None => "connect-gate inputs: send global unreadable"@,
            Some(c) => if c.sender == 0 {
                "connect-gate inputs: DAT_147c52cd8=null"@
            } else {
                let a = notes::tagged(
                    "connect-gate inputs send="@,
                    notes::hex_number(c.sender as nat),
                    " +18="@,
                );
                let a = notes::tagged(a, notes::hex_number(c.holder as nat), " [+18]+38="@);
                let a = notes::tagged(a, notes::hex_number(c.inner as nat), " party+38="@);
                let a = notes::tagged(a, notes::hex_number(c.party as nat), " desc0="@);
                let a = notes::tagged(a, text::decimal(c.first as nat), " inv="@);
                a + text::decimal(c.invitation as nat)
            },
        }),
{
    let c = match c {
        None => {
            return "connect-gate inputs: send global unreadable".to_owned();
        },
        Some(c) => c,
    };
    if c.sender == 0 {
        return "connect-gate inputs: DAT_147c52cd8=null".to_owned();
    }
    let mut r = notes::line("connect-gate inputs send=");
    notes::tag(&mut r, notes::hex_text(c.sender).as_str(), " +18=");
    notes::tag(&mut r, notes::hex_text(c.holder).as_str(), " [+18]+38=");
    notes::tag(&mut r, notes::hex_text(c.inner).as_str(), " party+38=");
    notes::tag(&mut r, notes::hex_text(c.party).as_str(), " desc0=");
    notes::tag(&mut r, text::decimal_text(c.first as u64).as_str(), " inv=");
    r.append(text::decimal_text(c.invitation).as_str());
    r
}

/// Tells for a while how a mesh comes up after its record was read.
#[verifier::ext_equal]
pub struct Timeline {
    /// How many looks are left.
    pub left: u32,
    pub key: u64,
}

/// How many looks are taken after a record was read.
pub const TIMELINE_LOOKS: u32 = 48;

/// What is seen in one look.
pub struct TimelineLook {
    pub mode: u32,
    pub state: u32,
    pub leaf: u64,
    pub party: u64,
    pub invitation: u64,
}

/// A look in words, with what is told of the participants, the rows that wait, and the calls seen.
pub open spec fn look_words(
    left: u32,
    l: TimelineLook,
    work: Seq<char>,
    queue: Seq<char>,
    exports: Seq<char>,
) -> Seq<char> {
    let a = notes::tagged("mesh-start timeline["@, text::decimal(left as nat), "] mode0="@);
    let a = notes::tagged(a, text::decimal(l.mode as nat), " +4="@);
    let a = notes::tagged(a, text::decimal(l.state as nat), " +28="@);
    let a = notes::tagged(a, notes::hex_number(l.leaf as nat), " party="@);
    let a = notes::tagged(a, notes::hex_number(l.party as nat), " inv="@);
    let a = notes::tagged(a, text::decimal(l.invitation as nat), " "@);
    let a = notes::tagged(a, work, " "@);
    let a = notes::tagged(a, queue, " exports=["@);
    notes::tagged(a, exports, "]"@)
}

impl Timeline {
    /// Nothing to look at.
    pub fn new() -> (r: Timeline)
        ensures
            r == (Timeline { left: 0, key: u64::MAX }),
    {
        Timeline { left: 0, key: u64::MAX }
    }

    /// A record was read.
    pub fn arm(&mut self)
        ensures
            *final(self) == (Timeline { left: TIMELINE_LOOKS, key: u64::MAX }),
    {
        self.left = TIMELINE_LOOKS;
        self.key = u64::MAX;
    }

    /// Takes a look, where some are left. It is told of where it differs from the one before, and
    /// each eighth in any case.
    pub fn look(&mut self, l: &TimelineLook, work: &str, queue: &str, exports: &str) -> (r: Option<
        String,
    >)
        ensures
            ({
                let left = old(self).left;
                let words = look_words(left, *l, work@, queue@, exports@);
                let key = probes::hashed(lobby_model::utf8(words));
                let tells = left > 0 && (old(self).key != key || left % 8 == 0);
                &&& *final(self) == (if left == 0 {
                    *old(self)
                } else {
                    Timeline { left: (left - 1) as u32, key }
                })
                &&& match r {
                    Some(line) => tells && line@ == words,
                    None => !tells,
                }
            }),
    {
        let left: u32 = self.left;
        if left == 0 {
            return None;
        }
        let mut r = notes::line("mesh-start timeline[");
        notes::tag(&mut r, text::decimal_text(left as u64).as_str(), "] mode0=");
        notes::tag(&mut r, text::decimal_text(l.mode as u64).as_str(), " +4=");
        notes::tag(&mut r, text::decimal_text(l.state as u64).as_str(), " +28=");
        notes::tag(&mut r, notes::hex_text(l.leaf).as_str(), " party=");
        notes::tag(&mut r, notes::hex_text(l.party).as_str(), " inv=");
        notes::tag(&mut r, text::decimal_text(l.invitation).as_str(), " ");
        notes::tag(&mut r, work, " ");
        notes::tag(&mut r, queue, " exports=[");
        notes::tag(&mut r, exports, "]");
        let key: u64 = probes::fnv1a(r.as_str());
        let changed = self.key != key;
        self.left = left - 1;
        self.key = key;
        if changed || left % 8 == 0 {
            Some(r)
        } else {
            None
        }
    }
}

}
