//! Lines of text that tell what was observed.
use crate::bytes;
use crate::text;
use vstd::prelude::*;

verus! {

/// A line with a name and a value after it.
pub open spec fn tagged(s: Seq<char>, name: Seq<char>, value: Seq<char>) -> Seq<char> {
    s + name + value
}

/// Writes a name and a value.
pub fn tag(out: &mut String, name: &str, value: &str)
    ensures
        final(out)@ == tagged(old(out)@, name@, value@),
{
    out.append(name);
    out.append(value);
}

/// A line that starts with a word.
pub fn line(word: &str) -> (r: String)
    ensures
        r@ == word@,
{
    word.to_owned()
}

/// Texts with something between each two.
pub open spec fn joined(v: Seq<Seq<char>>, between: Seq<char>) -> Seq<char>
    decreases v.len(),
{
    if v.len() == 0 {
        Seq::empty()
    } else if v.len() == 1 {
        v[0]
    } else {
        joined(v.drop_last(), between) + between + v.last()
    }
}

/// Joins texts with something between each two.
pub fn join(v: &Vec<String>, between: &str) -> (r: String)
    ensures
        r@ == joined(text::views(v@), between@),
{
    let ghost all = text::views(v@);
    let mut r = String::new();
    let mut i: usize = 0;
    assert(r@ =~= joined(all.take(0), between@));
    while i < v.len()
        invariant
            i <= v@.len(),
            all == text::views(v@),
            r@ == joined(all.take(i as int), between@),
        decreases v@.len() - i,
    {
        assert(all.take(i + 1).drop_last() =~= all.take(i as int));
        assert(all[i as int] == v@[i as int]@);
        if i > 0 {
            r.append(between);
        } else {
            assert(r@ =~= Seq::empty());
        }
        r.append(v[i].as_str());
        assert(r@ =~= joined(all.take(i + 1), between@));
        i += 1;
    }
    assert(all.take(i as int) =~= all);
    r
}

/// The hexadecimal digits of a number, as few as there are.
pub open spec fn hex_digits(n: nat) -> Seq<char>
    decreases n,
{
    if n < 16 {
        seq![text::digit_char(n)]
    } else {
        hex_digits(n / 16).push(text::digit_char(n % 16))
    }
}

fn push_hex_digits(out: &mut String, n: u64)
    ensures
        final(out)@ == old(out)@ + hex_digits(n as nat),
    decreases n,
{
    if n >= 16 {
        push_hex_digits(out, n / 16);
    }
    out.push(text::to_digit_char((n % 16) as u8));
    assert(out@ =~= old(out)@ + hex_digits(n as nat));
}

/// A number in hexadecimal, marked as such.
pub open spec fn hex_number(n: nat) -> Seq<char> {
    "0x"@ + hex_digits(n)
}

/// Writes a number in hexadecimal.
pub fn hex_text(n: u64) -> (r: String)
    ensures
        r@ == hex_number(n as nat),
{
    let mut r = "0x".to_owned();
    push_hex_digits(&mut r, n);
    r
}

/// A word of thirty-two bits in hexadecimal, at full width.
pub open spec fn hex_word(n: nat) -> Seq<char> {
    "0x"@ + text::hex(n, 8)
}

/// Writes a word in hexadecimal, at full width.
pub fn hex_word_text(n: u32) -> (r: String)
    ensures
        r@ == hex_word(n as nat),
{
    let mut r = "0x".to_owned();
    text::push_hex(&mut r, n as u64, 8);
    r
}

/// A reading in decimal, or that it could not be read.
pub open spec fn shown(v: Option<u32>) -> Seq<char> {
    match v {
        Some(n) => text::decimal(n as nat),
        None => "ro"@,
    }
}

/// Writes a reading of a word.
pub fn s32(v: Option<u32>) -> (r: String)
    ensures
        r@ == shown(v),
{
    match v {
        Some(n) => text::decimal_text(n as u64),
        None => "ro".to_owned(),
    }
}

/// A reading of a byte in decimal, or that it could not be read.
pub open spec fn shown_byte(v: Option<u8>) -> Seq<char> {
    match v {
        Some(n) => text::decimal(n as nat),
        None => "ro"@,
    }
}

/// Writes a reading of a byte.
pub fn s8(v: Option<u8>) -> (r: String)
    ensures
        r@ == shown_byte(v),
{
    match v {
        Some(n) => text::decimal_text(n as u64),
        None => "ro".to_owned(),
    }
}

/// An answer, or that there is none.
pub open spec fn shown_bool(v: Option<bool>) -> Seq<char> {
    match v {
        Some(b) => if b { "true"@ } else { "false"@ },
        None => "ro"@,
    }
}

/// Writes an answer.
pub fn sbool(v: Option<bool>) -> (r: String)
    ensures
        r@ == shown_bool(v),
{
    match v {
        Some(b) => if b {
            "true".to_owned()
        } else {
            "false".to_owned()
        },
        None => "ro".to_owned(),
    }
}

/// A reading of an address, or that it could not be read.
pub open spec fn shown_address(v: Option<u64>) -> Seq<char> {
    match v {
        Some(n) => hex_number(n as nat),
        None => "ro"@,
    }
}

/// Writes a reading of an address.
pub fn sptr(v: Option<u64>) -> (r: String)
    ensures
        r@ == shown_address(v),
{
    match v {
        Some(n) => hex_text(n),
        None => "ro".to_owned(),
    }
}

/// Bytes in hexadecimal, each one apart.
pub open spec fn spaced_hex(s: Seq<u8>) -> Seq<char>
    decreases s.len(),
{
    if s.len() == 0 {
        Seq::empty()
    } else if s.len() == 1 {
        text::hex(s[0] as nat, 2)
    } else {
        spaced_hex(s.drop_last()) + " "@ + text::hex(s.last() as nat, 2)
    }
}

/// Writes the first `n` bytes in hexadecimal, each one apart.
pub fn hex_preview(data: &[u8], n: usize) -> (r: String)
    ensures
        r@ == spaced_hex(if n < data@.len() { data@.take(n as int) } else { data@ }),
{
    let mut r = String::new();
    let mut i: usize = 0;
    assert(r@ =~= spaced_hex(data@.take(0)));
    while i < data.len() && i < n
        invariant
            i <= data@.len(),
            i <= n,
            r@ == spaced_hex(data@.take(i as int)),
        decreases data@.len() - i,
    {
        assert(data@.take(i + 1).drop_last() =~= data@.take(i as int));
        if i > 0 {
            r.append(" ");
        } else {
            assert(r@ =~= Seq::empty());
        }
        text::push_hex(&mut r, data[i] as u64, 2);
        assert(r@ =~= spaced_hex(data@.take(i + 1)));
        i += 1;
    }
    assert(data@.len() <= n ==> data@.take(i as int) =~= data@);
    r
}

/// The word at a place, where there are that many bytes.
pub open spec fn word_at(data: Seq<u8>, at: int) -> Option<nat> {
    if at + 4 <= data.len() { Some(bytes::from_le(data.subrange(at, at + 4))) } else { None }
}

/// Reads the word at a place.
pub fn u32le(data: &[u8], at: usize) -> (r: Option<u32>)
    ensures
        match r {
            Some(n) => word_at(data@, at as int) == Some(n as nat),
            None => word_at(data@, at as int) is None,
        },
{
    if data.len() < 4 || at > data.len() - 4 {
        return None;
    }
    let part = bytes::part(data, at, at + 4);
    proof {
        bytes::lemma_from_le_bound(part@);
        bytes::lemma_power256();
    }
    Some(bytes::read_le(part) as u32)
}

/// What is worth telling of a message by its first words and its length.
pub open spec fn hints(data: Seq<u8>) -> Seq<Seq<char>> {
    let op = word_at(data, 0);
    let sub = word_at(data, 4);
    let slot = word_at(data, 16);
    let a = match op {
        Some(n) => if n == 2 {
            seq!["op="@ + text::decimal(n), "dispatch"@]
        } else {
            seq!["op="@ + text::decimal(n)]
        },
        None => Seq::empty(),
    };
    let b = match sub {
        Some(n) => a.push("sub="@ + text::decimal(n)),
        None => a,
    };
    let c = match slot {
        Some(n) => if n <= 3 {
            b.push("dword@+10="@ + text::decimal(n))
        } else if n == 4 {
            b.push("WATCH_4 dword@+10=4"@)
        } else {
            b
        },
        None => b,
    };
    let d = if 764 <= data.len() < 812 { c.push("sz~0x2FC_chara"@) } else { c };
    if 784 <= data.len() < 832 { d.push("sz~cpu_chara"@) } else { d }
}

fn named_number(name: &str, n: u32) -> (r: String)
    ensures
        r@ == name@ + text::decimal(n as nat),
{
    let mut r = name.to_owned();
    text::push_decimal(&mut r, n as u64);
    r
}

pub fn put(v: &mut Vec<String>, t: String)
    ensures
        text::views(final(v)@) == text::views(old(v)@).push(t@),
{
    let ghost before = text::views(v@);
    v.push(t);
    assert(text::views(v@) =~= before.push(t@));
}

/// Tells what is worth telling of a message.
pub fn payload_hints(data: &[u8]) -> (r: String)
    ensures
        r@ == joined(hints(data@), " "@),
{
    let mut tags: Vec<String> = Vec::new();
    assert(text::views(tags@) =~= Seq::empty());
    if let Some(op) = u32le(data, 0) {
        put(&mut tags, named_number("op=", op));
        assert(text::views(tags@) =~= seq!["op="@ + text::decimal(op as nat)]);
        if op == 2 {
            put(&mut tags, "dispatch".to_owned());
            assert(text::views(tags@) =~= seq!["op="@ + text::decimal(op as nat), "dispatch"@]);
        }
    }
    if let Some(sub) = u32le(data, 4) {
        put(&mut tags, named_number("sub=", sub));
    }
    if let Some(slot) = u32le(data, 16) {
        if slot <= 3 {
            put(&mut tags, named_number("dword@+10=", slot));
        }
        if slot == 4 {
            put(&mut tags, "WATCH_4 dword@+10=4".to_owned());
        }
    }
    let len: usize = data.len();
    if 764 <= len && len < 812 {
        put(&mut tags, "sz~0x2FC_chara".to_owned());
    }
    if 784 <= len && len < 832 {
        put(&mut tags, "sz~cpu_chara".to_owned());
    }
    join(&tags, " ")
}

/// A visible character.
pub open spec fn is_graphic(b: u8) -> bool {
    33 <= b <= 126
}

/// The bytes before the first zero, at most `max` of them.
pub open spec fn leading(s: Seq<u8>, max: nat) -> Seq<u8>
    decreases s.len(),
{
    if s.len() == 0 || max == 0 || s[0] == 0 {
        Seq::empty()
    } else {
        seq![s[0]] + leading(s.drop_first(), (max - 1) as nat)
    }
}

/// The participant that a message names, where it is long enough to name one.
pub open spec fn named_entity(data: Seq<u8>) -> Seq<char> {
    if data.len() <= 34 {
        Seq::empty()
    } else {
        let raw = data.skip(34);
        let s = leading(raw, 32);
        if s.len() == 0 {
            " ent@+22=empty"@
        } else if forall|i: int| 0 <= i < s.len() ==> is_graphic(#[trigger] s[i]) {
            " ent@+22="@ + s.map_values(|b: u8| b as char)
        } else {
            " ent@+22hex=["@ + spaced_hex(if raw.len() > 16 { raw.take(16) } else { raw }) + "]"@
        }
    }
}

fn leading_bytes(s: &[u8], max: usize) -> (r: Vec<u8>)
    ensures
        r@ == leading(s@, max as nat),
{
    let mut r: Vec<u8> = Vec::new();
    let mut i: usize = 0;
    assert(s@.skip(0) =~= s@);
    assert(leading(s@, max as nat) =~= r@ + leading(s@.skip(0), max as nat));
    while i < s.len() && i < max && s[i] != 0
        invariant
            i <= s@.len(),
            i <= max,
            leading(s@, max as nat) == r@ + leading(s@.skip(i as int), (max - i) as nat),
        decreases s@.len() - i,
    {
        assert(s@.skip(i as int).drop_first() =~= s@.skip(i + 1));
        let ghost sofar = r@;
        r.push(s[i]);
        assert(sofar + (seq![s@[i as int]] + leading(s@.skip(i + 1), (max - i - 1) as nat))
            =~= r@ + leading(s@.skip(i + 1), (max - i - 1) as nat));
        i += 1;
    }
    assert(leading(s@.skip(i as int), (max - i) as nat) =~= Seq::empty());
    assert(r@ + Seq::<u8>::empty() =~= r@);
    r
}

/// Tells the participant that a message names.
pub fn opcode3_entity(data: &[u8]) -> (r: String)
    ensures
        r@ == named_entity(data@),
{
    if data.len() <= 34 {
        let r = String::new();
        assert(r@ =~= Seq::empty());
        return r;
    }
    let raw = bytes::part(data, 34, data.len());
    assert(raw@ =~= data@.skip(34));
    let s = leading_bytes(raw, 32);
    if s.len() == 0 {
        return " ent@+22=empty".to_owned();
    }
    let mut r = " ent@+22=".to_owned();
    let ghost start = r@;
    let ghost letters = s@.map_values(|b: u8| b as char);
    let mut i: usize = 0;
    assert(r@ =~= start + letters.take(0));
    while i < s.len()
        invariant
            i <= s@.len(),
            letters == s@.map_values(|b: u8| b as char),
            s@ == leading(data@.skip(34), 32),
            raw@ == data@.skip(34),
            data@.len() > 34,
            s@.len() > 0,
            r@ == start + letters.take(i as int),
            forall|j: int| 0 <= j < i ==> is_graphic(#[trigger] s@[j]),
        decreases s@.len() - i,
    {
        if s[i] < 33 || s[i] > 126 {
            assert(!is_graphic(s@[i as int]));
            let mut h = " ent@+22hex=[".to_owned();
            h.append(hex_preview(raw, 16).as_str());
            h.append("]");
            return h;
        }
        r.push(s[i] as char);
        assert(letters[i as int] == s@[i as int] as char);
        assert(r@ =~= start + letters.take(i + 1));
        i += 1;
    }
    assert(letters.take(i as int) =~= letters);
    r
}

/// How often each kind occurred, where it did.
pub open spec fn count_words(counts: Seq<u64>) -> Seq<Seq<char>>
    decreases counts.len(),
{
    if counts.len() == 0 {
        Seq::empty()
    } else if counts.last() > 0 {
        count_words(counts.drop_last()).push(
            text::decimal((counts.len() - 1) as nat) + "x"@ + text::decimal(counts.last() as nat),
        )
    } else {
        count_words(counts.drop_last())
    }
}

/// Texts with blanks between, or a stroke where there are none.
pub open spec fn words_or(v: Seq<Seq<char>>, none: Seq<char>, between: Seq<char>) -> Seq<char> {
    if v.len() == 0 { none } else { joined(v, between) }
}

/// Tells how often each kind occurred.
pub fn fmt_type_counts(counts: &Vec<u64>) -> (r: String)
    ensures
        r@ == words_or(count_words(counts@), "-"@, " "@),
{
    let mut parts: Vec<String> = Vec::new();
    let mut i: usize = 0;
    assert(text::views(parts@) =~= count_words(counts@.take(0)));
    while i < counts.len()
        invariant
            i <= counts@.len(),
            text::views(parts@) == count_words(counts@.take(i as int)),
        decreases counts@.len() - i,
    {
        assert(counts@.take(i + 1).drop_last() =~= counts@.take(i as int));
        if counts[i] > 0 {
            let mut t = text::decimal_text(i as u64);
            t.append("x");
            text::push_decimal(&mut t, counts[i]);
            put(&mut parts, t);
        }
        i += 1;
    }
    assert(counts@.take(i as int) =~= counts@);
    assert(text::views(parts@).len() == parts@.len());
    if parts.len() == 0 {
        "-".to_owned()
    } else {
        join(&parts, " ")
    }
}

}
