//! The values that the lobby client reads out of the broker's replies, byte by byte, and the
//! strings that it writes into its requests.
use crate::assoc;
use crate::bytes;
use crate::http;
use crate::json;
use crate::scan;
use crate::text;
use vstd::prelude::*;
use vstd::utf8::encode_utf8;

verus! {

/// How many members of an object are read.
pub const MEMBER_CAP: usize = 64;

pub open spec fn is_white(c: u8) -> bool {
    c == 0x20 || c == 0x09 || c == 0x0a || c == 0x0c || c == 0x0d
}

/// The first place from `i` on that is not white space.
pub open spec fn past_white(b: Seq<u8>, i: int) -> int
    decreases b.len() - i,
{
    if 0 <= i < b.len() && is_white(b[i]) { past_white(b, i + 1) } else { i }
}

fn skip_ws(b: &[u8], i: usize) -> (r: usize)
    requires
        i <= b@.len(),
    ensures
        r == past_white(b@, i as int),
        i <= r <= b@.len(),
{
    let mut k: usize = i;
    while k < b.len() && (b[k] == 0x20 || b[k] == 0x09 || b[k] == 0x0a || b[k] == 0x0c || b[k]
        == 0x0d)
        invariant
            i <= k <= b@.len(),
            past_white(b@, k as int) == past_white(b@, i as int),
        decreases b@.len() - k,
    {
        k += 1;
    }
    k
}

/// What a hexadecimal digit stands for.
pub open spec fn hex_digit(c: u8) -> Option<nat> {
    if 0x30 <= c <= 0x39 {
        Some((c - 0x30) as nat)
    } else if 0x61 <= c <= 0x66 {
        Some((c - 0x57) as nat)
    } else if 0x41 <= c <= 0x46 {
        Some((c - 0x37) as nat)
    } else {
        None
    }
}

/// The number that hexadecimal digits stand for.
pub open spec fn hex_digits(b: Seq<u8>) -> Option<nat>
    decreases b.len(),
{
    if b.len() == 0 {
        Some(0)
    } else {
        match (hex_digits(b.drop_last()), hex_digit(b.last())) {
            (Some(n), Some(d)) => Some(16 * n + d),
            _ => None,
        }
    }
}

/// The number in the bytes of an escape: at least one digit, with a plus sign before them if
/// wanted.
pub open spec fn escape_number(b: Seq<u8>) -> Option<nat> {
    let d = if b.len() > 0 && b[0] == 0x2b { b.drop_first() } else { b };
    if d.len() == 0 { None } else { hex_digits(d) }
}

/// The bytes of the character with a number below 2^16; a surrogate is no character.
pub open spec fn char_bytes(n: nat) -> Seq<u8> {
    if n < 0x80 {
        seq![n as u8]
    } else if n < 0x800 {
        seq![(0xc0 + n / 64) as u8, (0x80 + n % 64) as u8]
    } else if 0xd800 <= n < 0xe000 {
        Seq::empty()
    } else {
        seq![(0xe0 + n / 4096) as u8, (0x80 + (n / 64) % 64) as u8, (0x80 + n % 64) as u8]
    }
}

/// The bytes that an escape by number stands for.
pub open spec fn escape_bytes(b: Seq<u8>) -> Seq<u8> {
    match escape_number(b) {
        Some(n) => char_bytes(n),
        None => Seq::empty(),
    }
}

/// The byte that a backslash and this byte stand for.
pub open spec fn unescaped(c: u8) -> u8 {
    if c == 0x6e {
        0x0a
    } else if c == 0x72 {
        0x0d
    } else if c == 0x74 {
        0x09
    } else {
        c
    }
}

/// Where the digits of an escape by number end.
pub open spec fn digits_end(b: Seq<u8>, i: int) -> int {
    if i + 4 <= b.len() { i + 4 } else { b.len() as int }
}

/// The contents of a string from place `i` on, after `out`, and the place behind its closing
/// quotation mark. A string that does not end is none.
pub open spec fn string_from(b: Seq<u8>, i: int, out: Seq<u8>) -> Option<(Seq<u8>, int)>
    decreases b.len() - i,
{
    if i < 0 || i >= b.len() {
        None
    } else if b[i] == 0x5c {
        if i + 1 >= b.len() {
            None
        } else if b[i + 1] == 0x75 {
            let e = digits_end(b, i + 2);
            string_from(b, e, out + escape_bytes(b.subrange(i + 2, e)))
        } else {
            string_from(b, i + 2, out.push(unescaped(b[i + 1])))
        }
    } else if b[i] == 0x22 {
        Some((out, i + 1))
    } else {
        string_from(b, i + 1, out.push(b[i]))
    }
}

/// A string ends behind where it starts, and within the text.
pub proof fn lemma_string_from(b: Seq<u8>, i: int, out: Seq<u8>)
    requires
        0 <= i,
    ensures
        match string_from(b, i, out) {
            Some(r) => i < r.1 <= b.len(),
            None => true,
        },
    decreases b.len() - i,
{
    if i < b.len() {
        if b[i] == 0x5c {
            if i + 1 < b.len() {
                if b[i + 1] == 0x75 {
                    let e = digits_end(b, i + 2);
                    lemma_string_from(b, e, out + escape_bytes(b.subrange(i + 2, e)));
                } else {
                    lemma_string_from(b, i + 2, out.push(unescaped(b[i + 1])));
                }
            }
        } else if b[i] != 0x22 {
            lemma_string_from(b, i + 1, out.push(b[i]));
        }
    }
}

/// The string that starts at place `i`, and the place behind it.
pub open spec fn string_at(b: Seq<u8>, i: int) -> Option<(Seq<char>, int)> {
    if 0 <= i < b.len() && b[i] == 0x22 {
        match string_from(b, i + 1, Seq::empty()) {
            Some(r) => Some((bytes::text_of(r.0), r.1)),
            None => None,
        }
    } else {
        None
    }
}

/// Reads the number in the bytes of an escape.
fn read_escape(b: &[u8]) -> (r: Option<u32>)
    requires
        b@.len() <= 4,
    ensures
        match r {
            Some(n) => escape_number(b@) == Some(n as nat) && n < 0x1_0000,
            None => escape_number(b@) is None,
        },
{
    let d = if b.len() > 0 && b[0] == 0x2b {
        let t = bytes::part(b, 1, b.len());
        assert(t@ =~= b@.drop_first());
        t
    } else {
        b
    };
    if d.len() == 0 {
        return None;
    }
    let mut n: u32 = 0;
    let mut bound: u32 = 1;
    let mut i: usize = 0;
    assert(d@.take(0) =~= Seq::empty());
    while i < d.len()
        invariant
            i <= d@.len() <= 4,
            escape_number(b@) == hex_digits(d@),
            hex_digits(d@.take(i as int)) == Some(n as nat),
            n < bound,
            bound <= 0x1_0000,
            i == 0 ==> bound == 1,
            i == 1 ==> bound == 0x10,
            i == 2 ==> bound == 0x100,
            i == 3 ==> bound == 0x1000,
            i == 4 ==> bound == 0x1_0000,
        decreases d@.len() - i,
    {
        assert(d@.take(i + 1).drop_last() =~= d@.take(i as int));
        let c: u8 = d[i];
        let v: u32 = if 0x30 <= c && c <= 0x39 {
            (c - 0x30) as u32
        } else if 0x61 <= c && c <= 0x66 {
            (c - 0x57) as u32
        } else if 0x41 <= c && c <= 0x46 {
            (c - 0x37) as u32
        } else {
            proof {
                assert(d@.take(i + 1).last() == c);
                assert(hex_digit(c) is None);
                lemma_hex_prefix(d@, i + 1);
            }
            return None;
        };
        n = 16 * n + v;
        bound = 16 * bound;
        i += 1;
    }
    assert(d@.take(i as int) =~= d@);
    Some(n)
}

proof fn lemma_hex_prefix(b: Seq<u8>, k: int)
    requires
        0 <= k <= b.len(),
        hex_digits(b.take(k)) is None,
    ensures
        hex_digits(b) is None,
    decreases b.len() - k,
{
    if k < b.len() {
        assert(b.take(k + 1).drop_last() =~= b.take(k));
        lemma_hex_prefix(b, k + 1);
    } else {
        assert(b.take(k) =~= b);
    }
}

/// Writes the bytes of the character with a number.
fn push_char(out: &mut Vec<u8>, n: u32)
    requires
        n < 0x1_0000,
    ensures
        final(out)@ == old(out)@ + char_bytes(n as nat),
{
    if n < 0x80 {
        out.push(n as u8);
    } else if n < 0x800 {
        out.push((0xc0 + n / 64) as u8);
        out.push((0x80 + n % 64) as u8);
    } else if n < 0xd800 || n >= 0xe000 {
        out.push((0xe0 + n / 4096) as u8);
        out.push((0x80 + (n / 64) % 64) as u8);
        out.push((0x80 + n % 64) as u8);
    }
    assert(out@ =~= old(out)@ + char_bytes(n as nat));
}

/// Reads the string that starts at place `i`. Gives it and the place behind it; a string that does
/// not end is read to the end of the text, and where none starts nothing is read.
pub fn parse_json_string(b: &[u8], i: usize) -> (r: (Option<String>, usize))
    ensures
        match r.0 {
            Some(t) => string_at(b@, i as int) == Some((t@, r.1 as int)),
            None => string_at(b@, i as int) is None && r.1 == (if i < b@.len() && b@[i as int]
                == 0x22 {
                b@.len() as int
            } else {
                i as int
            }),
        },
        i < b@.len() && b@[i as int] == 0x22 ==> i < r.1 <= b@.len(),
{
    let n: usize = b.len();
    if i >= n || b[i] != 0x22 {
        return (None, i);
    }
    let mut out: Vec<u8> = Vec::new();
    let mut k: usize = i + 1;
    assert(out@ =~= Seq::empty());
    while k < n
        invariant
            i < k <= n,
            n == b@.len(),
            i < b@.len(),
            b@[i as int] == 0x22,
            string_from(b@, k as int, out@) == string_from(b@, i + 1, Seq::empty()),
        decreases n - k,
    {
        let c: u8 = b[k];
        if c == 0x5c {
            k += 1;
            if k >= n {
                return (None, n);
            }
            if b[k] == 0x75 {
                k += 1;
                let e: usize = if n - k >= 4 { k + 4 } else { n };
                let part = bytes::part(b, k, e);
                let ghost before = out@;
                match read_escape(part) {
                    Some(m) => push_char(&mut out, m),
                    None => {
                        assert(out@ =~= before + Seq::empty());
                    },
                }
                assert(out@ == before + escape_bytes(part@));
                k = e;
            } else {
                let d: u8 = b[k];
                out.push(
                    if d == 0x6e {
                        0x0a
                    } else if d == 0x72 {
                        0x0d
                    } else if d == 0x74 {
                        0x09
                    } else {
                        d
                    },
                );
                k += 1;
            }
        } else if c == 0x22 {
            return (Some(bytes::decode(out.as_slice())), k + 1);
        } else {
            out.push(c);
            k += 1;
        }
    }
    (None, n)
}

/// The place behind an object or a list: where its brackets are closed again, of which so many are
/// open, without those in strings.
pub open spec fn nested_end(b: Seq<u8>, i: int, depth: int, in_string: bool, escaped: bool) -> int
    decreases b.len() - i,
{
    if i < 0 || i >= b.len() {
        i
    } else if in_string {
        if escaped {
            nested_end(b, i + 1, depth, true, false)
        } else if b[i] == 0x5c {
            nested_end(b, i + 1, depth, true, true)
        } else {
            nested_end(b, i + 1, depth, b[i] != 0x22, false)
        }
    } else if b[i] == 0x22 {
        nested_end(b, i + 1, depth, true, false)
    } else if b[i] == 0x7b || b[i] == 0x5b {
        nested_end(b, i + 1, depth + 1, false, false)
    } else if b[i] == 0x7d || b[i] == 0x5d {
        if depth == 1 { i + 1 } else { nested_end(b, i + 1, depth - 1, false, false) }
    } else {
        nested_end(b, i + 1, depth, false, false)
    }
}

/// The place behind an object or a list.
fn skip_nested(b: &[u8], i: usize) -> (r: usize)
    requires
        i < b@.len(),
    ensures
        r == nested_end(b@, i as int, 0, false, false),
        i < r <= b@.len(),
{
    let n: usize = b.len();
    let mut k: usize = i;
    let mut depth: i128 = 0;
    let mut in_string = false;
    let mut escaped = false;
    while k < n
        invariant
            i <= k <= n,
            n == b@.len(),
            i < n,
            -k <= depth <= k,
            !in_string ==> !escaped,
            nested_end(b@, k as int, depth as int, in_string, escaped) == nested_end(
                b@,
                i as int,
                0,
                false,
                false,
            ),
        decreases n - k,
    {
        let c: u8 = b[k];
        if in_string {
            if escaped {
                escaped = false;
            } else if c == 0x5c {
                escaped = true;
            } else if c == 0x22 {
                in_string = false;
            }
        } else if c == 0x22 {
            in_string = true;
        } else if c == 0x7b || c == 0x5b {
            depth = depth + 1;
        } else if c == 0x7d || c == 0x5d {
            depth = depth - 1;
            if depth == 0 {
                return k + 1;
            }
        }
        k += 1;
    }
    n
}

/// A byte that ends a number or a word.
pub open spec fn ends_word(c: u8) -> bool {
    c == 0x2c || c == 0x7d || c == 0x5d || is_white(c)
}

/// The place behind a number or a word.
pub open spec fn word_end(b: Seq<u8>, i: int) -> int
    decreases b.len() - i,
{
    if 0 <= i < b.len() && !ends_word(b[i]) { word_end(b, i + 1) } else { i }
}

/// The value from place `i` on, as text, and the place behind it. Of a string these are the
/// contents, of anything else what is written.
pub open spec fn value_at(b: Seq<u8>, i: int) -> (Seq<char>, int) {
    let k = past_white(b, i);
    if k >= b.len() {
        (Seq::empty(), k)
    } else if b[k] == 0x22 {
        match string_at(b, k) {
            Some(r) => r,
            None => (Seq::empty(), b.len() as int),
        }
    } else {
        let e = if b[k] == 0x7b || b[k] == 0x5b {
            nested_end(b, k, 0, false, false)
        } else {
            word_end(b, k)
        };
        (bytes::text_of(b.subrange(k, e)), e)
    }
}

/// Reads the value from place `i` on.
pub fn parse_json_value(b: &[u8], i: usize) -> (r: (String, usize))
    requires
        i <= b@.len(),
    ensures
        (r.0@, r.1 as int) == value_at(b@, i as int),
        i <= r.1 <= b@.len(),
{
    let n: usize = b.len();
    let k: usize = skip_ws(b, i);
    if k >= n {
        let r = String::new();
        assert(r@ =~= Seq::empty());
        return (r, k);
    }
    if b[k] == 0x22 {
        let (t, e) = parse_json_string(b, k);
        return match t {
            Some(t) => (t, e),
            None => {
                let r = String::new();
                assert(r@ =~= Seq::empty());
                (r, e)
            },
        };
    }
    let e: usize = if b[k] == 0x7b || b[k] == 0x5b {
        skip_nested(b, k)
    } else {
        let mut e: usize = k;
        while e < n && !(b[e] == 0x2c || b[e] == 0x7d || b[e] == 0x5d || b[e] == 0x20 || b[e]
            == 0x09 || b[e] == 0x0a || b[e] == 0x0c || b[e] == 0x0d)
            invariant
                k <= e <= n,
                n == b@.len(),
                word_end(b@, e as int) == word_end(b@, k as int),
            decreases n - e,
        {
            e += 1;
        }
        e
    };
    (bytes::decode(bytes::part(b, k, e)), e)
}

/// Where the value of the first member with a name stands.
pub open spec fn value_place(b: Seq<u8>, key: Seq<char>) -> Option<int> {
    let p = vstd::utf8::encode_utf8(scan::quoted_name(key, "\":"@));
    match http::find_bytes(b, p) {
        Some(i) => Some(past_white(b, i + p.len())),
        None => None,
    }
}

/// Finds the value of the first member with a name.
fn find_value(b: &[u8], key: &str) -> (r: Option<usize>)
    ensures
        match r {
            Some(i) => value_place(b@, key@) == Some(i as int) && i <= b@.len(),
            None => value_place(b@, key@) is None,
        },
{
    let p = text::text_of(scan::name_pattern(key, "\":").as_slice());
    let pb = p.as_str().as_bytes();
    match http::position_of(b, pb) {
        Some(i) => Some(skip_ws(b, i + pb.len())),
        None => None,
    }
}

/// The value of the first member with a name, as text. Nothing and the word `null` are no value.
pub open spec fn field(b: Seq<u8>, key: Seq<char>) -> Option<Seq<char>> {
    match value_place(b, key) {
        Some(i) => if i < b.len() && b[i] == 0x22 {
            match string_at(b, i) {
                Some(r) => Some(r.0),
                None => None,
            }
        } else {
            let v = value_at(b, i).0;
            if v.len() == 0 || v == "null"@ { None } else { Some(v) }
        },
        None => None,
    }
}

/// Reads the value of the first member with a name.
pub fn json_str(b: &[u8], key: &str) -> (r: Option<String>)
    ensures
        scan::opt_text(r) == field(b@, key@),
{
    match find_value(b, key) {
        Some(i) => {
            if i < b.len() && b[i] == 0x22 {
                parse_json_string(b, i).0
            } else {
                let (v, e) = parse_json_value(b, i);
                if text::is_empty(v.as_str()) || text::eq(v.as_str(), "null") {
                    None
                } else {
                    Some(v)
                }
            }
        },
        None => None,
    }
}

/// The members of an object from place `i` on, after `m`. Names that are empty are left out, a
/// name that comes again has its last value, and reading ends at the first thing that is no member
/// or with the last one that is read.
pub open spec fn members_from(b: Seq<u8>, i: int, m: Seq<(Seq<char>, Seq<char>)>) -> Seq<
    (Seq<char>, Seq<char>),
>
    decreases b.len() - i,
{
    proof {
        lemma_past_white(b, i);
    }
    let k = past_white(b, i);
    if i < 0 || k >= b.len() || b[k] == 0x7d {
        m
    } else if b[k] == 0x2c {
        members_from(b, k + 1, m)
    } else {
        match string_at(b, k) {
            Some(r) => {
                proof {
                    lemma_string_from(b, k + 1, Seq::empty());
                    lemma_past_white(b, r.1);
                }
                let c = past_white(b, r.1);
                if c >= b.len() || b[c] != 0x3a {
                    m
                } else {
                    proof {
                        lemma_value_at(b, c + 1);
                    }
                    let v = value_at(b, c + 1);
                    let n = if r.0.len() > 0 { assoc::with(m, r.0, v.0) } else { m };
                    if n.len() >= MEMBER_CAP {
                        n
                    } else {
                        members_from(b, v.1, n)
                    }
                }
            },
            None => m,
        }
    }
}

pub proof fn lemma_past_white(b: Seq<u8>, i: int)
    ensures
        past_white(b, i) >= i,
        i <= b.len() ==> past_white(b, i) <= b.len(),
    decreases b.len() - i,
{
    if 0 <= i < b.len() && is_white(b[i]) {
        lemma_past_white(b, i + 1);
    }
}

pub proof fn lemma_nested_end(b: Seq<u8>, i: int, depth: int, in_string: bool, escaped: bool)
    requires
        0 <= i,
    ensures
        nested_end(b, i, depth, in_string, escaped) >= i,
        i <= b.len() ==> nested_end(b, i, depth, in_string, escaped) <= b.len(),
    decreases b.len() - i,
{
    if i < b.len() {
        if in_string {
            if escaped {
                lemma_nested_end(b, i + 1, depth, true, false);
            } else if b[i] == 0x5c {
                lemma_nested_end(b, i + 1, depth, true, true);
            } else {
                lemma_nested_end(b, i + 1, depth, b[i] != 0x22, false);
            }
        } else if b[i] == 0x22 {
            lemma_nested_end(b, i + 1, depth, true, false);
        } else if b[i] == 0x7b || b[i] == 0x5b {
            lemma_nested_end(b, i + 1, depth + 1, false, false);
        } else if b[i] == 0x7d || b[i] == 0x5d {
            if depth != 1 {
                lemma_nested_end(b, i + 1, depth - 1, false, false);
            }
        } else {
            lemma_nested_end(b, i + 1, depth, false, false);
        }
    }
}

pub proof fn lemma_word_end(b: Seq<u8>, i: int)
    ensures
        word_end(b, i) >= i,
        i <= b.len() ==> word_end(b, i) <= b.len(),
    decreases b.len() - i,
{
    if 0 <= i < b.len() && !ends_word(b[i]) {
        lemma_word_end(b, i + 1);
    }
}

/// A value ends where it starts or behind that.
pub proof fn lemma_value_at(b: Seq<u8>, i: int)
    requires
        0 <= i <= b.len(),
    ensures
        i <= value_at(b, i).1 <= b.len(),
{
    lemma_past_white(b, i);
    let k = past_white(b, i);
    lemma_nested_end(b, k, 0, false, false);
    lemma_word_end(b, k);
    lemma_string_from(b, k + 1, Seq::empty());
}

/// The members of the object under a name.
pub open spec fn object_field(b: Seq<u8>, key: Seq<char>) -> Seq<(Seq<char>, Seq<char>)> {
    match value_place(b, key) {
        Some(i) => if i < b.len() && b[i] == 0x7b {
            members_from(b, i + 1, Seq::empty())
        } else {
            Seq::empty()
        },
        None => Seq::empty(),
    }
}

/// Reads the members of the object under a name.
pub fn json_obj(b: &[u8], key: &str) -> (r: Vec<(String, String)>)
    ensures
        assoc::pairs(r@) == object_field(b@, key@),
        assoc::distinct(assoc::pairs(r@)),
{
    let n: usize = b.len();
    let mut m: Vec<(String, String)> = Vec::new();
    assert(assoc::pairs(m@) =~= Seq::empty());
    let start: usize = match find_value(b, key) {
        Some(i) => i,
        None => {
            return m;
        },
    };
    if start >= n || b[start] != 0x7b {
        return m;
    }
    let mut i: usize = start + 1;
    let mut more = true;
    let ghost whole = members_from(b@, start + 1, Seq::empty());
    while more
        invariant
            i <= n,
            n == b@.len(),
            more ==> whole == members_from(b@, i as int, assoc::pairs(m@)),
            !more ==> whole == assoc::pairs(m@),
            assoc::distinct(assoc::pairs(m@)),
        decreases n - i + (if more { 1int } else { 0 }),
    {
        let ghost from = i as int;
        let k: usize = skip_ws(b, i);
        if k >= n || b[k] == 0x7d {
            more = false;
        } else if b[k] == 0x2c {
            i = k + 1;
        } else if b[k] != 0x22 {
            more = false;
        } else {
            let (t, e) = parse_json_string(b, k);
            match t {
                None => {
                    more = false;
                },
                Some(name) => {
                    let c: usize = skip_ws(b, e);
                    if c >= n || b[c] != 0x3a {
                        more = false;
                    } else {
                        let (v, after) = parse_json_value(b, c + 1);
                        if !text::is_empty(name.as_str()) {
                            proof {
                                assoc::set_is_found(assoc::pairs(m@), name@, v@, name@);
                            }
                            assoc::put(&mut m, name.as_str(), v);
                        }
                        i = after;
                        assert(assoc::pairs(m@).len() == m@.len());
                        if m.len() >= MEMBER_CAP {
                            more = false;
                        }
                    }
                },
            }
        }
    }
    m
}

/// The number under a name.
pub open spec fn number_field(b: Seq<u8>, key: Seq<char>) -> Option<nat> {
    match field(b, key) {
        Some(t) => text::unsigned(t, u32::MAX as nat),
        None => None,
    }
}

/// Reads the number under a name.
pub fn json_u32(b: &[u8], key: &str) -> (r: Option<u32>)
    ensures
        match r {
            Some(n) => number_field(b@, key@) == Some(n as nat),
            None => number_field(b@, key@) is None,
        },
{
    match json_str(b, key) {
        Some(t) => match text::parse_unsigned(
            text::chars_of(t.as_str()).as_slice(),
            0xffff_ffff,
        ) {
            Some(n) => Some(n as u32),
            None => None,
        },
        None => None,
    }
}

/// How many players a lobby takes, as a reply tells: between 2 and 32, and 8 where it does not
/// tell.
pub open spec fn told_max(b: Seq<u8>) -> u32 {
    let n = match number_field(b, "MaxPlayers"@) {
        Some(n) => n,
        None => match number_field(b, "max_member"@) {
            Some(n) => n,
            None => 8,
        },
    };
    if n < 2 {
        2
    } else if n > 32 {
        32
    } else {
        n as u32
    }
}

/// Reads how many players a lobby takes.
pub fn json_max_players(b: &[u8]) -> (r: u32)
    ensures
        r == told_max(b@),
        2 <= r <= 32,
{
    let n: u32 = match json_u32(b, "MaxPlayers") {
        Some(n) => n,
        None => match json_u32(b, "max_member") {
            Some(n) => n,
            None => 8,
        },
    };
    if n < 2 {
        2
    } else if n > 32 {
        32
    } else {
        n
    }
}

/// A byte as it is written in a string.
pub open spec fn escaped_byte(c: u8) -> Seq<u8> {
    if c == 0x22 || c == 0x5c {
        seq![0x5cu8, c]
    } else if c == 0x0a {
        seq![0x5cu8, 0x6eu8]
    } else if c == 0x0d {
        seq![0x5cu8, 0x72u8]
    } else if c == 0x09 {
        seq![0x5cu8, 0x74u8]
    } else if c < 0x20 {
        seq![0x5cu8, 0x75u8, 0x30u8, 0x30u8, (0x30 + c / 16) as u8, lower_hex((c % 16) as u8)]
    } else {
        seq![c]
    }
}

/// A hexadecimal digit.
pub open spec fn lower_hex(d: u8) -> u8 {
    if d < 10 { (0x30 + d) as u8 } else { (0x57 + d) as u8 }
}

/// Bytes as they are written in a string.
pub open spec fn escaped(b: Seq<u8>) -> Seq<u8>
    decreases b.len(),
{
    if b.len() == 0 { Seq::empty() } else { escaped_byte(b[0]) + escaped(b.drop_first()) }
}

/// Writes bytes as they stand in a string.
pub fn json_escape(out: &mut Vec<u8>, b: &[u8])
    ensures
        final(out)@ == old(out)@ + escaped(b@),
{
    let mut i: usize = 0;
    assert(b@.skip(0) =~= b@);
    assert(out@ + escaped(b@) =~= old(out)@ + escaped(b@));
    while i < b.len()
        invariant
            i <= b@.len(),
            out@ + escaped(b@.skip(i as int)) == old(out)@ + escaped(b@),
        decreases b@.len() - i,
    {
        let ghost sofar = out@;
        let ghost rest = b@.skip(i as int);
        let c: u8 = b[i];
        if c == 0x22 || c == 0x5c {
            out.push(0x5c);
            out.push(c);
        } else if c == 0x0a {
            out.push(0x5c);
            out.push(0x6e);
        } else if c == 0x0d {
            out.push(0x5c);
            out.push(0x72);
        } else if c == 0x09 {
            out.push(0x5c);
            out.push(0x74);
        } else if c < 0x20 {
            out.push(0x5c);
            out.push(0x75);
            out.push(0x30);
            out.push(0x30);
            out.push(0x30 + c / 16);
            let d: u8 = c % 16;
            out.push(if d < 10 { 0x30 + d } else { 0x57 + d });
        } else {
            out.push(c);
        }
        assert(out@ =~= sofar + escaped_byte(c));
        assert(rest.drop_first() =~= b@.skip(i + 1));
        assert(out@ + escaped(rest.drop_first()) =~= sofar + escaped(rest));
        i += 1;
    }
    assert(out@ + escaped(b@.skip(i as int)) =~= out@);
}

/// A byte as it is written in a string is read as that byte.
proof fn lemma_reads_byte(b: Seq<u8>, i: int, c: u8, out: Seq<u8>)
    requires
        0 <= i,
        i + escaped_byte(c).len() <= b.len(),
        b.subrange(i, i + escaped_byte(c).len()) == escaped_byte(c),
    ensures
        string_from(b, i, out) == string_from(b, i + escaped_byte(c).len(), out.push(c)),
{
    let e = escaped_byte(c);
    let here = b.subrange(i, i + e.len());
    assert(b[i] == here[0]);
    if e.len() == 6 {
        assert(b[i + 1] == here[1]);
        let d = b.subrange(i + 2, i + 6);
        assert(d =~= here.subrange(2, 6));
        lemma_reads_digits(c);
        assert(d =~= seq![0x30u8, 0x30u8, (0x30 + c / 16) as u8, lower_hex((c % 16) as u8)]);
        assert(out + seq![c] =~= out.push(c));
    } else if e.len() == 2 {
        assert(b[i + 1] == here[1]);
        assert(unescaped(here[1]) == c);
    }
}

/// The digits of a control character stand for it.
proof fn lemma_reads_digits(c: u8)
    requires
        c < 0x20,
    ensures
        escape_bytes(
            seq![0x30u8, 0x30u8, (0x30 + c / 16) as u8, lower_hex((c % 16) as u8)],
        ) == seq![c],
{
    let d = seq![0x30u8, 0x30u8, (0x30 + c / 16) as u8, lower_hex((c % 16) as u8)];
    reveal_with_fuel(hex_digits, 5);
    assert(d.drop_last() =~= seq![0x30u8, 0x30u8, (0x30 + c / 16) as u8]);
    assert(d.drop_last().drop_last() =~= seq![0x30u8, 0x30u8]);
    assert(d.drop_last().drop_last().drop_last() =~= seq![0x30u8]);
    assert(d.drop_last().drop_last().drop_last().drop_last() =~= Seq::empty());
    assert(hex_digits(d) == Some(c as nat));
    assert(char_bytes(c as nat) =~= seq![c]);
}

/// What is written as a string is read back from it, whatever stands before and behind it.
pub proof fn escaped_reads_back(before: Seq<u8>, s: Seq<u8>, after: Seq<u8>, out: Seq<u8>)
    ensures
        string_from(
            before + escaped(s) + seq![0x22u8] + after,
            before.len() as int,
            out,
        ) == Some((out + s, before.len() + escaped(s).len() + 1int)),
    decreases s.len(),
{
    let b = before + escaped(s) + seq![0x22u8] + after;
    let i = before.len() as int;
    if s.len() == 0 {
        assert(escaped(s) =~= Seq::empty());
        assert(b[i] == 0x22);
        assert(out + s =~= out);
    } else {
        let c = s[0];
        let e = escaped_byte(c);
        let rest = s.drop_first();
        assert(b =~= (before + e) + escaped(rest) + seq![0x22u8] + after);
        escaped_reads_back(before + e, rest, after, out.push(c));
        assert(out.push(c) + rest =~= out + s);
        assert(b.subrange(i, i + e.len()) =~= e);
        lemma_reads_byte(b, i, c, out);
    }
}

/// A text that is written as a string value is the text that is read there.
pub proof fn string_reads_back(before: Seq<u8>, t: Seq<char>, after: Seq<u8>)
    ensures
        string_at(
            before + seq![0x22u8] + escaped(vstd::utf8::encode_utf8(t)) + seq![0x22u8] + after,
            before.len() as int,
        ) == Some(
            (t, before.len() + escaped(vstd::utf8::encode_utf8(t)).len() + 2int),
        ),
{
    let s = vstd::utf8::encode_utf8(t);
    let b = before + seq![0x22u8] + escaped(s) + seq![0x22u8] + after;
    escaped_reads_back(before + seq![0x22u8], s, after, Seq::empty());
    assert(b[before.len() as int] == 0x22);
    assert(Seq::<u8>::empty() + s =~= s);
    bytes::text_reads_back(t);
}

/// Bytes one after the other are written one after the other.
proof fn lemma_escaped_concat(a: Seq<u8>, b: Seq<u8>)
    ensures
        escaped(a + b) == escaped(a) + escaped(b),
    decreases a.len(),
{
    if a.len() == 0 {
        assert(a + b =~= b);
        assert(escaped(a) + escaped(b) =~= escaped(b));
    } else {
        lemma_escaped_concat(a.drop_first(), b);
        assert((a + b).drop_first() =~= a.drop_first() + b);
        assert(escaped(a + b) =~= escaped(a) + escaped(b));
    }
}

/// Texts one after the other are encoded one after the other.
pub proof fn lemma_encode_concat(a: Seq<char>, b: Seq<char>)
    ensures
        encode_utf8(a + b) == encode_utf8(a) + encode_utf8(b),
    decreases a.len(),
{
    if a.len() == 0 {
        assert(a + b =~= b);
        assert(encode_utf8(a) + encode_utf8(b) =~= encode_utf8(b));
    } else {
        lemma_encode_concat(a.drop_first(), b);
        assert((a + b).drop_first() =~= a.drop_first() + b);
        assert(encode_utf8(a + b) =~= encode_utf8(a) + encode_utf8(b));
    }
}

/// The bytes of a character outside ASCII are no control characters, quotes or backslashes.
proof fn lemma_wide_bytes(c: u32)
    by (bit_vector)
    requires
        c >= 0x80,
        c < 0x11_0000,
    ensures
        c < 0x800 ==> vstd::utf8::leading_byte_width_2(c) >= 0x80,
        c >= 0x800 && c < 0x1_0000 ==> vstd::utf8::leading_byte_width_3(c) >= 0x80,
        c >= 0x1_0000 ==> vstd::utf8::leading_byte_width_4(c) >= 0x80,
        vstd::utf8::last_continuation_byte(c) >= 0x80,
        vstd::utf8::second_last_continuation_byte(c) >= 0x80,
        vstd::utf8::third_last_continuation_byte(c) >= 0x80,
{
}

/// A character is written in both ways alike, backspace and form feed apart.
proof fn lemma_escaped_char(c: char)
    requires
        c != '\u{8}',
        c != '\u{c}',
    ensures
        encode_utf8(json::escaped_char(c)) == escaped(vstd::utf8::encode_scalar(c as u32)),
{
    let n = c as u32;
    let one = vstd::utf8::encode_scalar(n);
    vstd::utf8::char_is_scalar(c);
    reveal_with_fuel(escaped, 5);
    if n < 0x80 {
        let e = json::escaped_char(c);
        assert(n & 0x7f == n) by (bit_vector)
            requires
                n < 0x80,
        ;
        assert(one =~= seq![n as u8]);
        assert(one.drop_first() =~= Seq::empty());
        assert(vstd::utf8::is_ascii_chars(e));
        vstd::utf8::is_ascii_chars_encode_utf8(e);
        assert(encode_utf8(e) =~= escaped_byte(n as u8));
        assert(escaped(one) =~= escaped_byte(n as u8));
    } else {
        lemma_wide_bytes(n);
        lemma_plain_bytes(one);
        let e = json::escaped_char(c);
        assert(e =~= seq![c]);
        reveal_with_fuel(encode_utf8, 2);
        assert(e.drop_first() =~= Seq::empty());
        assert(encode_utf8(e) =~= one);
    }
}

/// Bytes outside ASCII are written as they are.
proof fn lemma_plain_bytes(b: Seq<u8>)
    requires
        forall|i: int| 0 <= i < b.len() ==> #[trigger] b[i] >= 0x80,
    ensures
        escaped(b) == b,
    decreases b.len(),
{
    if b.len() > 0 {
        lemma_plain_bytes(b.drop_first());
        assert(escaped(b) =~= b);
    }
}

proof fn lemma_escaped_text(s: Seq<char>)
    requires
        !s.contains('\u{8}'),
        !s.contains('\u{c}'),
    ensures
        encode_utf8(json::escaped_text(s)) == escaped(encode_utf8(s)),
    decreases s.len(),
{
    if s.len() > 0 {
        let rest = s.drop_first();
        assert(s.contains(s[0]));
        assert forall|c: char| rest.contains(c) implies s.contains(c) by {
            let i = choose|i: int| 0 <= i < rest.len() && rest[i] == c;
            assert(s[i + 1] == c);
        }
        lemma_escaped_text(rest);
        lemma_escaped_char(s[0]);
        lemma_encode_concat(json::escaped_char(s[0]), json::escaped_text(rest));
        lemma_escaped_concat(vstd::utf8::encode_scalar(s[0] as u32), encode_utf8(rest));
    } else {
        assert(json::escaped_text(s) =~= s);
    }
}

/// A string that the broker writes is read back by the client, whatever stands before and behind
/// it. Backspace and form feed are left out: the client does not know the broker's escapes of
/// these two.
pub proof fn string_of_the_broker_reads_back(before: Seq<u8>, s: Seq<char>, after: Seq<u8>)
    requires
        !s.contains('\u{8}'),
        !s.contains('\u{c}'),
    ensures
        string_at(before + encode_utf8(json::json_quoted(s)) + after, before.len() as int) == Some(
            (s, before.len() + encode_utf8(json::json_quoted(s)).len() as int),
        ),
{
    let quote = seq!['"'];
    let mark = seq![0x22u8];
    lemma_escaped_text(s);
    lemma_encode_concat(quote + json::escaped_text(s), quote);
    lemma_encode_concat(quote, json::escaped_text(s));
    assert(vstd::utf8::is_ascii_chars(quote));
    vstd::utf8::is_ascii_chars_encode_utf8(quote);
    assert(encode_utf8(quote) =~= mark);
    let inner = escaped(encode_utf8(s));
    assert(before + encode_utf8(json::json_quoted(s)) + after =~= before + mark + inner + mark
        + after);
    string_reads_back(before, s, after);
}

}
