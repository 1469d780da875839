//! What the client says to the broker is what it was asked to say: its requests, read back.
use crate::assoc;
use crate::bytes;
use crate::lobby_json;
use crate::lobby_model;
use crate::lobby_model::LobbyView;
use crate::lobby_requests;
use crate::lobby_requests::{Search, UpdateView};
use crate::text;
use vstd::prelude::*;

verus! {

/// What a request says: the members of its object, by name.
pub open spec fn said(b: Seq<u8>) -> Seq<(Seq<char>, Seq<char>)> {
    lobby_json::members_from(b, 1, Seq::empty())
}

/// `x` stands in `b` from `i` on.
pub open spec fn stands_at(b: Seq<u8>, i: int, x: Seq<u8>) -> bool {
    0 <= i && i + x.len() <= b.len() && b.subrange(i, i + x.len()) == x
}

/// A name that is written in a string as it is.
pub open spec fn is_plain(k: Seq<char>) -> bool {
    k.len() > 0 && forall|i: int|
        0 <= i < lobby_model::utf8(k).len() ==> is_plain_byte(#[trigger] lobby_model::utf8(k)[i])
}

pub open spec fn is_plain_byte(c: u8) -> bool {
    c >= 0x20 && c != 0x22 && c != 0x5c
}

/// What follows a value in an object.
pub open spec fn ends_value(b: Seq<u8>, i: int) -> bool {
    0 <= i < b.len() && (b[i] == 0x2c || b[i] == 0x7d)
}

/// Bytes that are read as a value wherever they stand.
#[verifier::opaque]
pub open spec fn reads_as(x: Seq<u8>, value: Seq<char>) -> bool {
    forall|b: Seq<u8>, i: int| #[trigger]
        stands_at(b, i, x) && ends_value(b, i + x.len()) ==> lobby_json::value_at(b, i) == (
            value,
            i + x.len(),
        )
}

/// Bytes that a search for the end of an object passes over.
#[verifier::opaque]
pub open spec fn is_passed(x: Seq<u8>) -> bool {
    forall|b: Seq<u8>, i: int, depth: int|
        #![trigger stands_at(b, i, x), lobby_json::nested_end(b, i, depth, false, false)]
        stands_at(b, i, x) && depth >= 1 ==> lobby_json::nested_end(b, i, depth, false, false)
            == lobby_json::nested_end(b, i + x.len(), depth, false, false)
}

/// A member of an object: its name, its value as it is written and as it is read.
#[verifier::ext_equal]
pub struct Part {
    pub name: Seq<char>,
    pub bytes: Seq<u8>,
    pub value: Seq<char>,
}

pub open spec fn part_text(p: Part) -> Seq<u8> {
    seq![0x22u8] + lobby_model::utf8(p.name) + seq![0x22u8, 0x3au8] + p.bytes
}

/// Members and the end of their object.
pub open spec fn rest_text(v: Seq<Part>) -> Seq<u8>
    decreases v.len(),
{
    if v.len() == 0 {
        seq![0x7du8]
    } else {
        part_text(v[0]) + (if v.len() > 1 { seq![0x2cu8] } else { Seq::empty() }) + rest_text(
            v.drop_first(),
        )
    }
}

/// The values of members, added to those that are there.
pub open spec fn values(m: Seq<(Seq<char>, Seq<char>)>, v: Seq<Part>) -> Seq<(Seq<char>, Seq<char>)>
    decreases v.len(),
{
    if v.len() == 0 {
        m
    } else {
        values(assoc::with(m, v[0].name, v[0].value), v.drop_first())
    }
}

pub open spec fn are_readable(v: Seq<Part>) -> bool {
    forall|i: int|
        0 <= i < v.len() ==> is_plain((#[trigger] v[i]).name) && reads_as(v[i].bytes, v[i].value)
}

proof fn lemma_plain(x: Seq<u8>)
    requires
        forall|i: int| 0 <= i < x.len() ==> is_plain_byte(#[trigger] x[i]),
    ensures
        lobby_json::escaped(x) == x,
    decreases x.len(),
{
    if x.len() > 0 {
        assert(is_plain_byte(x[0]));
        assert forall|i: int| 0 <= i < x.drop_first().len() implies is_plain_byte(
            #[trigger] x.drop_first()[i],
        ) by {
            assert(is_plain_byte(x[i + 1]));
        }
        lemma_plain(x.drop_first());
        assert(lobby_json::escaped(x) =~= x);
    }
}

/// A name and its value are read as the next member.
proof fn lemma_member(b: Seq<u8>, i: int, p: Part, m: Seq<(Seq<char>, Seq<char>)>)
    requires
        stands_at(b, i, part_text(p)),
        ends_value(b, i + part_text(p).len()),
        is_plain(p.name),
        reads_as(p.bytes, p.value),
    ensures
        ({
            let n = assoc::with(m, p.name, p.value);
            lobby_json::members_from(b, i, m) == (if n.len() >= lobby_json::MEMBER_CAP {
                n
            } else {
                lobby_json::members_from(b, i + part_text(p).len(), n)
            })
        }),
{
    reveal(reads_as);
    let k = lobby_model::utf8(p.name);
    let t = part_text(p);
    let here = b.subrange(i, i + t.len());
    assert(here == t);
    lemma_plain(k);
    let after = seq![0x3au8] + p.bytes + b.skip(i + t.len());
    assert(b =~= b.take(i) + seq![0x22u8] + k + seq![0x22u8] + after) by {
        assert(b =~= b.take(i) + here + b.skip(i + t.len()));
    }
    lobby_json::string_reads_back(b.take(i), p.name, after);
    assert(b[i] == here[0]);
    let c = i + k.len() + 2int;
    assert(b[c] == here[k.len() + 2int]);
    assert(b[c] == 0x3a);
    assert(b.subrange(c + 1, c + 1 + p.bytes.len()) =~= p.bytes) by {
        assert(p.bytes =~= t.subrange(k.len() as int + 3, t.len() as int));
        assert(b.subrange(c + 1, c + 1 + p.bytes.len()) =~= here.subrange(
            k.len() as int + 3,
            t.len() as int,
        ));
    }
    assert(stands_at(b, c + 1, p.bytes));
}

/// The members of an object are read one after the other.
proof fn lemma_members(b: Seq<u8>, i: int, v: Seq<Part>, m: Seq<(Seq<char>, Seq<char>)>)
    requires
        stands_at(b, i, rest_text(v)),
        are_readable(v),
        m.len() + v.len() <= lobby_json::MEMBER_CAP,
    ensures
        lobby_json::members_from(b, i, m) == values(m, v),
    decreases v.len(),
{
    let all = rest_text(v);
    let here = b.subrange(i, i + all.len());
    assert(here == all);
    if v.len() == 0 {
        assert(b[i] == here[0]);
    } else {
        let t = part_text(v[0]);
        let e = i + t.len();
        let rest = v.drop_first();
        assert(is_plain(v[0].name) && reads_as(v[0].bytes, v[0].value));
        assert(b.subrange(i, e) =~= t) by {
            assert(b.subrange(i, e) =~= here.subrange(0, t.len() as int));
        }
        if v.len() == 1 {
            assert(rest_text(rest) =~= seq![0x7du8]);
        }
        assert(b[e] == here[t.len() as int]);
        assoc::lemma_place(m, v[0].name);
        lemma_member(b, i, v[0], m);
        let n = assoc::with(m, v[0].name, v[0].value);
        if v.len() > 1 {
            assert(rest_text(rest) =~= here.subrange(t.len() + 1int, all.len() as int));
            assert(b.subrange(e + 1, i + all.len()) =~= here.subrange(
                t.len() + 1int,
                all.len() as int,
            ));
            assert(are_readable(rest)) by {
                assert forall|j: int| 0 <= j < rest.len() implies is_plain((#[trigger] rest[j]).name)
                    && reads_as(rest[j].bytes, rest[j].value) by {
                    assert(rest[j] == v[j + 1]);
                }
            }
            assert(b[e] == 0x2c);
            lemma_members(b, e + 1, rest, n);
        } else {
            assert(values(n, rest) == n);
        }
    }
}

/// An object is read member by member.
proof fn lemma_object(v: Seq<Part>)
    requires
        are_readable(v),
        v.len() <= lobby_json::MEMBER_CAP,
    ensures
        said(seq![0x7bu8] + rest_text(v)) == values(Seq::empty(), v),
{
    let b = seq![0x7bu8] + rest_text(v);
    assert(b.subrange(1, b.len() as int) =~= rest_text(v));
    lemma_members(b, 1, v, Seq::empty());
}

/// The name is not that of any member.
proof fn lemma_values_keep(m: Seq<(Seq<char>, Seq<char>)>, v: Seq<Part>, key: Seq<char>)
    requires
        forall|i: int| 0 <= i < v.len() ==> (#[trigger] v[i]).name != key,
    ensures
        assoc::lookup(values(m, v), key) == assoc::lookup(m, key),
    decreases v.len(),
{
    if v.len() > 0 {
        let rest = v.drop_first();
        assert(v[0].name != key);
        assoc::set_is_found(m, v[0].name, v[0].value, key);
        assert forall|i: int| 0 <= i < rest.len() implies (#[trigger] rest[i]).name != key by {
            assert(rest[i] == v[i + 1]);
        }
        lemma_values_keep(assoc::with(m, v[0].name, v[0].value), rest, key);
    }
}

/// The last member of a name gives its value.
proof fn lemma_values_have(m: Seq<(Seq<char>, Seq<char>)>, v: Seq<Part>, i: int)
    requires
        0 <= i < v.len(),
        forall|j: int| i < j < v.len() ==> (#[trigger] v[j]).name != v[i].name,
    ensures
        assoc::lookup(values(m, v), v[i].name) == Some(v[i].value),
    decreases v.len(),
{
    let rest = v.drop_first();
    let n = assoc::with(m, v[0].name, v[0].value);
    if i == 0 {
        assoc::set_is_found(m, v[0].name, v[0].value, v[0].name);
        assert forall|j: int| 0 <= j < rest.len() implies (#[trigger] rest[j]).name != v[0].name by {
            assert(rest[j] == v[j + 1]);
        }
        lemma_values_keep(n, rest, v[0].name);
    } else {
        assert(rest[i - 1] == v[i]);
        assert forall|j: int| i - 1 < j < rest.len() implies (#[trigger] rest[j]).name
            != rest[i - 1].name by {
            assert(rest[j] == v[j + 1]);
        }
        lemma_values_have(n, rest, i - 1);
    }
}

// Strings

pub open spec fn string_text(s: Seq<char>) -> Seq<u8> {
    seq![0x22u8] + lobby_model::quoted(s) + seq![0x22u8]
}

proof fn lemma_string_reads(s: Seq<char>)
    ensures
        reads_as(string_text(s), s),
{
    reveal(reads_as);
    let x = string_text(s);
    assert forall|b: Seq<u8>, i: int| #[trigger]
        stands_at(b, i, x) && ends_value(b, i + x.len()) implies lobby_json::value_at(b, i) == (
        s,
        i + x.len(),
    ) by {
        lemma_string_value(b, i, s);
    }
}

proof fn lemma_string_value(b: Seq<u8>, i: int, s: Seq<char>)
    requires
        stands_at(b, i, string_text(s)),
    ensures
        lobby_json::value_at(b, i) == (s, i + string_text(s).len()),
{
    let x = string_text(s);
    let here = b.subrange(i, i + x.len());
    assert(b[i] == here[0]);
    let after = b.skip(i + x.len());
    let q = lobby_model::quoted(s);
    assert(b.take(i) + seq![0x22u8] + q + seq![0x22u8] + after =~= b.take(i) + x + after);
    assert(b =~= b.take(i) + here + after);
    lobby_json::string_reads_back(b.take(i), s, after);
}

/// Inside a string a search for the end of an object stays inside until the closing quote.
proof fn lemma_inside(b: Seq<u8>, i: int, s: Seq<u8>, depth: int)
    requires
        stands_at(b, i, lobby_json::escaped(s)),
    ensures
        lobby_json::nested_end(b, i, depth, true, false) == lobby_json::nested_end(
            b,
            i + lobby_json::escaped(s).len(),
            depth,
            true,
            false,
        ),
    decreases s.len(),
{
    if s.len() > 0 {
        let x = lobby_json::escaped(s);
        let e = lobby_json::escaped_byte(s[0]);
        let rest = lobby_json::escaped(s.drop_first());
        let here = b.subrange(i, i + x.len());
        assert(b.subrange(i + e.len(), i + x.len()) =~= rest) by {
            assert(b.subrange(i + e.len(), i + x.len()) =~= here.subrange(
                e.len() as int,
                x.len() as int,
            ));
        }
        lemma_inside(b, i + e.len(), s.drop_first(), depth);
        assert forall|j: int| 0 <= j < e.len() implies b[i + j] == #[trigger] e[j] by {
            assert(here[j] == e[j]);
        }
        lemma_past_byte(b, i, s[0], depth);
    }
}

proof fn lemma_past_byte(b: Seq<u8>, i: int, c: u8, depth: int)
    requires
        0 <= i,
        i + lobby_json::escaped_byte(c).len() <= b.len(),
        forall|j: int|
            0 <= j < lobby_json::escaped_byte(c).len() ==> b[i + j]
                == #[trigger] lobby_json::escaped_byte(c)[j],
    ensures
        lobby_json::nested_end(b, i, depth, true, false) == lobby_json::nested_end(
            b,
            i + lobby_json::escaped_byte(c).len(),
            depth,
            true,
            false,
        ),
{
    let e = lobby_json::escaped_byte(c);
    assert(b[i + 0] == e[0]);
    reveal_with_fuel(lobby_json::nested_end, 7);
    if e.len() == 2 {
        assert(b[i + 1] == e[1]);
    } else if e.len() == 6 {
        assert(b[i + 1] == e[1]);
        assert(b[i + 2] == e[2]);
        assert(b[i + 3] == e[3]);
        assert(b[i + 4] == e[4]);
        assert(b[i + 5] == e[5]);
    }
}

proof fn lemma_string_passed(s: Seq<char>)
    ensures
        is_passed(string_text(s)),
{
    reveal(is_passed);
    let x = string_text(s);
    assert forall|b: Seq<u8>, i: int, depth: int|
        #![trigger stands_at(b, i, x), lobby_json::nested_end(b, i, depth, false, false)]
        stands_at(b, i, x) && depth >= 1 implies lobby_json::nested_end(b, i, depth, false, false)
        == lobby_json::nested_end(b, i + x.len(), depth, false, false) by {
        lemma_quoted_passed(b, i, lobby_model::utf8(s), depth);
    }
}

proof fn lemma_quoted_passed(b: Seq<u8>, i: int, s: Seq<u8>, depth: int)
    requires
        stands_at(b, i, seq![0x22u8] + lobby_json::escaped(s) + seq![0x22u8]),
        depth >= 1,
    ensures
        lobby_json::nested_end(b, i, depth, false, false) == lobby_json::nested_end(
            b,
            i + lobby_json::escaped(s).len() + 2,
            depth,
            false,
            false,
        ),
{
    let q = lobby_json::escaped(s);
    let x = seq![0x22u8] + q + seq![0x22u8];
    let here = b.subrange(i, i + x.len());
    assert(b[i] == here[0]);
    assert(b.subrange(i + 1, i + 1 + q.len()) =~= q) by {
        assert(b.subrange(i + 1, i + 1 + q.len()) =~= here.subrange(1, 1int + q.len()));
    }
    lemma_inside(b, i + 1, s, depth);
    assert(b[i + 1 + q.len()] == here[1int + q.len()]);
}

// Words

/// Bytes of a word: no quotes, brackets, commas, colons or white space.
pub open spec fn is_word_byte(c: u8) -> bool {
    0x30 <= c <= 0x39 || 0x61 <= c <= 0x7a
}

proof fn lemma_word_reads(t: Seq<char>)
    requires
        t.len() > 0,
        forall|i: int| 0 <= i < t.len() ==> text::is_digit(#[trigger] t[i]) || 'a' <= t[i] <= 'z',
    ensures
        reads_as(lobby_model::utf8(t), t),
        is_passed(lobby_model::utf8(t)),
{
    reveal(reads_as);
    reveal(is_passed);
    let x = lobby_model::utf8(t);
    assert(vstd::utf8::is_ascii_chars(t));
    vstd::utf8::is_ascii_chars_encode_utf8(t);
    assert(x.len() == t.len());
    assert forall|j: int| 0 <= j < x.len() implies is_word_byte(#[trigger] x[j]) by {
        assert(x[j] == t[j] as u8);
    }
    bytes::text_reads_back(t);
    assert forall|b: Seq<u8>, i: int| #[trigger]
        stands_at(b, i, x) && ends_value(b, i + x.len()) implies lobby_json::value_at(b, i) == (
        t,
        i + x.len(),
    ) by {
        let here = b.subrange(i, i + x.len());
        assert forall|j: int| i <= j < i + x.len() implies is_word_byte(#[trigger] b[j]) by {
            assert(b[j] == here[j - i]);
        }
        lemma_word_end(b, i, i + x.len());
    }
    assert forall|b: Seq<u8>, i: int, depth: int|
        #![trigger stands_at(b, i, x), lobby_json::nested_end(b, i, depth, false, false)]
        stands_at(b, i, x) && depth >= 1 implies lobby_json::nested_end(b, i, depth, false, false)
        == lobby_json::nested_end(b, i + x.len(), depth, false, false) by {
        let here = b.subrange(i, i + x.len());
        assert forall|j: int| i <= j < i + x.len() implies is_word_byte(#[trigger] b[j]) by {
            assert(b[j] == here[j - i]);
        }
        lemma_word_passed(b, i, i + x.len(), depth);
    }
}

proof fn lemma_word_end(b: Seq<u8>, i: int, e: int)
    requires
        0 <= i <= e < b.len(),
        forall|j: int| i <= j < e ==> is_word_byte(#[trigger] b[j]),
        b[e] == 0x2c || b[e] == 0x7d,
    ensures
        lobby_json::word_end(b, i) == e,
    decreases e - i,
{
    if i < e {
        assert(is_word_byte(b[i]));
        lemma_word_end(b, i + 1, e);
    }
}

proof fn lemma_word_passed(b: Seq<u8>, i: int, e: int, depth: int)
    requires
        0 <= i <= e <= b.len(),
        forall|j: int| i <= j < e ==> is_word_byte(#[trigger] b[j]),
    ensures
        lobby_json::nested_end(b, i, depth, false, false) == lobby_json::nested_end(
            b,
            e,
            depth,
            false,
            false,
        ),
    decreases e - i,
{
    if i < e {
        assert(is_word_byte(b[i]));
        lemma_word_passed(b, i + 1, e, depth);
    }
}

// Objects inside objects

pub open spec fn are_passed(v: Seq<Part>) -> bool {
    forall|i: int| 0 <= i < v.len() ==> is_plain((#[trigger] v[i]).name) && is_passed(v[i].bytes)
}

/// A search for the end of an object finds it behind its members.
proof fn lemma_rest_end(b: Seq<u8>, i: int, v: Seq<Part>, depth: int)
    requires
        stands_at(b, i, rest_text(v)),
        are_passed(v),
        depth >= 1,
    ensures
        lobby_json::nested_end(b, i, depth, false, false) == (if depth == 1 {
            i + rest_text(v).len()
        } else {
            lobby_json::nested_end(b, i + rest_text(v).len(), depth - 1, false, false)
        }),
    decreases v.len(),
{
    reveal(is_passed);
    let all = rest_text(v);
    let here = b.subrange(i, i + all.len());
    if v.len() == 0 {
        assert(b[i] == here[0]);
    } else {
        let p = v[0];
        let k = lobby_model::utf8(p.name);
        let t = part_text(p);
        let e = i + t.len();
        let rest = v.drop_first();
        assert(is_plain(p.name) && is_passed(p.bytes));
        lemma_plain(k);
        let q = seq![0x22u8] + lobby_json::escaped(k) + seq![0x22u8];
        assert(b.subrange(i, i + q.len()) =~= q) by {
            assert(b.subrange(i, i + q.len()) =~= here.subrange(0, q.len() as int));
        }
        lemma_quoted_passed(b, i, k, depth);
        let c = i + q.len();
        assert(b[c] == here[q.len() as int]);
        assert(b[c] == 0x3a);
        assert(b.subrange(c + 1, e) =~= p.bytes) by {
            assert(b.subrange(c + 1, e) =~= here.subrange(q.len() + 1int, t.len() as int));
        }
        assert(stands_at(b, c + 1, p.bytes));
        assert(lobby_json::nested_end(b, c, depth, false, false) == lobby_json::nested_end(
            b,
            c + 1,
            depth,
            false,
            false,
        ));
        assert(lobby_json::nested_end(b, c + 1, depth, false, false) == lobby_json::nested_end(
            b,
            e,
            depth,
            false,
            false,
        ));
        assert(are_passed(rest)) by {
            assert forall|j: int| 0 <= j < rest.len() implies is_plain((#[trigger] rest[j]).name)
                && is_passed(rest[j].bytes) by {
                assert(rest[j] == v[j + 1]);
            }
        }
        if v.len() > 1 {
            assert(b[e] == here[t.len() as int]);
            assert(b.subrange(e + 1, i + all.len()) =~= rest_text(rest)) by {
                assert(b.subrange(e + 1, i + all.len()) =~= here.subrange(
                    t.len() + 1int,
                    all.len() as int,
                ));
            }
            lemma_rest_end(b, e + 1, rest, depth);
        } else {
            assert(b.subrange(e, i + all.len()) =~= rest_text(rest)) by {
                assert(b.subrange(e, i + all.len()) =~= here.subrange(
                    t.len() as int,
                    all.len() as int,
                ));
            }
            lemma_rest_end(b, e, rest, depth);
        }
    }
}

/// An object inside another is read as the text that it is.
proof fn lemma_object_reads(v: Seq<Part>)
    requires
        are_passed(v),
    ensures
        reads_as(seq![0x7bu8] + rest_text(v), bytes::text_of(seq![0x7bu8] + rest_text(v))),
        is_passed(seq![0x7bu8] + rest_text(v)),
{
    reveal(reads_as);
    reveal(is_passed);
    let r = rest_text(v);
    let x = seq![0x7bu8] + r;
    assert forall|b: Seq<u8>, i: int| #[trigger]
        stands_at(b, i, x) && ends_value(b, i + x.len()) implies lobby_json::value_at(b, i) == (
        bytes::text_of(x),
        i + x.len(),
    ) by {
        let here = b.subrange(i, i + x.len());
        assert(b[i] == here[0]);
        assert(b.subrange(i + 1, i + 1 + r.len()) =~= r) by {
            assert(b.subrange(i + 1, i + 1 + r.len()) =~= here.subrange(1, 1int + r.len()));
        }
        lemma_rest_end(b, i + 1, v, 1);
    }
    assert forall|b: Seq<u8>, i: int, depth: int|
        #![trigger stands_at(b, i, x), lobby_json::nested_end(b, i, depth, false, false)]
        stands_at(b, i, x) && depth >= 1 implies lobby_json::nested_end(b, i, depth, false, false)
        == lobby_json::nested_end(b, i + x.len(), depth, false, false) by {
        let here = b.subrange(i, i + x.len());
        assert(b[i] == here[0]);
        assert(b.subrange(i + 1, i + 1 + r.len()) =~= r) by {
            assert(b.subrange(i + 1, i + 1 + r.len()) =~= here.subrange(1, 1int + r.len()));
        }
        lemma_rest_end(b, i + 1, v, depth + 1);
    }
}

// Members added one by one

/// Members without the end of their object.
pub open spec fn front(v: Seq<Part>) -> Seq<u8> {
    rest_text(v).drop_last()
}

pub open spec fn sep(any: bool) -> Seq<u8> {
    if any { seq![0x2cu8] } else { Seq::empty() }
}

proof fn lemma_rest_pushed(v: Seq<Part>, p: Part)
    ensures
        rest_text(v).len() > 0,
        rest_text(v).last() == 0x7d,
        rest_text(v.push(p)) == front(v) + sep(v.len() > 0) + part_text(p) + seq![0x7du8],
    decreases v.len(),
{
    let w = v.push(p);
    if v.len() == 0 {
        assert(w[0] == p);
        assert(w.drop_first() =~= v);
        assert(rest_text(w) =~= front(v) + sep(false) + part_text(p) + seq![0x7du8]);
    } else {
        let t = v.drop_first();
        lemma_rest_pushed(t, p);
        assert(w.drop_first() =~= t.push(p));
        assert(w[0] == v[0]);
        let head = part_text(v[0]);
        if t.len() == 0 {
            assert(rest_text(t) =~= seq![0x7du8]);
            assert(front(t) =~= Seq::empty());
        }
        assert(front(v) =~= head + sep(t.len() > 0) + front(t));
        assert(rest_text(w) =~= front(v) + sep(true) + part_text(p) + seq![0x7du8]);
    }
}

proof fn lemma_front_pushed(v: Seq<Part>, p: Part)
    ensures
        front(v.push(p)) == front(v) + sep(v.len() > 0) + part_text(p),
        rest_text(v) == front(v) + seq![0x7du8],
        front(Seq::empty()) == Seq::<u8>::empty(),
{
    lemma_rest_pushed(v, p);
    assert(front(v.push(p)) =~= front(v) + sep(v.len() > 0) + part_text(p));
    assert(rest_text(v) =~= front(v) + seq![0x7du8]);
    assert(front(Seq::empty()) =~= Seq::<u8>::empty());
}

proof fn lemma_values_pushed(m: Seq<(Seq<char>, Seq<char>)>, v: Seq<Part>, p: Part)
    ensures
        values(m, v.push(p)) == assoc::with(values(m, v), p.name, p.value),
    decreases v.len(),
{
    let w = v.push(p);
    if v.len() == 0 {
        assert(w[0] == p);
        assert(w.drop_first() =~= v);
        assert(values(assoc::with(m, p.name, p.value), v) == assoc::with(m, p.name, p.value));
    } else {
        assert(w.drop_first() =~= v.drop_first().push(p));
        lemma_values_pushed(assoc::with(m, v[0].name, v[0].value), v.drop_first(), p);
    }
}

/// One more member, where there is one, gives its value, and the others stay.
proof fn lemma_pushed(v: Seq<Part>, p: Part, key: Seq<char>)
    ensures
        assoc::lookup(values(Seq::empty(), v.push(p)), key) == (if key == p.name {
            Some(p.value)
        } else {
            assoc::lookup(values(Seq::empty(), v), key)
        }),
{
    lemma_values_pushed(Seq::empty(), v, p);
    assoc::set_is_found(values(Seq::empty(), v), p.name, p.value, key);
}

proof fn lemma_readable_pushed(v: Seq<Part>, p: Part)
    requires
        are_readable(v),
        is_plain(p.name),
        reads_as(p.bytes, p.value),
    ensures
        are_readable(v.push(p)),
{
    let w = v.push(p);
    assert forall|i: int| 0 <= i < w.len() implies is_plain((#[trigger] w[i]).name) && reads_as(
        w[i].bytes,
        w[i].value,
    ) by {
        if i < v.len() {
            assert(w[i] == v[i]);
        }
    }
}

// How names are written

pub open spec fn is_name(k: Seq<char>) -> bool {
    k.len() > 0 && forall|i: int|
        0 <= i < k.len() ==> 'A' <= #[trigger] k[i] <= 'Z' || 'a' <= k[i] <= 'z' || k[i] == '_'
}

proof fn lemma_marks()
    ensures
        lobby_model::utf8("{"@) == seq![0x7bu8],
        lobby_model::utf8("}"@) == seq![0x7du8],
        lobby_model::utf8("\""@) == seq![0x22u8],
        lobby_model::utf8(","@) == seq![0x2cu8],
        lobby_model::utf8("\":"@) == seq![0x22u8, 0x3au8],
        lobby_model::utf8("\":\""@) == seq![0x22u8, 0x3au8, 0x22u8],
        lobby_model::utf8(",\""@) == seq![0x2cu8, 0x22u8],
        lobby_model::utf8("{\""@) == seq![0x7bu8, 0x22u8],
        lobby_model::utf8("\"}"@) == seq![0x22u8, 0x7du8],
        lobby_model::utf8("\",\""@) == seq![0x22u8, 0x2cu8, 0x22u8],
{
    reveal_strlit("{");
    reveal_strlit("}");
    reveal_strlit("\"");
    reveal_strlit(",");
    reveal_strlit("\":");
    reveal_strlit("\":\"");
    reveal_strlit(",\"");
    reveal_strlit("{\"");
    reveal_strlit("\"}");
    reveal_strlit("\",\"");
    vstd::utf8::is_ascii_chars_encode_utf8("{"@);
    vstd::utf8::is_ascii_chars_encode_utf8("}"@);
    vstd::utf8::is_ascii_chars_encode_utf8("\""@);
    vstd::utf8::is_ascii_chars_encode_utf8(","@);
    vstd::utf8::is_ascii_chars_encode_utf8("\":"@);
    vstd::utf8::is_ascii_chars_encode_utf8("\":\""@);
    vstd::utf8::is_ascii_chars_encode_utf8(",\""@);
    vstd::utf8::is_ascii_chars_encode_utf8("{\""@);
    vstd::utf8::is_ascii_chars_encode_utf8("\"}"@);
    vstd::utf8::is_ascii_chars_encode_utf8("\",\""@);
    assert(lobby_model::utf8("{"@) =~= seq![0x7bu8]);
    assert(lobby_model::utf8("}"@) =~= seq![0x7du8]);
    assert(lobby_model::utf8("\""@) =~= seq![0x22u8]);
    assert(lobby_model::utf8(","@) =~= seq![0x2cu8]);
    assert(lobby_model::utf8("\":"@) =~= seq![0x22u8, 0x3au8]);
    assert(lobby_model::utf8("\":\""@) =~= seq![0x22u8, 0x3au8, 0x22u8]);
    assert(lobby_model::utf8(",\""@) =~= seq![0x2cu8, 0x22u8]);
    assert(lobby_model::utf8("{\""@) =~= seq![0x7bu8, 0x22u8]);
    assert(lobby_model::utf8("\"}"@) =~= seq![0x22u8, 0x7du8]);
    assert(lobby_model::utf8("\",\""@) =~= seq![0x22u8, 0x2cu8, 0x22u8]);
}

/// A piece of a request that opens a member.
proof fn lemma_opening(lit: Seq<char>, pre: Seq<char>, name: Seq<char>, post: Seq<char>)
    requires
        lit == pre + name + post,
        is_name(name),
    ensures
        lobby_model::utf8(lit) == lobby_model::utf8(pre) + lobby_model::utf8(name)
            + lobby_model::utf8(post),
        is_plain(name),
{
    lobby_json::lemma_encode_concat(pre, name);
    lobby_json::lemma_encode_concat(pre + name, post);
    lemma_name_is_plain(name);
}

proof fn lemma_name_is_plain(name: Seq<char>)
    requires
        is_name(name),
    ensures
        is_plain(name),
{
    assert(vstd::utf8::is_ascii_chars(name));
    vstd::utf8::is_ascii_chars_encode_utf8(name);
    assert forall|i: int| 0 <= i < lobby_model::utf8(name).len() implies is_plain_byte(
        #[trigger] lobby_model::utf8(name)[i],
    ) by {
        assert(lobby_model::utf8(name)[i] == name[i] as u8);
    }
}

pub open spec fn string_part(name: Seq<char>, s: Seq<char>) -> Part {
    Part { name, bytes: string_text(s), value: s }
}

pub open spec fn word_part(name: Seq<char>, t: Seq<char>) -> Part {
    Part { name, bytes: lobby_model::utf8(t), value: t }
}

pub open spec fn object_part(name: Seq<char>, x: Seq<u8>) -> Part {
    Part { name, bytes: x, value: bytes::text_of(x) }
}

proof fn lemma_number_reads(n: nat)
    ensures
        reads_as(lobby_requests::number_text(n), text::decimal(n)),
        is_passed(lobby_requests::number_text(n)),
{
    text::decimal_is_number(n);
    lemma_word_reads(text::decimal(n));
}

// Objects

/// Properties whose names are written as they are.
pub open spec fn has_plain_names(m: Seq<(Seq<char>, Seq<char>)>) -> bool {
    forall|i: int| 0 <= i < m.len() ==> is_plain((#[trigger] m[i]).0)
}

pub open spec fn property_parts(m: Seq<(Seq<char>, Seq<char>)>) -> Seq<Part> {
    m.map_values(|e: (Seq<char>, Seq<char>)| string_part(e.0, e.1))
}

proof fn lemma_object_text(m: Seq<(Seq<char>, Seq<char>)>)
    ensures
        lobby_model::members_text(m) == front(property_parts(m)),
        lobby_model::object_text(m) == seq![0x7bu8] + rest_text(property_parts(m)),
    decreases m.len(),
{
    lemma_marks();
    let v = property_parts(m);
    if m.len() == 0 {
        assert(v =~= Seq::empty());
        assert(front(v) =~= Seq::<u8>::empty());
    } else {
        let t = m.drop_last();
        lemma_object_text(t);
        let p = string_part(m.last().0, m.last().1);
        assert(v =~= property_parts(t).push(p));
        lemma_front_pushed(property_parts(t), p);
        assert(lobby_model::member_text(m.last().0, m.last().1) =~= part_text(p));
        if m.len() == 1 {
            assert(property_parts(t) =~= Seq::empty());
            assert(front(v) =~= part_text(p));
        } else {
            assert(lobby_model::members_text(m) =~= front(v));
        }
    }
    lemma_rest_pushed(v, string_part(Seq::empty(), Seq::empty()));
    assert(rest_text(v) =~= front(v) + seq![0x7du8]);
    assert(lobby_model::object_text(m) =~= seq![0x7bu8] + rest_text(v));
}

proof fn lemma_properties(m: Seq<(Seq<char>, Seq<char>)>)
    requires
        has_plain_names(m),
    ensures
        are_readable(property_parts(m)),
        are_passed(property_parts(m)),
        reads_as(lobby_model::object_text(m), bytes::text_of(lobby_model::object_text(m))),
        is_passed(lobby_model::object_text(m)),
{
    let v = property_parts(m);
    assert forall|i: int| 0 <= i < v.len() implies is_plain((#[trigger] v[i]).name) && reads_as(
        v[i].bytes,
        v[i].value,
    ) && is_passed(v[i].bytes) by {
        assert(is_plain(m[i].0));
        lemma_string_reads(m[i].1);
        lemma_string_passed(m[i].1);
    }
    lemma_object_text(m);
    lemma_object_reads(v);
}

/// Properties that are written as an object are read back from it: under each name stands the
/// value that it has, and no other name is there.
pub proof fn properties_are_said(m: Seq<(Seq<char>, Seq<char>)>, key: Seq<char>)
    requires
        has_plain_names(m),
        assoc::distinct(m),
        m.len() <= 64,
    ensures
        assoc::lookup(said(lobby_model::object_text(m)), key) == assoc::lookup(m, key),
{
    let v = property_parts(m);
    lemma_properties(m);
    lemma_object_text(m);
    lemma_object(v);
    assoc::lemma_place(m, key);
    match assoc::place(m, key) {
        Some(i) => {
            assert(v[i].name == key);
            assert forall|j: int| i < j < v.len() implies (#[trigger] v[j]).name != v[i].name by {
                assert(m[j].0 != m[i].0);
            }
            lemma_values_have(Seq::empty(), v, i);
        },
        None => {
            assert forall|j: int| 0 <= j < v.len() implies (#[trigger] v[j]).name != key by {
                assert(m[j].0 != key);
            }
            lemma_values_keep(Seq::empty(), v, key);
        },
    }
}

proof fn lemma_entity_names()
    ensures
        is_name("Id"@),
        is_name("Type"@),
        is_plain("Id"@),
        is_plain("Type"@),
        "Id"@ != "Type"@,
{
    reveal_strlit("Id");
    reveal_strlit("Type");
    assert("Id"@.len() != "Type"@.len());
    lemma_name_is_plain("Id"@);
    lemma_name_is_plain("Type"@);
}

pub open spec fn entity_properties(id: Seq<char>, kind: Seq<char>) -> Seq<(Seq<char>, Seq<char>)> {
    seq![("Id"@, id), ("Type"@, kind)]
}

proof fn lemma_entity_text(id: Seq<char>, kind: Seq<char>)
    ensures
        lobby_requests::entity_text(id, kind) == lobby_model::object_text(
            entity_properties(id, kind),
        ),
        has_plain_names(entity_properties(id, kind)),
        assoc::distinct(entity_properties(id, kind)),
{
    lemma_entity_names();
    lemma_marks();
    let m = entity_properties(id, kind);
    reveal_strlit("{\"Id\":\"");
    reveal_strlit("\",\"Type\":\"");
    reveal_strlit("{\"");
    reveal_strlit("Id");
    reveal_strlit("Type");
    reveal_strlit("\":\"");
    reveal_strlit("\",\"");
    assert("{\"Id\":\""@ =~= "{\""@ + "Id"@ + "\":\""@);
    assert("\",\"Type\":\""@ =~= "\",\""@ + "Type"@ + "\":\""@);
    lemma_opening("{\"Id\":\""@, "{\""@, "Id"@, "\":\""@);
    lemma_opening("\",\"Type\":\""@, "\",\""@, "Type"@, "\":\""@);
    let one = m.drop_last();
    assert(one =~= seq![("Id"@, id)]);
    assert(m.last() == ("Type"@, kind));
    assert(lobby_model::members_text(one) == lobby_model::member_text("Id"@, id));
    assert(lobby_requests::entity_text(id, kind) =~= lobby_model::object_text(m));
    assert(m[0].0 == "Id"@ && m[1].0 == "Type"@);
}

/// An entity is written with its name and its kind.
pub proof fn entity_is_said(id: Seq<char>, kind: Seq<char>)
    ensures
        assoc::lookup(said(lobby_requests::entity_text(id, kind)), "Id"@) == Some(id),
        assoc::lookup(said(lobby_requests::entity_text(id, kind)), "Type"@) == Some(kind),
{
    lemma_entity_text(id, kind);
    lemma_entity_names();
    let m = entity_properties(id, kind);
    properties_are_said(m, "Id"@);
    properties_are_said(m, "Type"@);
    assert(m[0].0 == "Id"@ && m[1].0 == "Type"@);
    assoc::lemma_place_is(m, "Id"@, 0);
    assoc::lemma_place_is(m, "Type"@, 1);
}

// Searching

proof fn lemma_search_names()
    ensures
        "EntityId"@.len() == 8,
        "Filter"@.len() == 6,
        "Sort"@.len() == 4,
        "ClientSearchResultCount"@.len() == 23,
        "FriendsFilter"@.len() == 13,
        is_plain("EntityId"@),
        is_plain("Filter"@),
        is_plain("Sort"@),
        is_plain("ClientSearchResultCount"@),
        is_plain("FriendsFilter"@),
        lobby_model::utf8("\"EntityId\":\""@) == seq![0x22u8] + lobby_model::utf8("EntityId"@)
            + seq![0x22u8, 0x3au8, 0x22u8],
        lobby_model::utf8("\"Filter\":\""@) == seq![0x22u8] + lobby_model::utf8("Filter"@)
            + seq![0x22u8, 0x3au8, 0x22u8],
        lobby_model::utf8("\"Sort\":\""@) == seq![0x22u8] + lobby_model::utf8("Sort"@)
            + seq![0x22u8, 0x3au8, 0x22u8],
        lobby_model::utf8("\"ClientSearchResultCount\":"@) == seq![0x22u8] + lobby_model::utf8(
            "ClientSearchResultCount"@,
        ) + seq![0x22u8, 0x3au8],
{
    lemma_marks();
    reveal_strlit("EntityId");
    reveal_strlit("Filter");
    reveal_strlit("Sort");
    reveal_strlit("ClientSearchResultCount");
    reveal_strlit("FriendsFilter");
    reveal_strlit("\"");
    reveal_strlit("\":");
    reveal_strlit("\":\"");
    reveal_strlit("\"EntityId\":\"");
    reveal_strlit("\"Filter\":\"");
    reveal_strlit("\"Sort\":\"");
    reveal_strlit("\"ClientSearchResultCount\":");
    assert("\"EntityId\":\""@ =~= "\""@ + "EntityId"@ + "\":\""@);
    assert("\"Filter\":\""@ =~= "\""@ + "Filter"@ + "\":\""@);
    assert("\"Sort\":\""@ =~= "\""@ + "Sort"@ + "\":\""@);
    assert("\"ClientSearchResultCount\":"@ =~= "\""@ + "ClientSearchResultCount"@ + "\":"@);
    lemma_opening("\"EntityId\":\""@, "\""@, "EntityId"@, "\":\""@);
    lemma_opening("\"Filter\":\""@, "\""@, "Filter"@, "\":\""@);
    lemma_opening("\"Sort\":\""@, "\""@, "Sort"@, "\":\""@);
    lemma_opening(
        "\"ClientSearchResultCount\":"@,
        "\""@,
        "ClientSearchResultCount"@,
        "\":"@,
    );
    lemma_name_is_plain("FriendsFilter"@);
}

pub open spec fn friend_parts(f: lobby_requests::FriendsFilter) -> Seq<Part> {
    seq![
        word_part("IncludeSteamFriends"@, lobby_requests::bool_word(f.steam)),
        word_part("IncludeFacebookFriends"@, lobby_requests::bool_word(f.facebook)),
        string_part("IncludeXboxFriendsToken"@, f.xbox_token@),
    ]
}

pub open spec fn friends_text(f: lobby_requests::FriendsFilter) -> Seq<u8> {
    seq![0x7bu8] + rest_text(friend_parts(f))
}

proof fn lemma_bool_word(b: bool)
    ensures
        reads_as(lobby_model::utf8(lobby_requests::bool_word(b)), lobby_requests::bool_word(b)),
        is_passed(lobby_model::utf8(lobby_requests::bool_word(b))),
{
    reveal_strlit("true");
    reveal_strlit("false");
    lemma_word_reads(lobby_requests::bool_word(b));
}

proof fn lemma_friend_names()
    ensures
        is_plain("IncludeSteamFriends"@),
        is_plain("IncludeFacebookFriends"@),
        is_plain("IncludeXboxFriendsToken"@),
        "IncludeSteamFriends"@.len() == 19,
        "IncludeFacebookFriends"@.len() == 22,
        "IncludeXboxFriendsToken"@.len() == 23,
        lobby_model::utf8("\"FriendsFilter\":{\"IncludeSteamFriends\":"@) == seq![0x22u8]
            + lobby_model::utf8("FriendsFilter"@) + seq![0x22u8, 0x3au8, 0x7bu8, 0x22u8]
            + lobby_model::utf8("IncludeSteamFriends"@) + seq![0x22u8, 0x3au8],
        lobby_model::utf8(",\"IncludeFacebookFriends\":"@) == seq![0x2cu8, 0x22u8]
            + lobby_model::utf8("IncludeFacebookFriends"@) + seq![0x22u8, 0x3au8],
        lobby_model::utf8(",\"IncludeXboxFriendsToken\":\""@) == seq![0x2cu8, 0x22u8]
            + lobby_model::utf8("IncludeXboxFriendsToken"@) + seq![0x22u8, 0x3au8, 0x22u8],
{
    lemma_marks();
    reveal_strlit("FriendsFilter");
    reveal_strlit("IncludeSteamFriends");
    reveal_strlit("IncludeFacebookFriends");
    reveal_strlit("IncludeXboxFriendsToken");
    reveal_strlit("\"");
    reveal_strlit("{\"");
    reveal_strlit(",\"");
    reveal_strlit("\":");
    reveal_strlit("\":\"");
    reveal_strlit("\"FriendsFilter\":{\"IncludeSteamFriends\":");
    reveal_strlit(",\"IncludeFacebookFriends\":");
    reveal_strlit(",\"IncludeXboxFriendsToken\":\"");
    let open = "\""@ + "FriendsFilter"@ + "\":"@;
    assert("\"FriendsFilter\":{\"IncludeSteamFriends\":"@ =~= (open + "{\""@)
        + "IncludeSteamFriends"@ + "\":"@);
    lemma_opening(open, "\""@, "FriendsFilter"@, "\":"@);
    lobby_json::lemma_encode_concat(open, "{\""@);
    lemma_opening(
        "\"FriendsFilter\":{\"IncludeSteamFriends\":"@,
        open + "{\""@,
        "IncludeSteamFriends"@,
        "\":"@,
    );
    assert(lobby_model::utf8("\"FriendsFilter\":{\"IncludeSteamFriends\":"@) =~= seq![0x22u8]
        + lobby_model::utf8("FriendsFilter"@) + seq![0x22u8, 0x3au8, 0x7bu8, 0x22u8]
        + lobby_model::utf8("IncludeSteamFriends"@) + seq![0x22u8, 0x3au8]);
    assert(",\"IncludeFacebookFriends\":"@ =~= ",\""@ + "IncludeFacebookFriends"@ + "\":"@);
    assert(",\"IncludeXboxFriendsToken\":\""@ =~= ",\""@ + "IncludeXboxFriendsToken"@ + "\":\""@);
    lemma_opening(
        ",\"IncludeFacebookFriends\":"@,
        ",\""@,
        "IncludeFacebookFriends"@,
        "\":"@,
    );
    lemma_opening(
        ",\"IncludeXboxFriendsToken\":\""@,
        ",\""@,
        "IncludeXboxFriendsToken"@,
        "\":\""@,
    );
}

proof fn lemma_friend_parts(f: lobby_requests::FriendsFilter)
    ensures
        are_readable(friend_parts(f)),
        are_passed(friend_parts(f)),
{
    lemma_friend_names();
    lemma_bool_word(f.steam);
    lemma_bool_word(f.facebook);
    lemma_string_reads(f.xbox_token@);
    lemma_string_passed(f.xbox_token@);
    let v = friend_parts(f);
    assert forall|i: int| 0 <= i < v.len() implies is_plain((#[trigger] v[i]).name) && reads_as(
        v[i].bytes,
        v[i].value,
    ) && is_passed(v[i].bytes) by {
        assert(i == 0 || i == 1 || i == 2);
    }
}

proof fn lemma_friends_text(f: lobby_requests::FriendsFilter)
    ensures
        friends_text(f) == seq![0x7bu8] + (part_text(friend_parts(f)[0]) + seq![0x2cu8] + part_text(
            friend_parts(f)[1],
        ) + seq![0x2cu8] + part_text(friend_parts(f)[2])) + seq![0x7du8],
{
    let v = friend_parts(f);
    let o = Seq::<Part>::empty();
    let (a, b, c) = (v[0], v[1], v[2]);
    lemma_front_pushed(o, a);
    lemma_front_pushed(o.push(a), b);
    lemma_front_pushed(o.push(a).push(b), c);
    lemma_front_pushed(o.push(a).push(b).push(c), c);
    assert(v =~= o.push(a).push(b).push(c));
    let (x, y, z) = (part_text(a), part_text(b), part_text(c));
    lemma_three(x, y, z);
}

proof fn lemma_three(x: Seq<u8>, y: Seq<u8>, z: Seq<u8>)
    ensures
        seq![0x7bu8] + (Seq::<u8>::empty() + Seq::<u8>::empty() + x + seq![0x2cu8] + y
            + seq![0x2cu8] + z + seq![0x7du8]) == seq![0x7bu8] + (x + seq![0x2cu8] + y
            + seq![0x2cu8] + z) + seq![0x7du8],
{
    assert(seq![0x7bu8] + (Seq::<u8>::empty() + Seq::<u8>::empty() + x + seq![0x2cu8] + y
        + seq![0x2cu8] + z + seq![0x7du8]) =~= seq![0x7bu8] + (x + seq![0x2cu8] + y
        + seq![0x2cu8] + z) + seq![0x7du8]);
}

/// How the pieces of the request for friends make up its members.
proof fn lemma_friend_pieces(
    any: Seq<u8>,
    n0: Seq<u8>,
    n1: Seq<u8>,
    n2: Seq<u8>,
    n3: Seq<u8>,
    x: Seq<u8>,
    y: Seq<u8>,
    z: Seq<u8>,
)
    ensures
        ({
            let q = seq![0x22u8];
            let qc = seq![0x22u8, 0x3au8];
            let p1 = q + n1 + qc + x;
            let p2 = q + n2 + qc + y;
            let p3 = q + n3 + qc + (q + z + q);
            let inner = seq![0x7bu8] + (p1 + seq![0x2cu8] + p2 + seq![0x2cu8] + p3) + seq![0x7du8];
            any + (q + n0 + seq![0x22u8, 0x3au8, 0x7bu8, 0x22u8] + n1 + qc) + x + (seq![
                0x2cu8,
                0x22u8,
            ] + n2 + qc) + y + (seq![0x2cu8, 0x22u8] + n3 + seq![0x22u8, 0x3au8, 0x22u8]) + z
                + seq![0x22u8, 0x7du8] == any + (q + n0 + qc + inner)
        }),
{
    let q = seq![0x22u8];
    let qc = seq![0x22u8, 0x3au8];
    let p1 = q + n1 + qc + x;
    let p2 = q + n2 + qc + y;
    let p3 = q + n3 + qc + (q + z + q);
    let inner = seq![0x7bu8] + (p1 + seq![0x2cu8] + p2 + seq![0x2cu8] + p3) + seq![0x7du8];
    let left1 = any + (q + n0 + seq![0x22u8, 0x3au8, 0x7bu8, 0x22u8] + n1 + qc) + x;
    let right1 = any + (q + n0 + qc) + seq![0x7bu8] + p1;
    assert(left1 =~= right1);
    let left2 = left1 + (seq![0x2cu8, 0x22u8] + n2 + qc) + y;
    let right2 = right1 + seq![0x2cu8] + p2;
    assert(left2 =~= right2);
    let left3 = left2 + (seq![0x2cu8, 0x22u8] + n3 + seq![0x22u8, 0x3au8, 0x22u8]) + z + seq![
        0x22u8,
        0x7du8,
    ];
    let right3 = right2 + seq![0x2cu8] + p3 + seq![0x7du8];
    assert(left3 =~= right3);
    lemma_unnest(any, q + n0 + qc, p1, p2, p3);
}

proof fn lemma_unnest(any: Seq<u8>, n: Seq<u8>, p1: Seq<u8>, p2: Seq<u8>, p3: Seq<u8>)
    ensures
        any + n + seq![0x7bu8] + p1 + seq![0x2cu8] + p2 + seq![0x2cu8] + p3 + seq![0x7du8] == any
            + (n + (seq![0x7bu8] + (p1 + seq![0x2cu8] + p2 + seq![0x2cu8] + p3) + seq![0x7du8])),
{
    assert(any + n + seq![0x7bu8] + p1 + seq![0x2cu8] + p2 + seq![0x2cu8] + p3 + seq![0x7du8]
        =~= any + (n + (seq![0x7bu8] + (p1 + seq![0x2cu8] + p2 + seq![0x2cu8] + p3) + seq![
        0x7du8,
    ])));
}

proof fn lemma_friends(any: bool, f: lobby_requests::FriendsFilter)
    ensures
        lobby_requests::friends_member(any, Some(f)) == sep(any) + part_text(
            object_part("FriendsFilter"@, friends_text(f)),
        ),
        reads_as(friends_text(f), bytes::text_of(friends_text(f))),
{
    lemma_friend_names();
    lemma_friend_parts(f);
    lemma_object_reads(friend_parts(f));
    lemma_marks();
    lemma_friends_text(f);
    lemma_friend_pieces(
        sep(any),
        lobby_model::utf8("FriendsFilter"@),
        lobby_model::utf8("IncludeSteamFriends"@),
        lobby_model::utf8("IncludeFacebookFriends"@),
        lobby_model::utf8("IncludeXboxFriendsToken"@),
        lobby_model::utf8(lobby_requests::bool_word(f.steam)),
        lobby_model::utf8(lobby_requests::bool_word(f.facebook)),
        lobby_model::quoted(f.xbox_token@),
    );
    assert(lobby_requests::comma(any) == sep(any));
    let v = friend_parts(f);
    assert(v[0] == word_part("IncludeSteamFriends"@, lobby_requests::bool_word(f.steam)));
    assert(v[1] == word_part("IncludeFacebookFriends"@, lobby_requests::bool_word(f.facebook)));
    assert(v[2] == string_part("IncludeXboxFriendsToken"@, f.xbox_token@));
}

/// Which friends a search asks for.
pub proof fn friends_are_said(f: lobby_requests::FriendsFilter)
    ensures
        assoc::lookup(said(friends_text(f)), "IncludeSteamFriends"@) == Some(
            lobby_requests::bool_word(f.steam),
        ),
        assoc::lookup(said(friends_text(f)), "IncludeFacebookFriends"@) == Some(
            lobby_requests::bool_word(f.facebook),
        ),
        assoc::lookup(said(friends_text(f)), "IncludeXboxFriendsToken"@) == Some(f.xbox_token@),
{
    lemma_friend_names();
    lemma_friend_parts(f);
    let v = friend_parts(f);
    lemma_object(v);
    assert(v[0].name == "IncludeSteamFriends"@ && v[1].name == "IncludeFacebookFriends"@
        && v[2].name == "IncludeXboxFriendsToken"@);
    lemma_values_have(Seq::empty(), v, 0);
    lemma_values_have(Seq::empty(), v, 1);
    lemma_values_have(Seq::empty(), v, 2);
}

/// The members of a request to search.
pub open spec fn search_parts(entity: Seq<char>, s: Search) -> Seq<Part> {
    let a = if entity.len() > 0 {
        Seq::empty().push(string_part("EntityId"@, entity))
    } else {
        Seq::empty()
    };
    let b = if s.filter@.len() > 0 { a.push(string_part("Filter"@, s.filter@)) } else { a };
    let c = if s.sort@.len() > 0 { b.push(string_part("Sort"@, s.sort@)) } else { b };
    let d = match s.count {
        Some(n) => c.push(word_part("ClientSearchResultCount"@, text::decimal(n as nat))),
        None => c,
    };
    match s.friends {
        Some(f) => d.push(object_part("FriendsFilter"@, friends_text(f))),
        None => d,
    }
}

proof fn lemma_string_member(v: Seq<Part>, lit: Seq<char>, name: Seq<char>, value: Seq<char>)
    requires
        are_readable(v),
        is_plain(name),
        lobby_model::utf8(lit) == seq![0x22u8] + lobby_model::utf8(name) + seq![
            0x22u8,
            0x3au8,
            0x22u8,
        ],
    ensures
        ({
            let w = if value.len() > 0 { v.push(string_part(name, value)) } else { v };
            &&& are_readable(w)
            &&& front(w) == front(v) + lobby_requests::search_member(v.len() > 0, lit, value)
        }),
{
    lemma_marks();
    let p = string_part(name, value);
    lemma_front_pushed(v, p);
    lemma_string_reads(value);
    lemma_readable_pushed(v, p);
    if value.len() > 0 {
        assert(front(v.push(p)) =~= front(v) + lobby_requests::search_member(
            v.len() > 0,
            lit,
            value,
        ));
    } else {
        assert(front(v) =~= front(v) + lobby_requests::search_member(v.len() > 0, lit, value));
    }
}

proof fn lemma_count_member(v: Seq<Part>, count: Option<u32>)
    requires
        are_readable(v),
    ensures
        ({
            let w = match count {
                Some(n) => v.push(word_part("ClientSearchResultCount"@, text::decimal(n as nat))),
                None => v,
            };
            &&& are_readable(w)
            &&& front(w) == front(v) + lobby_requests::count_member(v.len() > 0, count)
        }),
{
    if let Some(n) = count {
        let p = word_part("ClientSearchResultCount"@, text::decimal(n as nat));
        lemma_marks();
        lemma_search_names();
        lemma_number_reads(n as nat);
        lemma_readable_pushed(v, p);
        lemma_front_pushed(v, p);
        assert(front(v.push(p)) =~= front(v) + lobby_requests::count_member(v.len() > 0, count));
    } else {
        assert(front(v) =~= front(v) + lobby_requests::count_member(v.len() > 0, count));
    }
}

proof fn lemma_friends_member(v: Seq<Part>, friends: Option<lobby_requests::FriendsFilter>)
    requires
        are_readable(v),
    ensures
        ({
            let w = match friends {
                Some(f) => v.push(object_part("FriendsFilter"@, friends_text(f))),
                None => v,
            };
            &&& are_readable(w)
            &&& front(w) == front(v) + lobby_requests::friends_member(v.len() > 0, friends)
        }),
{
    if let Some(f) = friends {
        let p = object_part("FriendsFilter"@, friends_text(f));
        lemma_search_names();
        lemma_friends(v.len() > 0, f);
        lemma_readable_pushed(v, p);
        lemma_front_pushed(v, p);
        assert(front(v) + sep(v.len() > 0) + part_text(p) =~= front(v) + (sep(v.len() > 0)
            + part_text(p)));
    } else {
        assert(front(v) =~= front(v) + lobby_requests::friends_member(v.len() > 0, friends));
    }
}

proof fn lemma_five(
    a: Seq<u8>,
    b: Seq<u8>,
    c: Seq<u8>,
    d: Seq<u8>,
    e: Seq<u8>,
    open: Seq<u8>,
    end: Seq<u8>,
)
    ensures
        open + a + b + c + d + e + end == open + (Seq::<u8>::empty() + a + b + c + d + e + end),
{
    assert(open + a + b + c + d + e + end =~= open + (Seq::<u8>::empty() + a + b + c + d + e
        + end));
}

proof fn lemma_search_text(entity: Seq<char>, s: Search)
    ensures
        lobby_requests::find_text(entity, s) == seq![0x7bu8] + rest_text(search_parts(entity, s)),
        are_readable(search_parts(entity, s)),
        search_parts(entity, s).len() <= 5,
{
    lemma_marks();
    lemma_search_names();
    let o = Seq::<Part>::empty();
    assert(are_readable(o));
    lemma_string_member(o, "\"EntityId\":\""@, "EntityId"@, entity);
    let a = if entity.len() > 0 { o.push(string_part("EntityId"@, entity)) } else { o };
    lemma_string_member(a, "\"Filter\":\""@, "Filter"@, s.filter@);
    let b = if s.filter@.len() > 0 { a.push(string_part("Filter"@, s.filter@)) } else { a };
    lemma_string_member(b, "\"Sort\":\""@, "Sort"@, s.sort@);
    let c = if s.sort@.len() > 0 { b.push(string_part("Sort"@, s.sort@)) } else { b };
    let d = match s.count {
        Some(n) => c.push(word_part("ClientSearchResultCount"@, text::decimal(n as nat))),
        None => c,
    };
    lemma_count_member(c, s.count);
    let e = search_parts(entity, s);
    lemma_friends_member(d, s.friends);
    lemma_front_pushed(e, string_part(entity, entity));
    lemma_front_pushed(o, string_part(entity, entity));
    lemma_five(
        lobby_requests::search_member(false, "\"EntityId\":\""@, entity),
        lobby_requests::search_member(a.len() > 0, "\"Filter\":\""@, s.filter@),
        lobby_requests::search_member(b.len() > 0, "\"Sort\":\""@, s.sort@),
        lobby_requests::count_member(c.len() > 0, s.count),
        lobby_requests::friends_member(d.len() > 0, s.friends),
        seq![0x7bu8],
        seq![0x7du8],
    );
}

/// A request to search says who searches, by what filter, in what order, for how many lobbies and
/// for which friends, each exactly when it is given.
pub proof fn search_request_says_what_is_asked(entity: Seq<char>, s: Search)
    ensures
        ({
            let r = said(lobby_requests::find_text(entity, s));
            &&& assoc::lookup(r, "EntityId"@) == (if entity.len() > 0 {
                Some(entity)
            } else {
                None
            })
            &&& assoc::lookup(r, "Filter"@) == (if s.filter@.len() > 0 {
                Some(s.filter@)
            } else {
                None
            })
            &&& assoc::lookup(r, "Sort"@) == (if s.sort@.len() > 0 { Some(s.sort@) } else { None })
            &&& assoc::lookup(r, "ClientSearchResultCount"@) == (match s.count {
                Some(n) => Some(text::decimal(n as nat)),
                None => None,
            })
            &&& assoc::lookup(r, "FriendsFilter"@) == (match s.friends {
                Some(f) => Some(bytes::text_of(friends_text(f))),
                None => None,
            })
        }),
{
    lemma_search_names();
    lemma_search_text(entity, s);
    lemma_object(search_parts(entity, s));
    lemma_search_lookup(entity, s, "EntityId"@);
    lemma_search_lookup(entity, s, "Filter"@);
    lemma_search_lookup(entity, s, "Sort"@);
    lemma_search_lookup(entity, s, "ClientSearchResultCount"@);
    lemma_search_lookup(entity, s, "FriendsFilter"@);
}

proof fn lemma_search_lookup(entity: Seq<char>, s: Search, key: Seq<char>)
    ensures
        assoc::lookup(values(Seq::empty(), search_parts(entity, s)), key) == (if s.friends is Some
            && key == "FriendsFilter"@ {
            Some(bytes::text_of(friends_text(s.friends->0)))
        } else if s.count is Some && key == "ClientSearchResultCount"@ {
            Some(text::decimal(s.count->0 as nat))
        } else if s.sort@.len() > 0 && key == "Sort"@ {
            Some(s.sort@)
        } else if s.filter@.len() > 0 && key == "Filter"@ {
            Some(s.filter@)
        } else if entity.len() > 0 && key == "EntityId"@ {
            Some(entity)
        } else {
            None
        }),
{
    let o = Seq::<Part>::empty();
    lemma_pushed(o, string_part("EntityId"@, entity), key);
    let a = if entity.len() > 0 { o.push(string_part("EntityId"@, entity)) } else { o };
    lemma_pushed(a, string_part("Filter"@, s.filter@), key);
    let b = if s.filter@.len() > 0 { a.push(string_part("Filter"@, s.filter@)) } else { a };
    lemma_pushed(b, string_part("Sort"@, s.sort@), key);
    let c = if s.sort@.len() > 0 { b.push(string_part("Sort"@, s.sort@)) } else { b };
    let d = match s.count {
        Some(n) => c.push(word_part("ClientSearchResultCount"@, text::decimal(n as nat))),
        None => c,
    };
    if let Some(n) = s.count {
        lemma_pushed(c, word_part("ClientSearchResultCount"@, text::decimal(n as nat)), key);
    }
    if let Some(f) = s.friends {
        lemma_pushed(d, object_part("FriendsFilter"@, friends_text(f)), key);
    }
    assert(assoc::lookup(values(Seq::empty(), o), key) is None);
}

// Requests written piece by piece

/// The bytes that open a member behind others.
pub open spec fn opens(x: Seq<u8>, name: Seq<char>) -> bool {
    x == seq![0x2cu8, 0x22u8] + lobby_model::utf8(name) + seq![0x22u8, 0x3au8]
}

/// What is written so far of an object whose members so far are readable.
pub open spec fn is_begun(t: Seq<u8>, v: Seq<Part>) -> bool {
    t == seq![0x7bu8] + front(v) && v.len() > 0 && are_readable(v)
}

proof fn lemma_first(t: Seq<u8>, p: Part)
    requires
        t == seq![0x7bu8, 0x22u8] + lobby_model::utf8(p.name) + seq![0x22u8, 0x3au8] + p.bytes,
        is_plain(p.name),
        reads_as(p.bytes, p.value),
    ensures
        is_begun(t, Seq::empty().push(p)),
{
    let o = Seq::<Part>::empty();
    lemma_front_pushed(o, p);
    assert(are_readable(o));
    lemma_readable_pushed(o, p);
    assert(t =~= seq![0x7bu8] + (Seq::<u8>::empty() + sep(false) + part_text(p)));
}

proof fn lemma_next(t: Seq<u8>, v: Seq<Part>, lit: Seq<u8>, p: Part)
    requires
        is_begun(t, v),
        opens(lit, p.name),
        is_plain(p.name),
        reads_as(p.bytes, p.value),
    ensures
        is_begun(t + lit + p.bytes, v.push(p)),
        is_begun(t + (lit + p.bytes), v.push(p)),
{
    lemma_front_pushed(v, p);
    lemma_readable_pushed(v, p);
    assert(t + (lit + p.bytes) =~= t + lit + p.bytes);
    assert(lit + p.bytes =~= sep(true) + part_text(p));
    assert(t + (sep(true) + part_text(p)) =~= seq![0x7bu8] + (front(v) + sep(true) + part_text(p)));
}

proof fn lemma_done(t: Seq<u8>, v: Seq<Part>)
    requires
        is_begun(t, v),
    ensures
        t + lobby_model::utf8("}"@) == seq![0x7bu8] + rest_text(v),
        v.len() <= 64 ==> said(t + lobby_model::utf8("}"@)) == values(Seq::empty(), v),
{
    lemma_marks();
    lemma_front_pushed(v, v[0]);
    assert(t + seq![0x7du8] =~= seq![0x7bu8] + (front(v) + seq![0x7du8]));
    if v.len() <= 64 {
        lemma_object(v);
    }
}

proof fn lemma_comma_name(lit: Seq<char>, name: Seq<char>)
    requires
        lit == ",\""@ + name + "\":"@,
        is_name(name),
    ensures
        opens(lobby_model::utf8(lit), name),
        is_plain(name),
{
    lemma_marks();
    lemma_opening(lit, ",\""@, name, "\":"@);
}

proof fn lemma_brace_name(lit: Seq<char>, name: Seq<char>)
    requires
        lit == "{\""@ + name + "\":"@,
        is_name(name),
    ensures
        lobby_model::utf8(lit) == seq![0x7bu8, 0x22u8] + lobby_model::utf8(name) + seq![
            0x22u8,
            0x3au8,
        ],
        is_plain(name),
{
    lemma_marks();
    lemma_opening(lit, "{\""@, name, "\":"@);
}

/// A string value whose quotes stand in the pieces around it.
proof fn lemma_brace_string(lit: Seq<char>, name: Seq<char>, q: Seq<u8>)
    requires
        lit == "{\""@ + name + "\":\""@,
        is_name(name),
    ensures
        lobby_model::utf8(lit) + q + seq![0x22u8] == seq![0x7bu8, 0x22u8] + lobby_model::utf8(name)
            + seq![0x22u8, 0x3au8] + (seq![0x22u8] + q + seq![0x22u8]),
        is_plain(name),
{
    lemma_marks();
    lemma_opening(lit, "{\""@, name, "\":\""@);
    assert(lobby_model::utf8(lit) + q + seq![0x22u8] =~= seq![0x7bu8, 0x22u8] + lobby_model::utf8(
        name,
    ) + seq![0x22u8, 0x3au8] + (seq![0x22u8] + q + seq![0x22u8]));
}

/// The name of a lobby, which is written as it is.
proof fn lemma_raw_string(id: Seq<char>)
    requires
        is_plain(id),
    ensures
        lobby_model::quoted(id) == lobby_model::utf8(id),
{
    lemma_plain(lobby_model::utf8(id));
}

// Making, joining, looking and leaving

proof fn lemma_create_names()
    ensures
        "MaxPlayers"@.len() == 10,
        "OwnerMigrationPolicy"@.len() == 20,
        "LobbyData"@.len() == 9,
        "SearchData"@.len() == 10,
        "Owner"@.len() == 5,
        "MemberData"@.len() == 10,
        "MaxPlayers"@ != "SearchData"@,
        "MaxPlayers"@ != "MemberData"@,
        "SearchData"@ != "MemberData"@,
        is_plain("MaxPlayers"@),
        lobby_model::utf8("{\"MaxPlayers\":"@) == seq![0x7bu8, 0x22u8] + lobby_model::utf8(
            "MaxPlayers"@,
        ) + seq![0x22u8, 0x3au8],
        is_plain("OwnerMigrationPolicy"@),
        opens(lobby_model::utf8(",\"OwnerMigrationPolicy\":"@), "OwnerMigrationPolicy"@),
        is_plain("LobbyData"@),
        opens(lobby_model::utf8(",\"LobbyData\":"@), "LobbyData"@),
        is_plain("SearchData"@),
        opens(lobby_model::utf8(",\"SearchData\":"@), "SearchData"@),
        is_plain("Owner"@),
        opens(lobby_model::utf8(",\"Owner\":"@), "Owner"@),
        is_plain("MemberData"@),
        opens(lobby_model::utf8(",\"MemberData\":"@), "MemberData"@),
{
    reveal_strlit("MaxPlayers");
    reveal_strlit("OwnerMigrationPolicy");
    reveal_strlit("LobbyData");
    reveal_strlit("SearchData");
    reveal_strlit("Owner");
    reveal_strlit("MemberData");
    assert("MaxPlayers"@[0] != "SearchData"@[0]);
    assert("MaxPlayers"@[1] != "MemberData"@[1]);
    assert("SearchData"@[0] != "MemberData"@[0]);
    reveal_strlit("{\"");
    reveal_strlit(",\"");
    reveal_strlit("\":");
    reveal_strlit("{\"MaxPlayers\":");
    reveal_strlit(",\"OwnerMigrationPolicy\":");
    reveal_strlit(",\"LobbyData\":");
    reveal_strlit(",\"SearchData\":");
    reveal_strlit(",\"Owner\":");
    reveal_strlit(",\"MemberData\":");
    assert("{\"MaxPlayers\":"@ =~= "{\""@ + "MaxPlayers"@ + "\":"@);
    assert(",\"OwnerMigrationPolicy\":"@ =~= ",\""@ + "OwnerMigrationPolicy"@ + "\":"@);
    assert(",\"LobbyData\":"@ =~= ",\""@ + "LobbyData"@ + "\":"@);
    assert(",\"SearchData\":"@ =~= ",\""@ + "SearchData"@ + "\":"@);
    assert(",\"Owner\":"@ =~= ",\""@ + "Owner"@ + "\":"@);
    assert(",\"MemberData\":"@ =~= ",\""@ + "MemberData"@ + "\":"@);
    lemma_brace_name("{\"MaxPlayers\":"@, "MaxPlayers"@);
    lemma_comma_name(",\"OwnerMigrationPolicy\":"@, "OwnerMigrationPolicy"@);
    lemma_comma_name(",\"LobbyData\":"@, "LobbyData"@);
    lemma_comma_name(",\"SearchData\":"@, "SearchData"@);
    lemma_comma_name(",\"Owner\":"@, "Owner"@);
    lemma_comma_name(",\"MemberData\":"@, "MemberData"@);
}

proof fn lemma_entity_reads(id: Seq<char>, kind: Seq<char>)
    ensures
        reads_as(
            lobby_requests::entity_text(id, kind),
            bytes::text_of(lobby_requests::entity_text(id, kind)),
        ),
{
    lemma_entity_text(id, kind);
    lemma_properties(entity_properties(id, kind));
}

/// The six members of a request to make a lobby.
pub open spec fn create_parts(
    max: u32,
    policy: u32,
    lobby_data: Seq<(Seq<char>, Seq<char>)>,
    search: Seq<(Seq<char>, Seq<char>)>,
    owner: Seq<char>,
    member: Seq<(Seq<char>, Seq<char>)>,
) -> (Part, Part, Part, Part, Part, Part) {
    (
        word_part("MaxPlayers"@, text::decimal(max as nat)),
        word_part("OwnerMigrationPolicy"@, text::decimal(policy as nat)),
        object_part("LobbyData"@, lobby_model::object_text(lobby_data)),
        object_part("SearchData"@, lobby_model::object_text(search)),
        object_part("Owner"@, lobby_requests::entity_text(owner, "title_player_account"@)),
        object_part(
            "MemberData"@,
            lobby_model::object_text(lobby_model::member_values(owner, member)),
        ),
    )
}

pub open spec fn six(p: (Part, Part, Part, Part, Part, Part), fifth: bool) -> Seq<Part> {
    let v4 = Seq::<Part>::empty().push(p.0).push(p.1).push(p.2).push(p.3);
    let v5 = if fifth { v4.push(p.4) } else { v4 };
    v5.push(p.5)
}

/// Six pieces, of which the fifth may be missing, make up an object.
proof fn lemma_six_pieces(
    p: (Part, Part, Part, Part, Part, Part),
    fifth: bool,
    t1: Seq<u8>,
    l2: Seq<u8>,
    l3: Seq<u8>,
    l4: Seq<u8>,
    l5: Seq<u8>,
    l6: Seq<u8>,
)
    requires
        is_begun(t1, Seq::<Part>::empty().push(p.0)),
        opens(l2, p.1.name) && is_plain(p.1.name) && reads_as(p.1.bytes, p.1.value),
        opens(l3, p.2.name) && is_plain(p.2.name) && reads_as(p.2.bytes, p.2.value),
        opens(l4, p.3.name) && is_plain(p.3.name) && reads_as(p.3.bytes, p.3.value),
        opens(l5, p.4.name) && is_plain(p.4.name) && reads_as(p.4.bytes, p.4.value),
        opens(l6, p.5.name) && is_plain(p.5.name) && reads_as(p.5.bytes, p.5.value),
    ensures
        said(
            t1 + l2 + p.1.bytes + l3 + p.2.bytes + l4 + p.3.bytes + (if fifth {
                l5 + p.4.bytes
            } else {
                Seq::empty()
            }) + l6 + p.5.bytes + lobby_model::utf8("}"@),
        ) == values(Seq::empty(), six(p, fifth)),
{
    let v1 = Seq::<Part>::empty().push(p.0);
    lemma_next(t1, v1, l2, p.1);
    let t2 = t1 + l2 + p.1.bytes;
    let v2 = v1.push(p.1);
    lemma_next(t2, v2, l3, p.2);
    let t3 = t2 + l3 + p.2.bytes;
    let v3 = v2.push(p.2);
    lemma_next(t3, v3, l4, p.3);
    let t4 = t3 + l4 + p.3.bytes;
    let v4 = v3.push(p.3);
    lemma_next(t4, v4, l5, p.4);
    let t5 = t4 + (if fifth { l5 + p.4.bytes } else { Seq::empty() });
    let v5 = if fifth { v4.push(p.4) } else { v4 };
    assert(t4 + Seq::<u8>::empty() =~= t4);
    lemma_next(t5, v5, l6, p.5);
    lemma_done(t5 + l6 + p.5.bytes, v5.push(p.5));
}

proof fn lemma_create_text(
    max: u32,
    policy: u32,
    lobby_data: Seq<(Seq<char>, Seq<char>)>,
    search: Seq<(Seq<char>, Seq<char>)>,
    owner: Seq<char>,
    member: Seq<(Seq<char>, Seq<char>)>,
)
    requires
        has_plain_names(lobby_data),
        has_plain_names(search),
        has_plain_names(lobby_model::member_values(owner, member)),
    ensures
        said(lobby_requests::create_text(max, policy, lobby_data, search, owner, member)) == values(
            Seq::empty(),
            six(create_parts(max, policy, lobby_data, search, owner, member), owner.len() > 0),
        ),
{
    lemma_create_names();
    lemma_number_reads(max as nat);
    lemma_number_reads(policy as nat);
    lemma_properties(lobby_data);
    lemma_properties(search);
    lemma_properties(lobby_model::member_values(owner, member));
    lemma_entity_reads(owner, "title_player_account"@);
    let p = create_parts(max, policy, lobby_data, search, owner, member);
    let t1 = lobby_model::utf8("{\"MaxPlayers\":"@) + lobby_requests::number_text(max as nat);
    lemma_first(t1, p.0);
    lemma_six_pieces(
        p,
        owner.len() > 0,
        t1,
        lobby_model::utf8(",\"OwnerMigrationPolicy\":"@),
        lobby_model::utf8(",\"LobbyData\":"@),
        lobby_model::utf8(",\"SearchData\":"@),
        lobby_model::utf8(",\"Owner\":"@),
        lobby_model::utf8(",\"MemberData\":"@),
    );
}

/// A request to make a lobby says how many players it is for, what happens when its owner leaves,
/// which properties it has, who owns it, where somebody is named, and the data of that member.
pub proof fn create_request_says_what_is_asked(
    max: u32,
    policy: u32,
    lobby_data: Seq<(Seq<char>, Seq<char>)>,
    search: Seq<(Seq<char>, Seq<char>)>,
    owner: Seq<char>,
    member: Seq<(Seq<char>, Seq<char>)>,
)
    requires
        has_plain_names(lobby_data),
        has_plain_names(search),
        has_plain_names(lobby_model::member_values(owner, member)),
    ensures
        ({
            let r = said(
                lobby_requests::create_text(max, policy, lobby_data, search, owner, member),
            );
            &&& assoc::lookup(r, "MaxPlayers"@) == Some(text::decimal(max as nat))
            &&& assoc::lookup(r, "OwnerMigrationPolicy"@) == Some(text::decimal(policy as nat))
            &&& assoc::lookup(r, "LobbyData"@) == Some(
                bytes::text_of(lobby_model::object_text(lobby_data)),
            )
            &&& assoc::lookup(r, "SearchData"@) == Some(
                bytes::text_of(lobby_model::object_text(search)),
            )
            &&& assoc::lookup(r, "Owner"@) == (if owner.len() == 0 {
                None
            } else {
                Some(bytes::text_of(lobby_requests::entity_text(owner, "title_player_account"@)))
            })
            &&& assoc::lookup(r, "MemberData"@) == Some(
                bytes::text_of(
                    lobby_model::object_text(lobby_model::member_values(owner, member)),
                ),
            )
        }),
{
    lemma_create_names();
    lemma_create_text(max, policy, lobby_data, search, owner, member);
    let p = create_parts(max, policy, lobby_data, search, owner, member);
    let named = owner.len() > 0;
    lemma_six(p, named, "MaxPlayers"@);
    lemma_six(p, named, "OwnerMigrationPolicy"@);
    lemma_six(p, named, "LobbyData"@);
    lemma_six(p, named, "SearchData"@);
    lemma_six(p, named, "Owner"@);
    lemma_six(p, named, "MemberData"@);
}

proof fn lemma_six(p: (Part, Part, Part, Part, Part, Part), fifth: bool, key: Seq<char>)
    ensures
        assoc::lookup(values(Seq::empty(), six(p, fifth)), key) == (if key == p.5.name {
            Some(p.5.value)
        } else if fifth && key == p.4.name {
            Some(p.4.value)
        } else if key == p.3.name {
            Some(p.3.value)
        } else if key == p.2.name {
            Some(p.2.value)
        } else if key == p.1.name {
            Some(p.1.value)
        } else if key == p.0.name {
            Some(p.0.value)
        } else {
            None
        }),
{
    let v0 = Seq::<Part>::empty();
    let v1 = v0.push(p.0);
    let v2 = v1.push(p.1);
    let v3 = v2.push(p.2);
    let v4 = v3.push(p.3);
    let v5 = if fifth { v4.push(p.4) } else { v4 };
    assert(assoc::lookup(values(Seq::empty(), v0), key) is None);
    lemma_pushed(v0, p.0, key);
    lemma_pushed(v1, p.1, key);
    lemma_pushed(v2, p.2, key);
    lemma_pushed(v3, p.3, key);
    lemma_pushed(v4, p.4, key);
    lemma_pushed(v5, p.5, key);
}

proof fn lemma_join_names()
    ensures
        "ConnectionString"@.len() == 16,
        "MemberEntity"@.len() == 12,
        "LobbyId"@.len() == 7,
        "EntityId"@.len() == 8,
        "MemberData"@.len() == 10,
        is_name("ConnectionString"@),
        is_name("LobbyId"@),
        is_name("EntityId"@),
        "{\"ConnectionString\":\""@ == "{\""@ + "ConnectionString"@ + "\":\""@,
        "{\"LobbyId\":\""@ == "{\""@ + "LobbyId"@ + "\":\""@,
        "\",\"EntityId\":\""@ == "\",\""@ + "EntityId"@ + "\":\""@,
        is_plain("MemberEntity"@),
        opens(lobby_model::utf8(",\"MemberEntity\":"@), "MemberEntity"@),
{
    reveal_strlit("ConnectionString");
    reveal_strlit("MemberEntity");
    reveal_strlit("LobbyId");
    reveal_strlit("EntityId");
    reveal_strlit("MemberData");
    reveal_strlit("{\"");
    reveal_strlit(",\"");
    reveal_strlit("\",\"");
    reveal_strlit("\":");
    reveal_strlit("\":\"");
    reveal_strlit("{\"ConnectionString\":\"");
    reveal_strlit("{\"LobbyId\":\"");
    reveal_strlit("\",\"EntityId\":\"");
    reveal_strlit(",\"MemberEntity\":");
    assert("{\"ConnectionString\":\""@ =~= "{\""@ + "ConnectionString"@ + "\":\""@);
    assert("{\"LobbyId\":\""@ =~= "{\""@ + "LobbyId"@ + "\":\""@);
    assert("\",\"EntityId\":\""@ =~= "\",\""@ + "EntityId"@ + "\":\""@);
    assert(",\"MemberEntity\":"@ =~= ",\""@ + "MemberEntity"@ + "\":"@);
    lemma_comma_name(",\"MemberEntity\":"@, "MemberEntity"@);
}

/// A request to join says by which connection string and, where somebody is named, who joins and
/// with which data.
pub proof fn join_request_says_what_is_asked(
    connection: Seq<char>,
    joiner: Seq<char>,
    member: Seq<(Seq<char>, Seq<char>)>,
)
    requires
        has_plain_names(lobby_model::member_values(joiner, member)),
    ensures
        ({
            let r = said(lobby_requests::join_text(connection, joiner, member));
            &&& assoc::lookup(r, "ConnectionString"@) == Some(connection)
            &&& joiner.len() > 0 ==> assoc::lookup(r, "MemberEntity"@) == Some(
                bytes::text_of(lobby_requests::entity_text(joiner, "title_player_account"@)),
            )
            &&& joiner.len() > 0 ==> assoc::lookup(r, "MemberData"@) == Some(
                bytes::text_of(
                    lobby_model::object_text(lobby_model::member_values(joiner, member)),
                ),
            )
            &&& joiner.len() == 0 ==> assoc::lookup(r, "MemberEntity"@) is None && assoc::lookup(
                r,
                "MemberData"@,
            ) is None
        }),
{
    lemma_join_names();
    lemma_create_names();
    lemma_marks();
    let q = lobby_model::quoted(connection);
    let p1 = string_part("ConnectionString"@, connection);
    lemma_brace_string("{\"ConnectionString\":\""@, "ConnectionString"@, q);
    lemma_string_reads(connection);
    let t1 = lobby_model::utf8("{\"ConnectionString\":\""@) + q + lobby_model::utf8("\""@);
    let v1 = Seq::<Part>::empty().push(p1);
    lemma_first(t1, p1);
    let who = lobby_requests::entity_text(joiner, "title_player_account"@);
    lemma_entity_reads(joiner, "title_player_account"@);
    let mine = lobby_model::member_values(joiner, member);
    lemma_properties(mine);
    let p2 = object_part("MemberEntity"@, who);
    let p3 = object_part("MemberData"@, lobby_model::object_text(mine));
    let l2 = lobby_model::utf8(",\"MemberEntity\":"@);
    let l3 = lobby_model::utf8(",\"MemberData\":"@);
    lemma_next(t1, v1, l2, p2);
    let v2 = v1.push(p2);
    lemma_next(t1 + l2 + who, v2, l3, p3);
    let v3 = v2.push(p3);
    assert(t1 + (l2 + who + l3 + p3.bytes) =~= t1 + l2 + who + l3 + p3.bytes);
    assert(t1 + Seq::<u8>::empty() =~= t1);
    if joiner.len() == 0 {
        lemma_done(t1, v1);
    } else {
        lemma_done(t1 + l2 + who + l3 + p3.bytes, v3);
    }
    lemma_three_parts(p1, p2, p3, "ConnectionString"@);
    lemma_three_parts(p1, p2, p3, "MemberEntity"@);
    lemma_three_parts(p1, p2, p3, "MemberData"@);
}

proof fn lemma_three_parts(p1: Part, p2: Part, p3: Part, key: Seq<char>)
    ensures
        ({
            let v1 = Seq::<Part>::empty().push(p1);
            &&& assoc::lookup(values(Seq::empty(), v1), key) == (if key == p1.name {
                Some(p1.value)
            } else {
                None
            })
            &&& assoc::lookup(values(Seq::empty(), v1.push(p2).push(p3)), key) == (if key
                == p3.name {
                Some(p3.value)
            } else if key == p2.name {
                Some(p2.value)
            } else if key == p1.name {
                Some(p1.value)
            } else {
                None
            })
        }),
{
    let v0 = Seq::<Part>::empty();
    let v1 = v0.push(p1);
    let v2 = v1.push(p2);
    assert(assoc::lookup(values(Seq::empty(), v0), key) is None);
    lemma_pushed(v0, p1, key);
    lemma_pushed(v1, p2, key);
    lemma_pushed(v2, p3, key);
}

/// A request to look at a lobby says which, and one to leave says which and who leaves, where
/// somebody is named.
pub proof fn look_and_leave_requests_say_what_is_asked(id: Seq<char>, entity: Seq<char>)
    requires
        is_plain(id),
    ensures
        assoc::lookup(said(lobby_requests::get_text(id)), "LobbyId"@) == Some(id),
        assoc::lookup(said(lobby_requests::probe_text(id)), "LobbyId"@) == Some(id),
        assoc::lookup(said(lobby_requests::leave_text(id, entity)), "LobbyId"@) == Some(id),
        assoc::lookup(said(lobby_requests::leave_text(id, entity)), "EntityId"@) == (if entity.len()
            > 0 {
            Some(entity)
        } else {
            None
        }),
{
    lemma_join_names();
    let p1 = string_part("LobbyId"@, id);
    let p2 = string_part("EntityId"@, entity);
    let v1 = Seq::<Part>::empty().push(p1);
    lemma_look_text(id);
    lemma_three_parts(p1, p2, p2, "LobbyId"@);
    lemma_three_parts(p1, p2, p2, "EntityId"@);
    if entity.len() > 0 {
        lemma_leave_text(id, entity);
        lemma_pushed(v1, p2, "LobbyId"@);
        lemma_pushed(v1, p2, "EntityId"@);
    }
}

/// What is written so far of a request that names a lobby.
pub open spec fn lobby_named(id: Seq<char>) -> Seq<u8> {
    lobby_model::utf8("{\"LobbyId\":\""@) + lobby_model::utf8(id) + seq![0x22u8]
}

proof fn lemma_lobby_named(id: Seq<char>)
    requires
        is_plain(id),
    ensures
        is_begun(lobby_named(id), Seq::<Part>::empty().push(string_part("LobbyId"@, id))),
{
    lemma_join_names();
    lemma_raw_string(id);
    lemma_brace_string("{\"LobbyId\":\""@, "LobbyId"@, lobby_model::utf8(id));
    lemma_string_reads(id);
    lemma_first(lobby_named(id), string_part("LobbyId"@, id));
}

proof fn lemma_look_text(id: Seq<char>)
    requires
        is_plain(id),
    ensures
        said(lobby_requests::get_text(id)) == values(
            Seq::empty(),
            Seq::<Part>::empty().push(string_part("LobbyId"@, id)),
        ),
        lobby_requests::probe_text(id) == lobby_requests::get_text(id),
{
    lemma_marks();
    lemma_raw_string(id);
    lemma_lobby_named(id);
    lemma_done(lobby_named(id), Seq::<Part>::empty().push(string_part("LobbyId"@, id)));
    assert(lobby_requests::get_text(id) =~= lobby_named(id) + seq![0x7du8]);
}

proof fn lemma_leave_text(id: Seq<char>, entity: Seq<char>)
    requires
        is_plain(id),
        entity.len() > 0,
    ensures
        said(lobby_requests::leave_text(id, entity)) == values(
            Seq::empty(),
            Seq::<Part>::empty().push(string_part("LobbyId"@, id)).push(
                string_part("EntityId"@, entity),
            ),
        ),
{
    lemma_marks();
    lemma_join_names();
    lemma_lobby_named(id);
    let v1 = Seq::<Part>::empty().push(string_part("LobbyId"@, id));
    let p2 = string_part("EntityId"@, entity);
    lemma_string_reads(entity);
    lemma_opening("\",\"EntityId\":\""@, "\",\""@, "EntityId"@, "\":\""@);
    let n = lobby_model::utf8("EntityId"@);
    let lit = seq![0x2cu8, 0x22u8] + n + seq![0x22u8, 0x3au8];
    lemma_next(lobby_named(id), v1, lit, p2);
    lemma_done(lobby_named(id) + lit + p2.bytes, v1.push(p2));
    lemma_leave_pieces(
        lobby_model::utf8("{\"LobbyId\":\""@) + lobby_model::utf8(id),
        n,
        lobby_model::quoted(entity),
    );
}

proof fn lemma_leave_pieces(t: Seq<u8>, n: Seq<u8>, q: Seq<u8>)
    ensures
        t + (seq![0x22u8, 0x2cu8, 0x22u8] + n + seq![0x22u8, 0x3au8, 0x22u8]) + q + seq![
            0x22u8,
            0x7du8,
        ] == t + seq![0x22u8] + (seq![0x2cu8, 0x22u8] + n + seq![0x22u8, 0x3au8]) + (seq![0x22u8]
            + q + seq![0x22u8]) + seq![0x7du8],
{
    assert(t + (seq![0x22u8, 0x2cu8, 0x22u8] + n + seq![0x22u8, 0x3au8, 0x22u8]) + q + seq![
        0x22u8,
        0x7du8,
    ] =~= t + seq![0x22u8] + (seq![0x2cu8, 0x22u8] + n + seq![0x22u8, 0x3au8]) + (seq![0x22u8] + q
        + seq![0x22u8]) + seq![0x7du8]);
}

// Updating

/// One member more, where there is one.
pub open spec fn maybe(v: Seq<Part>, some: bool, p: Part) -> Seq<Part> {
    if some { v.push(p) } else { v }
}

proof fn lemma_maybe(t: Seq<u8>, v: Seq<Part>, some: bool, lit: Seq<u8>, p: Part, piece: Seq<u8>)
    requires
        is_begun(t, v),
        some ==> opens(lit, p.name) && is_plain(p.name) && reads_as(p.bytes, p.value) && piece
            == lit + p.bytes,
        !some ==> piece.len() == 0,
    ensures
        is_begun(t + piece, maybe(v, some, p)),
{
    if some {
        lemma_next(t, v, lit, p);
    } else {
        assert(t + piece =~= t);
    }
}

proof fn lemma_maybe_lookup(v: Seq<Part>, some: bool, p: Part, key: Seq<char>)
    ensures
        assoc::lookup(values(Seq::empty(), maybe(v, some, p)), key) == (if some && key == p.name {
            Some(p.value)
        } else {
            assoc::lookup(values(Seq::empty(), v), key)
        }),
{
    lemma_pushed(v, p, key);
}

/// The array of some names.
pub open spec fn array_text(v: Seq<Seq<char>>) -> Seq<u8> {
    seq![0x5bu8] + lobby_requests::names_text(v) + seq![0x5du8]
}

proof fn lemma_names_passed(b: Seq<u8>, i: int, v: Seq<Seq<char>>, depth: int)
    requires
        stands_at(b, i, lobby_requests::names_text(v)),
        depth >= 1,
    ensures
        lobby_json::nested_end(b, i, depth, false, false) == lobby_json::nested_end(
            b,
            i + lobby_requests::names_text(v).len(),
            depth,
            false,
            false,
        ),
    decreases v.len(),
{
    if v.len() > 0 {
        lemma_marks();
        let all = lobby_requests::names_text(v);
        let front = lobby_requests::names_text(v.drop_last());
        let c = lobby_requests::comma(v.len() > 1);
        let x = string_text(v.last());
        let here = b.subrange(i, i + all.len());
        assert(all =~= front + c + x);
        assert(b.subrange(i, i + front.len()) =~= front) by {
            assert(b.subrange(i, i + front.len()) =~= here.subrange(0, front.len() as int));
        }
        lemma_names_passed(b, i, v.drop_last(), depth);
        let k = i + front.len();
        if v.len() > 1 {
            assert(b[k] == here[front.len() as int]);
            assert(b[k] == 0x2c);
        }
        let m = k + c.len();
        assert(b.subrange(m, m + x.len()) =~= x) by {
            assert(b.subrange(m, m + x.len()) =~= here.subrange(
                (front.len() + c.len()) as int,
                all.len() as int,
            ));
        }
        lemma_quoted_passed(b, m, lobby_model::utf8(v.last()), depth);
    }
}

proof fn lemma_array_reads(v: Seq<Seq<char>>)
    ensures
        reads_as(array_text(v), bytes::text_of(array_text(v))),
{
    reveal(reads_as);
    let x = array_text(v);
    assert forall|b: Seq<u8>, i: int| #[trigger]
        stands_at(b, i, x) && ends_value(b, i + x.len()) implies lobby_json::value_at(b, i) == (
        bytes::text_of(x),
        i + x.len(),
    ) by {
        lemma_array_value(b, i, v);
    }
}

proof fn lemma_array_value(b: Seq<u8>, i: int, v: Seq<Seq<char>>)
    requires
        stands_at(b, i, array_text(v)),
    ensures
        lobby_json::value_at(b, i) == (bytes::text_of(array_text(v)), i + array_text(v).len()),
{
    let x = array_text(v);
    let n = lobby_requests::names_text(v);
    let here = b.subrange(i, i + x.len());
    assert(b[i] == here[0]);
    assert(b.subrange(i + 1, i + 1 + n.len()) =~= n) by {
        assert(b.subrange(i + 1, i + 1 + n.len()) =~= here.subrange(1, 1int + n.len()));
    }
    lemma_names_passed(b, i + 1, v, 1);
    assert(b[i + 1 + n.len()] == here[1int + n.len()]);
}

/// Every name of a list is written in its array as a string, and in its turn: the place of a later
/// one lies behind that of an earlier one.
pub proof fn listed_names_are_said(v: Seq<Seq<char>>, i: int) -> (k: int)
    requires
        0 <= i < v.len(),
    ensures
        lobby_json::string_at(array_text(v), k) matches Some(r) && r.0 == v[i],
        k >= 1 + 2 * i,
        i == 0 ==> k == 1,
{
    let k = lemma_listed(v, i);
    let n = lobby_requests::names_text(v);
    let x = string_text(v[i]);
    let b = array_text(v);
    assert(n.subrange(k, k + x.len()) == x);
    assert(b.subrange(k + 1, k + 1 + x.len()) =~= n.subrange(k, k + x.len()));
    lemma_string_value(b, k + 1, v[i]);
    assert(b[k + 1] == b.subrange(k + 1, k + 1 + x.len())[0]);
    let after = b.skip(k + 1 + x.len());
    let q = lobby_model::quoted(v[i]);
    assert(b.take(k + 1) + seq![0x22u8] + q + seq![0x22u8] + after =~= b.take(k + 1) + x + after);
    assert(b =~= b.take(k + 1) + b.subrange(k + 1, k + 1 + x.len()) + after);
    lobby_json::string_reads_back(b.take(k + 1), v[i], after);
    k + 1
}

proof fn lemma_listed(v: Seq<Seq<char>>, i: int) -> (k: int)
    requires
        0 <= i < v.len(),
    ensures
        stands_at(lobby_requests::names_text(v), k, string_text(v[i])),
        k >= 2 * i,
        i == 0 ==> k == 0,
        lobby_requests::names_text(v).len() >= 2 * v.len(),
    decreases v.len(),
{
    lemma_marks();
    let all = lobby_requests::names_text(v);
    let t = v.drop_last();
    let front = lobby_requests::names_text(t);
    let c = lobby_requests::comma(v.len() > 1);
    let x = string_text(v.last());
    assert(all =~= front + c + x);
    if t.len() > 0 {
        let k0 = lemma_listed(t, 0);
    }
    if i < t.len() {
        let k = lemma_listed(t, i);
        let y = string_text(v[i]);
        assert(all.subrange(k, k + y.len()) =~= front.subrange(k, k + y.len()));
        k
    } else {
        let k = (front.len() + c.len()) as int;
        assert(all.subrange(k, k + x.len()) =~= x);
        k
    }
}

proof fn lemma_update_names()
    ensures
        is_name("LobbyId"@),
        "{\"LobbyId\":\""@ == "{\""@ + "LobbyId"@ + "\":\""@,
        lobby_model::utf8("\",\"LobbyData\":"@) == seq![0x22u8] + lobby_model::utf8(
            ",\"LobbyData\":"@,
        ),
        is_plain("SearchDataToDelete"@),
        lobby_model::utf8(",\"SearchDataToDelete\":["@) == lobby_model::utf8(
            ",\"SearchDataToDelete\":"@,
        ) + seq![0x5bu8],
        opens(lobby_model::utf8(",\"SearchDataToDelete\":"@), "SearchDataToDelete"@),
        is_plain("LobbyDataToDelete"@),
        lobby_model::utf8(",\"LobbyDataToDelete\":["@) == lobby_model::utf8(
            ",\"LobbyDataToDelete\":"@,
        ) + seq![0x5bu8],
        opens(lobby_model::utf8(",\"LobbyDataToDelete\":"@), "LobbyDataToDelete"@),
        is_plain("MemberDataToDelete"@),
        lobby_model::utf8(",\"MemberDataToDelete\":["@) == lobby_model::utf8(
            ",\"MemberDataToDelete\":"@,
        ) + seq![0x5bu8],
        opens(lobby_model::utf8(",\"MemberDataToDelete\":"@), "MemberDataToDelete"@),
        is_plain("MaxPlayers"@),
        opens(lobby_model::utf8(",\"MaxPlayers\":"@), "MaxPlayers"@),
        is_plain("AccessPolicy"@),
        lobby_model::utf8(",\"AccessPolicy\":\""@) == lobby_model::utf8(",\"AccessPolicy\":"@)
            + seq![0x22u8],
        opens(lobby_model::utf8(",\"AccessPolicy\":"@), "AccessPolicy"@),
        is_plain("MembershipLock"@),
        lobby_model::utf8(",\"MembershipLock\":\""@) == lobby_model::utf8(
            ",\"MembershipLock\":"@,
        ) + seq![0x22u8],
        opens(lobby_model::utf8(",\"MembershipLock\":"@), "MembershipLock"@),
{
    lemma_marks();
    reveal_strlit("\"");
    reveal_strlit("{\"");
    reveal_strlit(",\"");
    reveal_strlit("\":");
    reveal_strlit("\":\"");
    reveal_strlit("[");
    vstd::utf8::is_ascii_chars_encode_utf8("["@);
    assert(lobby_model::utf8("["@) =~= seq![0x5bu8]);
    reveal_strlit("LobbyId");
    reveal_strlit("{\"LobbyId\":\"");
    assert("{\"LobbyId\":\""@ =~= "{\""@ + "LobbyId"@ + "\":\""@);
    reveal_strlit(",\"LobbyData\":");
    reveal_strlit("\",\"LobbyData\":");
    assert("\",\"LobbyData\":"@ =~= "\""@ + ",\"LobbyData\":"@);
    lobby_json::lemma_encode_concat("\""@, ",\"LobbyData\":"@);
    reveal_strlit("SearchDataToDelete");
    reveal_strlit(",\"SearchDataToDelete\":");
    assert(",\"SearchDataToDelete\":"@ =~= ",\""@ + "SearchDataToDelete"@ + "\":"@);
    lemma_comma_name(",\"SearchDataToDelete\":"@, "SearchDataToDelete"@);
    reveal_strlit(",\"SearchDataToDelete\":[");
    assert(",\"SearchDataToDelete\":["@ =~= ",\"SearchDataToDelete\":"@ + "["@);
    lobby_json::lemma_encode_concat(",\"SearchDataToDelete\":"@, "["@);
    reveal_strlit("LobbyDataToDelete");
    reveal_strlit(",\"LobbyDataToDelete\":");
    assert(",\"LobbyDataToDelete\":"@ =~= ",\""@ + "LobbyDataToDelete"@ + "\":"@);
    lemma_comma_name(",\"LobbyDataToDelete\":"@, "LobbyDataToDelete"@);
    reveal_strlit(",\"LobbyDataToDelete\":[");
    assert(",\"LobbyDataToDelete\":["@ =~= ",\"LobbyDataToDelete\":"@ + "["@);
    lobby_json::lemma_encode_concat(",\"LobbyDataToDelete\":"@, "["@);
    reveal_strlit("MemberDataToDelete");
    reveal_strlit(",\"MemberDataToDelete\":");
    assert(",\"MemberDataToDelete\":"@ =~= ",\""@ + "MemberDataToDelete"@ + "\":"@);
    lemma_comma_name(",\"MemberDataToDelete\":"@, "MemberDataToDelete"@);
    reveal_strlit(",\"MemberDataToDelete\":[");
    assert(",\"MemberDataToDelete\":["@ =~= ",\"MemberDataToDelete\":"@ + "["@);
    lobby_json::lemma_encode_concat(",\"MemberDataToDelete\":"@, "["@);
    reveal_strlit("MaxPlayers");
    reveal_strlit(",\"MaxPlayers\":");
    assert(",\"MaxPlayers\":"@ =~= ",\""@ + "MaxPlayers"@ + "\":"@);
    lemma_comma_name(",\"MaxPlayers\":"@, "MaxPlayers"@);
    reveal_strlit("AccessPolicy");
    reveal_strlit(",\"AccessPolicy\":");
    assert(",\"AccessPolicy\":"@ =~= ",\""@ + "AccessPolicy"@ + "\":"@);
    lemma_comma_name(",\"AccessPolicy\":"@, "AccessPolicy"@);
    reveal_strlit(",\"AccessPolicy\":\"");
    assert(",\"AccessPolicy\":\""@ =~= ",\"AccessPolicy\":"@ + "\""@);
    lobby_json::lemma_encode_concat(",\"AccessPolicy\":"@, "\""@);
    reveal_strlit("MembershipLock");
    reveal_strlit(",\"MembershipLock\":");
    assert(",\"MembershipLock\":"@ =~= ",\""@ + "MembershipLock"@ + "\":"@);
    lemma_comma_name(",\"MembershipLock\":"@, "MembershipLock"@);
    reveal_strlit(",\"MembershipLock\":\"");
    assert(",\"MembershipLock\":\""@ =~= ",\"MembershipLock\":"@ + "\""@);
    lobby_json::lemma_encode_concat(",\"MembershipLock\":"@, "\""@);
}

/// A list for removal is written as the array of its names, and not at all where it is empty.
proof fn lemma_delete_piece(name: Seq<char>, open: Seq<char>, v: Seq<Seq<char>>)
    requires
        lobby_model::utf8(name) == lobby_model::utf8(open) + seq![0x5bu8],
    ensures
        lobby_requests::delete_text(name, v) == (if v.len() > 0 {
            lobby_model::utf8(open) + array_text(v)
        } else {
            Seq::empty()
        }),
{
    reveal_strlit("]");
    vstd::utf8::is_ascii_chars_encode_utf8("]"@);
    assert(lobby_model::utf8("]"@) =~= seq![0x5du8]);
    if v.len() > 0 {
        assert(lobby_requests::delete_text(name, v) =~= lobby_model::utf8(open) + array_text(v));
    }
}

/// A word that is written between quotes.
proof fn lemma_word_piece(lit: Seq<u8>, open: Seq<u8>, word: Seq<char>)
    requires
        lit == open + seq![0x22u8],
        is_name(word),
    ensures
        lit + lobby_model::utf8(word) + lobby_model::utf8("\""@) == open + string_text(word),
{
    lemma_marks();
    lemma_name_is_plain(word);
    lemma_raw_string(word);
    assert(lit + lobby_model::utf8(word) + seq![0x22u8] =~= open + string_text(word));
}

proof fn lemma_words()
    ensures
        is_name("Friends"@),
        is_name("Private"@),
        is_name("Public"@),
        is_name("Locked"@),
        is_name("Unlocked"@),
{
    reveal_strlit("Friends");
    reveal_strlit("Private");
    reveal_strlit("Public");
    reveal_strlit("Locked");
    reveal_strlit("Unlocked");
}

/// The member that an update is about, where the lobby knows data of it.
pub open spec fn target_of(
    l: LobbyView,
    member: Option<Seq<char>>,
    local: Seq<char>,
) -> Option<Seq<char>> {
    let id = if member is Some {
        member
    } else if local.len() > 0 {
        Some(local)
    } else {
        None
    };
    if id is Some && assoc::lookup(l.member_props, id->0) is Some { id } else { None }
}

pub open spec fn target_values(l: LobbyView, id: Seq<char>) -> Seq<(Seq<char>, Seq<char>)> {
    lobby_model::member_values(id, assoc::lookup(l.member_props, id)->0)
}

pub open spec fn lock_word(n: i32) -> Seq<char> {
    if n == 1 { "Locked"@ } else { "Unlocked"@ }
}

/// The members of a request to update a lobby that it always has, and those of the member.
pub open spec fn update_head(l: LobbyView, u: UpdateView, local: Seq<char>) -> Seq<Part> {
    let id = target_of(l, u.member, local);
    let a = Seq::<Part>::empty().push(string_part("LobbyId"@, l.id)).push(
        object_part("LobbyData"@, lobby_model::object_text(l.props)),
    ).push(object_part("SearchData"@, lobby_model::object_text(l.search)));
    let b = maybe(
        a,
        id is Some,
        object_part("MemberData"@, lobby_model::object_text(target_values(l, id->0))),
    );
    maybe(
        b,
        id is Some && u.member is Some,
        object_part(
            "MemberEntity"@,
            lobby_requests::entity_text(id->0, "title_player_account"@),
        ),
    )
}

/// The members of a request to update a lobby.
pub open spec fn update_parts(l: LobbyView, u: UpdateView, local: Seq<char>) -> Seq<Part> {
    let c = maybe(
        update_head(l, u, local),
        u.search_delete.len() > 0,
        object_part("SearchDataToDelete"@, array_text(u.search_delete)),
    );
    let d = maybe(
        c,
        u.lobby_delete.len() > 0,
        object_part("LobbyDataToDelete"@, array_text(u.lobby_delete)),
    );
    let e = maybe(
        d,
        u.owner is Some,
        object_part("Owner"@, lobby_requests::entity_text(u.owner->0.id, u.owner->0.kind)),
    );
    let f = maybe(
        e,
        u.max_players is Some,
        word_part("MaxPlayers"@, text::decimal(u.max_players->0 as nat)),
    );
    let g = maybe(
        f,
        u.access_policy is Some,
        string_part("AccessPolicy"@, lobby_model::policy_word(u.access_policy->0)),
    );
    let h = maybe(
        g,
        u.membership_lock is Some,
        string_part("MembershipLock"@, lock_word(u.membership_lock->0)),
    );
    maybe(
        h,
        u.member is Some && u.member_delete.len() > 0,
        object_part("MemberDataToDelete"@, array_text(u.member_delete)),
    )
}

/// The request up to the data of the member.
pub open spec fn head_text(l: LobbyView, u: UpdateView, local: Seq<char>) -> Seq<u8> {
    lobby_model::utf8("{\"LobbyId\":\""@) + lobby_model::utf8(l.id) + lobby_model::utf8(
        "\",\"LobbyData\":"@,
    ) + lobby_model::object_text(l.props) + lobby_model::utf8(",\"SearchData\":"@)
        + lobby_model::object_text(l.search) + lobby_requests::target_text(l, u.member, local)
}

pub open spec fn is_writable(l: LobbyView, u: UpdateView, local: Seq<char>) -> bool {
    &&& is_plain(l.id)
    &&& has_plain_names(l.props)
    &&& has_plain_names(l.search)
    &&& target_of(l, u.member, local) matches Some(id) ==> has_plain_names(target_values(l, id))
}

proof fn lemma_update_first(id: Seq<char>, x: Seq<u8>, l2: Seq<u8>)
    requires
        is_plain(id),
    ensures
        ({
            let t1 = lobby_model::utf8("{\"LobbyId\":\""@) + lobby_model::utf8(id) + seq![0x22u8];
            &&& is_begun(t1, Seq::<Part>::empty().push(string_part("LobbyId"@, id)))
            &&& lobby_model::utf8("{\"LobbyId\":\""@) + lobby_model::utf8(id) + (seq![0x22u8] + l2)
                + x == t1 + l2 + x
        }),
{
    lemma_update_names();
    lemma_raw_string(id);
    lemma_brace_string("{\"LobbyId\":\""@, "LobbyId"@, lobby_model::utf8(id));
    lemma_string_reads(id);
    let t1 = lobby_model::utf8("{\"LobbyId\":\""@) + lobby_model::utf8(id) + seq![0x22u8];
    lemma_first(t1, string_part("LobbyId"@, id));
    assert(lobby_model::utf8("{\"LobbyId\":\""@) + lobby_model::utf8(id) + (seq![0x22u8] + l2) + x
        =~= t1 + l2 + x);
}

proof fn lemma_update_head(l: LobbyView, u: UpdateView, local: Seq<char>)
    requires
        is_writable(l, u, local),
    ensures
        is_begun(head_text(l, u, local), update_head(l, u, local)),
{
    lemma_update_names();
    lemma_create_names();
    lemma_join_names();
    let l2 = lobby_model::utf8(",\"LobbyData\":"@);
    let p2 = object_part("LobbyData"@, lobby_model::object_text(l.props));
    lemma_update_first(l.id, p2.bytes, l2);
    let t1 = lobby_model::utf8("{\"LobbyId\":\""@) + lobby_model::utf8(l.id) + seq![0x22u8];
    let v1 = Seq::<Part>::empty().push(string_part("LobbyId"@, l.id));
    lemma_properties(l.props);
    lemma_properties(l.search);
    lemma_next(t1, v1, l2, p2);
    let v2 = v1.push(p2);
    let l3 = lobby_model::utf8(",\"SearchData\":"@);
    let p3 = object_part("SearchData"@, lobby_model::object_text(l.search));
    lemma_next(t1 + l2 + p2.bytes, v2, l3, p3);
    let t3 = t1 + l2 + p2.bytes + l3 + p3.bytes;
    let v3 = v2.push(p3);
    let id = target_of(l, u.member, local);
    let l4 = lobby_model::utf8(",\"MemberData\":"@);
    let l5 = lobby_model::utf8(",\"MemberEntity\":"@);
    let p4 = object_part("MemberData"@, lobby_model::object_text(target_values(l, id->0)));
    let p5 = object_part(
        "MemberEntity"@,
        lobby_requests::entity_text(id->0, "title_player_account"@),
    );
    let x4 = if id is Some { l4 + p4.bytes } else { Seq::<u8>::empty() };
    let x5 = if id is Some && u.member is Some { l5 + p5.bytes } else { Seq::<u8>::empty() };
    if id is Some {
        lemma_properties(target_values(l, id->0));
    }
    lemma_entity_reads(id->0, "title_player_account"@);
    lemma_maybe(t3, v3, id is Some, l4, p4, x4);
    let v4 = maybe(v3, id is Some, p4);
    lemma_maybe(t3 + x4, v4, id is Some && u.member is Some, l5, p5, x5);
    assert(lobby_requests::target_text(l, u.member, local) =~= x4 + x5);
    assert(t3 + (x4 + x5) =~= t3 + x4 + x5);
}

proof fn lemma_update_text(l: LobbyView, u: UpdateView, local: Seq<char>)
    requires
        is_writable(l, u, local),
    ensures
        said(lobby_requests::update_text(l, u, local)) == values(
            Seq::empty(),
            update_parts(l, u, local),
        ),
{
    lemma_update_head(l, u, local);
    let t0 = head_text(l, u, local);
    let v0 = update_head(l, u, local);
    lemma_update_names();
    lemma_create_names();
    lemma_words();
    let x1 = lobby_requests::delete_text(",\"SearchDataToDelete\":["@, u.search_delete);
    let p1 = object_part("SearchDataToDelete"@, array_text(u.search_delete));
    lemma_delete_piece(
        ",\"SearchDataToDelete\":["@,
        ",\"SearchDataToDelete\":"@,
        u.search_delete,
    );
    lemma_array_reads(u.search_delete);
    let some1 = u.search_delete.len() > 0;
    lemma_maybe(t0, v0, some1, lobby_model::utf8(",\"SearchDataToDelete\":"@), p1, x1);
    let v1 = maybe(v0, some1, p1);
    let t1 = t0 + x1;
    let x2 = lobby_requests::delete_text(",\"LobbyDataToDelete\":["@, u.lobby_delete);
    let p2 = object_part("LobbyDataToDelete"@, array_text(u.lobby_delete));
    lemma_delete_piece(
        ",\"LobbyDataToDelete\":["@,
        ",\"LobbyDataToDelete\":"@,
        u.lobby_delete,
    );
    lemma_array_reads(u.lobby_delete);
    let some2 = u.lobby_delete.len() > 0;
    lemma_maybe(t1, v1, some2, lobby_model::utf8(",\"LobbyDataToDelete\":"@), p2, x2);
    let v2 = maybe(v1, some2, p2);
    let t2 = t1 + x2;
    let x3 = lobby_requests::owner_text(u.owner);
    let p3 = object_part("Owner"@, lobby_requests::entity_text(u.owner->0.id, u.owner->0.kind));
    lemma_entity_reads(u.owner->0.id, u.owner->0.kind);
    lemma_maybe(t2, v2, u.owner is Some, lobby_model::utf8(",\"Owner\":"@), p3, x3);
    let v3 = maybe(v2, u.owner is Some, p3);
    let t3 = t2 + x3;
    let x4 = lobby_requests::max_text(u.max_players);
    let p4 = word_part("MaxPlayers"@, text::decimal(u.max_players->0 as nat));
    lemma_number_reads(u.max_players->0 as nat);
    lemma_maybe(t3, v3, u.max_players is Some, lobby_model::utf8(",\"MaxPlayers\":"@), p4, x4);
    let v4 = maybe(v3, u.max_players is Some, p4);
    lemma_update_tail(l, u, local, t3 + x4, v4);
}

proof fn lemma_update_tail(
    l: LobbyView,
    u: UpdateView,
    local: Seq<char>,
    t: Seq<u8>,
    v: Seq<Part>,
)
    requires
        is_begun(t, v),
        v.len() <= 20,
    ensures
        ({
            let g = maybe(
                v,
                u.access_policy is Some,
                string_part("AccessPolicy"@, lobby_model::policy_word(u.access_policy->0)),
            );
            let h = maybe(
                g,
                u.membership_lock is Some,
                string_part("MembershipLock"@, lock_word(u.membership_lock->0)),
            );
            let i = maybe(
                h,
                u.member is Some && u.member_delete.len() > 0,
                object_part("MemberDataToDelete"@, array_text(u.member_delete)),
            );
            said(
                t + lobby_requests::access_text(u.access_policy) + lobby_requests::lock_text(
                    u.membership_lock,
                ) + (match u.member {
                    Some(_) => lobby_requests::delete_text(
                        ",\"MemberDataToDelete\":["@,
                        u.member_delete,
                    ),
                    None => Seq::empty(),
                }) + lobby_model::utf8("}"@),
            ) == values(Seq::empty(), i)
        }),
{
    lemma_update_names();
    lemma_words();
    let x5 = lobby_requests::access_text(u.access_policy);
    let w5 = lobby_model::policy_word(u.access_policy->0);
    let p5 = string_part("AccessPolicy"@, w5);
    let l5 = lobby_model::utf8(",\"AccessPolicy\":"@);
    lemma_word_piece(lobby_model::utf8(",\"AccessPolicy\":\""@), l5, w5);
    lemma_string_reads(w5);
    lemma_maybe(t, v, u.access_policy is Some, l5, p5, x5);
    let v5 = maybe(v, u.access_policy is Some, p5);
    let t5 = t + x5;
    let x6 = lobby_requests::lock_text(u.membership_lock);
    let w6 = lock_word(u.membership_lock->0);
    let p6 = string_part("MembershipLock"@, w6);
    let l6 = lobby_model::utf8(",\"MembershipLock\":"@);
    lemma_word_piece(lobby_model::utf8(",\"MembershipLock\":\""@), l6, w6);
    lemma_string_reads(w6);
    lemma_maybe(t5, v5, u.membership_lock is Some, l6, p6, x6);
    let v6 = maybe(v5, u.membership_lock is Some, p6);
    let t6 = t5 + x6;
    let some7 = u.member is Some && u.member_delete.len() > 0;
    let x7 = match u.member {
        Some(_) => lobby_requests::delete_text(",\"MemberDataToDelete\":["@, u.member_delete),
        None => Seq::empty(),
    };
    let p7 = object_part("MemberDataToDelete"@, array_text(u.member_delete));
    lemma_delete_piece(
        ",\"MemberDataToDelete\":["@,
        ",\"MemberDataToDelete\":"@,
        u.member_delete,
    );
    lemma_array_reads(u.member_delete);
    lemma_maybe(t6, v6, some7, lobby_model::utf8(",\"MemberDataToDelete\":"@), p7, x7);
    lemma_done(t6 + x7, maybe(v6, some7, p7));
}

proof fn lemma_update_lookup(l: LobbyView, u: UpdateView, local: Seq<char>, key: Seq<char>)
    ensures
        ({
            let id = target_of(l, u.member, local);
            assoc::lookup(values(Seq::empty(), update_parts(l, u, local)), key) == (if u.member
                is Some && u.member_delete.len() > 0 && key == "MemberDataToDelete"@ {
                Some(bytes::text_of(array_text(u.member_delete)))
            } else if u.membership_lock is Some && key == "MembershipLock"@ {
                Some(lock_word(u.membership_lock->0))
            } else if u.access_policy is Some && key == "AccessPolicy"@ {
                Some(lobby_model::policy_word(u.access_policy->0))
            } else if u.max_players is Some && key == "MaxPlayers"@ {
                Some(text::decimal(u.max_players->0 as nat))
            } else if u.owner is Some && key == "Owner"@ {
                Some(
                    bytes::text_of(
                        lobby_requests::entity_text(u.owner->0.id, u.owner->0.kind),
                    ),
                )
            } else if u.lobby_delete.len() > 0 && key == "LobbyDataToDelete"@ {
                Some(bytes::text_of(array_text(u.lobby_delete)))
            } else if u.search_delete.len() > 0 && key == "SearchDataToDelete"@ {
                Some(bytes::text_of(array_text(u.search_delete)))
            } else if id is Some && u.member is Some && key == "MemberEntity"@ {
                Some(
                    bytes::text_of(
                        lobby_requests::entity_text(id->0, "title_player_account"@),
                    ),
                )
            } else if id is Some && key == "MemberData"@ {
                Some(bytes::text_of(lobby_model::object_text(target_values(l, id->0))))
            } else if key == "SearchData"@ {
                Some(bytes::text_of(lobby_model::object_text(l.search)))
            } else if key == "LobbyData"@ {
                Some(bytes::text_of(lobby_model::object_text(l.props)))
            } else if key == "LobbyId"@ {
                Some(l.id)
            } else {
                None
            })
        }),
{
    let id = target_of(l, u.member, local);
    let v0 = Seq::<Part>::empty();
    assert(assoc::lookup(values(Seq::empty(), v0), key) is None);
    let q1 = string_part("LobbyId"@, l.id);
    let q2 = object_part("LobbyData"@, lobby_model::object_text(l.props));
    let q3 = object_part("SearchData"@, lobby_model::object_text(l.search));
    lemma_pushed(v0, q1, key);
    lemma_pushed(v0.push(q1), q2, key);
    lemma_pushed(v0.push(q1).push(q2), q3, key);
    let a = v0.push(q1).push(q2).push(q3);
    let p = object_part("MemberData"@, lobby_model::object_text(target_values(l, id->0)));
    lemma_maybe_lookup(a, id is Some, p, key);
    let b = maybe(a, id is Some, p);
    let p = object_part(
        "MemberEntity"@,
        lobby_requests::entity_text(id->0, "title_player_account"@),
    );
    lemma_maybe_lookup(b, id is Some && u.member is Some, p, key);
    let b = maybe(b, id is Some && u.member is Some, p);
    let p = object_part("SearchDataToDelete"@, array_text(u.search_delete));
    lemma_maybe_lookup(b, u.search_delete.len() > 0, p, key);
    let c = maybe(b, u.search_delete.len() > 0, p);
    let p = object_part("LobbyDataToDelete"@, array_text(u.lobby_delete));
    lemma_maybe_lookup(c, u.lobby_delete.len() > 0, p, key);
    let d = maybe(c, u.lobby_delete.len() > 0, p);
    let p = object_part("Owner"@, lobby_requests::entity_text(u.owner->0.id, u.owner->0.kind));
    lemma_maybe_lookup(d, u.owner is Some, p, key);
    let e = maybe(d, u.owner is Some, p);
    let p = word_part("MaxPlayers"@, text::decimal(u.max_players->0 as nat));
    lemma_maybe_lookup(e, u.max_players is Some, p, key);
    let f = maybe(e, u.max_players is Some, p);
    let p = string_part("AccessPolicy"@, lobby_model::policy_word(u.access_policy->0));
    lemma_maybe_lookup(f, u.access_policy is Some, p, key);
    let g = maybe(f, u.access_policy is Some, p);
    let p = string_part("MembershipLock"@, lock_word(u.membership_lock->0));
    lemma_maybe_lookup(g, u.membership_lock is Some, p, key);
    let h = maybe(g, u.membership_lock is Some, p);
    let p = object_part("MemberDataToDelete"@, array_text(u.member_delete));
    lemma_maybe_lookup(h, u.member is Some && u.member_delete.len() > 0, p, key);
}

proof fn lemma_update_lengths()
    ensures
        "LobbyId"@.len() == 7,
        "LobbyData"@.len() == 9,
        "SearchData"@.len() == 10,
        "MemberData"@.len() == 10,
        "MemberEntity"@.len() == 12,
        "SearchDataToDelete"@.len() == 18,
        "LobbyDataToDelete"@.len() == 17,
        "Owner"@.len() == 5,
        "MaxPlayers"@.len() == 10,
        "AccessPolicy"@.len() == 12,
        "MembershipLock"@.len() == 14,
        "MemberDataToDelete"@.len() == 18,
        "SearchData"@ != "MemberData"@,
        "SearchData"@ != "MaxPlayers"@,
        "MemberData"@ != "MaxPlayers"@,
        "MemberEntity"@ != "AccessPolicy"@,
        "SearchDataToDelete"@ != "MemberDataToDelete"@,
{
    lemma_create_names();
    lemma_join_names();
    reveal_strlit("SearchDataToDelete");
    reveal_strlit("LobbyDataToDelete");
    reveal_strlit("AccessPolicy");
    reveal_strlit("MembershipLock");
    reveal_strlit("MemberDataToDelete");
    reveal_strlit("MemberEntity");
    assert("MemberEntity"@[0] != "AccessPolicy"@[0]);
    assert("SearchDataToDelete"@[0] != "MemberDataToDelete"@[0]);
}

/// A request to update a lobby says which lobby, the properties that it now has, and each of the
/// other changes exactly when it is wanted: what is to be removed, the owner, the number of
/// players, the access and the lock. The data of a member goes along where the lobby knows any: of
/// the member that the change names, who is then named too, else of the local one.
pub proof fn update_request_says_what_is_asked(l: LobbyView, u: UpdateView, local: Seq<char>)
    requires
        is_writable(l, u, local),
    ensures
        ({
            let r = said(lobby_requests::update_text(l, u, local));
            let id = target_of(l, u.member, local);
            &&& assoc::lookup(r, "LobbyId"@) == Some(l.id)
            &&& assoc::lookup(r, "LobbyData"@) == Some(
                bytes::text_of(lobby_model::object_text(l.props)),
            )
            &&& assoc::lookup(r, "SearchData"@) == Some(
                bytes::text_of(lobby_model::object_text(l.search)),
            )
            &&& assoc::lookup(r, "MemberData"@) == (if id is Some {
                Some(bytes::text_of(lobby_model::object_text(target_values(l, id->0))))
            } else {
                None
            })
            &&& assoc::lookup(r, "MemberEntity"@) == (if id is Some && u.member is Some {
                Some(
                    bytes::text_of(
                        lobby_requests::entity_text(u.member->0, "title_player_account"@),
                    ),
                )
            } else {
                None
            })
            &&& assoc::lookup(r, "SearchDataToDelete"@) == (if u.search_delete.len() > 0 {
                Some(bytes::text_of(array_text(u.search_delete)))
            } else {
                None
            })
            &&& assoc::lookup(r, "LobbyDataToDelete"@) == (if u.lobby_delete.len() > 0 {
                Some(bytes::text_of(array_text(u.lobby_delete)))
            } else {
                None
            })
            &&& assoc::lookup(r, "MemberDataToDelete"@) == (if u.member is Some
                && u.member_delete.len() > 0 {
                Some(bytes::text_of(array_text(u.member_delete)))
            } else {
                None
            })
            &&& assoc::lookup(r, "Owner"@) == (match u.owner {
                Some(e) => Some(bytes::text_of(lobby_requests::entity_text(e.id, e.kind))),
                None => None,
            })
            &&& assoc::lookup(r, "MaxPlayers"@) == (match u.max_players {
                Some(n) => Some(text::decimal(n as nat)),
                None => None,
            })
        }),
{
    lemma_update_text(l, u, local);
    lemma_update_lengths();
    lemma_update_lookup(l, u, local, "LobbyId"@);
    lemma_update_lookup(l, u, local, "LobbyData"@);
    lemma_update_lookup(l, u, local, "SearchData"@);
    lemma_update_lookup(l, u, local, "MemberData"@);
    lemma_update_lookup(l, u, local, "MemberEntity"@);
    lemma_update_lookup(l, u, local, "SearchDataToDelete"@);
    lemma_update_lookup(l, u, local, "LobbyDataToDelete"@);
    lemma_update_lookup(l, u, local, "MemberDataToDelete"@);
    lemma_update_lookup(l, u, local, "Owner"@);
    lemma_update_lookup(l, u, local, "MaxPlayers"@);
}

/// The lock and the access that an update asks for are written as words that are read back as what
/// was asked for.
pub proof fn lock_and_access_are_said(l: LobbyView, u: UpdateView, local: Seq<char>)
    requires
        is_writable(l, u, local),
        u.membership_lock matches Some(n) ==> 0 <= n <= 1,
        u.access_policy matches Some(n) ==> n <= 2,
    ensures
        ({
            let r = said(lobby_requests::update_text(l, u, local));
            let lock = assoc::lookup(r, "MembershipLock"@);
            let access = assoc::lookup(r, "AccessPolicy"@);
            &&& lock is Some <==> u.membership_lock is Some
            &&& lock is Some ==> lobby_model::lock_of(lock->0) == u.membership_lock->0
            &&& access is Some <==> u.access_policy is Some
            &&& access is Some ==> lobby_model::policy_of(access->0) == u.access_policy->0
        }),
{
    lemma_update_text(l, u, local);
    lemma_update_lengths();
    lemma_update_lookup(l, u, local, "MembershipLock"@);
    lemma_update_lookup(l, u, local, "AccessPolicy"@);
    lemma_words_are_read();
}

proof fn lemma_words_are_read()
    ensures
        lobby_model::lock_of("Locked"@) == 1,
        lobby_model::lock_of("Unlocked"@) == 0,
        lobby_model::policy_of("Friends"@) == 1,
        lobby_model::policy_of("Private"@) == 2,
        lobby_model::policy_of("Public"@) == 0,
{
    reveal_strlit("Friends");
    reveal_strlit("Private");
    reveal_strlit("Public");
    reveal_strlit("Locked");
    reveal_strlit("Unlocked");
    reveal_strlit("friends");
    reveal_strlit("private");
    reveal_strlit("locked");
    reveal_strlit("1");
    assert(text::lowered("Locked"@) =~= "locked"@);
    assert(text::lowered("Friends"@) =~= "friends"@);
    assert(text::lowered("Private"@) =~= "private"@);
    assert(text::lowered("Unlocked"@).len() == 8);
    assert(text::lowered("Public"@).len() == 6);
    assert("friends"@.len() == 7 && "private"@.len() == 7 && "locked"@.len() == 6 && "1"@.len() == 1);
    assert(text::lowered("Private"@)[0] != "friends"@[0]);
}

// Registering

pub open spec fn registration_parts(
    network: Seq<char>,
    entity: Seq<char>,
    udp_port: u16,
    ip: Seq<char>,
) -> Seq<Part> {
    Seq::<Part>::empty().push(string_part("network_id"@, network)).push(
        string_part("entity_id"@, entity),
    ).push(word_part("udp_port"@, text::decimal(udp_port as nat))).push(string_part("ip"@, ip))
}

proof fn lemma_registration_names()
    ensures
        is_name("network_id"@),
        is_name("entity_id"@),
        is_name("udp_port"@),
        is_name("ip"@),
        "network_id"@.len() == 10,
        "entity_id"@.len() == 9,
        "udp_port"@.len() == 8,
        "ip"@.len() == 2,
        "{\"network_id\":\""@ == "{\""@ + "network_id"@ + "\":\""@,
        "\",\"entity_id\":\""@ == "\",\""@ + "entity_id"@ + "\":\""@,
        "\",\"udp_port\":"@ == "\",\""@ + "udp_port"@ + "\":"@,
        ",\"ip\":\""@ == ",\""@ + "ip"@ + "\":\""@,
{
    reveal_strlit("network_id");
    reveal_strlit("entity_id");
    reveal_strlit("udp_port");
    reveal_strlit("ip");
    reveal_strlit("{\"");
    reveal_strlit(",\"");
    reveal_strlit("\",\"");
    reveal_strlit("\":");
    reveal_strlit("\":\"");
    reveal_strlit("{\"network_id\":\"");
    reveal_strlit("\",\"entity_id\":\"");
    reveal_strlit("\",\"udp_port\":");
    reveal_strlit(",\"ip\":\"");
    assert("{\"network_id\":\""@ =~= "{\""@ + "network_id"@ + "\":\""@);
    assert("\",\"entity_id\":\""@ =~= "\",\""@ + "entity_id"@ + "\":\""@);
    assert("\",\"udp_port\":"@ =~= "\",\""@ + "udp_port"@ + "\":"@);
    assert(",\"ip\":\""@ =~= ",\""@ + "ip"@ + "\":\""@);
}

/// How the pieces of a registration make up its members.
proof fn lemma_registration_pieces(
    n1: Seq<u8>,
    n2: Seq<u8>,
    n3: Seq<u8>,
    n4: Seq<u8>,
    a: Seq<u8>,
    b: Seq<u8>,
    c: Seq<u8>,
    d: Seq<u8>,
)
    ensures
        ({
            let q = seq![0x22u8];
            let qc = seq![0x22u8, 0x3au8];
            let cq = seq![0x2cu8, 0x22u8];
            let qcq = seq![0x22u8, 0x2cu8, 0x22u8];
            let qqq = seq![0x22u8, 0x3au8, 0x22u8];
            (seq![0x7bu8, 0x22u8] + n1 + qqq) + a + (qcq + n2 + qqq) + b + (qcq + n3 + qc) + c + (cq
                + n4 + qqq) + d + seq![0x22u8, 0x7du8] == (seq![0x7bu8, 0x22u8] + n1 + qc) + (q + a
                + q) + (cq + n2 + qc) + (q + b + q) + (cq + n3 + qc) + c + (cq + n4 + qc) + (q + d
                + q) + seq![0x7du8]
        }),
{
    let q = seq![0x22u8];
    let qc = seq![0x22u8, 0x3au8];
    let cq = seq![0x2cu8, 0x22u8];
    let qcq = seq![0x22u8, 0x2cu8, 0x22u8];
    let qqq = seq![0x22u8, 0x3au8, 0x22u8];
    assert(qqq =~= qc + q);
    assert(qcq =~= q + cq);
    let left1 = (seq![0x7bu8, 0x22u8] + n1 + qqq) + a + q;
    let right1 = (seq![0x7bu8, 0x22u8] + n1 + qc) + (q + a + q);
    assert(left1 =~= right1);
    let left2 = left1 + (cq + n2 + qqq) + b + q;
    let right2 = right1 + (cq + n2 + qc) + (q + b + q);
    assert(left2 =~= right2);
    let left3 = left2 + (cq + n3 + qc) + c;
    let left4 = left3 + (cq + n4 + qqq) + d + q;
    let right4 = left3 + (cq + n4 + qc) + (q + d + q);
    assert(left4 =~= right4);
    let whole1 = (seq![0x7bu8, 0x22u8] + n1 + qqq) + a + (qcq + n2 + qqq);
    assert(whole1 =~= left1 + (cq + n2 + qqq));
    let whole2 = whole1 + b + (qcq + n3 + qc);
    assert(whole2 =~= left2 + (cq + n3 + qc));
    assert(whole2 + c + (cq + n4 + qqq) + d + seq![0x22u8, 0x7du8] =~= left4 + seq![0x7du8]);
}

pub proof fn lemma_registration(
    network: Seq<char>,
    entity: Seq<char>,
    udp_port: u16,
    ip: Seq<char>,
)
    requires
        is_plain(network),
        is_plain(entity),
        is_plain(ip),
    ensures
        ({
            let r = said(
                lobby_model::utf8(crate::scan::register_text(network, entity, udp_port, ip)),
            );
            &&& assoc::lookup(r, "network_id"@) == Some(network)
            &&& assoc::lookup(r, "entity_id"@) == Some(entity)
            &&& assoc::lookup(r, "udp_port"@) == Some(text::decimal(udp_port as nat))
            &&& assoc::lookup(r, "ip"@) == Some(ip)
        }),
{
    lemma_registration_text(network, entity, udp_port, ip);
    lemma_registration_names();
    lemma_registration_lookup(network, entity, udp_port, ip, "network_id"@);
    lemma_registration_lookup(network, entity, udp_port, ip, "entity_id"@);
    lemma_registration_lookup(network, entity, udp_port, ip, "udp_port"@);
    lemma_registration_lookup(network, entity, udp_port, ip, "ip"@);
}

proof fn lemma_registration_lookup(
    network: Seq<char>,
    entity: Seq<char>,
    udp_port: u16,
    ip: Seq<char>,
    key: Seq<char>,
)
    ensures
        assoc::lookup(
            values(Seq::empty(), registration_parts(network, entity, udp_port, ip)),
            key,
        ) == (if key == "ip"@ {
            Some(ip)
        } else if key == "udp_port"@ {
            Some(text::decimal(udp_port as nat))
        } else if key == "entity_id"@ {
            Some(entity)
        } else if key == "network_id"@ {
            Some(network)
        } else {
            None
        }),
{
    let v0 = Seq::<Part>::empty();
    let p1 = string_part("network_id"@, network);
    let p2 = string_part("entity_id"@, entity);
    let p3 = word_part("udp_port"@, text::decimal(udp_port as nat));
    let p4 = string_part("ip"@, ip);
    assert(assoc::lookup(values(Seq::empty(), v0), key) is None);
    lemma_pushed(v0, p1, key);
    lemma_pushed(v0.push(p1), p2, key);
    lemma_pushed(v0.push(p1).push(p2), p3, key);
    lemma_pushed(v0.push(p1).push(p2).push(p3), p4, key);
}

proof fn lemma_registration_text(
    network: Seq<char>,
    entity: Seq<char>,
    udp_port: u16,
    ip: Seq<char>,
)
    requires
        is_plain(network),
        is_plain(entity),
        is_plain(ip),
    ensures
        said(lobby_model::utf8(crate::scan::register_text(network, entity, udp_port, ip))) == values(
            Seq::empty(),
            registration_parts(network, entity, udp_port, ip),
        ),
{
    lemma_marks();
    lemma_registration_names();
    lemma_registration_bytes(network, entity, udp_port, ip);
    let (n1, n2, n3, n4) = (
        lobby_model::utf8("network_id"@),
        lobby_model::utf8("entity_id"@),
        lobby_model::utf8("udp_port"@),
        lobby_model::utf8("ip"@),
    );
    let c = lobby_requests::number_text(udp_port as nat);
    lemma_opening("{\"network_id\":\""@, "{\""@, "network_id"@, "\":\""@);
    lemma_opening("\",\"entity_id\":\""@, "\",\""@, "entity_id"@, "\":\""@);
    lemma_opening("\",\"udp_port\":"@, "\",\""@, "udp_port"@, "\":"@);
    lemma_opening(",\"ip\":\""@, ",\""@, "ip"@, "\":\""@);
    lemma_raw_string(network);
    lemma_raw_string(entity);
    lemma_raw_string(ip);
    lemma_registration_pieces(
        n1,
        n2,
        n3,
        n4,
        lobby_model::utf8(network),
        lobby_model::utf8(entity),
        c,
        lobby_model::utf8(ip),
    );
    lemma_string_reads(network);
    lemma_string_reads(entity);
    lemma_string_reads(ip);
    lemma_number_reads(udp_port as nat);
    let p1 = string_part("network_id"@, network);
    let p2 = string_part("entity_id"@, entity);
    let p3 = word_part("udp_port"@, text::decimal(udp_port as nat));
    let p4 = string_part("ip"@, ip);
    let qc = seq![0x22u8, 0x3au8];
    let cq = seq![0x2cu8, 0x22u8];
    let t1 = (seq![0x7bu8, 0x22u8] + n1 + qc) + p1.bytes;
    let v1 = Seq::<Part>::empty().push(p1);
    lemma_first(t1, p1);
    lemma_next(t1, v1, cq + n2 + qc, p2);
    let t2 = t1 + (cq + n2 + qc) + p2.bytes;
    let v2 = v1.push(p2);
    lemma_next(t2, v2, cq + n3 + qc, p3);
    let t3 = t2 + (cq + n3 + qc) + p3.bytes;
    let v3 = v2.push(p3);
    lemma_next(t3, v3, cq + n4 + qc, p4);
    lemma_done(t3 + (cq + n4 + qc) + p4.bytes, v3.push(p4));
}

/// The bytes of a registration, piece by piece.
proof fn lemma_registration_bytes(
    network: Seq<char>,
    entity: Seq<char>,
    udp_port: u16,
    ip: Seq<char>,
)
    ensures
        lobby_model::utf8(crate::scan::register_text(network, entity, udp_port, ip))
            == lobby_model::utf8("{\"network_id\":\""@) + lobby_model::utf8(network)
            + lobby_model::utf8("\",\"entity_id\":\""@) + lobby_model::utf8(entity)
            + lobby_model::utf8("\",\"udp_port\":"@) + lobby_requests::number_text(
            udp_port as nat,
        ) + lobby_model::utf8(",\"ip\":\""@) + lobby_model::utf8(ip) + lobby_model::utf8("\"}"@),
{
    let s1 = "{\"network_id\":\""@ + network;
    let s2 = s1 + "\",\"entity_id\":\""@;
    let s3 = s2 + entity;
    let s4 = s3 + "\",\"udp_port\":"@;
    let s5 = s4 + text::decimal(udp_port as nat);
    let s6 = s5 + ",\"ip\":\""@;
    let s7 = s6 + ip;
    lobby_json::lemma_encode_concat("{\"network_id\":\""@, network);
    lobby_json::lemma_encode_concat(s1, "\",\"entity_id\":\""@);
    lobby_json::lemma_encode_concat(s2, entity);
    lobby_json::lemma_encode_concat(s3, "\",\"udp_port\":"@);
    lobby_json::lemma_encode_concat(s4, text::decimal(udp_port as nat));
    lobby_json::lemma_encode_concat(s5, ",\"ip\":\""@);
    lobby_json::lemma_encode_concat(s6, ip);
    lobby_json::lemma_encode_concat(s7, "\"}"@);
}

}
