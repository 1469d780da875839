//! Characters, digits and the plain text operations that the formats of this crate are built from.
use vstd::prelude::*;
use vstd::slice::slice_subrange;

verus! {

/// `String::push` puts the given character at the end.
pub assume_specification[ String::push ](s: &mut String, c: char)
    ensures
        final(s)@ == old(s)@.push(c),
;

/// Characters of the Unicode property `White_Space`.
pub open spec fn is_space(c: char) -> bool {
    ||| '\u{9}' <= c <= '\u{d}'
    ||| c == ' '
    ||| c == '\u{85}'
    ||| c == '\u{a0}'
    ||| c == '\u{1680}'
    ||| '\u{2000}' <= c <= '\u{200a}'
    ||| c == '\u{2028}'
    ||| c == '\u{2029}'
    ||| c == '\u{202f}'
    ||| c == '\u{205f}'
    ||| c == '\u{3000}'
}

/// Space, tab, line feed, form feed and carriage return.
pub open spec fn is_ascii_space(c: char) -> bool {
    c == ' ' || c == '\t' || c == '\n' || c == '\u{c}' || c == '\r'
}

pub open spec fn is_digit(c: char) -> bool {
    '0' <= c <= '9'
}

/// The ASCII lower case of a character; any other character is its own.
pub open spec fn lower(c: char) -> char {
    if 'A' <= c <= 'Z' { ((c as u32) + 32) as char } else { c }
}

/// A text with its ASCII letters in lower case.
pub open spec fn lowered(s: Seq<char>) -> Seq<char> {
    s.map_values(|c: char| lower(c))
}

/// The ASCII upper case of a character; any other character is its own.
pub open spec fn upper(c: char) -> char {
    if 'a' <= c <= 'z' { ((c as u32) - 32) as char } else { c }
}

/// A text with its ASCII letters in upper case.
pub open spec fn uppered(s: Seq<char>) -> Seq<char> {
    s.map_values(|c: char| upper(c))
}

/// How many characters at the start of a text satisfy `p`.
pub open spec fn span(s: Seq<char>, p: spec_fn(char) -> bool) -> int
    decreases s.len(),
{
    if s.len() > 0 && p(s[0]) { 1 + span(s.drop_first(), p) } else { 0 }
}

/// Where the characters at the end of a text that satisfy `p` start.
pub open spec fn span_back(s: Seq<char>, p: spec_fn(char) -> bool) -> int
    decreases s.len(),
{
    if s.len() > 0 && p(s.last()) { span_back(s.drop_last(), p) } else { s.len() as int }
}

/// Where `c` first stands in a text, or the length of the text.
pub open spec fn find(s: Seq<char>, c: char) -> int
    decreases s.len(),
{
    if s.len() > 0 && s[0] != c { 1 + find(s.drop_first(), c) } else { 0 }
}

/// A text without the white space at its ends.
pub open spec fn trimmed(s: Seq<char>) -> Seq<char> {
    let t = s.skip(span(s, |c: char| is_space(c)));
    t.take(span_back(t, |c: char| is_space(c)))
}

pub proof fn lemma_span(s: Seq<char>, p: spec_fn(char) -> bool, k: int)
    requires
        0 <= k <= s.len(),
        forall|j: int| 0 <= j < k ==> p(#[trigger] s[j]),
        k < s.len() ==> !p(s[k]),
    ensures
        span(s, p) == k,
    decreases k,
{
    if k > 0 {
        assert(p(s[0]));
        lemma_span(s.drop_first(), p, k - 1);
    }
}

pub proof fn lemma_find(s: Seq<char>, c: char, k: int)
    requires
        0 <= k <= s.len(),
        forall|j: int| 0 <= j < k ==> s[j] != c,
        k < s.len() ==> s[k] == c,
    ensures
        find(s, c) == k,
    decreases k,
{
    if k > 0 {
        lemma_find(s.drop_first(), c, k - 1);
    }
}

pub proof fn lemma_span_is(s: Seq<char>, p: spec_fn(char) -> bool)
    ensures
        0 <= span(s, p) <= s.len(),
        forall|j: int| 0 <= j < span(s, p) ==> p(#[trigger] s[j]),
        span(s, p) < s.len() ==> !p(s[span(s, p)]),
    decreases s.len(),
{
    if s.len() > 0 && p(s[0]) {
        lemma_span_is(s.drop_first(), p);
        let t = s.drop_first();
        assert forall|j: int| 0 <= j < span(s, p) implies p(#[trigger] s[j]) by {
            if j > 0 {
                assert(p(t[j - 1]));
            }
        }
    }
}

pub proof fn lemma_span_back(s: Seq<char>, p: spec_fn(char) -> bool, k: int)
    requires
        0 <= k <= s.len(),
        forall|j: int| k <= j < s.len() ==> p(#[trigger] s[j]),
        k > 0 ==> !p(s[k - 1]),
    ensures
        span_back(s, p) == k,
    decreases s.len(),
{
    if k < s.len() {
        assert(p(s[s.len() - 1]));
        lemma_span_back(s.drop_last(), p, k);
    }
}

pub proof fn lemma_span_back_is(s: Seq<char>, p: spec_fn(char) -> bool)
    ensures
        0 <= span_back(s, p) <= s.len(),
        forall|j: int| span_back(s, p) <= j < s.len() ==> p(#[trigger] s[j]),
        span_back(s, p) > 0 ==> !p(s[span_back(s, p) - 1]),
    decreases s.len(),
{
    if s.len() > 0 && p(s.last()) {
        lemma_span_back_is(s.drop_last(), p);
        let t = s.drop_last();
        assert forall|j: int| span_back(s, p) <= j < s.len() implies p(#[trigger] s[j]) by {
            if j < s.len() - 1 {
                assert(p(t[j]));
            }
        }
    }
}

/// A text without white space at its ends stays as it is when it is trimmed again.
pub proof fn lemma_trimmed_twice(s: Seq<char>)
    ensures
        trimmed(trimmed(s)) == trimmed(s),
{
    let p = |c: char| is_space(c);
    lemma_span_is(s, p);
    let t = s.skip(span(s, p));
    lemma_span_back_is(t, p);
    let u = t.take(span_back(t, p));
    assert(u == trimmed(s));
    if u.len() > 0 {
        assert(u[0] == s[span(s, p)]);
        assert(!p(u[0]));
        assert(!p(t[u.len() - 1]));
        assert(u[u.len() - 1] == t[u.len() - 1]);
    }
    lemma_span(u, p, 0);
    assert(u.skip(0) =~= u);
    lemma_span_back(u, p, u.len() as int);
    assert(u.take(u.len() as int) =~= u);
}

/// The characters of a text.
pub fn chars_of(s: &str) -> (r: Vec<char>)
    ensures
        r@ == s@,
{
    let mut r: Vec<char> = Vec::new();
    for c in it: s.chars()
        invariant
            it.seq() == s@,
            r@ == s@.take(it.index()),
    {
        r.push(c);
    }
    assert(s@.take(s@.len() as int) =~= s@);
    r
}

/// The text made of the given characters.
pub fn text_of(v: &[char]) -> (r: String)
    ensures
        r@ == v@,
{
    let mut r = String::new();
    let mut i: usize = 0;
    while i < v.len()
        invariant
            i <= v@.len(),
            r@ == v@.take(i as int),
        decreases v@.len() - i,
    {
        r.push(v[i]);
        i += 1;
        assert(v@.take(i as int) =~= v@.take(i - 1).push(v@[i - 1]));
    }
    assert(v@.take(v@.len() as int) =~= v@);
    r
}

/// Whether two texts are the same.
pub fn same(a: &[char], b: &[char]) -> (r: bool)
    ensures
        r == (a@ == b@),
{
    if a.len() != b.len() {
        return false;
    }
    let mut i: usize = 0;
    while i < a.len()
        invariant
            i <= a@.len(),
            a@.len() == b@.len(),
            forall|j: int| 0 <= j < i ==> a@[j] == b@[j],
        decreases a@.len() - i,
    {
        if a[i] != b[i] {
            return false;
        }
        i += 1;
    }
    assert(a@ =~= b@);
    true
}

/// Whether a text is the given one.
pub fn is_text(a: &[char], b: &str) -> (r: bool)
    ensures
        r == (a@ == b@),
{
    let b = chars_of(b);
    same(a, b.as_slice())
}

/// Whether two texts are the same.
pub fn eq(a: &str, b: &str) -> (r: bool)
    ensures
        r == (a@ == b@),
{
    let a = chars_of(a);
    is_text(a.as_slice(), b)
}

pub fn is_empty(s: &str) -> (r: bool)
    ensures
        r == (s@.len() == 0),
{
    proof {
        reveal_strlit("");
    }
    assert(""@ =~= Seq::empty());
    assert(s@.len() == 0 ==> s@ =~= ""@);
    eq(s, "")
}

pub fn space(c: char) -> (r: bool)
    ensures
        r == is_space(c),
{
    ('\u{9}' <= c && c <= '\u{d}') || c == ' ' || c == '\u{85}' || c == '\u{a0}' || c == '\u{1680}'
        || ('\u{2000}' <= c && c <= '\u{200a}') || c == '\u{2028}' || c == '\u{2029}' || c
        == '\u{202f}' || c == '\u{205f}' || c == '\u{3000}'
}

pub fn ascii_space(c: char) -> (r: bool)
    ensures
        r == is_ascii_space(c),
{
    c == ' ' || c == '\t' || c == '\n' || c == '\u{c}' || c == '\r'
}

pub fn digit(c: char) -> (r: bool)
    ensures
        r == is_digit(c),
{
    '0' <= c && c <= '9'
}

/// The ASCII lower case of a character.
pub fn to_lower(c: char) -> (r: char)
    ensures
        r == lower(c),
{
    if 'A' <= c && c <= 'Z' {
        ((c as u8) + 32) as char
    } else {
        c
    }
}

/// A text with its ASCII letters in lower case.
pub fn to_lowered(s: &[char]) -> (r: Vec<char>)
    ensures
        r@ == lowered(s@),
{
    let mut r: Vec<char> = Vec::new();
    let mut i: usize = 0;
    while i < s.len()
        invariant
            i <= s@.len(),
            r@ == lowered(s@).take(i as int),
        decreases s@.len() - i,
    {
        r.push(to_lower(s[i]));
        i += 1;
        assert(r@ =~= lowered(s@).take(i as int));
    }
    assert(lowered(s@).take(i as int) =~= lowered(s@));
    r
}

/// A text with its ASCII letters in upper case.
pub fn to_uppered(s: &[char]) -> (r: Vec<char>)
    ensures
        r@ == uppered(s@),
{
    let mut r: Vec<char> = Vec::new();
    let mut i: usize = 0;
    while i < s.len()
        invariant
            i <= s@.len(),
            r@ == uppered(s@).take(i as int),
        decreases s@.len() - i,
    {
        let c: char = s[i];
        r.push(
            if 'a' <= c && c <= 'z' {
                ((c as u8) - 32) as char
            } else {
                c
            },
        );
        i += 1;
        assert(r@ =~= uppered(s@).take(i as int));
    }
    assert(uppered(s@).take(i as int) =~= uppered(s@));
    r
}

/// A text without the white space at its ends.
pub fn trim(s: &[char]) -> (r: &[char])
    ensures
        r@ == trimmed(s@),
{
    let mut i: usize = 0;
    let ghost p = |c: char| is_space(c);
    while i < s.len() && space(s[i])
        invariant
            i <= s@.len(),
            forall|j: int| 0 <= j < i ==> is_space(#[trigger] s@[j]),
        decreases s@.len() - i,
    {
        i += 1;
    }
    let t = slice_subrange(s, i, s.len());
    proof {
        lemma_span(s@, p, i as int);
        assert(t@ =~= s@.skip(i as int));
    }
    let mut k: usize = t.len();
    while k > 0 && space(t[k - 1])
        invariant
            k <= t@.len(),
            forall|j: int| k <= j < t@.len() ==> is_space(#[trigger] t@[j]),
        decreases k,
    {
        k -= 1;
    }
    proof {
        lemma_span_back(t@, p, k as int);
    }
    let r = slice_subrange(t, 0, k);
    assert(r@ =~= t@.take(k as int));
    r
}

/// Where a character first stands, or the length of the text.
pub fn find_char(s: &[char], c: char) -> (r: usize)
    ensures
        r == find(s@, c),
        r <= s@.len() <= usize::MAX,
        r < s@.len() ==> s@[r as int] == c,
        forall|j: int| 0 <= j < r ==> s@[j] != c,
{
    let mut i: usize = 0;
    while i < s.len() && s[i] != c
        invariant
            i <= s@.len(),
            forall|j: int| 0 <= j < i ==> s@[j] != c,
        decreases s@.len() - i,
    {
        i += 1;
    }
    proof {
        lemma_find(s@, c, i as int);
    }
    i
}

/// Where `c` last stands in a text, or `None`.
pub open spec fn find_last(s: Seq<char>, c: char) -> Option<int>
    decreases s.len(),
{
    if s.len() == 0 {
        None
    } else if s.last() == c {
        Some(s.len() - 1)
    } else {
        find_last(s.drop_last(), c)
    }
}

/// `s` starts with `p`.
pub open spec fn begins(s: Seq<char>, p: Seq<char>) -> bool {
    p.len() <= s.len() && s.take(p.len() as int) == p
}

/// `s` ends with `p`.
pub open spec fn ends(s: Seq<char>, p: Seq<char>) -> bool {
    p.len() <= s.len() && s.skip(s.len() - p.len()) == p
}

/// Where `p` first stands in `s`, or `None`.
pub open spec fn find_text(s: Seq<char>, p: Seq<char>) -> Option<int>
    decreases s.len(),
{
    if begins(s, p) {
        Some(0)
    } else if s.len() == 0 {
        None
    } else {
        match find_text(s.drop_first(), p) {
            Some(i) => Some(i + 1),
            None => None,
        }
    }
}

/// The parts of a text between the places where `c` stands; there is always at least one.
pub open spec fn split(s: Seq<char>, c: char) -> Seq<Seq<char>>
    decreases s.len(),
{
    let k = find(s, c);
    if 0 <= k < s.len() {
        seq![s.take(k)] + split(s.skip(k + 1), c)
    } else {
        seq![s]
    }
}

/// The number that a row of decimal digits denotes.
pub open spec fn number(s: Seq<char>) -> nat
    decreases s.len(),
{
    if s.len() == 0 { 0 } else { 10 * number(s.drop_last()) + (s.last() as nat - '0' as nat) as nat }
}

/// A row of at least one decimal digit.
pub open spec fn is_number(s: Seq<char>) -> bool {
    s.len() > 0 && forall|i: int| 0 <= i < s.len() ==> is_digit(#[trigger] s[i])
}

/// The number up to `max` that a text denotes: digits, with a plus sign before them if wanted.
pub open spec fn unsigned(s: Seq<char>, max: nat) -> Option<nat> {
    let d = if s.len() > 0 && s[0] == '+' { s.drop_first() } else { s };
    if is_number(d) && number(d) <= max { Some(number(d)) } else { None }
}

/// The integer between `min` and `max` that a text denotes: digits, with a sign before them if
/// wanted.
pub open spec fn signed(s: Seq<char>, min: int, max: int) -> Option<int> {
    let d = if s.len() > 0 && (s[0] == '+' || s[0] == '-') { s.drop_first() } else { s };
    let n = if s.len() > 0 && s[0] == '-' { -(number(d) as int) } else { number(d) as int };
    if is_number(d) && min <= n <= max { Some(n) } else { None }
}

/// The decimal text of an integer.
pub open spec fn integer_text(n: int) -> Seq<char> {
    if n < 0 { seq!['-'] + decimal((-n) as nat) } else { decimal(n as nat) }
}

/// The decimal digits of a number.
pub open spec fn decimal(n: nat) -> Seq<char>
    decreases n,
{
    if n < 10 { seq![digit_char(n)] } else { decimal(n / 10).push(digit_char(n % 10)) }
}

/// The digit of a number below sixteen, with letters in lower case.
pub open spec fn digit_char(n: nat) -> char {
    if n < 10 { (48 + n) as char } else { (87 + n) as char }
}

/// The last `width` hexadecimal digits of a number.
pub open spec fn hex(n: nat, width: nat) -> Seq<char>
    decreases width,
{
    if width == 0 { Seq::empty() } else { hex(n / 16, (width - 1) as nat).push(digit_char(n % 16)) }
}

/// More digits never make a number smaller.
proof fn lemma_number_grows(s: Seq<char>, k: int)
    requires
        0 <= k <= s.len(),
        forall|i: int| 0 <= i < s.len() ==> is_digit(#[trigger] s[i]),
    ensures
        number(s.take(k)) <= number(s),
    decreases s.len(),
{
    if k == s.len() {
        assert(s.take(k) =~= s);
    } else {
        let t = s.drop_last();
        assert(t.take(k) =~= s.take(k));
        assert forall|i: int| 0 <= i < t.len() implies is_digit(#[trigger] t[i]) by {
            assert(is_digit(s[i]));
        }
        lemma_number_grows(t, k);
    }
}

/// The decimal digits of a number denote it.
pub proof fn decimal_is_number(n: nat)
    ensures
        is_number(decimal(n)),
        number(decimal(n)) == n,
        decimal(n)[0] != '+',
        unsigned(decimal(n), n) == Some(n),
    decreases n,
{
    if n < 10 {
        assert(decimal(n).drop_last() =~= Seq::empty());
        assert(number(decimal(n).drop_last()) == 0);
    } else {
        let m = n / 10;
        decimal_is_number(m);
        assert(decimal(n).drop_last() =~= decimal(m));
        assert forall|i: int| 0 <= i < decimal(n).len() implies is_digit(#[trigger] decimal(n)[i]) by {
            if i < decimal(m).len() {
                assert(is_digit(decimal(m)[i]));
            }
        }
        assert(decimal(n)[0] == decimal(m)[0]);
    }
}

/// A text that stands somewhere is found, there or earlier.
pub proof fn lemma_find_text(s: Seq<char>, p: Seq<char>, k: int)
    requires
        0 <= k <= s.len(),
        begins(s.skip(k), p),
    ensures
        find_text(s, p) is Some,
        0 <= find_text(s, p)->0 <= k,
        begins(s.skip(find_text(s, p)->0), p),
    decreases k,
{
    assert(s.skip(0) =~= s);
    if !begins(s, p) {
        assert(k > 0);
        let t = s.drop_first();
        assert(t.skip(k - 1) =~= s.skip(k));
        lemma_find_text(t, p, k - 1);
        let i = find_text(t, p)->0;
        assert(t.skip(i) =~= s.skip(i + 1));
    }
}

/// The part of a text from `a` up to `b`.
pub fn part(s: &[char], a: usize, b: usize) -> (r: &[char])
    requires
        a <= b <= s@.len(),
    ensures
        r@ == s@.subrange(a as int, b as int),
{
    slice_subrange(s, a, b)
}

/// The first `k` characters of a text.
pub fn head(s: &[char], k: usize) -> (r: &[char])
    requires
        k <= s@.len(),
    ensures
        r@ == s@.take(k as int),
{
    let r = slice_subrange(s, 0, k);
    assert(r@ =~= s@.take(k as int));
    r
}

/// A text without its first `k` characters.
pub fn tail(s: &[char], k: usize) -> (r: &[char])
    requires
        k <= s@.len(),
    ensures
        r@ == s@.skip(k as int),
{
    let r = slice_subrange(s, k, s.len());
    assert(r@ =~= s@.skip(k as int));
    r
}

/// Where a character last stands.
pub fn find_last_char(s: &[char], c: char) -> (r: Option<usize>)
    ensures
        s@.len() <= usize::MAX,
        r is Some <==> find_last(s@, c) is Some,
        r is Some ==> find_last(s@, c) == Some(r->0 as int) && r->0 < s@.len() && s@[r->0 as int] == c,
{
    let mut k: usize = s.len();
    assert(s@.take(k as int) =~= s@);
    while k > 0
        invariant
            k <= s@.len(),
            find_last(s@, c) == find_last(s@.take(k as int), c),
        decreases k,
    {
        assert(s@.take(k as int).drop_last() =~= s@.take(k - 1));
        if s[k - 1] == c {
            return Some(k - 1);
        }
        k -= 1;
    }
    None
}

/// Whether a text starts with another.
pub fn starts_with(s: &[char], p: &[char]) -> (r: bool)
    ensures
        r == begins(s@, p@),
{
    p.len() <= s.len() && same(head(s, p.len()), p)
}

/// Whether a text ends with another.
pub fn ends_with(s: &[char], p: &[char]) -> (r: bool)
    ensures
        r == ends(s@, p@),
{
    p.len() <= s.len() && same(tail(s, s.len() - p.len()), p)
}

/// Where a text first stands in another.
pub fn find_in(s: &[char], p: &[char]) -> (r: Option<usize>)
    ensures
        s@.len() <= usize::MAX,
        r is Some <==> find_text(s@, p@) is Some,
        r is Some ==> find_text(s@, p@) == Some(r->0 as int) && r->0 + p@.len() <= s@.len(),
{
    let n: usize = s.len();
    let mut i: usize = 0;
    assert(s@.skip(0) =~= s@);
    loop
        invariant
            i <= n,
            n == s@.len(),
            find_text(s@, p@) == match find_text(s@.skip(i as int), p@) {
                Some(k) => Some(i + k),
                None => None::<int>,
            },
        decreases s@.len() - i,
    {
        if starts_with(tail(s, i), p) {
            return Some(i);
        }
        if i == n {
            return None;
        }
        assert(s@.skip(i as int).drop_first() =~= s@.skip(i + 1));
        i += 1;
    }
}

/// The number up to `max` that a row of digits denotes.
pub fn parse_digits(d: &[char], max: u64) -> (r: Option<u64>)
    ensures
        r is Some <==> is_number(d@) && number(d@) <= max,
        r is Some ==> r->0 == number(d@),
{
    if d.len() == 0 {
        return None;
    }
    let mut v: u64 = 0;
    let mut i: usize = 0;
    while i < d.len()
        invariant
            i <= d@.len(),
            forall|j: int| 0 <= j < i ==> is_digit(#[trigger] d@[j]),
            v == number(d@.take(i as int)),
            v <= max,
        decreases d@.len() - i,
    {
        let c: char = d[i];
        if !digit(c) {
            return None;
        }
        let step: u128 = (v as u128) * 10 + ((c as u8) - 48) as u128;
        assert(d@.take(i + 1).drop_last() =~= d@.take(i as int));
        assert(step == number(d@.take(i + 1)));
        if step > max as u128 {
            proof {
                if is_number(d@) {
                    lemma_number_grows(d@, i + 1);
                }
            }
            return None;
        }
        v = step as u64;
        i += 1;
    }
    assert(d@.take(i as int) =~= d@);
    Some(v)
}

/// The number up to `max` that a text denotes.
pub fn parse_unsigned(s: &[char], max: u64) -> (r: Option<u64>)
    ensures
        r is Some <==> unsigned(s@, max as nat) is Some,
        r is Some ==> unsigned(s@, max as nat) == Some(r->0 as nat),
{
    if s.len() > 0 && s[0] == '+' {
        assert(s@.skip(1) =~= s@.drop_first());
        parse_digits(tail(s, 1), max)
    } else {
        parse_digits(s, max)
    }
}

/// The 64-bit integer that a text denotes.
pub fn parse_i64(s: &[char]) -> (r: Option<i64>)
    ensures
        r is Some <==> signed(s@, i64::MIN as int, i64::MAX as int) is Some,
        r is Some ==> signed(s@, i64::MIN as int, i64::MAX as int) == Some(r->0 as int),
{
    if s.len() > 0 && s[0] == '-' {
        assert(s@.skip(1) =~= s@.drop_first());
        match parse_digits(tail(s, 1), 0x8000_0000_0000_0000) {
            Some(n) => Some(
                if n == 0x8000_0000_0000_0000 {
                    i64::MIN
                } else {
                    -(n as i64)
                },
            ),
            None => None,
        }
    } else {
        match parse_unsigned(s, i64::MAX as u64) {
            Some(n) => Some(n as i64),
            None => None,
        }
    }
}

/// Writes the decimal text of an integer.
pub fn push_integer(out: &mut String, n: i64)
    ensures
        final(out)@ == old(out)@ + integer_text(n as int),
{
    if n < 0 {
        out.push('-');
        let m: u64 = if n == i64::MIN {
            0x8000_0000_0000_0000
        } else {
            (-n) as u64
        };
        push_decimal(out, m);
    } else {
        push_decimal(out, n as u64);
    }
    assert(out@ =~= old(out)@ + integer_text(n as int));
}

/// The digit of a number below sixteen.
pub fn to_digit_char(n: u8) -> (c: char)
    requires
        n < 16,
    ensures
        c == digit_char(n as nat),
{
    if n < 10 {
        (48 + n) as char
    } else {
        (87 + n) as char
    }
}

/// Writes the decimal digits of a number.
pub fn push_decimal(out: &mut String, n: u64)
    ensures
        final(out)@ == old(out)@ + decimal(n as nat),
    decreases n,
{
    if n >= 10 {
        push_decimal(out, n / 10);
    }
    out.push(to_digit_char((n % 10) as u8));
    assert(out@ =~= old(out)@ + decimal(n as nat));
}

/// Writes the last `width` hexadecimal digits of a number.
pub fn push_hex(out: &mut String, n: u64, width: u32)
    ensures
        final(out)@ == old(out)@ + hex(n as nat, width as nat),
    decreases width,
{
    if width > 0 {
        push_hex(out, n / 16, width - 1);
        out.push(to_digit_char((n % 16) as u8));
    }
    assert(out@ =~= old(out)@ + hex(n as nat, width as nat));
}

/// The decimal digits of a number.
pub fn decimal_text(n: u64) -> (r: String)
    ensures
        r@ == decimal(n as nat),
{
    let mut r = String::new();
    push_decimal(&mut r, n);
    assert(r@ =~= decimal(n as nat));
    r
}

/// The models of a list of texts.
pub open spec fn views(v: Seq<String>) -> Seq<Seq<char>> {
    v.map_values(|s: String| s@)
}

/// A text without the white space at its start.
pub open spec fn past_white(s: Seq<char>) -> Seq<char> {
    s.skip(span(s, |c: char| is_space(c)))
}

/// The next word of a text, empty where there is none, and what follows it.
pub open spec fn word(s: Seq<char>) -> (Seq<char>, Seq<char>) {
    let t = past_white(s);
    let n = span(t, |c: char| !is_space(c));
    (t.take(n), t.skip(n))
}

/// Reads the next word, empty where there is none.
pub fn take_word(s: &[char]) -> (r: (&[char], &[char]))
    ensures
        (r.0@, r.1@) == word(s@),
{
    let mut i: usize = 0;
    while i < s.len() && space(s[i])
        invariant
            i <= s@.len(),
            forall|j: int| 0 <= j < i ==> is_space(#[trigger] s@[j]),
        decreases s@.len() - i,
    {
        i += 1;
    }
    let t = tail(s, i);
    proof {
        lemma_span(s@, |c: char| is_space(c), i as int);
    }
    let mut k: usize = 0;
    while k < t.len() && !space(t[k])
        invariant
            k <= t@.len(),
            forall|j: int| 0 <= j < k ==> !is_space(#[trigger] t@[j]),
        decreases t@.len() - k,
    {
        k += 1;
    }
    proof {
        lemma_span(t@, |c: char| !is_space(c), k as int);
    }
    (head(t, k), tail(t, k))
}

/// One text comes before another in the order of their characters.
pub open spec fn text_before(a: Seq<char>, b: Seq<char>) -> bool
    decreases a.len(),
{
    if b.len() == 0 {
        false
    } else if a.len() == 0 {
        true
    } else if a[0] == b[0] {
        text_before(a.drop_first(), b.drop_first())
    } else {
        a[0] < b[0]
    }
}

/// Whether one text comes before another.
pub fn comes_before(a: &[char], b: &[char]) -> (r: bool)
    ensures
        r == text_before(a@, b@),
{
    let mut i: usize = 0;
    assert(a@.skip(0) =~= a@);
    assert(b@.skip(0) =~= b@);
    while i < a.len() && i < b.len()
        invariant
            i <= a@.len(),
            i <= b@.len(),
            text_before(a@, b@) == text_before(a@.skip(i as int), b@.skip(i as int)),
        decreases a@.len() - i,
    {
        if a[i] != b[i] {
            return a[i] < b[i];
        }
        assert(a@.skip(i as int).drop_first() =~= a@.skip(i + 1));
        assert(b@.skip(i as int).drop_first() =~= b@.skip(i + 1));
        i += 1;
    }
    i < b.len()
}

}
