//! Integers as bytes and the small byte-string operations that the wire formats are built from.
use crate::text;
use vstd::prelude::*;
use vstd::slice::slice_subrange;

verus! {

/// The low `width` bytes of a number, the least significant first.
pub open spec fn le(n: nat, width: nat) -> Seq<u8>
    decreases width,
{
    if width == 0 {
        Seq::empty()
    } else {
        seq![(n % 256) as u8] + le(n / 256, (width - 1) as nat)
    }
}

/// The low `width` bytes of a number, the most significant first.
pub open spec fn be(n: nat, width: nat) -> Seq<u8>
    decreases width,
{
    if width == 0 {
        Seq::empty()
    } else {
        be(n / 256, (width - 1) as nat).push((n % 256) as u8)
    }
}

/// The number whose bytes these are, the least significant first.
pub open spec fn from_le(s: Seq<u8>) -> nat
    decreases s.len(),
{
    if s.len() == 0 { 0 } else { s[0] as nat + 256 * from_le(s.drop_first()) }
}

/// The number whose bytes these are, the most significant first.
pub open spec fn from_be(s: Seq<u8>) -> nat
    decreases s.len(),
{
    if s.len() == 0 { 0 } else { 256 * from_be(s.drop_last()) + s.last() as nat }
}

pub open spec fn power256(width: nat) -> nat
    decreases width,
{
    if width == 0 { 1 } else { 256 * power256((width - 1) as nat) }
}

/// A number that fits into `width` bytes is read back from them.
pub proof fn le_reads_back(n: nat, width: nat)
    requires
        n < power256(width),
    ensures
        le(n, width).len() == width,
        from_le(le(n, width)) == n,
    decreases width,
{
    if width > 0 {
        le_reads_back(n / 256, (width - 1) as nat);
        let s = le(n, width);
        assert(s.drop_first() =~= le(n / 256, (width - 1) as nat));
    }
}

/// A number that fits into `width` bytes is read back from them.
pub proof fn be_reads_back(n: nat, width: nat)
    requires
        n < power256(width),
    ensures
        be(n, width).len() == width,
        from_be(be(n, width)) == n,
    decreases width,
{
    if width > 0 {
        be_reads_back(n / 256, (width - 1) as nat);
        let s = be(n, width);
        assert(s.drop_last() =~= be(n / 256, (width - 1) as nat));
    }
}

pub proof fn lemma_le_len(n: nat, width: nat)
    ensures
        le(n, width).len() == width,
    decreases width,
{
    if width > 0 {
        lemma_le_len(n / 256, (width - 1) as nat);
    }
}

pub proof fn lemma_be_len(n: nat, width: nat)
    ensures
        be(n, width).len() == width,
    decreases width,
{
    if width > 0 {
        lemma_be_len(n / 256, (width - 1) as nat);
    }
}

/// Bytes denote less than one more byte would.
pub proof fn lemma_from_le_bound(s: Seq<u8>)
    ensures
        from_le(s) < power256(s.len()),
    decreases s.len(),
{
    if s.len() > 0 {
        lemma_from_le_bound(s.drop_first());
    }
}

pub proof fn lemma_from_be_bound(s: Seq<u8>)
    ensures
        from_be(s) < power256(s.len()),
    decreases s.len(),
{
    if s.len() > 0 {
        lemma_from_be_bound(s.drop_last());
    }
}

pub proof fn lemma_power256()
    ensures
        power256(1) == 0x100,
        power256(2) == 0x1_0000,
        power256(4) == 0x1_0000_0000,
        power256(8) == 0x1_0000_0000_0000_0000,
{
    reveal_with_fuel(power256, 9);
}

/// Writes the low `width` bytes of a number, the least significant first.
pub fn push_le(out: &mut Vec<u8>, n: u64, width: u32)
    ensures
        final(out)@ == old(out)@ + le(n as nat, width as nat),
    decreases width,
{
    if width > 0 {
        out.push((n % 256) as u8);
        push_le(out, n / 256, width - 1);
    }
    assert(out@ =~= old(out)@ + le(n as nat, width as nat));
}

/// Writes the low `width` bytes of a number, the most significant first.
pub fn push_be(out: &mut Vec<u8>, n: u64, width: u32)
    ensures
        final(out)@ == old(out)@ + be(n as nat, width as nat),
    decreases width,
{
    if width > 0 {
        push_be(out, n / 256, width - 1);
        out.push((n % 256) as u8);
    }
    assert(out@ =~= old(out)@ + be(n as nat, width as nat));
}

/// Reads a number of up to eight bytes, the least significant first.
pub fn read_le(s: &[u8]) -> (n: u64)
    requires
        s@.len() <= 8,
    ensures
        n == from_le(s@),
{
    let mut i: usize = s.len();
    let mut n: u64 = 0;
    assert(s@.skip(i as int) =~= Seq::empty());
    while i > 0
        invariant
            i <= s@.len() <= 8,
            n == from_le(s@.skip(i as int)),
        decreases i,
    {
        i -= 1;
        proof {
            let t = s@.skip(i as int);
            assert(t.drop_first() =~= s@.skip(i + 1));
            lemma_from_le_bound(t.drop_first());
            lemma_from_le_bound(t);
            reveal_with_fuel(power256, 9);
        }
        n = n * 256 + s[i] as u64;
    }
    assert(s@.skip(0) =~= s@);
    n
}

/// Reads a number of up to eight bytes, the most significant first.
pub fn read_be(s: &[u8]) -> (n: u64)
    requires
        s@.len() <= 8,
    ensures
        n == from_be(s@),
{
    let mut i: usize = 0;
    let mut n: u64 = 0;
    assert(s@.take(0) =~= Seq::empty());
    while i < s.len()
        invariant
            i <= s@.len() <= 8,
            n == from_be(s@.take(i as int)),
        decreases s@.len() - i,
    {
        proof {
            let t = s@.take(i + 1);
            assert(t.drop_last() =~= s@.take(i as int));
            lemma_from_be_bound(t);
            reveal_with_fuel(power256, 9);
        }
        n = n * 256 + s[i] as u64;
        i += 1;
    }
    assert(s@.take(i as int) =~= s@);
    n
}

/// The bytes from `a` up to `b`.
pub fn part(s: &[u8], a: usize, b: usize) -> (r: &[u8])
    requires
        a <= b <= s@.len(),
    ensures
        r@ == s@.subrange(a as int, b as int),
{
    slice_subrange(s, a, b)
}

/// A copy of some bytes.
pub fn copied(s: &[u8]) -> (r: Vec<u8>)
    ensures
        r@ == s@,
{
    let mut r: Vec<u8> = Vec::new();
    r.extend_from_slice(s);
    assert(r@ =~= s@);
    r
}

/// Whether two byte strings are the same.
pub fn same(a: &[u8], b: &[u8]) -> (r: bool)
    ensures
        r == (a@ == b@),
{
    if a.len() != b.len() {
        return false;
    }
    let mut i: usize = 0;
    while i < a.len()
        invariant
            i <= a@.len(),
            a@.len() == b@.len(),
            forall|j: int| 0 <= j < i ==> a@[j] == b@[j],
        decreases a@.len() - i,
    {
        if a[i] != b[i] {
            return false;
        }
        i += 1;
    }
    assert(a@ =~= b@);
    true
}

/// The text of bytes that are not UTF-8: with replacement characters.
pub uninterp spec fn lossy_text(data: Seq<u8>) -> Seq<char>;

/// `String::from_utf8_lossy`: the text depends on the bytes alone, and is the one that they encode
/// where they are UTF-8.
#[verifier::external_body]
pub(crate) fn decode_lossy(data: &[u8]) -> (r: String)
    ensures
        r@ == lossy_text(data@),
        vstd::utf8::valid_utf8(data@) ==> r@ == vstd::utf8::decode_utf8(data@),
{
    String::from_utf8_lossy(data).into_owned()
}

/// The text of some bytes, with what is not UTF-8 replaced.
pub open spec fn text_of(data: Seq<u8>) -> Seq<char> {
    if vstd::utf8::valid_utf8(data) {
        vstd::utf8::decode_utf8(data)
    } else {
        lossy_text(data)
    }
}

/// Reads some bytes as text.
pub fn decode(data: &[u8]) -> (r: String)
    ensures
        r@ == text_of(data@),
{
    decode_lossy(data)
}

/// The bytes of a text are read as that text.
pub proof fn text_reads_back(t: Seq<char>)
    ensures
        text_of(vstd::utf8::encode_utf8(t)) == t,
{
    vstd::utf8::encode_utf8_valid_utf8(t);
    vstd::utf8::encode_utf8_decode_utf8(t);
}

/// Two lower-case hexadecimal digits for each byte.
pub open spec fn hex_of(s: Seq<u8>) -> Seq<char>
    decreases s.len(),
{
    if s.len() == 0 {
        Seq::empty()
    } else {
        hex_of(s.drop_last()) + text::hex(s.last() as nat, 2)
    }
}

pub proof fn lemma_hex_len(n: nat, width: nat)
    ensures
        text::hex(n, width).len() == width,
    decreases width,
{
    if width > 0 {
        lemma_hex_len(n / 16, (width - 1) as nat);
    }
}

pub proof fn lemma_hex_of_len(s: Seq<u8>)
    ensures
        hex_of(s).len() == 2 * s.len(),
    decreases s.len(),
{
    if s.len() > 0 {
        lemma_hex_of_len(s.drop_last());
        lemma_hex_len(s.last() as nat, 2);
    }
}

/// Hexadecimal digits are ASCII.
pub proof fn lemma_hex_ascii(n: nat, width: nat)
    ensures
        vstd::utf8::is_ascii_chars(text::hex(n, width)),
    decreases width,
{
    if width > 0 {
        lemma_hex_ascii(n / 16, (width - 1) as nat);
    }
}

pub proof fn lemma_hex_of_ascii(s: Seq<u8>)
    ensures
        vstd::utf8::is_ascii_chars(hex_of(s)),
    decreases s.len(),
{
    if s.len() > 0 {
        lemma_hex_of_ascii(s.drop_last());
        lemma_hex_ascii(s.last() as nat, 2);
    }
}

/// Writes two lower-case hexadecimal digits for each byte.
pub fn hex_text(s: &[u8]) -> (r: String)
    ensures
        r@ == hex_of(s@),
{
    let mut r = String::new();
    let mut i: usize = 0;
    assert(s@.take(0) =~= Seq::empty());
    assert(r@ =~= hex_of(s@.take(0)));
    while i < s.len()
        invariant
            i <= s@.len(),
            r@ == hex_of(s@.take(i as int)),
        decreases s@.len() - i,
    {
        text::push_hex(&mut r, s[i] as u64, 2);
        i += 1;
        assert(s@.take(i as int).drop_last() =~= s@.take(i - 1));
    }
    assert(s@.take(i as int) =~= s@);
    r
}

}
