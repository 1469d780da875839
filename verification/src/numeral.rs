//! Double-precision numbers by their order: what the numeric properties of lobbies are compared by.
//!
//! Floating point itself stays with the caller, who reads the bits of a number; everything that is
//! decided about numbers here is decided on their ranks.
use crate::text;
use vstd::prelude::*;

verus! {

/// A double: not a number, or its rank. Ranks are ordered as the numbers are, and both zeros have
/// rank 0.
#[derive(Clone, Copy, Debug, PartialEq, Eq, Structural)]
pub enum Real {
    Nan,
    Rank(i64),
}

/// The magnitude bits of positive infinity: no number has more.
pub const INFINITY_BITS: u64 = 0x7ff0_0000_0000_0000;

/// The bit that makes a number negative.
pub const SIGN_BIT: u64 = 0x8000_0000_0000_0000;

impl Real {
    /// The double with the given IEEE 754 bits.
    pub open spec fn of_bits(bits: u64) -> Real {
        let magnitude = if bits >= SIGN_BIT { (bits - SIGN_BIT) as u64 } else { bits };
        if magnitude > INFINITY_BITS {
            Real::Nan
        } else if bits >= SIGN_BIT {
            Real::Rank((-(magnitude as int)) as i64)
        } else {
            Real::Rank(magnitude as i64)
        }
    }

    /// A rank that some number has.
    pub open spec fn wf(self) -> bool {
        self matches Real::Rank(k) ==> -(INFINITY_BITS as int) <= k <= INFINITY_BITS
    }

    pub fn from_bits(bits: u64) -> (r: Real)
        ensures
            r == Real::of_bits(bits),
            r.wf(),
    {
        let negative = bits >= SIGN_BIT;
        let magnitude: u64 = if negative {
            bits - SIGN_BIT
        } else {
            bits
        };
        if magnitude > INFINITY_BITS {
            Real::Nan
        } else if negative {
            Real::Rank(-(magnitude as i64))
        } else {
            Real::Rank(magnitude as i64)
        }
    }

    /// IEEE 754 bits of the number.
    pub fn to_bits(&self) -> (bits: u64)
        requires
            self.wf(),
        ensures
            Real::of_bits(bits) == *self,
    {
        match *self {
            Real::Nan => 0x7ff8_0000_0000_0000,
            Real::Rank(k) => {
                if k < 0 {
                    SIGN_BIT + ((-k) as u64)
                } else {
                    k as u64
                }
            },
        }
    }
}

/// The number at the start of a text is over: nothing follows but an exponent.
pub open spec fn is_exponent(s: Seq<char>) -> bool {
    if s.len() == 0 {
        true
    } else {
        let d = s.drop_first();
        s[0] == 'e' && text::is_number(
            if d.len() > 0 && (d[0] == '+' || d[0] == '-') { d.drop_first() } else { d },
        )
    }
}

/// Digits with at most one point among or around them, and an exponent if wanted.
pub open spec fn is_decimal(s: Seq<char>) -> bool {
    let whole = text::span(s, |c: char| text::is_digit(c));
    let rest = s.skip(whole);
    if rest.len() > 0 && rest[0] == '.' {
        let fraction = rest.drop_first();
        let n = text::span(fraction, |c: char| text::is_digit(c));
        whole + n > 0 && is_exponent(fraction.skip(n))
    } else {
        whole > 0 && is_exponent(rest)
    }
}

/// A text that denotes a double, in either case of letters.
pub open spec fn is_numeral(s: Seq<char>) -> bool {
    let l = text::lowered(s);
    let t = if l.len() > 0 && (l[0] == '+' || l[0] == '-') { l.drop_first() } else { l };
    t == "inf"@ || t == "infinity"@ || t == "nan"@ || is_decimal(t)
}

/// How many digits a text starts with.
fn digits(s: &[char]) -> (r: usize)
    ensures
        r == text::span(s@, |c: char| text::is_digit(c)),
        r <= s@.len(),
{
    let mut i: usize = 0;
    while i < s.len() && text::digit(s[i])
        invariant
            i <= s@.len(),
            forall|j: int| 0 <= j < i ==> text::is_digit(#[trigger] s@[j]),
        decreases s@.len() - i,
    {
        i += 1;
    }
    proof {
        text::lemma_span(s@, |c: char| text::is_digit(c), i as int);
    }
    i
}

/// A text without a sign at its start.
fn unsigned_part(s: &[char]) -> (r: &[char])
    ensures
        r@ == (if s@.len() > 0 && (s@[0] == '+' || s@[0] == '-') { s@.drop_first() } else { s@ }),
{
    if s.len() > 0 && (s[0] == '+' || s[0] == '-') {
        assert(s@.skip(1) =~= s@.drop_first());
        text::tail(s, 1)
    } else {
        s
    }
}

fn exponent(s: &[char]) -> (r: bool)
    ensures
        r == is_exponent(s@),
{
    if s.len() == 0 {
        return true;
    }
    assert(s@.skip(1) =~= s@.drop_first());
    let d = unsigned_part(text::tail(s, 1));
    let n: usize = digits(d);
    proof {
        let p = |c: char| text::is_digit(c);
        text::lemma_span_is(d@, p);
        assert(text::is_number(d@) <==> n == d@.len() && n > 0) by {
            if n < d@.len() {
                assert(!p(d@[n as int]));
                assert(!text::is_digit(d@[n as int]));
            } else {
                assert forall|i: int| 0 <= i < d@.len() implies text::is_digit(#[trigger] d@[i]) by {
                    assert(p(d@[i]));
                }
            }
        }
    }
    s[0] == 'e' && n == d.len() && n > 0
}

/// Whether a text denotes a double.
pub fn denotes_number(s: &[char]) -> (r: bool)
    ensures
        r == is_numeral(s@),
{
    let l = text::to_lowered(s);
    let t = unsigned_part(l.as_slice());
    if text::is_text(t, "inf") || text::is_text(t, "infinity") || text::is_text(t, "nan") {
        return true;
    }
    let whole: usize = digits(t);
    let rest = text::tail(t, whole);
    if rest.len() > 0 && rest[0] == '.' {
        assert(rest@.skip(1) =~= rest@.drop_first());
        let fraction = text::tail(rest, 1);
        let n: usize = digits(fraction);
        (whole > 0 || n > 0) && exponent(text::tail(fraction, n))
    } else {
        whole > 0 && exponent(rest)
    }
}

}
