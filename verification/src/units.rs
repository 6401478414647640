//! Fixed-point quantities and their decimal text.
//!
//! Every length, coordinate and font size of this library is an integer number
//! of thousandths of a unit ("millis"). Decimal text is the form in which such
//! a quantity is read from and written into a document.

use vstd::prelude::*;

verus! {

/// Millis in one unit.
pub const MILLIS_PER_UNIT: i64 = 1000;

/// Largest magnitude, in millis, that a coordinate or a size may have.
pub const COORD_LIMIT: i64 = 1_000_000_000_000;

/// Largest magnitude, in whole units, that a coordinate or a size may have.
pub const UNIT_LIMIT: i64 = 1_000_000_000;

/// `v` is a quantity that this library stores and computes with.
pub open spec fn in_range(v: int) -> bool {
    -COORD_LIMIT <= v <= COORD_LIMIT
}

/// The byte is a decimal digit.
pub open spec fn is_digit(b: u8) -> bool {
    48 <= b <= 57
}

/// All bytes of the run are decimal digits.
pub open spec fn all_digits(s: Seq<u8>) -> bool {
    forall|i: int| 0 <= i < s.len() ==> is_digit(#[trigger] s[i])
}

/// The number that a run of decimal digits spells.
pub open spec fn digits_value(s: Seq<u8>) -> nat
    decreases s.len(),
{
    if s.len() == 0 {
        0
    } else {
        digits_value(s.drop_last()) * 10 + (s.last() - 48) as nat
    }
}

/// How many digits stand at the start of `s`.
pub open spec fn leading_digits(s: Seq<u8>) -> nat
    decreases s.len(),
{
    if s.len() > 0 && is_digit(s[0]) {
        1 + leading_digits(s.drop_first())
    } else {
        0
    }
}

/// The digit at place `i` of a fraction, zero past its end.
pub open spec fn fraction_digit(frac: Seq<u8>, i: int) -> nat {
    if 0 <= i < frac.len() {
        (frac[i] - 48) as nat
    } else {
        0
    }
}

/// The first three places of a fraction, in millis. Later places are dropped.
pub open spec fn fraction_millis(frac: Seq<u8>) -> nat {
    fraction_digit(frac, 0) * 100 + fraction_digit(frac, 1) * 10 + fraction_digit(frac, 2)
}

/// The millis that an unsigned decimal spells: digits, then optionally a point
/// and more digits, with at least one digit in all.
pub open spec fn unsigned_millis(body: Seq<u8>) -> Option<nat> {
    let n = leading_digits(body) as int;
    let whole = body.subrange(0, n);
    if n == body.len() {
        if n > 0 {
            Some(digits_value(whole) * 1000)
        } else {
            None
        }
    } else if body[n] == 46 {
        let frac = body.subrange(n + 1, body.len() as int);
        if all_digits(frac) && n + frac.len() > 0 {
            Some(digits_value(whole) * 1000 + fraction_millis(frac))
        } else {
            None
        }
    } else {
        None
    }
}

/// The text has a sign in front.
pub open spec fn has_sign(text: Seq<u8>) -> bool {
    text.len() > 0 && (text[0] == 45 || text[0] == 43)
}

/// The quantity that a decimal text spells, if it spells one within range:
/// an optional sign, then an unsigned decimal.
pub open spec fn decimal_millis(text: Seq<u8>) -> Option<int> {
    let body = if has_sign(text) {
        text.subrange(1, text.len() as int)
    } else {
        text
    };
    match unsigned_millis(body) {
        Some(m) => {
            let v = if has_sign(text) && text[0] == 45 {
                -(m as int)
            } else {
                m as int
            };
            if in_range(v) {
                Some(v)
            } else {
                None
            }
        },
        None => None,
    }
}

proof fn lemma_digits_value_push(s: Seq<u8>, d: u8)
    ensures
        digits_value(s.push(d)) == digits_value(s) * 10 + (d - 48) as nat,
{
    assert(s.push(d).drop_last() =~= s);
}

/// A run of digits that ends where `s` ends, or at a byte that is no digit, is
/// all the leading digits of `s`.
proof fn lemma_leading_digits(s: Seq<u8>, n: int)
    requires
        0 <= n <= s.len(),
        all_digits(s.subrange(0, n)),
        n == s.len() || !is_digit(s[n]),
    ensures
        leading_digits(s) == n,
    decreases n,
{
    if n == 0 {
    } else {
        assert(is_digit(s.subrange(0, n)[0]));
        let t = s.drop_first();
        assert forall|i: int| 0 <= i < n - 1 implies is_digit(#[trigger] t.subrange(0, n - 1)[i]) by {
            assert(t.subrange(0, n - 1)[i] == s.subrange(0, n)[i + 1]);
        }
        lemma_leading_digits(t, n - 1);
    }
}

/// Reads a decimal text as a quantity in millis. Places after the third are
/// dropped. `None` where the text is no decimal or its value is out of range.
pub fn parse_decimal(text: &[u8]) -> (r: Option<i64>)
    ensures
        match decimal_millis(text@) {
            Some(v) => r == Some(v as i64),
            None => r is None,
        },
{
    let len = text.len();
    let signed = len > 0 && (text[0] == 45 || text[0] == 43);
    let negative = signed && text[0] == 45;
    let start: usize = if signed { 1 } else { 0 };
    let ghost body = text@.subrange(start as int, len as int);
    let mut i: usize = start;
    let mut whole: i64 = 0;
    let mut over = false;
    while i < len && text[i] >= 48 && text[i] <= 57
        invariant
            start <= i <= len,
            len == text@.len(),
            body == text@.subrange(start as int, len as int),
            all_digits(body.subrange(0, i - start)),
            0 <= whole <= UNIT_LIMIT,
            !over ==> whole == digits_value(body.subrange(0, i - start)),
            over ==> digits_value(body.subrange(0, i - start)) > UNIT_LIMIT,
        decreases len - i,
    {
        let d: i64 = (text[i] - 48) as i64;
        proof {
            let before = body.subrange(0, i - start);
            let after = body.subrange(0, i + 1 - start);
            assert(after =~= before.push(text@[i as int]));
            lemma_digits_value_push(before, text@[i as int]);
        }
        if !over {
            if whole > (UNIT_LIMIT - d) / 10 {
                over = true;
                whole = 0;
            } else {
                whole = whole * 10 + d;
            }
        }
        i = i + 1;
    }
    let n: usize = i - start;
    proof {
        assert(i < len ==> body[n as int] == text@[i as int]);
        lemma_leading_digits(body, n as int);
        if !signed {
            assert(body =~= text@);
        }
    }
    let mut millis: i64 = 0;
    if i == len {
        if n == 0 {
            return None;
        }
    } else if text[i] == 46 {
        let frac_start: usize = i + 1;
        let ghost frac = body.subrange(n + 1, body.len() as int);
        assert(frac =~= text@.subrange(frac_start as int, len as int));
        let mut j: usize = frac_start;
        let mut scale: i64 = 100;
        while j < len
            invariant
                frac_start <= j <= len,
                len == text@.len(),
                frac == text@.subrange(frac_start as int, len as int),
                frac == body.subrange(n + 1, body.len() as int),
                body == if has_sign(text@) {
                    text@.subrange(1, text@.len() as int)
                } else {
                    text@
                },
                leading_digits(body) == n,
                n < body.len(),
                body[n as int] == 46,
                all_digits(frac.subrange(0, j - frac_start)),
                j - frac_start == 0 ==> scale == 100 && millis == 0,
                j - frac_start == 1 ==> scale == 10 && millis == fraction_digit(frac, 0) * 100,
                j - frac_start == 2 ==> scale == 1 && millis == fraction_digit(frac, 0) * 100
                    + fraction_digit(frac, 1) * 10,
                j - frac_start >= 3 ==> scale == 0 && millis == fraction_millis(frac),
                0 <= millis <= 999,
            decreases len - j,
        {
            let b = text[j];
            if b < 48 || b > 57 {
                proof {
                    assert(!is_digit(frac[j - frac_start]));
                }
                return None;
            }
            proof {
                assert(frac[j - frac_start] == b);
                assert forall|k: int| 0 <= k < j + 1 - frac_start implies is_digit(
                    #[trigger] frac.subrange(0, j + 1 - frac_start)[k],
                ) by {
                    if k < j - frac_start {
                        assert(frac.subrange(0, j - frac_start)[k] == frac[k]);
                    }
                }
            }
            millis = millis + scale * ((b - 48) as i64);
            scale = if scale == 100 {
                10
            } else if scale == 10 {
                1
            } else {
                0
            };
            j = j + 1;
        }
        proof {
            assert(frac.subrange(0, j - frac_start) =~= frac);
            assert(frac =~= body.subrange(n + 1, body.len() as int));
        }
        if n == 0 && j == frac_start {
            return None;
        }
    } else {
        return None;
    }
    proof {
        assert(unsigned_millis(body) is Some);
        assert(!over ==> unsigned_millis(body).unwrap() == whole * 1000 + millis);
        assert(over ==> unsigned_millis(body).unwrap() > COORD_LIMIT);
    }
    if over || whole * 1000 + millis > COORD_LIMIT {
        return None;
    }
    let magnitude: i64 = whole * 1000 + millis;
    if negative {
        Some(-magnitude)
    } else {
        Some(magnitude)
    }
}

/// The decimal digits of a number, without leading zeros.
pub open spec fn digit_text(n: nat) -> Seq<u8>
    decreases n,
{
    if n < 10 {
        seq![(48 + n) as u8]
    } else {
        digit_text(n / 10).push((48 + n % 10) as u8)
    }
}

/// The text of a fraction of `f` millis, `f` below a thousand: nothing for
/// zero, else a point and the places up to the last that is not zero.
pub open spec fn fraction_text(f: nat) -> Seq<u8> {
    let a = (48 + f / 100) as u8;
    let b = (48 + (f / 10) % 10) as u8;
    let c = (48 + f % 10) as u8;
    if f == 0 {
        Seq::<u8>::empty()
    } else if f % 100 == 0 {
        seq![46u8, a]
    } else if f % 10 == 0 {
        seq![46u8, a, b]
    } else {
        seq![46u8, a, b, c]
    }
}

/// The text of a magnitude of `m` millis.
pub open spec fn unsigned_text(m: nat) -> Seq<u8> {
    digit_text(m / 1000) + fraction_text(m % 1000)
}

/// The decimal text of a quantity: a minus sign where it is negative, the
/// whole units, and the fraction where there is one.
pub open spec fn milli_text(v: int) -> Seq<u8> {
    if v < 0 {
        seq![45u8] + unsigned_text((-v) as nat)
    } else {
        unsigned_text(v as nat)
    }
}

fn push_digits(out: &mut Vec<u8>, n: u64)
    ensures
        final(out)@ == old(out)@ + digit_text(n as nat),
    decreases n,
{
    if n < 10 {
        out.push((48 + n) as u8);
        assert(final(out)@ =~= old(out)@ + digit_text(n as nat));
    } else {
        push_digits(out, n / 10);
        out.push((48 + n % 10) as u8);
        assert(out@ =~= old(out)@ + digit_text(n as nat));
    }
}

/// Appends the decimal text of `v` to `out`.
pub fn push_milli(out: &mut Vec<u8>, v: i64)
    ensures
        final(out)@ == old(out)@ + milli_text(v as int),
{
    let ghost start = out@;
    if v < 0 {
        out.push(45);
    }
    let m: u64 = if v < 0 {
        (-(v + 1)) as u64 + 1
    } else {
        v as u64
    };
    let ghost signed = out@;
    push_digits(out, m / 1000);
    let f: u64 = m % 1000;
    let a: u8 = (48 + f / 100) as u8;
    let b: u8 = (48 + (f / 10) % 10) as u8;
    let c: u8 = (48 + f % 10) as u8;
    if f != 0 {
        out.push(46);
        out.push(a);
        if f % 100 != 0 {
            out.push(b);
            if f % 10 != 0 {
                out.push(c);
            }
        }
    }
    proof {
        assert(out@ =~= signed + unsigned_text(m as nat));
        if v < 0 {
            assert(signed =~= start + seq![45u8]);
            assert(out@ =~= start + (seq![45u8] + unsigned_text(m as nat)));
        }
    }
}

/// The decimal text of `v`.
pub fn format_milli(v: i64) -> (r: Vec<u8>)
    ensures
        r@ == milli_text(v as int),
{
    let mut out: Vec<u8> = Vec::new();
    push_milli(&mut out, v);
    assert(out@ =~= milli_text(v as int));
    out
}

/// The digits of a number are digits, at least one, and spell the number.
pub(crate) proof fn lemma_digit_text(n: nat)
    ensures
        digit_text(n).len() >= 1,
        all_digits(digit_text(n)),
        digits_value(digit_text(n)) == n,
    decreases n,
{
    let s = digit_text(n);
    if n < 10 {
        assert(s.drop_last() =~= Seq::<u8>::empty());
        assert(digits_value(s.drop_last()) == 0);
    } else {
        lemma_digit_text(n / 10);
        assert(s.drop_last() =~= digit_text(n / 10));
        assert forall|i: int| 0 <= i < s.len() implies is_digit(#[trigger] s[i]) by {
            if i < s.len() - 1 {
                assert(s[i] == digit_text(n / 10)[i]);
            }
        }
    }
}

/// The text of a magnitude spells the magnitude.
proof fn lemma_unsigned_text_spells(m: nat)
    ensures
        unsigned_millis(unsigned_text(m)) == Some(m),
        unsigned_text(m).len() >= 1,
        is_digit(unsigned_text(m)[0]),
{
    let w = m / 1000;
    let f = m % 1000;
    let whole = digit_text(w);
    let body = unsigned_text(m);
    let n = whole.len() as int;
    lemma_digit_text(w);
    assert(body.subrange(0, n) =~= whole);
    assert(body[0] == whole[0]);
    if f == 0 {
        assert(body =~= whole);
        lemma_leading_digits(body, n);
    } else {
        assert(body[n] == 46);
        lemma_leading_digits(body, n);
        let frac = body.subrange(n + 1, body.len() as int);
        let a = (48 + f / 100) as u8;
        let b = (48 + (f / 10) % 10) as u8;
        let c = (48 + f % 10) as u8;
        if f % 100 == 0 {
            assert(frac =~= seq![a]);
        } else if f % 10 == 0 {
            assert(frac =~= seq![a, b]);
        } else {
            assert(frac =~= seq![a, b, c]);
        }
        assert(all_digits(frac));
        assert(fraction_millis(frac) == f);
    }
}

/// Reading what was written gives what was written: the text of a quantity
/// within range spells that quantity.
pub proof fn lemma_text_spells_quantity(v: int)
    requires
        in_range(v),
    ensures
        decimal_millis(milli_text(v)) == Some(v),
{
    let text = milli_text(v);
    if v < 0 {
        let m = (-v) as nat;
        lemma_unsigned_text_spells(m);
        assert(text[0] == 45);
        assert(text.subrange(1, text.len() as int) =~= unsigned_text(m));
    } else {
        lemma_unsigned_text_spells(v as nat);
        assert(!has_sign(text));
    }
}

} // verus!
