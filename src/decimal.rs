use vstd::prelude::*;

use crate::amount::{in_i64, Amount, AmountError};

verus! {

/// Whether `b` is an ASCII decimal digit.
pub open spec fn is_digit(b: u8) -> bool {
    48 <= b <= 57
}

/// Whether every byte of `s` is a decimal digit.
pub open spec fn all_digits(s: Seq<u8>) -> bool {
    forall|i: int| 0 <= i < s.len() ==> is_digit(#[trigger] s[i])
}

/// The number that the digits `s` spell, most significant first.
pub open spec fn digits_value(s: Seq<u8>) -> int
    decreases s.len(),
{
    if s.len() == 0 {
        0
    } else {
        digits_value(s.drop_last()) * 10 + (s.last() - 48)
    }
}

/// The length of the longest prefix of `s` made of digits.
pub open spec fn digit_run(s: Seq<u8>) -> int
    decreases s.len(),
{
    if s.len() == 0 || all_digits(s) {
        s.len() as int
    } else {
        digit_run(s.drop_last())
    }
}

/// Whether the text starts with a minus sign.
pub open spec fn is_negative(s: Seq<u8>) -> bool {
    s.len() > 0 && s[0] == 45
}

/// The text without its leading sign, if any.
pub open spec fn unsigned_part(s: Seq<u8>) -> Seq<u8> {
    if s.len() > 0 && (s[0] == 45 || s[0] == 43) {
        s.skip(1)
    } else {
        s
    }
}

/// Whether `s` is a decimal number: an optional sign, digits, and optionally
/// a point followed by digits, with at least one digit in all.
pub open spec fn is_decimal(s: Seq<u8>) -> bool {
    let b = unsigned_part(s);
    let k = digit_run(b);
    if k == b.len() {
        k > 0
    } else {
        b[k] == 46 && all_digits(b.skip(k + 1)) && (k > 0 || b.len() > k + 1)
    }
}

/// The `j`-th digit after the point, zero where the text has none.
pub open spec fn frac_digit(f: Seq<u8>, j: int) -> int {
    if j < f.len() {
        f[j] - 48
    } else {
        0
    }
}

/// The first four digits after the point as ten-thousandths; later digits
/// are dropped.
pub open spec fn frac_units(f: Seq<u8>) -> int {
    frac_digit(f, 0) * 1000 + frac_digit(f, 1) * 100 + frac_digit(f, 2) * 10 + frac_digit(f, 3)
}

/// The value of the decimal text `s` in ten-thousandths, truncated toward
/// zero.
pub open spec fn decimal_units(s: Seq<u8>) -> int {
    let b = unsigned_part(s);
    let k = digit_run(b);
    let magnitude = digits_value(b.take(k)) * 10000 + if k < b.len() {
        frac_units(b.skip(k + 1))
    } else {
        0
    };
    if is_negative(s) {
        -magnitude
    } else {
        magnitude
    }
}

/// Where `s` starts with `j` digits that are followed by a non-digit or by
/// nothing, its digit run is `j`.
pub proof fn lemma_digit_run_exact(s: Seq<u8>, j: int)
    requires
        0 <= j <= s.len(),
        all_digits(s.take(j)),
        j == s.len() || !is_digit(s[j]),
    ensures
        digit_run(s) == j,
    decreases s.len(),
{
    if s.len() == 0 || all_digits(s) {
        if j < s.len() {
            assert(is_digit(s[j]));
        }
    } else {
        if j == s.len() {
            assert(s.take(j) =~= s);
        }
        let t = s.drop_last();
        assert(t.take(j) =~= s.take(j));
        lemma_digit_run_exact(t, j);
    }
}

/// Where `s` starts with `j` digits, its digit run is at least `j`.
pub proof fn lemma_digit_run_at_least(s: Seq<u8>, j: int)
    requires
        0 <= j <= s.len(),
        all_digits(s.take(j)),
    ensures
        j <= digit_run(s) <= s.len(),
        all_digits(s.take(digit_run(s))),
    decreases s.len(),
{
    if s.len() == 0 || all_digits(s) {
        assert(s.take(s.len() as int) =~= s);
    } else {
        if j == s.len() {
            assert(s.take(j) =~= s);
        }
        let t = s.drop_last();
        assert(t.take(j) =~= s.take(j));
        lemma_digit_run_at_least(t, j);
        assert(t.take(digit_run(t)) =~= s.take(digit_run(t)));
    }
}

/// The value of digits is never negative.
pub proof fn lemma_digits_value_nonneg(s: Seq<u8>)
    requires
        all_digits(s),
    ensures
        digits_value(s) >= 0,
    decreases s.len(),
{
    if s.len() > 0 {
        lemma_digits_value_nonneg(s.drop_last());
    }
}

/// A prefix of digits spells no larger a number than the whole.
pub proof fn lemma_digits_prefix_le(s: Seq<u8>, j: int)
    requires
        0 <= j <= s.len(),
        all_digits(s),
    ensures
        digits_value(s.take(j)) <= digits_value(s),
    decreases s.len() - j,
{
    if j < s.len() {
        lemma_digits_prefix_le(s, j + 1);
        let p = s.take(j + 1);
        assert(p.drop_last() =~= s.take(j));
        lemma_digits_value_nonneg(s.take(j));
        assert(is_digit(p.last()));
    } else {
        assert(s.take(j) =~= s);
    }
}

/// The decimal digits of `n`, most significant first, without leading zeros.
pub open spec fn whole_digits(n: nat) -> Seq<u8>
    decreases n,
{
    if n < 10 {
        seq![(48 + n) as u8]
    } else {
        whole_digits(n / 10).push((48 + n % 10) as u8)
    }
}

/// The four digits of `r`, with leading zeros.
pub open spec fn four_digits(r: nat) -> Seq<u8> {
    seq![
        (48 + r / 1000 % 10) as u8,
        (48 + r / 100 % 10) as u8,
        (48 + r / 10 % 10) as u8,
        (48 + r % 10) as u8,
    ]
}

/// The absolute value of `v`.
pub open spec fn magnitude(v: int) -> nat {
    if v < 0 {
        (-v) as nat
    } else {
        v as nat
    }
}

/// The text of `v` ten-thousandths: a minus sign where negative, the whole
/// part, a point and exactly four fractional digits.
pub open spec fn render(v: int) -> Seq<u8> {
    let m = magnitude(v);
    let sign = if v < 0 {
        seq![45u8]
    } else {
        Seq::<u8>::empty()
    };
    sign + whole_digits(m / 10000) + seq![46u8] + four_digits(m % 10000)
}

/// The digits of a number are digits, at least one, and spell it.
pub proof fn lemma_whole_digits(n: nat)
    ensures
        all_digits(whole_digits(n)),
        whole_digits(n).len() > 0,
        digits_value(whole_digits(n)) == n,
    decreases n,
{
    if n >= 10 {
        lemma_whole_digits(n / 10);
        let w = whole_digits(n);
        assert(w.drop_last() =~= whole_digits(n / 10));
        assert(w.last() == (48 + n % 10) as u8);
        assert(((48 + n % 10) as u8) as int == 48 + n % 10);
        assert(digits_value(w) == digits_value(whole_digits(n / 10)) * 10 + (w.last() - 48));
        assert((n / 10) * 10 + n % 10 == n);
        assert forall|i: int| 0 <= i < w.len() implies is_digit(#[trigger] w[i]) by {
            if i < w.len() - 1 {
                assert(w[i] == whole_digits(n / 10)[i]);
            }
        }
    } else {
        let w = whole_digits(n);
        assert(w.drop_last() =~= Seq::<u8>::empty());
        assert(((48 + n) as u8) as int == 48 + n);
        assert(digits_value(w) == digits_value(w.drop_last()) * 10 + (w.last() - 48));
    }
}

/// Four digits read back as the number they were made from.
pub proof fn lemma_four_digits(r: nat)
    requires
        r < 10000,
    ensures
        all_digits(four_digits(r)),
        frac_units(four_digits(r)) == r,
{
    let f = four_digits(r);
    assert(frac_digit(f, 0) == r / 1000 % 10);
    assert(frac_digit(f, 1) == r / 100 % 10);
    assert(frac_digit(f, 2) == r / 10 % 10);
    assert(frac_digit(f, 3) == r % 10);
    assert((r / 1000 % 10) * 1000 + (r / 100 % 10) * 100 + (r / 10 % 10) * 10 + r % 10 == r)
        by (nonlinear_arith)
        requires
            r < 10000,
    ;
}

/// The text of every 64-bit value reads back as that value.
pub proof fn lemma_render_reads_back(v: int)
    requires
        in_i64(v),
    ensures
        is_decimal(render(v)),
        decimal_units(render(v)) == v,
{
    let m = magnitude(v);
    let w = whole_digits(m / 10000);
    let f = four_digits(m % 10000);
    lemma_whole_digits(m / 10000);
    lemma_four_digits(m % 10000);
    let s = render(v);
    let b = w + seq![46u8] + f;
    assert(is_digit(w[0]));
    if v < 0 {
        assert(s =~= seq![45u8] + b);
        assert(unsigned_part(s) =~= b);
    } else {
        assert(s =~= b);
        assert(unsigned_part(s) =~= b);
    }
    let k = w.len() as int;
    assert(b.take(k) =~= w);
    assert(b[k] == 46u8);
    lemma_digit_run_exact(b, k);
    assert(b.skip(k + 1) =~= f);
}

/// Reading a decimal text and writing it back gives the text's value
/// truncated to four fractional digits, and that text reads back as the
/// same value.
pub proof fn lemma_decimal_round_trip(x: Seq<u8>)
    requires
        is_decimal(x),
        in_i64(decimal_units(x)),
    ensures
        is_decimal(render(decimal_units(x))),
        decimal_units(render(decimal_units(x))) == decimal_units(x),
{
    lemma_render_reads_back(decimal_units(x));
}

/// The largest whole part whose scaled value stays within the 64-bit range.
const WHOLE_CAP: u64 = 922337203685477;

/// The `j`-th digit of `text` after position `from`, zero past its end.
fn frac_digit_at(text: &[u8], from: usize, j: usize) -> (r: u64)
    requires
        from <= text.len(),
        all_digits(text@.skip(from as int)),
    ensures
        r == frac_digit(text@.skip(from as int), j as int),
        r <= 9,
{
    if j < text.len() - from {
        assert(is_digit(text@.skip(from as int)[j as int]));
        (text[from + j] - 48u8) as u64
    } else {
        0
    }
}

/// Append the digits of `n` to `out`.
fn push_whole_digits(n: u64, out: &mut Vec<u8>)
    ensures
        final(out)@ == old(out)@ + whole_digits(n as nat),
    decreases n,
{
    if n >= 10 {
        push_whole_digits(n / 10, out);
    }
    out.push((48 + n % 10) as u8);
    proof {
        if n >= 10 {
            assert(final(out)@ =~= old(out)@ + whole_digits(n as nat));
        } else {
            assert(final(out)@ =~= old(out)@ + whole_digits(n as nat));
        }
    }
}

impl Amount {
    /// This amount as decimal text with exactly four fractional digits,
    /// such as `-12.0500`.
    pub fn to_decimal(&self) -> (r: Vec<u8>)
        ensures
            r@ == render(self@),
    {
        let v = self.units();
        let m: u64 = if v >= 0 {
            v as u64
        } else if v == i64::MIN {
            9223372036854775808u64
        } else {
            (-v) as u64
        };
        let mut out: Vec<u8> = Vec::new();
        if v < 0 {
            out.push(45u8);
        }
        push_whole_digits(m / 10000, &mut out);
        out.push(46u8);
        let r = m % 10000;
        out.push((48 + r / 1000 % 10) as u8);
        out.push((48 + r / 100 % 10) as u8);
        out.push((48 + r / 10 % 10) as u8);
        out.push((48 + r % 10) as u8);
        proof {
            assert(m == magnitude(self@));
            assert(out@ =~= render(self@));
        }
        out
    }
    /// Read a decimal number: an optional `-` or `+`, digits, and optionally a
    /// point followed by digits, with at least one digit in all.
    ///
    /// Digits past the fourth after the point are dropped, so the value is
    /// truncated toward zero, never rounded. Any other text, or a value
    /// outside the 64-bit range once scaled, is an invalid amount.
    #[verifier::rlimit(40)]
    pub fn from_decimal(text: &[u8]) -> (r: Result<Amount, AmountError>)
        ensures
            r is Ok <==> is_decimal(text@) && in_i64(decimal_units(text@)),
            r matches Ok(a) ==> a@ == decimal_units(text@),
    {
        let n = text.len();
        let negative = n > 0 && text[0] == 45u8;
        let start: usize = if n > 0 && (text[0] == 45u8 || text[0] == 43u8) {
            1
        } else {
            0
        };
        let ghost b = unsigned_part(text@);
        proof {
            assert(b =~= text@.skip(start as int));
            assert(b.take(0) =~= Seq::<u8>::empty());
        }
        let mut i: usize = start;
        let mut whole: u64 = 0;
        while i < n && 48u8 <= text[i] && text[i] <= 57u8
            invariant
                start <= i <= n,
                n == text@.len(),
                b == text@.skip(start as int),
                b == unsigned_part(text@),
                all_digits(b.take(i - start)),
                whole == digits_value(b.take(i - start)),
                whole <= WHOLE_CAP,
            decreases n - i,
        {
            let next = whole * 10 + (text[i] - 48u8) as u64;
            proof {
                let p = b.take(i - start + 1);
                assert(p.drop_last() =~= b.take(i - start));
                assert(all_digits(p)) by {
                    assert forall|x: int| 0 <= x < p.len() implies is_digit(#[trigger] p[x]) by {
                        if x < i - start {
                            assert(p[x] == b.take(i - start)[x]);
                        }
                    }
                }
            }
            if next > WHOLE_CAP {
                proof {
                    let j = i - start + 1;
                    lemma_digit_run_at_least(b, j);
                    let k = digit_run(b);
                    assert(b.take(k).take(j) =~= b.take(j));
                    lemma_digits_prefix_le(b.take(k), j);
                    if is_decimal(text@) && k < b.len() {
                        let f = b.skip(k + 1);
                        assert(all_digits(f));
                        assert(f.len() > 0 ==> is_digit(f[0]));
                        assert(f.len() > 1 ==> is_digit(f[1]));
                        assert(f.len() > 2 ==> is_digit(f[2]));
                        assert(f.len() > 3 ==> is_digit(f[3]));
                        assert(frac_units(f) >= 0);
                    }
                }
                return Err(AmountError::InvalidAmount);
            }
            whole = next;
            i = i + 1;
        }
        let ghost k = (i - start) as int;
        proof {
            lemma_digit_run_exact(b, k);
            assert(b.take(k) =~= b.take(i - start));
        }
        let mut frac: u64 = 0;
        if i < n {
            if text[i] != 46u8 {
                return Err(AmountError::InvalidAmount);
            }
            let from = i + 1;
            let mut j: usize = from;
            while j < n
                invariant
                    from <= j <= n,
                    n == text@.len(),
                    from == i + 1,
                    start <= i < n,
                    k == i - start,
                    digit_run(b) == k,
                    b == text@.skip(start as int),
                    b == unsigned_part(text@),
                    all_digits(text@.subrange(from as int, j as int)),
                decreases n - j,
            {
                if text[j] < 48u8 || text[j] > 57u8 {
                    proof {
                        let f = b.skip(k + 1);
                        assert(f[j - from] == text@[j as int]);
                        assert(!is_digit(f[j - from]));
                        assert(!all_digits(f));
                    }
                    return Err(AmountError::InvalidAmount);
                }
                proof {
                    let q = text@.subrange(from as int, j + 1);
                    assert forall|x: int| 0 <= x < q.len() implies is_digit(#[trigger] q[x]) by {
                        if x < j - from {
                            assert(q[x] == text@.subrange(from as int, j as int)[x]);
                        }
                    }
                }
                j = j + 1;
            }
            proof {
                assert(text@.subrange(from as int, n as int) =~= text@.skip(from as int));
                assert(b.skip(k + 1) =~= text@.skip(from as int));
            }
            if i == start && from == n {
                // a lone point
                return Err(AmountError::InvalidAmount);
            }
            frac = frac_digit_at(text, from, 0) * 1000 + frac_digit_at(text, from, 1) * 100
                + frac_digit_at(text, from, 2) * 10 + frac_digit_at(text, from, 3);
        } else if i == start {
            // no digit at all
            return Err(AmountError::InvalidAmount);
        }
        let magnitude = whole * 10000 + frac;
        if negative {
            if magnitude > 9223372036854775808u64 {
                return Err(AmountError::InvalidAmount);
            }
            if magnitude == 9223372036854775808u64 {
                Ok(Amount::from_units(i64::MIN))
            } else {
                Ok(Amount::from_units(-(magnitude as i64)))
            }
        } else {
            if magnitude > 9223372036854775807u64 {
                return Err(AmountError::InvalidAmount);
            }
            Ok(Amount::from_units(magnitude as i64))
        }
    }
}

} // verus!
