//! Fixed-point scalars and their canonical textual encoding.
//!
//! A measurement is carried as an `i64` counting ten-thousandths, so the
//! four-decimal wire encoding is exact.  The canonical encoding is an
//! optional minus sign, the integer part in decimal, a dot, and exactly
//! four fraction digits (`101.0000`, `-3.5000`).  Parsing also accepts a
//! fraction of any other positive length, truncating towards zero after
//! the fourth digit, and rejects anything else, including magnitudes that
//! do not fit.

use vstd::prelude::*;

verus! {

/// How many units make one: values count ten-thousandths.
pub const SCALE: u64 = 10000;

/// ASCII decimal digit.
pub open spec fn is_digit(b: u8) -> bool {
    48 <= b <= 57
}

/// Every byte is a decimal digit.
pub open spec fn all_digits(s: Seq<u8>) -> bool {
    forall|i: int| 0 <= i < s.len() ==> is_digit(#[trigger] s[i])
}

/// Numeric value of a digit string, most significant digit first.
pub open spec fn dec_value(s: Seq<u8>) -> int
    decreases s.len(),
{
    if s.len() == 0 {
        0
    } else {
        dec_value(s.drop_last()) * 10 + (s.last() - 48)
    }
}

/// The decimal digits of `n`, most significant first, no leading zeros
/// (a single `0` for zero).
pub open spec fn dec_digits(n: nat) -> Seq<u8>
    decreases n,
{
    if n < 10 {
        seq![(48 + n) as u8]
    } else {
        dec_digits(n / 10).push((48 + n % 10) as u8)
    }
}

/// Ten to the `k`.
pub open spec fn pow10(k: nat) -> int
    decreases k,
{
    if k == 0 {
        1
    } else {
        10 * pow10((k - 1) as nat)
    }
}

/// Length of the longest digit prefix of `s`.
pub open spec fn digit_prefix_len(s: Seq<u8>) -> int
    decreases s.len(),
{
    if s.len() == 0 || !is_digit(s[0]) {
        0
    } else {
        1 + digit_prefix_len(s.skip(1))
    }
}

/// The last four fraction digits of the wire form, zero padded, as a count
/// of ten-thousandths; digits past the fourth are truncated.
pub open spec fn frac_scaled(d: Seq<u8>) -> int {
    if d.len() >= 4 {
        dec_value(d.take(4))
    } else {
        dec_value(d) * pow10((4 - d.len()) as nat)
    }
}

/// Bolt the sign on and reject magnitudes beyond `i64`.
pub open spec fn signed_in_range(neg: bool, mag: int) -> Option<int> {
    if mag > i64::MAX {
        None
    } else if neg {
        Some(-mag)
    } else {
        Some(mag)
    }
}

/// The grammar of a fixed-point number: an optional `-`, one or more
/// integer digits, and optionally a dot followed by one or more fraction
/// digits; nothing may trail it.  The value counts ten-thousandths,
/// truncated towards zero after the fourth fraction digit.
pub open spec fn spec_parse_fixed(t: Seq<u8>) -> Option<int> {
    if t.len() == 0 {
        None
    } else {
        let neg = t[0] == 45;
        let body = if neg {
            t.skip(1)
        } else {
            t
        };
        let ilen = digit_prefix_len(body);
        if ilen == 0 {
            None
        } else {
            let mag0 = dec_value(body.take(ilen)) * (SCALE as int);
            let rest = body.skip(ilen);
            if rest.len() == 0 {
                signed_in_range(neg, mag0)
            } else if rest[0] == 46 && rest.len() >= 2 && all_digits(rest.skip(1)) {
                signed_in_range(neg, mag0 + frac_scaled(rest.skip(1)))
            } else {
                None
            }
        }
    }
}

/// The canonical encoding of a value: optional minus, integer part, dot,
/// exactly four fraction digits.
pub open spec fn spec_format_fixed(v: int) -> Seq<u8> {
    let a = if v < 0 {
        -v
    } else {
        v
    };
    let sign: Seq<u8> = if v < 0 {
        seq![45u8]
    } else {
        Seq::empty()
    };
    sign + dec_digits((a / (SCALE as int)) as nat) + seq![46u8] + frac4_digits(
        (a % (SCALE as int)) as nat,
    )
}

/// Exactly four fraction digits, zero padded, for `f` ten-thousandths of
/// the fraction part.
pub open spec fn frac4_digits(f: nat) -> Seq<u8> {
    seq![
        (48 + f / 1000 % 10) as u8,
        (48 + f / 100 % 10) as u8,
        (48 + f / 10 % 10) as u8,
        (48 + f % 10) as u8,
    ]
}

/// A digit string's value is nonnegative and below ten to its length.
pub proof fn lemma_dec_value_bound(s: Seq<u8>)
    requires
        all_digits(s),
    ensures
        0 <= dec_value(s) < pow10(s.len()),
    decreases s.len(),
{
    if s.len() > 0 {
        assert(all_digits(s.drop_last())) by {
            assert(forall|i: int|
                0 <= i < s.len() - 1 ==> s.drop_last()[i] == #[trigger] s[i]);
        }
        lemma_dec_value_bound(s.drop_last());
        assert(is_digit(s.last()));
    }
}

/// A digit string's value only grows as digits are appended: any prefix
/// is worth no more than the whole.
pub proof fn lemma_dec_value_prefix(s: Seq<u8>, k: int)
    requires
        all_digits(s),
        0 <= k <= s.len(),
    ensures
        dec_value(s.take(k)) <= dec_value(s),
    decreases s.len(),
{
    if k < s.len() {
        assert(all_digits(s.drop_last())) by {
            assert(forall|i: int|
                0 <= i < s.len() - 1 ==> s.drop_last()[i] == #[trigger] s[i]);
        }
        assert(s.take(k) =~= s.drop_last().take(k));
        lemma_dec_value_prefix(s.drop_last(), k);
        lemma_dec_value_bound(s.drop_last());
        assert(is_digit(s.last()));
        assert(dec_value(s.drop_last()) * 10 >= dec_value(s.drop_last()));
    } else {
        assert(s.take(k) =~= s);
    }
}

/// The digit-prefix length is the unique cut: all digits before it, and
/// the end of the string or a non-digit at it.
pub proof fn lemma_digit_prefix_char(s: Seq<u8>, k: int)
    requires
        0 <= k <= s.len(),
        forall|j: int| 0 <= j < k ==> is_digit(#[trigger] s[j]),
        k == s.len() || !is_digit(s[k]),
    ensures
        digit_prefix_len(s) == k,
    decreases s.len(),
{
    if k == 0 {
    } else {
        assert(is_digit(s[0]));
        let s1 = s.skip(1);
        assert(forall|j: int| 0 <= j < k - 1 ==> s1[j] == #[trigger] s[j + 1]);
        lemma_digit_prefix_char(s1, k - 1);
    }
}

/// Append the decimal digits of `n` to `out`.
pub(crate) fn push_dec_digits(n: u64, out: &mut Vec<u8>)
    ensures
        final(out)@ == old(out)@ + dec_digits(n as nat),
    decreases n,
{
    if n >= 10 {
        push_dec_digits(n / 10, out);
        out.push(48 + (n % 10) as u8);
        proof {
            assert(out@ =~= old(out)@ + dec_digits(n as nat));
        }
    } else {
        out.push(48 + n as u8);
        proof {
            assert(out@ =~= old(out)@ + dec_digits(n as nat));
        }
    }
}

/// Render a fixed-point value in its canonical encoding.
pub fn format_fixed(v: i64) -> (r: Vec<u8>)
    ensures
        r@ == spec_format_fixed(v as int),
{
    let mut out: Vec<u8> = Vec::new();
    let a: u64 = if v < 0 {
        out.push(45);
        (-(v as i128)) as u64
    } else {
        v as u64
    };
    push_dec_digits(a / SCALE, &mut out);
    out.push(46);
    let fp: u64 = a % SCALE;
    out.push(48 + (fp / 1000 % 10) as u8);
    out.push(48 + (fp / 100 % 10) as u8);
    out.push(48 + (fp / 10 % 10) as u8);
    out.push(48 + (fp % 10) as u8);
    proof {
        assert(out@ =~= spec_format_fixed(v as int));
    }
    out
}

/// First index at or after `start` that does not hold a digit (the slice
/// length if digits run to the end).
pub(crate) fn scan_digits(t: &[u8], start: usize) -> (r: usize)
    requires
        start <= t@.len(),
    ensures
        start <= r <= t@.len(),
        forall|j: int| start <= j < r ==> is_digit(#[trigger] t@[j]),
        r < t@.len() ==> !is_digit(t@[r as int]),
        r - start == digit_prefix_len(t@.skip(start as int)),
{
    let mut i = start;
    while i < t.len() && t[i] >= 48 && t[i] <= 57
        invariant
            start <= i <= t@.len(),
            forall|j: int| start <= j < i ==> is_digit(#[trigger] t@[j]),
        decreases t@.len() - i,
    {
        i = i + 1;
    }
    proof {
        let s = t@.skip(start as int);
        assert(forall|j: int|
            0 <= j < i - start ==> s[j] == #[trigger] t@[j + start]);
        if (i as int) < t@.len() {
            assert(s[i - start] == t@[i as int]);
        }
        lemma_digit_prefix_char(s, i - start);
    }
    i
}

/// Value of the digits `t[start..end]`, or `None` as soon as it would
/// exceed `bound`.
pub(crate) fn parse_digits_bounded(t: &[u8], start: usize, end: usize, bound: u64) -> (r: Option<
    u64,
>)
    requires
        start <= end <= t@.len(),
        all_digits(t@.subrange(start as int, end as int)),
    ensures
        r is Some <==> dec_value(t@.subrange(start as int, end as int)) <= bound,
        r matches Some(v) ==> v == dec_value(t@.subrange(start as int, end as int)),
{
    let ghost s = t@.subrange(start as int, end as int);
    let mut acc: u64 = 0;
    let mut i = start;
    while i < end
        invariant
            start <= i <= end <= t@.len(),
            s == t@.subrange(start as int, end as int),
            all_digits(s),
            acc == dec_value(s.take(i - start)),
            acc <= bound,
        decreases end - i,
    {
        proof {
            assert(is_digit(s[i - start]));
            assert(s[i - start] == t@[i as int]);
            assert(s.take(i - start + 1).drop_last() =~= s.take(i - start));
            assert(s.take(i - start + 1).last() == s[i - start]);
        }
        let d: u64 = (t[i] - 48) as u64;
        let next: u128 = acc as u128 * 10 + d as u128;
        if next > bound as u128 {
            proof {
                assert(next == dec_value(s.take(i - start + 1)));
                lemma_dec_value_prefix(s, i - start + 1);
            }
            return None;
        }
        acc = next as u64;
        i = i + 1;
    }
    proof {
        assert(s.take(end - start) =~= s);
    }
    Some(acc)
}

/// Parse the wire encoding of a fixed-point value; `None` on anything the
/// grammar refuses or a magnitude beyond `i64`.
#[verifier::rlimit(60)]
pub fn parse_fixed(t: &[u8]) -> (r: Option<i64>)
    ensures
        r is Some <==> spec_parse_fixed(t@) is Some,
        r matches Some(v) ==> spec_parse_fixed(t@) == Some(v as int),
{
    if t.len() == 0 {
        return None;
    }
    let neg = t[0] == 45;
    let start: usize = if neg {
        1
    } else {
        0
    };
    let ghost body = if neg {
        t@.skip(1)
    } else {
        t@
    };
    proof {
        assert(body =~= t@.skip(start as int));
    }
    let iend = scan_digits(t, start);
    proof {
        assert(body.take(iend - start) =~= t@.subrange(start as int, iend as int));
    }
    if iend == start {
        return None;
    }
    let ip = match parse_digits_bounded(t, start, iend, i64::MAX as u64) {
        Some(v) => v,
        None => {
            proof {
                lemma_int_part_too_big(body, iend - start);
            }
            return None;
        },
    };
    let mut mag: u128 = ip as u128 * SCALE as u128;
    let ghost rest = body.skip(iend - start);
    proof {
        assert(forall|j: int|
            0 <= j < rest.len() ==> rest[j] == #[trigger] t@[j + iend]);
    }
    if iend == t.len() {
        if mag > i64::MAX as u128 {
            return None;
        }
        let m = mag as i64;
        return Some(if neg { -m } else { m });
    }
    if t[iend] != 46 {
        return None;
    }
    let fstart = iend + 1;
    let fend = scan_digits(t, fstart);
    let ghost fr = rest.skip(1);
    proof {
        assert(fr =~= t@.skip(fstart as int));
        assert(fr =~= t@.subrange(fstart as int, t@.len() as int));
    }
    if fend == fstart || fend < t.len() {
        proof {
            if fend < t@.len() && fend > fstart {
                assert(!is_digit(fr[fend - fstart]));
            }
        }
        return None;
    }
    proof {
        assert(all_digits(fr));
        assert(fr.len() == digit_prefix_len(fr));
    }
    let flen = fend - fstart;
    let k: usize = if flen >= 4 {
        4
    } else {
        flen
    };
    let mult: u64 = if k == 4 {
        1
    } else if k == 3 {
        10
    } else if k == 2 {
        100
    } else {
        1000
    };
    proof {
        assert(fr.take(k as int) =~= t@.subrange(fstart as int, (fstart + k) as int));
        assert(all_digits(fr.take(k as int)));
        lemma_dec_value_bound(fr.take(k as int));
        reveal_with_fuel(pow10, 5);
    }
    let fv = match parse_digits_bounded(t, fstart, fstart + k, 9999) {
        Some(v) => v,
        None => {
            proof {
                assert(false);
            }
            return None;
        },
    };
    proof {
        lemma_frac_scaled(fr, fv as int, k as int, mult as int);
    }
    mag = mag + (fv * mult) as u128;
    if mag > i64::MAX as u128 {
        return None;
    }
    let m = mag as i64;
    Some(if neg { -m } else { m })
}

/// When the integer digits alone exceed `i64::MAX`, the scaled magnitude
/// does too, whatever the fraction adds.
proof fn lemma_int_part_too_big(body: Seq<u8>, ilen: int)
    requires
        0 <= ilen <= body.len(),
        all_digits(body.take(ilen)),
        dec_value(body.take(ilen)) > i64::MAX,
    ensures
        spec_parse_fixed_refuses_mag(body, ilen),
{
    let iv = dec_value(body.take(ilen));
    assert(iv * (SCALE as int) >= iv * 1) by (nonlinear_arith)
        requires
            iv >= 0,
    ;
    let rest = body.skip(ilen);
    if rest.len() >= 2 && all_digits(rest.skip(1)) {
        lemma_frac_scaled_nonneg(rest.skip(1));
    }
}

/// The scaled magnitude at cut `ilen` is out of `i64` range, with or
/// without a fraction part.
spec fn spec_parse_fixed_refuses_mag(body: Seq<u8>, ilen: int) -> bool {
    &&& dec_value(body.take(ilen)) * (SCALE as int) > i64::MAX
    &&& (body.skip(ilen).len() >= 2 && all_digits(body.skip(ilen).skip(1))
        ==> dec_value(body.take(ilen)) * (SCALE as int) + frac_scaled(body.skip(ilen).skip(1))
            > i64::MAX)
}

/// A fraction part never subtracts from the magnitude.
proof fn lemma_frac_scaled_nonneg(d: Seq<u8>)
    requires
        all_digits(d),
    ensures
        frac_scaled(d) >= 0,
{
    reveal_with_fuel(pow10, 5);
    if d.len() >= 4 {
        assert(all_digits(d.take(4)));
        lemma_dec_value_bound(d.take(4));
    } else {
        lemma_dec_value_bound(d);
        assert(dec_value(d) * pow10((4 - d.len()) as nat) >= 0) by (nonlinear_arith)
            requires
                dec_value(d) >= 0,
                pow10((4 - d.len()) as nat) >= 0,
        ;
    }
}

/// The first (up to) four fraction digits, scaled by the right power of
/// ten, are the fraction's worth in ten-thousandths.
proof fn lemma_frac_scaled(fr: Seq<u8>, fv: int, k: int, mult: int)
    requires
        all_digits(fr),
        fr.len() >= 1,
        k == if fr.len() >= 4 { 4int } else { fr.len() as int },
        fv == dec_value(fr.take(k)),
        mult == pow10((4 - k) as nat),
    ensures
        fv * mult == frac_scaled(fr),
        0 <= fv * mult <= 9999,
{
    reveal_with_fuel(pow10, 5);
    lemma_dec_value_bound(fr.take(k));
    assert(all_digits(fr.take(k)));
    if fr.len() >= 4 {
        assert(fv * 1 == fv) by (nonlinear_arith);
    } else {
        assert(fr.take(k) =~= fr);
        assert(fv * mult <= (pow10(k as nat) - 1) * mult) by (nonlinear_arith)
            requires
                fv <= pow10(k as nat) - 1,
                mult >= 0,
        ;
        assert((pow10(k as nat) - 1) * mult == pow10(k as nat) * mult - mult) by (nonlinear_arith);
        assert(pow10(k as nat) * mult == 10000) by {
            if k == 1 {
                assert(pow10(1nat) * pow10(3nat) == 10000) by (nonlinear_arith)
                    requires
                        pow10(1nat) == 10,
                        pow10(3nat) == 1000,
                ;
            } else if k == 2 {
                assert(pow10(2nat) * pow10(2nat) == 10000) by (nonlinear_arith)
                    requires
                        pow10(2nat) == 100,
                ;
            } else {
                assert(pow10(3nat) * pow10(1nat) == 10000) by (nonlinear_arith)
                    requires
                        pow10(3nat) == 1000,
                        pow10(1nat) == 10,
                ;
            }
        }
        assert(fv * mult >= 0) by (nonlinear_arith)
            requires
                fv >= 0,
                mult >= 0,
        ;
    }
}

} // verus!
