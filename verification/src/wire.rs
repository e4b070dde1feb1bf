//! The wire format of the aggregation channel.
//!
//! A submission frame is the canonical text
//! `{"client_id":N,"message":"M","signature":"S"}` — the id in decimal,
//! the message being the signed bytes, and the signature in base64.  A
//! result request is the bare token `receiver`.  Building and parsing are
//! exact inverses on frames whose fields carry no double quote, which is
//! what lets the signing and verifying sides agree byte for byte on what
//! was signed.

use crate::decimal::{
    all_digits, dec_digits, dec_value, digit_prefix_len, is_digit, lemma_digit_prefix_char,
    parse_digits_bounded, push_dec_digits, scan_digits,
};
use vstd::arithmetic::div_mod::lemma_fundamental_div_mod;
use vstd::prelude::*;

verus! {

/// Bytes of `{"client_id":`.
pub open spec fn lit_head() -> Seq<u8> {
    seq![
        '{' as u8,
        '"' as u8,
        'c' as u8,
        'l' as u8,
        'i' as u8,
        'e' as u8,
        'n' as u8,
        't' as u8,
        '_' as u8,
        'i' as u8,
        'd' as u8,
        '"' as u8,
        ':' as u8,
    ]
}

/// Bytes of `,"message":"`.
pub open spec fn lit_message() -> Seq<u8> {
    seq![
        ',' as u8,
        '"' as u8,
        'm' as u8,
        'e' as u8,
        's' as u8,
        's' as u8,
        'a' as u8,
        'g' as u8,
        'e' as u8,
        '"' as u8,
        ':' as u8,
        '"' as u8,
    ]
}

/// Bytes of `","signature":"`.
pub open spec fn lit_signature() -> Seq<u8> {
    seq![
        '"' as u8,
        ',' as u8,
        '"' as u8,
        's' as u8,
        'i' as u8,
        'g' as u8,
        'n' as u8,
        'a' as u8,
        't' as u8,
        'u' as u8,
        'r' as u8,
        'e' as u8,
        '"' as u8,
        ':' as u8,
        '"' as u8,
    ]
}

/// Bytes of `"}`.
pub open spec fn lit_tail() -> Seq<u8> {
    seq!['"' as u8, '}' as u8]
}

/// The result-request token `receiver`.
pub open spec fn receiver_token() -> Seq<u8> {
    seq![
        'r' as u8,
        'e' as u8,
        'c' as u8,
        'e' as u8,
        'i' as u8,
        'v' as u8,
        'e' as u8,
        'r' as u8,
    ]
}

/// `p` is a prefix of `t`.
pub open spec fn starts_with(t: Seq<u8>, p: Seq<u8>) -> bool {
    t.len() >= p.len() && t.take(p.len() as int) == p
}

/// No double quote anywhere: such bytes can sit inside a quoted field.
pub open spec fn no_quote(s: Seq<u8>) -> bool {
    forall|i: int| 0 <= i < s.len() ==> (#[trigger] s[i]) != 34
}

/// Length of the longest prefix free of double quotes.
pub open spec fn quote_free_prefix_len(s: Seq<u8>) -> int
    decreases s.len(),
{
    if s.len() == 0 || s[0] == 34 {
        0
    } else {
        1 + quote_free_prefix_len(s.skip(1))
    }
}

/// The quote-free prefix length is the unique cut: no quote before it,
/// and the end of the string or a quote at it.
pub proof fn lemma_quote_prefix_char(s: Seq<u8>, k: int)
    requires
        0 <= k <= s.len(),
        forall|j: int| 0 <= j < k ==> (#[trigger] s[j]) != 34,
        k == s.len() || s[k] == 34,
    ensures
        quote_free_prefix_len(s) == k,
    decreases s.len(),
{
    if k == 0 {
    } else {
        let s1 = s.skip(1);
        assert(forall|j: int| 0 <= j < k - 1 ==> s1[j] == #[trigger] s[j + 1]);
        lemma_quote_prefix_char(s1, k - 1);
    }
}

/// The canonical submission frame around an id, the signed message bytes,
/// and the base64 text of the signature.
pub open spec fn spec_submission_text(id: int, msg: Seq<u8>, sig: Seq<u8>) -> Seq<u8>
    recommends
        id >= 0,
{
    lit_head() + dec_digits(id as nat) + lit_message() + msg + lit_signature() + sig + lit_tail()
}

/// Deterministic parse of a submission frame: the head literal, one or
/// more id digits (whose value must fit `u64`), the message literal, the
/// message up to the next double quote, the signature literal, the
/// signature text up to the next double quote, and the closing literal —
/// nothing less, nothing more.
pub open spec fn spec_parse_submission(t: Seq<u8>) -> Option<(u64, Seq<u8>, Seq<u8>)> {
    if !starts_with(t, lit_head()) {
        None
    } else {
        let r1 = t.skip(13);
        let ilen = digit_prefix_len(r1);
        if ilen == 0 || dec_value(r1.take(ilen)) > u64::MAX {
            None
        } else {
            let id = dec_value(r1.take(ilen));
            let r2 = r1.skip(ilen);
            if !starts_with(r2, lit_message()) {
                None
            } else {
                let r3 = r2.skip(12);
                let mlen = quote_free_prefix_len(r3);
                if mlen == r3.len() {
                    None
                } else {
                    let msg = r3.take(mlen);
                    let r4 = r3.skip(mlen);
                    if !starts_with(r4, lit_signature()) {
                        None
                    } else {
                        let r5 = r4.skip(15);
                        let slen = quote_free_prefix_len(r5);
                        if slen == r5.len() {
                            None
                        } else {
                            let sig = r5.take(slen);
                            let r6 = r5.skip(slen);
                            if r6 == lit_tail() {
                                Some((id as u64, msg, sig))
                            } else {
                                None
                            }
                        }
                    }
                }
            }
        }
    }
}

/// A parsed submission: the claimed client id, the signed message bytes,
/// and the base64 text of the signature.
pub struct Submission {
    pub client_id: u64,
    pub message: Vec<u8>,
    pub signature_b64: Vec<u8>,
}

/// The head literal as a vector.
pub(crate) fn lit_head_vec() -> (r: Vec<u8>)
    ensures
        r@ == lit_head(),
{
    let v: Vec<u8> = vec![
        '{' as u8,
        '"' as u8,
        'c' as u8,
        'l' as u8,
        'i' as u8,
        'e' as u8,
        'n' as u8,
        't' as u8,
        '_' as u8,
        'i' as u8,
        'd' as u8,
        '"' as u8,
        ':' as u8,
    ];
    proof {
        assert(v@ =~= lit_head());
    }
    v
}

/// The message literal as a vector.
pub(crate) fn lit_message_vec() -> (r: Vec<u8>)
    ensures
        r@ == lit_message(),
{
    let v: Vec<u8> = vec![
        ',' as u8,
        '"' as u8,
        'm' as u8,
        'e' as u8,
        's' as u8,
        's' as u8,
        'a' as u8,
        'g' as u8,
        'e' as u8,
        '"' as u8,
        ':' as u8,
        '"' as u8,
    ];
    proof {
        assert(v@ =~= lit_message());
    }
    v
}

/// The signature literal as a vector.
pub(crate) fn lit_signature_vec() -> (r: Vec<u8>)
    ensures
        r@ == lit_signature(),
{
    let v: Vec<u8> = vec![
        '"' as u8,
        ',' as u8,
        '"' as u8,
        's' as u8,
        'i' as u8,
        'g' as u8,
        'n' as u8,
        'a' as u8,
        't' as u8,
        'u' as u8,
        'r' as u8,
        'e' as u8,
        '"' as u8,
        ':' as u8,
        '"' as u8,
    ];
    proof {
        assert(v@ =~= lit_signature());
    }
    v
}

/// The closing literal as a vector.
pub(crate) fn lit_tail_vec() -> (r: Vec<u8>)
    ensures
        r@ == lit_tail(),
{
    let v: Vec<u8> = vec!['"' as u8, '}' as u8];
    proof {
        assert(v@ =~= lit_tail());
    }
    v
}

/// The result-request token as a vector.
pub fn receiver_token_vec() -> (r: Vec<u8>)
    ensures
        r@ == receiver_token(),
{
    let v: Vec<u8> = vec![
        'r' as u8,
        'e' as u8,
        'c' as u8,
        'e' as u8,
        'i' as u8,
        'v' as u8,
        'e' as u8,
        'r' as u8,
    ];
    proof {
        assert(v@ =~= receiver_token());
    }
    v
}

/// Append all of `s` to `out`.
pub(crate) fn push_all(out: &mut Vec<u8>, s: &[u8])
    ensures
        final(out)@ == old(out)@ + s@,
{
    let mut i: usize = 0;
    while i < s.len()
        invariant
            0 <= i <= s@.len(),
            out@ == old(out)@ + s@.take(i as int),
        decreases s@.len() - i,
    {
        out.push(s[i]);
        proof {
            assert(old(out)@ + s@.take(i as int) + seq![s@[i as int]] =~= old(out)@ + s@.take(
                i as int + 1,
            ));
        }
        i = i + 1;
    }
    proof {
        assert(out@ =~= old(out)@ + s@);
    }
}

/// Whether the bytes of `a` are exactly `b`.
pub fn bytes_eq(a: &[u8], b: &[u8]) -> (r: bool)
    ensures
        r == (a@ == b@),
{
    if a.len() != b.len() {
        proof {
            assert(a@ != b@);
        }
        return false;
    }
    let mut i: usize = 0;
    while i < a.len()
        invariant
            0 <= i <= a@.len(),
            a@.len() == b@.len(),
            forall|j: int| 0 <= j < i ==> a@[j] == b@[j],
        decreases a@.len() - i,
    {
        if a[i] != b[i] {
            return false;
        }
        i = i + 1;
    }
    proof {
        assert(a@ =~= b@);
    }
    true
}

/// Whether `lit` sits in `t` at position `i`.
pub(crate) fn match_lit(t: &[u8], i: usize, lit: &[u8]) -> (r: bool)
    requires
        i <= t@.len(),
    ensures
        r == starts_with(t@.skip(i as int), lit@),
{
    if t.len() - i < lit.len() {
        return false;
    }
    let tlen = t.len();
    let mut j: usize = 0;
    while j < lit.len()
        invariant
            0 <= j <= lit@.len(),
            i + lit@.len() <= t@.len(),
            tlen == t@.len(),
            forall|x: int| 0 <= x < j ==> t@[i + x] == lit@[x],
        decreases lit@.len() - j,
    {
        if t[i + j] != lit[j] {
            proof {
                assert(t@.skip(i as int).take(lit@.len() as int)[j as int] == t@[i + j]);
            }
            return false;
        }
        j = j + 1;
    }
    proof {
        assert(t@.skip(i as int).take(lit@.len() as int) =~= lit@);
    }
    true
}

/// First index at or after `start` holding a double quote (the length if
/// none does).
pub(crate) fn scan_to_quote(t: &[u8], start: usize) -> (r: usize)
    requires
        start <= t@.len(),
    ensures
        start <= r <= t@.len(),
        forall|j: int| start <= j < r ==> (#[trigger] t@[j]) != 34,
        r < t@.len() ==> t@[r as int] == 34,
        r - start == quote_free_prefix_len(t@.skip(start as int)),
{
    let mut i = start;
    while i < t.len() && t[i] != 34
        invariant
            start <= i <= t@.len(),
            forall|j: int| start <= j < i ==> (#[trigger] t@[j]) != 34,
        decreases t@.len() - i,
    {
        i = i + 1;
    }
    proof {
        let s = t@.skip(start as int);
        assert(forall|j: int| 0 <= j < i - start ==> s[j] == #[trigger] t@[j + start]);
        if (i as int) < t@.len() {
            assert(s[i - start] == t@[i as int]);
        }
        lemma_quote_prefix_char(s, i - start);
    }
    i
}

/// Copy `t[start..end]` out.
pub(crate) fn copy_range(t: &[u8], start: usize, end: usize) -> (r: Vec<u8>)
    requires
        start <= end <= t@.len(),
    ensures
        r@ == t@.subrange(start as int, end as int),
{
    let mut out: Vec<u8> = Vec::new();
    let mut i = start;
    while i < end
        invariant
            start <= i <= end <= t@.len(),
            out@ == t@.subrange(start as int, i as int),
        decreases end - i,
    {
        out.push(t[i]);
        proof {
            assert(t@.subrange(start as int, i as int).push(t@[i as int]) =~= t@.subrange(
                start as int,
                i as int + 1,
            ));
        }
        i = i + 1;
    }
    out
}

/// Build the canonical submission frame.
pub fn build_submission(client_id: u64, message: &[u8], sig_b64: &[u8]) -> (r: Vec<u8>)
    ensures
        r@ == spec_submission_text(client_id as int, message@, sig_b64@),
{
    let mut out = lit_head_vec();
    push_dec_digits(client_id, &mut out);
    let l2 = lit_message_vec();
    push_all(&mut out, l2.as_slice());
    push_all(&mut out, message);
    let l3 = lit_signature_vec();
    push_all(&mut out, l3.as_slice());
    push_all(&mut out, sig_b64);
    let l4 = lit_tail_vec();
    push_all(&mut out, l4.as_slice());
    proof {
        assert(out@ =~= spec_submission_text(client_id as int, message@, sig_b64@));
    }
    out
}

/// Parse a submission frame; `None` on anything that is not the canonical
/// shape.
#[verifier::rlimit(100)]
pub fn parse_submission(t: &[u8]) -> (r: Option<Submission>)
    ensures
        r is Some <==> spec_parse_submission(t@) is Some,
        r matches Some(s) ==> spec_parse_submission(t@) == Some(
            (s.client_id, s.message@, s.signature_b64@),
        ),
{
    let tlen = t.len();
    proof {
        assert(t@.len() <= usize::MAX);
    }
    let l1 = lit_head_vec();
    if !match_lit(t, 0, l1.as_slice()) {
        proof {
            assert(t@.skip(0) =~= t@);
        }
        return None;
    }
    proof {
        assert(t@.skip(0) =~= t@);
        assert(t@.len() >= 13);
    }
    let ghost r1 = t@.skip(13);
    let iend = scan_digits(t, 13);
    proof {
        assert(forall|j: int| 0 <= j < r1.len() ==> r1[j] == #[trigger] t@[j + 13]);
        assert(r1.take(iend - 13) =~= t@.subrange(13, iend as int));
        assert(all_digits(t@.subrange(13, iend as int)));
    }
    if iend == 13 {
        return None;
    }
    let id = match parse_digits_bounded(t, 13, iend, u64::MAX) {
        Some(v) => v,
        None => {
            return None;
        },
    };
    let ghost r2 = r1.skip(iend - 13);
    proof {
        assert(r2 =~= t@.skip(iend as int));
    }
    let l2 = lit_message_vec();
    if !match_lit(t, iend, l2.as_slice()) {
        return None;
    }
    let mstart = iend + 12;
    let ghost r3 = r2.skip(12);
    proof {
        assert(r3 =~= t@.skip(mstart as int));
    }
    let mend = scan_to_quote(t, mstart);
    proof {
        assert(forall|j: int| 0 <= j < r3.len() ==> r3[j] == #[trigger] t@[j + mstart]);
    }
    if mend == t.len() {
        proof {
            assert(quote_free_prefix_len(r3) == r3.len());
        }
        return None;
    }
    let ghost msg = r3.take(mend - mstart);
    let ghost r4 = r3.skip(mend - mstart);
    proof {
        assert(msg =~= t@.subrange(mstart as int, mend as int));
        assert(r4 =~= t@.skip(mend as int));
    }
    let l3 = lit_signature_vec();
    if !match_lit(t, mend, l3.as_slice()) {
        return None;
    }
    let sstart = mend + 15;
    let ghost r5 = r4.skip(15);
    proof {
        assert(r5 =~= t@.skip(sstart as int));
    }
    let send = scan_to_quote(t, sstart);
    proof {
        assert(forall|j: int| 0 <= j < r5.len() ==> r5[j] == #[trigger] t@[j + sstart]);
    }
    if send == t.len() {
        proof {
            assert(quote_free_prefix_len(r5) == r5.len());
        }
        return None;
    }
    let ghost sig = r5.take(send - sstart);
    let ghost r6 = r5.skip(send - sstart);
    proof {
        assert(sig =~= t@.subrange(sstart as int, send as int));
        assert(r6 =~= t@.skip(send as int));
    }
    let l4 = lit_tail_vec();
    if !(tlen - send == 2 && match_lit(t, send, l4.as_slice())) {
        proof {
            if r6 == lit_tail() {
                assert(r6.len() == 2);
                assert(r6.take(2) =~= r6);
                assert(starts_with(r6, lit_tail()));
                assert(false);
            }
        }
        return None;
    }
    proof {
        assert(r6.take(2) =~= r6);
        assert(r6 == lit_tail());
    }
    let message = copy_range(t, mstart, mend);
    let signature_b64 = copy_range(t, sstart, send);
    Some(Submission { client_id: id, message, signature_b64 })
}

/// Every byte `dec_digits` produces is a decimal digit.
pub proof fn lemma_dec_digits_are_digits(n: nat)
    ensures
        all_digits(dec_digits(n)),
        dec_digits(n).len() >= 1,
    decreases n,
{
    if n < 10 {
    } else {
        lemma_dec_digits_are_digits(n / 10);
        let d = dec_digits(n / 10);
        assert(forall|i: int|
            0 <= i < d.len() ==> d.push((48 + n % 10) as u8)[i] == #[trigger] d[i]);
        assert(is_digit(d.push((48 + n % 10) as u8)[d.len() as int]));
    }
}

/// Reading the decimal digits of `n` back gives `n`.
pub proof fn lemma_dec_digits_value(n: nat)
    ensures
        dec_value(dec_digits(n)) == n,
    decreases n,
{
    if n < 10 {
        let s = dec_digits(n);
        assert(s =~= seq![(48 + n) as u8]);
        assert(s.drop_last() =~= Seq::<u8>::empty());
        assert(dec_value(s.drop_last()) == 0);
        assert(s.last() == 48 + n);
        assert(dec_value(s) == n);
    } else {
        lemma_dec_digits_value(n / 10);
        let d = dec_digits(n / 10);
        let whole = d.push((48 + n % 10) as u8);
        assert(whole.drop_last() =~= d);
        lemma_fundamental_div_mod(n as int, 10);
        assert(0 <= n % 10 < 10);
        assert(whole.last() == 48 + (n % 10));
        assert(dec_value(whole) == dec_value(d) * 10 + (n % 10));
        assert(n == 10 * (n / 10) + n % 10);
        assert(dec_digits(n) == whole);
        assert(dec_value(whole) == (n / 10) * 10 + (n % 10));
    }
}

/// Parsing inverts building: any frame built from an id and quote-free
/// message and signature fields parses back to exactly those fields.
/// This is the byte-for-byte agreement between the signing and the
/// verifying side of the channel.
#[verifier::rlimit(80)]
pub proof fn lemma_submission_round_trip(id: u64, msg: Seq<u8>, sig: Seq<u8>)
    requires
        no_quote(msg),
        no_quote(sig),
    ensures
        spec_parse_submission(spec_submission_text(id as int, msg, sig)) == Some((id, msg, sig)),
{
    let t = spec_submission_text(id as int, msg, sig);
    let digits = dec_digits(id as nat);
    lemma_dec_digits_are_digits(id as nat);
    lemma_dec_digits_value(id as nat);
    assert(starts_with(t, lit_head())) by {
        assert(t.take(13) =~= lit_head());
    }
    let r1 = t.skip(13);
    assert(r1 =~= digits + lit_message() + msg + lit_signature() + sig + lit_tail());
    assert(digit_prefix_len(r1) == digits.len()) by {
        assert(forall|j: int| 0 <= j < digits.len() ==> r1[j] == #[trigger] digits[j]);
        assert(r1[digits.len() as int] == 44);
        lemma_digit_prefix_char(r1, digits.len() as int);
    }
    assert(r1.take(digits.len() as int) =~= digits);
    let r2 = r1.skip(digits.len() as int);
    assert(r2 =~= lit_message() + msg + lit_signature() + sig + lit_tail());
    assert(starts_with(r2, lit_message())) by {
        assert(r2.take(12) =~= lit_message());
    }
    let r3 = r2.skip(12);
    assert(r3 =~= msg + lit_signature() + sig + lit_tail());
    assert(quote_free_prefix_len(r3) == msg.len()) by {
        assert(forall|j: int| 0 <= j < msg.len() ==> r3[j] == #[trigger] msg[j]);
        assert(r3[msg.len() as int] == 34);
        lemma_quote_prefix_char(r3, msg.len() as int);
    }
    assert(r3.take(msg.len() as int) =~= msg);
    let r4 = r3.skip(msg.len() as int);
    assert(r4 =~= lit_signature() + sig + lit_tail());
    assert(starts_with(r4, lit_signature())) by {
        assert(r4.take(15) =~= lit_signature());
    }
    let r5 = r4.skip(15);
    assert(r5 =~= sig + lit_tail());
    assert(quote_free_prefix_len(r5) == sig.len()) by {
        assert(forall|j: int| 0 <= j < sig.len() ==> r5[j] == #[trigger] sig[j]);
        assert(r5[sig.len() as int] == 34);
        lemma_quote_prefix_char(r5, sig.len() as int);
    }
    assert(r5.take(sig.len() as int) =~= sig);
    let r6 = r5.skip(sig.len() as int);
    assert(r6 =~= lit_tail());
}

} // verus!
