//! Decimal formatting of unsigned integers as ASCII bytes, with exact
//! byte-level specifications. Queue names, stream names and coordinate
//! strings are all assembled from these pieces.

use vstd::prelude::*;

verus! {

/// The ASCII byte of a single decimal digit.
pub open spec fn digit(d: int) -> u8
    recommends
        0 <= d < 10,
{
    (48 + d) as u8
}

/// Whether a byte is an ASCII decimal digit.
pub open spec fn is_digit(b: u8) -> bool {
    48 <= b <= 57
}

/// The value of one digit byte.
pub open spec fn digit_val(b: u8) -> int {
    b as int - 48
}

/// The number a run of decimal digits denotes, most significant first.
pub open spec fn dec_value(s: Seq<u8>) -> int
    decreases s.len(),
{
    if s.len() == 0 {
        0
    } else {
        dec_value(s.drop_last()) * 10 + digit_val(s.last())
    }
}

/// Whether every byte of `s` is a decimal digit.
pub open spec fn all_digits(s: Seq<u8>) -> bool {
    forall|i: int| 0 <= i < s.len() ==> is_digit(s[i])
}

/// A digit run denotes a non-negative number.
pub proof fn lemma_dec_value_nonneg(s: Seq<u8>)
    requires
        all_digits(s),
    ensures
        dec_value(s) >= 0,
    decreases s.len(),
{
    if s.len() > 0 {
        assert(forall|i: int| 0 <= i < s.len() - 1 ==> s.drop_last()[i] == s[i]);
        lemma_dec_value_nonneg(s.drop_last());
    }
}

/// A digit run denotes at least what any of its prefixes denotes.
pub proof fn lemma_dec_value_prefix(s: Seq<u8>, k: int)
    requires
        all_digits(s),
        0 <= k <= s.len(),
    ensures
        dec_value(s.take(k)) <= dec_value(s),
    decreases s.len(),
{
    if k < s.len() {
        assert(forall|i: int| 0 <= i < s.len() - 1 ==> s.drop_last()[i] == s[i]);
        lemma_dec_value_prefix(s.drop_last(), k);
        assert(s.drop_last().take(k) =~= s.take(k));
        lemma_dec_value_nonneg(s.drop_last());
    } else {
        assert(s.take(k) =~= s);
    }
}

/// What a decimal digit run denotes, when it fits an unsigned machine
/// word. Leading zeros are accepted, an empty run is not.
pub open spec fn spec_parse_u64(s: Seq<u8>) -> Option<u64> {
    if s.len() > 0 && all_digits(s) && dec_value(s) <= u64::MAX {
        Some(dec_value(s) as u64)
    } else {
        None
    }
}

/// Parse an unsigned decimal number, as a candid on a stream entry or a
/// queue element is written.
pub fn parse_u64_dec(s: &[u8]) -> (r: Option<u64>)
    ensures
        r == spec_parse_u64(s@),
{
    let n = s.len();
    if n == 0 {
        return None;
    }
    let mut acc: u64 = 0;
    for i in 0..n
        invariant
            n == s@.len(),
            all_digits(s@.take(i as int)),
            acc == dec_value(s@.take(i as int)),
    {
        let b = s[i];
        if !(48 <= b && b <= 57) {
            proof {
                assert(s@[i as int] == b);
            }
            return None;
        }
        let d = (b - 48) as u64;
        proof {
            assert(s@.take(i as int + 1).drop_last() =~= s@.take(i as int));
            assert(s@.take(i as int + 1).last() == b);
        }
        if acc > (u64::MAX - d) / 10 {
            proof {
                let big = u64::MAX - d;
                assert(big == 10 * (big / 10) + big % 10);
                assert(acc * 10 + d > u64::MAX);
                assert(dec_value(s@.take(i as int + 1)) > u64::MAX);
                assert forall|j: int| 0 <= j < s@.len() implies is_digit(s@[j]) || !all_digits(
                    s@,
                ) by {}
                if all_digits(s@) {
                    lemma_dec_value_prefix(s@, i as int + 1);
                }
            }
            return None;
        }
        acc = acc * 10 + d;
    }
    proof {
        assert(s@.take(n as int) =~= s@);
    }
    Some(acc)
}

/// What a signed decimal number denotes: an optional leading minus sign,
/// then digits, within the signed machine range.
pub open spec fn spec_parse_i64(s: Seq<u8>) -> Option<i64> {
    if s.len() >= 1 && s[0] == 45u8 {
        let rest = s.skip(1);
        if rest.len() > 0 && all_digits(rest) && dec_value(rest) <= 0x8000000000000000 {
            Some((-dec_value(rest)) as i64)
        } else {
            None
        }
    } else if s.len() > 0 && all_digits(s) && dec_value(s) <= i64::MAX {
        Some(dec_value(s) as i64)
    } else {
        None
    }
}

/// Parse a signed decimal number, as a filter identifier is written.
pub fn parse_i64_dec(s: &[u8]) -> (r: Option<i64>)
    ensures
        r == spec_parse_i64(s@),
{
    if s.len() >= 1 && s[0] == 45 {
        let rest = vstd::slice::slice_subrange(s, 1, s.len());
        assert(rest@ =~= s@.skip(1));
        match parse_u64_dec(rest) {
            Some(m) => {
                proof {
                    lemma_dec_value_nonneg(rest@);
                }
                if m > 0x8000000000000000 {
                    return None;
                }
                if m == 0x8000000000000000 {
                    Some(i64::MIN)
                } else {
                    Some(-(m as i64))
                }
            },
            None => {
                proof {
                    if rest@.len() > 0 && all_digits(rest@) && dec_value(rest@)
                        <= 0x8000000000000000 {
                        assert(spec_parse_u64(rest@) is Some);
                    }
                }
                None
            },
        }
    } else {
        match parse_u64_dec(s) {
            Some(m) => {
                proof {
                    lemma_dec_value_nonneg(s@);
                }
                if m <= i64::MAX as u64 {
                    Some(m as i64)
                } else {
                    None
                }
            },
            None => None,
        }
    }
}

/// The decimal digits of `n`, most significant first, no leading zeros.
pub open spec fn dec_digits(n: nat) -> Seq<u8>
    decreases n,
{
    if n < 10 {
        seq![digit(n as int)]
    } else {
        dec_digits(n / 10).push(digit((n % 10) as int))
    }
}

/// Two zero-padded decimal digits.
pub open spec fn two_digits(n: int) -> Seq<u8>
    recommends
        0 <= n < 100,
{
    seq![digit(n / 10), digit(n % 10)]
}

/// Three zero-padded decimal digits.
pub open spec fn three_digits(n: int) -> Seq<u8>
    recommends
        0 <= n < 1000,
{
    seq![digit(n / 100), digit((n / 10) % 10), digit(n % 10)]
}

/// Four zero-padded decimal digits.
pub open spec fn four_digits(n: int) -> Seq<u8>
    recommends
        0 <= n < 10000,
{
    seq![digit(n / 1000), digit((n / 100) % 10), digit((n / 10) % 10), digit(n % 10)]
}

/// Append the decimal digits of `n`, without leading zeros.
pub fn push_dec(out: &mut Vec<u8>, n: u64)
    ensures
        final(out)@ == old(out)@ + dec_digits(n as nat),
    decreases n,
{
    if n < 10 {
        out.push(48 + (n as u8));
        assert(old(out)@ + dec_digits(n as nat) =~= old(out)@.push(digit(n as int)));
    } else {
        push_dec(out, n / 10);
        out.push(48 + ((n % 10) as u8));
        assert(old(out)@ + dec_digits(n as nat) =~= (old(out)@ + dec_digits((n / 10) as nat)).push(
            digit((n % 10) as int),
        ));
    }
}

/// Append two zero-padded decimal digits.
pub fn push_two_digits(out: &mut Vec<u8>, n: u64)
    requires
        n < 100,
    ensures
        final(out)@ == old(out)@ + two_digits(n as int),
{
    out.push(48 + ((n / 10) as u8));
    out.push(48 + ((n % 10) as u8));
    assert(out@ =~= old(out)@ + two_digits(n as int));
}

/// Append three zero-padded decimal digits.
pub fn push_three_digits(out: &mut Vec<u8>, n: u64)
    requires
        n < 1000,
    ensures
        final(out)@ == old(out)@ + three_digits(n as int),
{
    out.push(48 + ((n / 100) as u8));
    out.push(48 + (((n / 10) % 10) as u8));
    out.push(48 + ((n % 10) as u8));
    assert(out@ =~= old(out)@ + three_digits(n as int));
}

/// Append four zero-padded decimal digits.
pub fn push_four_digits(out: &mut Vec<u8>, n: u64)
    requires
        n < 10000,
    ensures
        final(out)@ == old(out)@ + four_digits(n as int),
{
    out.push(48 + ((n / 1000) as u8));
    out.push(48 + (((n / 100) % 10) as u8));
    out.push(48 + (((n / 10) % 10) as u8));
    out.push(48 + ((n % 10) as u8));
    assert(out@ =~= old(out)@ + four_digits(n as int));
}

/// Append every byte of `s`.
pub fn push_bytes(out: &mut Vec<u8>, s: &[u8])
    ensures
        final(out)@ == old(out)@ + s@,
{
    let n: usize = s.len();
    assert(out@ =~= old(out)@ + s@.subrange(0, 0));
    for i in 0..n
        invariant
            n == s@.len(),
            out@ == old(out)@ + s@.subrange(0, i as int),
    {
        out.push(s[i]);
        assert(out@ =~= old(out)@ + s@.subrange(0, i as int + 1));
    }
    assert(out@ =~= old(out)@ + s@);
}

} // verus!
