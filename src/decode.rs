//! Decoding of the two fields of a stored sample. A missing or malformed
//! timestamp reads as 0; a missing or malformed latency reads as a failure.
use vstd::prelude::*;
use crate::metrics::{CEILING_US, Sample};

verus! {

pub open spec fn is_digit(b: u8) -> bool {
    48 <= b <= 57
}

pub open spec fn all_digits(s: Seq<u8>) -> bool {
    forall|k: int| 0 <= k < s.len() ==> is_digit(#[trigger] s[k])
}

/// The value of a string of decimal digits.
pub open spec fn digits_value(s: Seq<u8>) -> int
    decreases s.len(),
{
    if s.len() == 0 {
        0
    } else {
        digits_value(s.drop_last()) * 10 + (s.last() - 48)
    }
}

/// The integer written by `s`: an optional sign, then one or more digits.
pub open spec fn int_text(s: Seq<u8>) -> Option<int> {
    if s.len() > 0 && (s[0] == 45u8 || s[0] == 43u8) {
        let rest = s.subrange(1, s.len() as int);
        if rest.len() > 0 && all_digits(rest) {
            if s[0] == 45u8 { Some(-digits_value(rest)) } else { Some(digits_value(rest)) }
        } else {
            None
        }
    } else if s.len() > 0 && all_digits(s) {
        Some(digits_value(s))
    } else {
        None
    }
}

pub open spec fn timestamp_of(s: Seq<u8>) -> i64 {
    match int_text(s) {
        Some(v) => if i64::MIN <= v <= i64::MAX { v as i64 } else { 0 },
        None => 0,
    }
}

/// Position of the first `.` in `s`, or its length.
pub open spec fn dot_pos(s: Seq<u8>) -> int
    decreases s.len(),
{
    if s.len() == 0 {
        0
    } else if s[0] == 46u8 {
        0
    } else {
        1 + dot_pos(s.subrange(1, s.len() as int))
    }
}

/// The first three fractional digits, padded with zeros.
pub open spec fn micro_digits(frac: Seq<u8>) -> Seq<u8> {
    (frac + seq![48u8, 48u8, 48u8]).subrange(0, 3)
}

/// Microseconds written by a millisecond value `digits[.digits]`; digits past
/// the third fractional one are dropped.
pub open spec fn millis_text(s: Seq<u8>) -> Option<int> {
    let d = dot_pos(s);
    let whole = s.subrange(0, d);
    let frac = if d < s.len() { s.subrange(d + 1, s.len() as int) } else { Seq::empty() };
    if whole.len() > 0 && all_digits(whole) && all_digits(frac) {
        Some(digits_value(whole) * 1000 + digits_value(micro_digits(frac)))
    } else {
        None
    }
}

pub open spec fn latency_of(s: Seq<u8>) -> u64 {
    match millis_text(s) {
        Some(v) => if v < CEILING_US { v as u64 } else { CEILING_US },
        None => CEILING_US,
    }
}

proof fn lemma_digits_nonneg(s: Seq<u8>)
    requires
        all_digits(s),
    ensures
        digits_value(s) >= 0,
    decreases s.len(),
{
    if s.len() > 0 {
        lemma_digits_nonneg(s.drop_last());
    }
}

/// `min(digits_value(s), cap)`, computed without overflow.
fn capped_digits(s: &[u8], start: usize, end: usize, cap: u128) -> (r: (bool, u128))
    requires
        start <= end <= s@.len(),
        0 < cap < 0x1_0000_0000_0000_0000_0000,
    ensures
        r.0 == all_digits(s@.subrange(start as int, end as int)),
        r.0 ==> r.1 == (if digits_value(s@.subrange(start as int, end as int)) < cap {
            digits_value(s@.subrange(start as int, end as int))
        } else {
            cap as int
        }),
{
    let mut acc: u128 = 0;
    let mut i: usize = start;
    while i < end
        invariant
            start <= i <= end <= s@.len(),
            0 < cap < 0x1_0000_0000_0000_0000_0000,
            all_digits(s@.subrange(start as int, i as int)),
            acc == (if digits_value(s@.subrange(start as int, i as int)) < cap {
                digits_value(s@.subrange(start as int, i as int))
            } else {
                cap as int
            }),
        decreases end - i,
    {
        let b = s[i];
        if b < 48 || b > 57 {
            proof {
                let t = s@.subrange(start as int, end as int);
                assert(t[i - start] == b);
            }
            return (false, 0);
        }
        let ghost prev = s@.subrange(start as int, i as int);
        let ghost next = s@.subrange(start as int, i + 1);
        proof {
            assert(next.drop_last() =~= prev);
            lemma_digits_nonneg(prev);
            assert(all_digits(next)) by {
                assert forall|k: int| 0 <= k < next.len() implies is_digit(#[trigger] next[k]) by {
                    if k < prev.len() {
                        assert(next[k] == prev[k]);
                    }
                }
            }
        }
        let d = (b - 48) as u128;
        if acc >= cap {
            proof {
                assert(digits_value(next) >= cap) by (nonlinear_arith)
                    requires digits_value(next) == digits_value(prev) * 10 + d, digits_value(prev) >= cap, d >= 0;
            }
        } else {
            let v = acc * 10 + d;
            acc = if v < cap { v } else { cap };
        }
        i = i + 1;
    }
    (true, acc)
}

/// Reads a stored timestamp; anything but an in-range decimal integer reads
/// as 0.
pub fn parse_timestamp(s: &[u8]) -> (r: i64)
    ensures
        r == timestamp_of(s@),
{
    let len = s.len();
    if len == 0 {
        return 0;
    }
    let cap: u128 = 0x8000_0000_0000_0001;
    let first = s[0];
    if first == 45 || first == 43 {
        let (ok, v) = capped_digits(s, 1, len, cap);
        if !ok || len == 1 {
            return 0;
        }
        proof {
            lemma_digits_nonneg(s@.subrange(1, len as int));
        }
        if first == 45 {
            if v <= 0x8000_0000_0000_0000 {
                if v == 0x8000_0000_0000_0000 {
                    return i64::MIN;
                }
                return -(v as i64);
            }
            return 0;
        } else {
            if v <= 0x7fff_ffff_ffff_ffff {
                return v as i64;
            }
            return 0;
        }
    }
    let (ok, v) = capped_digits(s, 0, len, cap);
    proof {
        assert(s@.subrange(0, len as int) =~= s@);
    }
    if !ok {
        return 0;
    }
    proof {
        lemma_digits_nonneg(s@);
    }
    if v <= 0x7fff_ffff_ffff_ffff {
        v as i64
    } else {
        0
    }
}

proof fn lemma_dot_pos_unique(s: Seq<u8>, d: int)
    requires
        0 <= d <= s.len(),
        d < s.len() ==> s[d] == 46u8,
        forall|k: int| 0 <= k < d ==> s[k] != 46u8,
    ensures
        dot_pos(s) == d,
    decreases s.len(),
{
    if s.len() > 0 && s[0] != 46u8 {
        let t = s.subrange(1, s.len() as int);
        lemma_dot_pos_unique(t, d - 1);
    }
}

/// Reads a stored latency in milliseconds (`digits[.digits]`) as
/// microseconds. Anything else, and anything at or above the ceiling, reads
/// as the ceiling, which marks a failure.
pub fn parse_latency(s: &[u8]) -> (r: u64)
    ensures
        r == latency_of(s@),
{
    let len = s.len();
    let mut d: usize = 0;
    while d < len && s[d] != 46
        invariant
            0 <= d <= len == s@.len(),
            forall|k: int| 0 <= k < d ==> s@[k] != 46u8,
        decreases len - d,
    {
        d = d + 1;
    }
    proof {
        lemma_dot_pos_unique(s@, d as int);
    }
    let (whole_ok, whole) = capped_digits(s, 0, d, 5001);
    let frac_start: usize = if d < len { d + 1 } else { len };
    let (frac_ok, _) = capped_digits(s, frac_start, len, 1);
    proof {
        if d >= len {
            assert(s@.subrange(len as int, len as int) =~= Seq::<u8>::empty());
        }
    }
    if d == 0 || !whole_ok || !frac_ok {
        return CEILING_US;
    }
    let ghost frac = s@.subrange(frac_start as int, len as int);
    let mut micros: u64 = 0;
    let mut k: usize = 0;
    while k < 3
        invariant
            0 <= k <= 3,
            frac_start <= len == s@.len(),
            frac == s@.subrange(frac_start as int, len as int),
            all_digits(frac),
            micros == digits_value(micro_digits(frac).subrange(0, k as int)),
            k == 0 ==> micros == 0,
            k == 1 ==> micros < 10,
            k == 2 ==> micros < 100,
            k == 3 ==> micros < 1000,
        decreases 3 - k,
    {
        let present = k < len - frac_start;
        proof {
            if present {
                assert(frac[k as int] == s@[frac_start + k]);
            }
        }
        let digit: u64 = if present { (s[frac_start + k] - 48) as u64 } else { 0 };
        proof {
            let m = micro_digits(frac);
            assert(m.subrange(0, k + 1).drop_last() =~= m.subrange(0, k as int));
            if present {
                assert(m[k as int] == frac[k as int]);
            } else {
                assert(m[k as int] == 48u8);
            }
            assert(m.subrange(0, k + 1).last() == m[k as int]);
        }
        micros = micros * 10 + digit;
        k = k + 1;
    }
    proof {
        assert(micro_digits(frac).subrange(0, 3) =~= micro_digits(frac));
        lemma_digits_nonneg(s@.subrange(0, d as int));
    }
    if whole >= 5000 {
        return CEILING_US;
    }
    whole as u64 * 1000 + micros
}

/// A stored sample from its two fields, either of which may be missing.
pub fn decode_sample(ts: Option<&[u8]>, ms: Option<&[u8]>) -> (r: Sample)
    ensures
        r.ts == (match ts {
            Some(t) => timestamp_of(t@),
            None => 0,
        }),
        r.latency_us == (match ms {
            Some(m) => latency_of(m@),
            None => CEILING_US,
        }),
{
    let ts = match ts {
        Some(t) => parse_timestamp(t),
        None => 0,
    };
    let latency_us = match ms {
        Some(m) => parse_latency(m),
        None => CEILING_US,
    };
    Sample { ts, latency_us }
}

} // verus!
