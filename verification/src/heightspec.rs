//! Parsing operator-supplied height specifications.
//!
//! A specification is a comma-separated list of entries; an entry is a
//! single height or a range `a-b`. A range is a half-open interval: it
//! expands to `a, a+1, …, b-1` — `b` itself is excluded — and an empty
//! interval (`a >= b`) expands to nothing. `"5,10-12,20"` therefore
//! names the heights `5, 10, 11, 20`.
//!
//! Malformed input — an empty entry, a stray character, a second dash,
//! a number that does not fit in 64 bits — is rejected with a parse
//! error, never by aborting the process. The grammar is byte-oriented
//! ASCII, so the specification functions below speak of the string's
//! UTF-8 bytes.

use vstd::prelude::*;
use vstd::string::StringSliceAdditionalSpecFns;

use crate::error::MiddlewareError;
use crate::fork::height_run;

verus! {

/// The byte of `','`.
pub open spec fn comma() -> u8 {
    44
}

/// The byte of `'-'`.
pub open spec fn dash() -> u8 {
    45
}

/// Whether `b` spells an ASCII decimal digit.
pub open spec fn is_digit_byte(b: u8) -> bool {
    48 <= b <= 57
}

/// The numeric value of a digit byte.
pub open spec fn digit_value(b: u8) -> int {
    b - 48
}

/// A non-empty, all-digit byte string.
pub open spec fn all_digits(s: Seq<u8>) -> bool {
    s.len() >= 1 && forall|i: int| 0 <= i < s.len() ==> is_digit_byte(#[trigger] s[i])
}

/// The number a digit string spells, most significant digit first.
pub open spec fn number_value(s: Seq<u8>) -> int
    decreases s.len(),
{
    if s.len() == 0 {
        0
    } else {
        number_value(s.drop_last()) * 10 + digit_value(s.last())
    }
}

/// The index of the first occurrence of `b` in `s`, or `-1`.
pub open spec fn find_byte(s: Seq<u8>, b: u8) -> int
    decreases s.len(),
{
    if s.len() == 0 {
        -1
    } else if s[0] == b {
        0
    } else {
        let r = find_byte(s.skip(1), b);
        if r < 0 {
            -1
        } else {
            r + 1
        }
    }
}

/// `find_byte` names the first occurrence: in bounds, hitting `b`, with
/// nothing equal to `b` before it; `-1` exactly when `b` is absent.
pub proof fn lemma_find_byte(s: Seq<u8>, b: u8)
    ensures
        find_byte(s, b) < s.len(),
        find_byte(s, b) >= 0 ==> s[find_byte(s, b)] == b,
        forall|i: int| 0 <= i < find_byte(s, b) ==> s[i] != b,
        find_byte(s, b) < 0 ==> (forall|i: int| 0 <= i < s.len() ==> s[i] != b) && find_byte(s, b)
            == -1,
    decreases s.len(),
{
    if s.len() == 0 {
    } else if s[0] == b {
    } else {
        lemma_find_byte(s.skip(1), b);
        let r = find_byte(s.skip(1), b);
        assert forall|i: int| 0 <= i < find_byte(s, b) implies s[i] != b by {
            if i > 0 {
                assert(s.skip(1)[i - 1] != b);
            }
        }
        if r < 0 {
            assert forall|i: int| 0 <= i < s.len() implies s[i] != b by {
                if i > 0 {
                    assert(s.skip(1)[i - 1] != b);
                }
            }
        }
    }
}

/// A well-formed entry: digits, or digits, one dash, digits, each
/// number fitting in 64 bits.
pub open spec fn valid_entry(s: Seq<u8>) -> bool {
    let d = find_byte(s, dash());
    if d < 0 {
        all_digits(s) && number_value(s) <= u64::MAX
    } else {
        &&& all_digits(s.take(d))
        &&& all_digits(s.skip(d + 1))
        &&& number_value(s.take(d)) <= u64::MAX
        &&& number_value(s.skip(d + 1)) <= u64::MAX
    }
}

/// What an entry names: one height, or the half-open run `[a, b)`.
pub open spec fn entry_heights(s: Seq<u8>) -> Seq<u64> {
    let d = find_byte(s, dash());
    if d < 0 {
        seq![number_value(s) as u64]
    } else {
        let a = number_value(s.take(d));
        let b = number_value(s.skip(d + 1));
        if a < b {
            height_run(a as u64, (b - a) as nat)
        } else {
            Seq::<u64>::empty()
        }
    }
}

/// A well-formed height specification: entries separated by commas.
pub open spec fn valid_height_spec(s: Seq<u8>) -> bool
    decreases s.len(),
    via valid_height_spec_decreases
{
    let c = find_byte(s, comma());
    if c < 0 {
        valid_entry(s)
    } else {
        valid_entry(s.take(c)) && valid_height_spec(s.skip(c + 1))
    }
}

#[via_fn]
proof fn valid_height_spec_decreases(s: Seq<u8>) {
    lemma_find_byte(s, comma());
}

/// Every height a specification names, in the order written.
pub open spec fn spec_heights(s: Seq<u8>) -> Seq<u64>
    decreases s.len(),
    via spec_heights_decreases
{
    let c = find_byte(s, comma());
    if c < 0 {
        entry_heights(s)
    } else {
        entry_heights(s.take(c)) + spec_heights(s.skip(c + 1))
    }
}

#[via_fn]
proof fn spec_heights_decreases(s: Seq<u8>) {
    lemma_find_byte(s, comma());
}

/// Digit strings spell non-negative numbers that only grow as digits
/// are appended.
proof fn lemma_number_value_nonneg(s: Seq<u8>)
    requires
        forall|i: int| 0 <= i < s.len() ==> is_digit_byte(#[trigger] s[i]),
    ensures
        number_value(s) >= 0,
    decreases s.len(),
{
    if s.len() > 0 {
        lemma_number_value_nonneg(s.drop_last());
    }
}

/// A digit string's value is at least the value of any of its prefixes.
proof fn lemma_number_value_prefix(s: Seq<u8>, k: int)
    requires
        forall|i: int| 0 <= i < s.len() ==> is_digit_byte(#[trigger] s[i]),
        0 <= k <= s.len(),
    ensures
        number_value(s) >= number_value(s.take(k)),
    decreases s.len() - k,
{
    if k == s.len() {
        assert(s.take(k) =~= s);
    } else {
        assert(s.take(k + 1).drop_last() =~= s.take(k));
        assert(s.take(k + 1).last() == s[k]);
        lemma_number_value_nonneg(s.take(k));
        lemma_number_value_prefix(s, k + 1);
    }
}

/// Parse the digits of `bytes[lo, hi)` as a height.
fn parse_number(bytes: &[u8], lo: usize, hi: usize) -> (r: Result<u64, MiddlewareError>)
    requires
        lo <= hi <= bytes@.len(),
    ensures
        match r {
            Ok(v) => all_digits(bytes@.subrange(lo as int, hi as int)) && v == number_value(
                bytes@.subrange(lo as int, hi as int),
            ),
            Err(e) => e == MiddlewareError::Parse && !(all_digits(
                bytes@.subrange(lo as int, hi as int),
            ) && number_value(bytes@.subrange(lo as int, hi as int)) <= u64::MAX),
        },
{
    let ghost sub = bytes@.subrange(lo as int, hi as int);
    if lo == hi {
        return Err(MiddlewareError::Parse);
    }
    let mut val: u64 = 0;
    let mut i = lo;
    while i < hi
        invariant
            lo <= i <= hi <= bytes@.len(),
            lo < hi,
            sub == bytes@.subrange(lo as int, hi as int),
            forall|k: int| lo <= k < i ==> is_digit_byte(#[trigger] bytes@[k]),
            val == number_value(bytes@.subrange(lo as int, i as int)),
        decreases hi - i,
    {
        let b = bytes[i];
        if b < 48 || b > 57 {
            proof {
                assert(sub[i - lo] == bytes@[i as int]);
                assert(!all_digits(sub));
            }
            return Err(MiddlewareError::Parse);
        }
        let d = (b - 48) as u64;
        if val > (u64::MAX - d) / 10 {
            // appending this digit would overflow, and further digits
            // only grow the number
            proof {
                let pre = bytes@.subrange(lo as int, i as int + 1);
                assert(pre.drop_last() =~= bytes@.subrange(lo as int, i as int));
                assert(number_value(pre) == val * 10 + d);
                assert(val * 10 + d > u64::MAX) by (nonlinear_arith)
                    requires
                        val > (u64::MAX - d) / 10,
                        d <= 9,
                {}
                if all_digits(sub) {
                    assert forall|k: int| 0 <= k < sub.len() implies is_digit_byte(
                        #[trigger] sub[k],
                    ) by {}
                    assert(sub.take(i - lo + 1) =~= pre);
                    lemma_number_value_prefix(sub, i - lo + 1);
                    assert(number_value(sub) > u64::MAX);
                }
            }
            return Err(MiddlewareError::Parse);
        }
        proof {
            let pre = bytes@.subrange(lo as int, i as int + 1);
            assert(pre.drop_last() =~= bytes@.subrange(lo as int, i as int));
            assert(number_value(pre) == val * 10 + d);
            assert(val * 10 + d <= u64::MAX) by (nonlinear_arith)
                requires
                    val <= (u64::MAX - d) / 10,
                    d <= 9,
            {}
        }
        val = val * 10 + d;
        i = i + 1;
    }
    proof {
        assert forall|k: int| 0 <= k < sub.len() implies is_digit_byte(#[trigger] sub[k]) by {
            assert(sub[k] == bytes@[lo + k]);
        }
        assert(all_digits(sub));
        assert(val == number_value(sub));
    }
    Ok(val)
}

/// The first `','` at or after `pos`, if any.
fn find_comma_from(bytes: &[u8], pos: usize) -> (r: Option<usize>)
    requires
        pos <= bytes@.len(),
    ensures
        match r {
            Some(c) => pos <= c < bytes@.len() && bytes@[c as int] == comma() && forall|k: int|
                pos <= k < c ==> bytes@[k] != comma(),
            None => forall|k: int| pos <= k < bytes@.len() ==> bytes@[k] != comma(),
        },
{
    let mut i = pos;
    while i < bytes.len()
        invariant
            pos <= i <= bytes@.len(),
            forall|k: int| pos <= k < i ==> bytes@[k] != comma(),
        decreases bytes@.len() - i,
    {
        if bytes[i] == 44 {
            return Some(i);
        }
        i = i + 1;
    }
    None
}

/// The first `'-'` in `bytes[lo, hi)`, if any.
fn find_dash_in(bytes: &[u8], lo: usize, hi: usize) -> (r: Option<usize>)
    requires
        lo <= hi <= bytes@.len(),
    ensures
        match r {
            Some(d) => lo <= d < hi && bytes@[d as int] == dash() && forall|k: int|
                lo <= k < d ==> bytes@[k] != dash(),
            None => forall|k: int| lo <= k < hi ==> bytes@[k] != dash(),
        },
{
    let mut i = lo;
    while i < hi
        invariant
            lo <= i <= hi <= bytes@.len(),
            forall|k: int| lo <= k < i ==> bytes@[k] != dash(),
        decreases hi - i,
    {
        if bytes[i] == 45 {
            return Some(i);
        }
        i = i + 1;
    }
    None
}

/// An exec-side first occurrence pins down `find_byte` on the suffix.
proof fn lemma_find_byte_is(s: Seq<u8>, b: u8, at: int)
    requires
        0 <= at < s.len(),
        s[at] == b,
        forall|k: int| 0 <= k < at ==> s[k] != b,
    ensures
        find_byte(s, b) == at,
{
    lemma_find_byte(s, b);
    let r = find_byte(s, b);
    if r < 0 {
        assert(s[at] != b);
    } else if r < at {
        assert(s[r] != b);
    } else if r > at {
        assert(s[at] != b);
    }
}

/// `find_byte` answers `-1` when nothing matches.
proof fn lemma_find_byte_none(s: Seq<u8>, b: u8)
    requires
        forall|k: int| 0 <= k < s.len() ==> s[k] != b,
    ensures
        find_byte(s, b) == -1,
{
    lemma_find_byte(s, b);
    let r = find_byte(s, b);
    if r >= 0 {
        assert(s[r] != b);
    }
}

/// Parse the single entry `bytes[lo, hi)` and append what it names.
fn parse_entry(bytes: &[u8], lo: usize, hi: usize, out: &mut Vec<u64>) -> (r: Result<
    (),
    MiddlewareError,
>)
    requires
        lo <= hi <= bytes@.len(),
    ensures
        match r {
            Ok(()) => valid_entry(bytes@.subrange(lo as int, hi as int)) && final(out)@ == old(
                out,
            )@ + entry_heights(bytes@.subrange(lo as int, hi as int)),
            Err(e) => e == MiddlewareError::Parse && !valid_entry(
                bytes@.subrange(lo as int, hi as int),
            ) && final(out)@ == old(out)@,
        },
{
    let ghost sub = bytes@.subrange(lo as int, hi as int);
    match find_dash_in(bytes, lo, hi) {
        None => {
            proof {
                assert forall|k: int| 0 <= k < sub.len() implies sub[k] != dash() by {
                    assert(sub[k] == bytes@[lo + k]);
                }
                lemma_find_byte_none(sub, dash());
            }
            let v = match parse_number(bytes, lo, hi) {
                Ok(v) => v,
                Err(e) => {
                    return Err(e);
                },
            };
            out.push(v);
            proof {
                assert(out@ =~= old(out)@ + entry_heights(sub));
            }
            Ok(())
        },
        Some(dpos) => {
            proof {
                assert(sub[dpos - lo] == dash());
                assert forall|k: int| 0 <= k < dpos - lo implies sub[k] != dash() by {
                    assert(sub[k] == bytes@[lo + k]);
                }
                lemma_find_byte_is(sub, dash(), dpos - lo);
                assert(sub.take(dpos - lo) =~= bytes@.subrange(lo as int, dpos as int));
                assert(sub.skip(dpos - lo + 1) =~= bytes@.subrange(dpos as int + 1, hi as int));
            }
            let a = match parse_number(bytes, lo, dpos) {
                Ok(v) => v,
                Err(e) => {
                    return Err(e);
                },
            };
            let b = match parse_number(bytes, dpos + 1, hi) {
                Ok(v) => v,
                Err(e) => {
                    return Err(e);
                },
            };
            if a < b {
                let ghost out0 = out@;
                let mut h = a;
                let cnt = b - a;
                let mut j: u64 = 0;
                while j < cnt
                    invariant
                        j <= cnt,
                        cnt == b - a,
                        a < b,
                        out@.len() == out0.len() + j,
                        forall|k: int| 0 <= k < out0.len() ==> (#[trigger] out@[k]) == out0[k],
                        forall|k: int|
                            out0.len() <= k < out@.len() ==> (#[trigger] out@[k]) == a + (k
                                - out0.len()),
                    decreases cnt - j,
                {
                    out.push(a + j);
                    j = j + 1;
                }
                proof {
                    assert(out@ =~= out0 + height_run(a, (b - a) as nat));
                    assert(out@ =~= old(out)@ + entry_heights(sub));
                }
            } else {
                proof {
                    assert(out@ =~= old(out)@ + entry_heights(sub));
                }
            }
            Ok(())
        },
    }
}

/// Parse a comma-separated height specification, such as `"5,10-12,20"`.
///
/// On success the result lists, in the order written, every height the
/// specification names; a range `a-b` contributes the half-open run
/// `a, …, b-1`. Any malformed input is rejected with a parse error.
pub fn parse_heights(s: &str) -> (r: Result<Vec<u64>, MiddlewareError>)
    ensures
        match r {
            Ok(v) => valid_height_spec(s.spec_bytes()) && v@ == spec_heights(s.spec_bytes()),
            Err(e) => e == MiddlewareError::Parse && !valid_height_spec(s.spec_bytes()),
        },
{
    let bytes = s.as_bytes();
    let n = bytes.len();
    let mut out: Vec<u64> = Vec::new();
    let mut pos: usize = 0;
    proof {
        assert(bytes@.skip(0) =~= bytes@);
        assert(Seq::<u64>::empty() + spec_heights(bytes@) =~= spec_heights(bytes@));
    }
    loop
        invariant
            pos <= bytes@.len(),
            bytes@.len() == n,
            bytes@ == s.spec_bytes(),
            valid_height_spec(s.spec_bytes()) == valid_height_spec(bytes@.skip(pos as int)),
            valid_height_spec(s.spec_bytes()) ==> spec_heights(s.spec_bytes()) == out@
                + spec_heights(bytes@.skip(pos as int)),
        decreases bytes@.len() - pos,
    {
        let ghost suffix = bytes@.skip(pos as int);
        match find_comma_from(bytes, pos) {
            None => {
                proof {
                    assert forall|k: int| 0 <= k < suffix.len() implies suffix[k] != comma() by {
                        assert(suffix[k] == bytes@[pos + k]);
                    }
                    lemma_find_byte_none(suffix, comma());
                    assert(suffix =~= bytes@.subrange(pos as int, bytes@.len() as int));
                }
                let ghost out0 = out@;
                match parse_entry(bytes, pos, bytes.len(), &mut out) {
                    Ok(()) => {
                        proof {
                            assert(valid_height_spec(suffix) == valid_entry(suffix));
                            assert(spec_heights(suffix) == entry_heights(suffix));
                            assert(out@ == out0 + entry_heights(suffix));
                        }
                        return Ok(out);
                    },
                    Err(e) => {
                        return Err(e);
                    },
                }
            },
            Some(c) => {
                proof {
                    assert(suffix[c - pos] == comma());
                    assert forall|k: int| 0 <= k < c - pos implies suffix[k] != comma() by {
                        assert(suffix[k] == bytes@[pos + k]);
                    }
                    lemma_find_byte_is(suffix, comma(), c - pos);
                    assert(suffix.take(c - pos) =~= bytes@.subrange(pos as int, c as int));
                    assert(suffix.skip(c - pos + 1) =~= bytes@.skip(c as int + 1));
                }
                let ghost out0 = out@;
                match parse_entry(bytes, pos, c, &mut out) {
                    Ok(()) => {},
                    Err(e) => {
                        return Err(e);
                    },
                }
                proof {
                    let sub = bytes@.subrange(pos as int, c as int);
                    let rest = bytes@.skip(c as int + 1);
                    assert(valid_height_spec(suffix) == (valid_entry(sub) && valid_height_spec(
                        rest,
                    )));
                    if valid_height_spec(s.spec_bytes()) {
                        assert(spec_heights(suffix) == entry_heights(sub) + spec_heights(rest));
                        assert(out0 + (entry_heights(sub) + spec_heights(rest)) =~= (out0
                            + entry_heights(sub)) + spec_heights(rest));
                    }
                }
                pos = c + 1;
            },
        }
    }
    // unreachable: the loop returns from its `None` arm
}

} // verus!
