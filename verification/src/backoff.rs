//! Reading a rate-limit wait hint out of free text.
//!
//! A throttled remote call may carry the phrase "retry after" followed by a
//! number of seconds somewhere in its error description. The scan is
//! case-insensitive over ASCII letters; any characters may stand between the
//! phrase and the digits; the first maximal digit run whose value fits in a
//! `u64` decides the hint.

use vstd::prelude::*;

use crate::text::digit_val;
use crate::text::is_digit;
use crate::text::is_digit_char;
use crate::text::lower_code;
use crate::text::lower_code_of;

verus! {

use vstd::string::StrSliceExecFns;

/// The number of characters in the phrase "retry after".
pub open spec fn phrase_len() -> int {
    11
}

/// The phrase "retry after" matches `s` at position `i`, comparing ASCII
/// letters case-insensitively.
pub open spec fn phrase_match_at(s: Seq<char>, i: int) -> bool {
    &&& 0 <= i
    &&& i + phrase_len() <= s.len()
    &&& lower_code(s[i]) == 'r' as u32
    &&& lower_code(s[i + 1]) == 'e' as u32
    &&& lower_code(s[i + 2]) == 't' as u32
    &&& lower_code(s[i + 3]) == 'r' as u32
    &&& lower_code(s[i + 4]) == 'y' as u32
    &&& lower_code(s[i + 5]) == ' ' as u32
    &&& lower_code(s[i + 6]) == 'a' as u32
    &&& lower_code(s[i + 7]) == 'f' as u32
    &&& lower_code(s[i + 8]) == 't' as u32
    &&& lower_code(s[i + 9]) == 'e' as u32
    &&& lower_code(s[i + 10]) == 'r' as u32
}

/// Position of the first match of the phrase at or after `i`.
pub open spec fn first_phrase_match_from(s: Seq<char>, i: int) -> Option<int>
    decreases s.len() - i,
{
    if i < 0 || i + phrase_len() > s.len() {
        None
    } else if phrase_match_at(s, i) {
        Some(i)
    } else {
        first_phrase_match_from(s, i + 1)
    }
}

/// Position of the first case-insensitive occurrence of "retry after" in `s`.
pub open spec fn first_phrase_match(s: Seq<char>) -> Option<int> {
    first_phrase_match_from(s, 0)
}

/// First position at or after `i` that does not continue a digit run.
pub open spec fn run_end(t: Seq<char>, i: int) -> int
    decreases t.len() - i,
{
    if i < 0 || i >= t.len() || !is_digit_char(t[i]) {
        i
    } else {
        run_end(t, i + 1)
    }
}

/// Value of the decimal digits `t[i..j]`.
pub open spec fn run_value(t: Seq<char>, i: int, j: int) -> int
    decreases j - i,
{
    if j <= i {
        0
    } else {
        run_value(t, i, j - 1) * 10 + digit_val(t[j - 1])
    }
}

/// Value of the first maximal digit run at or after `i` whose value fits in
/// a `u64`; runs too large to fit are passed over.
pub open spec fn scan_runs(t: Seq<char>, i: int) -> Option<u64>
    decreases t.len() - i,
        via scan_runs_decreases
{
    if i < 0 || i >= t.len() {
        None
    } else if !is_digit_char(t[i]) {
        scan_runs(t, i + 1)
    } else if run_value(t, i, run_end(t, i)) <= u64::MAX {
        Some(run_value(t, i, run_end(t, i)) as u64)
    } else {
        scan_runs(t, run_end(t, i))
    }
}

#[via_fn]
proof fn scan_runs_decreases(t: Seq<char>, i: int) {
    if 0 <= i < t.len() && is_digit_char(t[i]) {
        lemma_run_end_bounds(t, i);
    }
}

/// The wait hint carried by the text `s`: the first fitting digit run after
/// the first occurrence of "retry after", if both exist.
pub open spec fn retry_after_hint(s: Seq<char>) -> Option<u64> {
    match first_phrase_match(s) {
        Some(p) => scan_runs(s.subrange(p + phrase_len(), s.len() as int), 0),
        None => None,
    }
}

/// A digit run extends from `i` to `run_end(t, i)` and no further.
pub proof fn lemma_run_end_bounds(t: Seq<char>, i: int)
    requires
        0 <= i <= t.len(),
    ensures
        i <= run_end(t, i) <= t.len(),
        forall|k: int| i <= k < run_end(t, i) ==> is_digit_char(#[trigger] t[k]),
        run_end(t, i) < t.len() ==> !is_digit_char(t[run_end(t, i)]),
        i < t.len() && is_digit_char(t[i]) ==> run_end(t, i) > i,
    decreases t.len() - i,
{
    if i < t.len() && is_digit_char(t[i]) {
        lemma_run_end_bounds(t, i + 1);
    }
}

/// A stretch of digits with a non-digit (or the end of the text) behind it
/// is exactly the run starting at its first position.
pub proof fn lemma_run_end_eq(t: Seq<char>, i: int, j: int)
    requires
        0 <= i <= j <= t.len(),
        forall|k: int| i <= k < j ==> is_digit_char(#[trigger] t[k]),
        j == t.len() || !is_digit_char(t[j]),
    ensures
        run_end(t, i) == j,
    decreases j - i,
{
    if i < j {
        lemma_run_end_eq(t, i + 1, j);
    }
}

/// Digit runs have non-negative values.
pub proof fn lemma_run_value_nonneg(t: Seq<char>, i: int, j: int)
    requires
        forall|k: int| i <= k < j ==> is_digit_char(#[trigger] t[k]),
    ensures
        run_value(t, i, j) >= 0,
    decreases j - i,
{
    if j > i {
        lemma_run_value_nonneg(t, i, j - 1);
    }
}

/// The scan gives the same answer from anywhere inside a stretch without
/// digits.
pub proof fn lemma_scan_skips_nondigits(t: Seq<char>, i: int, m: int)
    requires
        0 <= i <= m <= t.len(),
        forall|k: int| i <= k < m ==> !is_digit_char(#[trigger] t[k]),
    ensures
        scan_runs(t, i) == scan_runs(t, m),
    decreases m - i,
{
    if i < m {
        lemma_scan_skips_nondigits(t, i + 1, m);
    }
}

/// If the phrase matches nowhere at or after `i`, the search from `i` fails.
pub proof fn lemma_first_match_none(s: Seq<char>, i: int)
    requires
        0 <= i,
        forall|q: int| i <= q ==> !phrase_match_at(s, q),
    ensures
        first_phrase_match_from(s, i) == None::<int>,
    decreases s.len() - i,
{
    if i + phrase_len() <= s.len() {
        lemma_first_match_none(s, i + 1);
    }
}

/// The earliest match of the phrase at or after `i` is what the search from
/// `i` finds.
pub proof fn lemma_first_match_found(s: Seq<char>, i: int, p: int)
    requires
        0 <= i <= p,
        phrase_match_at(s, p),
        forall|q: int| i <= q < p ==> !phrase_match_at(s, q),
    ensures
        first_phrase_match_from(s, i) == Some(p),
    decreases p - i,
{
    if i < p {
        lemma_first_match_found(s, i + 1, p);
    }
}

/// Shifting a run into a suffix keeps its value: the digits `t[i..j]` of
/// `t == s[b..]` are the digits `s[b+i..b+j]`.
proof fn lemma_run_value_shift(s: Seq<char>, b: int, i: int, j: int)
    requires
        0 <= b <= s.len(),
        0 <= i,
        b + j <= s.len(),
    ensures
        run_value(s.subrange(b, s.len() as int), i, j) == run_value(s, b + i, b + j),
    decreases j - i,
{
    if j > i {
        lemma_run_value_shift(s, b, i, j - 1);
    }
}

/// The phrase "retry after" (case-insensitively) at `i`, compared character
/// by character.
fn phrase_at(s: &str, i: usize) -> (r: bool)
    requires
        i + phrase_len() <= s@.len(),
        s@.len() <= usize::MAX,
    ensures
        r == phrase_match_at(s@, i as int),
{
    let r0 = lower_code_of(s.get_char(i));
    let r1 = lower_code_of(s.get_char(i + 1));
    let r2 = lower_code_of(s.get_char(i + 2));
    let r3 = lower_code_of(s.get_char(i + 3));
    let r4 = lower_code_of(s.get_char(i + 4));
    let r5 = lower_code_of(s.get_char(i + 5));
    let r6 = lower_code_of(s.get_char(i + 6));
    let r7 = lower_code_of(s.get_char(i + 7));
    let r8 = lower_code_of(s.get_char(i + 8));
    let r9 = lower_code_of(s.get_char(i + 9));
    let r10 = lower_code_of(s.get_char(i + 10));
    r0 == 'r' as u32 && r1 == 'e' as u32 && r2 == 't' as u32 && r3 == 'r' as u32 && r4 == 'y' as u32
        && r5 == ' ' as u32 && r6 == 'a' as u32 && r7 == 'f' as u32 && r8 == 't' as u32
        && r9 == 'e' as u32 && r10 == 'r' as u32
}

/// Parses the wait hint, in seconds, out of a throttling description.
///
/// The hint is the value of the first maximal digit run that fits in a `u64`
/// after the first case-insensitive occurrence of "retry after"; `None` when
/// the phrase does not occur or no such run follows it.
pub fn parse_retry_after_from_description(desc: &str) -> (r: Option<u64>)
    ensures
        r == retry_after_hint(desc@),
{
    let n = desc.unicode_len();
    let ghost s = desc@;

    // Find the first case-insensitive occurrence of the phrase.
    let mut pos: usize = 0;
    let mut found = false;
    if n >= 11 {
        let last = n - 11;
        let mut i: usize = 0;
        while !found && i <= last
            invariant
                n == s.len(),
                s == desc@,
                n >= 11,
                last == n - 11,
                i <= last + 1,
                !found ==> forall|q: int| 0 <= q < i ==> !phrase_match_at(s, q),
                found ==> {
                    &&& pos <= last
                    &&& phrase_match_at(s, pos as int)
                    &&& forall|q: int| 0 <= q < pos ==> !phrase_match_at(s, q)
                },
            decreases last - i + (if found { 0int } else { 1int }),
        {
            if phrase_at(desc, i) {
                found = true;
                pos = i;
            } else {
                i += 1;
            }
        }
        if !found {
            proof {
                assert forall|q: int| !phrase_match_at(s, q) by {
                    if 0 <= q < i {
                    } else if q >= i {
                        assert(q + phrase_len() > s.len());
                    }
                }
                lemma_first_match_none(s, 0);
            }
            return None;
        }
    } else {
        proof {
            assert forall|q: int| !phrase_match_at(s, q) by {
                if q >= 0 {
                    assert(q + phrase_len() > s.len());
                }
            }
            lemma_first_match_none(s, 0);
        }
        return None;
    }

    proof {
        lemma_first_match_found(s, 0, pos as int);
    }

    let base = pos + 11;
    let ghost t = s.subrange(base as int, n as int);

    // Scan the text after the phrase for the first fitting digit run.
    let mut k: usize = base;
    while k < n
        invariant
            n == s.len(),
            s == desc@,
            base <= k <= n,
            base + t.len() == n,
            t == s.subrange(base as int, n as int),
            first_phrase_match(s) == Some(base - phrase_len()),
            scan_runs(t, 0) == scan_runs(t, k - base),
        decreases n - k,
    {
        let c = desc.get_char(k);
        proof {
            assert(t[k - base] == s[k as int]);
        }
        if is_digit(c) {
            let ghost rs = (k - base) as int;
            let mut val: u64 = 0;
            let mut over = false;
            let mut j: usize = k;
            while j < n
                invariant_except_break
                    n == s.len(),
                    s == desc@,
                    base <= k <= j <= n,
                    base + t.len() == n,
                    t == s.subrange(base as int, n as int),
                    rs == k - base,
                    forall|m: int| rs <= m < j - base ==> is_digit_char(#[trigger] t[m]),
                    !over ==> val == run_value(t, rs, j - base),
                    over ==> run_value(t, rs, j - base) > u64::MAX,
                ensures
                    base <= k <= j <= n,
                    forall|m: int| rs <= m < j - base ==> is_digit_char(#[trigger] t[m]),
                    j == n || !is_digit_char(t[j - base]),
                    !over ==> val == run_value(t, rs, j - base),
                    over ==> run_value(t, rs, j - base) > u64::MAX,
                decreases n - j,
            {
                let cj = desc.get_char(j);
                proof {
                    assert(t[j - base] == s[j as int]);
                }
                if !is_digit(cj) {
                    break;
                }
                let d: u64 = (cj as u32 - 0x30) as u64;
                proof {
                    lemma_run_value_nonneg(t, rs, (j - base) as int);
                    assert(digit_val(t[j - base]) == d);
                    assert(run_value(t, rs, j + 1 - base) == run_value(t, rs, j - base) * 10 + d);
                }
                if !over {
                    if val > (u64::MAX - d) / 10 {
                        over = true;
                        assert(run_value(t, rs, j + 1 - base) > u64::MAX) by {
                            assert(val > (u64::MAX - d) / 10);
                            assert(val * 10 > ((u64::MAX - d) / 10) * 10 + 9 - d) by (nonlinear_arith)
                                requires
                                    val > (u64::MAX - d) / 10,
                                    d <= 9,
                            ;
                            assert(((u64::MAX - d) / 10) * 10 + 10 > u64::MAX - d);
                        };
                    } else {
                        assert(val * 10 + d <= u64::MAX) by {
                            assert(val <= (u64::MAX - d) / 10);
                            assert(val * 10 <= ((u64::MAX - d) / 10) * 10) by (nonlinear_arith)
                                requires
                                    val <= (u64::MAX - d) / 10,
                            ;
                            assert(((u64::MAX - d) / 10) * 10 <= u64::MAX - d);
                        };
                        val = val * 10 + d;
                    }
                } else {
                    assert(run_value(t, rs, j + 1 - base) > u64::MAX);
                }
                j += 1;
            }
            if !over {
                proof {
                    lemma_run_end_eq(t, rs, (j - base) as int);
                    assert(is_digit_char(t[rs]));
                    assert(scan_runs(t, rs) == Some(val));
                    assert(s.subrange(base as int, s.len() as int) == t);
                }
                return Some(val);
            }
            proof {
                lemma_run_end_eq(t, rs, (j - base) as int);
                assert(is_digit_char(t[rs]));
                assert(scan_runs(t, rs) == scan_runs(t, j - base));
            }
            k = j;
        } else {
            proof {
                assert(scan_runs(t, k - base) == scan_runs(t, k + 1 - base));
            }
            k += 1;
        }
    }
    proof {
        assert(scan_runs(t, k - base) == None::<u64>);
        assert(s.subrange(base as int, s.len() as int) == t);
    }
    None
}

/// Text without any case-insensitive occurrence of "retry after" carries no
/// wait hint.
pub proof fn lemma_no_phrase_no_hint(s: Seq<char>)
    requires
        forall|q: int| !phrase_match_at(s, q),
    ensures
        retry_after_hint(s) == None::<u64>,
{
    lemma_first_match_none(s, 0);
}

/// The first digit run after the first occurrence of "retry after" decides
/// the hint, whatever characters stand between the phrase and the digits.
pub proof fn lemma_hint_is_first_run(s: Seq<char>, p: int, r0: int, e: int)
    requires
        phrase_match_at(s, p),
        forall|q: int| 0 <= q < p ==> !phrase_match_at(s, q),
        p + phrase_len() <= r0 < e <= s.len(),
        forall|k: int| p + phrase_len() <= k < r0 ==> !is_digit_char(#[trigger] s[k]),
        forall|k: int| r0 <= k < e ==> is_digit_char(#[trigger] s[k]),
        e == s.len() || !is_digit_char(s[e]),
        run_value(s, r0, e) <= u64::MAX,
    ensures
        retry_after_hint(s) == Some(run_value(s, r0, e) as u64),
{
    lemma_first_match_found(s, 0, p);
    let b = p + phrase_len();
    let t = s.subrange(b, s.len() as int);
    assert forall|k: int| 0 <= k < r0 - b implies !is_digit_char(#[trigger] t[k]) by {
        assert(t[k] == s[b + k]);
    }
    lemma_scan_skips_nondigits(t, 0, r0 - b);
    assert forall|k: int| r0 - b <= k < e - b implies is_digit_char(#[trigger] t[k]) by {
        assert(t[k] == s[b + k]);
    }
    lemma_run_end_eq(t, r0 - b, e - b);
    lemma_run_value_shift(s, b, r0 - b, e - b);
    assert(scan_runs(t, r0 - b) == Some(run_value(t, r0 - b, e - b) as u64));
}

/// A lone digit `7` as the first digits after the phrase reads as a hint of
/// seven seconds.
pub proof fn lemma_retry_after_seven(s: Seq<char>, p: int, r0: int)
    requires
        phrase_match_at(s, p),
        forall|q: int| 0 <= q < p ==> !phrase_match_at(s, q),
        p + phrase_len() <= r0 < s.len(),
        forall|k: int| p + phrase_len() <= k < r0 ==> !is_digit_char(#[trigger] s[k]),
        s[r0] == '7',
        r0 + 1 == s.len() || !is_digit_char(s[r0 + 1]),
    ensures
        retry_after_hint(s) == Some(7u64),
{
    assert(run_value(s, r0, r0 + 1) == 7) by {
        assert('7' as u32 == 55);
        assert(digit_val(s[r0]) == 7);
        assert(run_value(s, r0, r0) == 0);
    };
    lemma_hint_is_first_run(s, p, r0, r0 + 1);
}

} // verus!
