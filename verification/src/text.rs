use vstd::prelude::*;

verus! {

use vstd::string::StrSliceExecFns;

/// Largest representable monetary amount, in ten-thousandths of a
/// currency unit; amounts beyond it saturate here.
pub const AMOUNT_MAX: u64 = 1_000_000_000_000_000;

/// Largest integer part of an amount, in currency units: `AMOUNT_MAX`
/// over the fixed-point scale of 10_000.
pub const AMOUNT_INT_CAP: u64 = 100_000_000_000;

pub open spec fn is_digit(c: char) -> bool {
    ('0' as u32) <= (c as u32) && (c as u32) <= ('9' as u32)
}

pub open spec fn digit_val(c: char) -> nat {
    ((c as u32) - ('0' as u32)) as nat
}

pub open spec fn all_digits(s: Seq<char>) -> bool {
    forall|i: int| 0 <= i < s.len() ==> is_digit(#[trigger] s[i])
}

/// The value of a run of decimal digits.
pub open spec fn digits_val(s: Seq<char>) -> nat
    decreases s.len(),
{
    if s.len() == 0 {
        0
    } else {
        digits_val(s.drop_last()) * 10 + digit_val(s.last())
    }
}

/// Length of the longest prefix of `s` made of decimal digits.
pub open spec fn digits_prefix_len(s: Seq<char>) -> nat
    decreases s.len(),
{
    if s.len() == 0 {
        0
    } else if !is_digit(s[0]) {
        0
    } else {
        1 + digits_prefix_len(s.drop_first())
    }
}

pub open spec fn pow10(n: nat) -> nat
    decreases n,
{
    if n == 0 {
        1
    } else {
        10 * pow10((n - 1) as nat)
    }
}

/// A well-formed unsigned decimal literal: a nonempty run of digits,
/// optionally followed by a dot and another nonempty run of digits.
pub open spec fn is_decimal(s: Seq<char>) -> bool {
    let k = digits_prefix_len(s);
    &&& k > 0
    &&& (k == s.len() || (s[k as int] == '.' && k + 1 < s.len() && all_digits(
        s.skip(k as int + 1),
    )))
}

pub open spec fn dec_int_part(s: Seq<char>) -> Seq<char> {
    s.take(digits_prefix_len(s) as int)
}

pub open spec fn dec_frac_part(s: Seq<char>) -> Seq<char> {
    if digits_prefix_len(s) == s.len() {
        Seq::empty()
    } else {
        s.skip(digits_prefix_len(s) as int + 1)
    }
}

/// The value, in ten-thousandths, of a fraction written as decimal
/// digits; digits past the fourth are truncated.
pub open spec fn frac_val_e4(fr: Seq<char>) -> nat {
    if fr.len() == 0 {
        0
    } else if fr.len() == 1 {
        digits_val(fr) * 1000
    } else if fr.len() == 2 {
        digits_val(fr) * 100
    } else if fr.len() == 3 {
        digits_val(fr) * 10
    } else {
        digits_val(fr.take(4))
    }
}

/// Monetary value of a cell rendered as text, in ten-thousandths of a
/// currency unit. Malformed text (including negative values, which the
/// data model rules out) falls back to zero, and values at or above
/// `AMOUNT_INT_CAP` currency units saturate at `AMOUNT_MAX`.
pub open spec fn spec_amount(s: Seq<char>) -> u64 {
    if is_decimal(s) {
        if digits_val(dec_int_part(s)) >= AMOUNT_INT_CAP {
            AMOUNT_MAX
        } else {
            (digits_val(dec_int_part(s)) * 10000 + frac_val_e4(dec_frac_part(s))) as u64
        }
    } else {
        0
    }
}

/// Month value of a cell rendered as text: the integer part of a
/// well-formed decimal, truncated, saturating at `u32::MAX`; malformed
/// text (including negative values) falls back to zero.
pub open spec fn spec_month(s: Seq<char>) -> u32 {
    if is_decimal(s) {
        if digits_val(dec_int_part(s)) > u32::MAX {
            u32::MAX
        } else {
            digits_val(dec_int_part(s)) as u32
        }
    } else {
        0
    }
}

/// `digits_val` saturated at `AMOUNT_INT_CAP`.
pub open spec fn sat_cap(v: nat) -> u64 {
    if v >= AMOUNT_INT_CAP {
        AMOUNT_INT_CAP
    } else {
        v as u64
    }
}

fn is_digit_char(c: char) -> (b: bool)
    ensures
        b == is_digit(c),
{
    (c as u32) >= ('0' as u32) && (c as u32) <= ('9' as u32)
}

/// A run of digits has a value below ten to its length.
pub proof fn lemma_digits_val_bound(s: Seq<char>)
    requires
        all_digits(s),
    ensures
        digits_val(s) < pow10(s.len()),
    decreases s.len(),
{
    if s.len() == 0 {
    } else {
        assert(all_digits(s.drop_last())) by {
            assert(forall|i: int|
                0 <= i < s.len() - 1 ==> s.drop_last()[i] == #[trigger] s[i]);
        }
        lemma_digits_val_bound(s.drop_last());
        assert(digit_val(s.last()) <= 9);
    }
}

/// `digits_prefix_len` is pinned down by a digit prefix that either
/// covers the string or stops at a non-digit.
pub proof fn lemma_digits_prefix_len(s: Seq<char>, k: nat)
    requires
        k <= s.len(),
        forall|j: int| 0 <= j < k ==> is_digit(#[trigger] s[j]),
        k == s.len() || !is_digit(s[k as int]),
    ensures
        digits_prefix_len(s) == k,
    decreases s.len(),
{
    if s.len() == 0 {
    } else if k == 0 {
    } else {
        assert(is_digit(s[0]));
        let t = s.drop_first();
        assert(forall|j: int| 0 <= j < k - 1 ==> is_digit(#[trigger] t[j]) == is_digit(s[j + 1]));
        if k < s.len() {
            assert(t[k as int - 1] == s[k as int]);
        }
        lemma_digits_prefix_len(t, (k - 1) as nat);
    }
}

/// Scans the run of digits in `s` beginning at `start`: returns where it
/// ends and its value, saturated at `AMOUNT_INT_CAP`.
fn digit_run(s: &str, start: usize) -> (r: (usize, u64))
    requires
        start <= s@.len(),
    ensures
        start <= r.0 <= s@.len(),
        forall|j: int| start <= j < r.0 ==> is_digit(#[trigger] s@[j]),
        r.0 == s@.len() || !is_digit(s@[r.0 as int]),
        r.1 == sat_cap(digits_val(s@.subrange(start as int, r.0 as int))),
{
    let n: usize = s.unicode_len();
    let mut i: usize = start;
    let mut acc: u64 = 0;
    loop
        invariant
            start <= i <= n,
            n == s@.len(),
            forall|j: int| start <= j < i ==> is_digit(#[trigger] s@[j]),
            acc == sat_cap(digits_val(s@.subrange(start as int, i as int))),
        ensures
            start <= i <= n,
            forall|j: int| start <= j < i ==> is_digit(#[trigger] s@[j]),
            i == n || !is_digit(s@[i as int]),
            acc == sat_cap(digits_val(s@.subrange(start as int, i as int))),
        decreases n - i,
    {
        if i == n {
            break ;
        }
        let c = s.get_char(i);
        if !is_digit_char(c) {
            break ;
        }
        let d: u64 = ((c as u32) - ('0' as u32)) as u64;
        proof {
            let prev = s@.subrange(start as int, i as int);
            let cur = s@.subrange(start as int, i as int + 1);
            assert(cur.drop_last() =~= prev);
            assert(cur.last() == s@[i as int]);
            assert(digits_val(cur) == digits_val(prev) * 10 + digit_val(s@[i as int]));
        }
        if acc >= AMOUNT_INT_CAP {
            acc = AMOUNT_INT_CAP;
        } else {
            let next = acc * 10 + d;
            if next >= AMOUNT_INT_CAP {
                acc = AMOUNT_INT_CAP;
            } else {
                acc = next;
            }
        }
        i = i + 1;
    }
    (i, acc)
}

/// Parses a monetary cell text into ten-thousandths of a currency unit,
/// with the lenient fallback the batch policy calls for: anything that is
/// not a well-formed non-negative decimal counts as zero.
pub fn parse_amount(s: &str) -> (r: u64)
    ensures
        r == spec_amount(s@),
        r <= AMOUNT_MAX,
{
    let n: usize = s.unicode_len();
    let (k, iv): (usize, u64) = digit_run(s, 0);
    proof {
        lemma_digits_prefix_len(s@, k as nat);
        assert(s@.subrange(0, k as int) =~= dec_int_part(s@));
    }
    if k == 0 {
        return 0;
    }
    if k == n {
        proof {
            assert(dec_frac_part(s@) =~= Seq::<char>::empty());
        }
        if iv >= AMOUNT_INT_CAP {
            return AMOUNT_MAX;
        }
        return iv * 10000;
    }
    if s.get_char(k) != '.' {
        return 0;
    }
    if k + 1 == n {
        return 0;
    }
    let ghost fr = s@.skip(k as int + 1);
    let mut j: usize = k + 1;
    let mut fv: u64 = 0;
    loop
        invariant
            k + 1 <= j <= n,
            n == s@.len(),
            fr == s@.skip(k as int + 1),
            fr.len() == n - k - 1,
            forall|m: int| 0 <= m < j - k - 1 ==> is_digit(#[trigger] fr[m]),
            fv == digits_val(fr.take(if j - k - 1 >= 4 { 4int } else { j - k - 1 })),
            fv <= 9999,
            digits_prefix_len(s@) == k,
            s@[k as int] == '.',
            forall|j2: int| 0 <= j2 < k ==> is_digit(#[trigger] s@[j2]),
            iv == sat_cap(digits_val(dec_int_part(s@))),
        ensures
            j == n,
            forall|m: int| 0 <= m < fr.len() ==> is_digit(#[trigger] fr[m]),
            fv == digits_val(fr.take(if fr.len() >= 4 { 4int } else { fr.len() as int })),
            fv <= 9999,
        decreases n - j,
    {
        if j == n {
            break ;
        }
        let c = s.get_char(j);
        proof {
            assert(fr[j - k - 1] == s@[j as int]);
        }
        if !is_digit_char(c) {
            proof {
                assert(!all_digits(fr));
                assert(!is_decimal(s@));
            }
            return 0;
        }
        if j - (k + 1) < 4 {
            let d: u64 = ((c as u32) - ('0' as u32)) as u64;
            proof {
                let cnt = j - k - 1;
                let prev = fr.take(cnt as int);
                let cur = fr.take(cnt as int + 1);
                assert(cur.drop_last() =~= prev);
                assert(cur.last() == fr[cnt as int]);
                assert(digits_val(cur) == digits_val(prev) * 10 + digit_val(fr[cnt as int]));
                assert(all_digits(prev)) by {
                    assert(forall|m: int| 0 <= m < prev.len() ==> prev[m] == #[trigger] fr[m]);
                }
                lemma_digits_val_bound(prev);
                reveal_with_fuel(pow10, 5);
            }
            fv = fv * 10 + d;
        } else {
            proof {
                assert(fr.take(if j + 1 - k - 1 >= 4 { 4int } else { j + 1 - k - 1 }) =~= fr.take(
                    4,
                ));
            }
        }
        j = j + 1;
    }
    proof {
        assert(all_digits(fr));
        assert(is_decimal(s@));
        assert(dec_frac_part(s@) == fr);
    }
    let flen: usize = n - (k + 1);
    let f4: u64 = if flen >= 4 {
        fv
    } else if flen == 3 {
        proof {
            assert(fr.take(fr.len() as int) =~= fr);
        }
        fv * 10
    } else if flen == 2 {
        proof {
            assert(fr.take(fr.len() as int) =~= fr);
        }
        fv * 100
    } else {
        proof {
            assert(fr.take(fr.len() as int) =~= fr);
        }
        fv * 1000
    };
    proof {
        assert(f4 == frac_val_e4(fr));
        if digits_val(dec_int_part(s@)) < AMOUNT_INT_CAP {
            assert(frac_val_e4(fr) <= 9999) by {
                if fr.len() >= 4 {
                    assert(all_digits(fr.take(4))) by {
                        assert(forall|m: int|
                            0 <= m < 4 ==> fr.take(4)[m] == #[trigger] fr[m]);
                    }
                    lemma_digits_val_bound(fr.take(4));
                } else {
                    lemma_digits_val_bound(fr);
                }
                reveal_with_fuel(pow10, 5);
            }
        }
    }
    if iv >= AMOUNT_INT_CAP {
        AMOUNT_MAX
    } else {
        iv * 10000 + f4
    }
}

/// Parses a month cell text by truncating a well-formed decimal to its
/// integer part, saturating at `u32::MAX`; malformed text counts as zero.
pub fn parse_month(s: &str) -> (r: u32)
    ensures
        r == spec_month(s@),
{
    let n: usize = s.unicode_len();
    let (k, iv): (usize, u64) = digit_run(s, 0);
    proof {
        lemma_digits_prefix_len(s@, k as nat);
        assert(s@.subrange(0, k as int) =~= dec_int_part(s@));
    }
    if k == 0 {
        return 0;
    }
    if k < n {
        if s.get_char(k) != '.' {
            return 0;
        }
        if k + 1 == n {
            return 0;
        }
        let (e2, _fv): (usize, u64) = digit_run(s, k + 1);
        if e2 < n {
            proof {
                let fr = s@.skip(k as int + 1);
                assert(fr[e2 - k - 1] == s@[e2 as int]);
                assert(!all_digits(fr));
                assert(!is_decimal(s@));
            }
            return 0;
        }
        proof {
            let fr = s@.skip(k as int + 1);
            assert(forall|m: int|
                0 <= m < fr.len() ==> #[trigger] fr[m] == s@[m + k + 1] && is_digit(s@[m + k
                    + 1]));
            assert(all_digits(fr));
            assert(is_decimal(s@));
        }
    }
    if iv > 0xFFFF_FFFF {
        u32::MAX
    } else {
        iv as u32
    }
}

} // verus!
