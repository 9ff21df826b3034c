//! Recognition of the numeric field tokens: non-negative integers (an
//! optional `+` sign followed by decimal digits, within `u32` range) and
//! floating-point tokens (the grammar that `f64` parsing documents: an
//! optional sign, then one of the special words `inf`, `infinity`, `nan`
//! matched case-insensitively, or a digit string with an optional point and
//! an optional exponent part).

use vstd::prelude::*;

use crate::text::spec_eq_ci;
use crate::text::tail_eq_ci;

verus! {

pub open spec fn spec_is_digit(c: char) -> bool {
    '0' <= c && c <= '9'
}

pub fn is_digit(c: char) -> (b: bool)
    ensures
        b == spec_is_digit(c),
{
    '0' <= c && c <= '9'
}

pub open spec fn all_digits(s: Seq<char>) -> bool {
    forall|i: int| 0 <= i < s.len() ==> spec_is_digit(s[i])
}

/// The value of a digit string read in base ten.
pub open spec fn digits_val(s: Seq<char>) -> int
    recommends
        all_digits(s),
    decreases s.len(),
{
    if s.len() == 0 {
        0
    } else {
        digits_val(s.drop_last()) * 10 + (s.last() as int - '0' as int)
    }
}

proof fn lemma_digits_val_nonneg(s: Seq<char>)
    requires
        all_digits(s),
    ensures
        digits_val(s) >= 0,
    decreases s.len(),
{
    if s.len() > 0 {
        assert(forall|j: int| 0 <= j < s.len() - 1 ==> s.drop_last()[j] == s[j]);
        lemma_digits_val_nonneg(s.drop_last());
        assert(spec_is_digit(s.last()));
    }
}

/// Appending digits never lowers the value of a digit string.
pub proof fn lemma_digits_val_mono(s: Seq<char>, k: int)
    requires
        0 <= k <= s.len(),
        all_digits(s),
    ensures
        digits_val(s.take(k)) <= digits_val(s),
    decreases s.len() - k,
{
    if k == s.len() {
        assert(s.take(k) =~= s);
    } else {
        assert(s.take(k + 1).drop_last() =~= s.take(k));
        assert(s.take(k + 1).last() == s[k]);
        assert(forall|j: int| 0 <= j < k ==> s.take(k)[j] == s[j]);
        lemma_digits_val_nonneg(s.take(k));
        assert(spec_is_digit(s[k]));
        assert(digits_val(s.take(k + 1)) >= digits_val(s.take(k)));
        lemma_digits_val_mono(s, k + 1);
    }
}

/// The integer a field token denotes: an optional `+` sign, then at least
/// one decimal digit, the whole value within `u32` range; anything else is
/// rejected.
pub open spec fn spec_parse_u32(s: Seq<char>) -> Option<u32> {
    let t = if s.len() > 0 && s[0] == '+' {
        s.drop_first()
    } else {
        s
    };
    if t.len() == 0 || !all_digits(t) {
        None
    } else if digits_val(t) > u32::MAX as int {
        None
    } else {
        Some(digits_val(t) as u32)
    }
}

/// Read a non-negative integer field, as `spec_parse_u32` describes.
pub fn parse_u32(s: &str) -> (r: Option<u32>)
    ensures
        r == spec_parse_u32(s@),
{
    let n = s.unicode_len();
    let mut i: usize = 0;
    if n > 0 && s.get_char(0) == '+' {
        i = 1;
    }
    let ghost t = if s@.len() > 0 && s@[0] == '+' {
        s@.drop_first()
    } else {
        s@
    };
    proof {
        assert(t =~= s@.skip(i as int));
    }
    if i == n {
        return None;
    }
    let mut acc: u64 = 0;
    let mut j = i;
    proof {
        assert(t.take(0) =~= Seq::<char>::empty());
    }
    while j < n
        invariant
            i <= j <= n,
            n == s@.len(),
            t == s@.skip(i as int),
            t == (if s@.len() > 0 && s@[0] == '+' {
                s@.drop_first()
            } else {
                s@
            }),
            acc as int == digits_val(t.take(j - i)),
            acc <= u32::MAX as u64,
            forall|k: int| 0 <= k < j - i ==> spec_is_digit(t[k]),
        decreases n - j,
    {
        let c = s.get_char(j);
        proof {
            assert(t[j - i] == s@[j as int]);
        }
        if !is_digit(c) {
            proof {
                assert(t.len() == n - i);
                assert(0 <= j - i < t.len());
                assert(!spec_is_digit(t[j - i]));
                assert(!all_digits(t));
                assert(spec_parse_u32(s@) is None);
            }
            return None;
        }
        let d: u64 = c as u64 - 48;
        proof {
            assert(t.take(j - i + 1).drop_last() =~= t.take(j - i));
            assert(t.take(j - i + 1).last() == t[j - i]);
        }
        acc = acc * 10 + d;
        proof {
            assert(acc as int == digits_val(t.take(j - i)) * 10 + (t[j - i] as int - '0' as int));
            assert(acc as int == digits_val(t.take(j - i + 1)));
        }
        if acc > u32::MAX as u64 {
            proof {
                if all_digits(t) {
                    lemma_digits_val_mono(t, j - i + 1);
                    assert(digits_val(t) > u32::MAX as int);
                }
                assert(spec_parse_u32(s@) is None);
            }
            return None;
        }
        j += 1;
    }
    proof {
        assert(t.take(n - i) =~= t);
    }
    Some(acc as u32)
}

/// What is left after removing one leading `+` or `-` sign.
pub open spec fn strip_sign(s: Seq<char>) -> Seq<char> {
    if s.len() > 0 && (s[0] == '+' || s[0] == '-') {
        s.drop_first()
    } else {
        s
    }
}

/// The length of the run of digits at the front of `s`.
pub open spec fn leading_digits(s: Seq<char>) -> nat
    decreases s.len(),
{
    if s.len() > 0 && spec_is_digit(s[0]) {
        1 + leading_digits(s.drop_first())
    } else {
        0
    }
}

pub proof fn lemma_leading_digits(s: Seq<char>)
    ensures
        leading_digits(s) <= s.len(),
        forall|j: int| 0 <= j < leading_digits(s) ==> spec_is_digit(s[j]),
        leading_digits(s) < s.len() ==> !spec_is_digit(s[leading_digits(s) as int]),
    decreases s.len(),
{
    if s.len() > 0 && spec_is_digit(s[0]) {
        lemma_leading_digits(s.drop_first());
        let d = leading_digits(s);
        assert(forall|j: int| 1 <= j < d ==> s[j] == s.drop_first()[j - 1]);
        assert(d < s.len() ==> s[d as int] == s.drop_first()[d - 1]);
    }
}

/// The position where a digit scan stopped determines `leading_digits`.
pub proof fn lemma_leading_digits_unique(s: Seq<char>, i: int)
    requires
        0 <= i <= s.len(),
        forall|j: int| 0 <= j < i ==> spec_is_digit(s[j]),
        i < s.len() ==> !spec_is_digit(s[i]),
    ensures
        leading_digits(s) == i,
    decreases s.len(),
{
    if i == 0 {
    } else {
        let t = s.drop_first();
        assert(forall|j: int| 0 <= j < i - 1 ==> t[j] == s[j + 1] && spec_is_digit(s[j + 1]));
        assert(i - 1 < t.len() ==> t[i - 1] == s[i]);
        lemma_leading_digits_unique(t, i - 1);
    }
}

/// An exponent part after the `e`: an optional sign, then at least one digit.
pub open spec fn spec_is_exp_tail(s: Seq<char>) -> bool {
    let t = strip_sign(s);
    t.len() > 0 && all_digits(t)
}

/// A plain number: digits with an optional point (at least one digit on one
/// side of it), then an optional exponent part.
pub open spec fn spec_is_number_token(s: Seq<char>) -> bool {
    let d1 = leading_digits(s) as int;
    let r1 = s.skip(d1);
    if r1.len() > 0 && r1[0] == '.' {
        let d2 = leading_digits(r1.skip(1)) as int;
        let r2 = r1.skip(1 + d2);
        d1 + d2 > 0 && (r2.len() == 0 || ((r2[0] == 'e' || r2[0] == 'E') && spec_is_exp_tail(
            r2.skip(1),
        )))
    } else {
        d1 > 0 && (r1.len() == 0 || ((r1[0] == 'e' || r1[0] == 'E') && spec_is_exp_tail(
            r1.skip(1),
        )))
    }
}

/// A success-rate field is accepted exactly when it is a floating-point
/// token: an optional sign, then one of the special words or a number.
pub open spec fn spec_is_float_token(s: Seq<char>) -> bool {
    let t = strip_sign(s);
    ||| spec_eq_ci(t, seq!['i', 'n', 'f'])
    ||| spec_eq_ci(t, seq!['i', 'n', 'f', 'i', 'n', 'i', 't', 'y'])
    ||| spec_eq_ci(t, seq!['n', 'a', 'n'])
    ||| spec_is_number_token(t)
}

/// Scan the run of digits of `s` that starts at `from`.
fn digit_run(s: &str, from: usize) -> (end: usize)
    requires
        from <= s@.len(),
    ensures
        from <= end <= s@.len(),
        end - from == leading_digits(s@.skip(from as int)),
        forall|j: int| from <= j < end ==> spec_is_digit(s@[j]),
        end < s@.len() ==> !spec_is_digit(s@[end as int]),
{
    let n = s.unicode_len();
    let mut i = from;
    while i < n && is_digit(s.get_char(i))
        invariant
            from <= i <= n,
            n == s@.len(),
            forall|j: int| from <= j < i ==> spec_is_digit(s@[j]),
        decreases n - i,
    {
        i += 1;
    }
    proof {
        let rest = s@.skip(from as int);
        assert(forall|k: int| 0 <= k < i - from ==> rest[k] == s@[k + from]);
        assert(i < n ==> rest[i - from] == s@[i as int]);
        lemma_leading_digits_unique(rest, i - from);
    }
    i
}

/// Decide whether the tail of `s` that starts at `k0` is an exponent part.
fn is_exp_tail_from(s: &str, k0: usize) -> (b: bool)
    requires
        k0 <= s@.len(),
    ensures
        b == spec_is_exp_tail(s@.skip(k0 as int)),
{
    let n = s.unicode_len();
    let ghost u = s@.skip(k0 as int);
    let mut k = k0;
    if k < n {
        let cs = s.get_char(k);
        if cs == '+' || cs == '-' {
            k += 1;
        }
    }
    let ghost v = strip_sign(u);
    proof {
        if u.len() > 0 {
            assert(u[0] == s@[k0 as int]);
        }
        assert(v =~= s@.skip(k as int));
    }
    if k == n {
        // an exponent part without digits
        return false;
    }
    let e_end = digit_run(s, k);
    proof {
        lemma_leading_digits(v);
        if e_end == n {
            assert(leading_digits(v) == v.len());
        } else {
            assert(v[leading_digits(v) as int] == s@[e_end as int]);
            assert(!all_digits(v));
        }
    }
    e_end == n
}

/// Decide whether the tail of `s` that starts at `i` is a plain number.
fn is_number_token_from(s: &str, i: usize) -> (b: bool)
    requires
        i <= s@.len(),
    ensures
        b == spec_is_number_token(s@.skip(i as int)),
{
    let n = s.unicode_len();
    let ghost t = s@.skip(i as int);
    let d1_end = digit_run(s, i);
    let ghost d1 = leading_digits(t) as int;
    let ghost r1 = t.skip(d1);
    proof {
        assert(d1 == d1_end - i);
        assert(r1 =~= s@.skip(d1_end as int));
    }
    let mantissa_ok: bool;
    let j: usize;
    if d1_end < n && s.get_char(d1_end) == '.' {
        let d2_end = digit_run(s, d1_end + 1);
        mantissa_ok = d1_end > i || d2_end > d1_end + 1;
        j = d2_end;
        proof {
            assert(r1[0] == s@[d1_end as int]);
            assert(r1.skip(1) =~= s@.skip(d1_end + 1));
            let d2 = leading_digits(r1.skip(1)) as int;
            assert(d2 == d2_end - (d1_end + 1));
            assert(r1.skip(1 + d2) =~= s@.skip(d2_end as int));
        }
    } else {
        mantissa_ok = d1_end > i;
        j = d1_end;
        proof {
            if r1.len() > 0 {
                assert(r1[0] == s@[d1_end as int]);
            }
        }
    }
    let ghost r2 = s@.skip(j as int);
    if !mantissa_ok {
        return false;
    }
    if j == n {
        return true;
    }
    let c = s.get_char(j);
    proof {
        assert(r2[0] == s@[j as int]);
    }
    if !(c == 'e' || c == 'E') {
        return false;
    }
    proof {
        assert(r2.skip(1) =~= s@.skip(j + 1));
    }
    is_exp_tail_from(s, j + 1)
}

/// Decide whether `s` is a floating-point token, as `spec_is_float_token`
/// describes.
pub fn is_float_token(s: &str) -> (b: bool)
    ensures
        b == spec_is_float_token(s@),
{
    let n = s.unicode_len();
    let mut i: usize = 0;
    if n > 0 {
        let c0 = s.get_char(0);
        if c0 == '+' || c0 == '-' {
            i = 1;
        }
    }
    let ghost t = strip_sign(s@);
    proof {
        assert(t =~= s@.skip(i as int));
    }
    let sp1 = tail_eq_ci(s, i, "inf");
    let sp2 = tail_eq_ci(s, i, "infinity");
    let sp3 = tail_eq_ci(s, i, "nan");
    proof {
        reveal_strlit("inf");
        reveal_strlit("infinity");
        reveal_strlit("nan");
        assert("inf"@ =~= seq!['i', 'n', 'f']);
        assert("infinity"@ =~= seq!['i', 'n', 'f', 'i', 'n', 'i', 't', 'y']);
        assert("nan"@ =~= seq!['n', 'a', 'n']);
    }
    if sp1 || sp2 || sp3 {
        return true;
    }
    is_number_token_from(s, i)
}

} // verus!
