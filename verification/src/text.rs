//! Character-level utilities: whitespace trimming, splitting on a separator,
//! prefix tests, and ASCII-case-insensitive comparison, each specified over
//! `Seq<char>` views.

use vstd::prelude::*;

verus! {

/// A character counts as whitespace exactly when trimming removes it:
/// the characters with the Unicode `White_Space` property.
pub open spec fn spec_is_space(c: char) -> bool {
    ||| c == ' '
    ||| ('\u{09}' <= c && c <= '\u{0D}')
    ||| c == '\u{85}'
    ||| c == '\u{A0}'
    ||| c == '\u{1680}'
    ||| ('\u{2000}' <= c && c <= '\u{200A}')
    ||| c == '\u{2028}'
    ||| c == '\u{2029}'
    ||| c == '\u{202F}'
    ||| c == '\u{205F}'
    ||| c == '\u{3000}'
}

pub fn is_space(c: char) -> (b: bool)
    ensures
        b == spec_is_space(c),
{
    c == ' ' || ('\u{09}' <= c && c <= '\u{0D}') || c == '\u{85}' || c == '\u{A0}'
        || c == '\u{1680}' || ('\u{2000}' <= c && c <= '\u{200A}') || c == '\u{2028}'
        || c == '\u{2029}' || c == '\u{202F}' || c == '\u{205F}' || c == '\u{3000}'
}

/// What is left after removing leading whitespace.
pub open spec fn spec_trim_start(s: Seq<char>) -> Seq<char>
    decreases s.len(),
{
    if s.len() > 0 && spec_is_space(s[0]) {
        spec_trim_start(s.drop_first())
    } else {
        s
    }
}

/// What is left after removing trailing whitespace.
pub open spec fn spec_trim_end(s: Seq<char>) -> Seq<char>
    decreases s.len(),
{
    if s.len() > 0 && spec_is_space(s.last()) {
        spec_trim_end(s.drop_last())
    } else {
        s
    }
}

/// What is left after removing leading and trailing whitespace.
pub open spec fn spec_trim(s: Seq<char>) -> Seq<char> {
    spec_trim_end(spec_trim_start(s))
}

proof fn lemma_trim_start_skip(s: Seq<char>, lo: int)
    requires
        0 <= lo <= s.len(),
        forall|j: int| 0 <= j < lo ==> spec_is_space(s[j]),
    ensures
        spec_trim_start(s) == spec_trim_start(s.skip(lo)),
    decreases lo,
{
    if lo > 0 {
        assert(spec_trim_start(s) == spec_trim_start(s.drop_first()));
        assert(s.drop_first().skip(lo - 1) =~= s.skip(lo));
        lemma_trim_start_skip(s.drop_first(), lo - 1);
    } else {
        assert(s.skip(0) =~= s);
    }
}

proof fn lemma_trim_end_take(s: Seq<char>, hi: int)
    requires
        0 <= hi <= s.len(),
        forall|j: int| hi <= j < s.len() ==> spec_is_space(s[j]),
    ensures
        spec_trim_end(s) == spec_trim_end(s.take(hi)),
    decreases s.len() - hi,
{
    if hi < s.len() {
        assert(spec_is_space(s.last()));
        assert(spec_trim_end(s) == spec_trim_end(s.drop_last()));
        assert(s.drop_last().take(hi) =~= s.take(hi));
        lemma_trim_end_take(s.drop_last(), hi);
    } else {
        assert(s.take(hi) =~= s);
    }
}

/// Trim the ends of `s`, as the specification `spec_trim` describes.
pub fn trim_str(s: &str) -> (t: String)
    ensures
        t@ == spec_trim(s@),
{
    let n = s.unicode_len();
    let mut lo: usize = 0;
    while lo < n && is_space(s.get_char(lo))
        invariant
            n == s@.len(),
            0 <= lo <= n,
            forall|j: int| 0 <= j < lo ==> spec_is_space(s@[j]),
        decreases n - lo,
    {
        lo += 1;
    }
    let mut hi: usize = n;
    while hi > lo && is_space(s.get_char(hi - 1))
        invariant
            n == s@.len(),
            0 <= lo <= hi <= n,
            forall|j: int| 0 <= j < lo ==> spec_is_space(s@[j]),
            forall|j: int| hi <= j < n ==> spec_is_space(s@[j]),
        decreases hi,
    {
        hi -= 1;
    }
    proof {
        lemma_trim_start_skip(s@, lo as int);
        if lo < n {
            // the scan stopped on a non-space, so the remainder starts exactly at lo
            assert(!spec_is_space(s@[lo as int]));
            assert(s@.skip(lo as int)[0] == s@[lo as int]);
            assert(spec_trim_start(s@.skip(lo as int)) == s@.skip(lo as int));
        } else {
            assert(s@.skip(lo as int) =~= Seq::<char>::empty());
            assert(spec_trim_start(s@.skip(lo as int)) == s@.skip(lo as int));
        }
        let rest = s@.skip(lo as int);
        lemma_trim_end_take(rest, hi - lo);
        if hi > lo {
            assert(!spec_is_space(s@[hi - 1]));
            assert(rest.take(hi - lo).last() == s@[hi - 1]);
            assert(spec_trim_end(rest.take(hi - lo)) == rest.take(hi - lo));
        } else {
            assert(rest.take(hi - lo) =~= Seq::<char>::empty());
            assert(spec_trim_end(rest.take(hi - lo)) == rest.take(hi - lo));
        }
        assert(rest.take(hi - lo) =~= s@.subrange(lo as int, hi as int));
    }
    s.substring_char(lo, hi).to_owned()
}

/// Index of the first occurrence of `sep` in `s`, or `s.len()` when absent.
pub open spec fn spec_find_sep(s: Seq<char>, sep: char) -> nat
    decreases s.len(),
{
    if s.len() == 0 {
        0
    } else if s[0] == sep {
        0
    } else {
        1 + spec_find_sep(s.drop_first(), sep)
    }
}

/// The position where a scan stopped determines `spec_find_sep`.
pub proof fn lemma_find_sep_unique(s: Seq<char>, sep: char, i: int)
    requires
        0 <= i <= s.len(),
        forall|j: int| 0 <= j < i ==> s[j] != sep,
        i < s.len() ==> s[i] == sep,
    ensures
        spec_find_sep(s, sep) == i,
    decreases s.len(),
{
    if i == 0 {
    } else {
        assert(s[0] != sep);
        let t = s.drop_first();
        assert(forall|j: int| 0 <= j < i - 1 ==> t[j] == s[j + 1] && s[j + 1] != sep);
        assert(i - 1 < t.len() ==> t[i - 1] == s[i]);
        lemma_find_sep_unique(t, sep, i - 1);
    }
}

/// The segments of `s` between occurrences of `sep`: splitting never yields
/// an empty list, and a trailing separator contributes an empty last segment.
pub open spec fn spec_split(s: Seq<char>, sep: char) -> Seq<Seq<char>>
    decreases s.len(),
{
    let i = spec_find_sep(s, sep);
    if i >= s.len() {
        seq![s]
    } else {
        seq![s.take(i as int)] + spec_split(s.skip(i as int + 1), sep)
    }
}

/// Scan `s` from position `from` for the next occurrence of `sep`.
fn find_sep(s: &str, from: usize, sep: char) -> (r: usize)
    requires
        from <= s@.len(),
    ensures
        from <= r <= s@.len(),
        forall|j: int| from <= j < r ==> s@[j] != sep,
        r < s@.len() ==> s@[r as int] == sep,
{
    let n = s.unicode_len();
    let mut i = from;
    while i < n
        invariant
            from <= i <= n,
            n == s@.len(),
            forall|j: int| from <= j < i ==> s@[j] != sep,
        decreases n - i,
    {
        if s.get_char(i) == sep {
            return i;
        }
        i += 1;
    }
    i
}

/// Split `s` on every occurrence of `sep`, as `spec_split` describes.
pub fn split_on(s: &str, sep: char) -> (parts: Vec<String>)
    ensures
        parts@.map_values(|p: String| p@) == spec_split(s@, sep),
{
    let n = s.unicode_len();
    let mut parts: Vec<String> = Vec::new();
    let mut start: usize = 0;
    proof {
        assert(s@.skip(0) =~= s@);
        assert(parts@.map_values(|p: String| p@) =~= Seq::<Seq<char>>::empty());
        assert(Seq::<Seq<char>>::empty() + spec_split(s@, sep) =~= spec_split(s@, sep));
    }
    loop
        invariant_except_break
            spec_split(s@, sep) == parts@.map_values(|p: String| p@) + spec_split(
                s@.skip(start as int),
                sep,
            ),
        invariant
            0 <= start <= n,
            n == s@.len(),
        ensures
            spec_split(s@, sep) == parts@.map_values(|p: String| p@),
        decreases n - start,
    {
        let r = find_sep(s, start, sep);
        let ghost rest = s@.skip(start as int);
        proof {
            assert(forall|j: int| 0 <= j < r - start ==> rest[j] == s@[j + start]);
            assert(r < n ==> rest[r - start] == s@[r as int]);
            lemma_find_sep_unique(rest, sep, r - start);
        }
        if r < n {
            let piece = s.substring_char(start, r).to_owned();
            proof {
                assert(rest.take(r - start) =~= s@.subrange(start as int, r as int));
                assert(rest.skip(r - start + 1) =~= s@.skip(r + 1));
                assert((parts@ + seq![piece]).map_values(|p: String| p@) =~= parts@.map_values(
                    |p: String| p@,
                ) + seq![piece@]);
                assert(parts@.push(piece) =~= parts@ + seq![piece]);
                assert(spec_split(rest, sep) == seq![piece@] + spec_split(s@.skip(r + 1), sep));
                assert(parts@.map_values(|p: String| p@) + spec_split(rest, sep) =~= (parts@
                    + seq![piece]).map_values(|p: String| p@) + spec_split(s@.skip(r + 1), sep));
            }
            parts.push(piece);
            start = r + 1;
        } else {
            let piece = s.substring_char(start, n).to_owned();
            proof {
                assert(rest.take(rest.len() as int) =~= rest);
                assert(rest =~= s@.subrange(start as int, n as int));
                assert(spec_split(rest, sep) == seq![piece@]);
                assert((parts@ + seq![piece]).map_values(|p: String| p@) =~= parts@.map_values(
                    |p: String| p@,
                ) + seq![piece@]);
                assert(parts@.push(piece) =~= parts@ + seq![piece]);
            }
            parts.push(piece);
            break;
        }
    }
    parts
}

/// `p` stands at the front of `s`.
pub open spec fn spec_starts_with(s: Seq<char>, p: Seq<char>) -> bool {
    p.len() <= s.len() && forall|i: int| 0 <= i < p.len() ==> s[i] == p[i]
}

pub fn starts_with(s: &str, p: &str) -> (b: bool)
    ensures
        b == spec_starts_with(s@, p@),
{
    let n = s.unicode_len();
    let m = p.unicode_len();
    if m > n {
        return false;
    }
    let mut i: usize = 0;
    while i < m
        invariant
            0 <= i <= m <= n,
            n == s@.len(),
            m == p@.len(),
            forall|j: int| 0 <= j < i ==> s@[j] == p@[j],
        decreases m - i,
    {
        if s.get_char(i) != p.get_char(i) {
            return false;
        }
        i += 1;
    }
    true
}

/// The code point of `c` after ASCII lower-casing: the letters `A` through
/// `Z` map onto `a` through `z`, every other character is unchanged.
pub open spec fn spec_lower(c: char) -> int {
    if 'A' <= c && c <= 'Z' {
        c as int + 32
    } else {
        c as int
    }
}

fn lower_code(c: char) -> (r: u32)
    ensures
        r as int == spec_lower(c),
{
    if 'A' <= c && c <= 'Z' {
        c as u32 + 32
    } else {
        c as u32
    }
}

/// The two texts are equal up to ASCII case.
pub open spec fn spec_eq_ci(a: Seq<char>, b: Seq<char>) -> bool {
    a.len() == b.len() && forall|i: int| 0 <= i < a.len() ==> spec_lower(a[i]) == spec_lower(b[i])
}

/// Compare the tail of `s` that starts at `from` against `w`, up to ASCII
/// case.
pub fn tail_eq_ci(s: &str, from: usize, w: &str) -> (r: bool)
    requires
        from <= s@.len(),
    ensures
        r == spec_eq_ci(s@.skip(from as int), w@),
{
    let n = s.unicode_len();
    let m = w.unicode_len();
    if n - from != m {
        return false;
    }
    let mut i: usize = 0;
    while i < m
        invariant
            0 <= i <= m,
            from + m == n,
            n == s@.len(),
            m == w@.len(),
            forall|j: int| 0 <= j < i ==> spec_lower(s@[from + j]) == spec_lower(w@[j]),
        decreases m - i,
    {
        if lower_code(s.get_char(from + i)) != lower_code(w.get_char(i)) {
            proof {
                assert(s@.skip(from as int)[i as int] == s@[from + i]);
            }
            return false;
        }
        i += 1;
    }
    proof {
        assert(forall|j: int|
            0 <= j < m ==> s@.skip(from as int)[j] == s@[from + j]);
    }
    true
}

pub fn eq_ignore_case(a: &str, b: &str) -> (r: bool)
    ensures
        r == spec_eq_ci(a@, b@),
{
    let n = a.unicode_len();
    let m = b.unicode_len();
    if n != m {
        return false;
    }
    let mut i: usize = 0;
    while i < n
        invariant
            0 <= i <= n,
            n == a@.len(),
            n == b@.len(),
            forall|j: int| 0 <= j < i ==> spec_lower(a@[j]) == spec_lower(b@[j]),
        decreases n - i,
    {
        if lower_code(a.get_char(i)) != lower_code(b.get_char(i)) {
            return false;
        }
        i += 1;
    }
    true
}

} // verus!
