//! Ranking the accepted records: a stable sort by duration, longest first,
//! and truncation to the requested number of records.

use vstd::multiset::Multiset;
use vstd::prelude::*;

use crate::mission::Mission;

verus! {

/// Durations never grow along the sequence.
pub open spec fn spec_sorted_desc(s: Seq<Mission>) -> bool {
    forall|i: int, j: int| 0 <= i < j < s.len() ==> s[i].duration >= s[j].duration
}

/// Where a record enters a ranking: after every record whose duration is at
/// least its own, before the rest — so records of equal duration keep their
/// earlier order.
pub open spec fn spec_insert_desc(s: Seq<Mission>, m: Mission) -> Seq<Mission>
    decreases s.len(),
{
    if s.len() == 0 {
        seq![m]
    } else if m.duration > s[0].duration {
        seq![m] + s
    } else {
        seq![s[0]] + spec_insert_desc(s.drop_first(), m)
    }
}

/// The records ordered by duration descending, stably: each record is
/// inserted, in encounter order, after the records of at least its
/// duration.
pub open spec fn spec_sort_desc(s: Seq<Mission>) -> Seq<Mission>
    decreases s.len(),
{
    if s.len() == 0 {
        Seq::<Mission>::empty()
    } else {
        spec_insert_desc(spec_sort_desc(s.drop_last()), s.last())
    }
}

proof fn lemma_insert_desc_len(s: Seq<Mission>, m: Mission)
    ensures
        spec_insert_desc(s, m).len() == s.len() + 1,
    decreases s.len(),
{
    if s.len() > 0 && !(m.duration > s[0].duration) {
        lemma_insert_desc_len(s.drop_first(), m);
    }
}

/// Ranking loses no record and invents none.
pub proof fn lemma_sort_desc_len(s: Seq<Mission>)
    ensures
        spec_sort_desc(s).len() == s.len(),
    decreases s.len(),
{
    if s.len() > 0 {
        lemma_sort_desc_len(s.drop_last());
        lemma_insert_desc_len(spec_sort_desc(s.drop_last()), s.last());
    }
}

/// A positional insertion that walked past exactly the records of at least
/// `m`'s duration lands where `spec_insert_desc` says.
proof fn lemma_insert_desc_at(s: Seq<Mission>, m: Mission, j: int)
    requires
        0 <= j <= s.len(),
        forall|q: int| 0 <= q < j ==> s[q].duration >= m.duration,
        j < s.len() ==> s[j].duration < m.duration,
    ensures
        spec_insert_desc(s, m) == s.insert(j, m),
    decreases s.len(),
{
    if j == 0 {
        if s.len() == 0 {
            assert(spec_insert_desc(s, m) =~= s.insert(0, m));
        } else {
            assert(m.duration > s[0].duration);
            assert(seq![m] + s =~= s.insert(0, m));
        }
    } else {
        assert(s[0].duration >= m.duration);
        let t = s.drop_first();
        assert(forall|q: int| 0 <= q < j - 1 ==> t[q] == s[q + 1]);
        assert(j - 1 < t.len() ==> t[j - 1] == s[j]);
        lemma_insert_desc_at(t, m, j - 1);
        assert(seq![s[0]] + t.insert(j - 1, m) =~= s.insert(j, m));
    }
}

proof fn lemma_insert_desc_bound(s: Seq<Mission>, m: Mission, d: u32)
    requires
        forall|q: int| 0 <= q < s.len() ==> s[q].duration <= d,
        m.duration <= d,
    ensures
        forall|k: int|
            0 <= k < spec_insert_desc(s, m).len() ==> spec_insert_desc(s, m)[k].duration <= d,
    decreases s.len(),
{
    if s.len() > 0 && !(m.duration > s[0].duration) {
        let t = s.drop_first();
        assert(forall|q: int| 0 <= q < s.len() - 1 ==> t[q] == s[q + 1]);
        lemma_insert_desc_bound(t, m, d);
        assert(forall|k: int|
            1 <= k < spec_insert_desc(s, m).len() ==> spec_insert_desc(s, m)[k]
                == spec_insert_desc(t, m)[k - 1]);
    }
}

proof fn lemma_insert_desc_sorted(s: Seq<Mission>, m: Mission)
    requires
        spec_sorted_desc(s),
    ensures
        spec_sorted_desc(spec_insert_desc(s, m)),
    decreases s.len(),
{
    if s.len() == 0 {
    } else if m.duration > s[0].duration {
        assert(forall|k: int|
            1 <= k < (seq![m] + s).len() ==> (seq![m] + s)[k] == s[k - 1]);
    } else {
        let t = s.drop_first();
        assert(forall|q: int| 0 <= q < t.len() ==> t[q] == s[q + 1]);
        lemma_insert_desc_sorted(t, m);
        lemma_insert_desc_bound(t, m, s[0].duration);
        let r = seq![s[0]] + spec_insert_desc(t, m);
        assert(forall|k: int| 1 <= k < r.len() ==> r[k] == spec_insert_desc(t, m)[k - 1]);
    }
}

/// The ranking is ordered by duration, longest first.
pub proof fn lemma_sort_desc_sorted(s: Seq<Mission>)
    ensures
        spec_sorted_desc(spec_sort_desc(s)),
    decreases s.len(),
{
    if s.len() > 0 {
        lemma_sort_desc_sorted(s.drop_last());
        lemma_insert_desc_sorted(spec_sort_desc(s.drop_last()), s.last());
    }
}

proof fn lemma_to_multiset_cons(u: Seq<Mission>, x: Mission)
    ensures
        (seq![x] + u).to_multiset() == u.to_multiset().insert(x),
{
    let t = seq![x] + u;
    t.to_multiset_ensures();
    u.to_multiset_ensures();
    assert(t.remove(0) =~= u);
    assert(t.to_multiset().remove(x) =~= u.to_multiset());
    assert(t.contains(x));
    assert(t.to_multiset().count(x) > 0);
    assert(t.to_multiset() =~= u.to_multiset().insert(x));
}

proof fn lemma_insert_desc_multiset(s: Seq<Mission>, m: Mission)
    ensures
        spec_insert_desc(s, m).to_multiset() == s.to_multiset().insert(m),
    decreases s.len(),
{
    if s.len() == 0 {
        s.to_multiset_ensures();
        assert(s.to_multiset().len() == 0);
        assert(s.to_multiset() =~= Multiset::<Mission>::empty());
        assert(seq![m] =~= s.push(m));
        s.to_multiset_ensures();
    } else if m.duration > s[0].duration {
        lemma_to_multiset_cons(s, m);
    } else {
        let t = s.drop_first();
        lemma_insert_desc_multiset(t, m);
        lemma_to_multiset_cons(spec_insert_desc(t, m), m);
        lemma_to_multiset_cons(spec_insert_desc(t, m), s[0]);
        lemma_to_multiset_cons(t, s[0]);
        assert(seq![s[0]] + t =~= s);
        assert(spec_insert_desc(s, m).to_multiset() == spec_insert_desc(t, m).to_multiset().insert(
            s[0],
        ));
        assert(spec_insert_desc(s, m).to_multiset() == t.to_multiset().insert(m).insert(s[0]));
        assert(t.to_multiset().insert(m).insert(s[0]) =~= t.to_multiset().insert(s[0]).insert(m));
        assert(s.to_multiset() == t.to_multiset().insert(s[0]));
    }
}

/// The ranking is a permutation of the accepted records: nothing is lost,
/// nothing is invented, multiplicity included.
pub proof fn lemma_sort_desc_permutation(s: Seq<Mission>)
    ensures
        spec_sort_desc(s).to_multiset() == s.to_multiset(),
    decreases s.len(),
{
    if s.len() == 0 {
        assert(s =~= Seq::<Mission>::empty());
    } else {
        let d = s.drop_last();
        lemma_sort_desc_permutation(d);
        lemma_insert_desc_multiset(spec_sort_desc(d), s.last());
        d.to_multiset_ensures();
        assert(d.push(s.last()) =~= s);
        assert(d.push(s.last()).to_multiset() == d.to_multiset().insert(s.last()));
    }
}

/// Sort the records by duration, longest first, keeping encounter order
/// among equal durations, and keep only the first `top` of them.
pub fn rank_missions(missions: Vec<Mission>, top: usize) -> (r: Vec<Mission>)
    ensures
        r@ == spec_sort_desc(missions@).take(
            if top as int <= missions@.len() {
                top as int
            } else {
                missions@.len() as int
            },
        ),
{
    let ghost orig = missions@;
    let mut rest = missions;
    let mut out: Vec<Mission> = Vec::new();
    proof {
        assert(orig.take(0) =~= Seq::<Mission>::empty());
        assert(orig.skip(0) =~= orig);
    }
    while rest.len() > 0
        invariant
            rest@.len() <= orig.len(),
            rest@ == orig.skip(orig.len() - rest@.len()),
            out@ == spec_sort_desc(orig.take(orig.len() - rest@.len())),
        decreases rest@.len(),
    {
        let ghost k = orig.len() - rest@.len();
        let m = rest.remove(0);
        proof {
            assert(m == orig.skip(k)[0]);
            assert(m == orig[k as int]);
            assert(rest@ =~= orig.skip(k + 1));
        }
        let mut j: usize = 0;
        while j < out.len() && out[j].duration >= m.duration
            invariant
                0 <= j <= out@.len(),
                forall|q: int| 0 <= q < j ==> out@[q].duration >= m.duration,
            decreases out@.len() - j,
        {
            j += 1;
        }
        proof {
            lemma_insert_desc_at(out@, m, j as int);
            assert(orig.take(k + 1).drop_last() =~= orig.take(k as int));
            assert(orig.take(k + 1).last() == orig[k as int]);
        }
        out.insert(j, m);
    }
    proof {
        assert(orig.take(orig.len() as int) =~= orig);
        lemma_sort_desc_len(orig);
    }
    let keep = if top < out.len() {
        top
    } else {
        out.len()
    };
    out.truncate(keep);
    proof {
        assert(out@ =~= spec_sort_desc(orig).take(
            if top as int <= orig.len() {
                top as int
            } else {
                orig.len() as int
            },
        ));
    }
    out
}

} // verus!
