//! Ranking the repetition statistics: the most repeated commands first, ties
//! kept in the order in which they were recorded.

use vstd::prelude::*;
use crate::history::{entries_view, Entry, Statistics};

verus! {

/// The entries of `s` whose count is `c`, in order.
pub open spec fn with_count(s: Seq<(Seq<char>, int)>, c: int) -> Seq<(Seq<char>, int)>
    decreases s.len(),
{
    if s.len() == 0 {
        s
    } else if s.last().1 == c {
        with_count(s.drop_last(), c).push(s.last())
    } else {
        with_count(s.drop_last(), c)
    }
}

/// Counts never rise from one entry to a later one.
pub open spec fn sorted_by_count_desc(s: Seq<(Seq<char>, int)>) -> bool {
    forall|i: int, j: int| 0 <= i < j < s.len() ==> s[i].1 >= s[j].1
}

/// The number of leading entries whose count is at least `c`: where an entry
/// with count `c` goes after all entries that count as much or more.
pub open spec fn first_below(s: Seq<(Seq<char>, int)>, c: int) -> int
    decreases s.len(),
{
    if s.len() == 0 {
        0
    } else if s[0].1 < c {
        0
    } else {
        1 + first_below(s.drop_first(), c)
    }
}

/// The entries ordered by count, highest first; entries with equal counts
/// keep their order (a stable sort).
pub open spec fn rank_spec(s: Seq<(Seq<char>, int)>) -> Seq<(Seq<char>, int)>
    decreases s.len(),
{
    if s.len() == 0 {
        s
    } else {
        let r = rank_spec(s.drop_last());
        r.insert(first_below(r, s.last().1), s.last())
    }
}

/// `first_below` is a position within `s` before which every count is at
/// least `c`, and at which the count is below `c`.
pub proof fn lemma_first_below(s: Seq<(Seq<char>, int)>, c: int)
    ensures
        0 <= first_below(s, c) <= s.len(),
        forall|j: int| 0 <= j < first_below(s, c) ==> s[j].1 >= c,
        first_below(s, c) < s.len() ==> s[first_below(s, c)].1 < c,
    decreases s.len(),
{
    if s.len() > 0 && s[0].1 >= c {
        lemma_first_below(s.drop_first(), c);
        assert forall|j: int| 0 <= j < first_below(s, c) implies s[j].1 >= c by {
            if j > 0 {
                assert(s[j] == s.drop_first()[j - 1]);
            }
        }
    }
}

/// Selecting by count distributes over concatenation.
pub proof fn lemma_with_count_add(a: Seq<(Seq<char>, int)>, b: Seq<(Seq<char>, int)>, c: int)
    ensures
        with_count(a + b, c) == with_count(a, c) + with_count(b, c),
    decreases b.len(),
{
    if b.len() == 0 {
        assert(a + b =~= a);
        assert(with_count(a, c) + with_count(b, c) =~= with_count(a, c));
    } else {
        lemma_with_count_add(a, b.drop_last(), c);
        assert((a + b).drop_last() =~= a + b.drop_last());
        assert((a + b).last() == b.last());
        assert(with_count(a + b, c) =~= with_count(a, c) + with_count(b, c));
    }
}

/// Where no entry has count `c`, selecting by `c` gives nothing.
pub proof fn lemma_with_count_none(s: Seq<(Seq<char>, int)>, c: int)
    requires
        forall|j: int| 0 <= j < s.len() ==> s[j].1 != c,
    ensures
        with_count(s, c) == Seq::<(Seq<char>, int)>::empty(),
    decreases s.len(),
{
    if s.len() > 0 {
        lemma_with_count_none(s.drop_last(), c);
        assert(s[s.len() - 1].1 != c);
    }
}

/// The ranking is sorted by count, highest first, has as many entries as
/// the input, and holds, for every count, the entries with that count in
/// their original order.
pub proof fn lemma_rank_spec(s: Seq<(Seq<char>, int)>)
    ensures
        rank_spec(s).len() == s.len(),
        sorted_by_count_desc(rank_spec(s)),
        forall|c: int| #[trigger] with_count(rank_spec(s), c) == with_count(s, c),
    decreases s.len(),
{
    if s.len() > 0 {
        let init = s.drop_last();
        let x = s.last();
        lemma_rank_spec(init);
        let r = rank_spec(init);
        let p = first_below(r, x.1);
        lemma_first_below(r, x.1);
        let out = r.insert(p, x);
        r.insert_ensures(p, x);
        assert(out == rank_spec(s));
        assert forall|j: int| p <= j < r.len() implies r[j].1 < x.1 by {
            if j > p {
                assert(r[p].1 >= r[j].1);
            }
        }
        assert forall|i: int, j: int| 0 <= i < j < out.len() implies out[i].1 >= out[j].1 by {
            if i < p && j < p {
                assert(out[i] == r[i] && out[j] == r[j]);
            } else if i < p && j == p {
                assert(out[i] == r[i]);
            } else if i < p && j > p {
                assert(out[i] == r[i] && out[j] == r[j - 1]);
            } else if i == p {
                assert(out[j] == r[j - 1]);
            } else {
                assert(out[i] == r[i - 1] && out[j] == r[j - 1]);
            }
        }
        assert forall|c: int| #[trigger] with_count(out, c) == with_count(s, c) by {
            let front = r.subrange(0, p);
            let back = r.subrange(p, r.len() as int);
            assert(r =~= front + back);
            assert(out =~= front.push(x) + back);
            lemma_with_count_add(front.push(x), back, c);
            lemma_with_count_add(front, back, c);
            assert(front.push(x).drop_last() =~= front);
            if c == x.1 {
                assert forall|j: int| 0 <= j < back.len() implies back[j].1 != c by {
                    assert(back[j] == r[p + j]);
                }
                lemma_with_count_none(back, c);
                assert(with_count(front + back, c) =~= with_count(front, c));
                assert(with_count(out, c) =~= with_count(r, c).push(x));
            } else {
                assert(with_count(out, c) =~= with_count(r, c));
            }
        }
    }
}

/// A sequence sorted by count, highest first, that holds for every count the
/// same entries in the same order as `s`, is the ranking of `s`: the
/// ranking is the one stable sort.
pub proof fn lemma_rank_unique(s: Seq<(Seq<char>, int)>, t: Seq<(Seq<char>, int)>)
    requires
        sorted_by_count_desc(t),
        forall|c: int| #[trigger] with_count(t, c) == with_count(s, c),
    ensures
        t == rank_spec(s),
{
    lemma_rank_spec(s);
    lemma_sorted_determined(t, rank_spec(s));
}

/// An entry with count `c` makes selecting by `c` non-empty.
proof fn lemma_with_count_present(s: Seq<(Seq<char>, int)>, j: int)
    requires
        0 <= j < s.len(),
    ensures
        with_count(s, s[j].1).len() > 0,
    decreases s.len(),
{
    if j < s.len() - 1 {
        lemma_with_count_present(s.drop_last(), j);
        assert(s.drop_last()[j] == s[j]);
    }
}

/// Two sequences sorted by count, highest first, that agree on the entries
/// of every count, are equal.
proof fn lemma_sorted_determined(t: Seq<(Seq<char>, int)>, u: Seq<(Seq<char>, int)>)
    requires
        sorted_by_count_desc(t),
        sorted_by_count_desc(u),
        forall|c: int| #[trigger] with_count(t, c) == with_count(u, c),
    ensures
        t == u,
    decreases t.len() + u.len(),
{
    if t.len() == 0 && u.len() == 0 {
        assert(t =~= u);
    } else if t.len() == 0 {
        lemma_with_count_present(u, u.len() - 1);
        assert(with_count(t, u[u.len() - 1].1).len() == 0);
    } else if u.len() == 0 {
        lemma_with_count_present(t, t.len() - 1);
        assert(with_count(u, t[t.len() - 1].1).len() == 0);
    } else {
        let tl = t.last();
        let ul = u.last();
        assert(tl.1 == ul.1) by {
            if tl.1 < ul.1 {
                lemma_with_count_present(t, t.len() - 1);
                assert forall|j: int| 0 <= j < u.len() implies u[j].1 != tl.1 by {
                    if j < u.len() - 1 {
                        assert(u[j].1 >= u[u.len() - 1].1);
                    }
                }
                lemma_with_count_none(u, tl.1);
                assert(with_count(u, tl.1) == with_count(t, tl.1));
            } else if ul.1 < tl.1 {
                lemma_with_count_present(u, u.len() - 1);
                assert forall|j: int| 0 <= j < t.len() implies t[j].1 != ul.1 by {
                    if j < t.len() - 1 {
                        assert(t[j].1 >= t[t.len() - 1].1);
                    }
                }
                lemma_with_count_none(t, ul.1);
                assert(with_count(u, ul.1) == with_count(t, ul.1));
            }
        }
        assert(with_count(t, tl.1) == with_count(t.drop_last(), tl.1).push(tl));
        assert(with_count(u, ul.1) == with_count(u.drop_last(), ul.1).push(ul));
        assert(with_count(t, tl.1) == with_count(u, tl.1));
        assert(tl == with_count(t, tl.1).last());
        assert(tl == ul);
        assert forall|c: int| #[trigger] with_count(t.drop_last(), c) == with_count(
            u.drop_last(),
            c,
        ) by {
            assert(with_count(t, c) == with_count(u, c));
            if c == tl.1 {
                assert(with_count(t.drop_last(), c) =~= with_count(t, c).drop_last());
                assert(with_count(u.drop_last(), c) =~= with_count(u, c).drop_last());
            }
        }
        lemma_sorted_determined(t.drop_last(), u.drop_last());
        assert(t =~= t.drop_last().push(tl));
        assert(u =~= u.drop_last().push(ul));
    }
}

/// Where to insert an entry with count `c` into `ranked`: after every entry
/// that counts at least as much.
fn insert_position(ranked: &Vec<Entry>, c: i32) -> (res: usize)
    ensures
        res as int == first_below(entries_view(ranked@), c as int),
{
    let ghost v = entries_view(ranked@);
    let mut p: usize = 0;
    assert(v.skip(0) =~= v);
    while p < ranked.len() && ranked[p].count >= c
        invariant
            p <= ranked@.len(),
            v == entries_view(ranked@),
            first_below(v, c as int) == p + first_below(v.skip(p as int), c as int),
        decreases ranked@.len() - p,
    {
        assert(v.skip(p as int).drop_first() =~= v.skip(p + 1));
        assert(v.skip(p as int)[0] == v[p as int]);
        p = p + 1;
    }
    if p < ranked.len() {
        assert(v.skip(p as int)[0] == v[p as int]);
    }
    p
}

/// The entries ordered by count, highest first, ties in their original
/// order.
pub fn rank_entries(entries: Vec<Entry>) -> (res: Vec<Entry>)
    ensures
        entries_view(res@) == rank_spec(entries_view(entries@)),
{
    let ghost orig = entries_view(entries@);
    let mut rest = entries;
    let mut ranked: Vec<Entry> = Vec::new();
    let ghost mut k: int = 0;
    assert(orig.skip(0) =~= orig);
    assert(entries_view(ranked@) =~= rank_spec(orig.take(0)));
    while rest.len() > 0
        invariant
            0 <= k <= orig.len(),
            k + rest@.len() == orig.len(),
            entries_view(rest@) == orig.skip(k),
            entries_view(ranked@) == rank_spec(orig.take(k)),
        decreases rest@.len(),
    {
        let ghost before_rest = rest@;
        let x = rest.remove(0);
        assert(entries_view(before_rest)[0] == orig.skip(k)[0]);
        assert forall|i: int| 0 <= i < rest@.len() implies #[trigger] rest@[i]@ == orig[k + 1 + i] by {
            assert(rest@[i] == before_rest[i + 1]);
            assert(entries_view(before_rest)[i + 1] == orig.skip(k)[i + 1]);
        }
        assert(entries_view(rest@) =~= orig.skip(k + 1));
        assert(x@ == orig[k]) by {
            assert(entries_view(before_rest)[0] == x@);
        }
        assert(orig.take(k + 1).drop_last() =~= orig.take(k));
        assert(orig.take(k + 1).last() == orig[k]);
        let p = insert_position(&ranked, x.count);
        proof {
            lemma_first_below(entries_view(ranked@), x.count as int);
        }
        let ghost before = ranked@;
        ranked.insert(p, x);
        assert(entries_view(ranked@) =~= entries_view(before).insert(p as int, orig[k]));
        proof {
            k = k + 1;
        }
    }
    assert(orig.take(k) =~= orig);
    ranked
}

/// How many entries are shown: all of them, or the first `num` where `num`
/// is given, not negative and not more than there are.
pub open spec fn top_limit(len: int, num: Option<i32>) -> int {
    match num {
        Some(n) => if 0 <= n <= len {
            n as int
        } else {
            len
        },
        None => len,
    }
}

/// The most repeated commands, ranked, cut to the first `num` where `num`
/// asks for fewer than there are.
pub fn top_entries(statistics: Statistics, num: Option<i32>) -> (res: Vec<Entry>)
    ensures
        entries_view(res@) == rank_spec(statistics@).take(top_limit(statistics@.len() as int, num)),
{
    let ghost whole = statistics@;
    let mut ranked = rank_entries(statistics.entries);
    proof {
        lemma_rank_spec(whole);
    }
    let len = ranked.len();
    let limit = match num {
        Some(n) => if n >= 0 && (n as usize) <= len {
            n as usize
        } else {
            len
        },
        None => len,
    };
    ranked.truncate(limit);
    assert(entries_view(ranked@) =~= rank_spec(whole).take(limit as int));
    ranked
}

} // verus!
