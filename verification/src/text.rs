//! Character-sequence models of splitting, joining and whitespace trimming,
//! with the executable functions that compute them.

use vstd::prelude::*;

verus! {

/// The pieces of `s` between occurrences of `sep`, in the way `str::split`
/// with a single `char` yields them: one more piece than there are separators,
/// empty pieces included.
pub open spec fn split_seq(s: Seq<char>, sep: char) -> Seq<Seq<char>>
    decreases s.len(),
{
    if s.len() == 0 {
        seq![Seq::<char>::empty()]
    } else {
        let pieces = split_seq(s.drop_last(), sep);
        if s.last() == sep {
            pieces.push(Seq::<char>::empty())
        } else {
            pieces.update(pieces.len() - 1, pieces.last().push(s.last()))
        }
    }
}

/// Splitting always yields at least one piece.
pub proof fn lemma_split_nonempty(s: Seq<char>, sep: char)
    ensures
        split_seq(s, sep).len() >= 1,
    decreases s.len(),
{
    if s.len() > 0 {
        lemma_split_nonempty(s.drop_last(), sep);
    }
}

/// The characters of `s`, in order.
pub fn chars_of(s: &str) -> (res: Vec<char>)
    ensures
        res@ == s@,
{
    let mut res: Vec<char> = Vec::new();
    for c in it: s.chars()
        invariant
            res@ == it.seq().take(it.index() as int),
    {
        res.push(c);
    }
    res
}

/// The pieces of `s` between occurrences of `sep`, as owned strings.
pub fn split_on(s: &str, sep: char) -> (res: Vec<String>)
    ensures
        res.deep_view() == split_seq(s@, sep),
{
    let chars = chars_of(s);
    let n = chars.len();
    let mut pieces: Vec<String> = Vec::new();
    let mut start: usize = 0;
    let mut i: usize = 0;
    assert(s@.take(0) =~= Seq::<char>::empty());
    while i < n
        invariant
            n == chars@.len(),
            chars@ == s@,
            start <= i <= n,
            split_seq(s@.take(i as int), sep) =~= pieces.deep_view().push(
                s@.subrange(start as int, i as int),
            ),
        decreases n - i,
    {
        let ghost before = s@.take(i as int);
        assert(s@.take(i + 1).drop_last() =~= before);
        assert(s@.take(i + 1).last() == chars@[i as int]);
        assert(s@.subrange(start as int, i + 1) =~= s@.subrange(start as int, i as int).push(
            chars@[i as int],
        ));
        if chars[i] == sep {
            let piece = s.substring_char(start, i).to_owned();
            let ghost old_view = pieces.deep_view();
            pieces.push(piece);
            assert(pieces.deep_view() =~= old_view.push(s@.subrange(start as int, i as int)));
            start = i + 1;
            assert(s@.subrange(start as int, i + 1) =~= Seq::<char>::empty());
        } else {
            assert(split_seq(s@.take(i + 1), sep) =~= pieces.deep_view().push(
                s@.subrange(start as int, i + 1),
            ));
        }
        i = i + 1;
    }
    assert(s@.take(n as int) =~= s@);
    let last = s.substring_char(start, n).to_owned();
    let ghost old_view = pieces.deep_view();
    pieces.push(last);
    assert(pieces.deep_view() =~= old_view.push(s@.subrange(start as int, n as int)));
    pieces
}

/// `list` joined with `sep` between neighbours, as `[&str]::join` yields it.
pub open spec fn join_seq(list: Seq<Seq<char>>, sep: Seq<char>) -> Seq<char>
    decreases list.len(),
{
    if list.len() == 0 {
        Seq::<char>::empty()
    } else if list.len() == 1 {
        list[0]
    } else {
        join_seq(list.drop_last(), sep) + sep + list.last()
    }
}

/// `list` joined with `sep` between neighbours.
pub fn join_with(list: &Vec<String>, sep: &str) -> (res: String)
    ensures
        res@ == join_seq(list.deep_view(), sep@),
{
    let mut res = String::new();
    let n = list.len();
    let ghost whole = list.deep_view();
    for i in 0..n
        invariant
            n == list@.len(),
            whole == list.deep_view(),
            res@ == join_seq(whole.take(i as int), sep@),
    {
        assert(whole.take(i + 1).drop_last() =~= whole.take(i as int));
        if i > 0 {
            res.append(sep);
        }
        res.append(list[i].as_str());
        assert(whole.take(i + 1).last() == list@[i as int]@);
        if i == 0 {
            assert(res@ =~= join_seq(whole.take(1), sep@));
        }
    }
    assert(whole.take(n as int) =~= whole);
    res
}

/// A sequence holding no `sep` splits into itself alone.
pub proof fn lemma_split_without_sep(s: Seq<char>, sep: char)
    requires
        !s.contains(sep),
    ensures
        split_seq(s, sep) == seq![s],
    decreases s.len(),
{
    if s.len() == 0 {
        assert(s =~= Seq::<char>::empty());
    } else {
        assert(!s.drop_last().contains(sep)) by {
            if s.drop_last().contains(sep) {
                let k = choose|k: int| 0 <= k < s.drop_last().len() && s.drop_last()[k] == sep;
                assert(s[k] == sep);
            }
        }
        lemma_split_without_sep(s.drop_last(), sep);
        assert(s.last() != sep) by {
            assert(s[s.len() - 1] == s.last());
        }
        assert(s.drop_last().push(s.last()) =~= s);
        let prev = split_seq(s.drop_last(), sep);
        assert(prev.last() == s.drop_last());
        assert(split_seq(s, sep) == prev.update(0, s));
        assert(split_seq(s, sep) =~= seq![s]);
    }
}

/// Splitting `a`, a separator and `b` gives the pieces of `a` followed by
/// the pieces of `b`.
pub proof fn lemma_split_around_sep(a: Seq<char>, b: Seq<char>, sep: char)
    ensures
        split_seq(a + seq![sep] + b, sep) == split_seq(a, sep) + split_seq(b, sep),
    decreases b.len(),
{
    lemma_split_nonempty(a, sep);
    if b.len() == 0 {
        assert(a + seq![sep] + b =~= a.push(sep));
        assert(a.push(sep).drop_last() =~= a);
        assert(split_seq(a + seq![sep] + b, sep) =~= split_seq(a, sep) + split_seq(b, sep));
    } else {
        let whole = a + seq![sep] + b;
        assert(whole.drop_last() =~= a + seq![sep] + b.drop_last());
        lemma_split_around_sep(a, b.drop_last(), sep);
        lemma_split_nonempty(b.drop_last(), sep);
        assert(whole.last() == b.last());
        assert(split_seq(whole, sep) =~= split_seq(a, sep) + split_seq(b, sep));
    }
}

/// No piece of a split holds the separator.
pub proof fn lemma_split_pieces_lack_sep(s: Seq<char>, sep: char)
    ensures
        forall|i: int|
            0 <= i < split_seq(s, sep).len() ==> !(#[trigger] split_seq(s, sep)[i]).contains(sep),
    decreases s.len(),
{
    if s.len() > 0 {
        lemma_split_pieces_lack_sep(s.drop_last(), sep);
        lemma_split_nonempty(s.drop_last(), sep);
        let prev = split_seq(s.drop_last(), sep);
        if s.last() != sep {
            let grown = prev.last().push(s.last());
            assert(!grown.contains(sep)) by {
                assert(!prev[prev.len() - 1].contains(sep));
                if grown.contains(sep) {
                    let k = choose|k: int| 0 <= k < grown.len() && grown[k] == sep;
                    if k < grown.len() - 1 {
                        assert(prev.last()[k] == sep);
                    }
                }
            }
        }
    }
}

/// Joining pieces that hold no `sep` with `sep`, then splitting on `sep`,
/// gives the pieces back.
pub proof fn lemma_split_join(list: Seq<Seq<char>>, sep: char)
    requires
        list.len() >= 1,
        forall|i: int| 0 <= i < list.len() ==> !(#[trigger] list[i]).contains(sep),
    ensures
        split_seq(join_seq(list, seq![sep]), sep) == list,
    decreases list.len(),
{
    if list.len() == 1 {
        lemma_split_without_sep(list[0], sep);
        assert(list =~= seq![list[0]]);
    } else {
        let init = list.drop_last();
        assert forall|i: int| 0 <= i < init.len() implies !(#[trigger] init[i]).contains(sep) by {
            assert(init[i] == list[i]);
        }
        lemma_split_join(init, sep);
        lemma_split_around_sep(join_seq(init, seq![sep]), list.last(), sep);
        assert(!list[list.len() - 1].contains(sep));
        lemma_split_without_sep(list.last(), sep);
        assert(init + seq![list.last()] =~= list);
    }
}

/// Growing the last piece by one character grows the joined sequence by
/// that character.
proof fn lemma_join_grow_last(pieces: Seq<Seq<char>>, sep: Seq<char>, c: char)
    requires
        pieces.len() >= 1,
    ensures
        join_seq(pieces.update(pieces.len() - 1, pieces.last().push(c)), sep) == join_seq(
            pieces,
            sep,
        ).push(c),
{
    let grown = pieces.update(pieces.len() - 1, pieces.last().push(c));
    if pieces.len() == 1 {
        assert(grown[0] == pieces[0].push(c));
    } else {
        assert(grown.drop_last() =~= pieces.drop_last());
        assert(join_seq(grown, sep) =~= join_seq(pieces, sep).push(c));
    }
}

/// Splitting on `sep` and joining the pieces with `sep` gives the sequence
/// back.
pub proof fn lemma_join_split(s: Seq<char>, sep: char)
    ensures
        join_seq(split_seq(s, sep), seq![sep]) == s,
    decreases s.len(),
{
    if s.len() == 0 {
        assert(split_seq(s, sep) =~= seq![Seq::<char>::empty()]);
        assert(s =~= Seq::<char>::empty());
    } else {
        let init = s.drop_last();
        lemma_join_split(init, sep);
        lemma_split_nonempty(init, sep);
        let pieces = split_seq(init, sep);
        if s.last() == sep {
            let more = pieces.push(Seq::<char>::empty());
            assert(more.drop_last() =~= pieces);
            assert(join_seq(more, seq![sep]) =~= init + seq![sep] + Seq::<char>::empty());
            assert(init.push(sep) =~= s);
        } else {
            lemma_join_grow_last(pieces, seq![sep], s.last());
            assert(init.push(s.last()) =~= s);
        }
    }
}

/// `s` with every element after its first occurrence dropped.
pub open spec fn dedup_seq<T>(s: Seq<T>) -> Seq<T>
    decreases s.len(),
{
    if s.len() == 0 {
        Seq::<T>::empty()
    } else {
        let kept = dedup_seq(s.drop_last());
        if kept.contains(s.last()) {
            kept
        } else {
            kept.push(s.last())
        }
    }
}

/// What de-duplication keeps: no element twice, and exactly the elements of
/// the input.
pub proof fn lemma_dedup_properties<T>(s: Seq<T>)
    ensures
        dedup_seq(s).no_duplicates(),
        forall|x: T| #[trigger] dedup_seq(s).contains(x) <==> s.contains(x),
        dedup_seq(s).len() <= s.len(),
    decreases s.len(),
{
    broadcast use vstd::seq_lib::lemma_seq_contains_after_push;

    if s.len() > 0 {
        let init = s.drop_last();
        lemma_dedup_properties(init);
        assert(init.push(s.last()) =~= s);
        let kept = dedup_seq(init);
        if !kept.contains(s.last()) {
            assert forall|i: int, j: int|
                0 <= i < kept.push(s.last()).len() && 0 <= j < kept.push(s.last()).len() && i
                    != j implies kept.push(s.last())[i] != kept.push(s.last())[j] by {
                if i == kept.len() {
                    assert(kept[j] != s.last());
                } else if j == kept.len() {
                    assert(kept[i] != s.last());
                }
            }
        }
    }
}

/// De-duplicating a sequence that holds nothing twice changes nothing.
pub proof fn lemma_dedup_of_distinct<T>(s: Seq<T>)
    requires
        s.no_duplicates(),
    ensures
        dedup_seq(s) == s,
    decreases s.len(),
{
    if s.len() > 0 {
        let init = s.drop_last();
        lemma_dedup_of_distinct(init);
        assert(!init.contains(s.last())) by {
            if init.contains(s.last()) {
                let k = choose|k: int| 0 <= k < init.len() && init[k] == s.last();
                assert(s[k] == s[s.len() - 1]);
            }
        }
        assert(init.push(s.last()) =~= s);
    }
}

/// De-duplication is idempotent.
pub proof fn lemma_dedup_idempotent<T>(s: Seq<T>)
    ensures
        dedup_seq(dedup_seq(s)) == dedup_seq(s),
{
    lemma_dedup_properties(s);
    lemma_dedup_of_distinct(dedup_seq(s));
}

/// Whether `list` holds a string equal to `item`.
pub fn contains_string(list: &Vec<String>, item: &String) -> (res: bool)
    ensures
        res == list.deep_view().contains(item@),
{
    let n = list.len();
    for i in 0..n
        invariant
            n == list@.len(),
            forall|j: int| 0 <= j < i ==> list@[j]@ != item@,
    {
        if list[i] == *item {
            assert(list.deep_view()[i as int] == item@);
            return true;
        }
    }
    assert forall|j: int| 0 <= j < list.deep_view().len() implies list.deep_view()[j] != item@ by {
        assert(list.deep_view()[j] == list@[j]@);
    }
    false
}

/// Whether `c` has the Unicode `White_Space` property, the definition of
/// whitespace that `char::is_whitespace` and `str::trim` use.
pub open spec fn is_whitespace_spec(c: char) -> bool {
    let v = c as u32;
    ||| 0x09 <= v <= 0x0d
    ||| v == 0x20
    ||| v == 0x85
    ||| v == 0xa0
    ||| v == 0x1680
    ||| 0x2000 <= v <= 0x200a
    ||| v == 0x2028
    ||| v == 0x2029
    ||| v == 0x202f
    ||| v == 0x205f
    ||| v == 0x3000
}

/// Whether `c` is Unicode whitespace.
pub fn is_unicode_whitespace(c: char) -> (res: bool)
    ensures
        res == is_whitespace_spec(c),
{
    let v = c as u32;
    (0x09 <= v && v <= 0x0d) || v == 0x20 || v == 0x85 || v == 0xa0 || v == 0x1680 || (0x2000
        <= v && v <= 0x200a) || v == 0x2028 || v == 0x2029 || v == 0x202f || v == 0x205f || v
        == 0x3000
}

/// `s` without its leading whitespace.
pub open spec fn trim_start_spec(s: Seq<char>) -> Seq<char>
    decreases s.len(),
{
    if s.len() > 0 && is_whitespace_spec(s[0]) {
        trim_start_spec(s.drop_first())
    } else {
        s
    }
}

/// `s` without its trailing whitespace.
pub open spec fn trim_end_spec(s: Seq<char>) -> Seq<char>
    decreases s.len(),
{
    if s.len() > 0 && is_whitespace_spec(s.last()) {
        trim_end_spec(s.drop_last())
    } else {
        s
    }
}

/// `s` without leading and trailing whitespace, as `str::trim` gives it.
pub open spec fn trim_spec(s: Seq<char>) -> Seq<char> {
    trim_end_spec(trim_start_spec(s))
}

/// Cutting leading whitespace leaves nothing or a non-whitespace first
/// character, and leaves a suffix.
pub proof fn lemma_trim_start_shape(s: Seq<char>)
    ensures
        trim_start_spec(s).len() > 0 ==> !is_whitespace_spec(trim_start_spec(s)[0]),
        trim_start_spec(s).len() <= s.len(),
        trim_start_spec(s) == s.skip(s.len() - trim_start_spec(s).len()),
    decreases s.len(),
{
    if s.len() > 0 && is_whitespace_spec(s[0]) {
        lemma_trim_start_shape(s.drop_first());
        let t = trim_start_spec(s.drop_first());
        assert(s.drop_first().skip(s.drop_first().len() - t.len()) =~= s.skip(s.len() - t.len()));
    } else {
        assert(s.skip(0) =~= s);
    }
}

/// Cutting trailing whitespace leaves nothing or a non-whitespace last
/// character, and leaves a prefix.
pub proof fn lemma_trim_end_shape(s: Seq<char>)
    ensures
        trim_end_spec(s).len() > 0 ==> !is_whitespace_spec(trim_end_spec(s).last()),
        trim_end_spec(s).len() <= s.len(),
        trim_end_spec(s) == s.take(trim_end_spec(s).len() as int),
    decreases s.len(),
{
    if s.len() > 0 && is_whitespace_spec(s.last()) {
        lemma_trim_end_shape(s.drop_last());
        let t = trim_end_spec(s.drop_last());
        assert(s.drop_last().take(t.len() as int) =~= s.take(t.len() as int));
    } else {
        assert(s.take(s.len() as int) =~= s);
    }
}

/// A trimmed sequence has no whitespace at either end: trimming it again
/// changes nothing.
pub proof fn lemma_trim_idempotent(s: Seq<char>)
    ensures
        trim_spec(trim_spec(s)) == trim_spec(s),
        trim_spec(s).len() > 0 ==> !is_whitespace_spec(trim_spec(s)[0]) && !is_whitespace_spec(
            trim_spec(s).last(),
        ),
{
    let t = trim_start_spec(s);
    lemma_trim_start_shape(s);
    lemma_trim_end_shape(t);
    let u = trim_end_spec(t);
    if u.len() > 0 {
        assert(u[0] == t[0]);
        assert(trim_start_spec(u) == u);
        assert(trim_end_spec(u) == u);
    } else {
        assert(trim_start_spec(u) == u);
        assert(trim_end_spec(u) == u);
    }
}

/// The characters of `s` from `start` up to `end`, as an owned string.
pub fn substring_owned(s: &str, start: usize, end: usize) -> (res: String)
    requires
        start <= end <= s@.len(),
    ensures
        res@ == s@.subrange(start as int, end as int),
{
    s.substring_char(start, end).to_owned()
}

/// The characters of `chars` from `start` up to `end` with leading and
/// trailing whitespace cut off, given as the bounds of what is left.
pub fn trim_bounds(chars: &Vec<char>, start: usize, end: usize) -> (res: (usize, usize))
    requires
        start <= end <= chars@.len(),
    ensures
        start <= res.0 <= res.1 <= end,
        chars@.subrange(res.0 as int, res.1 as int) == trim_spec(
            chars@.subrange(start as int, end as int),
        ),
{
    let ghost t = chars@.subrange(start as int, end as int);
    let mut k = start;
    while k < end && is_unicode_whitespace(chars[k])
        invariant
            start <= k <= end <= chars@.len(),
            t == chars@.subrange(start as int, end as int),
            trim_start_spec(t) == trim_start_spec(chars@.subrange(k as int, end as int)),
        decreases end - k,
    {
        let ghost cur = chars@.subrange(k as int, end as int);
        assert(cur.drop_first() =~= chars@.subrange(k + 1, end as int));
        assert(cur[0] == chars@[k as int]);
        k = k + 1;
    }
    let ghost rest = chars@.subrange(k as int, end as int);
    if k < end {
        assert(rest[0] == chars@[k as int]);
    }
    assert(trim_start_spec(rest) == rest);
    let mut e = end;
    while e > k && is_unicode_whitespace(chars[e - 1])
        invariant
            start <= k <= e <= end <= chars@.len(),
            rest == chars@.subrange(k as int, end as int),
            trim_end_spec(rest) == trim_end_spec(chars@.subrange(k as int, e as int)),
        decreases e - k,
    {
        let ghost cur = chars@.subrange(k as int, e as int);
        assert(cur.drop_last() =~= chars@.subrange(k as int, e - 1));
        assert(cur.last() == chars@[e - 1]);
        e = e - 1;
    }
    let ghost fin = chars@.subrange(k as int, e as int);
    if e > k {
        assert(fin.last() == chars@[e - 1]);
    }
    assert(trim_end_spec(fin) == fin);
    (k, e)
}

} // verus!
