//! Trimming a shell history: every command is kept once, at the place of its
//! last use, and each repetition that is dropped is counted in statistics.

use vstd::prelude::*;
use crate::text::{
    chars_of, lemma_trim_idempotent, substring_owned, trim_bounds, trim_spec,
};

verus! {

/// How often a command was found repeated.
#[derive(Debug)]
pub struct Entry {
    pub command: String,
    pub count: i32,
}

impl View for Entry {
    type V = (Seq<char>, int);

    open spec fn view(&self) -> (Seq<char>, int) {
        (self.command@, self.count as int)
    }
}

impl Entry {
    /// The first repetition of `command`: a count of one.
    pub fn new(command: &str) -> (res: Entry)
        ensures
            res@ == (command@, 1int),
    {
        Entry { command: command.to_owned(), count: 1 }
    }
}

/// The repetition counts of all commands seen so far.
pub struct Statistics {
    pub entries: Vec<Entry>,
}

/// The model of a list of entries: pairs of a command and its count.
pub open spec fn entries_view(entries: Seq<Entry>) -> Seq<(Seq<char>, int)> {
    Seq::new(entries.len(), |i: int| entries[i]@)
}

impl View for Statistics {
    type V = Seq<(Seq<char>, int)>;

    open spec fn view(&self) -> Seq<(Seq<char>, int)> {
        entries_view(self.entries@)
    }
}

/// The index of the first entry for `command`, if any.
pub open spec fn find_spec(stats: Seq<(Seq<char>, int)>, command: Seq<char>) -> Option<int>
    decreases stats.len(),
{
    if stats.len() == 0 {
        None
    } else {
        match find_spec(stats.drop_last(), command) {
            Some(i) => Some(i),
            None => if stats.last().0 == command {
                Some(stats.len() - 1)
            } else {
                None
            },
        }
    }
}

/// `find_spec` gives the first index that holds `command`, and `None` only
/// where no index does.
pub proof fn lemma_find_spec(stats: Seq<(Seq<char>, int)>, command: Seq<char>)
    ensures
        match find_spec(stats, command) {
            Some(i) => 0 <= i < stats.len() && stats[i].0 == command && forall|j: int|
                0 <= j < i ==> stats[j].0 != command,
            None => forall|j: int| 0 <= j < stats.len() ==> stats[j].0 != command,
        },
    decreases stats.len(),
{
    if stats.len() > 0 {
        lemma_find_spec(stats.drop_last(), command);
        assert forall|j: int| 0 <= j < stats.len() - 1 implies stats[j] == stats.drop_last()[j] by {}
    }
}

/// The statistics after one more repetition of `command`: its first entry
/// counts one more, or a new entry with a count of one is appended.
pub open spec fn increment_spec(stats: Seq<(Seq<char>, int)>, command: Seq<char>) -> Seq<
    (Seq<char>, int),
> {
    match find_spec(stats, command) {
        Some(i) => stats.update(i, (command, stats[i].1 + 1)),
        None => stats.push((command, 1int)),
    }
}

/// One more repetition of `command` keeps its count within `i32`.
pub open spec fn increment_fits(stats: Seq<(Seq<char>, int)>, command: Seq<char>) -> bool {
    match find_spec(stats, command) {
        Some(i) => stats[i].1 < i32::MAX,
        None => true,
    }
}

impl Statistics {
    /// Statistics with no entry.
    pub fn new() -> (res: Statistics)
        ensures
            res@ == Seq::<(Seq<char>, int)>::empty(),
    {
        let res = Statistics { entries: Vec::new() };
        assert(res@ =~= Seq::<(Seq<char>, int)>::empty());
        res
    }

    /// The index of the first entry for `command`, if there is one.
    pub fn find_command(&self, command: &str) -> (res: Option<usize>)
        ensures
            match res {
                Some(i) => find_spec(self@, command@) == Some(i as int),
                None => find_spec(self@, command@) is None,
            },
    {
        proof {
            lemma_find_spec(self@, command@);
        }
        let target = command.to_owned();
        let n = self.entries.len();
        for i in 0..n
            invariant
                n == self.entries@.len(),
                target@ == command@,
                forall|j: int| 0 <= j < i ==> self@[j].0 != command@,
                match find_spec(self@, command@) {
                    Some(k) => 0 <= k < self@.len() && self@[k].0 == command@ && forall|j: int|
                        0 <= j < k ==> self@[j].0 != command@,
                    None => forall|j: int| 0 <= j < self@.len() ==> self@[j].0 != command@,
                },
        {
            if self.entries[i].command == target {
                assert(self@[i as int].0 == command@);
                return Some(i);
            }
        }
        None
    }
}

/// Counts one more repetition of `command`.
pub fn increment_command_count(statistics: &mut Statistics, command: &str)
    requires
        increment_fits(old(statistics)@, command@),
    ensures
        final(statistics)@ == increment_spec(old(statistics)@, command@),
{
    proof {
        lemma_find_spec(statistics@, command@);
    }
    match statistics.find_command(command) {
        Some(index) => {
            let ghost before = statistics@;
            let mut entry = statistics.entries.remove(index);
            entry.count = entry.count + 1;
            statistics.entries.insert(index, entry);
            assert(statistics@ =~= increment_spec(before, command@));
        },
        None => {
            let ghost before = statistics@;
            statistics.entries.push(Entry::new(command));
            assert(statistics@ =~= increment_spec(before, command@));
        },
    }
}

/// After one more repetition of `command`, its first entry counts one more
/// than before, or is a new last entry counting one; no other entry changes.
pub proof fn lemma_increment_counts(stats: Seq<(Seq<char>, int)>, command: Seq<char>)
    ensures
        ({
            let after = increment_spec(stats, command);
            match find_spec(stats, command) {
                Some(i) => {
                    &&& after.len() == stats.len()
                    &&& find_spec(after, command) == Some(i)
                    &&& after[i] == (command, stats[i].1 + 1)
                    &&& forall|j: int| 0 <= j < stats.len() && j != i ==> after[j] == stats[j]
                },
                None => {
                    &&& after.len() == stats.len() + 1
                    &&& find_spec(after, command) == Some(stats.len() as int)
                    &&& after.last() == (command, 1int)
                    &&& forall|j: int| 0 <= j < stats.len() ==> after[j] == stats[j]
                },
            }
        }),
{
    let after = increment_spec(stats, command);
    lemma_find_spec(stats, command);
    lemma_find_spec(after, command);
    match find_spec(stats, command) {
        Some(i) => {
            assert(after[i].0 == command);
            match find_spec(after, command) {
                Some(k) => {
                    if k < i {
                        assert(after[k] == stats[k]);
                    }
                    if k > i {
                        assert(after[i].0 == command);
                    }
                },
                None => {
                    assert(after[i].0 == command);
                },
            }
        },
        None => {
            assert(after[stats.len() as int].0 == command);
            match find_spec(after, command) {
                Some(k) => {
                    if k < stats.len() {
                        assert(after[k] == stats[k]);
                    }
                },
                None => {},
            }
        },
    }
}

/// A line as read with its line break: a final `'\n'` is cut off, and then a
/// `'\r'` before it.
pub open spec fn strip_line_break(raw: Seq<char>) -> Seq<char> {
    if raw.len() > 0 && raw.last() == '\n' {
        let rest = raw.drop_last();
        if rest.len() > 0 && rest.last() == '\r' {
            rest.drop_last()
        } else {
            rest
        }
    } else {
        raw
    }
}

/// The command a history line stands for: the line without its line break,
/// trimmed of whitespace.
pub open spec fn clean_line_spec(raw: Seq<char>) -> Seq<char> {
    trim_spec(strip_line_break(raw))
}

/// The command a history line stands for.
pub fn clean_line(raw: &str) -> (res: String)
    ensures
        res@ == clean_line_spec(raw@),
{
    let chars = chars_of(raw);
    let mut end = chars.len();
    if end > 0 && chars[end - 1] == '\n' {
        end = end - 1;
        if end > 0 && chars[end - 1] == '\r' {
            end = end - 1;
        }
    }
    assert(chars@.subrange(0, end as int) =~= strip_line_break(raw@));
    let (start, stop) = trim_bounds(&chars, 0, end);
    substring_owned(raw, start, stop)
}

/// A cleaned line is its own cleaning.
pub proof fn lemma_clean_line_idempotent(raw: Seq<char>)
    ensures
        clean_line_spec(clean_line_spec(raw)) == clean_line_spec(raw),
{
    let t = clean_line_spec(raw);
    lemma_trim_idempotent(strip_line_break(raw));
    if t.len() > 0 {
        assert(t.last() != '\n');
    }
    assert(strip_line_break(t) == t);
}

/// Where a trimming run stands: the commands kept so far, in order, how many
/// lines were dropped as repetitions, and the statistics.
pub struct TrimState {
    pub kept: Seq<Seq<char>>,
    pub trimmed: nat,
    pub stats: Seq<(Seq<char>, int)>,
}

/// One history line more: its command moves to the end of the kept list, and
/// where it was there already, the repetition is counted.
pub open spec fn trim_step(state: TrimState, raw: Seq<char>) -> TrimState {
    let line = clean_line_spec(raw);
    if state.kept.contains(line) {
        TrimState {
            kept: state.kept.remove_value(line).push(line),
            trimmed: state.trimmed + 1,
            stats: increment_spec(state.stats, line),
        }
    } else {
        TrimState { kept: state.kept.push(line), trimmed: state.trimmed, stats: state.stats }
    }
}

/// The state after all of `lines`, starting from nothing kept and `stats`.
pub open spec fn trim_run(lines: Seq<Seq<char>>, stats: Seq<(Seq<char>, int)>) -> TrimState
    decreases lines.len(),
{
    if lines.len() == 0 {
        TrimState { kept: Seq::<Seq<char>>::empty(), trimmed: 0, stats }
    } else {
        trim_step(trim_run(lines.drop_last(), stats), lines.last())
    }
}

/// No count leaves `i32` while `lines` are trimmed.
pub open spec fn trim_fits(lines: Seq<Seq<char>>, stats: Seq<(Seq<char>, int)>) -> bool
    decreases lines.len(),
{
    if lines.len() == 0 {
        true
    } else {
        let before = trim_run(lines.drop_last(), stats);
        let line = clean_line_spec(lines.last());
        &&& trim_fits(lines.drop_last(), stats)
        &&& before.kept.contains(line) ==> increment_fits(before.stats, line)
    }
}

/// What trimming a history gives: the commands to keep, in order, and how
/// many lines were dropped as repetitions.
pub struct TrimOutcome {
    pub lines: Vec<String>,
    pub trim_count: usize,
}

/// The index of the first string in `list` equal to `item`, if any.
pub fn position_of(list: &Vec<String>, item: &String) -> (res: Option<usize>)
    ensures
        res matches Some(i) ==> list.deep_view().index_of_first(item@) == Some(i as int),
        res is None ==> list.deep_view().index_of_first(item@) is None,
{
    proof {
        list.deep_view().index_of_first_ensures(item@);
    }
    let n = list.len();
    for i in 0..n
        invariant
            n == list@.len(),
            forall|j: int| 0 <= j < i ==> list.deep_view()[j] != item@,
            match list.deep_view().index_of_first(item@) {
                Some(index) => {
                    &&& list.deep_view().contains(item@)
                    &&& 0 <= index < list.deep_view().len()
                    &&& list.deep_view()[index] == item@
                    &&& forall|j: int| 0 <= j < index < list.deep_view().len() ==> list.deep_view()[j] != item@
                },
                None => { !list.deep_view().contains(item@) },
            },
    {
        if list[i] == *item {
            assert(list.deep_view()[i as int] == item@);
            return Some(i);
        }
        assert(list.deep_view()[i as int] == list@[i as int]@);
    }
    None
}

/// Runs the trimming and stops with `None` before a count would leave
/// `i32`; whatever came back, the statistics reached so far are left.
fn run_trim(lines: &Vec<String>, statistics: &mut Statistics) -> (res: Option<TrimOutcome>)
    ensures
        res is Some <==> trim_fits(lines.deep_view(), old(statistics)@),
        res matches Some(o) ==> {
            &&& o.lines.deep_view() == trim_run(lines.deep_view(), old(statistics)@).kept
            &&& o.trim_count as nat == trim_run(lines.deep_view(), old(statistics)@).trimmed
            &&& final(statistics)@ == trim_run(lines.deep_view(), old(statistics)@).stats
        },
{
    let ghost all = lines.deep_view();
    let ghost initial = statistics@;
    let mut kept: Vec<String> = Vec::new();
    let mut trim_count: usize = 0;
    let n = lines.len();
    assert(trim_fits(all.take(0), initial));
    for i in 0..n
        invariant
            n == lines@.len(),
            all == lines.deep_view(),
            initial == old(statistics)@,
            trim_fits(all.take(i as int), initial),
            kept.deep_view() == trim_run(all.take(i as int), initial).kept,
            trim_count as nat == trim_run(all.take(i as int), initial).trimmed,
            trim_count <= i,
            statistics@ == trim_run(all.take(i as int), initial).stats,
    {
        let ghost before = trim_run(all.take(i as int), initial);
        assert(all.take(i + 1).drop_last() =~= all.take(i as int));
        assert(all.take(i + 1).last() == lines@[i as int]@);
        let line = clean_line(lines[i].as_str());
        match position_of(&kept, &line) {
            Some(index) => {
                proof {
                    kept.deep_view().index_of_first_ensures(line@);
                }
                proof {
                    lemma_find_spec(statistics@, line@);
                }
                if let Some(found) = statistics.find_command(line.as_str()) {
                    if statistics.entries[found].count == i32::MAX {
                        proof {
                            assert(!trim_fits(all.take(i + 1), initial));
                            if trim_fits(all, initial) {
                                lemma_trim_fits_prefix(all, initial, n as int);
                                assert(trim_fits(all.take(i + 1), initial));
                            }
                        }
                        return None;
                    }
                }
                let ghost old_kept = kept.deep_view();
                kept.remove(index);
                assert(kept.deep_view() =~= old_kept.remove_value(line@));
                trim_count = trim_count + 1;
                increment_command_count(statistics, line.as_str());
                let ghost mid = kept.deep_view();
                kept.push(line);
                assert(kept.deep_view() =~= mid.push(clean_line_spec(lines@[i as int]@)));
            },
            None => {
                proof {
                    kept.deep_view().index_of_first_ensures(line@);
                }
                let ghost old_kept = kept.deep_view();
                kept.push(line);
                assert(kept.deep_view() =~= old_kept.push(clean_line_spec(lines@[i as int]@)));
            },
        }
    }
    assert(all.take(n as int) =~= all);
    Some(TrimOutcome { lines: kept, trim_count })
}

/// Trims a history: each line is cleaned of its line break and surrounding
/// whitespace; a command seen before moves from its old place to the end and
/// counts as a repetition in `statistics`.
pub fn trim_history(lines: &Vec<String>, statistics: &mut Statistics) -> (res: TrimOutcome)
    requires
        trim_fits(lines.deep_view(), old(statistics)@),
    ensures
        res.lines.deep_view() == trim_run(lines.deep_view(), old(statistics)@).kept,
        res.trim_count as nat == trim_run(lines.deep_view(), old(statistics)@).trimmed,
        final(statistics)@ == trim_run(lines.deep_view(), old(statistics)@).stats,
{
    match run_trim(lines, statistics) {
        Some(outcome) => outcome,
        None => {
            proof {
                assert(false);
            }
            TrimOutcome { lines: Vec::new(), trim_count: 0 }
        },
    }
}

impl Statistics {
    /// A copy of these statistics.
    pub fn duplicate(&self) -> (res: Statistics)
        ensures
            res@ == self@,
    {
        let mut entries: Vec<Entry> = Vec::new();
        let n = self.entries.len();
        for i in 0..n
            invariant
                n == self.entries@.len(),
                entries@.len() == i,
                forall|j: int| 0 <= j < i ==> #[trigger] entries@[j]@ == self.entries@[j]@,
        {
            let e = &self.entries[i];
            entries.push(Entry { command: e.command.clone(), count: e.count });
        }
        let res = Statistics { entries };
        assert(res@ =~= self@);
        res
    }
}

/// Whether trimming `lines` keeps every count within `i32`.
pub fn trim_fits_exec(lines: &Vec<String>, statistics: &Statistics) -> (res: bool)
    ensures
        res == trim_fits(lines.deep_view(), statistics@),
{
    let mut scratch = statistics.duplicate();
    run_trim(lines, &mut scratch).is_some()
}

/// Trims a history as [`trim_history`] does where every count stays within
/// `i32`; else gives `None` and leaves the statistics as they were.
pub fn trim_history_checked(lines: &Vec<String>, statistics: &mut Statistics) -> (res: Option<
    TrimOutcome,
>)
    ensures
        res is Some <==> trim_fits(lines.deep_view(), old(statistics)@),
        res is None ==> final(statistics)@ == old(statistics)@,
        res matches Some(o) ==> {
            &&& o.lines.deep_view() == trim_run(lines.deep_view(), old(statistics)@).kept
            &&& o.trim_count as nat == trim_run(lines.deep_view(), old(statistics)@).trimmed
            &&& final(statistics)@ == trim_run(lines.deep_view(), old(statistics)@).stats
        },
{
    if trim_fits_exec(lines, statistics) {
        Some(trim_history(lines, statistics))
    } else {
        None
    }
}

/// A run that fits also fits on every prefix of its lines.
pub proof fn lemma_trim_fits_prefix(lines: Seq<Seq<char>>, stats: Seq<(Seq<char>, int)>, k: int)
    requires
        trim_fits(lines, stats),
        0 <= k <= lines.len(),
    ensures
        forall|j: int| 0 <= j <= k ==> trim_fits(#[trigger] lines.take(j), stats),
    decreases lines.len(),
{
    if lines.len() > 0 {
        assert forall|j: int| 0 <= j <= k implies trim_fits(#[trigger] lines.take(j), stats) by {
            if j == lines.len() {
                assert(lines.take(j) =~= lines);
            } else {
                lemma_trim_fits_prefix(lines.drop_last(), stats, j);
                assert(lines.drop_last().take(j) =~= lines.take(j));
            }
        }
    }
}

/// Taking one element out of a sequence that holds nothing twice leaves a
/// shorter sequence that holds nothing twice, and holds everything else.
pub proof fn lemma_remove_value_distinct(s: Seq<Seq<char>>, x: Seq<char>)
    requires
        s.no_duplicates(),
        s.contains(x),
    ensures
        s.remove_value(x).len() == s.len() - 1,
        s.remove_value(x).no_duplicates(),
        forall|y: Seq<char>| #[trigger] s.remove_value(x).contains(y) <==> (s.contains(y) && y != x),
{
    s.index_of_first_ensures(x);
    let i = s.index_of_first(x).unwrap();
    let r = s.remove_value(x);
    assert(r == s.subrange(0, i) + s.subrange(i + 1, s.len() as int));
    assert forall|k: int| 0 <= k < r.len() implies #[trigger] r[k] == (if k < i {
        s[k]
    } else {
        s[k + 1]
    }) by {}
    assert forall|y: Seq<char>| #[trigger] r.contains(y) <==> (s.contains(y) && y != x) by {
        if r.contains(y) {
            let k = choose|k: int| 0 <= k < r.len() && r[k] == y;
            if k < i {
                assert(s[k] == y);
            } else {
                assert(s[k + 1] == y);
            }
        }
        if s.contains(y) && y != x {
            let k = choose|k: int| 0 <= k < s.len() && s[k] == y;
            if k < i {
                assert(r[k] == y);
            } else {
                assert(k != i);
                assert(r[k - 1] == y);
            }
        }
    }
    assert forall|a: int, b: int| 0 <= a < r.len() && 0 <= b < r.len() && a != b implies r[a]
        != r[b] by {
        let sa = if a < i { a } else { a + 1 };
        let sb = if b < i { b } else { b + 1 };
        assert(r[a] == s[sa]);
        assert(r[b] == s[sb]);
    }
}

/// What a trimming run keeps: every command once, exactly the commands of
/// the lines, the command of the last line at the end, and one kept line or
/// one counted repetition for each line.
pub proof fn lemma_trim_run_kept(lines: Seq<Seq<char>>, stats: Seq<(Seq<char>, int)>)
    ensures
        trim_run(lines, stats).kept.no_duplicates(),
        forall|l: Seq<char>|
            #[trigger] trim_run(lines, stats).kept.contains(l) <==> exists|i: int|
                0 <= i < lines.len() && clean_line_spec(#[trigger] lines[i]) == l,
        trim_run(lines, stats).kept.len() + trim_run(lines, stats).trimmed == lines.len(),
        lines.len() > 0 ==> trim_run(lines, stats).kept.last() == clean_line_spec(lines.last()),
    decreases lines.len(),
{
    broadcast use vstd::seq_lib::lemma_seq_contains_after_push;

    if lines.len() > 0 {
        let init = lines.drop_last();
        lemma_trim_run_kept(init, stats);
        let before = trim_run(init, stats);
        let line = clean_line_spec(lines.last());
        let base = if before.kept.contains(line) {
            lemma_remove_value_distinct(before.kept, line);
            before.kept.remove_value(line)
        } else {
            before.kept
        };
        assert(trim_run(lines, stats).kept == base.push(line));
        assert(!base.contains(line));
        assert forall|a: int, b: int|
            0 <= a < base.push(line).len() && 0 <= b < base.push(line).len() && a
                != b implies base.push(line)[a] != base.push(line)[b] by {
            if a == base.len() {
                assert(base[b] != line);
            } else if b == base.len() {
                assert(base[a] != line);
            }
        }
        assert forall|l: Seq<char>|
            #[trigger] trim_run(lines, stats).kept.contains(l) <==> exists|i: int|
                0 <= i < lines.len() && clean_line_spec(#[trigger] lines[i]) == l by {
            if trim_run(lines, stats).kept.contains(l) {
                if l == line {
                    assert(clean_line_spec(lines[lines.len() - 1]) == l);
                } else {
                    assert(before.kept.contains(l));
                    let i = choose|i: int| 0 <= i < init.len() && clean_line_spec(#[trigger] init[i]) == l;
                    assert(lines[i] == init[i]);
                }
            }
            if exists|i: int| 0 <= i < lines.len() && clean_line_spec(#[trigger] lines[i]) == l {
                let i = choose|i: int| 0 <= i < lines.len() && clean_line_spec(#[trigger] lines[i]) == l;
                if i < init.len() {
                    assert(init[i] == lines[i]);
                    assert(before.kept.contains(l));
                }
            }
        }
    }
}

/// Trimming lines that are already clean and distinct keeps them all, in
/// their order, drops nothing and leaves the statistics as they are.
pub proof fn lemma_trim_run_of_trimmed(lines: Seq<Seq<char>>, stats: Seq<(Seq<char>, int)>)
    requires
        lines.no_duplicates(),
        forall|i: int| 0 <= i < lines.len() ==> clean_line_spec(#[trigger] lines[i]) == lines[i],
    ensures
        trim_run(lines, stats) == (TrimState { kept: lines, trimmed: 0, stats }),
    decreases lines.len(),
{
    if lines.len() > 0 {
        let init = lines.drop_last();
        assert forall|i: int| 0 <= i < init.len() implies clean_line_spec(#[trigger] init[i])
            == init[i] by {
            assert(init[i] == lines[i]);
        }
        lemma_trim_run_of_trimmed(init, stats);
        assert(clean_line_spec(lines[lines.len() - 1]) == lines[lines.len() - 1]);
        assert(!init.contains(lines.last())) by {
            if init.contains(lines.last()) {
                let k = choose|k: int| 0 <= k < init.len() && init[k] == lines.last();
                assert(lines[k] == lines[lines.len() - 1]);
            }
        }
        assert(init.push(lines.last()) =~= lines);
    } else {
        assert(lines =~= Seq::<Seq<char>>::empty());
    }
}

/// Trimming an already trimmed history again drops nothing and changes
/// neither the history nor the statistics.
pub proof fn lemma_history_trim_idempotent(
    lines: Seq<Seq<char>>,
    stats: Seq<(Seq<char>, int)>,
    later_stats: Seq<(Seq<char>, int)>,
)
    ensures
        trim_run(trim_run(lines, stats).kept, later_stats).kept == trim_run(lines, stats).kept,
        trim_run(trim_run(lines, stats).kept, later_stats).trimmed == 0,
        trim_run(trim_run(lines, stats).kept, later_stats).stats == later_stats,
{
    let kept = trim_run(lines, stats).kept;
    lemma_trim_run_kept(lines, stats);
    assert forall|i: int| 0 <= i < kept.len() implies clean_line_spec(#[trigger] kept[i])
        == kept[i] by {
        assert(kept.contains(kept[i]));
        let j = choose|j: int| 0 <= j < lines.len() && clean_line_spec(#[trigger] lines[j]) == kept[i];
        lemma_clean_line_idempotent(lines[j]);
    }
    lemma_trim_run_of_trimmed(kept, later_stats);
}

/// The index of the last line whose command is `command`, or -1.
pub open spec fn last_line_index(lines: Seq<Seq<char>>, command: Seq<char>) -> int
    decreases lines.len(),
{
    if lines.len() == 0 {
        -1
    } else if clean_line_spec(lines.last()) == command {
        lines.len() - 1
    } else {
        last_line_index(lines.drop_last(), command)
    }
}

/// `last_line_index` finds a line of the command wherever there is one.
proof fn lemma_last_line_index(lines: Seq<Seq<char>>, command: Seq<char>, k: int)
    requires
        0 <= k < lines.len(),
        clean_line_spec(lines[k]) == command,
    ensures
        k <= last_line_index(lines, command) < lines.len(),
    decreases lines.len(),
{
    if k < lines.len() - 1 && clean_line_spec(lines.last()) != command {
        assert(lines.drop_last()[k] == lines[k]);
        lemma_last_line_index(lines.drop_last(), command, k);
    }
}

/// The kept commands stand in the order of their last use: of two kept
/// commands, the one kept first was last used earlier.
pub proof fn lemma_trim_run_order(lines: Seq<Seq<char>>, stats: Seq<(Seq<char>, int)>)
    ensures
        forall|a: int, b: int|
            0 <= a < b < trim_run(lines, stats).kept.len() ==> last_line_index(
                lines,
                #[trigger] trim_run(lines, stats).kept[a],
            ) < last_line_index(lines, #[trigger] trim_run(lines, stats).kept[b]),
    decreases lines.len(),
{
    if lines.len() > 0 {
        let init = lines.drop_last();
        let n = lines.len();
        lemma_trim_run_order(init, stats);
        lemma_trim_run_kept(init, stats);
        let before = trim_run(init, stats).kept;
        let line = clean_line_spec(lines.last());
        let after = trim_run(lines, stats).kept;
        // every command kept before was last used within `init`
        assert forall|x: Seq<char>| before.contains(x) && x != line implies last_line_index(
            lines,
            x,
        ) == last_line_index(init, x) && last_line_index(init, x) < init.len() by {
            let k = choose|k: int| 0 <= k < init.len() && clean_line_spec(#[trigger] init[k]) == x;
            lemma_last_line_index(init, x, k);
        }
        let (base, i) = if before.contains(line) {
            before.index_of_first_ensures(line);
            lemma_remove_value_distinct(before, line);
            (before.remove_value(line), before.index_of_first(line).unwrap())
        } else {
            (before, before.len() as int)
        };
        assert(after == base.push(line));
        assert forall|k: int| 0 <= k < base.len() implies #[trigger] base[k] == before[if k < i {
            k
        } else {
            k + 1
        }] && base[k] != line by {
            if before.contains(line) {
                assert(base == before.subrange(0, i) + before.subrange(i + 1, before.len() as int));
            }
            assert(base.contains(base[k]));
        }
        assert forall|a: int, b: int|
            0 <= a < b < after.len() implies last_line_index(lines, #[trigger] after[a])
            < last_line_index(lines, #[trigger] after[b]) by {
            let ba = if a < i { a } else { a + 1 };
            assert(after[a] == base[a]);
            assert(base[a] == before[ba]);
            assert(before.contains(before[ba]));
            if b == after.len() - 1 {
                assert(after[b] == line);
                assert(clean_line_spec(lines.last()) == line);
                assert(last_line_index(lines, line) == n - 1);
            } else {
                let bb = if b < i { b } else { b + 1 };
                assert(after[b] == base[b]);
                assert(base[b] == before[bb]);
                assert(before.contains(before[bb]));
                assert(ba < bb);
            }
        }
    }
}

/// The sum of all counts.
pub open spec fn total_count(stats: Seq<(Seq<char>, int)>) -> int
    decreases stats.len(),
{
    if stats.len() == 0 {
        0
    } else {
        total_count(stats.drop_last()) + stats.last().1
    }
}

/// Replacing one entry changes the sum by the difference of the counts.
pub proof fn lemma_total_update(stats: Seq<(Seq<char>, int)>, i: int, entry: (Seq<char>, int))
    requires
        0 <= i < stats.len(),
    ensures
        total_count(stats.update(i, entry)) == total_count(stats) - stats[i].1 + entry.1,
    decreases stats.len(),
{
    let u = stats.update(i, entry);
    if i == stats.len() - 1 {
        assert(u.drop_last() =~= stats.drop_last());
    } else {
        lemma_total_update(stats.drop_last(), i, entry);
        assert(u.drop_last() =~= stats.drop_last().update(i, entry));
    }
}

/// One more repetition adds one to the sum of the counts.
pub proof fn lemma_total_increment(stats: Seq<(Seq<char>, int)>, command: Seq<char>)
    ensures
        total_count(increment_spec(stats, command)) == total_count(stats) + 1,
{
    match find_spec(stats, command) {
        Some(i) => {
            lemma_find_spec(stats, command);
            lemma_total_update(stats, i, (command, stats[i].1 + 1));
        },
        None => {
            assert(stats.push((command, 1int)).drop_last() =~= stats);
        },
    }
}

/// Every repetition that trimming drops is counted once in the statistics.
pub proof fn lemma_trim_run_total(lines: Seq<Seq<char>>, stats: Seq<(Seq<char>, int)>)
    ensures
        total_count(trim_run(lines, stats).stats) == total_count(stats) + trim_run(
            lines,
            stats,
        ).trimmed,
    decreases lines.len(),
{
    if lines.len() > 0 {
        lemma_trim_run_total(lines.drop_last(), stats);
        let before = trim_run(lines.drop_last(), stats);
        lemma_total_increment(before.stats, clean_line_spec(lines.last()));
    }
}

/// Every count can grow by `extra` and stay within `i32`, and `extra` itself
/// is below `i32::MAX`.
pub open spec fn has_room(stats: Seq<(Seq<char>, int)>, extra: int) -> bool {
    &&& 0 <= extra < i32::MAX
    &&& forall|i: int| 0 <= i < stats.len() ==> #[trigger] stats[i].1 + extra <= i32::MAX
}

/// Counts grow by at most one per line, and entries start at one.
proof fn lemma_counts_bounded(lines: Seq<Seq<char>>, stats: Seq<(Seq<char>, int)>, bound: int)
    requires
        bound >= 1,
        forall|i: int| 0 <= i < stats.len() ==> #[trigger] stats[i].1 <= bound,
    ensures
        forall|i: int|
            0 <= i < trim_run(lines, stats).stats.len() ==> #[trigger] trim_run(
                lines,
                stats,
            ).stats[i].1 <= bound + lines.len(),
        bound + lines.len() <= i32::MAX ==> trim_fits(lines, stats),
    decreases lines.len(),
{
    if lines.len() > 0 {
        let init = lines.drop_last();
        lemma_counts_bounded(init, stats, bound);
        let before = trim_run(init, stats);
        let line = clean_line_spec(lines.last());
        lemma_find_spec(before.stats, line);
        if before.kept.contains(line) {
            let after = increment_spec(before.stats, line);
            assert forall|i: int| 0 <= i < after.len() implies #[trigger] after[i].1 <= bound
                + lines.len() by {
                if i < before.stats.len() {
                    assert(before.stats[i].1 <= bound + init.len());
                }
            }
        }
    }
}

/// Where every count has room for one more per line, no count leaves `i32`
/// while `lines` are trimmed.
pub proof fn lemma_room_ensures_fit(lines: Seq<Seq<char>>, stats: Seq<(Seq<char>, int)>)
    requires
        has_room(stats, lines.len() as int),
    ensures
        trim_fits(lines, stats),
{
    let bound = i32::MAX - lines.len();
    assert forall|i: int| 0 <= i < stats.len() implies #[trigger] stats[i].1 <= bound by {
        assert(stats[i].1 + lines.len() <= i32::MAX);
    }
    lemma_counts_bounded(lines, stats, bound);
}

} // verus!
