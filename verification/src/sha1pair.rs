//! Pairing the lines that `sha1sum` prints for two files and telling whether
//! their hashes agree.

use vstd::prelude::*;
use crate::text::{lemma_split_around_sep, lemma_split_without_sep, split_on, split_seq};

verus! {

/// One line of `sha1sum` output: a hash and the name of the file it belongs to.
#[derive(Debug)]
pub struct Entity {
    pub hash: String,
    pub name: String,
}

impl Entity {
    /// An entity with an empty hash and an empty name.
    pub fn new() -> (res: Entity)
        ensures
            res.hash@ == Seq::<char>::empty(),
            res.name@ == Seq::<char>::empty(),
    {
        Entity { hash: String::new(), name: String::new() }
    }
}

/// A line that does not hold both a hash and a name.
#[derive(Debug)]
pub struct IllegalFormatError {
    pub line: String,
}

/// The fixed description of an [`IllegalFormatError`].
pub open spec fn illegal_format_text() -> Seq<char> {
    "input format of sha1sum unexpected"@
}

impl IllegalFormatError {
    /// The error for the offending `line`.
    pub fn new(line: &str) -> (res: IllegalFormatError)
        ensures
            res.line@ == line@,
    {
        IllegalFormatError { line: line.to_owned() }
    }

    /// The fixed description of this kind of error.
    pub fn as_str(&self) -> (res: &'static str)
        ensures
            res@ == illegal_format_text(),
    {
        "input format of sha1sum unexpected"
    }

    /// The description followed by `": "` and the offending line.
    pub fn message(&self) -> (res: String)
        ensures
            res@ == illegal_format_text() + ": "@ + self.line@,
    {
        let mut res = String::from_str(self.as_str());
        res.append(": ");
        res.append(self.line.as_str());
        res
    }
}

/// The non-empty sequences of `pieces`, in order.
pub open spec fn nonempty_pieces(pieces: Seq<Seq<char>>) -> Seq<Seq<char>>
    decreases pieces.len(),
{
    if pieces.len() == 0 {
        Seq::<Seq<char>>::empty()
    } else if pieces.last().len() == 0 {
        nonempty_pieces(pieces.drop_last())
    } else {
        nonempty_pieces(pieces.drop_last()).push(pieces.last())
    }
}

/// The words of a line: its non-empty pieces between single spaces.
pub open spec fn words(line: Seq<char>) -> Seq<Seq<char>> {
    nonempty_pieces(split_seq(line, ' '))
}

/// Reads a `sha1sum` line: the first word is the hash and the last word the
/// name. A line with fewer than two words is refused.
pub fn create_entity(input: &str) -> (res: Result<Entity, IllegalFormatError>)
    ensures
        res is Ok <==> words(input@).len() >= 2,
        res matches Ok(e) ==> e.hash@ == words(input@)[0] && e.name@ == words(input@).last(),
        res matches Err(err) ==> err.line@ == input@,
{
    let list = split_on(input, ' ');
    let ghost pieces = list.deep_view();
    let mut ret = Entity::new();
    let n = list.len();
    for i in 0..n
        invariant
            n == list@.len(),
            pieces == list.deep_view(),
            ret.hash@ == (if nonempty_pieces(pieces.take(i as int)).len() >= 1 {
                nonempty_pieces(pieces.take(i as int))[0]
            } else {
                Seq::<char>::empty()
            }),
            ret.name@ == (if nonempty_pieces(pieces.take(i as int)).len() >= 2 {
                nonempty_pieces(pieces.take(i as int)).last()
            } else {
                Seq::<char>::empty()
            }),
            nonempty_pieces(pieces.take(i as int)).len() >= 1 ==> ret.hash@.len() > 0,
            nonempty_pieces(pieces.take(i as int)).len() >= 2 ==> ret.name@.len() > 0,
    {
        let ghost before = nonempty_pieces(pieces.take(i as int));
        assert(pieces.take(i + 1).drop_last() =~= pieces.take(i as int));
        assert(pieces.take(i + 1).last() == list@[i as int]@);
        let part = &list[i];
        if !part.as_str().is_empty() {
            if ret.hash.as_str().is_empty() {
                ret.hash = part.clone();
            } else {
                ret.name = part.clone();
            }
            assert(nonempty_pieces(pieces.take(i + 1)) == before.push(part@));
        }
    }
    assert(pieces.take(n as int) =~= pieces);
    if ret.hash.as_str().is_empty() || ret.name.as_str().is_empty() {
        return Err(IllegalFormatError::new(input));
    }
    Ok(ret)
}

/// A line as `sha1sum` prints it, the hash, two spaces and the name, reads
/// back as that hash and that name (where neither holds a space).
pub proof fn lemma_sha1sum_line_words(hash: Seq<char>, name: Seq<char>)
    requires
        hash.len() > 0,
        name.len() > 0,
        !hash.contains(' '),
        !name.contains(' '),
    ensures
        words(hash + "  "@ + name) == seq![hash, name],
{
    reveal_strlit("  ");
    let empty = Seq::<char>::empty();
    let line = hash + "  "@ + name;
    assert(line =~= hash + seq![' '] + (empty + seq![' '] + name));
    lemma_split_around_sep(hash, empty + seq![' '] + name, ' ');
    lemma_split_around_sep(empty, name, ' ');
    lemma_split_without_sep(hash, ' ');
    lemma_split_without_sep(name, ' ');
    assert(!empty.contains(' '));
    lemma_split_without_sep(empty, ' ');
    let pieces = split_seq(line, ' ');
    assert(pieces =~= seq![hash, empty, name]);
    assert(pieces.drop_last() =~= seq![hash, empty]);
    assert(pieces.drop_last().drop_last() =~= seq![hash]);
    assert(seq![hash].drop_last() =~= Seq::<Seq<char>>::empty());
    assert(nonempty_pieces(Seq::<Seq<char>>::empty()) =~= Seq::<Seq<char>>::empty());
    assert(seq![hash].last() == hash);
    assert(nonempty_pieces(seq![hash]) =~= seq![hash]);
    assert(seq![hash, empty].last() == empty);
    assert(pieces.last() == name);
    assert(nonempty_pieces(seq![hash, empty]) =~= seq![hash]);
    assert(nonempty_pieces(pieces) =~= seq![hash, name]);
}

/// What a line read with its line break leaves: `None` for an empty read
/// (the end of the input) and for a line that is empty once its last
/// character is cut off, else the line without that last character.
pub open spec fn chomp_spec(raw: Seq<char>) -> Option<Seq<char>> {
    if raw.len() == 0 || raw.drop_last().len() == 0 {
        None
    } else {
        Some(raw.drop_last())
    }
}

/// Cuts the line break off a line as read: `None` where nothing is left.
/// The last character must be a single byte (a line break is), since the
/// line is cut one byte short.
pub fn chomp_line(raw: &str) -> (res: Option<String>)
    requires
        raw@.len() > 0 ==> (raw@.last() as u32) < 0x80,
    ensures
        res matches Some(s) ==> chomp_spec(raw@) == Some(s@),
        res is None ==> chomp_spec(raw@) is None,
{
    let n = raw.unicode_len();
    if n <= 1 {
        return None;
    }
    let rest = raw.substring_char(0, n - 1);
    assert(rest@ =~= raw@.drop_last());
    Some(rest.to_owned())
}

/// The line printed for a pair: `OK` with the hash and both names where the
/// hashes agree, else `NG`.
pub open spec fn compare_spec(lh_hash: Seq<char>, lh_name: Seq<char>, rh_hash: Seq<char>, rh_name: Seq<char>) -> Seq<char> {
    if lh_hash == rh_hash {
        "OK hash="@ + lh_hash + " lh="@ + lh_name + " rh="@ + rh_name
    } else {
        "NG"@
    }
}

/// The report says `NG` exactly when the hashes differ, whatever the names;
/// where they agree it is an `OK` line that starts with `OK hash=` and the
/// hash.
pub proof fn lemma_compare_by_hash_alone(
    lh_hash: Seq<char>,
    lh_name: Seq<char>,
    rh_hash: Seq<char>,
    rh_name: Seq<char>,
)
    ensures
        (compare_spec(lh_hash, lh_name, rh_hash, rh_name) == "NG"@) <==> (lh_hash != rh_hash),
        lh_hash == rh_hash ==> compare_spec(lh_hash, lh_name, rh_hash, rh_name).take(
            8 + lh_hash.len() as int,
        ) == "OK hash="@ + lh_hash,
{
    reveal_strlit("NG");
    reveal_strlit("OK hash=");
    let r = compare_spec(lh_hash, lh_name, rh_hash, rh_name);
    if lh_hash == rh_hash {
        assert(r[0] == 'O');
        assert("NG"@[0] == 'N');
        assert(r.take(8 + lh_hash.len() as int) =~= "OK hash="@ + lh_hash);
    }
}

/// Compares the hashes of a pair and says so in one line.
pub fn compare_report(lh: &Entity, rh: &Entity) -> (res: String)
    ensures
        res@ == compare_spec(lh.hash@, lh.name@, rh.hash@, rh.name@),
        lh.hash@ != rh.hash@ ==> res@ == "NG"@,
        lh.hash@ == rh.hash@ ==> res@ == "OK hash="@ + lh.hash@ + " lh="@ + lh.name@ + " rh="@
            + rh.name@,
{
    if lh.hash == rh.hash {
        let mut res = String::from_str("OK hash=");
        res.append(lh.hash.as_str());
        res.append(" lh=");
        res.append(lh.name.as_str());
        res.append(" rh=");
        res.append(rh.name.as_str());
        res
    } else {
        String::from_str("NG")
    }
}

} // verus!
