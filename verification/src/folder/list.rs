//! The listing of a remote folder as a table: one row for each entry, the
//! folders first, and within a kind by name.
//!
//! The store lists the contents of a folder in no fixed order. The table
//! fixes one, so that the same contents always give the same table: the
//! folders come first, as the entries that one descends into, and each kind
//! is ordered by name, as text is ordered character by character.

use crate::entry::Entry;
use vstd::prelude::*;
use vstd::string::*;

verus! {

/// The kind of a remote entry.
#[derive(Debug, Clone, Copy, PartialEq, Eq, Structural)]
pub enum Kind {
    File,
    Folder,
}

/// One row of the table.
#[derive(Debug, PartialEq, Eq)]
pub struct Row {
    pub id: u64,
    pub kind: Kind,
    pub name: String,
    pub modified: String,
}

/// A row as a value of the model.
pub struct RowView {
    pub id: u64,
    pub kind: Kind,
    pub name: Seq<char>,
    pub modified: Seq<char>,
}

impl View for Row {
    type V = RowView;

    open spec fn view(&self) -> RowView {
        RowView { id: self.id, kind: self.kind, name: self.name@, modified: self.modified@ }
    }
}

/// The models of a sequence of rows.
pub open spec fn row_views(rows: Seq<Row>) -> Seq<RowView> {
    rows.map_values(|row: Row| row@)
}

/// The row that shows `entry`.
pub open spec fn row_of(entry: Entry) -> RowView {
    match entry {
        Entry::File(file) => RowView {
            id: file.file_id,
            kind: Kind::File,
            name: file.name@,
            modified: file.modified@,
        },
        Entry::Folder(folder) => RowView {
            id: folder.folder_id,
            kind: Kind::Folder,
            name: folder.name@,
            modified: folder.modified@,
        },
    }
}

/// The rows that show `entries`, in their order.
pub open spec fn rows_of(entries: Seq<Entry>) -> Seq<RowView> {
    entries.map_values(|entry: Entry| row_of(entry))
}

/// Whether `a` read from `from` on is `b` read from `from` on or comes
/// before it in the order of a dictionary, where a character comes before
/// another if its code is smaller.
pub open spec fn text_le_from(a: Seq<char>, b: Seq<char>, from: int) -> bool
    decreases a.len() - from,
{
    if from < 0 || from >= a.len() {
        true
    } else if from >= b.len() {
        false
    } else if a[from] != b[from] {
        (a[from] as int) < (b[from] as int)
    } else {
        text_le_from(a, b, from + 1)
    }
}

/// Whether `a` is `b` or comes before it in the order of a dictionary.
pub open spec fn text_le(a: Seq<char>, b: Seq<char>) -> bool {
    text_le_from(a, b, 0)
}

/// Whether the row `a` may stand before the row `b`: a folder before a
/// file, and of two entries of a kind the one whose name comes first.
pub open spec fn row_le(a: RowView, b: RowView) -> bool {
    if a.kind != b.kind {
        a.kind == Kind::Folder
    } else {
        text_le(a.name, b.name)
    }
}

/// Whether every row may stand before those that follow it.
pub open spec fn sorted(rows: Seq<RowView>) -> bool {
    forall|i: int, j: int| 0 <= i <= j < rows.len() ==> row_le(rows[i], rows[j])
}

/// Of two texts that agree up to `from`, one comes before the other or
/// they are the same.
pub proof fn lemma_text_le_total(a: Seq<char>, b: Seq<char>, from: int)
    requires
        0 <= from,
    ensures
        text_le_from(a, b, from) || text_le_from(b, a, from),
    decreases a.len() - from,
{
    if from < a.len() && from < b.len() && a[from] == b[from] {
        lemma_text_le_total(a, b, from + 1);
    }
}

/// What comes before a text that comes before a third comes before the
/// third.
pub proof fn lemma_text_le_transitive(a: Seq<char>, b: Seq<char>, c: Seq<char>, from: int)
    requires
        0 <= from,
        text_le_from(a, b, from),
        text_le_from(b, c, from),
    ensures
        text_le_from(a, c, from),
    decreases a.len() - from,
{
    if from < a.len() && from < b.len() && from < c.len() && a[from] == b[from] && b[from]
        == c[from] {
        lemma_text_le_transitive(a, b, c, from + 1);
    }
}

/// Of two rows, one may stand before the other.
pub proof fn lemma_row_le_total(a: RowView, b: RowView)
    ensures
        row_le(a, b) || row_le(b, a),
{
    lemma_text_le_total(a.name, b.name, 0);
}

/// A row that may stand before a second, which may stand before a third,
/// may stand before the third.
pub proof fn lemma_row_le_transitive(a: RowView, b: RowView, c: RowView)
    requires
        row_le(a, b),
        row_le(b, c),
    ensures
        row_le(a, c),
{
    if a.kind == b.kind && b.kind == c.kind {
        lemma_text_le_transitive(a.name, b.name, c.name, 0);
    }
}

/// Whether the name `a` is `b` or comes before it in the order of a
/// dictionary.
pub fn name_le(a: &String, b: &String) -> (le: bool)
    ensures
        le == text_le(a@, b@),
{
    let a_len = a.as_str().unicode_len();
    let b_len = b.as_str().unicode_len();
    let mut i: usize = 0;
    while i < a_len && i < b_len
        invariant
            a_len == a@.len(),
            b_len == b@.len(),
            i <= a_len,
            i <= b_len,
            text_le(a@, b@) == text_le_from(a@, b@, i as int),
        decreases a_len - i,
    {
        let x = a.as_str().get_char(i);
        let y = b.as_str().get_char(i);
        if x != y {
            return (x as u32) < (y as u32);
        }
        i += 1;
    }
    i >= a_len
}

/// Whether `a` may stand before `b`.
pub fn row_before(a: &Row, b: &Row) -> (le: bool)
    ensures
        le == row_le(a@, b@),
{
    match (a.kind, b.kind) {
        (Kind::Folder, Kind::File) => true,
        (Kind::File, Kind::Folder) => false,
        _ => name_le(&a.name, &b.name),
    }
}

/// The listing of the contents of a remote folder.
#[derive(Debug, Clone, Copy, PartialEq, Eq, Structural)]
pub struct Command;

impl Command {
    /// The word that the table shows for a kind.
    pub fn label(kind: Kind) -> (word: &'static str)
        ensures
            word@ == match kind {
                Kind::File => "file"@,
                Kind::Folder => "folder"@,
            },
    {
        match kind {
            Kind::File => "file",
            Kind::Folder => "folder",
        }
    }

    /// The row that shows `entry`.
    pub fn row(entry: &Entry) -> (row: Row)
        ensures
            row@ == row_of(*entry),
    {
        match entry {
            Entry::File(file) => Row {
                id: file.file_id,
                kind: Kind::File,
                name: file.name.clone(),
                modified: file.modified.clone(),
            },
            Entry::Folder(folder) => Row {
                id: folder.folder_id,
                kind: Kind::Folder,
                name: folder.name.clone(),
                modified: folder.modified.clone(),
            },
        }
    }

    /// The rows of the table: one for each entry, the folders first, and
    /// within a kind by name.
    pub fn rows(&self, result: &Vec<Entry>) -> (rows: Vec<Row>)
        ensures
            sorted(row_views(rows@)),
            row_views(rows@).to_multiset() == rows_of(result@).to_multiset(),
    {
        let mut rows: Vec<Row> = Vec::new();
        let mut i: usize = 0;
        assert(row_views(rows@) =~= rows_of(result@).take(0));
        while i < result.len()
            invariant
                i <= result.len(),
                sorted(row_views(rows@)),
                row_views(rows@).to_multiset() == rows_of(result@).take(i as int).to_multiset(),
            decreases result.len() - i,
        {
            let row = Self::row(&result[i]);
            let ghost before = row_views(rows@);
            let mut at: usize = 0;
            while at < rows.len() && row_before(&rows[at], &row)
                invariant
                    at <= rows.len(),
                    before == row_views(rows@),
                    forall|k: int| 0 <= k < at ==> row_le(before[k], row@),
                decreases rows.len() - at,
            {
                at += 1;
            }
            proof {
                let after = before.insert(at as int, row@);
                assert forall|a: int, b: int| 0 <= a <= b < after.len() implies row_le(
                    after[a],
                    after[b],
                ) by {
                    if a == at && b == at {
                        lemma_row_le_total(row@, row@);
                    } else if a == at {
                        lemma_row_le_total(before[at as int], row@);
                        lemma_row_le_transitive(row@, before[at as int], before[b - 1]);
                    } else if b == at {
                    } else if a < at && b > at {
                        assert(row_le(before[a], before[b - 1]));
                    } else if a < at {
                        assert(row_le(before[a], before[b]));
                    } else {
                        assert(row_le(before[a - 1], before[b - 1]));
                    }
                }
                lemma_insert_to_multiset(before, at as int, row@);
                let shown = rows_of(result@);
                assert(shown.take(i + 1) =~= shown.take(i as int).push(row@));
                broadcast use vstd::seq_lib::group_to_multiset_ensures;

            }
            rows.insert(at, row);
            assert(row_views(rows@) =~= before.insert(at as int, row@));
            i += 1;
        }
        assert(rows_of(result@).take(result.len() as int) =~= rows_of(result@));
        rows
    }
}

/// A sequence with one more element holds that element once more and the
/// others as often as before, wherever the element was put.
pub proof fn lemma_insert_to_multiset<A>(s: Seq<A>, at: int, x: A)
    requires
        0 <= at <= s.len(),
    ensures
        s.insert(at, x).to_multiset() == s.to_multiset().insert(x),
{
    broadcast use vstd::seq_lib::group_to_multiset_ensures;

    let after = s.insert(at, x);
    assert(after.remove(at) =~= s);
    assert(after[at] == x);
    assert(after.remove(at).to_multiset() =~= after.to_multiset().remove(x));
    assert(after.to_multiset().count(x) > 0) by {
        assert(after.contains(x));
    }
    assert(after.to_multiset() =~= s.to_multiset().insert(x));
}

} // verus!
