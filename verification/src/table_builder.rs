//! Turning a record into a printable table of its fields.

use vstd::prelude::*;
use crate::pattern::chars_of;

verus! {

/// A record that can be shown as a table: one row for each field, with the
/// field's name and its value.
pub trait MagicTable {
    /// The rows of the record, as pairs of a field's name and its value.
    spec fn table_rows(&self) -> Seq<(Seq<char>, Seq<char>)>;

    /// The rows of the record.
    fn build_table(&self) -> (rows: Vec<(String, String)>)
        ensures
            pair_texts(rows@) == self.table_rows(),
    ;
}

/// The texts of a vector of pairs of strings.
pub open spec fn pair_texts(pairs: Seq<(String, String)>) -> Seq<(Seq<char>, Seq<char>)> {
    pairs.map_values(|p: (String, String)| (p.0@, p.1@))
}

/// `prettytable::Table`, carried as a value whose inside is not looked at.
#[verifier::external_type_specification]
#[verifier::external_body]
pub struct ExTable(prettytable::Table);

/// What a `prettytable::Table` holds: its rows from top to bottom, each as
/// the contents of its cells from left to right.
pub uninterp spec fn table_cells(table: prettytable::Table) -> Seq<Seq<Seq<char>>>;

/// The content that a cell holds which `prettytable::Cell::new` made from
/// `text`.
pub uninterp spec fn cell_content(text: Seq<char>) -> Seq<char>;

/// `prettytable::Table::new`: a table without rows.
#[verifier::external_body]
fn new_table() -> (table: prettytable::Table)
    ensures
        table_cells(table) == Seq::<Seq<Seq<char>>>::empty(),
{
    prettytable::Table::new()
}

/// `text` holds the character that opens a terminal escape, U+001B.
pub open spec fn holds_escape(text: Seq<char>) -> bool {
    exists|k: int| 0 <= k < text.len() && text[k] == '\u{1b}'
}

/// Whether `text` holds the character that opens a terminal escape.
pub fn has_escape(text: &str) -> (found: bool)
    ensures
        found == holds_escape(text@),
{
    let chars = chars_of(text);
    let mut k: usize = 0;
    while k < chars.len()
        invariant
            k <= chars.len(),
            chars@ == text@,
            forall|j: int| 0 <= j < k ==> text@[j] != '\u{1b}',
        decreases chars.len() - k,
    {
        if chars[k] == '\u{1b}' {
            return true;
        }
        k = k + 1;
    }
    false
}

/// `prettytable::Table::add_row`, with a row of two cells that
/// `prettytable::Row::new` and `prettytable::Cell::new` make from `name` and
/// `value`: the table gains that row at its end and keeps the rows it had.
/// A cell measures the width of its text and, in doing so, takes U+001B as
/// the start of a terminal escape; on some texts with that character the
/// measuring aborts, so such texts are left out.
#[verifier::external_body]
fn add_pair_row(table: &mut prettytable::Table, name: &str, value: &str)
    requires
        !holds_escape(name@),
        !holds_escape(value@),
    ensures
        table_cells(*final(table)) == table_cells(*old(table)).push(
            seq![cell_content(name@), cell_content(value@)],
        ),
{
    table.add_row(
        prettytable::Row::new(vec![prettytable::Cell::new(name), prettytable::Cell::new(value)]),
    );
}

/// The cells of the table that shows the rows `rows`.
pub open spec fn cells_of(rows: Seq<(Seq<char>, Seq<char>)>) -> Seq<Seq<Seq<char>>> {
    rows.map_values(|p: (Seq<char>, Seq<char>)| seq![cell_content(p.0), cell_content(p.1)])
}

/// No name and no value of `rows` holds U+001B.
pub open spec fn printable(rows: Seq<(Seq<char>, Seq<char>)>) -> bool {
    forall|k: int|
        0 <= k < rows.len() ==> !holds_escape((#[trigger] rows[k]).0) && !holds_escape(rows[k].1)
}

/// A table with one row for each of `rows`, in their order, each with a
/// cell for the name and a cell for the value. `None` where a name or a
/// value holds U+001B: no table is made of such rows.
pub fn table_of(rows: &Vec<(String, String)>) -> (table: Option<prettytable::Table>)
    ensures
        table is Some <==> printable(pair_texts(rows@)),
        table is Some ==> table_cells(table->0) == cells_of(pair_texts(rows@)),
{
    let mut table = new_table();
    let mut i: usize = 0;
    while i < rows.len()
        invariant
            i <= rows.len(),
            printable(pair_texts(rows@.take(i as int))),
            table_cells(table) == cells_of(pair_texts(rows@.take(i as int))),
        decreases rows.len() - i,
    {
        let ghost shown = pair_texts(rows@);
        if has_escape(rows[i].0.as_str()) || has_escape(rows[i].1.as_str()) {
            assert(holds_escape(shown[i as int].0) || holds_escape(shown[i as int].1));
            return None;
        }
        add_pair_row(&mut table, rows[i].0.as_str(), rows[i].1.as_str());
        proof {
            assert(rows@.take(i + 1) == rows@.take(i as int).push(rows@[i as int]));
            assert(cells_of(pair_texts(rows@.take(i + 1))) == cells_of(
                pair_texts(rows@.take(i as int)),
            ).push(seq![cell_content(rows@[i as int].0@), cell_content(rows@[i as int].1@)]));
            let next = pair_texts(rows@.take(i + 1));
            let before = pair_texts(rows@.take(i as int));
            assert forall|k: int| 0 <= k < next.len() implies !holds_escape(
                (#[trigger] next[k]).0,
            ) && !holds_escape(next[k].1) by {
                if k < i {
                    assert(next[k] == before[k]);
                }
            }
        }
        i = i + 1;
    }
    assert(rows@.take(i as int) == rows@);
    Some(table)
}

/// The table that shows `item`: one row for each of its fields. `None`
/// where the name or the value of a field holds U+001B.
pub fn build_table<T: MagicTable>(item: T) -> (table: Option<prettytable::Table>)
    ensures
        table is Some <==> printable(item.table_rows()),
        table is Some ==> table_cells(table->0) == cells_of(item.table_rows()),
{
    let rows = item.build_table();
    table_of(&rows)
}

} // verus!
