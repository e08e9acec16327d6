//! Tables: the cells of a row under the headings of their columns.

use vstd::prelude::*;

verus! {

/// A cell of a table row, with the heading of its column.
#[derive(Debug, PartialEq, Eq)]
pub struct Cell {
    pub heading: String,
    pub value: String,
}

/// The mathematical value of a cell: its heading and its text.
pub open spec fn cell_model(c: Cell) -> (Seq<char>, Seq<char>) {
    (c.heading@, c.value@)
}

/// The cells of a row under the headings: the first value under the first
/// heading and so on, as far as both reach.
pub open spec fn labelled(headings: Seq<String>, values: Seq<String>) -> Seq<
    (Seq<char>, Seq<char>),
> {
    Seq::new(
        if headings.len() <= values.len() {
            headings.len()
        } else {
            values.len()
        },
        |i: int| (headings[i]@, values[i]@),
    )
}

/// The values of the cells of a row.
pub open spec fn row_model(row: Seq<Cell>) -> Seq<(Seq<char>, Seq<char>)> {
    row.map_values(|c: Cell| cell_model(c))
}

/// The cells of one row under the headings.
pub fn label_row(headings: &Vec<String>, values: &Vec<String>) -> (r: Vec<Cell>)
    ensures
        row_model(r@) == labelled(headings@, values@),
{
    let mut out: Vec<Cell> = Vec::new();
    let mut i: usize = 0;
    while i < headings.len() && i < values.len()
        invariant
            i <= headings.len(),
            i <= values.len(),
            out@.len() == i,
            forall|k: int|
                0 <= k < i ==> cell_model(#[trigger] out@[k]) == (headings@[k]@, values@[k]@),
        decreases headings.len() - i,
    {
        out.push(Cell { heading: headings[i].clone(), value: values[i].clone() });
        i += 1;
    }
    assert(row_model(out@) == labelled(headings@, values@));
    out
}

/// The rows of a table, each with its cells under the headings of the table.
pub fn parse_table_rows(headings: &Vec<String>, rows: &Vec<Vec<String>>) -> (r: Vec<Vec<Cell>>)
    ensures
        r@.len() == rows@.len(),
        forall|k: int|
            0 <= k < rows@.len() ==> row_model((#[trigger] r@[k])@) == labelled(
                headings@,
                rows@[k]@,
            ),
{
    let mut out: Vec<Vec<Cell>> = Vec::new();
    let mut i: usize = 0;
    while i < rows.len()
        invariant
            i <= rows.len(),
            out@.len() == i,
            forall|k: int|
                0 <= k < i ==> row_model((#[trigger] out@[k])@) == labelled(
                    headings@,
                    rows@[k]@,
                ),
        decreases rows.len() - i,
    {
        out.push(label_row(headings, &rows[i]));
        i += 1;
    }
    out
}

/// The position of the last cell of a row under the heading; -1 where the
/// row has none.
pub open spec fn last_under(row: Seq<(Seq<char>, Seq<char>)>, heading: Seq<char>) -> int
    decreases row.len(),
{
    if row.len() == 0 {
        -1
    } else if row.last().0 == heading {
        row.len() - 1
    } else {
        last_under(row.drop_last(), heading)
    }
}

/// The text that a row has under a heading: that of the last cell under it,
/// if there is one.
pub open spec fn cell_under(row: Seq<(Seq<char>, Seq<char>)>, heading: Seq<char>) -> Option<
    Seq<char>,
> {
    if last_under(row, heading) >= 0 {
        Some(row[last_under(row, heading)].1)
    } else {
        None
    }
}

/// The text that a row has under a heading.
pub fn cell(row: &Vec<Cell>, heading: &str) -> (r: Option<String>)
    ensures
        match cell_under(row_model(row@), heading@) {
            Some(text) => r matches Some(t) && t@ == text,
            None => r is None,
        },
{
    let wanted = heading.to_owned();
    let ghost all = row_model(row@);
    let mut i: usize = row.len();
    assert(all.take(row.len() as int) == all);
    while i > 0
        invariant
            i <= row.len(),
            all == row_model(row@),
            wanted@ == heading@,
            last_under(all, heading@) == last_under(all.take(i as int), heading@),
        decreases i,
    {
        proof {
            assert(all.take(i as int).drop_last() == all.take(i - 1));
            assert(all.take(i as int).last() == cell_model(row@[i - 1]));
        }
        if row[i - 1].heading == wanted {
            assert(all[i - 1] == cell_model(row@[i - 1]));
            return Some(row[i - 1].value.clone());
        }
        i -= 1;
    }
    None
}

} // verus!
