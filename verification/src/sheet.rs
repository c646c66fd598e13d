use vstd::prelude::*;

verus! {

use crate::text::{spec_amount, spec_month, parse_amount, parse_month, AMOUNT_MAX};

/// One worksheet cell, reduced to what the pipeline reads: its text if
/// it is a text cell, the decimal rendering of its value if it is a
/// numeric cell, and nothing otherwise.
#[derive(Debug, Clone)]
pub enum Cell {
    Text(String),
    Num(String),
    Other,
}

/// The mathematical value of one input record.
pub struct RowView {
    pub client_id: Seq<char>,
    pub amount: u64,
    pub month: u32,
}

/// One input record: client identifier, revenue amount in
/// ten-thousandths of a currency unit, and month number.
#[derive(Debug, Clone)]
pub struct Row {
    pub client_id: String,
    pub amount: u64,
    pub month: u32,
}

impl View for Row {
    type V = RowView;

    open spec fn view(&self) -> RowView {
        RowView { client_id: self.client_id@, amount: self.amount, month: self.month }
    }
}

/// The expected header row: exactly these four labels, in this order.
pub open spec fn spec_header_ok(cells: Seq<Cell>) -> bool {
    &&& cells.len() == 4
    &&& (cells[0] matches Cell::Text(s) && s@ == "ID_CLIENTE"@)
    &&& (cells[1] matches Cell::Text(s) && s@ == "MONTO (USD)"@)
    &&& (cells[2] matches Cell::Text(s) && s@ == "AÑO"@)
    &&& (cells[3] matches Cell::Text(s) && s@ == "MES"@)
}

/// The record a data row denotes, with the lenient per-cell fallbacks:
/// a missing or non-text identifier reads as empty, a missing or
/// non-numeric amount as zero, and a missing or non-numeric month as
/// zero. Column positions are fixed: identifier 0, amount 1, month 3.
pub open spec fn spec_row_of(cells: Seq<Cell>) -> RowView {
    RowView {
        client_id: if cells.len() > 0 {
            match cells[0] {
                Cell::Text(s) => s@,
                _ => Seq::empty(),
            }
        } else {
            Seq::empty()
        },
        amount: if cells.len() > 1 {
            match cells[1] {
                Cell::Num(s) => spec_amount(s@),
                _ => 0,
            }
        } else {
            0
        },
        month: if cells.len() > 3 {
            match cells[3] {
                Cell::Num(s) => spec_month(s@),
                _ => 0,
            }
        } else {
            0
        },
    }
}

/// The record sequence a whole sheet denotes: every row after the header.
pub open spec fn spec_rows_of(grid: Seq<Vec<Cell>>) -> Seq<RowView> {
    grid.skip(1).map_values(|row: Vec<Cell>| spec_row_of(row@))
}

fn text_cell_is(c: &Cell, label: &str) -> (r: bool)
    ensures
        r == (c matches Cell::Text(s) && s@ == label@),
{
    match c {
        Cell::Text(s) => {
            let lab: String = label.to_owned();
            *s == lab
        },
        _ => false,
    }
}

/// Checks the header row of a sheet against the four expected labels.
pub fn header_ok(cells: &Vec<Cell>) -> (r: bool)
    ensures
        r == spec_header_ok(cells@),
{
    if cells.len() != 4 {
        return false;
    }
    text_cell_is(&cells[0], "ID_CLIENTE") && text_cell_is(&cells[1], "MONTO (USD)")
        && text_cell_is(&cells[2], "AÑO") && text_cell_is(&cells[3], "MES")
}

/// Extracts one record from one data row.
pub fn row_of(cells: &Vec<Cell>) -> (r: Row)
    ensures
        r@ == spec_row_of(cells@),
        r.amount <= AMOUNT_MAX,
{
    let client_id: String = if cells.len() > 0 {
        match &cells[0] {
            Cell::Text(s) => s.clone(),
            _ => String::new(),
        }
    } else {
        String::new()
    };
    let amount: u64 = if cells.len() > 1 {
        match &cells[1] {
            Cell::Num(s) => parse_amount(s.as_str()),
            _ => 0,
        }
    } else {
        0
    };
    let month: u32 = if cells.len() > 3 {
        match &cells[3] {
            Cell::Num(s) => parse_month(s.as_str()),
            _ => 0,
        }
    } else {
        0
    };
    Row { client_id, amount, month }
}

/// Extracts the record of every data row of a sheet, in sheet order.
pub fn rows_of(grid: &Vec<Vec<Cell>>) -> (r: Vec<Row>)
    requires
        grid@.len() >= 1,
    ensures
        r@.len() == grid@.len() - 1,
        forall|i: int| 0 <= i < r@.len() ==> #[trigger] r@[i]@ == spec_rows_of(grid@)[i],
        forall|i: int| 0 <= i < r@.len() ==> #[trigger] r@[i].amount <= AMOUNT_MAX,
{
    let mut r: Vec<Row> = Vec::new();
    let mut i: usize = 1;
    while i < grid.len()
        invariant
            1 <= i <= grid@.len(),
            r@.len() == i - 1,
            forall|j: int| 0 <= j < r@.len() ==> #[trigger] r@[j]@ == spec_row_of(grid@[j + 1]@),
            forall|j: int| 0 <= j < r@.len() ==> #[trigger] r@[j].amount <= AMOUNT_MAX,
        decreases grid@.len() - i,
    {
        let row = row_of(&grid[i]);
        r.push(row);
        i = i + 1;
    }
    proof {
        assert(forall|i: int|
            0 <= i < r@.len() ==> spec_rows_of(grid@)[i] == spec_row_of(
                #[trigger] grid@.skip(1)[i]@,
            ) && grid@.skip(1)[i] == grid@[i + 1]);
    }
    r
}

} // verus!
