use vstd::prelude::*;

verus! {

use crate::errors::ApiError;
use crate::portfolio::{score_portfolio, spec_decisions_ok};
use crate::score::LoanDecision;
use crate::sheet::{spec_header_ok, Cell};

#[verifier::external_type_specification]
#[verifier::external_body]
pub struct ExData(calamine::Data);

/// What decoding an uploaded workbook can come to: undecodable bytes
/// (with the decoder's description), a workbook without a readable
/// first sheet, or the first sheet's cells, row by row.
pub enum WorkbookOutcome {
    Unreadable(String),
    NoSheet,
    Sheet(Vec<Vec<Cell>>),
}

// Decoding a workbook is deterministic: the outcome is a function of
// the uploaded bytes alone. This name stands for that outcome; the
// decoder below is trusted to return it, and `post_portfolio`'s
// contract dispatches on it.
pub uninterp spec fn decoded_of(bytes: Seq<u8>) -> WorkbookOutcome;

/// Relies on `calamine::DataType::get_string` and
/// `calamine::DataType::get_float`: a string cell yields its text, a
/// float cell its value rendered in decimal, and any other cell neither.
#[verifier::external_body]
fn data_cell(d: &calamine::Data) -> (r: Cell) {
    match calamine::DataType::get_string(d) {
        Some(s) => Cell::Text(s.to_owned()),
        None => match calamine::DataType::get_float(d) {
            Some(f) => Cell::Num(format!("{}", f)),
            None => Cell::Other,
        },
    }
}

/// Relies on `calamine::Xlsx::new` (through the `Reader` trait) to open
/// an xlsx workbook from in-memory bytes, and on
/// `Reader::worksheet_range_at` and `Range::rows` to list the first
/// sheet's cells row by row; each cell is reduced by `data_cell`. The
/// outcome is a function of the bytes alone, named `decoded_of`.
#[verifier::external_body]
fn decode_workbook(bytes: Vec<u8>) -> (r: WorkbookOutcome)
    ensures
        r == decoded_of(bytes@),
{
    let mut wb: calamine::Xlsx<_> = match calamine::Reader::new(std::io::Cursor::new(bytes)) {
        Ok(w) => w,
        Err(e) => {
            return WorkbookOutcome::Unreadable(format!("{}", e));
        },
    };
    match calamine::Reader::worksheet_range_at(&mut wb, 0) {
        Some(Ok(range)) => WorkbookOutcome::Sheet(
            range.rows().map(|row| row.iter().map(data_cell).collect()).collect(),
        ),
        _ => WorkbookOutcome::NoSheet,
    }
}

/// Decodes an uploaded workbook and runs the scoring pipeline over its
/// first sheet. The result is pinned to the decode outcome of the
/// bytes: undecodable bytes give the decode error carrying the
/// decoder's description; a workbook without a readable first sheet, or
/// with a sheet of zero rows, gives the empty-worksheet error; a sheet
/// whose header row is not the expected one gives the format error; and
/// otherwise the decision list of exactly that sheet is returned.
pub fn post_portfolio(bytes: Vec<u8>) -> (r: Result<Vec<LoanDecision>, ApiError>)
    ensures
        match decoded_of(bytes@) {
            WorkbookOutcome::Unreadable(d) => r == Err::<Vec<LoanDecision>, ApiError>(
                ApiError::Unreadable(d),
            ),
            WorkbookOutcome::NoSheet => r == Err::<Vec<LoanDecision>, ApiError>(
                ApiError::EmptyWorksheet,
            ),
            WorkbookOutcome::Sheet(g) => if g@.len() == 0 {
                r == Err::<Vec<LoanDecision>, ApiError>(ApiError::EmptyWorksheet)
            } else if !spec_header_ok(g@[0]@) {
                r == Err::<Vec<LoanDecision>, ApiError>(ApiError::InvalidFormat)
            } else {
                r matches Ok(ds) && spec_decisions_ok(g@, ds@)
            },
        },
{
    match decode_workbook(bytes) {
        WorkbookOutcome::Unreadable(detail) => Err(ApiError::Unreadable(detail)),
        WorkbookOutcome::NoSheet => Err(ApiError::EmptyWorksheet),
        WorkbookOutcome::Sheet(cells) => score_portfolio(&cells),
    }
}

} // verus!
