use vstd::prelude::*;

verus! {

use crate::aggregate::{
    aggregate,
    lemma_sorted_unique_len,
    lemma_total_bound,
    spec_clients,
    spec_months,
    spec_total,
};
use crate::errors::ApiError;
use crate::score::{decide, spec_classify, spec_score, LoanDecision, SCORE_TOTAL_CAP};
use crate::sheet::{header_ok, rows_of, spec_header_ok, spec_rows_of, Cell};
use crate::text::AMOUNT_MAX;

/// What a successful scoring run promises: one decision per distinct
/// client of the sheet's data rows, in order of first occurrence, each
/// carrying that client's exact revenue total, exact scaled score, and
/// the classification the score dictates.
pub open spec fn spec_decisions_ok(grid: Seq<Vec<Cell>>, ds: Seq<LoanDecision>) -> bool {
    let rows = spec_rows_of(grid);
    &&& ds.len() == spec_clients(rows).len()
    &&& forall|k: int|
        0 <= k < ds.len() ==> {
            let id = spec_clients(rows)[k];
            &&& (#[trigger] ds[k]).client_id@ == id
            &&& ds[k].total_mrr == spec_total(rows, id)
            &&& ds[k].score == spec_score(spec_total(rows, id), spec_months(rows, id).len())
            &&& ds[k].decision == spec_classify(ds[k].score as int)
        }
}

/// Runs the scoring pipeline over an already-decoded sheet: validates
/// the header, extracts the records leniently, aggregates them per
/// client and scores every client. An empty sheet is rejected as empty,
/// and a sheet whose header row differs from the four expected labels is
/// rejected as a format error.
pub fn score_portfolio(grid: &Vec<Vec<Cell>>) -> (r: Result<Vec<LoanDecision>, ApiError>)
    ensures
        grid@.len() == 0 ==> r == Err::<Vec<LoanDecision>, ApiError>(ApiError::EmptyWorksheet),
        grid@.len() > 0 && !spec_header_ok(grid@[0]@) ==> r == Err::<Vec<LoanDecision>, ApiError>(
            ApiError::InvalidFormat,
        ),
        grid@.len() > 0 && spec_header_ok(grid@[0]@) ==> (r matches Ok(ds) && spec_decisions_ok(
            grid@,
            ds@,
        )),
{
    if grid.len() == 0 {
        return Err(ApiError::EmptyWorksheet);
    }
    if !header_ok(&grid[0]) {
        return Err(ApiError::InvalidFormat);
    }
    let rows = rows_of(grid);
    let n_rows: usize = rows.len();
    let ghost rv = rows@.map_values(|row: crate::sheet::Row| row@);
    proof {
        assert(rv =~= spec_rows_of(grid@));
        assert(rv.len() == n_rows);
    }
    let aggs = aggregate(&rows);
    let mut ds: Vec<LoanDecision> = Vec::new();
    let mut k: usize = 0;
    proof {
        assert(forall|t: int| 0 <= t < rv.len() ==> (#[trigger] rv[t]).amount <= AMOUNT_MAX);
    }
    while k < aggs.len()
        invariant
            k <= aggs@.len(),
            rv.len() == n_rows,
            rv == spec_rows_of(grid@),
            crate::aggregate::aggs_match(aggs@, rv),
            forall|t: int| 0 <= t < rv.len() ==> (#[trigger] rv[t]).amount <= AMOUNT_MAX,
            ds@.len() == k,
            forall|t: int|
                0 <= t < k ==> {
                    let id = spec_clients(rv)[t];
                    &&& (#[trigger] ds@[t]).client_id@ == id
                    &&& ds@[t].total_mrr == spec_total(rv, id)
                    &&& ds@[t].score == spec_score(spec_total(rv, id), spec_months(rv, id).len())
                    &&& ds@[t].decision == spec_classify(ds@[t].score as int)
                },
        decreases aggs@.len() - k,
    {
        let ghost id = aggs@[k as int].client_id@;
        proof {
            assert(aggs@.map_values(|a: crate::aggregate::ClientAggregate| a.client_id@)[k as int]
                == id);
            lemma_total_bound(rv, id, AMOUNT_MAX);
            assert(rv.len() * (AMOUNT_MAX as nat) <= (usize::MAX as nat) * (AMOUNT_MAX as nat))
                by (nonlinear_arith)
                requires
                    rv.len() <= usize::MAX as nat,
            ;
            lemma_sorted_unique_len(aggs@[k as int].months@);
        }
        let a = &aggs[k];
        let d = decide(a.client_id.clone(), a.total_mrr, a.months.len());
        ds.push(d);
        k = k + 1;
    }
    Ok(ds)
}

} // verus!
