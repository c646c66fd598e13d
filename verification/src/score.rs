use vstd::prelude::*;

verus! {

/// The number of expected active months in the churn reference period.
pub const EXPECTED_MONTHS: u32 = 12;

/// Scores are held as exact integers: the real-valued score times this
/// scale. The scale is the least common multiple of the two denominators
/// that appear in the score formula: 10_000_000 (total revenue in
/// ten-thousandths, divided by 1000) and 12 (the churn denominator).
pub const SCORE_SCALE: i128 = 30_000_000;

/// The approval threshold: a real score of exactly 70, times `SCORE_SCALE`.
pub const APPROVAL_BAR: i128 = 2_100_000_000;

/// The scaled penalty for one missing month: 10/12 times `SCORE_SCALE`.
pub const MONTH_PENALTY: i128 = 25_000_000;

/// Totals fed to the scorer must stay below this bound so that the
/// scaled score fits in an `i128`; any total a workbook can produce is
/// far below it.
pub const SCORE_TOTAL_CAP: u128 = 1_000_000_000_000_000_000_000_000_000_000_000_000;

/// Churn numerator in twelfths: `12 - active` when the client was active
/// in fewer than 12 distinct months, and zero otherwise.
pub open spec fn spec_churn_num(active_months: nat) -> nat {
    if active_months < 12 {
        (12 - active_months) as nat
    } else {
        0
    }
}

/// The scaled score: `total / 1000 - churn_rate * 10` expressed over a
/// total in ten-thousandths, times `SCORE_SCALE`.
pub open spec fn spec_score(total: nat, active_months: nat) -> int {
    3 * total - MONTH_PENALTY * spec_churn_num(active_months)
}

/// A decision is `Approved` exactly when the score is strictly above 70.
pub open spec fn spec_classify(score: int) -> Decision {
    if score > APPROVAL_BAR {
        Decision::Approved
    } else {
        Decision::Rejected
    }
}

/// The Approved/Rejected classification assigned to a client.
#[derive(Clone, Copy, Debug, PartialEq, Eq, Structural)]
pub enum Decision {
    Approved,
    Rejected,
}

impl Decision {
    pub open spec fn spec_label(self) -> Seq<char> {
        match self {
            Decision::Approved => "Approved"@,
            Decision::Rejected => "Rejected"@,
        }
    }

    pub fn label(&self) -> (r: String)
        ensures
            r@ == self.spec_label(),
    {
        match self {
            Decision::Approved => "Approved".to_owned(),
            Decision::Rejected => "Rejected".to_owned(),
        }
    }
}

/// One scored client: the output of the risk scorer. `total_mrr` is in
/// ten-thousandths of a currency unit and `score` is the real score
/// times `SCORE_SCALE`.
#[derive(Debug, Clone, PartialEq)]
pub struct LoanDecision {
    pub client_id: String,
    pub total_mrr: u128,
    pub score: i128,
    pub decision: Decision,
}

/// Number of missing months out of the 12-month reference period; the
/// churn rate is this value divided by 12, so it lies in `[0, 1]` and is
/// zero for a client active in 12 or more distinct months.
pub fn churn_num(active_months: usize) -> (r: u32)
    ensures
        r == spec_churn_num(active_months as nat),
        r <= 12,
        active_months >= 12 ==> r == 0,
{
    if active_months < (EXPECTED_MONTHS as usize) {
        EXPECTED_MONTHS - (active_months as u32)
    } else {
        0
    }
}

/// The scaled score of one client aggregate.
pub fn score_value(total: u128, active_months: usize) -> (r: i128)
    requires
        total <= SCORE_TOTAL_CAP,
    ensures
        r == spec_score(total as nat, active_months as nat),
{
    let churn: u32 = churn_num(active_months);
    3 * (total as i128) - MONTH_PENALTY * (churn as i128)
}

/// Classifies a scaled score; the comparison is strict, so a real score
/// of exactly 70 is rejected.
pub fn classify(score: i128) -> (r: Decision)
    ensures
        r == spec_classify(score as int),
{
    if score > APPROVAL_BAR {
        Decision::Approved
    } else {
        Decision::Rejected
    }
}

/// Scores and classifies one client aggregate.
pub fn decide(client_id: String, total_mrr: u128, active_months: usize) -> (r: LoanDecision)
    requires
        total_mrr <= SCORE_TOTAL_CAP,
    ensures
        r.client_id == client_id,
        r.total_mrr == total_mrr,
        r.score == spec_score(total_mrr as nat, active_months as nat),
        r.decision == spec_classify(r.score as int),
{
    let score = score_value(total_mrr, active_months);
    let decision = classify(score);
    LoanDecision { client_id, total_mrr, score, decision }
}

} // verus!
