use credit_decisioning::score::{
    churn_num, classify, decide, score_value, Decision, APPROVAL_BAR, SCORE_SCALE,
};

#[test]
fn churn_rate_is_zero_for_full_year() {
    assert_eq!(churn_num(12), 0);
    assert_eq!(churn_num(13), 0);
    assert_eq!(churn_num(100), 0);
}

#[test]
fn churn_rate_stays_between_zero_and_one() {
    for active in 0usize..=12 {
        let num = churn_num(active);
        let rate = num as f64 / 12.0;
        assert!((0.0..=1.0).contains(&rate));
    }
    assert_eq!(churn_num(0), 12);
    assert_eq!(churn_num(5), 7);
}

#[test]
fn score_of_exactly_seventy_is_rejected() {
    // A real score of exactly 70.0 sits right on the bar.
    assert_eq!(APPROVAL_BAR, 70 * SCORE_SCALE);
    assert_eq!(classify(APPROVAL_BAR), Decision::Rejected);
}

#[test]
fn score_just_above_seventy_is_approved() {
    // A real score of 70.0001 is 70.0001 * 30_000_000 = 2_100_003_000.
    assert_eq!(classify(2_100_003_000), Decision::Approved);
    assert_eq!(classify(APPROVAL_BAR + 1), Decision::Approved);
}

#[test]
fn score_formula_is_exact() {
    // 80_000 currency units of revenue, one active month:
    // score = 80_000/1000 - (11/12)*10 = 70.8333...
    let total = 800_000_000u128; // ten-thousandths
    let s = score_value(total, 1);
    assert_eq!(s, 2_125_000_000);
    let real = s as f64 / SCORE_SCALE as f64;
    assert!((real - 70.83333333).abs() < 1e-6);
}

#[test]
fn decide_tolerates_zero_revenue() {
    let d = decide("X".to_string(), 0, 0);
    assert_eq!(d.total_mrr, 0);
    assert_eq!(d.score, -300_000_000);
    assert_eq!(d.decision, Decision::Rejected);
}

#[test]
fn decision_labels() {
    assert_eq!(Decision::Approved.label(), "Approved");
    assert_eq!(Decision::Rejected.label(), "Rejected");
}
