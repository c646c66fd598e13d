use credit_decisioning::errors::ApiError;
use credit_decisioning::loan::{handle_apply_loan, CreditRegistry, LoanApplication};
use credit_decisioning::status::{get_loan_status, LoanStatus, StatusRegistry};

fn demo_credit_registry() -> CreditRegistry {
    let mut reg = CreditRegistry::new();
    reg.insert("CLIENT001".to_string(), 500_000_000); // 50_000 units
    reg.insert("CLIENT002".to_string(), 750_000_000); // 75_000 units
    reg
}

fn demo_status_registry() -> StatusRegistry {
    let mut reg = StatusRegistry::new();
    reg.insert(
        "CLIENT001".to_string(),
        LoanStatus {
            client_id: "CLIENT001".to_string(),
            status: "Approved".to_string(),
            details: Some("Loan approved and awaiting final documentation.".to_string()),
        },
    );
    reg.insert(
        "CLIENT002".to_string(),
        LoanStatus {
            client_id: "CLIENT002".to_string(),
            status: "Pending Review".to_string(),
            details: Some("Loan application under review.".to_string()),
        },
    );
    reg
}

#[test]
fn over_limit_application_is_rejected() {
    let reg = demo_credit_registry();
    let app = LoanApplication {
        client_id: "CLIENT001".to_string(),
        requested_amount: 600_000_000, // 60_000 against a 50_000 limit
    };
    let e = handle_apply_loan(&reg, &app).unwrap_err();
    assert_eq!(e, ApiError::ExceedsLimit);
    assert_eq!(e.message(), "Loan amount exceeds credit limit");
    assert_eq!(e.status_code(), 400);
}

#[test]
fn within_limit_application_gets_twelve_equal_payments() {
    let reg = demo_credit_registry();
    let app = LoanApplication {
        client_id: "CLIENT001".to_string(),
        requested_amount: 400_000_000, // 40_000
    };
    let resp = handle_apply_loan(&reg, &app).unwrap();
    assert_eq!(resp.client_id, "CLIENT001");
    assert_eq!(resp.approved_amount, 400_000_000);
    assert_eq!(resp.payment_table.len(), 12);
    let mut sum = 0.0f64;
    for (i, p) in resp.payment_table.iter().enumerate() {
        assert_eq!(p.month, (i + 1) as u32);
        let real = p.payment_amount as f64 / 120_000.0;
        assert!((real - 40000.0 / 12.0).abs() < 1e-9);
        sum += real;
    }
    assert!((sum - 40000.0).abs() < 1e-6);
}

#[test]
fn exact_limit_application_is_approved() {
    let reg = demo_credit_registry();
    let app = LoanApplication { client_id: "CLIENT002".to_string(), requested_amount: 750_000_000 };
    assert!(handle_apply_loan(&reg, &app).is_ok());
}

#[test]
fn non_positive_amounts_are_rejected() {
    let reg = demo_credit_registry();
    for amount in [0i64, -1, -400_000_000] {
        let app = LoanApplication { client_id: "CLIENT001".to_string(), requested_amount: amount };
        let e = handle_apply_loan(&reg, &app).unwrap_err();
        assert_eq!(e, ApiError::NonPositiveAmount);
        assert_eq!(e.message(), "Requested amount must be greater than zero");
        assert_eq!(e.status_code(), 400);
    }
}

#[test]
fn unknown_client_application_is_not_found() {
    let reg = demo_credit_registry();
    let app = LoanApplication { client_id: "GHOST".to_string(), requested_amount: 1 };
    let e = handle_apply_loan(&reg, &app).unwrap_err();
    assert_eq!(e, ApiError::ClientNotFound);
    assert_eq!(e.message(), "Client ID not found");
    assert_eq!(e.status_code(), 404);
}

#[test]
fn credit_registry_insert_replaces() {
    let mut reg = CreditRegistry::new();
    reg.insert("A".to_string(), 10);
    reg.insert("A".to_string(), 20);
    assert_eq!(reg.lookup(&"A".to_string()), Some(20));
    assert_eq!(reg.lookup(&"B".to_string()), None);
}

#[test]
fn unknown_client_status_is_not_found() {
    let reg = demo_status_registry();
    let e = get_loan_status(&reg, &"GHOST".to_string()).unwrap_err();
    assert_eq!(e, ApiError::StatusNotFound);
    assert_eq!(e.message(), "Loan status not found");
    assert_eq!(e.status_code(), 404);
}

#[test]
fn empty_client_id_is_rejected() {
    let reg = demo_status_registry();
    let e = get_loan_status(&reg, &"".to_string()).unwrap_err();
    assert_eq!(e, ApiError::EmptyClientId);
    assert_eq!(e.message(), "Client ID cannot be empty");
    assert_eq!(e.status_code(), 400);
}

#[test]
fn whitespace_only_client_id_is_rejected() {
    let reg = demo_status_registry();
    let e = get_loan_status(&reg, &"  \t\n".to_string()).unwrap_err();
    assert_eq!(e, ApiError::EmptyClientId);
}

#[test]
fn known_client_status_is_returned_unchanged() {
    let reg = demo_status_registry();
    let st = get_loan_status(&reg, &"CLIENT002".to_string()).unwrap();
    assert_eq!(
        st,
        &LoanStatus {
            client_id: "CLIENT002".to_string(),
            status: "Pending Review".to_string(),
            details: Some("Loan application under review.".to_string()),
        }
    );
}

#[test]
fn lock_failure_error_shape() {
    let e = ApiError::LockFailure;
    assert_eq!(e.message(), "Failed to acquire lock");
    assert_eq!(e.status_code(), 500);
}
