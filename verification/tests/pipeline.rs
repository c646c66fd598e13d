use credit_decisioning::errors::ApiError;
use credit_decisioning::portfolio::score_portfolio;
use credit_decisioning::score::Decision;
use credit_decisioning::sheet::Cell;
use credit_decisioning::text::{parse_amount, parse_month, AMOUNT_MAX};
use credit_decisioning::workbook::post_portfolio;

fn header() -> Vec<Cell> {
    vec![
        Cell::Text("ID_CLIENTE".to_string()),
        Cell::Text("MONTO (USD)".to_string()),
        Cell::Text("AÑO".to_string()),
        Cell::Text("MES".to_string()),
    ]
}

fn data_row(id: &str, amount: &str, year: &str, month: &str) -> Vec<Cell> {
    vec![
        Cell::Text(id.to_string()),
        Cell::Num(amount.to_string()),
        Cell::Num(year.to_string()),
        Cell::Num(month.to_string()),
    ]
}

#[test]
fn parse_amount_exact_values() {
    assert_eq!(parse_amount("80000"), 800_000_000);
    assert_eq!(parse_amount("70.0001"), 700_001);
    assert_eq!(parse_amount("3.14159"), 31_415);
    assert_eq!(parse_amount("0.5"), 5_000);
    assert_eq!(parse_amount("0"), 0);
}

#[test]
fn parse_amount_fallbacks() {
    assert_eq!(parse_amount(""), 0);
    assert_eq!(parse_amount("abc"), 0);
    assert_eq!(parse_amount("-5"), 0);
    assert_eq!(parse_amount("5."), 0);
    assert_eq!(parse_amount(".5"), 0);
    assert_eq!(parse_amount("1.2.3"), 0);
    assert_eq!(parse_amount("NaN"), 0);
    assert_eq!(parse_amount("inf"), 0);
}

#[test]
fn parse_amount_saturates() {
    assert_eq!(parse_amount("999999999999999999999"), AMOUNT_MAX);
    assert_eq!(parse_amount("100000000000"), AMOUNT_MAX);
    assert_eq!(parse_amount("99999999999.9999"), AMOUNT_MAX - 1);
}

#[test]
fn parse_month_truncates() {
    assert_eq!(parse_month("5"), 5);
    assert_eq!(parse_month("5.7"), 5);
    assert_eq!(parse_month("12"), 12);
    assert_eq!(parse_month("-3"), 0);
    assert_eq!(parse_month(""), 0);
    assert_eq!(parse_month("x"), 0);
    assert_eq!(parse_month("99999999999"), u32::MAX);
}

#[test]
fn one_record_round_trip() {
    // One client, revenue 80000, active only in month 5: eleven months
    // are missing, so the score is 80000/1000 - (11/12)*10 = 70.8333...
    let grid = vec![header(), data_row("CLIENT009", "80000", "2024", "5")];
    let ds = score_portfolio(&grid).expect("valid workbook");
    assert_eq!(ds.len(), 1);
    assert_eq!(ds[0].client_id, "CLIENT009");
    assert_eq!(ds[0].total_mrr, 800_000_000);
    let real_total = ds[0].total_mrr as f64 / 10_000.0;
    assert_eq!(real_total, 80000.0);
    let real_score = ds[0].score as f64 / 30_000_000.0;
    assert!((real_score - (80000.0 / 1000.0 - (11.0 / 12.0) * 10.0)).abs() < 1e-9);
    assert_eq!(ds[0].decision, Decision::Approved);
}

#[test]
fn totals_ignore_record_order() {
    let g1 = vec![
        header(),
        data_row("A", "100.5", "2024", "1"),
        data_row("B", "7", "2024", "2"),
        data_row("A", "0.25", "2024", "3"),
    ];
    let g2 = vec![
        header(),
        data_row("A", "0.25", "2024", "3"),
        data_row("B", "7", "2024", "2"),
        data_row("A", "100.5", "2024", "1"),
    ];
    let d1 = score_portfolio(&g1).unwrap();
    let d2 = score_portfolio(&g2).unwrap();
    let total = |ds: &Vec<credit_decisioning::score::LoanDecision>, id: &str| {
        ds.iter().find(|d| d.client_id == id).unwrap().total_mrr
    };
    assert_eq!(total(&d1, "A"), 1_007_500);
    assert_eq!(total(&d1, "A"), total(&d2, "A"));
    assert_eq!(total(&d1, "B"), total(&d2, "B"));
}

#[test]
fn distinct_months_ignore_duplicates_and_order() {
    let g1 = vec![
        header(),
        data_row("A", "1", "2024", "1"),
        data_row("A", "1", "2024", "1"),
        data_row("A", "1", "2024", "2"),
    ];
    let g2 = vec![
        header(),
        data_row("A", "1", "2024", "2"),
        data_row("A", "1", "2024", "1"),
    ];
    let d1 = score_portfolio(&g1).unwrap();
    let d2 = score_portfolio(&g2).unwrap();
    // Two distinct months either way; only the totals differ.
    assert_eq!(d1[0].score - 3 * (d1[0].total_mrr as i128), d2[0].score - 3 * (d2[0].total_mrr as i128));
}

#[test]
fn lenient_cell_fallbacks() {
    // A numeric identifier reads as empty text, a text amount as zero.
    let grid = vec![
        header(),
        vec![
            Cell::Num("7".to_string()),
            Cell::Text("oops".to_string()),
            Cell::Num("2024".to_string()),
            Cell::Num("3".to_string()),
        ],
    ];
    let ds = score_portfolio(&grid).unwrap();
    assert_eq!(ds.len(), 1);
    assert_eq!(ds[0].client_id, "");
    assert_eq!(ds[0].total_mrr, 0);
}

#[test]
fn short_rows_fall_back_to_defaults() {
    let grid = vec![header(), vec![Cell::Text("A".to_string())]];
    let ds = score_portfolio(&grid).unwrap();
    assert_eq!(ds.len(), 1);
    assert_eq!(ds[0].client_id, "A");
    assert_eq!(ds[0].total_mrr, 0);
}

#[test]
fn wrong_header_labels_are_a_format_error() {
    let grid = vec![
        vec![
            Cell::Text("ID".to_string()),
            Cell::Text("MONTO (USD)".to_string()),
            Cell::Text("AÑO".to_string()),
            Cell::Text("MES".to_string()),
        ],
        data_row("A", "1", "2024", "1"),
    ];
    let e = score_portfolio(&grid).unwrap_err();
    assert_eq!(e, ApiError::InvalidFormat);
    assert_eq!(e.message(), "Invalid Excel format");
    assert_eq!(e.status_code(), 400);
}

#[test]
fn wrong_header_count_is_a_format_error() {
    let mut h = header();
    h.push(Cell::Text("EXTRA".to_string()));
    let grid = vec![h];
    assert_eq!(score_portfolio(&grid).unwrap_err(), ApiError::InvalidFormat);

    let short = vec![vec![Cell::Text("ID_CLIENTE".to_string())]];
    assert_eq!(score_portfolio(&short).unwrap_err(), ApiError::InvalidFormat);
}

#[test]
fn reordered_header_is_a_format_error() {
    let grid = vec![vec![
        Cell::Text("MONTO (USD)".to_string()),
        Cell::Text("ID_CLIENTE".to_string()),
        Cell::Text("AÑO".to_string()),
        Cell::Text("MES".to_string()),
    ]];
    assert_eq!(score_portfolio(&grid).unwrap_err(), ApiError::InvalidFormat);
}

#[test]
fn empty_sheet_is_an_empty_worksheet_error() {
    let grid: Vec<Vec<Cell>> = Vec::new();
    let e = score_portfolio(&grid).unwrap_err();
    assert_eq!(e, ApiError::EmptyWorksheet);
    assert_eq!(e.message(), "Invalid or empty worksheet");
    assert_eq!(e.status_code(), 400);
}

#[test]
fn header_only_sheet_yields_no_decisions() {
    let grid = vec![header()];
    let ds = score_portfolio(&grid).unwrap();
    assert!(ds.is_empty());
}

#[test]
fn undecodable_bytes_are_rejected() {
    let e = post_portfolio(b"this is not a workbook".to_vec()).unwrap_err();
    match &e {
        ApiError::Unreadable(_) => {}
        other => panic!("expected an unreadable-file error, got {:?}", other),
    }
    assert_eq!(e.status_code(), 500);
    assert!(e.message().starts_with("Failed to read XLSX file: "));
}
