use credit_decisioning::aggregate::{aggregate, insert_month};
use credit_decisioning::sheet::Row;

fn row(id: &str, amount: u64, month: u32) -> Row {
    Row { client_id: id.to_string(), amount, month }
}

#[test]
fn aggregate_totals_each_client_exactly() {
    let rows = vec![
        row("B", 10, 3),
        row("A", 5, 1),
        row("B", 2, 3),
        row("A", 0, 7),
        row("C", 1, 12),
    ];
    let aggs = aggregate(&rows);
    assert_eq!(aggs.len(), 3);
    let total = |id: &str| aggs.iter().find(|a| a.client_id == id).unwrap().total_mrr;
    assert_eq!(total("A"), 5);
    assert_eq!(total("B"), 12);
    assert_eq!(total("C"), 1);
}

#[test]
fn aggregate_deduplicates_and_sorts_months() {
    let rows = vec![
        row("A", 1, 9),
        row("A", 1, 2),
        row("A", 1, 9),
        row("A", 1, 2),
        row("A", 1, 5),
    ];
    let aggs = aggregate(&rows);
    assert_eq!(aggs.len(), 1);
    assert_eq!(aggs[0].months, vec![2, 5, 9]);
}

#[test]
fn aggregate_totals_are_order_independent() {
    let forwards = vec![row("A", 3, 1), row("A", 4, 2), row("B", 9, 6)];
    let backwards = vec![row("B", 9, 6), row("A", 4, 2), row("A", 3, 1)];
    let f = aggregate(&forwards);
    let b = aggregate(&backwards);
    let total = |aggs: &Vec<credit_decisioning::aggregate::ClientAggregate>, id: &str| {
        aggs.iter().find(|a| a.client_id == id).unwrap().total_mrr
    };
    assert_eq!(total(&f, "A"), total(&b, "A"));
    assert_eq!(total(&f, "B"), total(&b, "B"));
    let months = |aggs: &Vec<credit_decisioning::aggregate::ClientAggregate>, id: &str| {
        aggs.iter().find(|a| a.client_id == id).unwrap().months.clone()
    };
    assert_eq!(months(&f, "A"), months(&b, "A"));
}

#[test]
fn insert_month_keeps_sorted_unique() {
    let mut months = vec![2u32, 5, 9];
    insert_month(&mut months, 5);
    assert_eq!(months, vec![2, 5, 9]);
    insert_month(&mut months, 1);
    assert_eq!(months, vec![1, 2, 5, 9]);
    insert_month(&mut months, 12);
    assert_eq!(months, vec![1, 2, 5, 9, 12]);
    insert_month(&mut months, 6);
    assert_eq!(months, vec![1, 2, 5, 6, 9, 12]);
}
