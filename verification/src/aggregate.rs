use vstd::prelude::*;

verus! {

use vstd::seq_lib::group_to_multiset_ensures;
use crate::sheet::{Row, RowView};

/// Per-client rollup of total revenue (in ten-thousandths of a currency
/// unit) and the distinct months observed, kept sorted ascending without
/// duplicates.
#[derive(Debug, Clone)]
pub struct ClientAggregate {
    pub client_id: String,
    pub total_mrr: u128,
    pub months: Vec<u32>,
}

/// Total revenue of one client over a record sequence.
pub open spec fn spec_total(rows: Seq<RowView>, id: Seq<char>) -> nat
    decreases rows.len(),
{
    if rows.len() == 0 {
        0
    } else {
        spec_total(rows.drop_last(), id) + if rows.last().client_id == id {
            rows.last().amount as nat
        } else {
            0
        }
    }
}

/// The set of distinct months in which a client shows activity.
pub open spec fn spec_months(rows: Seq<RowView>, id: Seq<char>) -> Set<u32>
    decreases rows.len(),
{
    if rows.len() == 0 {
        Set::empty()
    } else if rows.last().client_id == id {
        spec_months(rows.drop_last(), id).insert(rows.last().month)
    } else {
        spec_months(rows.drop_last(), id)
    }
}

/// The distinct client identifiers of a record sequence, in order of
/// first occurrence.
pub open spec fn spec_clients(rows: Seq<RowView>) -> Seq<Seq<char>>
    decreases rows.len(),
{
    if rows.len() == 0 {
        Seq::empty()
    } else {
        let p = spec_clients(rows.drop_last());
        if p.contains(rows.last().client_id) {
            p
        } else {
            p.push(rows.last().client_id)
        }
    }
}

pub open spec fn strictly_sorted(s: Seq<u32>) -> bool {
    forall|a: int, b: int| 0 <= a < b < s.len() ==> s[a] < s[b]
}

/// What `aggregate` promises: one entry per distinct client, in order of
/// first occurrence, each carrying that client's exact total and its
/// sorted, duplicate-free month set.
pub open spec fn aggs_match(aggs: Seq<ClientAggregate>, rows: Seq<RowView>) -> bool {
    &&& aggs.map_values(|a: ClientAggregate| a.client_id@) == spec_clients(rows)
    &&& forall|k: int|
        0 <= k < aggs.len() ==> (#[trigger] aggs[k]).total_mrr == spec_total(
            rows,
            aggs[k].client_id@,
        )
    &&& forall|k: int| 0 <= k < aggs.len() ==> strictly_sorted((#[trigger] aggs[k]).months@)
    &&& forall|k: int|
        0 <= k < aggs.len() ==> (#[trigger] aggs[k]).months@.to_set() == spec_months(
            rows,
            aggs[k].client_id@,
        )
}

/// A client that never occurs in the records has a zero total and an
/// empty month set.
pub proof fn lemma_absent_client(rows: Seq<RowView>, id: Seq<char>)
    requires
        !spec_clients(rows).contains(id),
    ensures
        spec_total(rows, id) == 0,
        spec_months(rows, id) == Set::<u32>::empty(),
    decreases rows.len(),
{
    if rows.len() == 0 {
        assert(spec_months(rows, id) =~= Set::<u32>::empty());
    } else {
        let p = spec_clients(rows.drop_last());
        if p.contains(rows.last().client_id) {
            assert(spec_clients(rows) == p);
        } else {
            assert(spec_clients(rows) == p.push(rows.last().client_id));
            assert(forall|i: int|
                0 <= i < p.len() ==> p[i] == #[trigger] spec_clients(rows)[i]);
        }
        assert(!p.contains(id)) by {
            if p.contains(id) {
                let i = choose|i: int| 0 <= i < p.len() && p[i] == id;
                assert(spec_clients(rows)[i] == id);
            }
        }
        assert(rows.last().client_id != id) by {
            if rows.last().client_id == id {
                if p.contains(id) {
                } else {
                    assert(spec_clients(rows).last() == id);
                }
            }
        }
        lemma_absent_client(rows.drop_last(), id);
    }
}

/// The first-occurrence client list holds no identifier twice.
pub proof fn lemma_clients_no_dup(rows: Seq<RowView>)
    ensures
        spec_clients(rows).no_duplicates(),
    decreases rows.len(),
{
    if rows.len() == 0 {
    } else {
        lemma_clients_no_dup(rows.drop_last());
        let p = spec_clients(rows.drop_last());
        if !p.contains(rows.last().client_id) {
            assert(forall|i: int|
                0 <= i < p.len() ==> p[i] == #[trigger] p.push(rows.last().client_id)[i]);
        }
    }
}

/// A client's total is bounded by the record count times the largest
/// amount any record holds.
pub proof fn lemma_total_bound(rows: Seq<RowView>, id: Seq<char>, cap: u64)
    requires
        forall|i: int| 0 <= i < rows.len() ==> (#[trigger] rows[i]).amount <= cap,
    ensures
        spec_total(rows, id) <= rows.len() * cap,
    decreases rows.len(),
{
    if rows.len() == 0 {
    } else {
        let dl = rows.drop_last();
        assert(forall|i: int| 0 <= i < dl.len() ==> #[trigger] dl[i] == rows[i]);
        lemma_total_bound(dl, id, cap);
        assert(rows.last() == rows[rows.len() - 1]);
        assert((rows.len() - 1) * cap + cap == rows.len() * cap) by (nonlinear_arith);
    }
}

/// Removing one record changes a client's total by exactly that record's
/// contribution.
proof fn lemma_total_remove(rows: Seq<RowView>, i: int, id: Seq<char>)
    requires
        0 <= i < rows.len(),
    ensures
        spec_total(rows, id) == spec_total(rows.remove(i), id) + if rows[i].client_id == id {
            rows[i].amount as nat
        } else {
            0
        },
    decreases rows.len(),
{
    if i == rows.len() - 1 {
        assert(rows.remove(i) =~= rows.drop_last());
    } else {
        let dl = rows.drop_last();
        lemma_total_remove(dl, i, id);
        assert(rows.remove(i).drop_last() =~= dl.remove(i));
        assert(rows.remove(i).last() == rows.last());
    }
}

/// Removing one record removes exactly its month from a client's month
/// set, up to months contributed by other records.
proof fn lemma_months_remove(rows: Seq<RowView>, i: int, id: Seq<char>)
    requires
        0 <= i < rows.len(),
    ensures
        spec_months(rows, id) == if rows[i].client_id == id {
            spec_months(rows.remove(i), id).insert(rows[i].month)
        } else {
            spec_months(rows.remove(i), id)
        },
    decreases rows.len(),
{
    if i == rows.len() - 1 {
        assert(rows.remove(i) =~= rows.drop_last());
    } else {
        let dl = rows.drop_last();
        lemma_months_remove(dl, i, id);
        assert(rows.remove(i).drop_last() =~= dl.remove(i));
        assert(rows.remove(i).last() == rows.last());
        if rows[i].client_id == id && rows.last().client_id == id {
            assert(spec_months(dl.remove(i), id).insert(rows[i].month).insert(rows.last().month)
                =~= spec_months(dl.remove(i), id).insert(rows.last().month).insert(rows[i].month));
        }
    }
}

/// Total revenue per client is a function of the records as a multiset:
/// it does not depend on the order in which records arrive.
pub proof fn lemma_total_order_invariant(r1: Seq<RowView>, r2: Seq<RowView>, id: Seq<char>)
    requires
        r1.to_multiset() == r2.to_multiset(),
    ensures
        spec_total(r1, id) == spec_total(r2, id),
    decreases r1.len(),
{
    broadcast use group_to_multiset_ensures;

    if r1.len() == 0 {
        assert(r1.to_multiset().len() == 0);
        assert(r2.to_multiset().len() == r2.len());
    } else {
        let x = r1.last();
        assert(r1.contains(x));
        assert(r1.to_multiset().count(x) > 0);
        assert(r2.to_multiset().count(x) > 0);
        assert(r2.contains(x));
        let j = choose|j: int| 0 <= j < r2.len() && r2[j] == x;
        assert(r1[r1.len() - 1] == x);
        assert(r1.drop_last() =~= r1.remove(r1.len() - 1));
        assert(r1.remove(r1.len() - 1).to_multiset() == r1.to_multiset().remove(x));
        assert(r2.remove(j).to_multiset() == r2.to_multiset().remove(x));
        lemma_total_order_invariant(r1.drop_last(), r2.remove(j), id);
        lemma_total_remove(r2, j, id);
        assert(spec_total(r1, id) == spec_total(r1.drop_last(), id) + if x.client_id == id {
            x.amount as nat
        } else {
            0
        });
    }
}

/// A client's set of distinct active months is a function of the records
/// as a multiset: it does not depend on record order, and therefore
/// neither does the distinct-active-months count.
pub proof fn lemma_months_order_invariant(r1: Seq<RowView>, r2: Seq<RowView>, id: Seq<char>)
    requires
        r1.to_multiset() == r2.to_multiset(),
    ensures
        spec_months(r1, id) == spec_months(r2, id),
        spec_months(r1, id).len() == spec_months(r2, id).len(),
    decreases r1.len(),
{
    broadcast use group_to_multiset_ensures;

    if r1.len() == 0 {
        assert(r1.to_multiset().len() == 0);
        assert(r2.to_multiset().len() == r2.len());
        assert(spec_months(r1, id) =~= spec_months(r2, id));
    } else {
        let x = r1.last();
        assert(r1.contains(x));
        assert(r1.to_multiset().count(x) > 0);
        assert(r2.to_multiset().count(x) > 0);
        assert(r2.contains(x));
        let j = choose|j: int| 0 <= j < r2.len() && r2[j] == x;
        assert(r1[r1.len() - 1] == x);
        assert(r1.drop_last() =~= r1.remove(r1.len() - 1));
        assert(r1.remove(r1.len() - 1).to_multiset() == r1.to_multiset().remove(x));
        assert(r2.remove(j).to_multiset() == r2.to_multiset().remove(x));
        lemma_months_order_invariant(r1.drop_last(), r2.remove(j), id);
        lemma_months_remove(r2, j, id);
        assert(spec_months(r1, id) == if x.client_id == id {
            spec_months(r1.drop_last(), id).insert(x.month)
        } else {
            spec_months(r1.drop_last(), id)
        });
    }
}

/// A record whose month a client already shows contributes nothing to
/// that client's month set.
proof fn lemma_month_member(rows: Seq<RowView>, i: int, id: Seq<char>)
    requires
        0 <= i < rows.len(),
        rows[i].client_id == id,
    ensures
        spec_months(rows, id).contains(rows[i].month),
    decreases rows.len(),
{
    if i == rows.len() - 1 {
    } else {
        lemma_month_member(rows.drop_last(), i, id);
    }
}

/// Appending a record that repeats an already-recorded (client, month)
/// pair leaves the client's distinct-active-months set unchanged.
pub proof fn lemma_months_duplicate_invariant(rows: Seq<RowView>, extra: RowView)
    requires
        exists|i: int|
            0 <= i < rows.len() && (#[trigger] rows[i]).client_id == extra.client_id
                && rows[i].month == extra.month,
    ensures
        spec_months(rows.push(extra), extra.client_id) == spec_months(rows, extra.client_id),
        spec_months(rows.push(extra), extra.client_id).len() == spec_months(
            rows,
            extra.client_id,
        ).len(),
{
    let i = choose|i: int|
        0 <= i < rows.len() && (#[trigger] rows[i]).client_id == extra.client_id && rows[i].month
            == extra.month;
    lemma_month_member(rows, i, extra.client_id);
    assert(rows.push(extra).drop_last() =~= rows);
    assert(spec_months(rows, extra.client_id).insert(extra.month) =~= spec_months(
        rows,
        extra.client_id,
    ));
}

/// A strictly sorted list has no duplicates, so its length is the size
/// of its set of values.
pub proof fn lemma_sorted_unique_len(s: Seq<u32>)
    requires
        strictly_sorted(s),
    ensures
        s.no_duplicates(),
        s.to_set().len() == s.len(),
{
    assert(s.no_duplicates());
    s.unique_seq_to_set();
}

/// Inserts a month into a sorted duplicate-free list, keeping it so.
pub fn insert_month(months: &mut Vec<u32>, m: u32)
    requires
        strictly_sorted(old(months)@),
    ensures
        strictly_sorted(final(months)@),
        final(months)@.to_set() == old(months)@.to_set().insert(m),
{
    let mut j: usize = 0;
    loop
        invariant
            j <= months@.len(),
            months@ == old(months)@,
            strictly_sorted(months@),
            forall|t: int| 0 <= t < j ==> months@[t] < m,
        ensures
            j <= months@.len(),
            months@ == old(months)@,
            forall|t: int| 0 <= t < j ==> months@[t] < m,
            j == months@.len() || months@[j as int] >= m,
        decreases months@.len() - j,
    {
        if j == months.len() {
            break ;
        }
        if months[j] >= m {
            break ;
        }
        j = j + 1;
    }
    if j < months.len() && months[j] == m {
        proof {
            assert(months@.to_set().contains(m));
            assert(months@.to_set().insert(m) =~= months@.to_set());
        }
        return ;
    }
    proof {
        assert(j < months@.len() ==> months@[j as int] > m);
    }
    let ghost old_s = months@;
    months.insert(j, m);
    proof {
        let new_s = months@;
        assert(new_s == old_s.insert(j as int, m));
        assert(new_s.len() == old_s.len() + 1);
        assert(forall|t: int| 0 <= t < j ==> new_s[t] == old_s[t]);
        assert(new_s[j as int] == m);
        assert(forall|t: int| j < t < new_s.len() ==> new_s[t] == old_s[t - 1]);
        assert(strictly_sorted(new_s)) by {
            assert(forall|a: int, b: int|
                0 <= a < b < new_s.len() ==> new_s[a] < new_s[b]) by {
                assert forall|a: int, b: int| 0 <= a < b < new_s.len() implies new_s[a] < new_s[b]
                by {
                    if a < j && b < j {
                    } else if b == j {
                        assert(new_s[a] == old_s[a] && old_s[a] < m);
                    } else if a == j {
                        assert(new_s[b] == old_s[b - 1] && old_s[j as int] > m ==> old_s[b - 1]
                            >= old_s[j as int]);
                    } else if a < j && b > j {
                        assert(new_s[a] == old_s[a] && new_s[b] == old_s[b - 1] && a <= b - 1);
                    } else {
                        assert(new_s[a] == old_s[a - 1] && new_s[b] == old_s[b - 1]);
                    }
                }
            }
        }
        assert(new_s.to_set() =~= old_s.to_set().insert(m)) by {
            assert forall|x: u32| new_s.to_set().contains(x) implies old_s.to_set().insert(
                m,
            ).contains(x) by {
                let t = choose|t: int| 0 <= t < new_s.len() && new_s[t] == x;
                if t < j {
                    assert(old_s[t] == x);
                } else if t > j {
                    assert(old_s[t - 1] == x);
                }
            }
            assert forall|x: u32| old_s.to_set().insert(m).contains(x) implies
                new_s.to_set().contains(x) by {
                if x == m {
                    assert(new_s[j as int] == x);
                } else {
                    let t = choose|t: int| 0 <= t < old_s.len() && old_s[t] == x;
                    if t < j {
                        assert(new_s[t] == x);
                    } else {
                        assert(new_s[t + 1] == x);
                    }
                }
            }
        }
    }
}

/// Groups the records by client: one aggregate per distinct client, in
/// order of first occurrence, with that client's exact revenue total and
/// distinct active months.
pub fn aggregate(rows: &Vec<Row>) -> (r: Vec<ClientAggregate>)
    ensures
        aggs_match(r@, rows@.map_values(|row: Row| row@)),
{
    let ghost rv = rows@.map_values(|row: Row| row@);
    let mut aggs: Vec<ClientAggregate> = Vec::new();
    proof {
        assert(rv.take(0) =~= Seq::<RowView>::empty());
        assert(aggs@.map_values(|a: ClientAggregate| a.client_id@) =~= spec_clients(rv.take(0)));
    }
    let mut i: usize = 0;
    while i < rows.len()
        invariant
            i <= rows@.len(),
            rv == rows@.map_values(|row: Row| row@),
            aggs_match(aggs@, rv.take(i as int)),
        decreases rows@.len() - i,
    {
        let ghost pv = rv.take(i as int);
        let ghost pv1 = rv.take(i as int + 1);
        let rid: String = rows[i].client_id.clone();
        let amt: u64 = rows[i].amount;
        let mon: u32 = rows[i].month;
        proof {
            assert(pv1.drop_last() =~= pv);
            assert(pv1.last() == rv[i as int]);
            assert(rv[i as int] == rows@[i as int]@);
            lemma_clients_no_dup(pv);
        }
        let mut j: usize = 0;
        loop
            invariant
                j <= aggs@.len(),
                rid@ == rv[i as int].client_id,
                i < rv.len(),
                forall|m: int| 0 <= m < j ==> (#[trigger] aggs@[m]).client_id@ != rid@,
            ensures
                j <= aggs@.len(),
                forall|m: int| 0 <= m < j ==> (#[trigger] aggs@[m]).client_id@ != rid@,
                j < aggs@.len() ==> aggs@[j as int].client_id@ == rid@,
            decreases aggs@.len() - j,
        {
            if j == aggs.len() {
                break ;
            }
            if aggs[j].client_id == rid {
                break ;
            }
            j = j + 1;
        }
        let ghost aggs0 = aggs@;
        let ghost ids0 = aggs0.map_values(|a: ClientAggregate| a.client_id@);
        if j < aggs.len() {
            proof {
                assert(ids0[j as int] == rid@);
                assert(spec_clients(pv).contains(rid@));
                assert(spec_clients(pv1) == spec_clients(pv));
                assert(forall|t: int|
                    0 <= t < pv.len() ==> (#[trigger] pv[t]).amount <= u64::MAX);
                lemma_total_bound(pv, rid@, u64::MAX);
                assert(pv.len() * (u64::MAX as nat) <= (usize::MAX as nat) * (u64::MAX as nat))
                    by (nonlinear_arith)
                    requires
                        pv.len() <= usize::MAX as nat,
                ;
            }
            let entry = aggs.remove(j);
            let new_total: u128 = entry.total_mrr + (amt as u128);
            let mut months = entry.months;
            insert_month(&mut months, mon);
            let ghost nm = months@;
            let updated = ClientAggregate {
                client_id: entry.client_id,
                total_mrr: new_total,
                months,
            };
            aggs.insert(j, updated);
            proof {
                assert(aggs@.len() == aggs0.len());
                assert(forall|k: int|
                    0 <= k < aggs@.len() && k != j ==> #[trigger] aggs@[k] == aggs0[k]);
                assert(aggs@[j as int].client_id@ == rid@);
                assert(aggs@[j as int].total_mrr == spec_total(pv, rid@) + amt);
                assert(aggs@[j as int].months@ == nm);
                assert(aggs@[j as int].months@.to_set() == spec_months(pv, rid@).insert(mon));
                assert(strictly_sorted(aggs@[j as int].months@));
            }
        } else {
            proof {
                assert(!spec_clients(pv).contains(rid@)) by {
                    if spec_clients(pv).contains(rid@) {
                        let m = choose|m: int|
                            0 <= m < spec_clients(pv).len() && spec_clients(pv)[m] == rid@;
                        assert(ids0[m] == rid@);
                        assert((#[trigger] aggs0[m]).client_id@ == rid@);
                    }
                }
                lemma_absent_client(pv, rid@);
                assert(spec_clients(pv1) == spec_clients(pv).push(rid@));
            }
            let mut months: Vec<u32> = Vec::new();
            months.push(mon);
            let ghost nm = months@;
            let entry = ClientAggregate { client_id: rid, total_mrr: amt as u128, months };
            aggs.push(entry);
            proof {
                assert(aggs@.len() == aggs0.len() + 1);
                assert(forall|k: int|
                    0 <= k < aggs0.len() ==> #[trigger] aggs@[k] == aggs0[k]);
                let last = aggs0.len() as int;
                assert(aggs@[last].client_id@ == rid@);
                assert(aggs@[last].total_mrr == amt as u128);
                assert(aggs@[last].months@ == nm);
                assert(nm =~= Seq::<u32>::empty().push(mon));
                assert(nm[0] == mon && nm.len() == 1);
                assert(nm.to_set() =~= Set::<u32>::empty().insert(mon)) by {
                    assert(nm.contains(mon));
                    assert forall|x: u32| nm.to_set().contains(x) implies x == mon by {
                        let t = choose|t: int| 0 <= t < nm.len() && nm[t] == x;
                    }
                }
                assert(aggs@[last].months@.to_set() == spec_months(pv, rid@).insert(mon));
                assert(strictly_sorted(aggs@[last].months@));
            }
        }
        proof {
            let ids1 = aggs@.map_values(|a: ClientAggregate| a.client_id@);
            assert(ids1 =~= spec_clients(pv1));
            assert forall|k: int|
                0 <= k < aggs@.len() implies (#[trigger] aggs@[k]).total_mrr == spec_total(
                pv1,
                aggs@[k].client_id@,
            ) && aggs@[k].months@.to_set() == spec_months(pv1, aggs@[k].client_id@)
                && strictly_sorted(aggs@[k].months@) by {
                if aggs@[k].client_id@ == rid@ {
                    if j < aggs0.len() {
                        if k != j {
                            assert(ids0[k] == (#[trigger] aggs0[k]).client_id@);
                            assert(ids0[k] == ids0[j as int]);
                            assert(false);
                        }
                    } else {
                        if k < aggs0.len() {
                            assert((#[trigger] aggs0[k]).client_id@ != rid@);
                            assert(false);
                        }
                    }
                    assert(spec_total(pv1, rid@) == spec_total(pv, rid@) + amt);
                    assert(spec_months(pv1, rid@) == spec_months(pv, rid@).insert(mon));
                } else {
                    assert(aggs@[k] == aggs0[k]);
                    assert(spec_total(pv1, aggs@[k].client_id@) == spec_total(
                        pv,
                        aggs@[k].client_id@,
                    ));
                    assert(spec_months(pv1, aggs@[k].client_id@) == spec_months(
                        pv,
                        aggs@[k].client_id@,
                    ));
                }
            }
            assert(aggs_match(aggs@, pv1));
        }
        i = i + 1;
    }
    proof {
        assert(rv.take(rv.len() as int) =~= rv);
    }
    aggs
}

} // verus!
