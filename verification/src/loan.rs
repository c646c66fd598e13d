use vstd::prelude::*;

verus! {

use crate::errors::ApiError;

/// A loan request: client identifier and requested amount in
/// ten-thousandths of a currency unit.
#[derive(Debug, Clone)]
pub struct LoanApplication {
    pub client_id: String,
    pub requested_amount: i64,
}

/// One monthly payment of an amortization schedule. `payment_amount` is
/// one twelfth of the approved amount, held exactly: it is expressed in
/// twelfths of a ten-thousandth of a currency unit, so a payment of
/// `p` stands for `p / 120_000` currency units.
#[derive(Debug, Clone, PartialEq)]
pub struct PaymentDetail {
    pub month: u32,
    pub payment_amount: i64,
}

/// An approved loan: the approved amount (in ten-thousandths) and its
/// 12-month amortization schedule.
#[derive(Debug, Clone)]
pub struct LoanResponse {
    pub client_id: String,
    pub approved_amount: i64,
    pub payment_table: Vec<PaymentDetail>,
}

/// The credit registry: client identifier to maximum approvable amount,
/// in ten-thousandths of a currency unit. Lookup takes the first entry
/// with a matching identifier; `insert` keeps identifiers unique, so the
/// registry behaves as a map.
pub struct CreditRegistry {
    pub entries: Vec<(String, i64)>,
}

/// First-match lookup over registry entries.
pub open spec fn spec_limit(entries: Seq<(String, i64)>, id: Seq<char>) -> Option<i64>
    decreases entries.len(),
{
    if entries.len() == 0 {
        None
    } else if entries[0].0@ == id {
        Some(entries[0].1)
    } else {
        spec_limit(entries.drop_first(), id)
    }
}

impl CreditRegistry {
    pub fn new() -> (r: CreditRegistry)
        ensures
            r.entries@.len() == 0,
            forall|id: Seq<char>| spec_limit(r.entries@, id) is None,
    {
        CreditRegistry { entries: Vec::new() }
    }

    /// Sets a client's credit limit, replacing any earlier one.
    pub fn insert(&mut self, client_id: String, limit: i64)
        ensures
            spec_limit(final(self).entries@, client_id@) == Some(limit),
            forall|id: Seq<char>|
                id != client_id@ ==> #[trigger] spec_limit(final(self).entries@, id) == spec_limit(
                    old(self).entries@,
                    id,
                ),
    {
        let mut j: usize = 0;
        loop
            invariant
                j <= self.entries@.len(),
                self.entries@ == old(self).entries@,
                forall|m: int| 0 <= m < j ==> (#[trigger] self.entries@[m]).0@ != client_id@,
            ensures
                j <= self.entries@.len(),
                self.entries@ == old(self).entries@,
                forall|m: int| 0 <= m < j ==> (#[trigger] self.entries@[m]).0@ != client_id@,
                j < self.entries@.len() ==> self.entries@[j as int].0@ == client_id@,
            decreases self.entries@.len() - j,
        {
            if j == self.entries.len() {
                break ;
            }
            if self.entries[j].0 == client_id {
                break ;
            }
            j = j + 1;
        }
        let ghost entries0 = self.entries@;
        if j < self.entries.len() {
            self.entries.remove(j);
            self.entries.insert(j, (client_id, limit));
            proof {
                assert(self.entries@ =~= entries0.update(j as int, self.entries@[j as int]));
                lemma_limit_prefix(entries0, self.entries@, j as int);
            }
        } else {
            self.entries.push((client_id, limit));
            proof {
                lemma_limit_prefix(entries0, self.entries@, j as int);
            }
        }
    }

    /// Looks a client up; `None` exactly when the identifier is absent.
    pub fn lookup(&self, client_id: &String) -> (r: Option<i64>)
        ensures
            r == spec_limit(self.entries@, client_id@),
    {
        let mut j: usize = 0;
        proof {
            assert(self.entries@.skip(0) =~= self.entries@);
        }
        loop
            invariant
                j <= self.entries@.len(),
                spec_limit(self.entries@, client_id@) == spec_limit(
                    self.entries@.skip(j as int),
                    client_id@,
                ),
            ensures
                j <= self.entries@.len(),
                spec_limit(self.entries@, client_id@) == spec_limit(
                    self.entries@.skip(j as int),
                    client_id@,
                ),
                j == self.entries@.len() || self.entries@[j as int].0@ == client_id@,
            decreases self.entries@.len() - j,
        {
            if j == self.entries.len() {
                proof {
                    assert(self.entries@.skip(j as int) =~= Seq::<(String, i64)>::empty());
                }
                break ;
            }
            proof {
                let rest = self.entries@.skip(j as int);
                assert(rest[0] == self.entries@[j as int]);
                assert(rest.drop_first() =~= self.entries@.skip(j as int + 1));
            }
            if self.entries[j].0 == *client_id {
                break ;
            }
            j = j + 1;
        }
        if j < self.entries.len() {
            proof {
                let rest = self.entries@.skip(j as int);
                assert(rest[0] == self.entries@[j as int]);
            }
            Some(self.entries[j].1)
        } else {
            None
        }
    }
}

/// Updating (or appending) the entry at the position where an
/// identifier first matches, or would first match, changes only that
/// identifier's lookup.
proof fn lemma_limit_prefix(e0: Seq<(String, i64)>, e1: Seq<(String, i64)>, j: int)
    requires
        0 <= j <= e0.len(),
        e1.len() == if j == e0.len() {
            e0.len() + 1
        } else {
            e0.len()
        },
        j < e0.len() ==> (e0[j].0@ == e1[j].0@),
        forall|m: int| 0 <= m < j ==> #[trigger] e1[m] == e0[m],
        forall|m: int| 0 <= m < j ==> (#[trigger] e0[m]).0@ != e1[j].0@,
        forall|m: int| j < m < e1.len() ==> #[trigger] e1[m] == e0[m],
    ensures
        spec_limit(e1, e1[j].0@) == Some(e1[j].1),
        forall|id: Seq<char>|
            id != e1[j].0@ ==> #[trigger] spec_limit(e1, id) == spec_limit(e0, id),
    decreases j,
{
    let key = e1[j].0@;
    if j == 0 {
        assert(spec_limit(e1, key) == Some(e1[0].1));
        assert forall|id: Seq<char>| id != key implies #[trigger] spec_limit(e1, id)
            == spec_limit(e0, id) by {
            assert(spec_limit(e1, id) == spec_limit(e1.drop_first(), id));
            if e0.len() == 0 {
                assert(e1.drop_first() =~= Seq::<(String, i64)>::empty());
            } else {
                assert(e1.drop_first() =~= e0.drop_first());
                assert(e0[0].0@ == key);
                assert(spec_limit(e0, id) == spec_limit(e0.drop_first(), id));
            }
        }
    } else {
        let f0 = e0.drop_first();
        let f1 = e1.drop_first();
        assert(f1[j - 1] == e1[j as int]);
        assert(j - 1 < f0.len() ==> f0[j - 1] == e0[j as int]);
        assert(forall|m: int| 0 <= m < j - 1 ==> #[trigger] f1[m] == e1[m + 1] && f0[m] == e0[m
            + 1]);
        assert(forall|m: int|
            j - 1 < m < f1.len() ==> #[trigger] f1[m] == e1[m + 1] && f0[m] == e0[m + 1]);
        assert(forall|m: int| 0 <= m < j - 1 ==> (#[trigger] f0[m]).0@ != key);
        lemma_limit_prefix(f0, f1, j - 1);
        assert(e0[0] == e1[0]);
        assert(e0[0].0@ != key);
        assert(spec_limit(e1, key) == spec_limit(f1, key));
        assert forall|id: Seq<char>| id != key implies #[trigger] spec_limit(e1, id)
            == spec_limit(e0, id) by {
            if e1[0].0@ == id {
                assert(spec_limit(e1, id) == Some(e1[0].1));
                assert(spec_limit(e0, id) == Some(e0[0].1));
            } else {
                assert(spec_limit(e1, id) == spec_limit(f1, id));
                assert(spec_limit(e0, id) == spec_limit(f0, id));
            }
        }
    }
}

/// Evaluates a loan application against the credit registry: the amount
/// must be strictly positive, the client known, and the amount within
/// the client's limit; an approval carries 12 equal monthly payments
/// numbered 1 through 12, each of one twelfth of the approved amount.
pub fn handle_apply_loan(registry: &CreditRegistry, app: &LoanApplication) -> (r: Result<
    LoanResponse,
    ApiError,
>)
    ensures
        app.requested_amount <= 0 ==> (r matches Err(e) && e is NonPositiveAmount),
        app.requested_amount > 0 ==> match spec_limit(registry.entries@, app.client_id@) {
            None => (r matches Err(e) && e is ClientNotFound),
            Some(limit) => if app.requested_amount > limit {
                r matches Err(e) && e is ExceedsLimit
            } else {
                r matches Ok(resp) && {
                    &&& resp.client_id@ == app.client_id@
                    &&& resp.approved_amount == app.requested_amount
                    &&& resp.payment_table@.len() == 12
                    &&& forall|m: int|
                        0 <= m < 12 ==> (#[trigger] resp.payment_table@[m]).month == m + 1
                            && resp.payment_table@[m].payment_amount == app.requested_amount
                }
            },
        },
{
    if app.requested_amount <= 0 {
        return Err(ApiError::NonPositiveAmount);
    }
    match registry.lookup(&app.client_id) {
        None => Err(ApiError::ClientNotFound),
        Some(limit) => {
            if app.requested_amount > limit {
                return Err(ApiError::ExceedsLimit);
            }
            let mut payment_table: Vec<PaymentDetail> = Vec::new();
            let mut m: u32 = 1;
            while m <= 12
                invariant
                    1 <= m <= 13,
                    payment_table@.len() == m - 1,
                    forall|t: int|
                        0 <= t < payment_table@.len() ==> (#[trigger] payment_table@[t]).month == t
                            + 1 && payment_table@[t].payment_amount == app.requested_amount,
                decreases 13 - m,
            {
                payment_table.push(
                    PaymentDetail { month: m, payment_amount: app.requested_amount },
                );
                m = m + 1;
            }
            Ok(
                LoanResponse {
                    client_id: app.client_id.clone(),
                    approved_amount: app.requested_amount,
                    payment_table,
                },
            )
        },
    }
}

} // verus!
