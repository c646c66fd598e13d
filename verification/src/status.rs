use vstd::prelude::*;

verus! {

use vstd::string::StrSliceExecFns;
use crate::errors::ApiError;

/// A stored loan-status record: status label and optional free-text
/// detail.
#[derive(Debug, Clone, PartialEq)]
pub struct LoanStatus {
    pub client_id: String,
    pub status: String,
    pub details: Option<String>,
}

/// The loan-status registry: client identifier to status record.
/// Lookup takes the first entry with a matching identifier.
pub struct StatusRegistry {
    pub entries: Vec<(String, LoanStatus)>,
}

/// The White_Space code points, as `str::trim` sees them.
pub open spec fn is_space(c: char) -> bool {
    ||| c == ' '
    ||| c == '\u{9}'
    ||| c == '\u{A}'
    ||| c == '\u{B}'
    ||| c == '\u{C}'
    ||| c == '\u{D}'
    ||| c == '\u{85}'
    ||| c == '\u{A0}'
    ||| c == '\u{1680}'
    ||| c == '\u{2000}'
    ||| c == '\u{2001}'
    ||| c == '\u{2002}'
    ||| c == '\u{2003}'
    ||| c == '\u{2004}'
    ||| c == '\u{2005}'
    ||| c == '\u{2006}'
    ||| c == '\u{2007}'
    ||| c == '\u{2008}'
    ||| c == '\u{2009}'
    ||| c == '\u{200A}'
    ||| c == '\u{2028}'
    ||| c == '\u{2029}'
    ||| c == '\u{202F}'
    ||| c == '\u{205F}'
    ||| c == '\u{3000}'
}

/// An identifier that trimming would reduce to nothing: empty, or made
/// of whitespace alone.
pub open spec fn spec_blank(s: Seq<char>) -> bool {
    forall|i: int| 0 <= i < s.len() ==> is_space(#[trigger] s[i])
}

fn is_space_char(c: char) -> (b: bool)
    ensures
        b == is_space(c),
{
    c == ' ' || c == '\u{9}' || c == '\u{A}' || c == '\u{B}' || c == '\u{C}' || c == '\u{D}'
        || c == '\u{85}' || c == '\u{A0}' || c == '\u{1680}' || c == '\u{2000}' || c == '\u{2001}'
        || c == '\u{2002}' || c == '\u{2003}' || c == '\u{2004}' || c == '\u{2005}'
        || c == '\u{2006}' || c == '\u{2007}' || c == '\u{2008}' || c == '\u{2009}'
        || c == '\u{200A}' || c == '\u{2028}' || c == '\u{2029}' || c == '\u{202F}'
        || c == '\u{205F}' || c == '\u{3000}'
}

/// Whether an identifier is empty or whitespace-only.
pub fn is_blank(s: &str) -> (r: bool)
    ensures
        r == spec_blank(s@),
{
    let n: usize = s.unicode_len();
    let mut i: usize = 0;
    while i < n
        invariant
            i <= n,
            n == s@.len(),
            forall|t: int| 0 <= t < i ==> is_space(#[trigger] s@[t]),
        decreases n - i,
    {
        if !is_space_char(s.get_char(i)) {
            return false;
        }
        i = i + 1;
    }
    true
}

/// First-match lookup over registry entries.
pub open spec fn spec_status(entries: Seq<(String, LoanStatus)>, id: Seq<char>) -> Option<
    LoanStatus,
>
    decreases entries.len(),
{
    if entries.len() == 0 {
        None
    } else if entries[0].0@ == id {
        Some(entries[0].1)
    } else {
        spec_status(entries.drop_first(), id)
    }
}

impl StatusRegistry {
    pub fn new() -> (r: StatusRegistry)
        ensures
            r.entries@.len() == 0,
            forall|id: Seq<char>| spec_status(r.entries@, id) is None,
    {
        StatusRegistry { entries: Vec::new() }
    }

    /// Adds a status record under an identifier not yet present.
    pub fn insert(&mut self, client_id: String, record: LoanStatus)
        requires
            spec_status(old(self).entries@, client_id@) is None,
        ensures
            spec_status(final(self).entries@, client_id@) == Some(record),
            forall|id: Seq<char>|
                id != client_id@ ==> #[trigger] spec_status(final(self).entries@, id)
                    == spec_status(old(self).entries@, id),
    {
        let ghost e0 = self.entries@;
        self.entries.push((client_id, record));
        proof {
            lemma_status_append(e0, self.entries@[e0.len() as int]);
            assert(self.entries@ =~= e0.push(self.entries@[e0.len() as int]));
        }
    }

    /// Looks a client up; `None` exactly when the identifier is absent.
    pub fn lookup<'a>(&'a self, client_id: &String) -> (r: Option<&'a LoanStatus>)
        ensures
            match r {
                Some(st) => spec_status(self.entries@, client_id@) == Some(*st),
                None => spec_status(self.entries@, client_id@) is None,
            },
    {
        let mut j: usize = 0;
        proof {
            assert(self.entries@.skip(0) =~= self.entries@);
        }
        loop
            invariant
                j <= self.entries@.len(),
                spec_status(self.entries@, client_id@) == spec_status(
                    self.entries@.skip(j as int),
                    client_id@,
                ),
            ensures
                j <= self.entries@.len(),
                spec_status(self.entries@, client_id@) == spec_status(
                    self.entries@.skip(j as int),
                    client_id@,
                ),
                j == self.entries@.len() || self.entries@[j as int].0@ == client_id@,
            decreases self.entries@.len() - j,
        {
            if j == self.entries.len() {
                proof {
                    assert(self.entries@.skip(j as int) =~= Seq::<(String, LoanStatus)>::empty());
                }
                break ;
            }
            proof {
                let rest = self.entries@.skip(j as int);
                assert(rest[0] == self.entries@[j as int]);
                assert(rest.drop_first() =~= self.entries@.skip(j as int + 1));
            }
            if self.entries[j].0 == *client_id {
                break ;
            }
            j = j + 1;
        }
        if j < self.entries.len() {
            proof {
                let rest = self.entries@.skip(j as int);
                assert(rest[0] == self.entries@[j as int]);
            }
            Some(&self.entries[j].1)
        } else {
            None
        }
    }
}

/// Appending an entry under a fresh identifier changes only that
/// identifier's lookup.
proof fn lemma_status_append(e0: Seq<(String, LoanStatus)>, entry: (String, LoanStatus))
    ensures
        spec_status(e0, entry.0@) is None ==> spec_status(e0.push(entry), entry.0@) == Some(
            entry.1,
        ),
        forall|id: Seq<char>|
            id != entry.0@ ==> #[trigger] spec_status(e0.push(entry), id) == spec_status(e0, id),
    decreases e0.len(),
{
    let e1 = e0.push(entry);
    if e0.len() == 0 {
        assert(e1[0] == entry);
        assert(e1.drop_first() =~= Seq::<(String, LoanStatus)>::empty());
        assert forall|id: Seq<char>| id != entry.0@ implies #[trigger] spec_status(e1, id)
            == spec_status(e0, id) by {
            assert(spec_status(e1, id) == spec_status(e1.drop_first(), id));
        }
    } else {
        lemma_status_append(e0.drop_first(), entry);
        assert(e1[0] == e0[0]);
        assert(e1.drop_first() =~= e0.drop_first().push(entry));
        assert forall|id: Seq<char>| id != entry.0@ implies #[trigger] spec_status(e1, id)
            == spec_status(e0, id) by {
            if e0[0].0@ == id {
                assert(spec_status(e1, id) == Some(e1[0].1));
                assert(spec_status(e0, id) == Some(e0[0].1));
            } else {
                assert(spec_status(e1, id) == spec_status(e1.drop_first(), id));
                assert(spec_status(e0, id) == spec_status(e0.drop_first(), id));
            }
        }
    }
}

/// Looks up a client's stored status record: an empty or
/// whitespace-only identifier is rejected, an unknown identifier is not
/// found, and otherwise the stored record is returned unchanged.
pub fn get_loan_status<'a>(registry: &'a StatusRegistry, client_id: &String) -> (r: Result<
    &'a LoanStatus,
    ApiError,
>)
    ensures
        spec_blank(client_id@) ==> (r matches Err(e) && e is EmptyClientId),
        !spec_blank(client_id@) && spec_status(registry.entries@, client_id@) is None ==> (
        r matches Err(e) && e is StatusNotFound),
        !spec_blank(client_id@) ==> match spec_status(registry.entries@, client_id@) {
            Some(st) => r matches Ok(found) && *found == st,
            None => r is Err,
        },
{
    if is_blank(client_id.as_str()) {
        return Err(ApiError::EmptyClientId);
    }
    match registry.lookup(client_id) {
        Some(st) => Ok(st),
        None => Err(ApiError::StatusNotFound),
    }
}

} // verus!
