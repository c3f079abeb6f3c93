//! Change history: who changed what, before and after.

use vstd::prelude::*;

use crate::text::same;

verus! {

#[derive(Debug)]
pub struct AuditRow {
    pub id: i64,
    pub at: String,
    pub table_name: String,
    pub row_id: i64,
    pub action: String,
    pub before: Option<String>,
    pub after: Option<String>,
}

/// Whether a change is one of a row.
pub open spec fn concerns(a: AuditRow, table: Seq<char>, row_id: i64) -> bool {
    a.table_name@ == table && a.row_id == row_id
}

/// The places of the changes of a row among the first `n`.
pub open spec fn history_of(log: Seq<AuditRow>, table: Seq<char>, row_id: i64, n: nat) -> Seq<int>
    decreases n,
{
    if n == 0 {
        Seq::empty()
    } else if concerns(log[n - 1], table, row_id) {
        history_of(log, table, row_id, (n - 1) as nat).push(n - 1)
    } else {
        history_of(log, table, row_id, (n - 1) as nat)
    }
}

/// The changes of a row, in the order in which they were logged.
pub fn history<'a>(log: &'a [AuditRow], table: &str, row_id: i64) -> (r: Vec<&'a AuditRow>)
    ensures
        r@.len() == history_of(log@, table@, row_id, log@.len()).len(),
        forall|k: int| 0 <= k < r@.len() ==> *(#[trigger] r@[k]) == log@[history_of(log@, table@, row_id, log@.len())[k]],
{
    let mut r: Vec<&'a AuditRow> = Vec::new();
    let mut i: usize = 0;
    while i < log.len()
        invariant
            i <= log.len(),
            r@.len() == history_of(log@, table@, row_id, i as nat).len(),
            forall|k: int| 0 <= k < r@.len() ==> *(#[trigger] r@[k]) == log@[history_of(log@, table@, row_id, i as nat)[k]],
        decreases log.len() - i,
    {
        if same(log[i].table_name.as_str(), table) && log[i].row_id == row_id {
            r.push(&log[i]);
        }
        i = i + 1;
    }
    r
}

} // verus!
