//! Which lines of a planned backup are booked: each key once, however often it is imported.

use vstd::prelude::*;

use crate::codec::{hex_text, sha256_of};
use crate::error::{Error, Refusal, Result};
use crate::imports::account_tracker::booking::{
    check_new, external_of, occurrence_lines, plan, plan_of, planned, shown_plans, touches, PlannedLine, ShownPlan,
};
use crate::imports::account_tracker::recurrence::{law_occurrences_numbered, Occurrence};
use crate::imports::account_tracker::simulation::read;
use crate::imports::account_tracker::{Backup, ShownBackup, ShownTransaction};
use crate::imports::pipeline::{Import, ShownImport};
use crate::imports::statement::checksum;
use crate::text::{among, int_text, law_int_round_trip, own, same, texts};

verus! {

/// What an import has come to: the keys that the books hold, and what was done with the lines.
#[verifier::ext_equal]
pub struct Tally {
    pub known: Set<Seq<char>>,
    pub created: nat,
    pub skipped_existing: nat,
}

/// A run over planned lines.
#[derive(Debug)]
pub struct Run {
    /// The keys that postings carry.
    pub known: Vec<String>,
    pub created: usize,
    pub skipped_existing: usize,
}

impl View for Run {
    type V = Tally;

    open spec fn view(&self) -> Tally {
        Tally {
            known: texts(self.known@).to_set(),
            created: self.created as nat,
            skipped_existing: self.skipped_existing as nat,
        }
    }
}

/// What a line does to a tally before it is booked: a known key is skipped, any other is counted as
/// created.
pub open spec fn counted(t: Tally, key: Seq<char>) -> Tally {
    if t.known.contains(key) {
        Tally { skipped_existing: t.skipped_existing + 1, ..t }
    } else {
        Tally { created: t.created + 1, ..t }
    }
}

/// What a booked line adds: its key.
pub open spec fn kept(t: Tally, key: Seq<char>) -> Tally {
    Tally { known: t.known.insert(key), ..t }
}

impl Run {
    /// A run over books whose postings carry the keys.
    pub fn new(known: Vec<String>) -> (r: Run)
        ensures
            r@ == (Tally { known: texts(known@).to_set(), created: 0, skipped_existing: 0 }),
    {
        Run { known, created: 0, skipped_existing: 0 }
    }

    /// Takes the next line: whether it is to be booked.
    pub fn take(&mut self, line: &PlannedLine) -> (r: bool)
        requires
            old(self).created < usize::MAX,
            old(self).skipped_existing < usize::MAX,
        ensures
            r == !old(self)@.known.contains(line@.external_id),
            final(self)@ == counted(old(self)@, line@.external_id),
    {
        if among(self.known.as_slice(), line.external_id.as_str()) {
            self.skipped_existing = self.skipped_existing + 1;
            false
        } else {
            self.created = self.created + 1;
            true
        }
    }

    /// Notes that a line was booked.
    pub fn keep(&mut self, line: &PlannedLine)
        ensures
            final(self)@ == kept(old(self)@, line@.external_id),
    {
        let ghost before = texts(self.known@);
        self.known.push(own(line.external_id.as_str()));
        assert(texts(self.known@) =~= before.push(line.external_id@));
        proof {
            assert forall|s: Seq<char>| texts(self.known@).to_set().contains(s) == before.to_set().insert(line.external_id@).contains(s) by {
                let all = before.push(line.external_id@);
                if all.contains(s) {
                    let i = choose|i: int| 0 <= i < all.len() && all[i] == s;
                    if i < before.len() {
                        assert(before[i] == s);
                    }
                }
                if before.contains(s) {
                    let i = choose|i: int| 0 <= i < before.len() && before[i] == s;
                    assert(all[i] == s);
                }
                assert(all[before.len() as int] == line.external_id@);
            }
            assert(texts(self.known@).to_set() =~= before.to_set().insert(line.external_id@));
        }
    }
}

/// A tally after one line, where `posted` says whether the books took its entry.
pub open spec fn after_line(t: Tally, key: Seq<char>, posted: bool) -> Tally {
    if t.known.contains(key) || !posted {
        counted(t, key)
    } else {
        kept(counted(t, key), key)
    }
}

/// A tally after the first `n` lines of a plan.
pub open spec fn after_lines(t: Tally, plan: Seq<ShownPlan>, posted: Seq<bool>, n: nat) -> Tally
    decreases n,
{
    if n == 0 {
        t
    } else {
        after_line(after_lines(t, plan, posted, (n - 1) as nat), plan[n - 1].external_id, posted[n - 1])
    }
}

/// How many of the first `n` lines carry a key that is not known.
pub open spec fn unknown(known: Set<Seq<char>>, plan: Seq<ShownPlan>, n: nat) -> nat
    decreases n,
{
    if n == 0 {
        0
    } else if known.contains(plan[n - 1].external_id) {
        unknown(known, plan, (n - 1) as nat)
    } else {
        unknown(known, plan, (n - 1) as nat) + 1
    }
}

/// The keys of the first `n` lines.
pub open spec fn keys(plan: Seq<ShownPlan>, n: nat) -> Set<Seq<char>> {
    Set::new(|s: Seq<char>| exists|i: int| 0 <= i < n && (#[trigger] plan[i]).external_id == s)
}

/// Whether no two lines of a plan carry one key.
pub open spec fn distinct_keys(plan: Seq<ShownPlan>) -> bool {
    forall|i: int, j: int| 0 <= i < j < plan.len() ==> (#[trigger] plan[i]).external_id != (#[trigger] plan[j]).external_id
}

/// A line whose key the books hold adds no entry: where all keys of a plan are known, nothing is
/// created, every line counts as existing, and the books stay as they are.
pub proof fn law_known_adds_nothing(t: Tally, plan: Seq<ShownPlan>, posted: Seq<bool>, n: nat)
    requires
        n <= plan.len(),
        forall|i: int| 0 <= i < n ==> t.known.contains((#[trigger] plan[i]).external_id),
    ensures
        after_lines(t, plan, posted, n) == (Tally { skipped_existing: t.skipped_existing + n, ..t }),
    decreases n,
{
    if n > 0 {
        law_known_adds_nothing(t, plan, posted, (n - 1) as nat);
        assert(t.known.contains(plan[n - 1].external_id));
    }
}

/// Every line is either created or skipped, keys are never lost, and only keys of the plan are
/// added.
pub proof fn law_lines_told(t: Tally, plan: Seq<ShownPlan>, posted: Seq<bool>, n: nat)
    requires
        n <= plan.len(),
    ensures
        ({
            let r = after_lines(t, plan, posted, n);
            &&& r.created + r.skipped_existing == t.created + t.skipped_existing + n
            &&& t.known.subset_of(r.known)
            &&& r.known.subset_of(t.known.union(keys(plan, n)))
        }),
    decreases n,
{
    if n > 0 {
        law_lines_told(t, plan, posted, (n - 1) as nat);
        let (r, key) = (after_lines(t, plan, posted, (n - 1) as nat), plan[n - 1].external_id);
        assert forall|s: Seq<char>| after_line(r, key, posted[n - 1]).known.contains(s) implies t.known.union(keys(plan, n)).contains(s) by {
            if r.known.contains(s) && !t.known.contains(s) {
                let i = choose|i: int| 0 <= i < n - 1 && (#[trigger] plan[i]).external_id == s;
                assert(plan[i].external_id == s && i < n);
            } else if s == key {
                assert(plan[n - 1].external_id == s);
            }
        }
    }
}

/// A plan whose lines have keys of their own creates exactly the lines that the books did not hold
/// when it began; with all of them posted the books hold every key afterwards.
pub proof fn law_new_lines_created(t: Tally, plan: Seq<ShownPlan>, posted: Seq<bool>, n: nat)
    requires
        n <= plan.len(),
        distinct_keys(plan),
    ensures
        after_lines(t, plan, posted, n).created == t.created + unknown(t.known, plan, n),
        after_lines(t, plan, posted, n).skipped_existing == t.skipped_existing + n - unknown(t.known, plan, n),
        (forall|i: int| 0 <= i < n ==> #[trigger] posted[i]) ==> after_lines(t, plan, posted, n).known == t.known.union(keys(plan, n)),
    decreases n,
{
    if n > 0 {
        let m = (n - 1) as nat;
        law_new_lines_created(t, plan, posted, m);
        law_lines_told(t, plan, posted, m);
        let (r, key) = (after_lines(t, plan, posted, m), plan[n - 1].external_id);
        assert(r.known.contains(key) == t.known.contains(key)) by {
            if r.known.contains(key) && !t.known.contains(key) {
                let i = choose|i: int| 0 <= i < m && (#[trigger] plan[i]).external_id == key;
                assert(plan[i].external_id != plan[n - 1].external_id);
            }
        }
        if forall|i: int| 0 <= i < n ==> #[trigger] posted[i] {
            assert(posted[n - 1]);
            assert forall|s: Seq<char>| keys(plan, n).contains(s) == (keys(plan, m).contains(s) || s == key) by {
                if keys(plan, m).contains(s) {
                    let i = choose|i: int| 0 <= i < m && (#[trigger] plan[i]).external_id == s;
                    assert(plan[i].external_id == s && i < n);
                }
                if keys(plan, n).contains(s) && s != key {
                    let i = choose|i: int| 0 <= i < n && (#[trigger] plan[i]).external_id == s;
                    assert(i < m);
                }
                assert(plan[n - 1].external_id == key);
            }
            assert(after_lines(t, plan, posted, n).known =~= t.known.union(keys(plan, n)));
        }
    } else {
        assert(t.known =~= t.known.union(keys(plan, 0)));
    }
}

/// Importing a newer backup only adds what is new: once the plan of a first backup is booked, the
/// plan of a second one creates exactly its lines whose keys neither the books held before nor the
/// first plan brought.
pub proof fn law_newer_backup(t: Tally, first: Seq<ShownPlan>, posted: Seq<bool>, second: Seq<ShownPlan>, then_posted: Seq<bool>)
    requires
        distinct_keys(first),
        distinct_keys(second),
        forall|i: int| 0 <= i < first.len() ==> #[trigger] posted[i],
    ensures
        ({
            let mid = after_lines(t, first, posted, first.len());
            let end = after_lines(mid, second, then_posted, second.len());
            let fresh = unknown(t.known.union(keys(first, first.len())), second, second.len());
            &&& end.created - mid.created == fresh
            &&& end.skipped_existing - mid.skipped_existing == second.len() - fresh
        }),
{
    law_new_lines_created(t, first, posted, first.len());
    law_new_lines_created(after_lines(t, first, posted, first.len()), second, then_posted, second.len());
}

/// The same plan again adds nothing.
pub proof fn law_same_plan_again(t: Tally, plan: Seq<ShownPlan>, posted: Seq<bool>, then_posted: Seq<bool>)
    requires
        distinct_keys(plan),
        forall|i: int| 0 <= i < plan.len() ==> #[trigger] posted[i],
    ensures
        ({
            let mid = after_lines(t, plan, posted, plan.len());
            after_lines(mid, plan, then_posted, plan.len()) == (Tally { skipped_existing: mid.skipped_existing + plan.len(), ..mid })
        }),
{
    law_new_lines_created(t, plan, posted, plan.len());
    let mid = after_lines(t, plan, posted, plan.len());
    assert forall|i: int| 0 <= i < plan.len() implies mid.known.contains((#[trigger] plan[i]).external_id) by {
        assert(keys(plan, plan.len()).contains(plan[i].external_id));
    }
    law_known_adds_nothing(mid, plan, then_posted, plan.len());
}

/// Whether the transactions of a backup have identities of their own, none of which holds the mark that
/// tells the occurrences of one apart.
pub open spec fn distinct_ids(ts: Seq<ShownTransaction>) -> bool {
    &&& forall|i: int, j: int| 0 <= i < j < ts.len() ==> (#[trigger] ts[i]).id != (#[trigger] ts[j]).id
    &&& forall|i: int| 0 <= i < ts.len() ==> !(#[trigger] ts[i]).id.contains('#')
}

/// Whether the lines of a plan carry the keys of the first `n` transactions, in their order.
spec fn keyed(plan: Seq<ShownPlan>, ts: Seq<ShownTransaction>, n: nat) -> bool {
    &&& forall|i: int| 0 <= i < plan.len() ==> (#[trigger] plan[i]).transaction < n && plan[i].external_id == external_of(
        ts[plan[i].transaction as int],
        plan[i].sequence,
    )
    &&& forall|i: int, j: int|
        0 <= i < j < plan.len() ==> (#[trigger] plan[i]).transaction < (#[trigger] plan[j]).transaction || (plan[i].transaction
            == plan[j].transaction && plan[i].sequence < plan[j].sequence && ts[plan[i].transaction as int].repeat is Some)
}

proof fn lemma_lines_keyed(before: Seq<ShownPlan>, ts: Seq<ShownTransaction>, place: nat, found: Seq<Occurrence>, k: nat)
    requires
        place < ts.len(),
        keyed(before, ts, place),
        k <= found.len(),
        forall|i: int, j: int| 0 <= i < j < found.len() ==> (#[trigger] found[i]).0 < (#[trigger] found[j]).0,
        ts[place as int].repeat is None ==> found.len() <= 1,
    ensures
        keyed(occurrence_lines(before, ts[place as int], place, found, k), ts, place + 1),
        forall|i: int|
            0 <= i < occurrence_lines(before, ts[place as int], place, found, k).len() ==> (#[trigger] occurrence_lines(
                before,
                ts[place as int],
                place,
                found,
                k,
            )[i]).transaction == place ==> k > 0 && occurrence_lines(before, ts[place as int], place, found, k)[i].sequence <= found[k - 1].0,
    decreases k,
{
    if k > 0 {
        lemma_lines_keyed(before, ts, place, found, (k - 1) as nat);
        let lines = occurrence_lines(before, ts[place as int], place, found, (k - 1) as nat);
        if k > 1 {
            assert(found[k - 2].0 < found[k - 1].0);
        }
    }
}

proof fn lemma_planned_keyed(b: ShownBackup, targets: Seq<i64>, expand: bool, n: nat)
    requires
        n <= b.transactions.len(),
        planned(b, targets, expand, n) is Some,
    ensures
        keyed(planned(b, targets, expand, n)->0, b.transactions, n),
    decreases n,
{
    if n > 0 {
        let m = (n - 1) as nat;
        lemma_planned_keyed(b, targets, expand, m);
        let t = b.transactions[n - 1];
        law_occurrences_numbered(t, b.exported_on, false);
        let found = read(t, b.exported_on, expand)->0;
        if touches(t, targets) {
            lemma_lines_keyed(planned(b, targets, expand, m)->0, b.transactions, m, found, found.len());
        }
    }
}

/// The keys of two transactions, or of two occurrences of one, differ.
proof fn lemma_keys_differ(a: ShownTransaction, b: ShownTransaction, i: i64, j: i64)
    requires
        !a.id.contains('#'),
        !b.id.contains('#'),
        a.id != b.id || (a.repeat is Some && b.repeat is Some && i != j),
    ensures
        external_of(a, i) != external_of(b, j),
{
    reveal_strlit("at:");
    reveal_strlit("#");
    let (x, y) = (external_of(a, i), external_of(b, j));
    let (p, q) = (3 + a.id.len() as int, 3 + b.id.len() as int);
    if x == y {
        assert forall|k: int| 3 <= k < p implies x[k] != '#' by {
            assert(x[k] == a.id[k - 3]);
        }
        assert forall|k: int| 3 <= k < q implies y[k] != '#' by {
            assert(y[k] == b.id[k - 3]);
        }
        assert(a.repeat is Some ==> x[p] == '#');
        assert(b.repeat is Some ==> y[q] == '#');
        assert(a.repeat is None ==> x.len() == p);
        assert(b.repeat is None ==> y.len() == q);
        assert(p == q);
        assert(a.id =~= b.id) by {
            assert forall|k: int| 0 <= k < a.id.len() implies a.id[k] == b.id[k] by {
                assert(x[k + 3] == y[k + 3]);
            }
        }
        law_int_round_trip(i);
        law_int_round_trip(j);
        assert(x.skip(p + 1) =~= int_text(i as int));
        assert(y.skip(q + 1) =~= int_text(j as int));
    }
}

/// The lines of a planned backup have keys of their own, where its transactions have.
pub proof fn law_plan_keys(b: ShownBackup, targets: Seq<i64>, expand: bool)
    requires
        distinct_ids(b.transactions),
    ensures
        plan_of(b, targets, expand) matches Ok(plan) ==> distinct_keys(plan),
{
    if let Ok(plan) = plan_of(b, targets, expand) {
        let ts = b.transactions;
        lemma_planned_keyed(b, targets, expand, ts.len());
        assert forall|i: int, j: int| 0 <= i < j < plan.len() implies (#[trigger] plan[i]).external_id != (#[trigger] plan[j]).external_id by {
            let (x, y) = (ts[plan[i].transaction as int], ts[plan[j].transaction as int]);
            if plan[i].transaction < plan[j].transaction {
                assert(x.id != y.id);
            }
            lemma_keys_differ(x, y, plan[i].sequence, plan[j].sequence);
        }
    }
}

/// The tally of books that hold some keys, before an import.
pub open spec fn opened(known: Set<Seq<char>>) -> Tally {
    Tally { known, created: 0, skipped_existing: 0 }
}

/// Whether the first `n` lines were handed to `book` in turn: each with whether its key was not known
/// by then, and `posted` says what came back.
pub open spec fn handed<E, F: Fn(&PlannedLine, bool) -> std::result::Result<bool, E>>(
    book: F,
    t: Tally,
    lines: Seq<PlannedLine>,
    posted: Seq<bool>,
    n: nat,
) -> bool {
    &&& posted.len() == n <= lines.len()
    &&& forall|i: int|
        0 <= i < n ==> call_ensures(
            book,
            (&#[trigger] lines[i], !after_lines(t, shown_plans(lines), posted, i as nat).known.contains(lines[i]@.external_id)),
            Ok::<bool, E>(posted[i]),
        )
}

/// Whether a run over lines came to `end`: every line was handed to `book`.
pub open spec fn ran<E, F: Fn(&PlannedLine, bool) -> std::result::Result<bool, E>>(book: F, t: Tally, lines: Seq<PlannedLine>, end: Tally) -> bool {
    exists|posted: Seq<bool>| #[trigger]
        handed(book, t, lines, posted, lines.len()) && end == after_lines(t, shown_plans(lines), posted, lines.len())
}

/// Whether a run over lines stopped with `e`: `book` failed with it on a line, after those before it.
pub open spec fn stopped<E, F: Fn(&PlannedLine, bool) -> std::result::Result<bool, E>>(book: F, t: Tally, lines: Seq<PlannedLine>, e: E) -> bool {
    exists|posted: Seq<bool>|
        posted.len() < lines.len() && #[trigger] handed(book, t, lines, posted, posted.len()) && call_ensures(
            book,
            (
                &lines[posted.len() as int],
                !after_lines(t, shown_plans(lines), posted, posted.len()).known.contains(lines[posted.len() as int]@.external_id),
            ),
            Err::<bool, E>(e),
        )
}

/// A run over lines with keys of their own creates those that were not known; where the books take
/// every new line, they hold all keys afterwards.
pub proof fn law_run_creates<E, F: Fn(&PlannedLine, bool) -> std::result::Result<bool, E>>(book: F, t: Tally, lines: Seq<PlannedLine>, end: Tally)
    requires
        ran(book, t, lines, end),
        distinct_keys(shown_plans(lines)),
    ensures
        end.created == t.created + unknown(t.known, shown_plans(lines), lines.len()),
        end.skipped_existing == t.skipped_existing + lines.len() - unknown(t.known, shown_plans(lines), lines.len()),
        takes_all(book) ==> end.known == t.known.union(keys(shown_plans(lines), lines.len())),
{
    let plan = shown_plans(lines);
    let n = lines.len();
    let posted = choose|posted: Seq<bool>| #[trigger]
        handed(book, t, lines, posted, lines.len()) && end == after_lines(t, shown_plans(lines), posted, lines.len());
    law_new_lines_created(t, plan, posted, n);
    if takes_all(book) {
        let all = Seq::new(n, |i: int| true);
        lemma_taken(book, t, lines, posted, n);
        law_new_lines_created(t, plan, all, n);
    }
}

/// Whether the books take every new line.
pub open spec fn takes_all<E, F: Fn(&PlannedLine, bool) -> std::result::Result<bool, E>>(book: F) -> bool {
    forall|line: PlannedLine, took: bool| #[trigger] call_ensures(book, (&line, true), Ok::<bool, E>(took)) ==> took
}

proof fn lemma_taken<E, F: Fn(&PlannedLine, bool) -> std::result::Result<bool, E>>(
    book: F,
    t: Tally,
    lines: Seq<PlannedLine>,
    posted: Seq<bool>,
    n: nat,
)
    requires
        takes_all(book),
        handed(book, t, lines, posted, lines.len()),
        n <= lines.len(),
    ensures
        after_lines(t, shown_plans(lines), posted, n) == after_lines(t, shown_plans(lines), Seq::new(lines.len(), |i: int| true), n),
    decreases n,
{
    if n > 0 {
        lemma_taken(book, t, lines, posted, (n - 1) as nat);
        let line = lines[n - 1];
        let new = !after_lines(t, shown_plans(lines), posted, (n - 1) as nat).known.contains(line@.external_id);
        assert(call_ensures(book, (&line, new), Ok::<bool, E>(posted[n - 1])));
    }
}

proof fn lemma_posted_on(t: Tally, plan: Seq<ShownPlan>, posted: Seq<bool>, b: bool, n: nat)
    requires
        n <= posted.len(),
    ensures
        after_lines(t, plan, posted.push(b), n) == after_lines(t, plan, posted, n),
    decreases n,
{
    if n > 0 {
        lemma_posted_on(t, plan, posted, b, (n - 1) as nat);
    }
}

/// Runs over planned lines, on books whose postings carry the keys `known`. `book` is handed each line
/// and whether it is new, and says whether the books took a new one; where it fails, so does the run.
pub fn run_lines<E, F: Fn(&PlannedLine, bool) -> std::result::Result<bool, E>>(known: Vec<String>, lines: &[PlannedLine], book: F) -> (r: std::result::Result<
    Run,
    E,
>)
    requires
        forall|i: int, new: bool| 0 <= i < lines@.len() ==> call_requires(book, (&#[trigger] lines@[i], new)),
    ensures
        ({
            let t = opened(texts(known@).to_set());
            match r {
                Ok(run) => ran(book, t, lines@, run@),
                Err(e) => stopped(book, t, lines@, e),
            }
        }),
{
    let ghost t = opened(texts(known@).to_set());
    let ghost plan = shown_plans(lines@);
    let ghost mut posted: Seq<bool> = Seq::empty();
    let mut run = Run::new(known);
    let mut i: usize = 0;
    while i < lines.len()
        invariant
            i <= lines@.len(),
            plan == shown_plans(lines@),
            t.created == 0 && t.skipped_existing == 0,
            forall|j: int, new: bool| 0 <= j < lines@.len() ==> call_requires(book, (&#[trigger] lines@[j], new)),
            handed(book, t, lines@, posted, i as nat),
            run@ == after_lines(t, plan, posted, i as nat),
            t == opened(texts(known@).to_set()),
        decreases lines@.len() - i,
    {
        proof {
            law_lines_told(t, plan, posted, i as nat);
            assert(plan[i as int] == lines@[i as int]@);
        }
        let line = &lines[i];
        let new = run.take(line);
        match book(line, new) {
            Err(e) => {
                return Err(e);
            },
            Ok(took) => {
                if new && took {
                    run.keep(line);
                }
                proof {
                    let after = posted.push(took);
                    assert forall|j: int| 0 <= j <= i implies call_ensures(
                        book,
                        (&#[trigger] lines@[j], !after_lines(t, plan, after, j as nat).known.contains(lines@[j]@.external_id)),
                        Ok::<bool, E>(after[j]),
                    ) by {
                        lemma_posted_on(t, plan, posted, took, j as nat);
                    }
                    lemma_posted_on(t, plan, posted, took, i as nat);
                    posted = after;
                }
            },
        }
        i = i + 1;
    }
    Ok(run)
}

/// Whether the run over the lines of a plan came to `end`.
pub open spec fn plan_ran<E, F: Fn(&PlannedLine, bool) -> std::result::Result<bool, E>>(book: F, t: Tally, plan: Seq<ShownPlan>, end: Tally) -> bool {
    exists|lines: Seq<PlannedLine>| shown_plans(lines) == plan && #[trigger] ran(book, t, lines, end)
}

/// Whether the run over the lines of a plan stopped with `e`.
pub open spec fn plan_stopped<E, F: Fn(&PlannedLine, bool) -> std::result::Result<bool, E>>(book: F, t: Tally, plan: Seq<ShownPlan>, e: E) -> bool {
    exists|lines: Seq<PlannedLine>| shown_plans(lines) == plan && #[trigger] stopped(book, t, lines, e)
}

/// Whether an import created exactly the planned lines that were not known, and skipped the others.
pub open spec fn adds_new(plan: Seq<ShownPlan>, known: Set<Seq<char>>, end: Tally) -> bool {
    &&& end.created == unknown(known, plan, plan.len())
    &&& end.skipped_existing == plan.len() - unknown(known, plan, plan.len())
}

/// Whether the books hold every key of a plan after its import, beside those that they held.
pub open spec fn holds_all(plan: Seq<ShownPlan>, known: Set<Seq<char>>, end: Tally) -> bool {
    end.known == known.union(keys(plan, plan.len()))
}

/// Why an import of a backup stops.
pub enum Halted<E> {
    /// The backup cannot be planned.
    Refused(Error),
    /// A line could not be handled.
    Failed(E),
}

/// Imports the transactions of a backup, on books whose postings carry the keys `known`. `book` is
/// handed each planned line and whether it is new. Where the transactions have identities of their
/// own, what is created are exactly the planned lines whose keys the books did not hold: importing a
/// newer backup adds what is new, and the same backup again adds nothing.
pub fn import_transactions<E, F: Fn(&PlannedLine, bool) -> std::result::Result<bool, E>>(
    b: &Backup,
    targets: &[i64],
    expand: bool,
    known: Vec<String>,
    book: F,
) -> (r: std::result::Result<Run, Halted<E>>)
    requires
        forall|line: PlannedLine, new: bool| call_requires(book, (&line, new)),
    ensures
        ({
            let t = opened(texts(known@).to_set());
            match r {
                Ok(run) => plan_of(b@, targets@, expand) matches Ok(p) && plan_ran(book, t, p, run@),
                Err(Halted::Refused(e)) => plan_of(b@, targets@, expand) == Err::<Seq<ShownPlan>, Refusal>(e@),
                Err(Halted::Failed(e)) => plan_of(b@, targets@, expand) matches Ok(p) && plan_stopped(book, t, p, e),
            }
        }),
        distinct_ids(b@.transactions) ==> (r matches Ok(run) ==> adds_new(
            plan_of(b@, targets@, expand)->Ok_0,
            texts(known@).to_set(),
            run@,
        )),
        distinct_ids(b@.transactions) && takes_all(book) ==> (r matches Ok(run) ==> holds_all(
            plan_of(b@, targets@, expand)->Ok_0,
            texts(known@).to_set(),
            run@,
        )),
{
    let ghost t = opened(texts(known@).to_set());
    let lines = match plan(b, targets, expand) {
        Ok(v) => v,
        Err(e) => {
            return Err(Halted::Refused(e));
        },
    };
    match run_lines(known, lines.as_slice(), book) {
        Err(e) => {
            assert(stopped(book, t, lines@, e));
            assert(plan_stopped(book, t, shown_plans(lines@), e));
            Err(Halted::Failed(e))
        },
        Ok(run) => {
            assert(ran(book, t, lines@, run@));
            assert(plan_ran(book, t, shown_plans(lines@), run@));
            proof {
                if distinct_ids(b@.transactions) {
                    law_plan_keys(b@, targets@, expand);
                    law_run_creates(book, t, lines@, run@);
                }
            }
            Ok(run)
        },
    }
}

/// The import, from `i` on, that holds a backup with a checksum.
pub open spec fn holder(imports: Seq<ShownImport>, sum: Seq<char>, i: int) -> Option<i64>
    decreases imports.len() - i,
{
    if i < 0 || i >= imports.len() {
        None
    } else if imports[i].source == "account_tracker"@ && imports[i].checksum == sum {
        Some(imports[i].id)
    } else {
        holder(imports, sum, i + 1)
    }
}

/// A backup is imported once: its content is refused where an import holds it.
pub fn check_content(imports: &[Import], content: &[u8]) -> (r: Result<()>)
    ensures
        match holder(imports@.map_values(|m: Import| m@), hex_text(sha256_of(content@)), 0) {
            Some(id) => r matches Err(e) && e.conflict("this backup was already imported (import #"@ + int_text(id as int) + ")"@),
            None => r is Ok,
        },
{
    let sum = checksum(content);
    let ghost shown = imports@.map_values(|m: Import| m@);
    let mut i: usize = 0;
    while i < imports.len()
        invariant
            i <= imports@.len(),
            shown == imports@.map_values(|m: Import| m@),
            sum@ == hex_text(sha256_of(content@)),
            holder(shown, sum@, 0) == holder(shown, sum@, i as int),
        decreases imports@.len() - i,
    {
        assert(shown[i as int] == imports@[i as int]@);
        if same(imports[i].source.as_str(), "account_tracker") && same(imports[i].checksum.as_str(), sum.as_str()) {
            assert(holder(shown, sum@, i as int) == Some(imports@[i as int].id));
            return check_new(Some(imports[i].id));
        }
        i = i + 1;
    }
    check_new(None)
}

/// Once an import holds a backup, the same content is refused, whatever else was imported.
pub proof fn law_content_once(imports: Seq<ShownImport>, content: Seq<u8>, k: int, i: int)
    requires
        0 <= i <= k < imports.len(),
        imports[k].source == "account_tracker"@,
        imports[k].checksum == hex_text(sha256_of(content)),
    ensures
        holder(imports, hex_text(sha256_of(content)), i) is Some,
    decreases k - i,
{
    if i < k {
        law_content_once(imports, content, k, i + 1);
    }
}

/// Importing a newer backup after an older one only adds what is new, and the same backup again adds
/// nothing: what the second import creates are exactly its planned lines whose keys the books did not
/// hold and the first plan did not bring.
pub proof fn law_backups_in_turn(t: Tally, older: ShownBackup, newer: ShownBackup, targets: Seq<i64>, expand: bool, posted: Seq<bool>, then_posted: Seq<bool>)
    requires
        distinct_ids(older.transactions),
        distinct_ids(newer.transactions),
        plan_of(older, targets, expand) is Ok,
        plan_of(newer, targets, expand) is Ok,
        forall|i: int| 0 <= i < (plan_of(older, targets, expand)->Ok_0).len() ==> #[trigger] posted[i],
    ensures
        ({
            let (first, second) = (plan_of(older, targets, expand)->Ok_0, plan_of(newer, targets, expand)->Ok_0);
            let mid = after_lines(t, first, posted, first.len());
            let end = after_lines(mid, second, then_posted, second.len());
            &&& end.created - mid.created == unknown(t.known.union(keys(first, first.len())), second, second.len())
            &&& end.created + end.skipped_existing == mid.created + mid.skipped_existing + second.len()
            &&& first == second ==> end.created == mid.created && end.known == mid.known
        }),
{
    let (first, second) = (plan_of(older, targets, expand)->Ok_0, plan_of(newer, targets, expand)->Ok_0);
    law_plan_keys(older, targets, expand);
    law_plan_keys(newer, targets, expand);
    law_newer_backup(t, first, posted, second, then_posted);
    law_same_plan_again(t, first, posted, then_posted);
}

/// Importing a backup after another, on the books that the first import left: it creates exactly the
/// planned lines whose keys the books did not hold and the first plan did not bring; the same backup
/// again creates nothing, and leaves the keys as they are.
pub proof fn law_imports_in_turn<E, F: Fn(&PlannedLine, bool) -> std::result::Result<bool, E>, G: Fn(&PlannedLine, bool) -> std::result::Result<bool, E>>(
    known: Set<Seq<char>>,
    older: ShownBackup,
    newer: ShownBackup,
    targets: Seq<i64>,
    expand: bool,
    book: F,
    mid: Tally,
    then_book: G,
    end: Tally,
)
    requires
        distinct_ids(older.transactions),
        distinct_ids(newer.transactions),
        takes_all(book),
        plan_of(older, targets, expand) matches Ok(p) && plan_ran(book, opened(known), p, mid),
        plan_of(newer, targets, expand) matches Ok(p) && plan_ran(then_book, opened(mid.known), p, end),
    ensures
        ({
            let (first, second) = (plan_of(older, targets, expand)->Ok_0, plan_of(newer, targets, expand)->Ok_0);
            &&& adds_new(first, known, mid)
            &&& adds_new(second, known.union(keys(first, first.len())), end)
            &&& older == newer ==> end.created == 0 && end.skipped_existing == first.len() && end.known == mid.known
        }),
{
    let (first, second) = (plan_of(older, targets, expand)->Ok_0, plan_of(newer, targets, expand)->Ok_0);
    law_plan_keys(older, targets, expand);
    law_plan_keys(newer, targets, expand);
    let a = choose|lines: Seq<PlannedLine>| shown_plans(lines) == first && #[trigger] ran(book, opened(known), lines, mid);
    law_run_creates(book, opened(known), a, mid);
    let b = choose|lines: Seq<PlannedLine>| shown_plans(lines) == second && #[trigger] ran(then_book, opened(mid.known), lines, end);
    law_run_creates(then_book, opened(mid.known), b, end);
    if older == newer {
        let posted = choose|posted: Seq<bool>| #[trigger]
            handed(then_book, opened(mid.known), b, posted, b.len()) && end == after_lines(opened(mid.known), shown_plans(b), posted, b.len());
        assert forall|i: int| 0 <= i < first.len() implies mid.known.contains((#[trigger] first[i]).external_id) by {
            assert(keys(first, first.len()).contains(first[i].external_id));
        }
        law_known_adds_nothing(opened(mid.known), first, posted, first.len());
    }
}

} // verus!
