//! The aggregator: from what a walk below the watch root found to one
//! snapshot, the unread total of each account in the order of the accounts'
//! identifiers.

use crate::decimal::{line_of, render_line};
use crate::index::{
    count_of_captures, regex_group_captures, unread_count, unread_of, MARKER_GROUP, MARKER_PATTERN,
};
use crate::path::{account_of, parse_account, AccountError, Component, ComponentView};
use crate::tally::{lists, total_in, Tally};
use crate::text::{lemma_increasing_unique, strictly_increasing};
use vstd::prelude::*;

verus! {

/// The pattern that the names of the mail client's per-folder index files
/// match.
pub const INDEX_FILES: &'static str = "*.msf";

/// The pattern for the directories below the watch root, at any depth.
pub const ANY_DEPTH: &'static str = "**";

/// One snapshot: the unread total of each account, one entry per account, in
/// the order of the accounts' identifiers.
#[derive(Debug)]
pub struct Count {
    list: Vec<usize>,
}

impl View for Count {
    type V = Seq<usize>;

    closed spec fn view(&self) -> Seq<usize> {
        self.list@
    }
}

impl Count {
    /// The snapshot as the sink shows it: the totals in decimal digits, with
    /// one space between two of them. An empty snapshot is an empty line.
    pub fn display(&self) -> (line: String)
        ensures
            line@ == line_of(self@),
    {
        render_line(&self.list)
    }

    /// The snapshot that holds these totals, which are to stand in the order
    /// of their accounts.
    pub fn from_totals(list: Vec<usize>) -> (count: Count)
        ensures
            count@ == list@,
    {
        Count { list }
    }

    /// The totals, one per account.
    pub fn totals(&self) -> (list: &Vec<usize>)
        ensures
            list@ == self@,
    {
        &self.list
    }
}

/// What the walk below the watch root found at one place.
#[derive(Debug, PartialEq, Eq)]
pub enum Visit {
    /// A place that the walk could not enter, and why.
    Unreachable { shown: String, reason: String },
    /// An index file: its path in components, the path as it is shown to the
    /// user, and the file's text, or else the reason why it could not be read
    /// as text.
    File { path: Vec<Component>, shown: String, contents: Result<String, String> },
}

/// What a [`Visit`] holds.
pub enum VisitView {
    Unreachable { shown: Seq<char>, reason: Seq<char> },
    File { path: Seq<ComponentView>, shown: Seq<char>, contents: Result<Seq<char>, Seq<char>> },
}

impl View for Visit {
    type V = VisitView;

    open spec fn view(&self) -> VisitView {
        match self {
            Visit::Unreachable { shown, reason } => VisitView::Unreachable {
                shown: shown@,
                reason: reason@,
            },
            Visit::File { path, shown, contents } => VisitView::File {
                path: path.deep_view(),
                shown: shown@,
                contents: match contents {
                    Ok(text) => Ok(text@),
                    Err(reason) => Err(reason@),
                },
            },
        }
    }
}

impl DeepView for Visit {
    type V = VisitView;

    open spec fn deep_view(&self) -> VisitView {
        self@
    }
}

/// Why a pass gave no snapshot. Each variant but the last names the path at
/// which the pass stopped.
#[derive(Clone, Debug, PartialEq, Eq)]
pub enum CountError {
    /// The walk could not enter a place.
    Walk { path: String, reason: String },
    /// A file's path names no account.
    Account { path: String, error: AccountError },
    /// A file could not be read as text.
    Unreadable { path: String, reason: String },
    /// The total of an account is more than a `usize` holds.
    Overflow { account: String },
}

/// What a [`CountError`] holds.
pub enum CountErrorView {
    Walk { path: Seq<char>, reason: Seq<char> },
    Account { path: Seq<char>, error: AccountError },
    Unreadable { path: Seq<char>, reason: Seq<char> },
    Overflow { account: Seq<char> },
}

impl View for CountError {
    type V = CountErrorView;

    open spec fn view(&self) -> CountErrorView {
        match self {
            CountError::Walk { path, reason } => CountErrorView::Walk {
                path: path@,
                reason: reason@,
            },
            CountError::Account { path, error } => CountErrorView::Account {
                path: path@,
                error: *error,
            },
            CountError::Unreadable { path, reason } => CountErrorView::Unreadable {
                path: path@,
                reason: reason@,
            },
            CountError::Overflow { account } => CountErrorView::Overflow { account: account@ },
        }
    }
}

/// What one visit gives by itself: the account of the file and the count
/// that the file records, or the error that ends the pass.
pub open spec fn outcome(visit: VisitView, base: Seq<ComponentView>) -> Result<
    (Seq<char>, usize),
    CountErrorView,
> {
    match visit {
        VisitView::Unreachable { shown, reason } => Err(
            CountErrorView::Walk { path: shown, reason },
        ),
        VisitView::File { path, shown, contents } => match account_of(path, base) {
            Err(error) => Err(CountErrorView::Account { path: shown, error }),
            Ok(account) => match contents {
                Err(reason) => Err(CountErrorView::Unreadable { path: shown, reason }),
                Ok(text) => Ok((account, unread_of(text))),
            },
        },
    }
}

/// What one visit adds to the total of `account`: the count of its file
/// where the file belongs to that account, and nothing otherwise.
pub open spec fn share(visit: VisitView, base: Seq<ComponentView>, account: Seq<char>) -> nat {
    match outcome(visit, base) {
        Ok(found) => if found.0 == account {
            found.1 as nat
        } else {
            0
        },
        Err(_) => 0,
    }
}

/// The sum of what the first `n` visits add to the total of `account`.
pub open spec fn total_upto(
    visits: Seq<VisitView>,
    base: Seq<ComponentView>,
    account: Seq<char>,
    n: int,
) -> nat
    decreases n,
{
    if n <= 0 {
        0
    } else {
        total_upto(visits, base, account, n - 1) + share(visits[n - 1], base, account)
    }
}

/// The unread total of `account`: the sum, over the files of that account,
/// of the count that each file records.
pub open spec fn total_of(visits: Seq<VisitView>, base: Seq<ComponentView>, account: Seq<char>) -> nat {
    total_upto(visits, base, account, visits.len() as int)
}

/// Whether one of the first `n` visits found a file of `account`.
pub open spec fn seen_upto(
    visits: Seq<VisitView>,
    base: Seq<ComponentView>,
    account: Seq<char>,
    n: int,
) -> bool {
    exists|i: int| 0 <= i < n && #[trigger] owner(visits[i], base) == Some(account)
}

/// The account that a visit found a file of, if it found one.
pub open spec fn owner(visit: VisitView, base: Seq<ComponentView>) -> Option<Seq<char>> {
    match outcome(visit, base) {
        Ok(found) => Some(found.0),
        Err(_) => None,
    }
}

/// Whether the walk found a file of `account`.
pub open spec fn has_account(visits: Seq<VisitView>, base: Seq<ComponentView>, account: Seq<char>) -> bool {
    seen_upto(visits, base, account, visits.len() as int)
}

/// The error, if any, with which the pass stops at visit `i`: that of the
/// visit itself, or the overflow of its account's running total.
pub open spec fn failure_at(visits: Seq<VisitView>, base: Seq<ComponentView>, i: int) -> Option<
    CountErrorView,
> {
    match outcome(visits[i], base) {
        Err(error) => Some(error),
        Ok(found) => if total_upto(visits, base, found.0, i + 1) > usize::MAX {
            Some(CountErrorView::Overflow { account: found.0 })
        } else {
            None
        },
    }
}

/// The error of the first among the first `n` visits at which the pass
/// stops.
pub open spec fn failure_upto(visits: Seq<VisitView>, base: Seq<ComponentView>, n: int) -> Option<
    CountErrorView,
>
    decreases n,
{
    if n <= 0 {
        None
    } else {
        match failure_upto(visits, base, n - 1) {
            Some(error) => Some(error),
            None => failure_at(visits, base, n - 1),
        }
    }
}

/// The error with which a pass over `visits` ends: that of the first visit
/// at which it stops. `None` where the pass gives a snapshot.
pub open spec fn first_failure(visits: Seq<VisitView>, base: Seq<ComponentView>) -> Option<
    CountErrorView,
> {
    failure_upto(visits, base, visits.len() as int)
}

/// `names` are the accounts that the first `n` visits found, each once and
/// in the order of their identifiers, and `totals` holds for each of them
/// the sum of what those visits add to it.
pub open spec fn tallies(
    totals: Seq<usize>,
    names: Seq<Seq<char>>,
    visits: Seq<VisitView>,
    base: Seq<ComponentView>,
    n: int,
) -> bool {
    &&& names.len() == totals.len()
    &&& strictly_increasing(names)
    &&& forall|account: Seq<char>| #[trigger]
        names.contains(account) <==> seen_upto(visits, base, account, n)
    &&& forall|k: int|
        0 <= k < names.len() ==> (#[trigger] totals[k]) == total_upto(visits, base, names[k], n)
}

/// `totals` is the snapshot of `visits`: one entry for each account that the
/// walk found a file of, the accounts in the order of their identifiers, and
/// each entry the unread total of its account.
pub open spec fn is_snapshot(totals: Seq<usize>, visits: Seq<VisitView>, base: Seq<ComponentView>) -> bool {
    exists|names: Seq<Seq<char>>| #[trigger]
        tallies(totals, names, visits, base, visits.len() as int)
}

/// What [`count_all`] owes for `visits` below `base`.
pub open spec fn is_count_of(
    result: Result<Count, CountError>,
    visits: Seq<VisitView>,
    base: Seq<ComponentView>,
) -> bool {
    match result {
        Ok(count) => first_failure(visits, base) is None && is_snapshot(count@, visits, base),
        Err(error) => first_failure(visits, base) == Some(error@),
    }
}

/// An account that none of the first `n` visits found has no total.
pub proof fn lemma_unseen_total(
    visits: Seq<VisitView>,
    base: Seq<ComponentView>,
    account: Seq<char>,
    n: int,
)
    requires
        !seen_upto(visits, base, account, n),
    ensures
        total_upto(visits, base, account, n) == 0,
    decreases n,
{
    if n > 0 {
        assert(owner(visits[n - 1], base) != Some(account));
        assert(!seen_upto(visits, base, account, n - 1)) by {
            if seen_upto(visits, base, account, n - 1) {
                let i = choose|i: int|
                    0 <= i < n - 1 && #[trigger] owner(visits[i], base) == Some(account);
                assert(0 <= i < n && owner(visits[i], base) == Some(account));
            }
        }
        lemma_unseen_total(visits, base, account, n - 1);
    }
}

/// A walk has one snapshot at most: what [`is_snapshot`] says of a list of
/// totals, it says of no other list.
pub proof fn lemma_snapshot_unique(
    first: Seq<usize>,
    second: Seq<usize>,
    visits: Seq<VisitView>,
    base: Seq<ComponentView>,
)
    requires
        is_snapshot(first, visits, base),
        is_snapshot(second, visits, base),
    ensures
        first == second,
{
    let n = visits.len() as int;
    let a = choose|names: Seq<Seq<char>>| #[trigger] tallies(first, names, visits, base, n);
    let b = choose|names: Seq<Seq<char>>| #[trigger] tallies(second, names, visits, base, n);
    assert forall|x: Seq<char>| a.contains(x) <==> b.contains(x) by {
        assert(a.contains(x) <==> seen_upto(visits, base, x, n));
        assert(b.contains(x) <==> seen_upto(visits, base, x, n));
    }
    lemma_increasing_unique(a, b);
    assert forall|k: int| 0 <= k < first.len() implies first[k] == second[k] by {
        assert(first[k] == total_upto(visits, base, a[k], n));
        assert(second[k] == total_upto(visits, base, b[k], n));
    }
    assert(first =~= second);
}

/// Two passes over the same walk end alike: both with the same snapshot, or
/// both with the same error.
pub proof fn lemma_same_walk_same_result(
    first: Result<Count, CountError>,
    second: Result<Count, CountError>,
    visits: Seq<VisitView>,
    base: Seq<ComponentView>,
)
    requires
        is_count_of(first, visits, base),
        is_count_of(second, visits, base),
    ensures
        match (first, second) {
            (Ok(a), Ok(b)) => a@ == b@,
            (Err(a), Err(b)) => a@ == b@,
            _ => false,
        },
{
    if first is Ok && second is Ok {
        lemma_snapshot_unique(first->Ok_0@, second->Ok_0@, visits, base);
    }
}

/// A file that cannot be read as text ends the pass without a snapshot,
/// wherever in the walk it stands.
pub proof fn lemma_unreadable_file_fails(
    visits: Seq<VisitView>,
    base: Seq<ComponentView>,
    i: int,
)
    requires
        0 <= i < visits.len(),
        visits[i] is File,
        visits[i]->contents is Err,
    ensures
        first_failure(visits, base) is Some,
{
    lemma_failing_visit_fails(visits, base, i);
}

/// A visit that gives an error ends the pass without a snapshot, wherever in
/// the walk it stands.
pub proof fn lemma_failing_visit_fails(visits: Seq<VisitView>, base: Seq<ComponentView>, i: int)
    requires
        0 <= i < visits.len(),
        outcome(visits[i], base) is Err,
    ensures
        first_failure(visits, base) is Some,
{
    lemma_failure_grows(visits, base, i + 1, visits.len() as int);
}

/// None of the first `n` visits stops the pass if and only if the pass does
/// not stop at any of them.
pub proof fn lemma_success_upto(visits: Seq<VisitView>, base: Seq<ComponentView>, n: int)
    requires
        0 <= n <= visits.len(),
    ensures
        failure_upto(visits, base, n) is None <==> forall|i: int|
            0 <= i < n ==> (#[trigger] failure_at(visits, base, i)) is None,
    decreases n,
{
    if n > 0 {
        lemma_success_upto(visits, base, n - 1);
    }
}

/// The pass ends with the error of the first visit at which it stops.
pub proof fn lemma_first_failure(visits: Seq<VisitView>, base: Seq<ComponentView>, i: int)
    requires
        0 <= i < visits.len(),
        forall|j: int| 0 <= j < i ==> (#[trigger] failure_at(visits, base, j)) is None,
        failure_at(visits, base, i) is Some,
    ensures
        first_failure(visits, base) == failure_at(visits, base, i),
{
    lemma_success_upto(visits, base, i);
    lemma_failure_grows(visits, base, i + 1, visits.len() as int);
}

/// A longer run of the walk fails where a shorter one does.
pub proof fn lemma_failure_grows(visits: Seq<VisitView>, base: Seq<ComponentView>, m: int, n: int)
    requires
        m <= n,
        failure_upto(visits, base, m) is Some,
    ensures
        failure_upto(visits, base, n) == failure_upto(visits, base, m),
    decreases n - m,
{
    if m < n {
        lemma_failure_grows(visits, base, m, n - 1);
    }
}

/// A file without a marker adds nothing to the total of its account, and
/// gives no error.
pub proof fn lemma_file_without_marker(
    path: Seq<ComponentView>,
    shown: Seq<char>,
    text: Seq<char>,
    base: Seq<ComponentView>,
    account: Seq<char>,
)
    requires
        account_of(path, base) == Ok::<Seq<char>, AccountError>(account),
    ensures
        count_of_captures(Seq::<Option<Seq<char>>>::empty()) == 0,
        regex_group_captures(MARKER_PATTERN@, MARKER_GROUP@, text) == Some(
            Seq::<Option<Seq<char>>>::empty(),
        ) ==> {
            &&& outcome(VisitView::File { path, shown, contents: Ok(text) }, base) == Ok::<
                (Seq<char>, usize),
                CountErrorView,
            >((account, 0usize))
            &&& forall|other: Seq<char>|
                share(VisitView::File { path, shown, contents: Ok(text) }, base, other) == 0
        },
{
}

/// The accounts that one more visit has seen: those seen before, and the
/// account of that visit's file.
pub proof fn lemma_seen_step(
    visits: Seq<VisitView>,
    base: Seq<ComponentView>,
    n: int,
    account: Seq<char>,
)
    requires
        0 <= n < visits.len(),
        owner(visits[n], base) == Some(account),
    ensures
        forall|a: Seq<char>|
            seen_upto(visits, base, a, n + 1) <==> (seen_upto(visits, base, a, n) || a == account),
{
    assert forall|a: Seq<char>| seen_upto(visits, base, a, n + 1) <==> (seen_upto(
        visits,
        base,
        a,
        n,
    ) || a == account) by {
        if seen_upto(visits, base, a, n + 1) {
            let i = choose|i: int| 0 <= i < n + 1 && #[trigger] owner(visits[i], base) == Some(a);
            if i < n {
                assert(seen_upto(visits, base, a, n));
            }
        }
        if seen_upto(visits, base, a, n) {
            let i = choose|i: int| 0 <= i < n && #[trigger] owner(visits[i], base) == Some(a);
            assert(0 <= i < n + 1 && owner(visits[i], base) == Some(a));
        }
    }
}

/// Aggregates what a walk below the watch root found into one snapshot.
///
/// The visits are taken in the order of the walk. Each file is put to the
/// account that its path names below `watch_dir`, and its count is added to
/// the total of that account. The pass stops at the first visit that could
/// not be entered, whose path names no account, whose file could not be
/// read, or with which the total of its account gets beyond what a `usize`
/// holds, and gives that error and no snapshot. The snapshot lists the
/// totals in the order of the accounts' identifiers, whatever the order of
/// the walk. A walk that found nothing has the empty snapshot.
pub fn count_all(watch_dir: &Vec<Component>, visits: &Vec<Visit>) -> (result: Result<
    Count,
    CountError,
>)
    ensures
        is_count_of(result, visits.deep_view(), watch_dir.deep_view()),
{
    let ghost base = watch_dir.deep_view();
    let ghost all = visits.deep_view();
    let mut tally = Tally::new();
    let mut i: usize = 0;
    while i < visits.len()
        invariant
            0 <= i <= visits.len(),
            all == visits.deep_view(),
            base == watch_dir.deep_view(),
            failure_upto(all, base, i as int) is None,
            forall|a: Seq<char>| #[trigger] tally@.contains_key(a) <==> seen_upto(all, base, a, i as int),
            forall|a: Seq<char>|
                tally@.contains_key(a) ==> (#[trigger] tally@[a]) == total_upto(
                    all,
                    base,
                    a,
                    i as int,
                ),
        decreases visits.len() - i,
    {
        assert(all[i as int] == visits@[i as int]@);
        match &visits[i] {
            Visit::Unreachable { shown, reason } => {
                proof {
                    lemma_failure_grows(all, base, i + 1, all.len() as int);
                }
                return Err(CountError::Walk { path: shown.clone(), reason: reason.clone() });
            },
            Visit::File { path, shown, contents } => {
                let account = match parse_account(path, watch_dir) {
                    Ok(account) => account,
                    Err(error) => {
                        proof {
                            lemma_failure_grows(all, base, i + 1, all.len() as int);
                        }
                        return Err(CountError::Account { path: shown.clone(), error });
                    },
                };
                let text = match contents {
                    Ok(text) => text,
                    Err(reason) => {
                        proof {
                            lemma_failure_grows(all, base, i + 1, all.len() as int);
                        }
                        return Err(
                            CountError::Unreadable { path: shown.clone(), reason: reason.clone() },
                        );
                    },
                };
                let count = unread_count(text.as_str());
                let ghost before = tally@;
                let ghost name = account@;
                proof {
                    assert(owner(all[i as int], base) == Some(name));
                    if !before.contains_key(name) {
                        lemma_unseen_total(all, base, name, i as int);
                    }
                    assert(total_in(before, name) == total_upto(all, base, name, i as int));
                    lemma_seen_step(all, base, i as int, name);
                }
                let kept = account.clone();
                if !tally.add(account, count) {
                    proof {
                        lemma_failure_grows(all, base, i + 1, all.len() as int);
                    }
                    return Err(CountError::Overflow { account: kept });
                }
                proof {
                    assert forall|a: Seq<char>| tally@.contains_key(a) implies (#[trigger] tally@[a])
                        == total_upto(all, base, a, i + 1) by {
                        if a != name {
                            assert(before.contains_key(a));
                            assert(before[a] == total_upto(all, base, a, i as int));
                        }
                    }
                }
            },
        }
        i = i + 1;
    }
    let ghost held = tally@;
    let count = tally.finish();
    proof {
        let names = choose|names: Seq<Seq<char>>| #[trigger] lists(count@, names, held);
        assert forall|k: int| 0 <= k < names.len() implies (#[trigger] count@[k]) == total_upto(
            all,
            base,
            names[k],
            all.len() as int,
        ) by {
            assert(names.contains(names[k]));
            assert(held.contains_key(names[k]));
            assert(held[names[k]] == total_upto(all, base, names[k], i as int));
        }
        assert(tallies(count@, names, all, base, all.len() as int));
    }
    Ok(count)
}

} // verus!
