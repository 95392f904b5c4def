//! The order of the walk does not matter.
//!
//! A walk hands its visits over in some order, and another walk over the
//! same tree may hand the same visits over in another. The snapshot is the
//! same, and so is whether there is one: only which error is reported, where
//! several visits fail, depends on which of them comes first.

use crate::count::{
    failure_at, first_failure, has_account, is_snapshot, lemma_success_upto, outcome, owner,
    seen_upto, share, tallies, total_of, total_upto, VisitView,
};
use crate::path::ComponentView;
use crate::text::lemma_increasing_unique;
use vstd::prelude::*;
use vstd::seq_lib::{to_multiset_contains, to_multiset_len, to_multiset_remove};

verus! {

/// Every visit gives an account and a count, and every account's total is
/// one that a `usize` holds.
pub open spec fn all_fit(visits: Seq<VisitView>, base: Seq<ComponentView>) -> bool {
    &&& forall|i: int| 0 <= i < visits.len() ==> (#[trigger] outcome(visits[i], base)) is Ok
    &&& forall|account: Seq<char>| #[trigger] total_of(visits, base, account) <= usize::MAX
}

/// A longer run of the walk gives no account less than a shorter one.
pub proof fn lemma_total_grows(
    visits: Seq<VisitView>,
    base: Seq<ComponentView>,
    account: Seq<char>,
    m: int,
    n: int,
)
    requires
        m <= n,
    ensures
        total_upto(visits, base, account, m) <= total_upto(visits, base, account, n),
    decreases n - m,
{
    if m < n {
        lemma_total_grows(visits, base, account, m, n - 1);
    }
}

/// An account that has a total has a last file: a visit of that account
/// after which its total does not change any more.
pub proof fn lemma_last_file(
    visits: Seq<VisitView>,
    base: Seq<ComponentView>,
    account: Seq<char>,
    n: int,
) -> (i: int)
    requires
        0 <= n <= visits.len(),
        total_upto(visits, base, account, n) > 0,
    ensures
        0 <= i < n,
        owner(visits[i], base) == Some(account),
        total_upto(visits, base, account, i + 1) == total_upto(visits, base, account, n),
    decreases n,
{
    if owner(visits[n - 1], base) == Some(account) {
        n - 1
    } else {
        lemma_last_file(visits, base, account, n - 1)
    }
}

/// A pass gives a snapshot if and only if every visit gives an account and a
/// count and every account's total is one that a `usize` holds.
pub proof fn lemma_success_means_all_fit(visits: Seq<VisitView>, base: Seq<ComponentView>)
    ensures
        first_failure(visits, base) is None <==> all_fit(visits, base),
{
    let n = visits.len() as int;
    lemma_success_upto(visits, base, n);
    if first_failure(visits, base) is None {
        assert forall|i: int| 0 <= i < n implies (#[trigger] outcome(visits[i], base)) is Ok by {
            assert(failure_at(visits, base, i) is None);
        }
        assert forall|account: Seq<char>| #[trigger]
            total_of(visits, base, account) <= usize::MAX by {
            if total_of(visits, base, account) > 0 {
                let i = lemma_last_file(visits, base, account, n);
                assert(failure_at(visits, base, i) is None);
            }
        }
    }
    if all_fit(visits, base) {
        assert forall|i: int| 0 <= i < n implies (#[trigger] failure_at(visits, base, i)) is None by {
            assert(outcome(visits[i], base) is Ok);
            let account = outcome(visits[i], base)->Ok_0.0;
            lemma_total_grows(visits, base, account, i + 1, n);
            assert(total_of(visits, base, account) <= usize::MAX);
        }
    }
}

/// Taking one visit out of the walk takes its share out of the total.
pub proof fn lemma_total_without(
    visits: Seq<VisitView>,
    base: Seq<ComponentView>,
    account: Seq<char>,
    j: int,
    n: int,
)
    requires
        0 <= j < visits.len(),
        0 <= n <= visits.len(),
    ensures
        n <= j ==> total_upto(visits, base, account, n) == total_upto(
            visits.remove(j),
            base,
            account,
            n,
        ),
        n > j ==> total_upto(visits, base, account, n) == total_upto(
            visits.remove(j),
            base,
            account,
            n - 1,
        ) + share(visits[j], base, account),
    decreases n,
{
    if n > 0 {
        lemma_total_without(visits, base, account, j, n - 1);
        if n - 1 < j {
            assert(visits.remove(j)[n - 1] == visits[n - 1]);
        } else if n - 1 > j {
            assert(visits.remove(j)[n - 2] == visits[n - 1]);
        }
    }
}

/// Two walks that hold the same visits give every account the same total.
pub proof fn lemma_same_visits_same_total(
    first: Seq<VisitView>,
    second: Seq<VisitView>,
    base: Seq<ComponentView>,
    account: Seq<char>,
)
    requires
        first.to_multiset() == second.to_multiset(),
    ensures
        total_of(first, base, account) == total_of(second, base, account),
    decreases first.len(),
{
    to_multiset_len(first);
    to_multiset_len(second);
    if first.len() > 0 {
        let last = first.len() - 1;
        let x = first[last];
        assert(first.contains(x));
        to_multiset_contains(first, x);
        to_multiset_contains(second, x);
        let j = choose|j: int| 0 <= j < second.len() && second[j] == x;
        to_multiset_remove(first, last);
        to_multiset_remove(second, j);
        lemma_same_visits_same_total(first.remove(last), second.remove(j), base, account);
        lemma_total_without(first, base, account, last, first.len() as int);
        lemma_total_without(second, base, account, j, second.len() as int);
    }
}

/// What is true of every visit of one walk is true of every visit of a walk
/// that holds the same visits.
proof fn lemma_same_visits_same_members(first: Seq<VisitView>, second: Seq<VisitView>, i: int) -> (j:
    int)
    requires
        first.to_multiset() == second.to_multiset(),
        0 <= i < first.len(),
    ensures
        0 <= j < second.len(),
        second[j] == first[i],
{
    let x = first[i];
    assert(first.contains(x));
    to_multiset_contains(first, x);
    to_multiset_contains(second, x);
    choose|j: int| 0 <= j < second.len() && second[j] == x
}

/// Two walks that hold the same visits found files of the same accounts.
pub proof fn lemma_same_visits_same_accounts(
    first: Seq<VisitView>,
    second: Seq<VisitView>,
    base: Seq<ComponentView>,
    account: Seq<char>,
)
    requires
        first.to_multiset() == second.to_multiset(),
    ensures
        has_account(first, base, account) <==> has_account(second, base, account),
{
    if has_account(first, base, account) {
        let i = choose|i: int|
            0 <= i < first.len() && #[trigger] owner(first[i], base) == Some(account);
        let j = lemma_same_visits_same_members(first, second, i);
        assert(owner(second[j], base) == Some(account));
    }
    if has_account(second, base, account) {
        let i = choose|i: int|
            0 <= i < second.len() && #[trigger] owner(second[i], base) == Some(account);
        let j = lemma_same_visits_same_members(second, first, i);
        assert(owner(first[j], base) == Some(account));
    }
}

/// Whether a pass gives a snapshot does not depend on the order of the
/// walk.
pub proof fn lemma_order_keeps_success(
    first: Seq<VisitView>,
    second: Seq<VisitView>,
    base: Seq<ComponentView>,
)
    requires
        first.to_multiset() == second.to_multiset(),
    ensures
        first_failure(first, base) is None <==> first_failure(second, base) is None,
{
    lemma_success_means_all_fit(first, base);
    lemma_success_means_all_fit(second, base);
    if all_fit(first, base) {
        lemma_same_visits_fit(first, second, base);
    }
    if all_fit(second, base) {
        lemma_same_visits_fit(second, first, base);
    }
}

proof fn lemma_same_visits_fit(
    first: Seq<VisitView>,
    second: Seq<VisitView>,
    base: Seq<ComponentView>,
)
    requires
        first.to_multiset() == second.to_multiset(),
        all_fit(first, base),
    ensures
        all_fit(second, base),
{
    assert forall|i: int| 0 <= i < second.len() implies (#[trigger] outcome(second[i], base)) is Ok by {
        let j = lemma_same_visits_same_members(second, first, i);
        assert(outcome(first[j], base) is Ok);
    }
    assert forall|account: Seq<char>| #[trigger]
        total_of(second, base, account) <= usize::MAX by {
        lemma_same_visits_same_total(first, second, base, account);
        assert(total_of(first, base, account) <= usize::MAX);
    }
}

/// The snapshot does not depend on the order of the walk: two walks that
/// hold the same visits, in whatever order, have the same snapshot, with its
/// entries in the order of the accounts' identifiers.
pub proof fn lemma_order_keeps_snapshot(
    first: Seq<VisitView>,
    second: Seq<VisitView>,
    base: Seq<ComponentView>,
    totals: Seq<usize>,
    others: Seq<usize>,
)
    requires
        first.to_multiset() == second.to_multiset(),
        is_snapshot(totals, first, base),
        is_snapshot(others, second, base),
    ensures
        totals == others,
{
    let a = choose|names: Seq<Seq<char>>| #[trigger]
        tallies(totals, names, first, base, first.len() as int);
    let b = choose|names: Seq<Seq<char>>| #[trigger]
        tallies(others, names, second, base, second.len() as int);
    assert forall|x: Seq<char>| a.contains(x) <==> b.contains(x) by {
        lemma_same_visits_same_accounts(first, second, base, x);
        assert(a.contains(x) <==> seen_upto(first, base, x, first.len() as int));
        assert(b.contains(x) <==> seen_upto(second, base, x, second.len() as int));
    }
    lemma_increasing_unique(a, b);
    assert forall|k: int| 0 <= k < totals.len() implies totals[k] == others[k] by {
        lemma_same_visits_same_total(first, second, base, a[k]);
        assert(totals[k] == total_upto(first, base, a[k], first.len() as int));
        assert(others[k] == total_upto(second, base, b[k], second.len() as int));
    }
    assert(totals =~= others);
}

} // verus!
