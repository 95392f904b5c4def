//! The running total of each account during one pass.
//!
//! The accounts are kept in the order of their identifiers, each once, so
//! that the snapshot can be read off at the end of the pass.

use crate::count::Count;
use crate::text::{
    lemma_increasing_unique, lemma_text_lt_asymmetric, lemma_text_lt_transitive, order_of,
    strictly_increasing, text_lt, Order,
};
use vstd::prelude::*;

verus! {

/// The totals of the accounts seen so far.
#[derive(Debug)]
pub struct Tally {
    names: Vec<String>,
    totals: Vec<usize>,
}

/// `totals` holds the values of `tally`, one for each of its keys, in the
/// order of the keys.
pub open spec fn in_key_order(totals: Seq<usize>, tally: Map<Seq<char>, usize>) -> bool {
    exists|names: Seq<Seq<char>>| #[trigger] lists(totals, names, tally)
}

/// `names` holds the keys of `tally`, each once and in their order, and
/// `totals` the value of each.
pub open spec fn lists(totals: Seq<usize>, names: Seq<Seq<char>>, tally: Map<Seq<char>, usize>) -> bool {
    &&& names.len() == totals.len()
    &&& strictly_increasing(names)
    &&& forall|account: Seq<char>| #[trigger] names.contains(account) <==> tally.contains_key(account)
    &&& forall|k: int| 0 <= k < names.len() ==> (#[trigger] totals[k]) == tally[names[k]]
}

/// The total of `account` in `tally`: nothing where it has none yet.
pub open spec fn total_in(tally: Map<Seq<char>, usize>, account: Seq<char>) -> nat {
    if tally.contains_key(account) {
        tally[account] as nat
    } else {
        0
    }
}

/// A tally has its values in the order of its keys in one way only.
pub proof fn lemma_key_order_unique(
    first: Seq<usize>,
    second: Seq<usize>,
    tally: Map<Seq<char>, usize>,
)
    requires
        in_key_order(first, tally),
        in_key_order(second, tally),
    ensures
        first == second,
{
    let a = choose|names: Seq<Seq<char>>| #[trigger] lists(first, names, tally);
    let b = choose|names: Seq<Seq<char>>| #[trigger] lists(second, names, tally);
    assert forall|x: Seq<char>| a.contains(x) <==> b.contains(x) by {
        assert(a.contains(x) <==> tally.contains_key(x));
        assert(b.contains(x) <==> tally.contains_key(x));
    }
    lemma_increasing_unique(a, b);
    assert forall|k: int| 0 <= k < first.len() implies first[k] == second[k] by {
        assert(first[k] == tally[a[k]]);
        assert(second[k] == tally[b[k]]);
    }
    assert(first =~= second);
}

impl View for Tally {
    type V = Map<Seq<char>, usize>;

    /// The total of each account that has one.
    closed spec fn view(&self) -> Map<Seq<char>, usize> {
        let names = self.names.deep_view();
        let totals = self.totals@;
        Map::new(|account: Seq<char>| names.contains(account), |account: Seq<char>| totals[names.index_of(account)])
    }
}

impl Tally {
    /// The tally is in order: its accounts stand in the order of their
    /// identifiers, each once and with one total.
    #[verifier::type_invariant]
    closed spec fn wf(&self) -> bool {
        &&& self.names.len() == self.totals.len()
        &&& strictly_increasing(self.names.deep_view())
    }

    proof fn lemma_lists(&self)
        requires
            self.wf(),
        ensures
            lists(self.totals@, self.names.deep_view(), self@),
    {
        let names = self.names.deep_view();
        assert forall|k: int| 0 <= k < names.len() implies (#[trigger] self.totals@[k])
            == self@[names[k]] by {
            assert(names.contains(names[k]));
            let j = names.index_of(names[k]);
            if j < k {
                lemma_text_lt_asymmetric(names[j], names[k]);
            } else if k < j {
                lemma_text_lt_asymmetric(names[k], names[j]);
            }
        }
    }

    /// A tally without accounts.
    pub fn new() -> (tally: Tally)
        ensures
            tally@ == Map::<Seq<char>, usize>::empty(),
    {
        let tally = Tally { names: Vec::new(), totals: Vec::new() };
        assert(tally@ =~= Map::<Seq<char>, usize>::empty());
        tally
    }

    /// Adds `count` to the total of `account`, which starts at nothing.
    /// `false` where the total would be more than a `usize` holds: the
    /// tally is then as it was.
    pub fn add(&mut self, account: String, count: usize) -> (fits: bool)
        ensures
            fits <==> total_in(old(self)@, account@) + count <= usize::MAX,
            fits ==> final(self)@ == old(self)@.insert(
                account@,
                (total_in(old(self)@, account@) + count) as usize,
            ),
            !fits ==> final(self)@ == old(self)@,
    {
        let ghost names0 = self.names.deep_view();
        let ghost totals0 = self.totals@;
        let ghost view0 = self@;
        let ghost name = account@;
        proof {
            use_type_invariant(&*self);
            self.lemma_lists();
        }
        let n = self.names.len();
        let mut p: usize = 0;
        let mut found = false;
        while p < n
            invariant_except_break
                !found,
            invariant
                0 <= p <= n,
                n == self.names.len(),
                names0 == self.names.deep_view(),
                forall|j: int| 0 <= j < p ==> text_lt(#[trigger] names0[j], name),
                name == account@,
            ensures
                0 <= p <= n,
                found ==> p < n && names0[p as int] == name,
                !found && p < n ==> text_lt(name, names0[p as int]),
                forall|j: int| 0 <= j < p ==> text_lt(#[trigger] names0[j], name),
            decreases n - p,
        {
            assert(self.names.deep_view()[p as int] == self.names@[p as int]@);
            match order_of(account.as_str(), self.names[p].as_str()) {
                Order::Same => {
                    found = true;
                    break ;
                },
                Order::Before => {
                    break ;
                },
                Order::After => {
                    p = p + 1;
                },
            }
        }
        if found {
            assert(names0.contains(name));
            assert(view0[name] == totals0[p as int]);
            let sum = match self.totals[p].checked_add(count) {
                Some(sum) => sum,
                None => {
                    return false;
                },
            };
            let mut work = Tally::new();
            core::mem::swap(self, &mut work);
            let Tally { names, mut totals } = work;
            totals.set(p, sum);
            *self = Tally { names, totals };
            proof {
                self.lemma_lists();
                assert forall|a: Seq<char>| #[trigger] self@.contains_key(a) implies self@[a]
                    == view0.insert(name, sum)[a] by {
                    let k = names0.index_of(a);
                    assert(self.totals@[k] == self@[names0[k]]);
                    assert(totals0[k] == view0[names0[k]]);
                    if k != p {
                        if k < p {
                            lemma_text_lt_asymmetric(names0[k], names0[p as int]);
                        } else {
                            lemma_text_lt_asymmetric(names0[p as int], names0[k]);
                        }
                    }
                }
                assert(self@ =~= view0.insert(name, sum));
            }
            return true;
        }
        proof {
            assert(!names0.contains(name)) by {
                if names0.contains(name) {
                    let j = choose|j: int| 0 <= j < names0.len() && names0[j] == name;
                    if j < p {
                        lemma_text_lt_asymmetric(names0[j], name);
                    } else {
                        if j > p {
                            lemma_text_lt_transitive(name, names0[p as int], names0[j]);
                        }
                        lemma_text_lt_asymmetric(name, names0[j]);
                    }
                }
            }
        }
        let mut work = Tally::new();
        core::mem::swap(self, &mut work);
        let Tally { mut names, mut totals } = work;
        names.insert(p, account);
        totals.insert(p, count);
        proof {
            let names1 = names.deep_view();
            assert(names1 =~= names0.insert(p as int, name));
            assert forall|i: int, j: int| 0 <= i < j < names1.len() implies text_lt(
                #[trigger] names1[i],
                #[trigger] names1[j],
            ) by {
                if j < p {
                    assert(text_lt(names0[i], names0[j]));
                } else if j == p {
                    assert(text_lt(names0[i], name));
                } else if i < p {
                    assert(text_lt(names0[i], names0[j - 1]));
                } else if i == p {
                    if j - 1 > p {
                        lemma_text_lt_transitive(name, names0[p as int], names0[j - 1]);
                    }
                } else {
                    assert(text_lt(names0[i - 1], names0[j - 1]));
                }
            }
        }
        *self = Tally { names, totals };
        proof {
            let names1 = self.names.deep_view();
            self.lemma_lists();
            assert forall|a: Seq<char>| names1.contains(a) <==> (names0.contains(a) || a
                == name) by {
                if names1.contains(a) {
                    let j = choose|j: int| 0 <= j < names1.len() && names1[j] == a;
                    if j < p {
                        assert(names0[j] == a);
                    } else if j > p {
                        assert(names0[j - 1] == a);
                    }
                }
                if names0.contains(a) {
                    let j = choose|j: int| 0 <= j < names0.len() && names0[j] == a;
                    if j < p {
                        assert(names1[j] == a);
                    } else {
                        assert(names1[j + 1] == a);
                    }
                }
                if a == name {
                    assert(names1[p as int] == a);
                }
            }
            assert forall|a: Seq<char>| #[trigger] self@.contains_key(a) implies self@[a]
                == view0.insert(name, count)[a] by {
                let k = names1.index_of(a);
                assert(self.totals@[k] == self@[names1[k]]);
                if k < p {
                    assert(totals0[k] == view0[names0[k]]);
                } else if k > p {
                    assert(totals0[k - 1] == view0[names0[k - 1]]);
                }
            }
            assert(self@ =~= view0.insert(name, count));
        }
        true
    }

    /// The snapshot of the pass: the totals in the order of their accounts.
    pub fn finish(self) -> (count: Count)
        ensures
            in_key_order(count@, self@),
    {
        proof {
            use_type_invariant(&self);
            self.lemma_lists();
        }
        Count::from_totals(self.totals)
    }
}

} // verus!
