//! Facts about selecting from sequences and sorting them, shared by the
//! modules that build lists in loops.

use crate::text::{lemma_name_order_total, name_order};
use vstd::prelude::*;
use vstd::relations::{sorted_by, total_ordering};
use vstd::seq_lib::to_multiset_insert;

verus! {

/// Selecting from one element more either appends that element or changes
/// nothing.
pub proof fn lemma_filter_step<A>(s: Seq<A>, keep: spec_fn(A) -> bool, i: int)
    requires
        0 <= i < s.len(),
    ensures
        s.take(i + 1).filter(keep) == (if keep(s[i]) {
            s.take(i).filter(keep).push(s[i])
        } else {
            s.take(i).filter(keep)
        }),
{
    assert(s.take(i + 1) =~= s.take(i).push(s[i]));
    s.take(i).lemma_filter_push(s[i], keep);
}

/// Every element of a selection satisfies the condition it was selected by.
pub proof fn lemma_filter_member<A>(s: Seq<A>, keep: spec_fn(A) -> bool, x: A)
    requires
        s.filter(keep).contains(x),
    ensures
        s.contains(x),
        keep(x),
{
    s.lemma_filter_contains_rev(keep, x);
    let i = choose|i: int| 0 <= i < s.filter(keep).len() && s.filter(keep)[i] == x;
    s.lemma_filter_pred(keep, i);
}

/// An element that satisfies the condition is in the selection.
pub proof fn lemma_member_filter<A>(s: Seq<A>, keep: spec_fn(A) -> bool, x: A)
    requires
        s.contains(x),
        keep(x),
    ensures
        s.filter(keep).contains(x),
{
    let i = choose|i: int| 0 <= i < s.len() && s[i] == x;
    s.lemma_filter_contains(keep, i);
}

/// Where no element satisfies the condition, the selection is empty.
pub proof fn lemma_filter_none<A>(s: Seq<A>, keep: spec_fn(A) -> bool)
    requires
        forall|i: int| 0 <= i < s.len() ==> !keep(#[trigger] s[i]),
    ensures
        s.filter(keep).len() == 0,
{
    if s.filter(keep).len() > 0 {
        let x = s.filter(keep)[0];
        assert(s.filter(keep).contains(x));
        lemma_filter_member(s, keep, x);
    }
}

/// A selection from a list without duplicates has no duplicates.
pub proof fn lemma_filter_no_duplicates<A>(s: Seq<A>, keep: spec_fn(A) -> bool)
    requires
        s.no_duplicates(),
    ensures
        s.filter(keep).no_duplicates(),
    decreases s.len(),
{
    reveal(Seq::filter);
    if s.len() > 0 {
        let rest = s.drop_last();
        lemma_filter_no_duplicates(rest, keep);
        if keep(s.last()) {
            if rest.filter(keep).contains(s.last()) {
                rest.lemma_filter_contains_rev(keep, s.last());
                let j = choose|j: int| 0 <= j < rest.len() && rest[j] == s.last();
                assert(s[j] == s[s.len() - 1]);
            }
        }
    }
}

/// Inserting an element into a sorted list, behind all that come before it
/// and before the first that does not, yields a sorted list with that one
/// element more.
pub proof fn lemma_insert_sorted<A>(s: Seq<A>, x: A, p: int, leq: spec_fn(A, A) -> bool)
    requires
        total_ordering(leq),
        sorted_by(s, leq),
        0 <= p <= s.len(),
        forall|k: int| 0 <= k < p ==> leq(#[trigger] s[k], x),
        p < s.len() ==> !leq(s[p], x),
    ensures
        sorted_by(s.insert(p, x), leq),
        s.insert(p, x).to_multiset() == s.to_multiset().insert(x),
{
    let after = s.insert(p, x);
    assert forall|a: int, b: int| 0 <= a < b < after.len() implies #[trigger] leq(
        after[a],
        after[b],
    ) by {
        if b == p {
            assert(leq(s[a], x));
        } else if a == p {
            assert(leq(s[p], x) || leq(x, s[p]));
            if b - 1 > p {
                assert(leq(s[p], s[b - 1]));
            }
            assert(leq(x, s[b - 1]));
        } else {
            let a0 = if a < p {
                a
            } else {
                a - 1
            };
            let b0 = if b < p {
                b
            } else {
                b - 1
            };
            assert(leq(s[a0], s[b0]));
        }
    }
    to_multiset_insert(s, p, x);
}

/// The outcome of a list of attempts: all results in order where every
/// attempt succeeded, else the error of the first that failed.
pub open spec fn all_or_first_error<T, E>(attempts: Seq<Result<T, E>>) -> Result<Seq<T>, E>
    decreases attempts.len(),
{
    if attempts.len() == 0 {
        Ok(Seq::empty())
    } else {
        match all_or_first_error(attempts.drop_last()) {
            Err(e) => Err(e),
            Ok(items) => match attempts.last() {
                Ok(x) => Ok(items.push(x)),
                Err(e) => Err(e),
            },
        }
    }
}

/// Where all attempts succeeded, the results are theirs, one for one.
pub proof fn lemma_all_succeeded<T, E>(attempts: Seq<Result<T, E>>)
    requires
        all_or_first_error(attempts) is Ok,
    ensures
        all_or_first_error(attempts)->Ok_0.len() == attempts.len(),
        forall|i: int|
            0 <= i < attempts.len() ==> #[trigger] attempts[i] == Ok::<T, E>(
                all_or_first_error(attempts)->Ok_0[i],
            ),
    decreases attempts.len(),
{
    if attempts.len() > 0 {
        lemma_all_succeeded(attempts.drop_last());
        assert forall|i: int| 0 <= i < attempts.len() implies #[trigger] attempts[i] == Ok::<T, E>(
            all_or_first_error(attempts)->Ok_0[i],
        ) by {
            if i < attempts.len() - 1 {
                assert(attempts.drop_last()[i] == attempts[i]);
            }
        }
    }
}

/// The outcome of one attempt more.
pub proof fn lemma_attempt_step<T, E>(attempts: Seq<Result<T, E>>, i: int)
    requires
        0 <= i < attempts.len(),
    ensures
        all_or_first_error(attempts.take(i + 1)) == (match all_or_first_error(attempts.take(i)) {
            Err(e) => Err(e),
            Ok(items) => match attempts[i] {
                Ok(x) => Ok(items.push(x)),
                Err(e) => Err(e),
            },
        }),
{
    assert(attempts.take(i + 1).drop_last() =~= attempts.take(i));
}

/// Once an attempt has failed, later attempts do not change the outcome.
pub proof fn lemma_error_stays<T, E>(attempts: Seq<Result<T, E>>, i: int)
    requires
        0 <= i <= attempts.len(),
        all_or_first_error(attempts.take(i)) is Err,
    ensures
        all_or_first_error(attempts) == all_or_first_error(attempts.take(i)),
    decreases attempts.len() - i,
{
    if i == attempts.len() {
        assert(attempts.take(i) =~= attempts);
    } else {
        lemma_attempt_step(attempts, i);
        lemma_error_stays(attempts, i + 1);
    }
}

/// Whether `x` stands at some place of `s` and `y` at a later one.
pub open spec fn stands_before<A>(s: Seq<A>, x: A, y: A) -> bool {
    exists|a: int, b: int| 0 <= a < b < s.len() && s[a] == x && s[b] == y
}

/// A selection keeps the order of the list it was taken from.
pub proof fn lemma_filter_keeps_order<A>(s: Seq<A>, keep: spec_fn(A) -> bool)
    ensures
        forall|i: int, j: int|
            0 <= i < j < s.filter(keep).len() ==> stands_before(
                s,
                #[trigger] s.filter(keep)[i],
                #[trigger] s.filter(keep)[j],
            ),
    decreases s.len(),
{
    reveal(Seq::filter);
    if s.len() > 0 {
        let rest = s.drop_last();
        let kept = s.filter(keep);
        lemma_filter_keeps_order(rest, keep);
        assert forall|i: int, j: int| 0 <= i < j < kept.len() implies stands_before(
            s,
            #[trigger] kept[i],
            #[trigger] kept[j],
        ) by {
            if j < rest.filter(keep).len() {
                assert(stands_before(rest, rest.filter(keep)[i], rest.filter(keep)[j]));
                let (a, b) = choose|a: int, b: int|
                    0 <= a < b < rest.len() && rest[a] == kept[i] && rest[b] == kept[j];
                assert(s[a] == kept[i] && s[b] == kept[j]);
            } else {
                assert(rest.filter(keep).contains(kept[i]));
                rest.lemma_filter_contains_rev(keep, kept[i]);
                let a = choose|a: int| 0 <= a < rest.len() && rest[a] == kept[i];
                assert(s[a] == kept[i] && s[s.len() - 1] == kept[j]);
            }
        }
    }
}

/// What sorting a selection of names yields: the selected names and no
/// others, in ascending order.
pub proof fn lemma_sorted_selection(names: Seq<Seq<char>>, keep: spec_fn(Seq<char>) -> bool)
    ensures
        forall|n: Seq<char>| #[trigger]
            names.filter(keep).sort_by(name_order()).contains(n) <==> names.contains(n) && keep(n),
        names.filter(keep).sort_by(name_order()).len() == names.filter(keep).len(),
        names.no_duplicates() ==> names.filter(keep).sort_by(name_order()).no_duplicates(),
        sorted_by(names.filter(keep).sort_by(name_order()), name_order()),
{
    let selected = names.filter(keep);
    let sorted = selected.sort_by(name_order());
    lemma_name_order_total();
    selected.lemma_sort_by_ensures(name_order());
    broadcast use vstd::seq_lib::group_to_multiset_ensures;

    assert forall|n: Seq<char>| #[trigger] sorted.contains(n) <==> names.contains(n) && keep(
        n,
    ) by {
        if sorted.contains(n) {
            lemma_filter_member(names, keep, n);
        }
        if names.contains(n) && keep(n) {
            lemma_member_filter(names, keep, n);
            assert(selected.to_multiset().count(n) > 0);
            assert(sorted.to_multiset().count(n) > 0);
        }
    }
    assert(sorted.len() == selected.len()) by {
        assert(sorted.to_multiset().len() == selected.to_multiset().len());
    }
    if names.no_duplicates() {
        lemma_filter_no_duplicates(names, keep);
        selected.lemma_multiset_has_no_duplicates();
        sorted.lemma_multiset_has_no_duplicates_conv();
    }
}

} // verus!
