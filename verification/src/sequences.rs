//! Choosing by position: the first result of a check, and the positions at which a test holds.

use vstd::prelude::*;

verus! {

/// The result of `check` at the least position below `n` at which it gives one.
pub open spec fn first_some<A>(n: nat, check: spec_fn(int) -> Option<A>) -> Option<A>
    decreases n,
{
    if n == 0 {
        None
    } else {
        match first_some((n - 1) as nat, check) {
            Some(found) => Some(found),
            None => check(n - 1),
        }
    }
}

/// The positions below `n` at which `test` holds, in ascending order.
pub open spec fn positions(n: nat, test: spec_fn(int) -> bool) -> Seq<int>
    decreases n,
{
    if n == 0 {
        seq![]
    } else {
        let before = positions((n - 1) as nat, test);
        if test(n - 1) {
            before.push(n - 1)
        } else {
            before
        }
    }
}

/// The lists at the positions below `n`, one after another.
pub open spec fn gathered<A>(n: nat, lists: spec_fn(int) -> Seq<A>) -> Seq<A>
    decreases n,
{
    if n == 0 {
        seq![]
    } else {
        gathered((n - 1) as nat, lists) + lists(n - 1)
    }
}

/// The first result of a check is the one at the least position that has one.
pub proof fn lemma_first_some<A>(n: nat, check: spec_fn(int) -> Option<A>)
    ensures
        first_some(n, check) is None <==> forall|i: int| 0 <= i < n ==> #[trigger] check(i) is None,
        first_some(n, check) matches Some(found) ==> exists|i: int|
            0 <= i < n && #[trigger] check(i) == Some(found) && forall|j: int|
                0 <= j < i ==> #[trigger] check(j) is None,
    decreases n,
{
    if n > 0 {
        lemma_first_some((n - 1) as nat, check);
        if first_some((n - 1) as nat, check) is None && check(n - 1) is Some {
            assert(first_some(n, check) == check(n - 1));
        }
    }
}

/// A result is the first one if there is none at the positions before.
pub(crate) proof fn lemma_first_some_at<A>(n: nat, check: spec_fn(int) -> Option<A>, i: int)
    requires
        0 <= i < n,
        first_some(i as nat, check) is None,
        check(i) is Some,
    ensures
        first_some(n, check) == check(i),
    decreases n,
{
    if i < n - 1 {
        lemma_first_some_at((n - 1) as nat, check, i);
    }
}

/// The listed positions ascend, and are exactly those at which the test holds.
pub proof fn lemma_positions(n: nat, test: spec_fn(int) -> bool)
    ensures
        forall|i: int| #[trigger] positions(n, test).contains(i) <==> 0 <= i < n && test(i),
        forall|a: int, b: int|
            0 <= a < b < positions(n, test).len() ==> #[trigger] positions(n, test)[a]
                < #[trigger] positions(n, test)[b],
    decreases n,
{
    if n > 0 {
        let before = positions((n - 1) as nat, test);
        let all = positions(n, test);
        lemma_positions((n - 1) as nat, test);
        assert forall|i: int| #[trigger] all.contains(i) <==> 0 <= i < n && test(i) by {
            if 0 <= i < n - 1 && test(i) {
                assert(before.contains(i));
                let k = choose|k: int| 0 <= k < before.len() && before[k] == i;
                assert(all[k] == i);
            } else if i == n - 1 && test(i) {
                assert(all[before.len() as int] == i);
            }
            if all.contains(i) {
                let k = choose|k: int| 0 <= k < all.len() && all[k] == i;
                if k < before.len() {
                    assert(before[k] == i);
                    assert(before.contains(i));
                }
            }
        }
        assert forall|a: int, b: int| 0 <= a < b < all.len() implies #[trigger] all[a]
            < #[trigger] all[b] by {
            assert(before.contains(before[a]));
            if b < before.len() {
                assert(before[a] < before[b]);
            }
        }
    }
}

/// Tests that agree below `n` hold at the same positions below `n`.
pub(crate) proof fn lemma_positions_congruent(
    n: nat,
    test: spec_fn(int) -> bool,
    other: spec_fn(int) -> bool,
)
    requires
        forall|i: int| 0 <= i < n ==> #[trigger] test(i) == other(i),
    ensures
        positions(n, test) == positions(n, other),
    decreases n,
{
    if n > 0 {
        lemma_positions_congruent((n - 1) as nat, test, other);
    }
}

/// Of the positions of one test, those that pass another are the positions of both.
pub(crate) proof fn lemma_positions_filter(
    n: nat,
    test: spec_fn(int) -> bool,
    other: spec_fn(int) -> bool,
    both: spec_fn(int) -> bool,
)
    requires
        forall|i: int| 0 <= i < n ==> #[trigger] both(i) == (test(i) && other(i)),
    ensures
        positions(n, test).filter(other) == positions(n, both),
    decreases n,
{
    reveal(Seq::filter);
    if n > 0 {
        lemma_positions_filter((n - 1) as nat, test, other, both);
        assert(both(n - 1) == (test(n - 1) && other(n - 1)));
        if test(n - 1) {
            assert(positions(n, test).drop_last() =~= positions((n - 1) as nat, test));
        }
    }
}

/// What the number of positions says of the test.
pub(crate) proof fn lemma_positions_count(n: nat, test: spec_fn(int) -> bool)
    ensures
        positions(n, test).len() == 0 <==> forall|i: int| 0 <= i < n ==> !#[trigger] test(i),
        positions(n, test).len() <= 1 <==> forall|i: int, j: int|
            0 <= i < n && 0 <= j < n && #[trigger] test(i) && #[trigger] test(j) ==> i == j,
        positions(n, test).len() > 0 ==> 0 <= positions(n, test)[0] < n && test(
            positions(n, test)[0],
        ),
{
    let all = positions(n, test);
    lemma_positions(n, test);
    if all.len() > 0 {
        assert(all.contains(all[0]));
    }
    if all.len() > 1 {
        assert(all.contains(all[1]));
        assert(all[0] < all[1]);
    }
    assert forall|i: int, j: int|
        all.len() <= 1 && 0 <= i < n && 0 <= j < n && #[trigger] test(i) && #[trigger] test(
            j,
        ) implies i == j by {
        assert(all.contains(i) && all.contains(j));
    }
    if all.len() == 0 {
        assert forall|i: int| 0 <= i < n implies !#[trigger] test(i) by {
            assert(!all.contains(i));
        }
    }
}

} // verus!
