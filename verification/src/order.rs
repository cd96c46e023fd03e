use crate::model::{whatdos_view, Whatdo, WhatdoView};
use vstd::prelude::*;
use vstd::seq_lib::seq_to_set_is_finite;
use vstd::set_lib::{lemma_int_range, lemma_subset_equality, set_int_range};

verus! {

/// Whether a task of priority `a` goes strictly before one of priority `b`:
/// the lower number first, and a task that has a priority before one that
/// has none.
pub open spec fn priority_before(a: Option<i64>, b: Option<i64>) -> bool {
    match (a, b) {
        (Some(x), Some(y)) => x < y,
        (Some(_), None) => true,
        (None, _) => false,
    }
}

/// Whether, of the tasks with priorities `keys`, the one at `i` is worked on
/// before the one at `j`: by priority, and among equals the one listed first.
pub open spec fn goes_before(keys: Seq<Option<i64>>, i: int, j: int) -> bool {
    priority_before(keys[i], keys[j]) || (!priority_before(keys[j], keys[i]) && i < j)
}

/// Where a task of priority `key` enters `order`, looking from `from` on:
/// before the first task that has to wait for it, or at the end.
pub open spec fn entry_point(
    keys: Seq<Option<i64>>,
    order: Seq<int>,
    from: int,
    key: Option<i64>,
) -> int
    decreases order.len() - from,
{
    if 0 <= from < order.len() {
        if priority_before(key, keys[order[from]]) {
            from
        } else {
            entry_point(keys, order, from + 1, key)
        }
    } else {
        order.len() as int
    }
}

/// The order in which the first `n` tasks are worked on, as positions in `keys`.
pub open spec fn ordered_prefix(keys: Seq<Option<i64>>, n: nat) -> Seq<int>
    decreases n,
{
    if 0 < n <= keys.len() {
        let earlier = ordered_prefix(keys, (n - 1) as nat);
        earlier.insert(entry_point(keys, earlier, 0, keys[n - 1]), n - 1)
    } else {
        Seq::empty()
    }
}

/// The order in which tasks with priorities `keys` are worked on, as
/// positions in `keys`: a stable sort by priority, tasks without one last.
pub open spec fn priority_order(keys: Seq<Option<i64>>) -> Seq<int> {
    ordered_prefix(keys, keys.len())
}

/// The priorities of a list of tasks.
pub open spec fn priorities_of(tasks: Seq<WhatdoView>) -> Seq<Option<i64>> {
    Seq::new(tasks.len(), |i: int| tasks[i].priority)
}

/// `order` holds each of the positions `0 .. n` once.
pub open spec fn is_arrangement(order: Seq<int>, n: nat) -> bool {
    &&& order.len() == n
    &&& forall|a: int| 0 <= a < order.len() ==> 0 <= #[trigger] order[a] < n
    &&& forall|a: int, b: int| 0 <= a < b < order.len() ==> #[trigger] order[a] != #[trigger] order[b]
}

/// Each task in `order` goes before every task behind it.
pub open spec fn is_ranked(keys: Seq<Option<i64>>, order: Seq<int>) -> bool {
    forall|a: int, b: int|
        0 <= a < b < order.len() ==> goes_before(keys, #[trigger] order[a], #[trigger] order[b])
}

proof fn lemma_entry_point(keys: Seq<Option<i64>>, order: Seq<int>, from: int, key: Option<i64>)
    requires
        0 <= from <= order.len(),
    ensures
        from <= entry_point(keys, order, from, key) <= order.len(),
        forall|a: int|
            from <= a < entry_point(keys, order, from, key) ==> !priority_before(
                key,
                keys[#[trigger] order[a]],
            ),
        entry_point(keys, order, from, key) < order.len() ==> priority_before(
            key,
            keys[order[entry_point(keys, order, from, key)]],
        ),
    decreases order.len() - from,
{
    if from < order.len() {
        if !priority_before(key, keys[order[from]]) {
            lemma_entry_point(keys, order, from + 1, key);
        }
    }
}

proof fn lemma_priority_before_transitive(a: Option<i64>, b: Option<i64>, c: Option<i64>)
    ensures
        priority_before(a, b) && priority_before(b, c) ==> priority_before(a, c),
        priority_before(a, b) && !priority_before(c, b) ==> priority_before(a, c),
        !priority_before(b, a) && priority_before(b, c) ==> priority_before(a, c),
        !priority_before(b, a) && !priority_before(c, b) ==> !priority_before(c, a),
{
}

/// The order of the first `n` tasks holds each of them once, and each goes
/// before every task behind it.
pub proof fn lemma_ordered_prefix(keys: Seq<Option<i64>>, n: nat)
    requires
        n <= keys.len(),
    ensures
        is_arrangement(ordered_prefix(keys, n), n),
        is_ranked(keys, ordered_prefix(keys, n)),
    decreases n,
{
    if n > 0 {
        let earlier = ordered_prefix(keys, (n - 1) as nat);
        lemma_ordered_prefix(keys, (n - 1) as nat);
        let key = keys[n - 1];
        let p = entry_point(keys, earlier, 0, key);
        lemma_entry_point(keys, earlier, 0, key);
        let order = ordered_prefix(keys, n);
        assert(order == earlier.insert(p, n - 1));
        assert(order.len() == n);
        assert forall|a: int| 0 <= a < order.len() implies 0 <= #[trigger] order[a] < n by {
            if a < p {
                assert(order[a] == earlier[a]);
            } else if a > p {
                assert(order[a] == earlier[a - 1]);
            }
        }
        assert forall|a: int, b: int| 0 <= a < b < order.len() implies #[trigger] order[a]
            != #[trigger] order[b] && goes_before(keys, order[a], order[b]) by {
            let x = order[a];
            let y = order[b];
            if b < p {
                assert(x == earlier[a] && y == earlier[b]);
            } else if b == p {
                assert(x == earlier[a]);
                assert(!priority_before(key, keys[earlier[a]]));
            } else if a < p {
                assert(x == earlier[a] && y == earlier[b - 1]);
            } else if a == p {
                assert(y == earlier[b - 1]);
                assert(priority_before(key, keys[earlier[p]]));
                if b - 1 > p {
                    assert(goes_before(keys, earlier[p], earlier[b - 1]));
                    lemma_priority_before_transitive(key, keys[earlier[p]], keys[earlier[b - 1]]);
                }
            } else {
                assert(x == earlier[a - 1] && y == earlier[b - 1]);
            }
        }
    }
}

/// The working order holds each task once, and each goes before every task
/// behind it: it is the stable sort by priority.
pub proof fn lemma_priority_order(keys: Seq<Option<i64>>)
    ensures
        is_arrangement(priority_order(keys), keys.len()),
        is_ranked(keys, priority_order(keys)),
{
    lemma_ordered_prefix(keys, keys.len());
}

proof fn lemma_arrangement_covers(order: Seq<int>, n: nat, x: int)
    requires
        is_arrangement(order, n),
        0 <= x < n,
    ensures
        exists|a: int| 0 <= a < n && order[a] == x,
{
    let held = order.to_set();
    let all = set_int_range(0, n as int);
    assert(order.no_duplicates());
    order.unique_seq_to_set();
    lemma_int_range(0, n as int);
    seq_to_set_is_finite(order);
    assert forall|y: int| held.contains(y) implies all.contains(y) by {
        let a = choose|a: int| 0 <= a < order.len() && order[a] == y;
        assert(0 <= order[a] < n);
    }
    lemma_subset_equality(held, all);
    assert(all.contains(x));
    assert(order.contains(x));
}

proof fn lemma_same_upto(keys: Seq<Option<i64>>, a: Seq<int>, b: Seq<int>, upto: nat)
    requires
        is_arrangement(a, keys.len()),
        is_ranked(keys, a),
        is_arrangement(b, keys.len()),
        is_ranked(keys, b),
        upto <= keys.len(),
    ensures
        forall|i: int| 0 <= i < upto ==> a[i] == b[i],
    decreases upto,
{
    if upto > 0 {
        lemma_same_upto(keys, a, b, (upto - 1) as nat);
        let p = upto - 1;
        let x = a[p];
        let y = b[p];
        if x != y {
            lemma_arrangement_covers(b, keys.len(), x);
            lemma_arrangement_covers(a, keys.len(), y);
            let q = choose|q: int| 0 <= q < keys.len() && b[q] == x;
            let r = choose|r: int| 0 <= r < keys.len() && a[r] == y;
            if q < p {
                assert(a[q] == b[q]);
                assert(a[q] != a[p]);
            }
            if r < p {
                assert(a[r] == b[r]);
                assert(b[r] != b[p]);
            }
            assert(goes_before(keys, b[p], b[q]));
            assert(goes_before(keys, a[p], a[r]));
        }
    }
}

/// There is one working order only: an order that holds each task once,
/// and in which each goes before every task behind it, is the working order.
pub proof fn lemma_priority_order_unique(keys: Seq<Option<i64>>, order: Seq<int>)
    requires
        is_arrangement(order, keys.len()),
        is_ranked(keys, order),
    ensures
        order == priority_order(keys),
{
    lemma_priority_order(keys);
    lemma_same_upto(keys, order, priority_order(keys), keys.len());
    assert(order =~= priority_order(keys));
}

fn before(a: Option<i64>, b: Option<i64>) -> (r: bool)
    ensures
        r == priority_before(a, b),
{
    match (a, b) {
        (Some(x), Some(y)) => x < y,
        (Some(_), None) => true,
        (None, _) => false,
    }
}

/// The positions of `tasks` in the order in which they are worked on.
pub fn work_order(tasks: &Vec<Whatdo>) -> (order: Vec<usize>)
    ensures
        order@.map_values(|p: usize| p as int) == priority_order(
            priorities_of(whatdos_view(tasks@)),
        ),
        order@.len() == tasks@.len(),
        forall|a: int| 0 <= a < order@.len() ==> #[trigger] order@[a] < tasks@.len(),
{
    let ghost keys = priorities_of(whatdos_view(tasks@));
    let mut order: Vec<usize> = Vec::new();
    let mut i: usize = 0;
    proof {
        assert(order@.map_values(|p: usize| p as int) =~= ordered_prefix(keys, 0));
    }
    while i < tasks.len()
        invariant
            i <= tasks.len(),
            keys == priorities_of(whatdos_view(tasks@)),
            order@.map_values(|p: usize| p as int) == ordered_prefix(keys, i as nat),
            order@.len() == i,
            forall|a: int| 0 <= a < order@.len() ==> #[trigger] order@[a] < i,
        decreases tasks.len() - i,
    {
        let key = tasks[i].priority;
        let ghost earlier = order@.map_values(|p: usize| p as int);
        proof {
            assert(keys[i as int] == key);
        }
        let mut p: usize = 0;
        while p < order.len() && !before(key, tasks[order[p]].priority)
            invariant
                p <= order.len(),
                i < tasks.len(),
                keys == priorities_of(whatdos_view(tasks@)),
                earlier == order@.map_values(|p: usize| p as int),
                forall|a: int| 0 <= a < order@.len() ==> #[trigger] order@[a] < i,
                entry_point(keys, earlier, 0, key) == entry_point(keys, earlier, p as int, key),
            decreases order.len() - p,
        {
            proof {
                assert(earlier[p as int] == order@[p as int]);
                assert(keys[earlier[p as int]] == tasks[order[p as int] as int].priority);
            }
            p += 1;
        }
        proof {
            if p < order.len() {
                assert(earlier[p as int] == order@[p as int]);
                assert(keys[earlier[p as int]] == tasks[order[p as int] as int].priority);
            }
            assert(entry_point(keys, earlier, 0, key) == p);
        }
        order.insert(p, i);
        proof {
            assert(order@.map_values(|p: usize| p as int) =~= earlier.insert(p as int, i as int));
        }
        i += 1;
    }
    order
}

} // verus!
