use crate::index::{
    descendant, find_among_children, follows, has_id, lemma_descendant_height, total,
};
use crate::model::{
    lemma_child_height, lemma_view_children, texts, whatdos_view, Whatdo, WhatdoView,
};
use crate::order::{priorities_of, priority_order, work_order};
use crate::visited::Visited;
use vstd::prelude::*;

verus! {

/// The tasks to work on under `node`, in order, and the identifiers dealt
/// with afterwards.
///
/// A task counts where `pred` holds of it, or where the task through which
/// it was reached counts (`inherited`). The tasks that `node`'s queue names
/// come first, in the queue's order; then the children, in the order of
/// their priorities. A task without children stands for itself. What
/// `visited` holds is passed over.
pub open spec fn sort_spec(
    node: WhatdoView,
    pred: spec_fn(WhatdoView) -> bool,
    visited: Set<Seq<char>>,
    inherited: bool,
) -> (Seq<WhatdoView>, Set<Seq<char>>)
    decreases node.height(), 1int, 0int,
{
    let matched = pred(node) || inherited;
    let queued = match node.queue {
        Some(queue) => sort_queue(node, queue, 0, pred, visited, matched),
        None => (Seq::empty(), visited),
    };
    if node.children().len() > 0 {
        let order = priority_order(priorities_of(node.children()));
        let rest = sort_children(node, order, 0, pred, queued.1, matched);
        (queued.0 + rest.0, rest.1)
    } else if matched && !queued.1.contains(node.id) {
        (queued.0.push(node), queued.1)
    } else {
        queued
    }
}

/// The part of [`sort_spec`] that the entries `queue[from ..]` of `node`'s
/// queue give. An entry already visited, or one that names no task below
/// `node`, is passed over; an entry that was followed is visited.
pub open spec fn sort_queue(
    node: WhatdoView,
    queue: Seq<Seq<char>>,
    from: int,
    pred: spec_fn(WhatdoView) -> bool,
    visited: Set<Seq<char>>,
    matched: bool,
) -> (Seq<WhatdoView>, Set<Seq<char>>)
    decreases node.height(), 0int, queue.len() - from,
{
    if 0 <= from < queue.len() {
        let id = queue[from];
        if visited.contains(id) {
            sort_queue(node, queue, from + 1, pred, visited, matched)
        } else {
            match descendant(node, id) {
                None => sort_queue(node, queue, from + 1, pred, visited, matched),
                Some(found) => {
                    proof {
                        lemma_descendant_height(node, id);
                    }
                    let first = sort_spec(found, pred, visited, matched);
                    let rest = sort_queue(
                        node,
                        queue,
                        from + 1,
                        pred,
                        first.1.insert(id),
                        matched,
                    );
                    (first.0 + rest.0, rest.1)
                },
            }
        }
    } else {
        (Seq::empty(), visited)
    }
}

/// The part of [`sort_spec`] that the children at the positions
/// `order[from ..]` give. A child already visited is passed over; a child
/// that was followed is visited.
pub open spec fn sort_children(
    node: WhatdoView,
    order: Seq<int>,
    from: int,
    pred: spec_fn(WhatdoView) -> bool,
    visited: Set<Seq<char>>,
    matched: bool,
) -> (Seq<WhatdoView>, Set<Seq<char>>)
    decreases node.height(), 0int, order.len() - from,
{
    if 0 <= from < order.len() {
        let i = order[from];
        if 0 <= i < node.children().len() && !visited.contains(node.children()[i].id) {
            let child = node.children()[i];
            proof {
                lemma_child_height(node, i);
            }
            let first = sort_spec(child, pred, visited, matched);
            let rest = sort_children(
                node,
                order,
                from + 1,
                pred,
                first.1.insert(child.id),
                matched,
            );
            (first.0 + rest.0, rest.1)
        } else {
            sort_children(node, order, from + 1, pred, visited, matched)
        }
    } else {
        (Seq::empty(), visited)
    }
}

/// None of the tasks in `tasks` is named in `visited`.
pub open spec fn ids_fresh(tasks: Seq<WhatdoView>, visited: Set<Seq<char>>) -> bool {
    forall|i: int| 0 <= i < tasks.len() ==> !visited.contains(#[trigger] tasks[i].id)
}

/// No two of the tasks in `tasks` have the same identifier.
pub open spec fn ids_distinct(tasks: Seq<WhatdoView>) -> bool {
    forall|i: int, j: int|
        0 <= i < j < tasks.len() ==> #[trigger] tasks[i].id != #[trigger] tasks[j].id
}

/// Each of the tasks in `tasks` is named in `visited`.
pub open spec fn ids_within(tasks: Seq<WhatdoView>, visited: Set<Seq<char>>) -> bool {
    forall|i: int| 0 <= i < tasks.len() ==> visited.contains(#[trigger] tasks[i].id)
}

proof fn lemma_joined(
    a: Seq<WhatdoView>,
    b: Seq<WhatdoView>,
    start: Set<Seq<char>>,
    mid: Set<Seq<char>>,
    end: Set<Seq<char>>,
)
    requires
        start.subset_of(mid),
        mid.subset_of(end),
        ids_fresh(a, start),
        ids_distinct(a),
        ids_within(a, mid),
        ids_fresh(b, mid),
        ids_distinct(b),
        ids_within(b, end),
    ensures
        ids_fresh(a + b, start),
        ids_distinct(a + b),
        ids_within(a + b, end),
{
    let c = a + b;
    assert forall|i: int| 0 <= i < c.len() implies !start.contains(#[trigger] c[i].id)
        && end.contains(c[i].id) by {
        if i < a.len() {
            assert(c[i] == a[i]);
        } else {
            assert(c[i] == b[i - a.len()]);
        }
    }
    assert forall|i: int, j: int| 0 <= i < j < c.len() implies #[trigger] c[i].id
        != #[trigger] c[j].id by {
        if j < a.len() {
            assert(c[i] == a[i] && c[j] == a[j]);
        } else if i < a.len() {
            assert(c[i] == a[i] && c[j] == b[j - a.len()]);
        } else {
            assert(c[i] == b[i - a.len()] && c[j] == b[j - a.len()]);
        }
    }
}

/// What [`sort_spec`] gives names no task twice and none that was visited
/// before; everything it names but `node` itself is visited afterwards, and
/// nothing visited is forgotten.
pub proof fn lemma_sort_once(
    node: WhatdoView,
    pred: spec_fn(WhatdoView) -> bool,
    visited: Set<Seq<char>>,
    inherited: bool,
)
    ensures
        ids_distinct(sort_spec(node, pred, visited, inherited).0),
        ids_fresh(sort_spec(node, pred, visited, inherited).0, visited),
        ids_within(
            sort_spec(node, pred, visited, inherited).0,
            sort_spec(node, pred, visited, inherited).1.insert(node.id),
        ),
        visited.subset_of(sort_spec(node, pred, visited, inherited).1),
    decreases node.height(), 1int, 0int,
{
    let matched = pred(node) || inherited;
    let queued = match node.queue {
        Some(queue) => sort_queue(node, queue, 0, pred, visited, matched),
        None => (Seq::empty(), visited),
    };
    if node.queue is Some {
        lemma_sort_queue_once(node, node.queue->0, 0, pred, visited, matched);
    }
    if node.children().len() > 0 {
        let order = priority_order(priorities_of(node.children()));
        let rest = sort_children(node, order, 0, pred, queued.1, matched);
        lemma_sort_children_once(node, order, 0, pred, queued.1, matched);
        lemma_joined(queued.0, rest.0, visited, queued.1, rest.1);
    } else if matched && !queued.1.contains(node.id) {
        let last = seq![node];
        assert(queued.0.push(node) =~= queued.0 + last);
        lemma_joined(queued.0, last, visited, queued.1, queued.1.insert(node.id));
    }
}

/// The queue's part of [`lemma_sort_once`]; all that is named is visited.
pub proof fn lemma_sort_queue_once(
    node: WhatdoView,
    queue: Seq<Seq<char>>,
    from: int,
    pred: spec_fn(WhatdoView) -> bool,
    visited: Set<Seq<char>>,
    matched: bool,
)
    ensures
        ids_distinct(sort_queue(node, queue, from, pred, visited, matched).0),
        ids_fresh(sort_queue(node, queue, from, pred, visited, matched).0, visited),
        ids_within(
            sort_queue(node, queue, from, pred, visited, matched).0,
            sort_queue(node, queue, from, pred, visited, matched).1,
        ),
        visited.subset_of(sort_queue(node, queue, from, pred, visited, matched).1),
    decreases node.height(), 0int, queue.len() - from,
{
    if 0 <= from < queue.len() {
        let id = queue[from];
        if visited.contains(id) {
            lemma_sort_queue_once(node, queue, from + 1, pred, visited, matched);
        } else {
            match descendant(node, id) {
                None => {
                    lemma_sort_queue_once(node, queue, from + 1, pred, visited, matched);
                },
                Some(found) => {
                    lemma_descendant_height(node, id);
                    let first = sort_spec(found, pred, visited, matched);
                    let mid = first.1.insert(id);
                    let rest = sort_queue(node, queue, from + 1, pred, mid, matched);
                    lemma_sort_once(found, pred, visited, matched);
                    lemma_sort_queue_once(node, queue, from + 1, pred, mid, matched);
                    assert(first.1.insert(found.id) == mid);
                    lemma_joined(first.0, rest.0, visited, mid, rest.1);
                },
            }
        }
    }
}

/// The children's part of [`lemma_sort_once`]; all that is named is visited.
pub proof fn lemma_sort_children_once(
    node: WhatdoView,
    order: Seq<int>,
    from: int,
    pred: spec_fn(WhatdoView) -> bool,
    visited: Set<Seq<char>>,
    matched: bool,
)
    ensures
        ids_distinct(sort_children(node, order, from, pred, visited, matched).0),
        ids_fresh(sort_children(node, order, from, pred, visited, matched).0, visited),
        ids_within(
            sort_children(node, order, from, pred, visited, matched).0,
            sort_children(node, order, from, pred, visited, matched).1,
        ),
        visited.subset_of(sort_children(node, order, from, pred, visited, matched).1),
    decreases node.height(), 0int, order.len() - from,
{
    if 0 <= from < order.len() {
        let i = order[from];
        if 0 <= i < node.children().len() && !visited.contains(node.children()[i].id) {
            let child = node.children()[i];
            lemma_child_height(node, i);
            let first = sort_spec(child, pred, visited, matched);
            let mid = first.1.insert(child.id);
            let rest = sort_children(node, order, from + 1, pred, mid, matched);
            lemma_sort_once(child, pred, visited, matched);
            lemma_sort_children_once(node, order, from + 1, pred, mid, matched);
            lemma_joined(first.0, rest.0, visited, mid, rest.1);
        } else {
            lemma_sort_children_once(node, order, from + 1, pred, visited, matched);
        }
    }
}

proof fn lemma_views_append(a: Seq<Whatdo>, b: Seq<Whatdo>)
    ensures
        whatdos_view(a + b) == whatdos_view(a) + whatdos_view(b),
{
    assert(whatdos_view(a + b) =~= whatdos_view(a) + whatdos_view(b));
}

/// The entries among the first `n` of `node`'s queue that name no task
/// below `node`, each with `node`'s identifier in front.
pub open spec fn unresolved_here(node: WhatdoView, queue: Seq<Seq<char>>, n: nat) -> Seq<
    (Seq<char>, Seq<char>),
>
    decreases n,
{
    if 0 < n <= queue.len() {
        let earlier = unresolved_here(node, queue, (n - 1) as nat);
        if descendant(node, queue[n - 1]) is None {
            earlier.push((node.id, queue[n - 1]))
        } else {
            earlier
        }
    } else {
        Seq::empty()
    }
}

/// The queue entries in the tree `node` that name no task below the task
/// that holds them, each with the identifier of that task: those of `node`
/// first, then those of its children from left to right.
pub open spec fn unresolved(node: WhatdoView) -> Seq<(Seq<char>, Seq<char>)>
    decreases node.height(), 1int, 0int,
{
    (match node.queue {
        Some(queue) => unresolved_here(node, queue, queue.len()),
        None => Seq::empty(),
    }) + unresolved_below(node, node.children().len())
}

/// The part of [`unresolved`] that the first `n` children of `node` give.
pub open spec fn unresolved_below(node: WhatdoView, n: nat) -> Seq<(Seq<char>, Seq<char>)>
    decreases node.height(), 0int, n,
{
    if 0 < n <= node.children().len() {
        proof {
            lemma_child_height(node, n - 1);
        }
        unresolved_below(node, (n - 1) as nat) + unresolved(node.children()[n - 1])
    } else {
        Seq::empty()
    }
}

/// The values of a list of pairs of strings.
pub open spec fn pairs_view(pairs: Seq<(String, String)>) -> Seq<(Seq<char>, Seq<char>)> {
    Seq::new(pairs.len(), |i: int| (pairs[i].0@, pairs[i].1@))
}

fn collect_unresolved(wd: &Whatdo, found: &mut Vec<(String, String)>)
    ensures
        pairs_view(final(found)@) == pairs_view(old(found)@) + unresolved(wd@),
    decreases wd@.height(),
{
    let ghost node = wd@;
    let ghost start = pairs_view(found@);
    proof {
        lemma_view_children(*wd);
    }
    if let Some(queue) = &wd.queue {
        let ghost q = texts(queue@);
        proof {
            assert(node.queue->0 =~= q);
            assert(start + unresolved_here(node, q, 0) =~= start);
        }
        let mut i: usize = 0;
        while i < queue.len()
            invariant
                i <= queue.len(),
                node == wd@,
                q == texts(queue@),
                pairs_view(found@) == start + unresolved_here(node, q, i as nat),
            decreases queue.len() - i,
        {
            let id = &queue[i];
            let named = |w: &Whatdo| -> (b: bool)
                ensures
                    b == (w.id@ == id@),
                { w.id == *id };
            proof {
                assert(q[i as int] == id@);
                assert(follows(&named, has_id(id@)));
            }
            if find_among_children(wd, 0, &named).is_none() {
                let ghost before = pairs_view(found@);
                found.push((wd.id.clone(), id.clone()));
                proof {
                    assert(pairs_view(found@) =~= before.push((node.id, id@)));
                    assert(start + unresolved_here(node, q, i as nat).push((node.id, id@))
                        =~= before.push((node.id, id@)));
                }
            }
            i += 1;
        }
    } else {
        proof {
            assert(start + Seq::<(Seq<char>, Seq<char>)>::empty() =~= start);
        }
    }
    let ghost own = pairs_view(found@);
    if let Some(kids) = &wd.whatdos {
        let mut k: usize = 0;
        proof {
            assert(own + unresolved_below(node, 0) =~= own);
        }
        while k < kids.len()
            invariant
                k <= kids.len(),
                node == wd@,
                node.children() == whatdos_view(kids@),
                pairs_view(found@) == own + unresolved_below(node, k as nat),
            decreases kids.len() - k,
        {
            proof {
                lemma_child_height(node, k as int);
                assert(node.children()[k as int] == kids@[k as int]@);
                assert((own + unresolved_below(node, k as nat)) + unresolved(kids@[k as int]@)
                    =~= own + (unresolved_below(node, k as nat) + unresolved(kids@[k as int]@)));
            }
            collect_unresolved(&kids[k], found);
            k += 1;
        }
    } else {
        proof {
            assert(own + unresolved_below(node, 0) =~= own);
        }
    }
    proof {
        let mine = match node.queue {
            Some(queue) => unresolved_here(node, queue, queue.len()),
            None => Seq::empty(),
        };
        let below = unresolved_below(node, node.children().len());
        assert((start + mine) + below =~= start + (mine + below));
    }
}

/// The queue entries in the tree that name no task below the task that
/// holds them, each with the identifier of that task in front. A traversal
/// passes such entries over.
pub fn unresolved_queue_entries(root: &Whatdo) -> (r: Vec<(String, String)>)
    ensures
        pairs_view(r@) == unresolved(root@),
{
    let mut found: Vec<(String, String)> = Vec::new();
    proof {
        assert(pairs_view(found@) =~= Seq::<(Seq<char>, Seq<char>)>::empty());
    }
    collect_unresolved(root, &mut found);
    proof {
        assert(Seq::<(Seq<char>, Seq<char>)>::empty() + unresolved(root@) =~= unresolved(root@));
    }
    found
}

/// The tasks to work on under `wd`, in order: copies of the tasks without
/// children that the filter accepts, themselves or through the task that
/// led to them, and that `visited` does not hold. The tasks named in a queue
/// come before the others of the same task, which follow by priority. What
/// was dealt with is put into `visited`. Whatever the filter computes, the
/// result is the order for that.
pub fn sort_whatdos<F: Fn(&Whatdo) -> bool>(
    wd: &Whatdo,
    filter: &F,
    visited: &mut Visited,
    ancestor_satisfies_filter: bool,
) -> (result: Vec<Whatdo>)
    requires
        total(filter),
    ensures
        forall|model: spec_fn(WhatdoView) -> bool| #[trigger]
            follows(filter, model) ==> (whatdos_view(result@), final(visited)@) == sort_spec(
                wd@,
                model,
                old(visited)@,
                ancestor_satisfies_filter,
            ),
    decreases wd@.height(),
{
    let mut result: Vec<Whatdo> = Vec::new();
    let satisfies_filter = filter(wd) || ancestor_satisfies_filter;
    let ghost node = wd@;
    let ghost start = visited@;
    proof {
        lemma_view_children(*wd);
        assert(whatdos_view(result@) =~= Seq::<WhatdoView>::empty());
    }
    if let Some(queue) = &wd.queue {
        let ghost q = texts(queue@);
        proof {
            assert(node.queue->0 =~= q);
        }
        let mut i: usize = 0;
        while i < queue.len()
            invariant
                i <= queue.len(),
                total(filter),
                node == wd@,
                q == texts(queue@),
                forall|model: spec_fn(WhatdoView) -> bool| #[trigger]
                    follows(filter, model) ==> {
                        &&& sort_queue(node, q, 0, model, start, satisfies_filter).0
                            == whatdos_view(result@) + sort_queue(
                            node,
                            q,
                            i as int,
                            model,
                            visited@,
                            satisfies_filter,
                        ).0
                        &&& sort_queue(node, q, 0, model, start, satisfies_filter).1
                            == sort_queue(node, q, i as int, model, visited@, satisfies_filter).1
                    },
            decreases queue.len() - i,
        {
            let id = &queue[i];
            proof {
                assert(q[i as int] == id@);
            }
            if !visited.contains(id.as_str()) {
                let named = |w: &Whatdo| -> (b: bool)
                    ensures
                        b == (w.id@ == id@),
                    { w.id == *id };
                proof {
                    assert(follows(&named, has_id(id@)));
                }
                match find_among_children(wd, 0, &named) {
                    Some((found, _)) => {
                        proof {
                            lemma_descendant_height(node, id@);
                        }
                        let ghost seen = visited@;
                        let ghost before = result@;
                        let mut other = sort_whatdos(found, filter, visited, satisfies_filter);
                        proof {
                            lemma_views_append(before, other@);
                            assert forall|model: spec_fn(WhatdoView) -> bool| #[trigger]
                                follows(filter, model) implies {
                                &&& sort_queue(node, q, 0, model, start, satisfies_filter).0
                                    == whatdos_view(before + other@) + sort_queue(
                                    node,
                                    q,
                                    i + 1,
                                    model,
                                    visited@.insert(id@),
                                    satisfies_filter,
                                ).0
                                &&& sort_queue(node, q, 0, model, start, satisfies_filter).1
                                    == sort_queue(
                                    node,
                                    q,
                                    i + 1,
                                    model,
                                    visited@.insert(id@),
                                    satisfies_filter,
                                ).1
                            } by {
                                let first = sort_spec(found@, model, seen, satisfies_filter);
                                let rest = sort_queue(
                                    node,
                                    q,
                                    i + 1,
                                    model,
                                    first.1.insert(id@),
                                    satisfies_filter,
                                );
                                assert(whatdos_view(before) + (first.0 + rest.0) =~= (
                                whatdos_view(before) + first.0) + rest.0);
                            }
                        }
                        result.append(&mut other);
                        visited.insert(id.clone());
                    },
                    None => {},
                }
            }
            i += 1;
        }
    }
    let ghost queued = whatdos_view(result@);
    let ghost mid = visited@;
    proof {
        assert(wd.queue is None ==> node.queue is None);
        assert forall|model: spec_fn(WhatdoView) -> bool| #[trigger]
            follows(filter, model) implies (queued, mid) == (match node.queue {
            Some(queue) => sort_queue(node, queue, 0, model, start, satisfies_filter),
            None => (Seq::empty(), start),
        }) by {}
    }
    let mut has_children = false;
    if let Some(kids) = &wd.whatdos {
        if kids.len() > 0 {
            has_children = true;
            let order = work_order(kids);
            let ghost ord = priority_order(priorities_of(node.children()));
            proof {
                assert(node.children() == whatdos_view(kids@));
            }
            let mut k: usize = 0;
            while k < order.len()
                invariant
                    k <= order.len(),
                    total(filter),
                    node == wd@,
                    wd.whatdos == Some(*kids),
                    node.children() == whatdos_view(kids@),
                    ord == order@.map_values(|p: usize| p as int),
                    forall|a: int| 0 <= a < order@.len() ==> #[trigger] order@[a] < kids@.len(),
                    forall|model: spec_fn(WhatdoView) -> bool| #[trigger]
                        follows(filter, model) ==> {
                            &&& sort_children(node, ord, 0, model, mid, satisfies_filter).0
                                == whatdos_view(result@).skip(queued.len() as int)
                                + sort_children(
                                node,
                                ord,
                                k as int,
                                model,
                                visited@,
                                satisfies_filter,
                            ).0
                            &&& sort_children(node, ord, 0, model, mid, satisfies_filter).1
                                == sort_children(
                                node,
                                ord,
                                k as int,
                                model,
                                visited@,
                                satisfies_filter,
                            ).1
                        },
                    whatdos_view(result@).take(queued.len() as int) == queued,
                    queued.len() <= result@.len(),
                decreases order.len() - k,
            {
                let child = &kids[order[k]];
                proof {
                    assert(ord[k as int] == order@[k as int] as int);
                    assert(node.children()[order@[k as int] as int] == child@);
                }
                if !visited.contains(child.id.as_str()) {
                    proof {
                        lemma_child_height(node, order@[k as int] as int);
                    }
                    let ghost seen = visited@;
                    let ghost before = result@;
                    let mut other = sort_whatdos(child, filter, visited, satisfies_filter);
                    proof {
                        lemma_views_append(before, other@);
                        let n = queued.len() as int;
                        assert(whatdos_view(before + other@).take(n) =~= whatdos_view(
                            before,
                        ).take(n));
                        assert forall|model: spec_fn(WhatdoView) -> bool| #[trigger]
                            follows(filter, model) implies {
                            &&& sort_children(node, ord, 0, model, mid, satisfies_filter).0
                                == whatdos_view(before + other@).skip(n) + sort_children(
                                node,
                                ord,
                                k + 1,
                                model,
                                visited@.insert(child@.id),
                                satisfies_filter,
                            ).0
                            &&& sort_children(node, ord, 0, model, mid, satisfies_filter).1
                                == sort_children(
                                node,
                                ord,
                                k + 1,
                                model,
                                visited@.insert(child@.id),
                                satisfies_filter,
                            ).1
                        } by {
                            let first = sort_spec(child@, model, seen, satisfies_filter);
                            let rest = sort_children(
                                node,
                                ord,
                                k + 1,
                                model,
                                first.1.insert(child@.id),
                                satisfies_filter,
                            );
                            assert((whatdos_view(before) + first.0).skip(n) =~= whatdos_view(
                                before,
                            ).skip(n) + first.0);
                            assert(whatdos_view(before).skip(n) + (first.0 + rest.0) =~= (
                            whatdos_view(before).skip(n) + first.0) + rest.0);
                        }
                    }
                    result.append(&mut other);
                    visited.insert(child.id.clone());
                }
                k += 1;
            }
            proof {
                let all = whatdos_view(result@);
                let n = queued.len() as int;
                assert(all =~= all.take(n) + all.skip(n));
            }
        }
    }
    if !has_children {
        proof {
            assert(node.children().len() == 0);
        }
        if satisfies_filter && !visited.contains(wd.id.as_str()) {
            let ghost before = result@;
            result.push(wd.clone());
            proof {
                assert(whatdos_view(result@) =~= whatdos_view(before).push(wd@));
            }
        }
    }
    result
}

} // verus!
