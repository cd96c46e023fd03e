use crate::index::{lemma_occurs_child, occurs};
use crate::model::{lemma_child_height, WhatdoView};
use crate::render::{flushed, is_beginning, match_line, tree_lines, walk, walk_children, SpanView};
use vstd::prelude::*;

verus! {

/// `pred` holds of no task in the tree `node`.
pub open spec fn silent(node: WhatdoView, pred: spec_fn(WhatdoView) -> bool) -> bool {
    forall|task: WhatdoView| occurs(node, task) ==> !pred(task)
}

/// The path does not end in the root's identifier.
pub open spec fn settled(path: Seq<Seq<char>>, root_id: Seq<char>) -> bool {
    path.len() == 0 || path.last() != root_id
}

/// A tree in which the filter accepts nothing, under no accepted task, gives
/// no line and leaves the path as it was.
pub proof fn lemma_silent(
    root_id: Seq<char>,
    pred: spec_fn(WhatdoView) -> bool,
    transitive: bool,
    node: WhatdoView,
    path: Seq<Seq<char>>,
    level: nat,
    above: bool,
)
    requires
        silent(node, pred),
        !(transitive && above),
        node.id == root_id ==> settled(path, root_id),
    ensures
        walk(root_id, pred, transitive, node, path, level, above) == (
            Seq::<Seq<SpanView>>::empty(),
            path,
        ),
    decreases node.height(), 1int, 0int,
{
    assert(occurs(node, node));
    let own_path = if node.id == root_id {
        path
    } else {
        path.push(node.id)
    };
    lemma_silent_children(root_id, pred, transitive, node, 0, own_path, level + 1, false);
    let w = walk(root_id, pred, transitive, node, path, level, above);
    assert(w.0 =~= Seq::<Seq<SpanView>>::empty());
    assert(w.1 =~= path);
}

/// The children's part of [`lemma_silent`].
pub proof fn lemma_silent_children(
    root_id: Seq<char>,
    pred: spec_fn(WhatdoView) -> bool,
    transitive: bool,
    node: WhatdoView,
    from: int,
    path: Seq<Seq<char>>,
    level: nat,
    above: bool,
)
    requires
        silent(node, pred),
        !(transitive && above),
        settled(path, root_id),
        0 <= from,
    ensures
        walk_children(root_id, pred, transitive, node, from, path, level, above) == (
            Seq::<Seq<SpanView>>::empty(),
            path,
        ),
    decreases node.height(), 0int, node.children().len() - from,
{
    if from < node.children().len() {
        let child = node.children()[from];
        lemma_child_height(node, from);
        assert forall|task: WhatdoView| occurs(child, task) implies !pred(task) by {
            lemma_occurs_child(node, 0, from, task);
        }
        lemma_silent(root_id, pred, transitive, child, path, level, above);
        lemma_silent_children(root_id, pred, transitive, node, from + 1, path, level, above);
        let w = walk_children(root_id, pred, transitive, node, from, path, level, above);
        assert(w.0 =~= Seq::<Seq<SpanView>>::empty());
    }
}

/// Where the filter accepts no task of the tree, the view is empty.
pub proof fn lemma_nothing_to_show(
    root: WhatdoView,
    pred: spec_fn(WhatdoView) -> bool,
    transitive: bool,
)
    requires
        silent(root, pred),
    ensures
        tree_lines(root, pred, transitive) == Seq::<Seq<SpanView>>::empty(),
{
    lemma_silent(root.id, pred, transitive, root, Seq::empty(), 0, false);
}

/// Whether `trail`, a list of positions among the children of one task
/// after the other, leads from `node` down to the first task that the
/// filter accepts: it accepts the task at the end, none on the way, and
/// none in the trees to the left of the way.
pub open spec fn leads_to_first_match(
    node: WhatdoView,
    trail: Seq<int>,
    pred: spec_fn(WhatdoView) -> bool,
) -> bool
    decreases trail.len(),
{
    if trail.len() == 0 {
        pred(node)
    } else {
        &&& !pred(node)
        &&& 0 <= trail[0] < node.children().len()
        &&& forall|i: int| 0 <= i < trail[0] ==> silent(#[trigger] node.children()[i], pred)
        &&& leads_to_first_match(node.children()[trail[0]], trail.drop_first(), pred)
    }
}

/// The task at the end of `trail`.
pub open spec fn destination(node: WhatdoView, trail: Seq<int>) -> WhatdoView
    decreases trail.len(),
{
    if trail.len() == 0 {
        node
    } else {
        destination(node.children()[trail[0]], trail.drop_first())
    }
}

/// The identifiers of the tasks on the way, from `node` to the parent of
/// the task at the end of `trail`.
pub open spec fn way(node: WhatdoView, trail: Seq<int>) -> Seq<Seq<char>>
    decreases trail.len(),
{
    if trail.len() == 0 {
        Seq::empty()
    } else {
        seq![node.id] + way(node.children()[trail[0]], trail.drop_first())
    }
}

/// Whether a task on `trail`, `node` and the task at its end included, has
/// the identifier `id`.
pub open spec fn passes(node: WhatdoView, trail: Seq<int>, id: Seq<char>) -> bool
    decreases trail.len(),
{
    node.id == id || (trail.len() > 0 && passes(
        node.children()[trail[0]],
        trail.drop_first(),
        id,
    ))
}

/// The lines that the first accepted task brings, `level` being its depth:
/// one line of context for each held-back task above it, the shallowest
/// first, and then its own line in full.
pub open spec fn arrival(
    held: Seq<Seq<char>>,
    found: WhatdoView,
    level: nat,
) -> Seq<Seq<SpanView>> {
    flushed(held, level).push(match_line(found, level - 1))
}

proof fn lemma_skip_silent(
    root_id: Seq<char>,
    pred: spec_fn(WhatdoView) -> bool,
    transitive: bool,
    node: WhatdoView,
    from: int,
    upto: int,
    path: Seq<Seq<char>>,
    level: nat,
    above: bool,
)
    requires
        0 <= from <= upto <= node.children().len(),
        forall|i: int| 0 <= i < upto ==> silent(#[trigger] node.children()[i], pred),
        !(transitive && above),
        settled(path, root_id),
    ensures
        walk_children(root_id, pred, transitive, node, from, path, level, above) == walk_children(
            root_id,
            pred,
            transitive,
            node,
            upto,
            path,
            level,
            above,
        ),
    decreases upto - from,
{
    if from < upto {
        let child = node.children()[from];
        lemma_silent(root_id, pred, transitive, child, path, level, above);
        lemma_skip_silent(root_id, pred, transitive, node, from + 1, upto, path, level, above);
        let first = walk(root_id, pred, transitive, child, path, level, above);
        let rest = walk_children(root_id, pred, transitive, node, from + 1, path, level, above);
        assert(first.0 + rest.0 =~= rest.0);
    }
}

/// Walking down to the first accepted task, below no accepted task: the
/// lines begin with the context of every task held back above it, those on
/// the way included, and then its own line in full.
pub proof fn lemma_first_match(
    root_id: Seq<char>,
    pred: spec_fn(WhatdoView) -> bool,
    transitive: bool,
    node: WhatdoView,
    trail: Seq<int>,
    path: Seq<Seq<char>>,
    level: nat,
    above: bool,
)
    requires
        leads_to_first_match(node, trail, pred),
        !passes(node, trail, root_id),
        !(transitive && above),
    ensures
        is_beginning(
            arrival(path + way(node, trail), destination(node, trail), level + trail.len()),
            walk(root_id, pred, transitive, node, path, level, above).0,
        ),
    decreases trail.len(),
{
    let w = walk(root_id, pred, transitive, node, path, level, above);
    if trail.len() == 0 {
        assert(path + way(node, trail) =~= path);
        let own = flushed(path, level).push(match_line(node, level - 1));
        assert(w.0.take(own.len() as int) =~= own);
    } else {
        let child = node.children()[trail[0]];
        let rest = trail.drop_first();
        let held = path.push(node.id);
        lemma_first_match_below(root_id, pred, transitive, node, trail, held, level + 1);
        let below = walk_children(root_id, pred, transitive, node, 0, held, level + 1, false);
        let lines = arrival(held + way(child, rest), destination(child, rest), level + 1 + rest.len());
        assert(path + way(node, trail) =~= held + way(child, rest));
        assert(w.0 =~= below.0);
    }
}

/// The step of [`lemma_first_match`] from a task to its children: `held` is
/// the path that the children are given, `level` their depth.
pub proof fn lemma_first_match_below(
    root_id: Seq<char>,
    pred: spec_fn(WhatdoView) -> bool,
    transitive: bool,
    node: WhatdoView,
    trail: Seq<int>,
    held: Seq<Seq<char>>,
    level: nat,
)
    requires
        trail.len() > 0,
        leads_to_first_match(node, trail, pred),
        !passes(node.children()[trail[0]], trail.drop_first(), root_id),
        settled(held, root_id),
    ensures
        is_beginning(
            arrival(
                held + way(node.children()[trail[0]], trail.drop_first()),
                destination(node, trail),
                (level + trail.len() - 1) as nat,
            ),
            walk_children(root_id, pred, transitive, node, 0, held, level, false).0,
        ),
    decreases trail.len(), 0int,
{
    let child = node.children()[trail[0]];
    let rest = trail.drop_first();
    lemma_skip_silent(root_id, pred, transitive, node, 0, trail[0], held, level, false);
    lemma_first_match(root_id, pred, transitive, child, rest, held, level, false);
    let first = walk(root_id, pred, transitive, child, held, level, false);
    let after = walk_children(root_id, pred, transitive, node, trail[0] + 1, first.1, level, false);
    let all = walk_children(root_id, pred, transitive, node, 0, held, level, false);
    assert(all.0 == first.0 + after.0);
    let lines = arrival(held + way(child, rest), destination(child, rest), level + rest.len());
    assert(all.0.take(lines.len() as int) =~= first.0.take(lines.len() as int));
}

/// In the view of a tree, the first accepted task comes in full behind one
/// line of context for each task on the way to it, the root left out; and
/// nothing comes before these lines.
pub proof fn lemma_ancestors_then_match(
    root: WhatdoView,
    pred: spec_fn(WhatdoView) -> bool,
    transitive: bool,
    trail: Seq<int>,
)
    requires
        trail.len() > 0,
        leads_to_first_match(root, trail, pred),
        !passes(root.children()[trail[0]], trail.drop_first(), root.id),
    ensures
        is_beginning(
            arrival(
                way(root.children()[trail[0]], trail.drop_first()),
                destination(root, trail),
                trail.len(),
            ),
            tree_lines(root, pred, transitive),
        ),
{
    let held = Seq::<Seq<char>>::empty();
    lemma_first_match_below(root.id, pred, transitive, root, trail, held, 1);
    let child = root.children()[trail[0]];
    let rest = trail.drop_first();
    assert(held + way(child, rest) =~= way(child, rest));
    let below = walk_children(root.id, pred, transitive, root, 0, held, 1, false);
    assert(tree_lines(root, pred, transitive) =~= below.0);
}

} // verus!
