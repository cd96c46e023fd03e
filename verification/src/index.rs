use crate::model::{lemma_child_height, lemma_view_children, whatdos_view, Whatdo, WhatdoView};
use vstd::prelude::*;

verus! {

/// The first task, walking `root` and then its children from left to right,
/// each before its own children, that `pred` holds of; with it the task that
/// owns it, or `None` where the match is `root` itself.
pub open spec fn find_with_parent(
    root: WhatdoView,
    pred: spec_fn(WhatdoView) -> bool,
) -> Option<(WhatdoView, Option<WhatdoView>)>
    decreases root, 0int,
{
    if pred(root) {
        Some((root, None))
    } else {
        match root.whatdos {
            None => None,
            Some(kids) => match find_among(kids, 0, pred) {
                None => None,
                Some((found, None)) => Some((found, Some(root))),
                Some((found, Some(parent))) => Some((found, Some(parent))),
            },
        }
    }
}

/// The first match in `nodes[from]`, `nodes[from + 1]`, and so on.
pub open spec fn find_among(
    nodes: Seq<WhatdoView>,
    from: int,
    pred: spec_fn(WhatdoView) -> bool,
) -> Option<(WhatdoView, Option<WhatdoView>)>
    decreases nodes, nodes.len() - from,
{
    if 0 <= from < nodes.len() {
        match find_with_parent(nodes[from], pred) {
            Some(hit) => Some(hit),
            None => find_among(nodes, from + 1, pred),
        }
    } else {
        None
    }
}

/// Whether `task` is in the tree `root`: `root` itself or a task below it.
pub open spec fn occurs(root: WhatdoView, task: WhatdoView) -> bool
    decreases root.height(), 1int, 0int,
{
    root == task || occurs_among(root, 0, task)
}

/// Whether `task` is in the tree of one of the children of `node` from
/// `from` on.
pub open spec fn occurs_among(node: WhatdoView, from: int, task: WhatdoView) -> bool
    decreases node.height(), 0int, node.children().len() - from,
{
    if 0 <= from < node.children().len() {
        proof {
            lemma_child_height(node, from);
        }
        occurs(node.children()[from], task) || occurs_among(node, from + 1, task)
    } else {
        false
    }
}

/// A task in the tree of a child is in the tree of its parent.
pub proof fn lemma_occurs_child(node: WhatdoView, from: int, i: int, task: WhatdoView)
    requires
        0 <= from <= i < node.children().len(),
        occurs(node.children()[i], task),
    ensures
        occurs_among(node, from, task),
        from == 0 ==> occurs(node, task),
    decreases i - from,
{
    if from < i {
        lemma_occurs_child(node, from + 1, i, task);
    }
}

/// The tasks named `id`.
pub open spec fn has_id(id: Seq<char>) -> spec_fn(WhatdoView) -> bool {
    |task: WhatdoView| task.id == id
}

/// The tasks tied to the branch `name`.
pub open spec fn has_reference(name: Seq<char>) -> spec_fn(WhatdoView) -> bool {
    |task: WhatdoView| task.reference_name() == name
}

/// The first task named `id` in the tree, `root` included.
pub open spec fn find(root: WhatdoView, id: Seq<char>) -> Option<WhatdoView> {
    match find_with_parent(root, has_id(id)) {
        Some((found, _)) => Some(found),
        None => None,
    }
}

/// The task that owns the first task named `id`; `None` where there is no
/// such task or it is `root`.
pub open spec fn parent_of(root: WhatdoView, id: Seq<char>) -> Option<WhatdoView> {
    match find_with_parent(root, has_id(id)) {
        Some((_, parent)) => parent,
        None => None,
    }
}

/// The first task named `id` below `node`, `node` itself left out.
pub open spec fn descendant(node: WhatdoView, id: Seq<char>) -> Option<WhatdoView> {
    match find_among(node.children(), 0, has_id(id)) {
        Some((found, _)) => Some(found),
        None => None,
    }
}

/// The value of an optional task.
pub open spec fn option_view(task: Option<Whatdo>) -> Option<WhatdoView> {
    match task {
        Some(t) => Some(t@),
        None => None,
    }
}

/// The value of an optional borrowed task.
pub open spec fn borrowed_view(task: Option<&Whatdo>) -> Option<WhatdoView> {
    match task {
        Some(t) => Some(t@),
        None => None,
    }
}

/// The value of what a search hands out.
pub open spec fn hit_view(hit: Option<(&Whatdo, Option<&Whatdo>)>) -> Option<
    (WhatdoView, Option<WhatdoView>),
> {
    match hit {
        Some((found, parent)) => Some((found@, borrowed_view(parent))),
        None => None,
    }
}

/// An executable predicate that can be called on every task.
pub open spec fn total<F: Fn(&Whatdo) -> bool>(pred: &F) -> bool {
    forall|w: &Whatdo| call_requires(*pred, (w,))
}

/// An executable predicate that answers as `model` says: whatever it
/// returns for a task is what `model` holds of the task's value.
pub open spec fn follows<F: Fn(&Whatdo) -> bool>(
    pred: &F,
    model: spec_fn(WhatdoView) -> bool,
) -> bool {
    forall|w: &Whatdo, b: bool| #[trigger] call_ensures(*pred, (w,), b) ==> b == model(w@)
}

/// A task that a search finds is one that the predicate holds of, and is no
/// higher than the tree it was found in.
pub proof fn lemma_found(root: WhatdoView, pred: spec_fn(WhatdoView) -> bool)
    ensures
        find_with_parent(root, pred) matches Some((found, parent)) ==> {
            &&& pred(found)
            &&& found.height() <= root.height()
            &&& parent is None ==> found == root
            &&& parent matches Some(p) ==> found.height() < p.height() && p.height()
                <= root.height()
        },
    decreases root, 0int,
{
    if !pred(root) {
        match root.whatdos {
            None => {},
            Some(kids) => {
                lemma_found_among(kids, 0, pred);
                if find_among(kids, 0, pred) is Some {
                    let k = choose|k: int|
                        0 <= k < kids.len() && find_among(kids, 0, pred) == find_with_parent(
                            kids[k],
                            pred,
                        );
                    lemma_child_height(root, k);
                }
            },
        }
    }
}

/// A task found in a list was found in one of its members.
pub proof fn lemma_found_among(
    nodes: Seq<WhatdoView>,
    from: int,
    pred: spec_fn(WhatdoView) -> bool,
)
    requires
        0 <= from,
    ensures
        find_among(nodes, from, pred) matches Some((found, parent)) ==> {
            &&& pred(found)
            &&& exists|k: int|
                from <= k < nodes.len() && find_among(nodes, from, pred) == find_with_parent(
                    #[trigger] nodes[k],
                    pred,
                )
            &&& parent matches Some(p) ==> found.height() < p.height()
        },
        find_among(nodes, from, pred) matches Some((found, parent)) ==> forall|k: int|
            from <= k < nodes.len() && find_among(nodes, from, pred) == find_with_parent(
                #[trigger] nodes[k],
                pred,
            ) ==> found.height() <= nodes[k].height() && (parent matches Some(p) ==> p.height()
                <= nodes[k].height()),
    decreases nodes, nodes.len() - from,
{
    if from < nodes.len() {
        lemma_found(nodes[from], pred);
        if find_with_parent(nodes[from], pred) is None {
            lemma_found_among(nodes, from + 1, pred);
        }
        assert forall|k: int|
            from <= k < nodes.len() && find_among(nodes, from, pred) == find_with_parent(
                #[trigger] nodes[k],
                pred,
            ) && find_among(nodes, from, pred) is Some implies {
            let hit = find_among(nodes, from, pred)->0;
            hit.0.height() <= nodes[k].height() && (hit.1 matches Some(p) ==> p.height()
                <= nodes[k].height())
        } by {
            lemma_found(nodes[k], pred);
        }
    }
}

/// A task found below `node` is lower than `node`.
pub proof fn lemma_descendant_height(node: WhatdoView, id: Seq<char>)
    ensures
        descendant(node, id) matches Some(found) ==> found.id == id && found.height()
            < node.height(),
{
    let kids = node.children();
    lemma_found_among(kids, 0, has_id(id));
    if find_among(kids, 0, has_id(id)) is Some {
        let k = choose|k: int|
            0 <= k < kids.len() && find_among(kids, 0, has_id(id)) == find_with_parent(
                #[trigger] kids[k],
                has_id(id),
            );
        lemma_child_height(node, k);
    }
}

/// A task in the trees of the children from `from` on is in the tree of one
/// of them.
pub proof fn lemma_occurs_among(node: WhatdoView, from: int, task: WhatdoView)
    requires
        0 <= from,
        occurs_among(node, from, task),
    ensures
        exists|k: int| from <= k < node.children().len() && occurs(#[trigger] node.children()[k], task),
    decreases node.children().len() - from,
{
    if from < node.children().len() {
        if !occurs(node.children()[from], task) {
            lemma_occurs_among(node, from + 1, task);
        }
    }
}

/// A search for what holds of no task of the tree finds nothing.
pub proof fn lemma_find_nothing(root: WhatdoView, pred: spec_fn(WhatdoView) -> bool)
    requires
        forall|task: WhatdoView| occurs(root, task) ==> !pred(task),
    ensures
        find_with_parent(root, pred) is None,
    decreases root.height(), 1int, 0int,
{
    assert(occurs(root, root));
    if root.whatdos is Some {
        lemma_find_nothing_among(root, 0, pred);
    }
}

/// The children's part of [`lemma_find_nothing`].
pub proof fn lemma_find_nothing_among(node: WhatdoView, from: int, pred: spec_fn(WhatdoView) -> bool)
    requires
        0 <= from,
        forall|task: WhatdoView| occurs(node, task) ==> !pred(task),
    ensures
        find_among(node.children(), from, pred) is None,
    decreases node.height(), 0int, node.children().len() - from,
{
    if from < node.children().len() {
        let child = node.children()[from];
        lemma_child_height(node, from);
        assert forall|task: WhatdoView| occurs(child, task) implies !pred(task) by {
            lemma_occurs_child(node, 0, from, task);
        }
        lemma_find_nothing(child, pred);
        lemma_find_nothing_among(node, from + 1, pred);
    }
}

/// The first match among the children of `root`, from the child at `from`
/// on; a match that is a child comes with `root` as its owner.
pub fn find_among_children<'a, P: Fn(&Whatdo) -> bool>(
    root: &'a Whatdo,
    from: usize,
    pred: &P,
) -> (r: Option<(&'a Whatdo, &'a Whatdo)>)
    requires
        total(pred),
    ensures
        forall|model: spec_fn(WhatdoView) -> bool| #[trigger]
            follows(pred, model) ==> match r {
                Some((found, parent)) => match find_among(
                    root@.children(),
                    from as int,
                    model,
                ) {
                    Some((f, p)) => f == found@ && parent@ == (match p {
                        Some(q) => q,
                        None => root@,
                    }),
                    None => false,
                },
                None => find_among(root@.children(), from as int, model) is None,
            },
    decreases root, 1int,
{
    proof {
        lemma_view_children(*root);
    }
    let whatdos = match &root.whatdos {
        None => {
            return None;
        },
        Some(wds) => wds,
    };
    let ghost kids = root@.children();
    let mut i: usize = from;
    while i < whatdos.len()
        invariant
            from <= i,
            total(pred),
            root.whatdos == Some(*whatdos),
            kids == whatdos_view(whatdos@),
            kids == root@.children(),
            forall|model: spec_fn(WhatdoView) -> bool| #[trigger]
                follows(pred, model) ==> find_among(kids, from as int, model) == find_among(
                    kids,
                    i as int,
                    model,
                ),
        decreases whatdos.len() - i,
    {
        proof {
            assert(decreases_to!(root => root.whatdos));
            assert(decreases_to!(root.whatdos => root.whatdos->0));
            assert(decreases_to!(*whatdos => whatdos[i as int]));
            assert(kids[i as int] == whatdos[i as int]@);
        }
        match find_whatdo_and_parent(&whatdos[i], pred) {
            Some((found, Some(parent))) => {
                return Some((found, parent));
            },
            Some((found, None)) => {
                return Some((found, root));
            },
            None => {},
        }
        i += 1;
    }
    None
}

/// The first task that `pred` accepts, walking `root` and then its children
/// from left to right, each before its own children; with it the task that
/// owns it, or `None` where the match is `root` itself. Whatever `pred`
/// computes, the result is the first match of that.
pub fn find_whatdo_and_parent<'a, P: Fn(&Whatdo) -> bool>(
    root: &'a Whatdo,
    pred: &P,
) -> (r: Option<(&'a Whatdo, Option<&'a Whatdo>)>)
    requires
        total(pred),
    ensures
        forall|model: spec_fn(WhatdoView) -> bool| #[trigger]
            follows(pred, model) ==> hit_view(r) == find_with_parent(root@, model),
    decreases root, 2int,
{
    if pred(root) {
        return Some((root, None));
    }
    proof {
        lemma_view_children(*root);
    }
    match find_among_children(root, 0, pred) {
        Some((found, parent)) => Some((found, Some(parent))),
        None => None,
    }
}

/// A copy of the first task named `id`.
pub fn find_whatdo(root: &Whatdo, id: &str) -> (r: Option<Whatdo>)
    ensures
        option_view(r) == find(root@, id@),
{
    let target = id.to_owned();
    let named = |wd: &Whatdo| -> (b: bool)
        ensures
            b == (wd.id@ == target@),
        { wd.id == target };
    proof {
        assert(follows(&named, has_id(id@)));
    }
    match find_whatdo_and_parent(root, &named) {
        Some((found, _)) => Some(found.clone()),
        None => None,
    }
}

/// A copy of the task that owns the first task named `id`.
pub fn find_parent(root: &Whatdo, id: &str) -> (r: Option<Whatdo>)
    ensures
        option_view(r) == parent_of(root@, id@),
{
    let target = id.to_owned();
    let named = |wd: &Whatdo| -> (b: bool)
        ensures
            b == (wd.id@ == target@),
        { wd.id == target };
    proof {
        assert(follows(&named, has_id(id@)));
    }
    match find_whatdo_and_parent(root, &named) {
        Some((_, Some(parent))) => Some(parent.clone()),
        _ => None,
    }
}

} // verus!
