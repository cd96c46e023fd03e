use crate::index::{
    find_among, find_whatdo_and_parent, find_with_parent, follows, has_id, occurs, occurs_among,
    option_view, parent_of, total,
};
use crate::model::{lemma_child_height, Whatdo, WhatdoView};
use vstd::prelude::*;

verus! {

/// The number of tasks in the tree `node`.
pub open spec fn size(node: WhatdoView) -> nat
    decreases node.height(), 1int, 0int,
{
    1 + size_from(node, 0)
}

/// The number of tasks in the trees of the children of `node` from `from` on.
pub open spec fn size_from(node: WhatdoView, from: int) -> nat
    decreases node.height(), 0int, node.children().len() - from,
{
    if 0 <= from < node.children().len() {
        proof {
            lemma_child_height(node, from);
        }
        size(node.children()[from]) + size_from(node, from + 1)
    } else {
        0
    }
}

/// The number of tasks that a search walks past before it finds the first
/// that `pred` holds of; the number of all tasks where it finds none.
pub open spec fn rank(node: WhatdoView, pred: spec_fn(WhatdoView) -> bool) -> nat
    decreases node.height(), 1int, 0int,
{
    if pred(node) {
        0
    } else {
        1 + rank_from(node, 0, pred)
    }
}

/// The part of [`rank`] that the children of `node` from `from` on give.
pub open spec fn rank_from(node: WhatdoView, from: int, pred: spec_fn(WhatdoView) -> bool) -> nat
    decreases node.height(), 0int, node.children().len() - from,
{
    if 0 <= from < node.children().len() {
        proof {
            lemma_child_height(node, from);
        }
        let child = node.children()[from];
        if find_with_parent(child, pred) is Some {
            rank(child, pred)
        } else {
            size(child) + rank_from(node, from + 1, pred)
        }
    } else {
        0
    }
}

/// A search that finds something walks past fewer tasks than there are.
pub proof fn lemma_rank_bound(node: WhatdoView, pred: spec_fn(WhatdoView) -> bool)
    ensures
        rank(node, pred) <= size(node),
        find_with_parent(node, pred) is Some ==> rank(node, pred) < size(node),
    decreases node.height(), 1int, 0int,
{
    if !pred(node) {
        lemma_rank_from_bound(node, 0, pred);
        if node.whatdos is None {
            assert(node.children().len() == 0);
        }
    }
}

/// The children's part of [`lemma_rank_bound`].
pub proof fn lemma_rank_from_bound(node: WhatdoView, from: int, pred: spec_fn(WhatdoView) -> bool)
    requires
        0 <= from,
    ensures
        rank_from(node, from, pred) <= size_from(node, from),
        find_among(node.children(), from, pred) is Some ==> rank_from(node, from, pred)
            < size_from(node, from),
    decreases node.height(), 0int, node.children().len() - from,
{
    if from < node.children().len() {
        lemma_child_height(node, from);
        lemma_rank_bound(node.children()[from], pred);
        lemma_rank_from_bound(node, from + 1, pred);
    }
}

/// What a search finds is in the tree, and so is its owner.
pub proof fn lemma_found_occurs(node: WhatdoView, pred: spec_fn(WhatdoView) -> bool)
    ensures
        find_with_parent(node, pred) matches Some((found, parent)) ==> occurs(node, found) && (
        parent matches Some(p) ==> occurs(node, p)),
    decreases node.height(), 1int, 0int,
{
    if !pred(node) && node.whatdos is Some {
        lemma_found_occurs_among(node, 0, pred);
    }
}

/// The children's part of [`lemma_found_occurs`].
pub proof fn lemma_found_occurs_among(
    node: WhatdoView,
    from: int,
    pred: spec_fn(WhatdoView) -> bool,
)
    requires
        0 <= from,
    ensures
        find_among(node.children(), from, pred) matches Some((found, parent)) ==> occurs_among(
            node,
            from,
            found,
        ) && (parent matches Some(p) ==> occurs_among(node, from, p)),
    decreases node.height(), 0int, node.children().len() - from,
{
    if from < node.children().len() {
        lemma_child_height(node, from);
        lemma_found_occurs(node.children()[from], pred);
        lemma_found_occurs_among(node, from + 1, pred);
    }
}

/// A search finds something where `pred` holds of a task in the tree.
pub proof fn lemma_find_something(
    node: WhatdoView,
    pred: spec_fn(WhatdoView) -> bool,
    task: WhatdoView,
)
    requires
        occurs(node, task),
        pred(task),
    ensures
        find_with_parent(node, pred) is Some,
    decreases node.height(), 1int, 0int,
{
    if !pred(node) {
        lemma_find_something_among(node, 0, pred, task);
        if node.whatdos is None {
            assert(node.children().len() == 0);
        }
    }
}

/// The children's part of [`lemma_find_something`].
pub proof fn lemma_find_something_among(
    node: WhatdoView,
    from: int,
    pred: spec_fn(WhatdoView) -> bool,
    task: WhatdoView,
)
    requires
        0 <= from,
        occurs_among(node, from, task),
        pred(task),
    ensures
        find_among(node.children(), from, pred) is Some,
    decreases node.height(), 0int, node.children().len() - from,
{
    if from < node.children().len() {
        lemma_child_height(node, from);
        if occurs(node.children()[from], task) {
            lemma_find_something(node.children()[from], pred, task);
        } else {
            lemma_find_something_among(node, from + 1, pred, task);
        }
    }
}

/// A search for the name of the owner of what was found ends earlier than
/// the search that found it.
pub proof fn lemma_parent_rank(node: WhatdoView, pred: spec_fn(WhatdoView) -> bool)
    ensures
        find_with_parent(node, pred) matches Some((_, Some(p))) ==> rank(node, has_id(p.id))
            < rank(node, pred),
    decreases node.height(), 1int, 0int,
{
    if !pred(node) && node.whatdos is Some {
        match find_among(node.children(), 0, pred) {
            Some((_, Some(p))) => {
                if node.id != p.id {
                    lemma_parent_rank_among(node, 0, pred);
                }
            },
            _ => {},
        }
    }
}

/// The children's part of [`lemma_parent_rank`].
pub proof fn lemma_parent_rank_among(node: WhatdoView, from: int, pred: spec_fn(WhatdoView) -> bool)
    requires
        0 <= from,
    ensures
        find_among(node.children(), from, pred) matches Some((_, Some(p))) ==> rank_from(
            node,
            from,
            has_id(p.id),
        ) < rank_from(node, from, pred),
    decreases node.height(), 0int, node.children().len() - from,
{
    if from < node.children().len() {
        match find_among(node.children(), from, pred) {
            Some((_, Some(p))) => {
                let child = node.children()[from];
                let named = has_id(p.id);
                lemma_child_height(node, from);
                if find_with_parent(child, pred) is Some {
                    lemma_found_occurs(child, pred);
                    lemma_find_something(child, named, p);
                    lemma_parent_rank(child, pred);
                } else {
                    lemma_parent_rank_among(node, from + 1, pred);
                    if find_with_parent(child, named) is Some {
                        lemma_rank_bound(child, named);
                    }
                }
            },
            _ => {},
        }
    }
}

/// The nearest task above the first task named `id` that `property` holds
/// of: its owner, or else the nearest such task above the first task that
/// is named like its owner.
pub open spec fn nearest_ancestor(
    root: WhatdoView,
    id: Seq<char>,
    property: spec_fn(WhatdoView) -> bool,
) -> Option<WhatdoView>
    decreases rank(root, has_id(id)),
{
    match parent_of(root, id) {
        None => None,
        Some(parent) => if property(parent) {
            Some(parent)
        } else {
            proof {
                lemma_parent_rank(root, has_id(id));
            }
            nearest_ancestor(root, parent.id, property)
        },
    }
}

fn owner<'a>(root: &'a Whatdo, id: &String) -> (r: Option<&'a Whatdo>)
    ensures
        (match r {
            Some(task) => Some(task@),
            None => None,
        }) == parent_of(root@, id@),
{
    let named = |w: &Whatdo| -> (b: bool)
        ensures
            b == (w.id@ == id@),
        { w.id == *id };
    proof {
        assert(follows(&named, has_id(id@)));
    }
    match find_whatdo_and_parent(root, &named) {
        Some((_, Some(parent))) => Some(parent),
        _ => None,
    }
}

/// A copy of the nearest task above the task `id` that `property` accepts,
/// if there is one: the tree is searched for the owner of the task, then
/// for the owner of the task named like that owner, and so on up to the
/// root. Whatever `property` computes, the result is the nearest for that.
pub fn find_ancestor_with_branch<P: Fn(&Whatdo) -> bool>(
    root: &Whatdo,
    id: &str,
    property: &P,
) -> (r: Option<Whatdo>)
    requires
        total(property),
    ensures
        forall|model: spec_fn(WhatdoView) -> bool| #[trigger]
            follows(property, model) ==> option_view(r) == nearest_ancestor(root@, id@, model),
{
    let mut current_id = id.to_owned();
    loop
        invariant
            total(property),
            forall|model: spec_fn(WhatdoView) -> bool| #[trigger]
                follows(property, model) ==> nearest_ancestor(root@, id@, model)
                    == nearest_ancestor(root@, current_id@, model),
        decreases rank(root@, has_id(current_id@)),
    {
        match owner(root, &current_id) {
            Some(parent) => {
                if property(parent) {
                    return Some(parent.clone());
                }
                proof {
                    lemma_parent_rank(root@, has_id(current_id@));
                }
                current_id = parent.id.clone();
            },
            None => {
                return None;
            },
        }
    }
}

} // verus!
