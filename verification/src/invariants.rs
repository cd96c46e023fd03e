use crate::commands::{added, draft, first_bad_tag};
use crate::delete::{deleted, deleted_children, lemma_deleted_children};
use crate::index::{
    find, find_among, find_with_parent, has_id, lemma_occurs_among, lemma_occurs_child, occurs,
};
use crate::insert::{inserted, inserted_among};
use crate::model::{lemma_child_height, lemma_tallest, tallest, WhatdoView};
use crate::validate::is_tag;
use vstd::prelude::*;

verus! {

/// The number of tasks named `id` in the tree `node`.
pub open spec fn occurrences(node: WhatdoView, id: Seq<char>) -> nat
    decreases node.height(), 0int, 0int,
{
    (if node.id == id {
        1nat
    } else {
        0nat
    }) + (match node.whatdos {
        Some(kids) => tally(kids, kids.len(), id),
        None => 0,
    })
}

/// The number of tasks named `id` in the trees of the first `n` of `nodes`.
pub open spec fn tally(nodes: Seq<WhatdoView>, n: nat, id: Seq<char>) -> nat
    decreases tallest(nodes, nodes.len()), 1int, n,
{
    if 0 < n <= nodes.len() {
        proof {
            lemma_tallest(nodes, nodes.len(), n - 1);
        }
        tally(nodes, (n - 1) as nat, id) + occurrences(nodes[n - 1], id)
    } else {
        0
    }
}

/// No two tasks of the tree have the same identifier.
pub open spec fn unique_ids(root: WhatdoView) -> bool {
    forall|id: Seq<char>| occurrences(root, id) <= 1
}

/// Every tag of every task of the tree is a tag.
pub open spec fn tags_valid(root: WhatdoView) -> bool {
    forall|task: WhatdoView, i: int|
        occurs(root, task) && task.tags is Some && 0 <= i < task.tags->0.len() ==> is_tag(
            #[trigger] task.tags->0[i],
        )
}

/// What holds of a tree in good order: identifiers are not shared, and
/// tags are tags.
pub open spec fn well_formed(root: WhatdoView) -> bool {
    unique_ids(root) && tags_valid(root)
}

proof fn lemma_tally_same(a: Seq<WhatdoView>, b: Seq<WhatdoView>, n: nat, id: Seq<char>)
    requires
        n <= a.len(),
        n <= b.len(),
        forall|i: int| 0 <= i < n ==> a[i] == b[i],
    ensures
        tally(a, n, id) == tally(b, n, id),
    decreases n,
{
    if n > 0 {
        lemma_tally_same(a, b, (n - 1) as nat, id);
    }
}

proof fn lemma_tally_push(nodes: Seq<WhatdoView>, last: WhatdoView, id: Seq<char>)
    ensures
        tally(nodes.push(last), nodes.len() + 1, id) == tally(nodes, nodes.len(), id)
            + occurrences(last, id),
{
    lemma_tally_same(nodes.push(last), nodes, nodes.len(), id);
}

proof fn lemma_tally_update(
    nodes: Seq<WhatdoView>,
    k: int,
    new: WhatdoView,
    n: nat,
    id: Seq<char>,
)
    requires
        0 <= k < nodes.len(),
        n <= nodes.len(),
    ensures
        tally(nodes.update(k, new), n, id) + (if k < n {
            occurrences(nodes[k], id)
        } else {
            0
        }) == tally(nodes, n, id) + (if k < n {
            occurrences(new, id)
        } else {
            0
        }),
    decreases n,
{
    if n > 0 {
        lemma_tally_update(nodes, k, new, (n - 1) as nat, id);
    }
}

/// A tree in which no task named `id` is found holds none.
pub proof fn lemma_not_found_none(node: WhatdoView, id: Seq<char>)
    requires
        find(node, id) is None,
    ensures
        occurrences(node, id) == 0,
    decreases node.height(), 1int, 0int,
{
    if node.whatdos is Some {
        lemma_not_found_none_among(node, node.children().len(), id);
    }
}

proof fn lemma_none_among(
    nodes: Seq<WhatdoView>,
    from: int,
    pred: spec_fn(WhatdoView) -> bool,
    k: int,
)
    requires
        0 <= from <= k < nodes.len(),
        find_among(nodes, from, pred) is None,
    ensures
        find_with_parent(nodes[k], pred) is None,
    decreases k - from,
{
    if from < k {
        lemma_none_among(nodes, from + 1, pred, k);
    }
}

proof fn lemma_not_found_none_among(node: WhatdoView, n: nat, id: Seq<char>)
    requires
        n <= node.children().len(),
        find_among(node.children(), 0, has_id(id)) is None,
    ensures
        tally(node.children(), n, id) == 0,
    decreases node.height(), 0int, n,
{
    if n > 0 {
        lemma_not_found_none_among(node, (n - 1) as nat, id);
        lemma_none_among(node.children(), 0, has_id(id), n - 1);
        lemma_child_height(node, n - 1);
        lemma_not_found_none(node.children()[n - 1], id);
    }
}

proof fn lemma_inserted_among_shape(
    node: WhatdoView,
    from: int,
    parent: Seq<char>,
    new: WhatdoView,
)
    requires
        0 <= from,
    ensures
        inserted_among(node, from, parent, new) matches Some(kids) ==> exists|k: int|
            from <= k < node.children().len() && inserted(
                #[trigger] node.children()[k],
                parent,
                new,
            ) is Some && kids == node.children().update(
                k,
                inserted(node.children()[k], parent, new)->0,
            ),
    decreases node.children().len() - from,
{
    if from < node.children().len() {
        if inserted(node.children()[from], parent, new) is None {
            lemma_inserted_among_shape(node, from + 1, parent, new);
        }
    }
}

/// An insertion adds the tasks of what is inserted, and no others.
pub proof fn lemma_inserted_occurrences(
    root: WhatdoView,
    parent: Seq<char>,
    new: WhatdoView,
    id: Seq<char>,
)
    ensures
        inserted(root, parent, new) matches Some(tree) ==> occurrences(tree, id) == occurrences(
            root,
            id,
        ) + occurrences(new, id),
    decreases root.height(),
{
    if inserted(root, parent, new) is Some {
        let kids = root.children();
        if root.id == parent {
            lemma_tally_push(kids, new, id);
        } else {
            lemma_inserted_among_shape(root, 0, parent, new);
            let k = choose|k: int|
                0 <= k < kids.len() && inserted(#[trigger] kids[k], parent, new) is Some
                    && inserted_among(root, 0, parent, new)->0 == kids.update(
                    k,
                    inserted(kids[k], parent, new)->0,
                );
            lemma_child_height(root, k);
            lemma_inserted_occurrences(kids[k], parent, new, id);
            lemma_tally_update(kids, k, inserted(kids[k], parent, new)->0, kids.len(), id);
        }
    }
}

/// A deletion adds no task.
pub proof fn lemma_deleted_occurrences(root: WhatdoView, gone: Seq<char>, id: Seq<char>)
    ensures
        occurrences(deleted(root, gone), id) <= occurrences(root, id),
    decreases root.height(), 1int, 0int,
{
    if root.whatdos is Some {
        lemma_deleted_children_occurrences(root, root.children().len(), gone, id);
    }
}

proof fn lemma_deleted_children_occurrences(
    root: WhatdoView,
    n: nat,
    gone: Seq<char>,
    id: Seq<char>,
)
    requires
        n <= root.children().len(),
    ensures
        tally(deleted_children(root, n, gone), deleted_children(root, n, gone).len(), id) <= tally(
            root.children(),
            n,
            id,
        ),
    decreases root.height(), 0int, n,
{
    if n > 0 {
        let earlier = deleted_children(root, (n - 1) as nat, gone);
        let child = root.children()[n - 1];
        lemma_deleted_children_occurrences(root, (n - 1) as nat, gone, id);
        if child.id != gone {
            lemma_child_height(root, n - 1);
            lemma_deleted_occurrences(child, gone, id);
            lemma_tally_push(earlier, deleted(child, gone), id);
        }
    }
}

/// A task of a tree after an insertion is a task of what was inserted, or
/// has the tags of a task that was in the tree before.
pub proof fn lemma_inserted_tasks(
    root: WhatdoView,
    parent: Seq<char>,
    new: WhatdoView,
    task: WhatdoView,
)
    requires
        inserted(root, parent, new) is Some,
        occurs(inserted(root, parent, new)->0, task),
    ensures
        occurs(new, task) || exists|before: WhatdoView| #[trigger]
            occurs(root, before) && before.tags == task.tags,
    decreases root.height(),
{
    let tree = inserted(root, parent, new)->0;
    let kids = root.children();
    if task == tree {
        assert(occurs(root, root) && root.tags == task.tags);
    } else {
        lemma_occurs_among(tree, 0, task);
        let j = choose|j: int|
            0 <= j < tree.children().len() && occurs(#[trigger] tree.children()[j], task);
        if root.id == parent {
            if j < kids.len() {
                lemma_occurs_child(root, 0, j, task);
                assert(occurs(root, task) && task.tags == task.tags);
            }
        } else {
            lemma_inserted_among_shape(root, 0, parent, new);
            let k = choose|k: int|
                0 <= k < kids.len() && inserted(#[trigger] kids[k], parent, new) is Some
                    && inserted_among(root, 0, parent, new)->0 == kids.update(
                    k,
                    inserted(kids[k], parent, new)->0,
                );
            if j == k {
                lemma_child_height(root, k);
                lemma_inserted_tasks(kids[k], parent, new, task);
                if !occurs(new, task) {
                    let before = choose|before: WhatdoView| #[trigger]
                        occurs(kids[k], before) && before.tags == task.tags;
                    lemma_occurs_child(root, 0, k, before);
                    assert(occurs(root, before) && before.tags == task.tags);
                }
            } else {
                lemma_occurs_child(root, 0, j, task);
                assert(occurs(root, task) && task.tags == task.tags);
            }
        }
    }
}

/// A task of a tree after a deletion has the tags of a task that was in
/// the tree before.
pub proof fn lemma_deleted_tasks(root: WhatdoView, gone: Seq<char>, task: WhatdoView)
    requires
        occurs(deleted(root, gone), task),
    ensures
        exists|before: WhatdoView| #[trigger] occurs(root, before) && before.tags == task.tags,
    decreases root.height(),
{
    let tree = deleted(root, gone);
    if task == tree {
        assert(occurs(root, root) && root.tags == task.tags);
    } else {
        lemma_occurs_among(tree, 0, task);
        let j = choose|j: int|
            0 <= j < tree.children().len() && occurs(#[trigger] tree.children()[j], task);
        lemma_deleted_children(root, root.children().len(), gone, j);
        let k = choose|k: int|
            0 <= k < root.children().len() && (#[trigger] root.children()[k]).id != gone
                && deleted_children(root, root.children().len(), gone)[j] == deleted(
                root.children()[k],
                gone,
            );
        lemma_child_height(root, k);
        lemma_deleted_tasks(root.children()[k], gone, task);
        let before = choose|before: WhatdoView| #[trigger]
            occurs(root.children()[k], before) && before.tags == task.tags;
        lemma_occurs_child(root, 0, k, before);
        assert(occurs(root, before) && before.tags == task.tags);
    }
}

proof fn lemma_good_tags(tags: Seq<Seq<char>>, from: int)
    requires
        0 <= from,
        first_bad_tag(tags, from) is None,
    ensures
        forall|i: int| from <= i < tags.len() ==> is_tag(#[trigger] tags[i]),
    decreases tags.len() - from,
{
    if from < tags.len() {
        lemma_good_tags(tags, from + 1);
    }
}

/// A deletion leaves a tree in good order in good order.
pub proof fn lemma_delete_keeps_well_formed(root: WhatdoView, gone: Seq<char>)
    requires
        well_formed(root),
    ensures
        well_formed(deleted(root, gone)),
{
    let tree = deleted(root, gone);
    assert forall|id: Seq<char>| occurrences(tree, id) <= 1 by {
        lemma_deleted_occurrences(root, gone, id);
    }
    assert forall|task: WhatdoView, i: int|
        occurs(tree, task) && task.tags is Some && 0 <= i < task.tags->0.len() implies is_tag(
        #[trigger] task.tags->0[i],
    ) by {
        lemma_deleted_tasks(root, gone, task);
        let before = choose|before: WhatdoView| #[trigger]
            occurs(root, before) && before.tags == task.tags;
        assert(is_tag(before.tags->0[i]));
    }
}

/// Adding a task leaves a tree in good order in good order.
pub proof fn lemma_add_keeps_well_formed(
    root: WhatdoView,
    id: Seq<char>,
    tags: Seq<Seq<char>>,
    summary: Option<Seq<char>>,
    priority: Option<i64>,
    branch_name: Option<Seq<char>>,
    parent_id: Option<Seq<char>>,
    current_branch: Seq<char>,
    has_branch: spec_fn(WhatdoView) -> bool,
)
    requires
        well_formed(root),
    ensures
        added(
            root,
            id,
            tags,
            summary,
            priority,
            branch_name,
            parent_id,
            current_branch,
            has_branch,
        ) matches Ok((tree, _, _)) ==> well_formed(tree),
{
    match added(
        root,
        id,
        tags,
        summary,
        priority,
        branch_name,
        parent_id,
        current_branch,
        has_branch,
    ) {
        Ok((tree, new, _)) => {
            assert(new == draft(id, tags, summary, priority, branch_name));
            let parent = choose|parent: Seq<char>| inserted(root, parent, new) == Some(tree);
            assert(inserted(root, root.id, new) is Some);
            assert(inserted(root, parent, new) == Some(tree));
            lemma_good_tags(tags, 0);
            lemma_not_found_none(root, id);
            assert forall|other: Seq<char>| occurrences(tree, other) <= 1 by {
                lemma_inserted_occurrences(root, parent, new, other);
            }
            assert forall|task: WhatdoView, i: int|
                occurs(tree, task) && task.tags is Some && 0 <= i < task.tags->0.len() implies is_tag(
                #[trigger] task.tags->0[i],
            ) by {
                lemma_inserted_tasks(root, parent, new, task);
                if occurs(new, task) {
                    assert(task == new);
                } else {
                    let before = choose|before: WhatdoView| #[trigger]
                        occurs(root, before) && before.tags == task.tags;
                    assert(is_tag(before.tags->0[i]));
                }
            }
        },
        Err(_) => {},
    }
}

} // verus!
