use crate::index::{find, has_id, lemma_find_nothing, lemma_occurs_among, occurs};
use crate::model::{
    lemma_child_height, lemma_view_children, texts, whatdos_view, Whatdo, WhatdoView,
};
use vstd::prelude::*;

verus! {

/// The first `n` entries of `queue` without those that are `id`.
pub open spec fn without(queue: Seq<Seq<char>>, n: nat, id: Seq<char>) -> Seq<Seq<char>>
    decreases n,
{
    if 0 < n <= queue.len() {
        let earlier = without(queue, (n - 1) as nat, id);
        if queue[n - 1] == id {
            earlier
        } else {
            earlier.push(queue[n - 1])
        }
    } else {
        Seq::empty()
    }
}

/// The tree `task` without the tasks named `id`, what is below them, and
/// the entries of any queue that name them. `task` itself stays.
pub open spec fn deleted(task: WhatdoView, id: Seq<char>) -> WhatdoView
    decreases task.height(), 1int, 0int,
{
    WhatdoView {
        id: task.id,
        summary: task.summary,
        whatdos: match task.whatdos {
            Some(kids) => Some(deleted_children(task, kids.len(), id)),
            None => None,
        },
        queue: match task.queue {
            Some(queue) => Some(without(queue, queue.len(), id)),
            None => None,
        },
        priority: task.priority,
        tags: task.tags,
        branch_name: task.branch_name,
        simple_format: task.simple_format,
    }
}

/// What is left of the first `n` children of `task`.
pub open spec fn deleted_children(task: WhatdoView, n: nat, id: Seq<char>) -> Seq<WhatdoView>
    decreases task.height(), 0int, n,
{
    if 0 < n <= task.children().len() {
        let earlier = deleted_children(task, (n - 1) as nat, id);
        let child = task.children()[n - 1];
        if child.id == id {
            earlier
        } else {
            proof {
                lemma_child_height(task, n - 1);
            }
            earlier.push(deleted(child, id))
        }
    } else {
        Seq::empty()
    }
}

/// Whether `id` is the identifier of no task of the tree and stands in none
/// of its queues.
pub open spec fn unmentioned(root: WhatdoView, id: Seq<char>) -> bool {
    forall|task: WhatdoView|
        occurs(root, task) ==> task.id != id && match task.queue {
            Some(queue) => !queue.contains(id),
            None => true,
        }
}

proof fn lemma_without(queue: Seq<Seq<char>>, n: nat, id: Seq<char>)
    requires
        n <= queue.len(),
    ensures
        !without(queue, n, id).contains(id),
    decreases n,
{
    if n > 0 {
        lemma_without(queue, (n - 1) as nat, id);
        let earlier = without(queue, (n - 1) as nat, id);
        if queue[n - 1] != id {
            let now = earlier.push(queue[n - 1]);
            assert forall|i: int| 0 <= i < now.len() implies now[i] != id by {
                if i < earlier.len() {
                    assert(earlier.contains(earlier[i]));
                }
            }
        }
    }
}

/// What is left of the children are children that were there, each
/// without the tasks named `id`.
pub proof fn lemma_deleted_children(task: WhatdoView, n: nat, id: Seq<char>, i: int)
    requires
        n <= task.children().len(),
        0 <= i < deleted_children(task, n, id).len(),
    ensures
        exists|k: int|
            0 <= k < n && (#[trigger] task.children()[k]).id != id && deleted_children(
                task,
                n,
                id,
            )[i] == deleted(task.children()[k], id),
    decreases n,
{
    if n > 0 {
        let earlier = deleted_children(task, (n - 1) as nat, id);
        let child = task.children()[n - 1];
        if i < earlier.len() {
            lemma_deleted_children(task, (n - 1) as nat, id, i);
        } else {
            assert(child.id != id);
            assert(deleted_children(task, n, id)[i] == deleted(task.children()[n - 1], id));
        }
    }
}

/// After the deletion of `id`, no task of the tree is named `id` and no
/// queue names it.
pub proof fn lemma_deleted_unmentioned(root: WhatdoView, id: Seq<char>)
    requires
        root.id != id,
    ensures
        unmentioned(deleted(root, id), id),
    decreases root.height(),
{
    let after = deleted(root, id);
    assert forall|task: WhatdoView| occurs(after, task) implies task.id != id && match task.queue {
        Some(queue) => !queue.contains(id),
        None => true,
    } by {
        if task == after {
            if root.queue is Some {
                lemma_without(root.queue->0, root.queue->0.len(), id);
            }
        } else {
            lemma_occurs_among(after, 0, task);
            let k = choose|k: int|
                0 <= k < after.children().len() && occurs(#[trigger] after.children()[k], task);
            lemma_deleted_children(root, root.children().len(), id, k);
            let j = choose|j: int|
                0 <= j < root.children().len() && (#[trigger] root.children()[j]).id != id
                    && deleted_children(root, root.children().len(), id)[k] == deleted(
                    root.children()[j],
                    id,
                );
            lemma_child_height(root, j);
            lemma_deleted_unmentioned(root.children()[j], id);
        }
    }
}

/// After the deletion of `id`, a search for `id` finds nothing.
pub proof fn lemma_deleted_not_found(root: WhatdoView, id: Seq<char>)
    requires
        root.id != id,
    ensures
        find(deleted(root, id), id) is None,
{
    lemma_deleted_unmentioned(root, id);
    lemma_find_nothing(deleted(root, id), has_id(id));
}

fn without_id(queue: &Vec<String>, id: &String) -> (r: Vec<String>)
    ensures
        texts(r@) == without(texts(queue@), queue@.len(), id@),
{
    let mut r: Vec<String> = Vec::new();
    let mut i: usize = 0;
    proof {
        assert(texts(r@) =~= without(texts(queue@), 0, id@));
    }
    while i < queue.len()
        invariant
            i <= queue.len(),
            texts(r@) == without(texts(queue@), i as nat, id@),
        decreases queue.len() - i,
    {
        let ghost before = texts(r@);
        proof {
            assert(texts(queue@)[i as int] == queue@[i as int]@);
        }
        if !(queue[i] == *id) {
            r.push(queue[i].clone());
            proof {
                assert(texts(r@) =~= before.push(queue@[i as int]@));
            }
        }
        i += 1;
    }
    r
}

/// A copy of the tree `whatdo` without the tasks named `id`, what is below
/// them, and the entries of any queue that name them.
pub fn delete_whatdo(whatdo: &Whatdo, id: &str) -> (r: Whatdo)
    requires
        whatdo@.id != id@,
    ensures
        r@ == deleted(whatdo@, id@),
    decreases whatdo@.height(),
{
    let target = id.to_owned();
    let ghost task = whatdo@;
    proof {
        lemma_view_children(*whatdo);
    }
    let queue = match &whatdo.queue {
        Some(queue) => Some(without_id(queue, &target)),
        None => None,
    };
    let whatdos = match &whatdo.whatdos {
        Some(kids) => {
            let mut left: Vec<Whatdo> = Vec::new();
            let mut i: usize = 0;
            proof {
                assert(whatdos_view(left@) =~= deleted_children(task, 0, id@));
            }
            while i < kids.len()
                invariant
                    i <= kids.len(),
                    task == whatdo@,
                    target@ == id@,
                    task.children() == whatdos_view(kids@),
                    whatdos_view(left@) == deleted_children(task, i as nat, id@),
                decreases kids.len() - i,
            {
                let ghost before = whatdos_view(left@);
                proof {
                    assert(task.children()[i as int] == kids@[i as int]@);
                    lemma_child_height(task, i as int);
                }
                if !(kids[i].id == target) {
                    let kept = delete_whatdo(&kids[i], id);
                    left.push(kept);
                    proof {
                        assert(whatdos_view(left@) =~= before.push(kept@));
                    }
                }
                i += 1;
            }
            Some(left)
        },
        None => None,
    };
    let r = Whatdo {
        id: whatdo.id.clone(),
        summary: whatdo.summary.clone(),
        whatdos,
        queue,
        priority: whatdo.priority,
        tags: whatdo.tags.clone(),
        branch_name: whatdo.branch_name.clone(),
        simple_format: whatdo.simple_format,
    };
    proof {
        lemma_view_children(r);
        assert(r@.queue =~= deleted(task, id@).queue);
        assert(r@.tags =~= task.tags);
    }
    r
}

} // verus!
