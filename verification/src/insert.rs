use crate::index::{find, find_among, find_whatdo_and_parent, follows, has_id, total};
use crate::model::{lemma_child_height, lemma_view_children, whatdos_view, Whatdo, WhatdoView};
use vstd::prelude::*;

verus! {

/// `task` with `new` as its last child.
pub open spec fn with_child(task: WhatdoView, new: WhatdoView) -> WhatdoView {
    WhatdoView {
        id: task.id,
        summary: task.summary,
        whatdos: Some(task.children().push(new)),
        queue: task.queue,
        priority: task.priority,
        tags: task.tags,
        branch_name: task.branch_name,
        simple_format: task.simple_format,
    }
}

/// `task` with `kids` as its children.
pub open spec fn with_children(task: WhatdoView, kids: Seq<WhatdoView>) -> WhatdoView {
    WhatdoView {
        id: task.id,
        summary: task.summary,
        whatdos: Some(kids),
        queue: task.queue,
        priority: task.priority,
        tags: task.tags,
        branch_name: task.branch_name,
        simple_format: task.simple_format,
    }
}

/// The tree with `new` as the last child of the first task named `parent`;
/// `None` where no task is named so.
pub open spec fn inserted(root: WhatdoView, parent: Seq<char>, new: WhatdoView) -> Option<
    WhatdoView,
>
    decreases root.height(), 1int, 0int,
{
    if root.id == parent {
        Some(with_child(root, new))
    } else {
        match inserted_among(root, 0, parent, new) {
            Some(kids) => Some(with_children(root, kids)),
            None => None,
        }
    }
}

/// The children of `node` with `new` put below the first task named
/// `parent` that is found in the children from `from` on.
pub open spec fn inserted_among(
    node: WhatdoView,
    from: int,
    parent: Seq<char>,
    new: WhatdoView,
) -> Option<Seq<WhatdoView>>
    decreases node.height(), 0int, node.children().len() - from,
{
    if 0 <= from < node.children().len() {
        proof {
            lemma_child_height(node, from);
        }
        match inserted(node.children()[from], parent, new) {
            Some(child) => Some(node.children().update(from, child)),
            None => inserted_among(node, from + 1, parent, new),
        }
    } else {
        None
    }
}

/// An insertion succeeds where a search for the parent does.
pub proof fn lemma_inserted_where_found(root: WhatdoView, parent: Seq<char>, new: WhatdoView)
    ensures
        inserted(root, parent, new) is Some <==> find(root, parent) is Some,
    decreases root.height(), 1int, 0int,
{
    if root.id != parent {
        lemma_inserted_among_where_found(root, 0, parent, new);
        if root.whatdos is None {
            assert(root.children().len() == 0);
        }
    }
}

proof fn lemma_inserted_among_where_found(
    node: WhatdoView,
    from: int,
    parent: Seq<char>,
    new: WhatdoView,
)
    requires
        0 <= from,
    ensures
        inserted_among(node, from, parent, new) is Some <==> find_among(
            node.children(),
            from,
            has_id(parent),
        ) is Some,
    decreases node.height(), 0int, node.children().len() - from,
{
    if from < node.children().len() {
        lemma_child_height(node, from);
        lemma_inserted_where_found(node.children()[from], parent, new);
        lemma_inserted_among_where_found(node, from + 1, parent, new);
    }
}

/// Puts `new` below the first task named `parent`, as its last child.
pub fn insert_under(root: &mut Whatdo, parent: &String, new: Whatdo)
    requires
        find(old(root)@, parent@) is Some,
    ensures
        Some(final(root)@) == inserted(old(root)@, parent@, new@),
    decreases old(root)@.height(),
{
    let ghost before = root@;
    proof {
        lemma_view_children(*root);
        lemma_inserted_where_found(before, parent@, new@);
    }
    if root.id == *parent {
        match &mut root.whatdos {
            Some(kids) => {
                kids.push(new);
            },
            None => {
                let mut kids: Vec<Whatdo> = Vec::new();
                kids.push(new);
                root.whatdos = Some(kids);
            },
        }
        proof {
            lemma_view_children(*root);
            assert(root@.whatdos->0 =~= before.children().push(new@));
        }
    } else {
        let named = |w: &Whatdo| -> (b: bool)
            ensures
                b == (w.id@ == parent@),
            { w.id == *parent };
        proof {
            assert(follows(&named, has_id(parent@)));
        }
        match &mut root.whatdos {
            Some(kids) => {
                let ghost old_kids = kids@;
                let mut i: usize = 0;
                while i < kids.len()
                    invariant_except_break
                        kids@ == old_kids,
                    invariant
                        i <= kids.len(),
                        before == old(root)@,
                        before.children() == whatdos_view(old_kids),
                        inserted_among(before, i as int, parent@, new@) == inserted_among(
                            before,
                            0,
                            parent@,
                            new@,
                        ),
                        inserted_among(before, 0, parent@, new@) is Some,
                        total(&named),
                        follows(&named, has_id(parent@)),
                    ensures
                        Some(whatdos_view(kids@)) == inserted_among(before, 0, parent@, new@),
                    decreases kids.len() - i,
                {
                    proof {
                        assert(before.children()[i as int] == kids@[i as int]@);
                        lemma_child_height(before, i as int);
                        lemma_inserted_where_found(kids@[i as int]@, parent@, new@);
                    }
                    if find_whatdo_and_parent(&kids[i], &named).is_some() {
                        insert_under(&mut kids[i], parent, new);
                        proof {
                            assert(whatdos_view(kids@) =~= before.children().update(
                                i as int,
                                kids@[i as int]@,
                            ));
                        }
                        break ;
                    }
                    i += 1;
                }
            },
            None => {
                proof {
                    assert(before.children().len() == 0);
                }
            },
        }
        proof {
            lemma_view_children(*root);
        }
    }
}

} // verus!
