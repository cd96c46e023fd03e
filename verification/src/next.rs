use crate::index::{find_whatdo_and_parent, find_with_parent, follows, has_reference, option_view};
use crate::model::{texts, whatdos_view, Whatdo, WhatdoView};
use crate::sort::{ids_distinct, ids_fresh, lemma_sort_once, sort_spec, sort_whatdos};
use crate::visited::Visited;
use vstd::prelude::*;

verus! {

/// How many of the coming tasks are asked for.
pub enum NextAmount {
    All,
    AtMost(usize),
}

/// Whether the task has one of `tags`; any task has, where `tags` is empty.
pub open spec fn has_wanted_tag(task: WhatdoView, tags: Seq<Seq<char>>) -> bool {
    tags.len() == 0 || match task.tags {
        Some(own) => exists|i: int, j: int|
            0 <= i < own.len() && 0 <= j < tags.len() && #[trigger] own[i] == #[trigger] tags[j],
        None => false,
    }
}

/// Whether the task has one of `priorities`; any task has, where
/// `priorities` is empty.
pub open spec fn has_wanted_priority(task: WhatdoView, priorities: Seq<i64>) -> bool {
    priorities.len() == 0 || match task.priority {
        Some(p) => priorities.contains(p),
        None => false,
    }
}

/// The tasks that a choice of tags and priorities selects.
pub open spec fn wanted(tags: Seq<Seq<char>>, priorities: Seq<i64>) -> spec_fn(WhatdoView) -> bool {
    |task: WhatdoView| has_wanted_tag(task, tags) && has_wanted_priority(task, priorities)
}

/// The task tied to the branch `branch`: the first whose reference name it is.
pub open spec fn active(root: WhatdoView, branch: Seq<char>) -> Option<WhatdoView> {
    match find_with_parent(root, has_reference(branch)) {
        Some((found, _)) => Some(found),
        None => None,
    }
}

/// All the coming tasks: those under the active task, then those under the
/// root, the active task itself never among them.
pub open spec fn upcoming(
    root: WhatdoView,
    branch: Seq<char>,
    tags: Seq<Seq<char>>,
    priorities: Seq<i64>,
) -> Seq<WhatdoView> {
    let pred = wanted(tags, priorities);
    match active(root, branch) {
        Some(task) => {
            let first = sort_spec(task, pred, set![task.id], false);
            first.0 + sort_spec(root, pred, first.1, false).0
        },
        None => sort_spec(root, pred, Set::empty(), false).0,
    }
}

/// As many of `tasks` as `amount` asks for, from the front.
pub open spec fn limited(tasks: Seq<WhatdoView>, amount: NextAmount) -> Seq<WhatdoView> {
    match amount {
        NextAmount::All => tasks,
        NextAmount::AtMost(n) => if n < tasks.len() {
            tasks.take(n as int)
        } else {
            tasks
        },
    }
}

/// No coming task is named twice, and none is the active task.
pub proof fn lemma_upcoming_once(
    root: WhatdoView,
    branch: Seq<char>,
    tags: Seq<Seq<char>>,
    priorities: Seq<i64>,
)
    ensures
        ids_distinct(upcoming(root, branch, tags, priorities)),
        active(root, branch) matches Some(task) ==> ids_fresh(
            upcoming(root, branch, tags, priorities),
            set![task.id],
        ),
{
    let pred = wanted(tags, priorities);
    match active(root, branch) {
        Some(task) => {
            let start = set![task.id];
            let first = sort_spec(task, pred, start, false);
            let second = sort_spec(root, pred, first.1, false);
            lemma_sort_once(task, pred, start, false);
            lemma_sort_once(root, pred, first.1, false);
            assert(first.1.insert(task.id) =~= first.1);
            let all = first.0 + second.0;
            assert forall|i: int| 0 <= i < all.len() implies !start.contains(
                #[trigger] all[i].id,
            ) by {
                if i < first.0.len() {
                    assert(all[i] == first.0[i]);
                } else {
                    assert(all[i] == second.0[i - first.0.len()]);
                }
            }
            assert forall|i: int, j: int| 0 <= i < j < all.len() implies #[trigger] all[i].id
                != #[trigger] all[j].id by {
                if j < first.0.len() {
                    assert(all[i] == first.0[i] && all[j] == first.0[j]);
                } else if i < first.0.len() {
                    assert(all[i] == first.0[i] && all[j] == second.0[j - first.0.len()]);
                } else {
                    assert(all[i] == second.0[i - first.0.len()] && all[j] == second.0[j
                        - first.0.len()]);
                }
            }
        },
        None => {
            lemma_sort_once(root, pred, Set::empty(), false);
        },
    }
}

fn has_tag(own: &Vec<String>, tags: &Vec<String>) -> (b: bool)
    ensures
        b == exists|i: int, j: int|
            0 <= i < own@.len() && 0 <= j < tags@.len() && #[trigger] own@[i]@
                == #[trigger] tags@[j]@,
{
    let mut i: usize = 0;
    while i < own.len()
        invariant
            i <= own.len(),
            forall|a: int, j: int|
                0 <= a < i && 0 <= j < tags@.len() ==> #[trigger] own@[a]@ != #[trigger] tags@[j]@,
        decreases own.len() - i,
    {
        let mut j: usize = 0;
        while j < tags.len()
            invariant
                i < own.len(),
                j <= tags.len(),
                forall|b: int| 0 <= b < j ==> own@[i as int]@ != #[trigger] tags@[b]@,
            decreases tags.len() - j,
        {
            if own[i] == tags[j] {
                return true;
            }
            j += 1;
        }
        i += 1;
    }
    false
}

fn has_priority(p: i64, priorities: &Vec<i64>) -> (b: bool)
    ensures
        b == priorities@.contains(p),
{
    let mut i: usize = 0;
    while i < priorities.len()
        invariant
            i <= priorities.len(),
            forall|a: int| 0 <= a < i ==> priorities@[a] != p,
        decreases priorities.len() - i,
    {
        if priorities[i] == p {
            return true;
        }
        i += 1;
    }
    false
}

/// Whether a choice of tags and priorities selects the task: it has one of
/// `tags`, unless none is given, and one of `priorities`, unless none is given.
pub fn matches_filter(wd: &Whatdo, tags: &Vec<String>, priorities: &Vec<i64>) -> (b: bool)
    ensures
        b == wanted(texts(tags@), priorities@)(wd@),
{
    let tag_ok = tags.len() == 0 || match &wd.tags {
        Some(own) => {
            let found = has_tag(own, tags);
            proof {
                let own_texts = wd@.tags->0;
                let tag_texts = texts(tags@);
                if found {
                    let (i, j) = choose|i: int, j: int|
                        0 <= i < own@.len() && 0 <= j < tags@.len() && #[trigger] own@[i]@
                            == #[trigger] tags@[j]@;
                    assert(own_texts[i] == tag_texts[j]);
                } else {
                    assert forall|i: int, j: int|
                        0 <= i < own_texts.len() && 0 <= j < tag_texts.len() implies #[trigger] own_texts[i]
                        != #[trigger] tag_texts[j] by {
                        assert(own@[i]@ != tags@[j]@);
                    }
                }
            }
            found
        },
        None => false,
    };
    let priority_ok = priorities.len() == 0 || match wd.priority {
        Some(p) => has_priority(p, priorities),
        None => false,
    };
    tag_ok && priority_ok
}

/// A copy of the task tied to the branch `current_branch`, if there is one.
pub fn current(root: &Whatdo, current_branch: &str) -> (r: Option<Whatdo>)
    ensures
        option_view(r) == active(root@, current_branch@),
{
    let branch = current_branch.to_owned();
    let tied = |w: &Whatdo| -> (b: bool)
        ensures
            b == (w@.reference_name() == branch@),
        { *w.branch_name() == branch };
    proof {
        assert(follows(&tied, has_reference(current_branch@)));
    }
    match find_whatdo_and_parent(root, &tied) {
        Some((found, _)) => Some(found.clone()),
        None => None,
    }
}

/// The tasks to work on next: those under the task tied to `current_branch`,
/// then those under the root, none twice and never the active task itself;
/// of them, those that `tags` and `priorities` select, themselves or through
/// a task above them; of those, as many as `amount` asks for.
pub fn next(
    root: &Whatdo,
    current_branch: &str,
    amount: NextAmount,
    tags: Vec<String>,
    priorities: Vec<i64>,
) -> (r: Vec<Whatdo>)
    ensures
        whatdos_view(r@) == limited(
            upcoming(root@, current_branch@, texts(tags@), priorities@),
            amount,
        ),
{
    let branch = current_branch.to_owned();
    let tied = |w: &Whatdo| -> (b: bool)
        ensures
            b == (w@.reference_name() == branch@),
        { *w.branch_name() == branch };
    let filter = |w: &Whatdo| -> (b: bool)
        ensures
            b == wanted(texts(tags@), priorities@)(w@),
        { matches_filter(w, &tags, &priorities) };
    let ghost model = wanted(texts(tags@), priorities@);
    proof {
        assert(follows(&tied, has_reference(current_branch@)));
        assert(follows(&filter, model));
    }
    let mut visited = Visited::new();
    let mut sorted: Vec<Whatdo> = Vec::new();
    match find_whatdo_and_parent(root, &tied) {
        Some((task, _)) => {
            visited.insert(task.id.clone());
            proof {
                assert(visited@ =~= set![task@.id]);
            }
            sorted = sort_whatdos(task, &filter, &mut visited, false);
        },
        None => {
            proof {
                assert(whatdos_view(sorted@) =~= Seq::<WhatdoView>::empty());
            }
        },
    }
    let ghost first = sorted@;
    let mut rest = sort_whatdos(root, &filter, &mut visited, false);
    proof {
        assert(whatdos_view(first + rest@) =~= whatdos_view(first) + whatdos_view(rest@));
        if active(root@, current_branch@) is None {
            assert(whatdos_view(first) + whatdos_view(rest@) =~= whatdos_view(rest@));
        }
    }
    sorted.append(&mut rest);
    match amount {
        NextAmount::All => {},
        NextAmount::AtMost(n) => {
            let ghost all = sorted@;
            sorted.truncate(n);
            proof {
                if n < all.len() {
                    assert(whatdos_view(sorted@) =~= whatdos_view(all).take(n as int));
                }
            }
        },
    }
    sorted
}

} // verus!
