use crate::ancestors::{find_ancestor_with_branch, nearest_ancestor};
use crate::delete::{delete_whatdo, deleted};
use crate::document::result_view;
use crate::error::{Error, ErrorView};
use crate::index::{
    find, find_whatdo, find_whatdo_and_parent, find_with_parent, follows, has_id, has_reference,
    option_view, total,
};
use crate::insert::{insert_under, inserted, lemma_inserted_where_found, with_child};
use crate::model::{lemma_view_children, texts, whatdos_view, Whatdo, WhatdoView};
use crate::next::active;
use crate::sample::{initial_whatdo_file, sample_tree};
use crate::text::framed;
use crate::validate::{is_id, is_tag, valid_id, valid_tag};
use vstd::prelude::*;

verus! {

/// What is left to do outside once a command has decided.
#[derive(Debug, PartialEq, Eq)]
pub enum Action {
    /// Write the tree to the document.
    Store,
    /// Commit the document.
    Commit { message: String, push: bool },
    /// Merge the current branch into `target`.
    Merge { target: String, push: bool },
    /// Create the branch `name` and switch to it.
    CheckoutNewBranch { name: String, push: bool },
}

/// The mathematical value of an [`Action`].
pub enum ActionView {
    Store,
    Commit { message: Seq<char>, push: bool },
    Merge { target: Seq<char>, push: bool },
    CheckoutNewBranch { name: Seq<char>, push: bool },
}

impl View for Action {
    type V = ActionView;

    open spec fn view(&self) -> ActionView {
        match *self {
            Action::Store => ActionView::Store,
            Action::Commit { message, push } => ActionView::Commit { message: message@, push },
            Action::Merge { target, push } => ActionView::Merge { target: target@, push },
            Action::CheckoutNewBranch { name, push } => ActionView::CheckoutNewBranch {
                name: name@,
                push,
            },
        }
    }
}

/// The values of a list of actions.
pub open spec fn actions_view(actions: Seq<Action>) -> Seq<ActionView> {
    Seq::new(actions.len(), |i: int| actions[i]@)
}

/// To store the document and, where `commit` is set, to commit it under
/// `message` and push.
pub open spec fn store_plan(commit: bool, message: Seq<char>) -> Seq<ActionView> {
    if commit {
        seq![ActionView::Store, ActionView::Commit { message, push: true }]
    } else {
        seq![ActionView::Store]
    }
}

fn plan_store(commit: bool, message: String) -> (plan: Vec<Action>)
    ensures
        actions_view(plan@) == store_plan(commit, message@),
{
    let mut plan: Vec<Action> = Vec::new();
    plan.push(Action::Store);
    if commit {
        plan.push(Action::Commit { message, push: true });
    }
    proof {
        assert(actions_view(plan@) =~= store_plan(commit, message@));
    }
    plan
}

/// The first of `tags[from ..]` that is no tag.
pub open spec fn first_bad_tag(tags: Seq<Seq<char>>, from: int) -> Option<Seq<char>>
    decreases tags.len() - from,
{
    if 0 <= from < tags.len() {
        if is_tag(tags[from]) {
            first_bad_tag(tags, from + 1)
        } else {
            Some(tags[from])
        }
    } else {
        None
    }
}

/// The task that the given fields make.
pub open spec fn draft(
    id: Seq<char>,
    tags: Seq<Seq<char>>,
    summary: Option<Seq<char>>,
    priority: Option<i64>,
    branch_name: Option<Seq<char>>,
) -> WhatdoView {
    WhatdoView {
        id,
        summary,
        whatdos: None,
        queue: None,
        priority,
        tags: if tags.len() > 0 {
            Some(tags)
        } else {
            None
        },
        branch_name,
        simple_format: false,
    }
}

/// The new task, or why it cannot enter the tree: its identifier is taken;
/// a tag is no tag; the identifier is no identifier; its branch name is
/// taken. The first of these that holds decides.
pub open spec fn drafted(
    root: WhatdoView,
    id: Seq<char>,
    tags: Seq<Seq<char>>,
    summary: Option<Seq<char>>,
    priority: Option<i64>,
    branch_name: Option<Seq<char>>,
) -> Result<WhatdoView, ErrorView> {
    let new = draft(id, tags, summary, priority, branch_name);
    if find(root, id) is Some {
        Err(ErrorView::DuplicateId(id))
    } else if first_bad_tag(tags, 0) is Some {
        Err(ErrorView::InvalidTag(first_bad_tag(tags, 0)->0))
    } else if !is_id(id) {
        Err(ErrorView::InvalidId(id))
    } else if find_with_parent(root, has_reference(new.reference_name())) is Some {
        Err(ErrorView::DuplicateBranchName(new.reference_name()))
    } else {
        Ok(new)
    }
}

/// The value of an optional string.
pub open spec fn str_view(s: Option<&str>) -> Option<Seq<char>> {
    match s {
        Some(t) => Some(t@),
        None => None,
    }
}

/// The value of an optional owned string.
pub open spec fn string_view(s: Option<String>) -> Option<Seq<char>> {
    match s {
        Some(t) => Some(t@),
        None => None,
    }
}

fn check_tags(tags: &Vec<String>) -> (r: Option<String>)
    ensures
        string_view(r) == first_bad_tag(texts(tags@), 0),
{
    let mut i: usize = 0;
    while i < tags.len()
        invariant
            i <= tags.len(),
            first_bad_tag(texts(tags@), 0) == first_bad_tag(texts(tags@), i as int),
        decreases tags.len() - i,
    {
        proof {
            assert(texts(tags@)[i as int] == tags@[i as int]@);
        }
        if !valid_tag(tags[i].as_str()) {
            return Some(tags[i].clone());
        }
        i += 1;
    }
    None
}

/// The task that the fields make, checked against the tree it is to enter.
pub fn new_whatdo(
    root: &Whatdo,
    id: &str,
    tags: Vec<String>,
    summary: Option<&str>,
    priority: Option<i64>,
    branch_name: Option<String>,
) -> (r: Result<Whatdo, Error>)
    ensures
        result_view(r) == drafted(
            root@,
            id@,
            texts(tags@),
            str_view(summary),
            priority,
            string_view(branch_name),
        ),
{
    let owned = id.to_owned();
    let named = |w: &Whatdo| -> (b: bool)
        ensures
            b == (w.id@ == owned@),
        { w.id == owned };
    proof {
        assert(follows(&named, has_id(id@)));
    }
    if find_whatdo_and_parent(root, &named).is_some() {
        return Err(Error::DuplicateId(id.to_owned()));
    }
    match check_tags(&tags) {
        Some(bad) => {
            return Err(Error::InvalidTag(bad));
        },
        None => {},
    }
    if !valid_id(id) {
        return Err(Error::InvalidId(id.to_owned()));
    }
    let ghost tag_texts = texts(tags@);
    let new = Whatdo {
        id: id.to_owned(),
        summary: match summary {
            Some(s) => Some(s.to_owned()),
            None => None,
        },
        simple_format: false,
        queue: None,
        whatdos: None,
        tags: if tags.len() > 0 {
            Some(tags)
        } else {
            None
        },
        priority,
        branch_name,
    };
    proof {
        lemma_view_children(new);
        if tag_texts.len() > 0 {
            assert(new@.tags->0 =~= tag_texts);
        }
        assert(new@ == draft(id@, tag_texts, str_view(summary), priority, new@.branch_name));
    }
    let name = new.branch_name().clone();
    let tied = |w: &Whatdo| -> (b: bool)
        ensures
            b == (w@.reference_name() == name@),
        { *w.branch_name() == name };
    proof {
        assert(follows(&tied, has_reference(name@)));
    }
    if find_whatdo_and_parent(root, &tied).is_some() {
        return Err(Error::DuplicateBranchName(name));
    }
    Ok(new)
}

/// Where a new task goes: below the root where no parent is named, below
/// the active task where `@` is named, else below the task named.
pub open spec fn placed(
    root: WhatdoView,
    new: WhatdoView,
    parent_id: Option<Seq<char>>,
    current_branch: Seq<char>,
) -> Result<(WhatdoView, Option<WhatdoView>), ErrorView> {
    match parent_id {
        None => Ok((with_child(root, new), None)),
        Some(named) => {
            if named == seq!['@'] && active(root, current_branch) is None {
                Err(ErrorView::NoCurrentWhatdo)
            } else {
                let parent = if named == seq!['@'] {
                    active(root, current_branch)->0.id
                } else {
                    named
                };
                match inserted(root, parent, new) {
                    Some(tree) => Ok((tree, Some(with_child(find(root, parent)->0, new)))),
                    None => Err(ErrorView::ParentNotFound),
                }
            }
        },
    }
}

/// What adding a task comes to: the tree with the task in it, the task, and
/// its parent where one was named; or the first reason against it.
/// `has_branch` holds of a task whose branch exists already.
pub open spec fn added(
    root: WhatdoView,
    id: Seq<char>,
    tags: Seq<Seq<char>>,
    summary: Option<Seq<char>>,
    priority: Option<i64>,
    branch_name: Option<Seq<char>>,
    parent_id: Option<Seq<char>>,
    current_branch: Seq<char>,
    has_branch: spec_fn(WhatdoView) -> bool,
) -> Result<(WhatdoView, WhatdoView, Option<WhatdoView>), ErrorView> {
    match drafted(root, id, tags, summary, priority, branch_name) {
        Err(e) => Err(e),
        Ok(new) => if has_branch(new) {
            Err(ErrorView::BranchExists(new.reference_name()))
        } else {
            match placed(root, new, parent_id, current_branch) {
                Err(e) => Err(e),
                Ok((tree, parent)) => Ok((tree, new, parent)),
            }
        },
    }
}

/// A new task is turned away for its name where its identifier is taken,
/// and, where identifier and tags are well formed, where its branch name is.
pub proof fn lemma_collisions_rejected(
    root: WhatdoView,
    id: Seq<char>,
    tags: Seq<Seq<char>>,
    summary: Option<Seq<char>>,
    priority: Option<i64>,
    branch_name: Option<Seq<char>>,
    parent_id: Option<Seq<char>>,
    current_branch: Seq<char>,
    has_branch: spec_fn(WhatdoView) -> bool,
)
    ensures
        find(root, id) is Some ==> added(
            root,
            id,
            tags,
            summary,
            priority,
            branch_name,
            parent_id,
            current_branch,
            has_branch,
        ) == Err::<(WhatdoView, WhatdoView, Option<WhatdoView>), ErrorView>(
            ErrorView::DuplicateId(id),
        ),
        find(root, id) is None && is_id(id) && first_bad_tag(tags, 0) is None && find_with_parent(
            root,
            has_reference(draft(id, tags, summary, priority, branch_name).reference_name()),
        ) is Some ==> added(
            root,
            id,
            tags,
            summary,
            priority,
            branch_name,
            parent_id,
            current_branch,
            has_branch,
        ) == Err::<(WhatdoView, WhatdoView, Option<WhatdoView>), ErrorView>(
            ErrorView::DuplicateBranchName(
                draft(id, tags, summary, priority, branch_name).reference_name(),
            ),
        ),
{
}

/// Adds a task to the tree.
///
/// `current_branch` is the branch that is checked out, and `branch_exists`
/// says of a task whether its branch exists already; it is asked about the
/// new task once the task has passed the checks against the tree. On
/// success the tree holds the task, and the result is the task, its parent
/// where one was named, and what is left to do; on failure the tree is as
/// it was.
pub fn add<P: Fn(&Whatdo) -> bool>(
    root: &mut Whatdo,
    id: &str,
    tags: Vec<String>,
    summary: Option<&str>,
    priority: Option<i64>,
    branch_name: Option<String>,
    parent_id: Option<String>,
    commit: bool,
    current_branch: &str,
    branch_exists: &P,
) -> (r: Result<(Whatdo, Option<Whatdo>, Vec<Action>), Error>)
    requires
        total(branch_exists),
    ensures
        forall|model: spec_fn(WhatdoView) -> bool| #[trigger]
            follows(branch_exists, model) ==> match added(
                old(root)@,
                id@,
                texts(tags@),
                str_view(summary),
                priority,
                string_view(branch_name),
                string_view(parent_id),
                current_branch@,
                model,
            ) {
                Ok((tree, new, parent)) => {
                    &&& final(root)@ == tree
                    &&& r matches Ok((task, owner, plan))
                    &&& task@ == new
                    &&& option_view(owner) == parent
                    &&& actions_view(plan@) == store_plan(
                        commit,
                        "Add '"@ + id@ + "' to whatdos"@,
                    )
                },
                Err(e) => {
                    &&& final(root)@ == old(root)@
                    &&& r matches Err(err)
                    &&& err@ == e
                },
            },
        r is Err ==> final(root)@ == old(root)@,
{
    let ghost before = root@;
    let new = match new_whatdo(root, id, tags, summary, priority, branch_name) {
        Ok(new) => new,
        Err(e) => {
            return Err(e);
        },
    };
    if branch_exists(&new) {
        return Err(Error::BranchExists(new.branch_name().clone()));
    }
    let parent = match &parent_id {
        Some(named) => {
            proof {
                reveal_strlit("@");
                assert("@"@ =~= seq!['@']);
            }
            let at = "@".to_owned();
            let target = if *named == at {
                let branch = current_branch.to_owned();
                let tied = |w: &Whatdo| -> (b: bool)
                    ensures
                        b == (w@.reference_name() == branch@),
                    { *w.branch_name() == branch };
                proof {
                    assert(follows(&tied, has_reference(current_branch@)));
                }
                match find_whatdo_and_parent(root, &tied) {
                    Some((task, _)) => task.id.clone(),
                    None => {
                        return Err(Error::NoCurrentWhatdo);
                    },
                }
            } else {
                named.clone()
            };
            let mut owner = match find_whatdo(root, target.as_str()) {
                Some(owner) => owner,
                None => {
                    proof {
                        lemma_inserted_where_found(before, target@, new@);
                    }
                    return Err(Error::ParentNotFound);
                },
            };
            let ghost found = owner@;
            let mut kids = match owner.whatdos {
                Some(kids) => kids,
                None => Vec::new(),
            };
            proof {
                lemma_view_children(owner);
                assert(whatdos_view(kids@) =~= found.children());
            }
            kids.push(new.clone());
            owner.whatdos = Some(kids);
            proof {
                lemma_view_children(owner);
                assert(owner@.whatdos->0 =~= found.children().push(new@));
                lemma_inserted_where_found(before, target@, new@);
            }
            insert_under(root, &target, new.clone());
            Some(owner)
        },
        None => {
            let ghost kids_before = root@.children();
            proof {
                lemma_view_children(*root);
            }
            match &mut root.whatdos {
                Some(kids) => {
                    kids.push(new.clone());
                },
                None => {
                    let mut kids: Vec<Whatdo> = Vec::new();
                    kids.push(new.clone());
                    root.whatdos = Some(kids);
                },
            }
            proof {
                lemma_view_children(*root);
                assert(root@.whatdos->0 =~= kids_before.push(new@));
            }
            None
        },
    };
    let plan = plan_store(commit, framed("Add '", id, "' to whatdos"));
    Ok((new, parent, plan))
}

/// A copy of the first task named `id`.
pub fn get(root: &Whatdo, id: &str) -> (r: Option<Whatdo>)
    ensures
        option_view(r) == find(root@, id@),
{
    find_whatdo(root, id)
}

/// What starting a task asks for: a new branch of the task's name, pushed.
pub fn start(wd: &Whatdo) -> (r: Action)
    ensures
        r@ == (ActionView::CheckoutNewBranch { name: wd@.reference_name(), push: true }),
{
    Action::CheckoutNewBranch { name: wd.branch_name().clone(), push: true }
}

/// The tree without the task `id`, and what is left to do.
pub fn delete(root: &Whatdo, id: &str, commit: bool) -> (r: (Whatdo, Vec<Action>))
    requires
        root@.id != id@,
    ensures
        r.0@ == deleted(root@, id@),
        actions_view(r.1@) == store_plan(commit, "Deleted '"@ + id@ + "' from whatdos"@),
{
    let tree = delete_whatdo(root, id);
    let plan = plan_store(commit, framed("Deleted '", id, "' from whatdos"));
    (tree, plan)
}

/// The tree without the task `id`, which is done, and what is left to do.
pub fn resolve(root: &Whatdo, id: &str, commit: bool) -> (r: (Whatdo, Vec<Action>))
    requires
        root@.id != id@,
    ensures
        r.0@ == deleted(root@, id@),
        actions_view(r.1@) == store_plan(commit, "Resolved whatdo '"@ + id@ + "'"@),
{
    let tree = delete_whatdo(root, id);
    let plan = plan_store(commit, framed("Resolved whatdo '", id, "'"));
    (tree, plan)
}

/// The branch that a finished task is merged into: that of `ancestor`, the
/// nearest task above it that has a branch; for the root only a branch name
/// of its own counts; failing these, the default branch.
pub open spec fn merge_target(
    root: WhatdoView,
    ancestor: Option<WhatdoView>,
    default_branch: Seq<char>,
) -> Seq<char> {
    match ancestor {
        Some(task) => if task.id == root.id {
            match root.branch_name {
                Some(name) => name,
                None => default_branch,
            }
        } else {
            task.reference_name()
        },
        None => default_branch,
    }
}

/// What is left to do once the task `id` is finished.
pub open spec fn finish_plan(
    id: Seq<char>,
    target: Seq<char>,
    commit: bool,
    merge: bool,
) -> Seq<ActionView> {
    let stored = store_plan(commit, "Finished whatdo '"@ + id + "'"@);
    if merge {
        stored.push(ActionView::Merge { target, push: true })
    } else {
        stored
    }
}

/// What finishing the active task comes to: the tree without it, the task,
/// and what is left to do; or the reason against it. The task is merged
/// into the branch of the nearest task above it that `has_branch` holds of.
pub open spec fn finished(
    root: WhatdoView,
    current_branch: Seq<char>,
    has_branch: spec_fn(WhatdoView) -> bool,
    default_branch: Seq<char>,
    commit: bool,
    merge: bool,
    unstaged_changes: bool,
) -> Result<(WhatdoView, WhatdoView, Seq<ActionView>), ErrorView> {
    match active(root, current_branch) {
        None => Err(ErrorView::NoActiveWhatdo),
        Some(task) => if merge && unstaged_changes {
            Err(ErrorView::UnstagedChanges)
        } else {
            Ok(
                (
                    deleted(root, task.id),
                    task,
                    finish_plan(
                        task.id,
                        merge_target(
                            root,
                            nearest_ancestor(root, task.id, has_branch),
                            default_branch,
                        ),
                        commit,
                        merge,
                    ),
                ),
            )
        },
    }
}

/// Finishes the task tied to `current_branch`.
///
/// `branch_exists` says of a task whether its branch exists;
/// `default_branch` is the repository's default branch, and
/// `unstaged_changes` says whether the working tree holds changes that are
/// not staged. The result is the tree without the task, the task, and what
/// is left to do.
pub fn finish<P: Fn(&Whatdo) -> bool>(
    root: &Whatdo,
    current_branch: &str,
    branch_exists: &P,
    default_branch: &str,
    commit: bool,
    merge: bool,
    unstaged_changes: bool,
) -> (r: Result<(Whatdo, Whatdo, Vec<Action>), Error>)
    requires
        total(branch_exists),
        active(root@, current_branch@) matches Some(task) ==> task.id != root@.id,
    ensures
        forall|model: spec_fn(WhatdoView) -> bool| #[trigger]
            follows(branch_exists, model) ==> match finished(
                root@,
                current_branch@,
                model,
                default_branch@,
                commit,
                merge,
                unstaged_changes,
            ) {
                Ok((tree, task, plan)) => {
                    &&& r matches Ok((left, done, actions))
                    &&& left@ == tree
                    &&& done@ == task
                    &&& actions_view(actions@) == plan
                },
                Err(e) => {
                    &&& r matches Err(err)
                    &&& err@ == e
                },
            },
{
    let branch = current_branch.to_owned();
    let tied = |w: &Whatdo| -> (b: bool)
        ensures
            b == (w@.reference_name() == branch@),
        { *w.branch_name() == branch };
    proof {
        assert(follows(&tied, has_reference(current_branch@)));
    }
    let current_wd = match find_whatdo_and_parent(root, &tied) {
        Some((task, _)) => task,
        None => {
            return Err(Error::NoActiveWhatdo);
        },
    };
    let ancestor = find_ancestor_with_branch(root, current_wd.id.as_str(), branch_exists);
    let target_branch = match &ancestor {
        Some(task) => if task.id == root.id {
            match &root.branch_name {
                Some(name) => name.clone(),
                None => default_branch.to_owned(),
            }
        } else {
            task.branch_name().clone()
        },
        None => default_branch.to_owned(),
    };
    if merge && unstaged_changes {
        return Err(Error::UnstagedChanges);
    }
    let tree = delete_whatdo(root, current_wd.id.as_str());
    let mut plan = plan_store(commit, framed("Finished whatdo '", current_wd.id.as_str(), "'"));
    if merge {
        let ghost stored = actions_view(plan@);
        plan.push(Action::Merge { target: target_branch, push: true });
        proof {
            assert(actions_view(plan@) =~= stored.push(
                ActionView::Merge { target: target_branch@, push: true },
            ));
        }
    }
    Ok((tree, current_wd.clone(), plan))
}

/// The tree that a new document starts with, where there is no document
/// yet at `path`.
pub fn init(exists: bool, path: &str) -> (r: Result<Whatdo, Error>)
    ensures
        match r {
            Ok(tree) => !exists && tree@ == sample_tree(),
            Err(e) => exists && e@ == ErrorView::FileExists(path@),
        },
{
    if exists {
        Err(Error::FileExists(path.to_owned()))
    } else {
        Ok(initial_whatdo_file())
    }
}

} // verus!
