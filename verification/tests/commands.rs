use whatdo::{
    add, delete, find_ancestor_with_branch, find_parent, find_whatdo, finish, get, init,
    initial_whatdo_file, insert_under, new_whatdo, resolve, start, Action, Error, Whatdo,
};

fn leaf(id: &str) -> Whatdo {
    Whatdo::simple(id, None)
}

fn node(id: &str, whatdos: Vec<Whatdo>) -> Whatdo {
    Whatdo {
        id: String::from(id),
        summary: None,
        whatdos: Some(whatdos),
        queue: None,
        priority: None,
        tags: None,
        branch_name: None,
        simple_format: false,
    }
}

fn tree() -> Whatdo {
    let mut renamed = leaf("renamed");
    renamed.branch_name = Some(String::from("feature"));
    let mut root = node(
        "root",
        vec![
            node("a", vec![leaf("a1"), node("a2", vec![leaf("a21")])]),
            renamed,
            leaf("b"),
        ],
    );
    root.queue = Some(vec![String::from("a21"), String::from("b"), String::from("a21")]);
    root
}

fn strings(list: Vec<&str>) -> Vec<String> {
    list.into_iter().map(String::from).collect()
}

fn commit(message: &str) -> Action {
    Action::Commit { message: String::from(message), push: true }
}

#[test]
fn a_task_is_found_by_its_identifier() {
    let root = tree();
    assert_eq!(find_whatdo(&root, "a21"), Some(leaf("a21")));
    assert_eq!(find_whatdo(&root, "root").map(|wd| wd.id), Some(String::from("root")));
    assert_eq!(find_whatdo(&root, "feature"), None);
    assert_eq!(get(&root, "a2"), Some(node("a2", vec![leaf("a21")])));
    assert_eq!(get(&root, "zzz"), None);
}

#[test]
fn the_first_of_two_tasks_of_one_name_is_found() {
    let root = node("root", vec![node("a", vec![Whatdo::simple("x", Some("first"))]), Whatdo::simple("x", Some("second"))]);
    assert_eq!(find_whatdo(&root, "x"), Some(Whatdo::simple("x", Some("first"))));
    assert_eq!(find_parent(&root, "x").map(|wd| wd.id), Some(String::from("a")));
}

#[test]
fn the_parent_of_a_task_is_the_task_that_owns_it() {
    let root = tree();
    assert_eq!(find_parent(&root, "a21").map(|wd| wd.id), Some(String::from("a2")));
    assert_eq!(find_parent(&root, "a").map(|wd| wd.id), Some(String::from("root")));
    assert_eq!(find_parent(&root, "root"), None);
    assert_eq!(find_parent(&root, "nothing"), None);
}

#[test]
fn a_search_with_a_predicate_gives_match_and_owner() {
    let root = tree();
    let hit = whatdo::find_whatdo_and_parent(&root, &|wd: &Whatdo| wd.branch_name.is_some());
    let (found, parent) = hit.unwrap();
    assert_eq!(found.id, "renamed");
    assert_eq!(parent.map(|wd| wd.id.clone()), Some(String::from("root")));
    let hit = whatdo::find_whatdo_and_parent(&root, &|_: &Whatdo| true);
    let (found, parent) = hit.unwrap();
    assert_eq!(found.id, "root");
    assert!(parent.is_none());
    assert!(whatdo::find_whatdo_and_parent(&root, &|_: &Whatdo| false).is_none());
}

#[test]
fn a_new_task_goes_below_the_root_where_no_parent_is_named() {
    let mut root = tree();
    let (new, parent, plan) = add(
        &mut root,
        "fresh",
        strings(vec!["x", "y"]),
        Some("A fresh task"),
        Some(3),
        None,
        None,
        true,
        "main",
        &|_: &Whatdo| false,
    )
    .unwrap();
    let expected = Whatdo {
        id: String::from("fresh"),
        summary: Some(String::from("A fresh task")),
        whatdos: None,
        queue: None,
        priority: Some(3),
        tags: Some(strings(vec!["x", "y"])),
        branch_name: None,
        simple_format: false,
    };
    assert_eq!(new, expected);
    assert_eq!(parent, None);
    assert_eq!(plan, vec![Action::Store, commit("Add 'fresh' to whatdos")]);
    let mut after = tree();
    after.whatdos.as_mut().unwrap().push(expected);
    assert_eq!(root, after);
}

#[test]
fn a_new_task_goes_below_the_parent_named() {
    let mut root = tree();
    let (new, parent, plan) =
        add(&mut root, "a22", vec![], None, None, None, Some(String::from("a2")), false, "main", &|_: &Whatdo| false)
            .unwrap();
    assert_eq!(new.tags, None);
    assert_eq!(plan, vec![Action::Store]);
    let mut owner = node("a2", vec![leaf("a21")]);
    owner.whatdos.as_mut().unwrap().push(new.clone());
    assert_eq!(parent, Some(owner.clone()));
    assert_eq!(find_whatdo(&root, "a2"), Some(owner));
    assert_eq!(find_parent(&root, "a22").map(|wd| wd.id), Some(String::from("a2")));
}

#[test]
fn a_parent_without_children_gets_its_first() {
    let mut root = tree();
    let (_, parent, _) =
        add(&mut root, "b1", vec![], None, None, None, Some(String::from("b")), false, "main", &|_: &Whatdo| false)
            .unwrap();
    assert_eq!(parent.unwrap().whatdos.unwrap().len(), 1);
    assert_eq!(find_parent(&root, "b1").map(|wd| wd.id), Some(String::from("b")));
}

#[test]
fn the_at_sign_names_the_active_task() {
    let mut root = tree();
    let (_, parent, _) = add(
        &mut root,
        "sub",
        vec![],
        None,
        None,
        None,
        Some(String::from("@")),
        false,
        "feature",
        &|_: &Whatdo| false,
    )
    .unwrap();
    assert_eq!(parent.map(|wd| wd.id), Some(String::from("renamed")));
    assert_eq!(find_parent(&root, "sub").map(|wd| wd.id), Some(String::from("renamed")));
}

#[test]
fn the_root_may_be_named_as_parent() {
    let mut root = tree();
    let (_, parent, _) =
        add(&mut root, "top", vec![], None, None, None, Some(String::from("root")), false, "main", &|_: &Whatdo| false)
            .unwrap();
    assert_eq!(parent, Some(root.clone()));
    assert_eq!(root.whatdos.as_ref().unwrap().len(), 4);
}

fn refused(
    id: &str,
    tags: Vec<&str>,
    branch_name: Option<&str>,
    parent: Option<&str>,
    current_branch: &str,
    branch_taken: bool,
) -> Error {
    let mut root = tree();
    let error = add(
        &mut root,
        id,
        strings(tags),
        None,
        None,
        branch_name.map(String::from),
        parent.map(String::from),
        true,
        current_branch,
        &|_: &Whatdo| branch_taken,
    )
    .unwrap_err();
    assert_eq!(root, tree());
    error
}

#[test]
fn a_taken_identifier_is_refused_and_the_tree_stays() {
    assert_eq!(refused("a21", vec![], None, None, "main", false), Error::DuplicateId(String::from("a21")));
    assert_eq!(refused("root", vec![], None, None, "main", false), Error::DuplicateId(String::from("root")));
    assert_eq!(
        refused("a21", vec!["BAD"], Some("feature"), Some("nowhere"), "main", true),
        Error::DuplicateId(String::from("a21"))
    );
}

#[test]
fn a_taken_branch_name_is_refused_and_the_tree_stays() {
    assert_eq!(
        refused("fresh", vec![], Some("feature"), None, "main", false),
        Error::DuplicateBranchName(String::from("feature"))
    );
    assert_eq!(
        refused("fresh", vec![], Some("a1"), None, "main", false),
        Error::DuplicateBranchName(String::from("a1"))
    );
    assert_eq!(
        refused("feature", vec![], None, None, "main", false),
        Error::DuplicateBranchName(String::from("feature"))
    );
}

#[test]
fn a_fault_in_tags_or_identifier_comes_before_the_branch_name() {
    assert_eq!(
        refused("fresh", vec!["ok", "Not Ok", "ALSO"], Some("feature"), None, "main", false),
        Error::InvalidTag(String::from("Not Ok"))
    );
    assert_eq!(
        refused("not fresh", vec![], Some("feature"), None, "main", false),
        Error::InvalidId(String::from("not fresh"))
    );
    assert_eq!(
        refused("", vec!["Bad"], None, None, "main", false),
        Error::InvalidTag(String::from("Bad"))
    );
}

#[test]
fn an_existing_branch_is_refused() {
    assert_eq!(
        refused("fresh", vec![], None, None, "main", true),
        Error::BranchExists(String::from("fresh"))
    );
    assert_eq!(
        refused("fresh", vec![], Some("other"), Some("nowhere"), "main", true),
        Error::BranchExists(String::from("other"))
    );
}

#[test]
fn a_missing_parent_is_refused() {
    assert_eq!(refused("fresh", vec![], None, Some("nowhere"), "main", false), Error::ParentNotFound);
    assert_eq!(refused("fresh", vec![], None, Some("@"), "main", false), Error::NoCurrentWhatdo);
}

#[test]
fn a_draft_is_checked_against_the_tree() {
    let root = tree();
    let new = new_whatdo(&root, "fresh", vec![], Some("s"), None, Some(String::from("br"))).unwrap();
    assert_eq!(new.branch_name(), "br");
    assert_eq!(new.summary(), "s");
    assert!(!new.simple_format);
    assert_eq!(
        new_whatdo(&root, "b", vec![], None, None, None),
        Err(Error::DuplicateId(String::from("b")))
    );
}

#[test]
fn insertion_goes_below_the_first_task_of_the_name() {
    let mut root = node("root", vec![node("p", vec![]), node("q", vec![node("p", vec![])])]);
    insert_under(&mut root, &String::from("p"), leaf("new"));
    assert_eq!(
        root,
        node("root", vec![node("p", vec![leaf("new")]), node("q", vec![node("p", vec![])])])
    );
}

#[test]
fn deletion_takes_the_task_and_every_mention() {
    let (after, plan) = delete(&tree(), "a21", true);
    assert_eq!(find_whatdo(&after, "a21"), None);
    assert_eq!(after.queue, Some(strings(vec!["b"])));
    assert_eq!(find_whatdo(&after, "a2"), Some(node("a2", vec![])));
    assert_eq!(plan, vec![Action::Store, commit("Deleted 'a21' from whatdos")]);
}

#[test]
fn deletion_takes_what_is_below() {
    let (after, plan) = delete(&tree(), "a", false);
    assert_eq!(find_whatdo(&after, "a"), None);
    assert_eq!(find_whatdo(&after, "a21"), None);
    assert_eq!(after.whatdos.as_ref().unwrap().len(), 2);
    assert_eq!(after.queue, Some(strings(vec!["a21", "b", "a21"])));
    assert_eq!(plan, vec![Action::Store]);
}

#[test]
fn deletion_of_an_unknown_task_changes_nothing() {
    let (after, _) = delete(&tree(), "unknown", false);
    assert_eq!(after, tree());
}

#[test]
fn deletion_takes_every_task_of_the_name() {
    let mut root = node("root", vec![leaf("x"), node("a", vec![leaf("x"), leaf("y")]), leaf("x")]);
    root.whatdos.as_mut().unwrap()[1].queue = Some(strings(vec!["x", "y", "x"]));
    let (after, _) = delete(&root, "x", false);
    let mut a = node("a", vec![leaf("y")]);
    a.queue = Some(strings(vec!["y"]));
    assert_eq!(after, node("root", vec![a]));
}

#[test]
fn resolving_is_deleting_under_another_message() {
    let (after, plan) = resolve(&tree(), "b", true);
    assert_eq!(after, delete(&tree(), "b", true).0);
    assert_eq!(plan, vec![Action::Store, commit("Resolved whatdo 'b'")]);
    assert_eq!(resolve(&tree(), "b", false).1, vec![Action::Store]);
}

#[test]
fn starting_asks_for_a_branch_of_the_reference_name() {
    assert_eq!(
        start(&leaf("some-task")),
        Action::CheckoutNewBranch { name: String::from("some-task"), push: true }
    );
    let root = tree();
    assert_eq!(
        start(&find_whatdo(&root, "renamed").unwrap()),
        Action::CheckoutNewBranch { name: String::from("feature"), push: true }
    );
}

#[test]
fn finishing_deletes_the_active_task_and_merges_into_the_ancestor() {
    let root = tree();
    let (after, done, plan) =
        finish(&root, "a21", &|wd: &Whatdo| wd.id == "a", "main", true, true, false).unwrap();
    assert_eq!(done, leaf("a21"));
    assert_eq!(after, delete(&root, "a21", false).0);
    assert_eq!(
        plan,
        vec![
            Action::Store,
            commit("Finished whatdo 'a21'"),
            Action::Merge { target: String::from("a"), push: true },
        ]
    );
}

#[test]
fn finishing_merges_into_the_default_branch_without_an_ancestor() {
    let root = tree();
    let (_, done, plan) =
        finish(&root, "feature", &|_: &Whatdo| false, "trunk", false, true, false).unwrap();
    assert_eq!(done.id, "renamed");
    assert_eq!(
        plan,
        vec![Action::Store, Action::Merge { target: String::from("trunk"), push: true }]
    );
    let (_, _, plan) =
        finish(&root, "feature", &|_: &Whatdo| true, "trunk", true, false, true).unwrap();
    assert_eq!(plan, vec![Action::Store, commit("Finished whatdo 'renamed'")]);
}

#[test]
fn for_the_root_only_a_branch_name_of_its_own_counts() {
    let mut root = tree();
    let always = |_: &Whatdo| true;
    let (_, _, plan) = finish(&root, "b", &always, "trunk", false, true, false).unwrap();
    assert_eq!(plan[1], Action::Merge { target: String::from("trunk"), push: true });
    root.branch_name = Some(String::from("develop"));
    let (_, _, plan) = finish(&root, "b", &always, "trunk", false, true, false).unwrap();
    assert_eq!(plan[1], Action::Merge { target: String::from("develop"), push: true });
    let (_, _, plan) = finish(&root, "a1", &always, "trunk", false, true, false).unwrap();
    assert_eq!(plan[1], Action::Merge { target: String::from("a"), push: true });
    let below = find_whatdo(&root, "renamed").unwrap();
    let mut nested = tree();
    insert_under(&mut nested, &String::from("renamed"), Whatdo::simple("inner", None));
    let (_, _, plan) = finish(&nested, "inner", &always, "trunk", false, true, false).unwrap();
    assert_eq!(plan[1], Action::Merge { target: below.branch_name().clone(), push: true });
}

#[test]
fn finishing_needs_an_active_task_and_a_clean_tree() {
    let root = tree();
    let never = |_: &Whatdo| false;
    assert_eq!(
        finish(&root, "no-branch", &never, "main", true, true, true),
        Err(Error::NoActiveWhatdo)
    );
    assert_eq!(
        finish(&root, "b", &never, "main", true, true, true),
        Err(Error::UnstagedChanges)
    );
    assert!(finish(&root, "b", &never, "main", true, false, true).is_ok());
}

#[test]
fn the_search_for_a_branch_climbs_until_one_exists() {
    let root = tree();
    let named = |name: &'static str| move |wd: &Whatdo| wd.id == name;
    assert_eq!(
        find_ancestor_with_branch(&root, "a21", &|_: &Whatdo| true),
        find_whatdo(&root, "a2")
    );
    assert_eq!(find_ancestor_with_branch(&root, "a21", &named("a")), find_whatdo(&root, "a"));
    assert_eq!(find_ancestor_with_branch(&root, "a21", &named("root")), Some(root.clone()));
    assert_eq!(find_ancestor_with_branch(&root, "a21", &named("a21")), None);
    assert_eq!(find_ancestor_with_branch(&root, "a21", &named("b")), None);
}

#[test]
fn the_search_for_a_branch_ends_above_the_root() {
    let root = tree();
    assert_eq!(find_ancestor_with_branch(&root, "b", &|_: &Whatdo| true), Some(root.clone()));
    assert_eq!(find_ancestor_with_branch(&root, "b", &|_: &Whatdo| false), None);
    assert_eq!(find_ancestor_with_branch(&root, "root", &|_: &Whatdo| true), None);
    assert_eq!(find_ancestor_with_branch(&root, "unknown", &|_: &Whatdo| true), None);
}

#[test]
fn the_search_for_a_branch_ends_where_names_repeat() {
    let root = node("root", vec![node("x", vec![node("y", vec![node("x", vec![leaf("z")])])])]);
    assert_eq!(find_ancestor_with_branch(&root, "z", &|_: &Whatdo| false), None);
    assert_eq!(
        find_ancestor_with_branch(&root, "z", &|wd: &Whatdo| wd.id == "root"),
        Some(root.clone())
    );
    assert_eq!(
        find_ancestor_with_branch(&root, "z", &|wd: &Whatdo| wd.whatdos().len() == 1 && wd.id == "x"),
        Some(node("x", vec![leaf("z")]))
    );
}

#[test]
fn a_new_document_starts_with_the_tutorial() {
    let sample = initial_whatdo_file();
    assert_eq!(init(false, "/repo/WHATDO.yaml"), Ok(initial_whatdo_file()));
    assert_eq!(
        init(true, "/repo/WHATDO.yaml"),
        Err(Error::FileExists(String::from("/repo/WHATDO.yaml")))
    );
    assert_eq!(sample.id, "root");
    assert_eq!(sample.summary, Some(String::from("<description of your project>")));
    assert_eq!(sample.queue, Some(strings(vec!["setting-up-new-project"])));
    let tutorial = &sample.whatdos.as_ref().unwrap()[0];
    assert_eq!(tutorial.id, "setting-up-new-project");
    assert_eq!(tutorial.priority, Some(1));
    let steps = tutorial.whatdos.as_ref().unwrap();
    assert_eq!(
        steps.iter().map(|wd| wd.id.as_str()).collect::<Vec<_>>(),
        vec![
            "run-start-command",
            "use-next-command",
            "add-with-cli",
            "add-manually",
            "use-tags",
            "nest",
            "run-finish-command",
        ]
    );
    assert!(steps[3].simple_format);
    assert!(!steps[0].simple_format);
    assert_eq!(steps[4].priority, Some(2));
    assert_eq!(steps[4].tags, Some(strings(vec!["optional"])));
    assert_eq!(steps[5].tags, Some(strings(vec!["optional"])));
    assert_eq!(
        steps[2].summary,
        Some(String::from(
            "Add some real whatdos: `wd add example-whatdo-id -m \"Long form description of what to do\"`"
        ))
    );
    assert_eq!(
        steps[6].summary,
        Some(String::from(
            "Finish this tutorial and merge changes to the default branch: `wd finish`"
        ))
    );
}
