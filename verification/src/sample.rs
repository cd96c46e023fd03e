use crate::model::{lemma_view_children, whatdos_view, Whatdo, WhatdoView};
use vstd::prelude::*;

verus! {

/// A task of the first document: one without children or queue.
pub open spec fn sample_task(
    id: Seq<char>,
    summary: Seq<char>,
    priority: Option<i64>,
    tags: Option<Seq<Seq<char>>>,
    simple_format: bool,
) -> WhatdoView {
    WhatdoView {
        id,
        summary: Some(summary),
        whatdos: None,
        queue: None,
        priority,
        tags,
        branch_name: None,
        simple_format,
    }
}

/// The steps of the tutorial that the first document holds.
pub open spec fn sample_steps() -> Seq<WhatdoView> {
    seq![
        sample_task(
            "run-start-command"@,
            "Start this interactive tutorial with `wd start setting-up-new-project`"@,
            None,
            None,
            false,
        ),
        sample_task(
            "use-next-command"@,
            "View what to do next with `wd next`, or view the whole whatdo tree with `wd ls`"@,
            None,
            None,
            false,
        ),
        sample_task(
            "add-with-cli"@,
            "Add some real whatdos: `wd add example-whatdo-id -m \"Long form description of what to do\"`"@,
            None,
            None,
            false,
        ),
        sample_task(
            "add-manually"@,
            "Add abbreviated whatdos like this by manually editing this file"@,
            None,
            None,
            true,
        ),
        sample_task(
            "use-tags"@,
            "Classify whatdos with tags and priorities: `wd add test-tags --tags important,cool -p 1"@,
            Some(2i64),
            Some(seq!["optional"@]),
            false,
        ),
        sample_task(
            "nest"@,
            "Nest whatdos: `wd add sub-whatdo --parent example-whatdo-id`"@,
            None,
            Some(seq!["optional"@]),
            false,
        ),
        sample_task(
            "run-finish-command"@,
            "Finish this tutorial and merge changes to the default branch: `wd finish`"@,
            None,
            None,
            false,
        ),
    ]
}

/// The tree that a new document starts with: a tutorial, queued first.
pub open spec fn sample_tree() -> WhatdoView {
    WhatdoView {
        id: "root"@,
        summary: Some("<description of your project>"@),
        whatdos: Some(
            seq![
                WhatdoView {
                    id: "setting-up-new-project"@,
                    summary: Some("Things to do to set up your WHATDO.yaml for a project"@),
                    whatdos: Some(sample_steps()),
                    queue: None,
                    priority: Some(1i64),
                    tags: None,
                    branch_name: None,
                    simple_format: false,
                },
            ],
        ),
        queue: Some(seq!["setting-up-new-project"@]),
        priority: None,
        tags: None,
        branch_name: None,
        simple_format: false,
    }
}

fn step(
    id: &str,
    summary: &str,
    priority: Option<i64>,
    tag: Option<&str>,
    simple_format: bool,
) -> (r: Whatdo)
    ensures
        r@ == sample_task(
            id@,
            summary@,
            priority,
            match tag {
                Some(t) => Some(seq![t@]),
                None => None,
            },
            simple_format,
        ),
{
    let tags = match tag {
        Some(t) => {
            let mut list: Vec<String> = Vec::new();
            list.push(t.to_owned());
            Some(list)
        },
        None => None,
    };
    let r = Whatdo {
        id: id.to_owned(),
        summary: Some(summary.to_owned()),
        whatdos: None,
        queue: None,
        priority,
        tags,
        branch_name: None,
        simple_format,
    };
    proof {
        lemma_view_children(r);
        if tag is Some {
            assert(r@.tags->0 =~= seq![tag->0@]);
        }
    }
    r
}

/// The tree that a new document starts with.
pub fn initial_whatdo_file() -> (r: Whatdo)
    ensures
        r@ == sample_tree(),
{
    let mut steps: Vec<Whatdo> = Vec::new();
    steps.push(
        step(
            "run-start-command",
            "Start this interactive tutorial with `wd start setting-up-new-project`",
            None,
            None,
            false,
        ),
    );
    steps.push(
        step(
            "use-next-command",
            "View what to do next with `wd next`, or view the whole whatdo tree with `wd ls`",
            None,
            None,
            false,
        ),
    );
    steps.push(
        step(
            "add-with-cli",
            "Add some real whatdos: `wd add example-whatdo-id -m \"Long form description of what to do\"`",
            None,
            None,
            false,
        ),
    );
    steps.push(
        step(
            "add-manually",
            "Add abbreviated whatdos like this by manually editing this file",
            None,
            None,
            true,
        ),
    );
    steps.push(
        step(
            "use-tags",
            "Classify whatdos with tags and priorities: `wd add test-tags --tags important,cool -p 1",
            Some(2),
            Some("optional"),
            false,
        ),
    );
    steps.push(
        step(
            "nest",
            "Nest whatdos: `wd add sub-whatdo --parent example-whatdo-id`",
            None,
            Some("optional"),
            false,
        ),
    );
    steps.push(
        step(
            "run-finish-command",
            "Finish this tutorial and merge changes to the default branch: `wd finish`",
            None,
            None,
            false,
        ),
    );
    proof {
        assert(whatdos_view(steps@) =~= sample_steps());
    }
    let tutorial = Whatdo {
        id: "setting-up-new-project".to_owned(),
        summary: Some("Things to do to set up your WHATDO.yaml for a project".to_owned()),
        whatdos: Some(steps),
        queue: None,
        priority: Some(1),
        tags: None,
        branch_name: None,
        simple_format: false,
    };
    proof {
        lemma_view_children(tutorial);
    }
    let mut whatdos: Vec<Whatdo> = Vec::new();
    whatdos.push(tutorial);
    let mut queue: Vec<String> = Vec::new();
    queue.push("setting-up-new-project".to_owned());
    let r = Whatdo {
        id: "root".to_owned(),
        summary: Some("<description of your project>".to_owned()),
        whatdos: Some(whatdos),
        queue: Some(queue),
        priority: None,
        tags: None,
        branch_name: None,
        simple_format: false,
    };
    proof {
        lemma_view_children(r);
        assert(r@.whatdos->0 =~= sample_tree().whatdos->0);
        assert(r@.queue->0 =~= sample_tree().queue->0);
    }
    r
}

} // verus!
