use whatdo::{Span, Style, Whatdo, WhatdoTreeView};

fn leaf(id: &str) -> Whatdo {
    Whatdo::simple(id, None)
}

fn node(id: &str, whatdos: Vec<Whatdo>) -> Whatdo {
    Whatdo {
        id: String::from(id),
        summary: None,
        whatdos: Some(whatdos),
        queue: None,
        priority: None,
        tags: None,
        branch_name: None,
        simple_format: false,
    }
}

fn tree() -> Whatdo {
    node(
        "root",
        vec![
            node("left", vec![leaf("l1"), leaf("l2")]),
            node(
                "a",
                vec![
                    leaf("a-first"),
                    node("b", vec![leaf("b-first"), node("x", vec![leaf("x1"), node("x2", vec![leaf("x3")])]), leaf("b-last")]),
                    leaf("a-last"),
                ],
            ),
            node("right", vec![leaf("r1")]),
        ],
    )
}

fn dimmed(text: &str) -> Vec<Span> {
    vec![Span { style: Style::Dimmed, text: String::from(text) }]
}

fn plain_lines(lines: &[Vec<Span>]) -> Vec<String> {
    lines.iter().map(|line| whatdo::text_of(line)).collect()
}

#[test]
fn ancestors_come_dimmed_before_the_match_in_full() {
    let view = WhatdoTreeView { root: tree(), filter: |w: &Whatdo| w.id == "x", transitive: true };
    let lines = view.lines();
    assert_eq!(
        plain_lines(&lines),
        vec![
            "[a]",
            ">[b]",
            ">>[x] X",
            ">>>[x1]",
            ">>>[x2]",
            ">>>>[x3]",
        ]
    );
    assert_eq!(lines[0], dimmed("[a]"));
    assert_eq!(lines[1], dimmed(">[b]"));
    assert_eq!(
        lines[2],
        vec![
            Span { style: Style::Plain, text: String::from(">>") },
            Span { style: Style::Plain, text: String::from("[") },
            Span { style: Style::Yellow, text: String::from("x") },
            Span { style: Style::Plain, text: String::from("]") },
            Span { style: Style::Plain, text: String::from(" X") },
        ]
    );
    assert_eq!(lines[3], dimmed(">>>[x1]"));
    assert_eq!(lines[5], dimmed(">>>>[x3]"));
}

#[test]
fn without_inheritance_only_ancestors_and_matches_show() {
    let view = WhatdoTreeView { root: tree(), filter: |w: &Whatdo| w.id == "x", transitive: false };
    assert_eq!(plain_lines(&view.lines()), vec!["[a]", ">[b]", ">>[x] X"]);
}

#[test]
fn a_filter_that_matches_nothing_shows_nothing() {
    let view = WhatdoTreeView { root: tree(), filter: |_: &Whatdo| false, transitive: true };
    assert_eq!(view.lines(), Vec::<Vec<Span>>::new());
    assert_eq!(view.render(), "");
    let view = WhatdoTreeView { root: tree(), filter: |_: &Whatdo| false, transitive: false };
    assert_eq!(view.lines(), Vec::<Vec<Span>>::new());
    let view = WhatdoTreeView { root: leaf("alone"), filter: |w: &Whatdo| w.id == "other", transitive: true };
    assert_eq!(view.lines(), Vec::<Vec<Span>>::new());
}

#[test]
fn the_root_is_walked_but_never_shown() {
    let view = WhatdoTreeView { root: tree(), filter: |w: &Whatdo| w.id == "root", transitive: false };
    assert_eq!(view.lines(), Vec::<Vec<Span>>::new());
    let view = WhatdoTreeView {
        root: node("root", vec![leaf("a"), node("b", vec![leaf("c")])]),
        filter: |w: &Whatdo| w.id == "root",
        transitive: true,
    };
    assert_eq!(plain_lines(&view.lines()), vec!["[a]", "[b]", ">[c]"]);
}

#[test]
fn everything_shows_in_full_where_everything_matches() {
    let view = WhatdoTreeView {
        root: node("root", vec![leaf("a"), node("b", vec![leaf("c")])]),
        filter: |_: &Whatdo| true,
        transitive: true,
    };
    assert_eq!(view.render(), "[a] A\n[b] B\n>[c] C\n");
}

#[test]
fn context_is_flushed_once_for_several_matches() {
    let view = WhatdoTreeView {
        root: tree(),
        filter: |w: &Whatdo| w.id == "b-first" || w.id == "b-last" || w.id == "r1",
        transitive: false,
    };
    assert_eq!(
        view.render(),
        "[a]\n>[b]\n>>[b-first] B first\n>>[b-last] B last\n[right]\n>[r1] R1\n"
    );
}

#[test]
fn a_match_below_a_match_needs_no_context() {
    let view = WhatdoTreeView {
        root: tree(),
        filter: |w: &Whatdo| w.id == "a" || w.id == "x3",
        transitive: false,
    };
    assert_eq!(view.render(), "[a] A\n>[b]\n>>[x]\n>>>[x2]\n>>>>[x3] X3\n");
}

#[test]
fn siblings_without_a_match_leave_no_trace() {
    let view = WhatdoTreeView { root: tree(), filter: |w: &Whatdo| w.id == "r1", transitive: true };
    assert_eq!(view.render(), "[right]\n>[r1] R1\n");
}
