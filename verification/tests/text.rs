use whatdo::{deslugify, text_of, Span, Style, Whatdo};

fn task(
    id: &str,
    summary: Option<&str>,
    priority: Option<i64>,
    tags: Option<Vec<&str>>,
) -> Whatdo {
    Whatdo {
        id: String::from(id),
        summary: summary.map(String::from),
        whatdos: None,
        queue: None,
        priority,
        tags: tags.map(|list| list.into_iter().map(String::from).collect()),
        branch_name: None,
        simple_format: false,
    }
}

fn span(style: Style, text: &str) -> Span {
    Span { style, text: String::from(text) }
}

#[test]
fn a_slug_becomes_a_sentence() {
    assert_eq!(deslugify("read-back-whatdos"), "Read back whatdos");
    assert_eq!(deslugify("use_tags"), "Use tags");
    assert_eq!(deslugify("a"), "A");
    assert_eq!(deslugify(""), "");
}

#[test]
fn only_the_very_first_character_is_put_in_upper_case() {
    assert_eq!(deslugify("-lead"), " lead");
    assert_eq!(deslugify("_x-y"), " x y");
    assert_eq!(deslugify("Already"), "Already");
    assert_eq!(deslugify("9lives"), "9lives");
}

#[test]
fn upper_case_may_be_more_than_one_character() {
    assert_eq!(deslugify("\u{df}-a"), "SS a");
    assert_eq!(deslugify("\u{e9}t\u{e9}"), "\u{c9}t\u{e9}");
}

#[test]
fn the_summary_falls_back_on_the_identifier() {
    assert_eq!(task("finish-whatdo", None, None, None).summary(), "Finish whatdo");
    assert_eq!(task("finish-whatdo", Some("Done"), None, None).summary(), "Done");
    assert_eq!(task("x", Some(""), None, None).summary(), "");
}

#[test]
fn the_branch_name_falls_back_on_the_identifier() {
    let mut wd = task("some-id", None, None, None);
    assert_eq!(wd.branch_name(), "some-id");
    wd.branch_name = Some(String::from("other"));
    assert_eq!(wd.branch_name(), "other");
}

#[test]
fn children_are_copied_out() {
    let mut wd = task("p", None, None, None);
    assert_eq!(wd.whatdos(), vec![]);
    wd.whatdos = Some(vec![task("a", None, Some(1), None), task("b", None, None, None)]);
    assert_eq!(
        wd.whatdos(),
        vec![task("a", None, Some(1), None), task("b", None, None, None)]
    );
}

#[test]
fn a_copy_equals_what_was_copied() {
    let mut wd = task("p", Some("s"), Some(3), Some(vec!["x", "y"]));
    wd.queue = Some(vec![String::from("a")]);
    wd.branch_name = Some(String::from("b"));
    wd.whatdos = Some(vec![Whatdo::simple("a", Some("child"))]);
    assert_eq!(wd.clone(), wd);
    assert_eq!(wd.copy(), wd);
}

#[test]
fn the_one_line_form_needs_the_mark_and_nothing_but_a_summary() {
    assert!(Whatdo::simple("a", Some("s")).simple_format());
    assert!(Whatdo::simple("a", None).simple_format());
    assert!(!task("a", Some("s"), None, None).simple_format());
    let mut wd = Whatdo::simple("a", Some("s"));
    wd.priority = Some(1);
    assert!(!wd.simple_format());
    let mut wd = Whatdo::simple("a", Some("s"));
    wd.tags = Some(vec![]);
    assert!(!wd.simple_format());
    let mut wd = Whatdo::simple("a", Some("s"));
    wd.queue = Some(vec![]);
    assert!(!wd.simple_format());
    let mut wd = Whatdo::simple("a", Some("s"));
    wd.whatdos = Some(vec![]);
    assert!(!wd.simple_format());
    let mut wd = Whatdo::simple("a", Some("s"));
    wd.branch_name = Some(String::from("b"));
    assert!(!wd.simple_format());
}

#[test]
fn simple_sets_only_identifier_and_summary() {
    assert_eq!(
        Whatdo::simple("a", Some("s")),
        Whatdo {
            id: String::from("a"),
            summary: Some(String::from("s")),
            whatdos: None,
            queue: None,
            priority: None,
            tags: None,
            branch_name: None,
            simple_format: true,
        }
    );
}

#[test]
fn the_full_form_of_a_bare_task() {
    let wd = task("finish-whatdo", None, None, None);
    assert_eq!(wd.display(), "[finish-whatdo] Finish whatdo");
    assert_eq!(
        wd.display_spans(),
        vec![
            span(Style::Plain, "["),
            span(Style::Yellow, "finish-whatdo"),
            span(Style::Plain, "]"),
            span(Style::Plain, " Finish whatdo"),
        ]
    );
}

#[test]
fn the_full_form_with_priority_and_tags() {
    let wd = task("x", Some("Do it"), Some(2), Some(vec!["a"]));
    assert_eq!(wd.display(), "[x] [P2] [a] Do it");
    assert_eq!(
        wd.display_spans(),
        vec![
            span(Style::Plain, "["),
            span(Style::Yellow, "x"),
            span(Style::Plain, "]"),
            span(Style::Plain, " [P"),
            span(Style::Bold, "2"),
            span(Style::Plain, "]"),
            span(Style::Plain, " ["),
            span(Style::Plain, "a"),
            span(Style::Plain, "]"),
            span(Style::Plain, " Do it"),
        ]
    );
}

#[test]
fn a_comma_follows_each_tag_but_the_first() {
    let wd = task("x", Some("s"), None, Some(vec!["a", "b", "c"]));
    assert_eq!(wd.display(), "[x] [ab,c,] s");
    let wd = task("x", Some("s"), None, Some(vec![]));
    assert_eq!(wd.display(), "[x] [] s");
}

#[test]
fn priorities_are_written_in_decimal() {
    for p in [0i64, 7, 10, 42, 1000, -1, -10, 9007199254740993, i64::MAX, i64::MIN] {
        let wd = task("x", Some("s"), Some(p), None);
        assert_eq!(wd.display(), format!("[x] [P{}] s", p));
    }
}

#[test]
fn the_text_of_pieces_is_their_texts_in_a_row() {
    assert_eq!(text_of(&vec![]), "");
    assert_eq!(
        text_of(&vec![span(Style::Dimmed, ">>"), span(Style::Bold, "x"), span(Style::Plain, "")]),
        ">>x"
    );
}
