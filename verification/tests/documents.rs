use whatdo::{
    initial_whatdo_file, parse_document, parse_queue_sequence, parse_tags_sequence, parse_whatdo,
    parse_whatdo_map, serialize_whatdo, write_document, Error, ErrorKind, Whatdo, Yaml,
};

fn text(s: &str) -> Yaml {
    Yaml::String(String::from(s))
}

fn mapping(entries: Vec<(&str, Yaml)>) -> Yaml {
    Yaml::Mapping(entries.into_iter().map(|(k, v)| (text(k), v)).collect())
}

fn strings(list: Vec<&str>) -> Vec<String> {
    list.into_iter().map(String::from).collect()
}

fn bare(id: &str) -> Whatdo {
    Whatdo {
        id: String::from(id),
        summary: None,
        whatdos: None,
        queue: None,
        priority: None,
        tags: None,
        branch_name: None,
        simple_format: false,
    }
}

#[test]
fn a_string_is_a_task_in_the_one_line_form() {
    assert_eq!(parse_whatdo("a", &text("Do it")), Ok(Whatdo::simple("a", Some("Do it"))));
    assert_eq!(parse_whatdo("a", &text("")), Ok(Whatdo::simple("a", Some(""))));
}

#[test]
fn a_mapping_is_a_task_with_the_fields_present() {
    let doc = mapping(vec![
        ("tags", Yaml::Sequence(vec![text("x"), text("y-2")])),
        ("unknown", Yaml::Bool(true)),
        ("priority", Yaml::Integer(-3)),
        ("summary", text("S")),
        ("branch_name", text("br")),
        ("queue", Yaml::Sequence(vec![text("k/1")])),
        ("whatdos", mapping(vec![("k/1", text("child")), ("other", mapping(vec![]))])),
    ]);
    assert_eq!(
        parse_whatdo("top", &doc),
        Ok(Whatdo {
            id: String::from("top"),
            summary: Some(String::from("S")),
            whatdos: Some(vec![Whatdo::simple("k/1", Some("child")), bare("other")]),
            queue: Some(strings(vec!["k/1"])),
            priority: Some(-3),
            tags: Some(strings(vec!["x", "y-2"])),
            branch_name: Some(String::from("br")),
            simple_format: false,
        })
    );
    assert_eq!(parse_whatdo("top", &mapping(vec![])), Ok(bare("top")));
}

#[test]
fn the_first_of_two_equal_keys_counts() {
    let doc = Yaml::Mapping(vec![
        (Yaml::Integer(1), text("ignored")),
        (text("summary"), text("first")),
        (text("summary"), Yaml::Null),
    ]);
    assert_eq!(parse_whatdo("a", &doc).unwrap().summary, Some(String::from("first")));
}

#[test]
fn anything_else_is_no_task() {
    for doc in [
        Yaml::Null,
        Yaml::Bool(false),
        Yaml::Integer(1),
        Yaml::Number,
        Yaml::Tagged,
        Yaml::Sequence(vec![]),
    ] {
        assert_eq!(parse_whatdo("a", &doc), Err(Error::NotStringOrMapping));
    }
}

#[test]
fn each_field_must_be_of_its_kind() {
    let fault = |key: &str, value: Yaml| parse_whatdo("a", &mapping(vec![(key, value)])).unwrap_err();
    assert_eq!(fault("summary", Yaml::Integer(1)), Error::SummaryNotString);
    assert_eq!(fault("summary", Yaml::Null), Error::SummaryNotString);
    assert_eq!(fault("whatdos", text("x")), Error::WhatdosNotMapping);
    assert_eq!(fault("whatdos", Yaml::Sequence(vec![])), Error::WhatdosNotMapping);
    assert_eq!(fault("queue", text("x")), Error::QueueNotSequence);
    assert_eq!(fault("queue", mapping(vec![])), Error::QueueNotSequence);
    assert_eq!(fault("priority", Yaml::Number), Error::PriorityNotInteger);
    assert_eq!(fault("priority", text("1")), Error::PriorityNotNumber);
    assert_eq!(fault("priority", Yaml::Bool(true)), Error::PriorityNotNumber);
    assert_eq!(fault("tags", text("x")), Error::TagsNotSequence);
    assert_eq!(fault("branch_name", Yaml::Sequence(vec![])), Error::BranchNameNotString);
    assert_eq!(fault("branch_name", Yaml::Integer(7)), Error::BranchNameNotString);
}

#[test]
fn the_kinds_are_looked_at_before_the_contents() {
    let doc = mapping(vec![
        ("branch_name", Yaml::Null),
        ("tags", Yaml::Sequence(vec![text("BAD")])),
        ("queue", Yaml::Sequence(vec![Yaml::Null])),
        ("whatdos", mapping(vec![("bad id", text("x"))])),
    ]);
    assert_eq!(parse_whatdo("a", &doc), Err(Error::BranchNameNotString));
    let doc = mapping(vec![
        ("tags", Yaml::Sequence(vec![text("BAD")])),
        ("queue", Yaml::Sequence(vec![Yaml::Null])),
        ("whatdos", mapping(vec![("bad id", text("x"))])),
    ]);
    assert_eq!(parse_whatdo("a", &doc), Err(Error::InvalidWhatdoId(String::from("bad id"))));
    let doc = mapping(vec![
        ("tags", Yaml::Sequence(vec![text("BAD")])),
        ("queue", Yaml::Sequence(vec![Yaml::Null])),
    ]);
    assert_eq!(parse_whatdo("a", &doc), Err(Error::ItemNotString));
    let doc = mapping(vec![("tags", Yaml::Sequence(vec![text("BAD")]))]);
    assert_eq!(parse_whatdo("a", &doc), Err(Error::InvalidTagItem(String::from("BAD"))));
    let doc = mapping(vec![
        ("priority", text("high")),
        ("summary", Yaml::Null),
        ("queue", Yaml::Null),
    ]);
    assert_eq!(parse_whatdo("a", &doc), Err(Error::SummaryNotString));
}

#[test]
fn children_are_named_by_identifiers() {
    assert_eq!(
        parse_whatdo_map(&vec![(text("a"), text("A")), (text("b"), mapping(vec![]))]),
        Ok(vec![Whatdo::simple("a", Some("A")), bare("b")])
    );
    assert_eq!(parse_whatdo_map(&vec![]), Ok(vec![]));
    assert_eq!(
        parse_whatdo_map(&vec![(text("a"), text("A")), (Yaml::Integer(1), text("B"))]),
        Err(Error::KeyNotString)
    );
    assert_eq!(
        parse_whatdo_map(&vec![(text("a b"), Yaml::Null), (Yaml::Integer(1), text("B"))]),
        Err(Error::InvalidWhatdoId(String::from("a b")))
    );
    assert_eq!(
        parse_whatdo_map(&vec![(text("a"), Yaml::Null), (text("not valid"), text("B"))]),
        Err(Error::NotStringOrMapping)
    );
    assert_eq!(
        parse_whatdo_map(&vec![(
            text("a"),
            mapping(vec![("whatdos", mapping(vec![("deep", mapping(vec![("tags", Yaml::Null)]))]))])
        )]),
        Err(Error::TagsNotSequence)
    );
}

#[test]
fn queue_entries_are_identifiers_and_tags_are_tags() {
    assert_eq!(
        parse_queue_sequence(&vec![text("a"), text("B/c")]),
        Ok(strings(vec!["a", "B/c"]))
    );
    assert_eq!(parse_queue_sequence(&vec![]), Ok(vec![]));
    assert_eq!(
        parse_queue_sequence(&vec![text("a"), text("b c"), Yaml::Null]),
        Err(Error::InvalidWhatdoId(String::from("b c")))
    );
    assert_eq!(
        parse_queue_sequence(&vec![text("a"), Yaml::Integer(1), text("b c")]),
        Err(Error::ItemNotString)
    );
    assert_eq!(parse_tags_sequence(&vec![text("a"), text("b-c")]), Ok(strings(vec!["a", "b-c"])));
    assert_eq!(
        parse_tags_sequence(&vec![text("a"), text("B")]),
        Err(Error::InvalidTagItem(String::from("B")))
    );
    assert_eq!(parse_tags_sequence(&vec![Yaml::Bool(true)]), Err(Error::ItemNotString));
}

#[test]
fn the_one_line_form_is_written_only_for_a_marked_task_with_just_a_summary() {
    assert_eq!(
        serialize_whatdo(&Whatdo::simple("a", Some("S"))),
        (text("a"), text("S"))
    );
    assert_eq!(serialize_whatdo(&Whatdo::simple("a", None)), (text("a"), mapping(vec![])));
    let mut unmarked = Whatdo::simple("a", Some("S"));
    unmarked.simple_format = false;
    assert_eq!(serialize_whatdo(&unmarked), (text("a"), mapping(vec![("summary", text("S"))])));
    let mut with_branch = Whatdo::simple("a", Some("S"));
    with_branch.branch_name = Some(String::from("br"));
    assert_eq!(
        serialize_whatdo(&with_branch),
        (text("a"), mapping(vec![("summary", text("S")), ("branch_name", text("br"))]))
    );
    let mut with_priority = Whatdo::simple("a", Some("S"));
    with_priority.priority = Some(0);
    assert_eq!(
        serialize_whatdo(&with_priority),
        (text("a"), mapping(vec![("summary", text("S")), ("priority", Yaml::Integer(0))]))
    );
}

#[test]
fn the_fields_are_written_in_a_fixed_order() {
    let wd = Whatdo {
        id: String::from("top"),
        summary: Some(String::from("S")),
        whatdos: Some(vec![Whatdo::simple("k", Some("child")), bare("other")]),
        queue: Some(strings(vec!["k"])),
        priority: Some(i64::MIN),
        tags: Some(vec![]),
        branch_name: Some(String::from("br")),
        simple_format: true,
    };
    assert_eq!(
        serialize_whatdo(&wd),
        (
            text("top"),
            mapping(vec![
                ("summary", text("S")),
                ("priority", Yaml::Integer(i64::MIN)),
                ("branch_name", text("br")),
                ("tags", Yaml::Sequence(vec![])),
                ("queue", Yaml::Sequence(vec![text("k")])),
                ("whatdos", mapping(vec![("k", text("child")), ("other", mapping(vec![]))])),
            ])
        )
    );
}

#[test]
fn of_two_children_of_one_name_the_later_value_is_written() {
    let wd = Whatdo {
        whatdos: Some(vec![
            Whatdo::simple("x", Some("first")),
            Whatdo::simple("y", Some("middle")),
            Whatdo::simple("x", Some("second")),
        ]),
        ..bare("top")
    };
    assert_eq!(
        serialize_whatdo(&wd).1,
        mapping(vec![("whatdos", mapping(vec![("x", text("second")), ("y", text("middle"))]))])
    );
}

#[test]
fn what_was_read_is_read_again_after_writing() {
    let doc = mapping(vec![
        ("extra", Yaml::Null),
        ("queue", Yaml::Sequence(vec![text("late"), text("gone")])),
        ("summary", text("Top")),
        (
            "whatdos",
            mapping(vec![
                ("early", text("E")),
                (
                    "late",
                    mapping(vec![
                        ("priority", Yaml::Integer(4)),
                        ("tags", Yaml::Sequence(vec![text("t")])),
                        ("whatdos", mapping(vec![("leaf", mapping(vec![("summary", text("L"))]))])),
                    ]),
                ),
                ("named", mapping(vec![("branch_name", text("br"))])),
            ]),
        ),
    ]);
    let first = parse_whatdo("top", &doc).unwrap();
    let written = serialize_whatdo(&first);
    assert_eq!(written.0, text("top"));
    assert_eq!(parse_whatdo("top", &written.1), Ok(first));
}

#[test]
fn a_document_is_read_from_its_text() {
    let parsed = parse_document("proj", "summary: Hello\nwhatdos:\n  a: A\n  b:\n    priority: 2\n").unwrap();
    assert_eq!(
        parsed,
        Whatdo {
            summary: Some(String::from("Hello")),
            whatdos: Some(vec![
                Whatdo::simple("a", Some("A")),
                Whatdo { priority: Some(2), ..bare("b") },
            ]),
            ..bare("proj")
        }
    );
    assert_eq!(parse_document("proj", "Just a summary"), Ok(Whatdo::simple("proj", Some("Just a summary"))));
}

#[test]
fn the_kinds_of_yaml_values_are_told_apart() {
    let fault = |body: &str| parse_document("p", body).unwrap_err();
    assert_eq!(fault("priority: 1.5\n"), Error::PriorityNotInteger);
    assert_eq!(fault("priority: 18446744073709551615\n"), Error::PriorityNotInteger);
    assert_eq!(fault("priority: high\n"), Error::PriorityNotNumber);
    assert_eq!(fault("priority: true\n"), Error::PriorityNotNumber);
    assert_eq!(fault("priority: ~\n"), Error::PriorityNotNumber);
    assert_eq!(fault("summary: 12\n"), Error::SummaryNotString);
    assert_eq!(fault("summary: !tagged text\n"), Error::SummaryNotString);
    assert_eq!(fault("whatdos: [a, b]\n"), Error::WhatdosNotMapping);
    assert_eq!(fault("whatdos:\n  1: one\n"), Error::KeyNotString);
    assert_eq!(fault("queue: {a: b}\n"), Error::QueueNotSequence);
    assert_eq!(fault("tags: [1]\n"), Error::ItemNotString);
    assert_eq!(fault("~\n"), Error::NotStringOrMapping);
    assert_eq!(fault("- a\n- b\n"), Error::NotStringOrMapping);
    assert_eq!(fault("42\n"), Error::NotStringOrMapping);
    assert_eq!(
        parse_document("p", "priority: -9223372036854775808\n").unwrap().priority,
        Some(i64::MIN)
    );
    assert_eq!(
        parse_document("p", "priority: 9223372036854775807\n").unwrap().priority,
        Some(i64::MAX)
    );
}

#[test]
fn text_that_is_no_yaml_is_a_syntax_error() {
    for body in ["a: [unclosed", "a: b: c: d", "summary: x\nsummary: y\n", "{"] {
        match parse_document("p", body) {
            Err(Error::Syntax(message)) => {
                assert!(!message.is_empty());
                assert_eq!(Error::Syntax(message).kind(), ErrorKind::Parse);
            }
            other => panic!("{:?} gave {:?}", body, other),
        }
    }
}

#[test]
fn a_document_is_written_as_yaml() {
    let wd = Whatdo {
        summary: Some(String::from("Top")),
        whatdos: Some(vec![
            Whatdo::simple("a", Some("A")),
            Whatdo { priority: Some(2), tags: Some(strings(vec!["t"])), ..bare("b") },
        ]),
        queue: Some(strings(vec!["b"])),
        ..bare("proj")
    };
    assert_eq!(
        write_document(&wd).unwrap(),
        "summary: Top\nqueue:\n- b\nwhatdos:\n  a: A\n  b:\n    priority: 2\n    tags:\n    - t\n"
    );
    assert_eq!(write_document(&Whatdo::simple("p", Some("Only this"))).unwrap(), "Only this\n");
}

#[test]
fn a_written_document_is_read_back() {
    let mut sample = initial_whatdo_file();
    sample.id = String::from("proj");
    let written = write_document(&sample).unwrap();
    assert_eq!(parse_document("proj", &written), Ok(sample));

    let tricky = Whatdo {
        summary: Some(String::from("colon: and # hash\nsecond line\n")),
        whatdos: Some(vec![
            Whatdo::simple("yes", Some("true")),
            Whatdo::simple("n-1", Some("123")),
            Whatdo::simple("n-2", Some("")),
            Whatdo::simple("n-3", Some(" padded ")),
            Whatdo { branch_name: Some(String::from("~")), priority: Some(-7), ..bare("n-4") },
        ]),
        tags: Some(strings(vec!["null", "1"])),
        ..bare("proj")
    };
    let written = write_document(&tricky).unwrap();
    assert_eq!(parse_document("proj", &written), Ok(tricky));
}
