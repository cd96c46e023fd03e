use whatdo::{
    delete_whatdo, parse_document, serialize_whatdo, sort_whatdos, Visited, Whatdo, Yaml,
};

const WHATDO_YAML: &str = "\
summary: A streamlined git-based tool for task tracking of a project
branch_name: overridden-name
queue:
  - read-back-whatdos
  - delete-whatdo
whatdos:
  basic-functionality:
    summary: |
      Implement the absolute minimum stuff for the tool to get it to be useful
      for tracking the progress of this tool
    priority: 0
    whatdos:
      read-back-whatdos: Ability to invoke `wd` to list the current whatdos
      finish-whatdo:
        summary: Ability to invoke `wd finish` to finish the current whatdo
        tags:
          - a-tag
        whatdos:
          delete-whatdo: Delete the whatdo
";

const SORT_TEST_YAML: &str = "\
summary: A tree to sort
queue:
  - read-back-whatdos
  - delete-whatdo
whatdos:
  basic-functionality:
    priority: 0
    whatdos:
      read-back-whatdos: Ability to invoke `wd` to list the current whatdos
      finish-whatdo:
        summary: Ability to invoke `wd finish` to finish the current whatdo
        whatdos:
          delete-whatdo:
            summary: Delete the whatdo
            tags:
              - todo
  save-the-world:
    priority: 2
    whatdos:
      less-fossil-fuels: Burn less
      more-green-energy:
        summary: Build more
        tags:
          - todo
  mind-reading:
    priority: 1
    whatdos:
      read-users-mind: Know what the user wants
";

fn test_data_whatdo() -> Whatdo {
    Whatdo {
        id: String::from("test_data"),
        summary: Some(String::from(
            "A streamlined git-based tool for task tracking of a project",
        )),
        whatdos: Some(vec![Whatdo {
            id: String::from("basic-functionality"),
            summary: Some(String::from(
                "Implement the absolute minimum stuff for the tool to get it to be useful
for tracking the progress of this tool\n",
            )),
            whatdos: Some(vec![
                Whatdo::simple(
                    "read-back-whatdos",
                    Some("Ability to invoke `wd` to list the current whatdos"),
                ),
                Whatdo {
                    id: String::from("finish-whatdo"),
                    summary: Some(String::from(
                        "Ability to invoke `wd finish` to finish the current whatdo",
                    )),
                    whatdos: Some(vec![Whatdo::simple(
                        "delete-whatdo",
                        Some("Delete the whatdo"),
                    )]),
                    simple_format: false,
                    queue: None,
                    priority: None,
                    branch_name: None,
                    tags: Some(vec!["a-tag".to_owned()]),
                },
            ]),
            queue: None,
            priority: Some(0),
            tags: None,
            branch_name: None,
            simple_format: false,
        }]),
        simple_format: false,
        queue: Some(vec![
            String::from("read-back-whatdos"),
            String::from("delete-whatdo"),
        ]),
        priority: None,
        tags: None,
        branch_name: Some(String::from("overridden-name")),
    }
}

fn text(s: &str) -> Yaml {
    Yaml::String(String::from(s))
}

#[test]
fn test_parse_file() {
    let parsed = parse_document("test_data", WHATDO_YAML);
    assert_eq!(parsed.unwrap(), test_data_whatdo());
}

#[test]
fn test_delete_whatdo() {
    let deleted = delete_whatdo(&test_data_whatdo(), "delete-whatdo");
    assert_eq!(
        deleted,
        Whatdo {
            id: String::from("test_data"),
            summary: Some(String::from(
                "A streamlined git-based tool for task tracking of a project",
            )),
            whatdos: Some(vec![Whatdo {
                id: String::from("basic-functionality"),
                summary: Some(String::from(
                    "Implement the absolute minimum stuff for the tool to get it to be useful\nfor tracking the progress of this tool\n",
                )),
                whatdos: Some(vec![
                    Whatdo::simple(
                        "read-back-whatdos",
                        Some("Ability to invoke `wd` to list the current whatdos"),
                    ),
                    Whatdo {
                        id: String::from("finish-whatdo"),
                        summary: Some(String::from(
                            "Ability to invoke `wd finish` to finish the current whatdo",
                        )),
                        whatdos: Some(vec![]),
                        simple_format: false,
                        queue: None,
                        priority: None,
                        branch_name: None,
                        tags: Some(vec!["a-tag".to_owned()]),
                    },
                ]),
                queue: None,
                priority: Some(0),
                tags: None,
                branch_name: None,
                simple_format: false,
            }]),
            simple_format: false,
            queue: Some(vec![String::from("read-back-whatdos")]),
            priority: None,
            tags: None,
            branch_name: Some(String::from("overridden-name")),
        }
    );
    let deleted_again = delete_whatdo(&deleted, "read-back-whatdos");
    assert_eq!(
        deleted_again,
        Whatdo {
            id: String::from("test_data"),
            summary: Some(String::from(
                "A streamlined git-based tool for task tracking of a project",
            )),
            whatdos: Some(vec![Whatdo {
                id: String::from("basic-functionality"),
                summary: Some(String::from(
                    "Implement the absolute minimum stuff for the tool to get it to be useful\nfor tracking the progress of this tool\n",
                )),
                whatdos: Some(vec![Whatdo {
                    id: String::from("finish-whatdo"),
                    summary: Some(String::from(
                        "Ability to invoke `wd finish` to finish the current whatdo",
                    )),
                    whatdos: Some(vec![]),
                    simple_format: false,
                    queue: None,
                    priority: None,
                    branch_name: None,
                    tags: Some(vec!["a-tag".to_owned()]),
                },]),
                queue: None,
                priority: Some(0),
                tags: None,
                branch_name: None,
                simple_format: false,
            }]),
            simple_format: false,
            queue: Some(vec![]),
            priority: None,
            tags: None,
            branch_name: Some(String::from("overridden-name")),
        }
    );
}

#[test]
fn test_serialize() {
    let serialized = serialize_whatdo(&test_data_whatdo());
    let expected = Yaml::Mapping(vec![
        (
            text("summary"),
            text("A streamlined git-based tool for task tracking of a project"),
        ),
        (text("branch_name"), text("overridden-name")),
        (
            text("queue"),
            Yaml::Sequence(vec![text("read-back-whatdos"), text("delete-whatdo")]),
        ),
        (
            text("whatdos"),
            Yaml::Mapping(vec![(
                text("basic-functionality"),
                Yaml::Mapping(vec![
                    (
                        text("summary"),
                        text("Implement the absolute minimum stuff for the tool to get it to be useful\nfor tracking the progress of this tool\n"),
                    ),
                    (text("priority"), Yaml::Integer(0)),
                    (
                        text("whatdos"),
                        Yaml::Mapping(vec![
                            (
                                text("read-back-whatdos"),
                                text("Ability to invoke `wd` to list the current whatdos"),
                            ),
                            (
                                text("finish-whatdo"),
                                Yaml::Mapping(vec![
                                    (
                                        text("summary"),
                                        text("Ability to invoke `wd finish` to finish the current whatdo"),
                                    ),
                                    (text("tags"), Yaml::Sequence(vec![text("a-tag")])),
                                    (
                                        text("whatdos"),
                                        Yaml::Mapping(vec![(
                                            text("delete-whatdo"),
                                            text("Delete the whatdo"),
                                        )]),
                                    ),
                                ]),
                            ),
                        ]),
                    ),
                ]),
            )]),
        ),
    ]);
    assert_eq!(serialized.0, text("test_data"));
    assert_eq!(serialized.1, expected);
}

#[test]
fn test_sort_whatdos() {
    let whatdo = parse_document("sort_test", SORT_TEST_YAML).unwrap();
    let sorted = sort_whatdos(&whatdo, &|_| true, &mut Visited::new(), false);
    assert_eq!(
        sorted.iter().map(|wd| &wd.id).collect::<Vec<_>>(),
        vec![
            "read-back-whatdos",
            "delete-whatdo",
            "read-users-mind",
            "less-fossil-fuels",
            "more-green-energy",
        ]
    );

    let sorted_tags = sort_whatdos(
        &whatdo,
        &|wd| {
            wd.tags
                .as_ref()
                .map(|tags| tags.iter().find(|t| t.as_str() == "todo"))
                .is_some()
        },
        &mut Visited::new(),
        false,
    );
    assert_eq!(
        sorted_tags.iter().map(|wd| &wd.id).collect::<Vec<_>>(),
        vec!["delete-whatdo", "more-green-energy",]
    )
}
