use whatdo::{valid_id, valid_tag, validate_id, validate_tag, Error, ErrorKind};

const SAMPLES: [&str; 24] = [
    "",
    "a",
    "Z",
    "0",
    "-",
    "_",
    "/",
    "read-back-whatdos",
    "feature/login_form-2",
    "UPPER",
    "with space",
    " lead",
    "trail ",
    "a\n",
    "\na",
    "tab\tbed",
    "dot.ted",
    "a+b",
    "caf\u{e9}",
    "\u{4e2d}",
    "a:b",
    "[a]",
    "a\\b",
    "9-_/",
];

#[test]
fn identifiers_are_letters_digits_dash_underscore_slash() {
    assert!(valid_id("a"));
    assert!(valid_id("A-b_c/1"));
    assert!(valid_id("feature/login_form-2"));
    assert!(!valid_id(""));
    assert!(!valid_id("a b"));
    assert!(!valid_id("a\n"));
    assert!(!valid_id("caf\u{e9}"));
    assert!(!valid_id("a.b"));
}

#[test]
fn tags_are_lower_case_letters_digits_dash_underscore() {
    assert!(valid_tag("a-tag"));
    assert!(valid_tag("todo_2"));
    assert!(!valid_tag(""));
    assert!(!valid_tag("Todo"));
    assert!(!valid_tag("a/b"));
    assert!(!valid_tag("a b"));
}

#[test]
fn validators_agree_with_the_patterns() {
    let id_re = regex::Regex::new("^[a-zA-Z0-9-_/]+$").unwrap();
    let tag_re = regex::Regex::new("^[a-z0-9-_]+$").unwrap();
    for sample in SAMPLES.iter() {
        assert_eq!(valid_id(sample), id_re.is_match(sample), "id {:?}", sample);
        assert_eq!(valid_tag(sample), tag_re.is_match(sample), "tag {:?}", sample);
    }
}

#[test]
fn validators_agree_with_the_patterns_on_every_short_ascii_string() {
    let id_re = regex::Regex::new("^[a-zA-Z0-9-_/]+$").unwrap();
    let tag_re = regex::Regex::new("^[a-z0-9-_]+$").unwrap();
    for first in 0u8..128 {
        let one = String::from(first as char);
        assert_eq!(valid_id(&one), id_re.is_match(&one));
        assert_eq!(valid_tag(&one), tag_re.is_match(&one));
        for second in [b'a', b'Z', b'5', b'-', b'_', b'/', b' ', b'\n', b'.'] {
            let mut two = one.clone();
            two.push(second as char);
            assert_eq!(valid_id(&two), id_re.is_match(&two));
            assert_eq!(valid_tag(&two), tag_re.is_match(&two));
        }
    }
}

#[test]
fn a_valid_identifier_is_handed_back() {
    assert_eq!(validate_id("ok/1"), Ok(String::from("ok/1")));
    assert_eq!(validate_tag("ok-1"), Ok(String::from("ok-1")));
}

#[test]
fn an_invalid_identifier_comes_back_in_the_error() {
    let error = validate_id("not ok").unwrap_err();
    assert_eq!(error, Error::InvalidId(String::from("not ok")));
    assert_eq!(error.kind(), ErrorKind::Validation);
    assert_eq!(error.message(), "ID must be of the form [a-zA-Z0-9-_/]+");
}

#[test]
fn an_invalid_tag_comes_back_in_the_error() {
    let error = validate_tag("Not-ok").unwrap_err();
    assert_eq!(error, Error::InvalidTag(String::from("Not-ok")));
    assert_eq!(error.kind(), ErrorKind::Validation);
    assert_eq!(error.message(), "Tag must be of the form [a-z0-9-_]+");
}

#[test]
fn every_error_has_its_message_and_kind() {
    let s = |t: &str| String::from(t);
    let cases: Vec<(Error, ErrorKind, &str)> = vec![
        (Error::Syntax(s("bad")), ErrorKind::Parse, "bad"),
        (
            Error::NotStringOrMapping,
            ErrorKind::Parse,
            "Whatdo data must be string or mapping",
        ),
        (Error::SummaryNotString, ErrorKind::Parse, "Expected 'summary' to be a string"),
        (Error::WhatdosNotMapping, ErrorKind::Parse, "Expected 'whatdos' to be a mapping"),
        (Error::QueueNotSequence, ErrorKind::Parse, "Expected 'queue' to be a sequence"),
        (
            Error::PriorityNotInteger,
            ErrorKind::Parse,
            "Expected 'priority' to be an integer",
        ),
        (Error::PriorityNotNumber, ErrorKind::Parse, "Expected 'priority' to be a number"),
        (Error::TagsNotSequence, ErrorKind::Parse, "Expected 'tags' to be a sequence"),
        (
            Error::BranchNameNotString,
            ErrorKind::Parse,
            "Expected 'branch_name' to be a string",
        ),
        (Error::KeyNotString, ErrorKind::Parse, "Expected mapping key to be a string"),
        (Error::ItemNotString, ErrorKind::Parse, "Expected sequence item to be a string"),
        (Error::InvalidWhatdoId(s("a b")), ErrorKind::Validation, "Invalid whatdo ID: a b"),
        (Error::InvalidTagItem(s("A")), ErrorKind::Validation, "Invalid tag: A"),
        (
            Error::DuplicateId(s("x")),
            ErrorKind::Uniqueness,
            "Whatdo with ID 'x' already exists",
        ),
        (
            Error::DuplicateBranchName(s("b")),
            ErrorKind::Uniqueness,
            "Whatdo with branch name 'b' already exists",
        ),
        (
            Error::BranchExists(s("b")),
            ErrorKind::Uniqueness,
            "Branch with name 'b' already exists",
        ),
        (Error::ParentNotFound, ErrorKind::Lookup, "Parent not found"),
        (Error::NoCurrentWhatdo, ErrorKind::State, "No current whatdo to add to"),
        (Error::NoActiveWhatdo, ErrorKind::State, "No active whatdo"),
        (
            Error::UnstagedChanges,
            ErrorKind::State,
            "You have unstaged changes. Commit or revert them before finishing whatdo",
        ),
        (
            Error::FileExists(s("/p/WHATDO.yaml")),
            ErrorKind::State,
            "Whatdo file already exists at /p/WHATDO.yaml",
        ),
    ];
    for (error, kind, message) in cases {
        assert_eq!(error.kind(), kind);
        assert_eq!(error.message(), message);
    }
}
