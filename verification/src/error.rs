use crate::text::{framed, joined};
use vstd::prelude::*;
use vstd::string::StringExecFns;

verus! {

/// The classes into which the failures of the task tracker fall.
#[derive(Clone, Copy, Debug, PartialEq, Eq, Structural)]
pub enum ErrorKind {
    /// The document is malformed.
    Parse,
    /// An identifier or a tag does not match its pattern.
    Validation,
    /// An identifier or a branch name is already taken.
    Uniqueness,
    /// A task that an operation names is not in the tree.
    Lookup,
    /// The operation does not apply in the present state.
    State,
}

/// Everything that can go wrong inside the library.
#[derive(Debug, PartialEq, Eq)]
pub enum Error {
    /// The text is no YAML document; the payload is the reader's complaint.
    Syntax(String),
    /// A task is neither a string nor a mapping.
    NotStringOrMapping,
    SummaryNotString,
    WhatdosNotMapping,
    QueueNotSequence,
    /// `priority` is a number, but no 64-bit integer.
    PriorityNotInteger,
    PriorityNotNumber,
    TagsNotSequence,
    BranchNameNotString,
    /// A key of a `whatdos` mapping is no string.
    KeyNotString,
    /// An entry of `queue` or `tags` is no string.
    ItemNotString,
    /// A key of a `whatdos` mapping, or an entry of `queue`, is no identifier.
    InvalidWhatdoId(String),
    /// An entry of `tags` is no tag.
    InvalidTagItem(String),
    /// The identifier of a new task does not match the pattern.
    InvalidId(String),
    /// A tag of a new task does not match the pattern.
    InvalidTag(String),
    DuplicateId(String),
    DuplicateBranchName(String),
    /// The repository already has a branch of that name.
    BranchExists(String),
    ParentNotFound,
    /// `@` was given as the parent, and no task is active.
    NoCurrentWhatdo,
    NoActiveWhatdo,
    UnstagedChanges,
    /// The document already exists at the given path.
    FileExists(String),
}

/// The mathematical value of an [`Error`].
pub enum ErrorView {
    Syntax(Seq<char>),
    NotStringOrMapping,
    SummaryNotString,
    WhatdosNotMapping,
    QueueNotSequence,
    PriorityNotInteger,
    PriorityNotNumber,
    TagsNotSequence,
    BranchNameNotString,
    KeyNotString,
    ItemNotString,
    InvalidWhatdoId(Seq<char>),
    InvalidTagItem(Seq<char>),
    InvalidId(Seq<char>),
    InvalidTag(Seq<char>),
    DuplicateId(Seq<char>),
    DuplicateBranchName(Seq<char>),
    BranchExists(Seq<char>),
    ParentNotFound,
    NoCurrentWhatdo,
    NoActiveWhatdo,
    UnstagedChanges,
    FileExists(Seq<char>),
}

impl View for Error {
    type V = ErrorView;

    open spec fn view(&self) -> ErrorView {
        match *self {
            Error::Syntax(s) => ErrorView::Syntax(s@),
            Error::NotStringOrMapping => ErrorView::NotStringOrMapping,
            Error::SummaryNotString => ErrorView::SummaryNotString,
            Error::WhatdosNotMapping => ErrorView::WhatdosNotMapping,
            Error::QueueNotSequence => ErrorView::QueueNotSequence,
            Error::PriorityNotInteger => ErrorView::PriorityNotInteger,
            Error::PriorityNotNumber => ErrorView::PriorityNotNumber,
            Error::TagsNotSequence => ErrorView::TagsNotSequence,
            Error::BranchNameNotString => ErrorView::BranchNameNotString,
            Error::KeyNotString => ErrorView::KeyNotString,
            Error::ItemNotString => ErrorView::ItemNotString,
            Error::InvalidWhatdoId(s) => ErrorView::InvalidWhatdoId(s@),
            Error::InvalidTagItem(s) => ErrorView::InvalidTagItem(s@),
            Error::InvalidId(s) => ErrorView::InvalidId(s@),
            Error::InvalidTag(s) => ErrorView::InvalidTag(s@),
            Error::DuplicateId(s) => ErrorView::DuplicateId(s@),
            Error::DuplicateBranchName(s) => ErrorView::DuplicateBranchName(s@),
            Error::BranchExists(s) => ErrorView::BranchExists(s@),
            Error::ParentNotFound => ErrorView::ParentNotFound,
            Error::NoCurrentWhatdo => ErrorView::NoCurrentWhatdo,
            Error::NoActiveWhatdo => ErrorView::NoActiveWhatdo,
            Error::UnstagedChanges => ErrorView::UnstagedChanges,
            Error::FileExists(s) => ErrorView::FileExists(s@),
        }
    }
}

impl ErrorView {
    /// The class of the failure.
    pub open spec fn kind(self) -> ErrorKind {
        match self {
            ErrorView::Syntax(_) => ErrorKind::Parse,
            ErrorView::NotStringOrMapping => ErrorKind::Parse,
            ErrorView::SummaryNotString => ErrorKind::Parse,
            ErrorView::WhatdosNotMapping => ErrorKind::Parse,
            ErrorView::QueueNotSequence => ErrorKind::Parse,
            ErrorView::PriorityNotInteger => ErrorKind::Parse,
            ErrorView::PriorityNotNumber => ErrorKind::Parse,
            ErrorView::TagsNotSequence => ErrorKind::Parse,
            ErrorView::BranchNameNotString => ErrorKind::Parse,
            ErrorView::KeyNotString => ErrorKind::Parse,
            ErrorView::ItemNotString => ErrorKind::Parse,
            ErrorView::InvalidWhatdoId(_) => ErrorKind::Validation,
            ErrorView::InvalidTagItem(_) => ErrorKind::Validation,
            ErrorView::InvalidId(_) => ErrorKind::Validation,
            ErrorView::InvalidTag(_) => ErrorKind::Validation,
            ErrorView::DuplicateId(_) => ErrorKind::Uniqueness,
            ErrorView::DuplicateBranchName(_) => ErrorKind::Uniqueness,
            ErrorView::BranchExists(_) => ErrorKind::Uniqueness,
            ErrorView::ParentNotFound => ErrorKind::Lookup,
            ErrorView::NoCurrentWhatdo => ErrorKind::State,
            ErrorView::NoActiveWhatdo => ErrorKind::State,
            ErrorView::UnstagedChanges => ErrorKind::State,
            ErrorView::FileExists(_) => ErrorKind::State,
        }
    }

    /// The sentence shown to the user.
    pub open spec fn message(self) -> Seq<char> {
        match self {
            ErrorView::Syntax(s) => s,
            ErrorView::NotStringOrMapping => "Whatdo data must be string or mapping"@,
            ErrorView::SummaryNotString => "Expected 'summary' to be a string"@,
            ErrorView::WhatdosNotMapping => "Expected 'whatdos' to be a mapping"@,
            ErrorView::QueueNotSequence => "Expected 'queue' to be a sequence"@,
            ErrorView::PriorityNotInteger => "Expected 'priority' to be an integer"@,
            ErrorView::PriorityNotNumber => "Expected 'priority' to be a number"@,
            ErrorView::TagsNotSequence => "Expected 'tags' to be a sequence"@,
            ErrorView::BranchNameNotString => "Expected 'branch_name' to be a string"@,
            ErrorView::KeyNotString => "Expected mapping key to be a string"@,
            ErrorView::ItemNotString => "Expected sequence item to be a string"@,
            ErrorView::InvalidWhatdoId(s) => "Invalid whatdo ID: "@ + s,
            ErrorView::InvalidTagItem(s) => "Invalid tag: "@ + s,
            ErrorView::InvalidId(_) => "ID must be of the form [a-zA-Z0-9-_/]+"@,
            ErrorView::InvalidTag(_) => "Tag must be of the form [a-z0-9-_]+"@,
            ErrorView::DuplicateId(s) => "Whatdo with ID '"@ + s + "' already exists"@,
            ErrorView::DuplicateBranchName(s) => "Whatdo with branch name '"@ + s
                + "' already exists"@,
            ErrorView::BranchExists(s) => "Branch with name '"@ + s + "' already exists"@,
            ErrorView::ParentNotFound => "Parent not found"@,
            ErrorView::NoCurrentWhatdo => "No current whatdo to add to"@,
            ErrorView::NoActiveWhatdo => "No active whatdo"@,
            ErrorView::UnstagedChanges =>
                "You have unstaged changes. Commit or revert them before finishing whatdo"@,
            ErrorView::FileExists(s) => "Whatdo file already exists at "@ + s,
        }
    }
}

impl Error {
    /// The class of the failure.
    pub fn kind(&self) -> (k: ErrorKind)
        ensures
            k == self@.kind(),
    {
        match self {
            Error::Syntax(_) => ErrorKind::Parse,
            Error::NotStringOrMapping => ErrorKind::Parse,
            Error::SummaryNotString => ErrorKind::Parse,
            Error::WhatdosNotMapping => ErrorKind::Parse,
            Error::QueueNotSequence => ErrorKind::Parse,
            Error::PriorityNotInteger => ErrorKind::Parse,
            Error::PriorityNotNumber => ErrorKind::Parse,
            Error::TagsNotSequence => ErrorKind::Parse,
            Error::BranchNameNotString => ErrorKind::Parse,
            Error::KeyNotString => ErrorKind::Parse,
            Error::ItemNotString => ErrorKind::Parse,
            Error::InvalidWhatdoId(_) => ErrorKind::Validation,
            Error::InvalidTagItem(_) => ErrorKind::Validation,
            Error::InvalidId(_) => ErrorKind::Validation,
            Error::InvalidTag(_) => ErrorKind::Validation,
            Error::DuplicateId(_) => ErrorKind::Uniqueness,
            Error::DuplicateBranchName(_) => ErrorKind::Uniqueness,
            Error::BranchExists(_) => ErrorKind::Uniqueness,
            Error::ParentNotFound => ErrorKind::Lookup,
            Error::NoCurrentWhatdo => ErrorKind::State,
            Error::NoActiveWhatdo => ErrorKind::State,
            Error::UnstagedChanges => ErrorKind::State,
            Error::FileExists(_) => ErrorKind::State,
        }
    }

    /// The sentence shown to the user.
    pub fn message(&self) -> (r: String)
        ensures
            r@ == self@.message(),
    {
        match self {
            Error::Syntax(s) => s.clone(),
            Error::NotStringOrMapping => String::from_str("Whatdo data must be string or mapping"),
            Error::SummaryNotString => String::from_str("Expected 'summary' to be a string"),
            Error::WhatdosNotMapping => String::from_str("Expected 'whatdos' to be a mapping"),
            Error::QueueNotSequence => String::from_str("Expected 'queue' to be a sequence"),
            Error::PriorityNotInteger => String::from_str("Expected 'priority' to be an integer"),
            Error::PriorityNotNumber => String::from_str("Expected 'priority' to be a number"),
            Error::TagsNotSequence => String::from_str("Expected 'tags' to be a sequence"),
            Error::BranchNameNotString => String::from_str(
                "Expected 'branch_name' to be a string",
            ),
            Error::KeyNotString => String::from_str("Expected mapping key to be a string"),
            Error::ItemNotString => String::from_str("Expected sequence item to be a string"),
            Error::InvalidWhatdoId(s) => joined("Invalid whatdo ID: ", s.as_str()),
            Error::InvalidTagItem(s) => joined("Invalid tag: ", s.as_str()),
            Error::InvalidId(_) => String::from_str("ID must be of the form [a-zA-Z0-9-_/]+"),
            Error::InvalidTag(_) => String::from_str("Tag must be of the form [a-z0-9-_]+"),
            Error::DuplicateId(s) => framed("Whatdo with ID '", s.as_str(), "' already exists"),
            Error::DuplicateBranchName(s) => framed(
                "Whatdo with branch name '",
                s.as_str(),
                "' already exists",
            ),
            Error::BranchExists(s) => framed(
                "Branch with name '",
                s.as_str(),
                "' already exists",
            ),
            Error::ParentNotFound => String::from_str("Parent not found"),
            Error::NoCurrentWhatdo => String::from_str("No current whatdo to add to"),
            Error::NoActiveWhatdo => String::from_str("No active whatdo"),
            Error::UnstagedChanges => String::from_str(
                "You have unstaged changes. Commit or revert them before finishing whatdo",
            ),
            Error::FileExists(s) => joined("Whatdo file already exists at ", s.as_str()),
        }
    }
}

} // verus!
