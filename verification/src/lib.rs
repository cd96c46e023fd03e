pub mod ancestors;
pub mod commands;
pub mod delete;
pub mod document;
pub mod document_laws;
pub mod error;
pub mod index;
pub mod insert;
pub mod invariants;
pub mod model;
pub mod next;
pub mod order;
pub mod render;
pub mod render_laws;
pub mod sample;
pub mod sort;
pub mod text;
pub mod validate;
pub mod visited;
pub mod yaml;

pub use ancestors::find_ancestor_with_branch;
pub use commands::{add, delete, finish, get, init, new_whatdo, resolve, start, Action};
pub use delete::delete_whatdo;
pub use document::{
    parse_document, parse_queue_sequence, parse_tags_sequence, parse_whatdo, parse_whatdo_map,
    serialize_whatdo, write_document,
};
pub use error::{Error, ErrorKind};
pub use index::{find_parent, find_whatdo, find_whatdo_and_parent};
pub use insert::insert_under;
pub use model::{deslugify, Whatdo};
pub use next::{current, matches_filter, next, NextAmount};
pub use order::work_order;
pub use render::{text_of, Span, Style, WhatdoTreeView};
pub use sample::initial_whatdo_file;
pub use sort::{sort_whatdos, unresolved_queue_entries};
pub use validate::{valid_id, valid_tag, validate_id, validate_tag};
pub use visited::Visited;
pub use yaml::Yaml;
