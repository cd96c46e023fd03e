use crate::error::{Error, ErrorView};
use crate::text::chars_of;
use vstd::prelude::*;

verus! {

/// A character that may stand in a tag: a lower-case letter, a digit, `-` or `_`.
pub open spec fn is_tag_char(c: char) -> bool {
    ||| 'a' <= c <= 'z'
    ||| '0' <= c <= '9'
    ||| c == '-'
    ||| c == '_'
}

/// A character that may stand in an identifier: a letter, a digit, `-`, `_` or `/`.
pub open spec fn is_id_char(c: char) -> bool {
    ||| 'a' <= c <= 'z'
    ||| 'A' <= c <= 'Z'
    ||| '0' <= c <= '9'
    ||| c == '-'
    ||| c == '_'
    ||| c == '/'
}

/// A tag is one or more tag characters.
pub open spec fn is_tag(s: Seq<char>) -> bool {
    s.len() > 0 && forall|i: int| 0 <= i < s.len() ==> is_tag_char(#[trigger] s[i])
}

/// An identifier is one or more identifier characters.
pub open spec fn is_id(s: Seq<char>) -> bool {
    s.len() > 0 && forall|i: int| 0 <= i < s.len() ==> is_id_char(#[trigger] s[i])
}

fn tag_char(c: char) -> (b: bool)
    ensures
        b == is_tag_char(c),
{
    ('a' <= c && c <= 'z') || ('0' <= c && c <= '9') || c == '-' || c == '_'
}

fn id_char(c: char) -> (b: bool)
    ensures
        b == is_id_char(c),
{
    ('a' <= c && c <= 'z') || ('A' <= c && c <= 'Z') || ('0' <= c && c <= '9') || c == '-' || c
        == '_' || c == '/'
}

/// Whether `tag` is a tag.
pub fn valid_tag(tag: &str) -> (b: bool)
    ensures
        b == is_tag(tag@),
{
    let chars = chars_of(tag);
    if chars.len() == 0 {
        return false;
    }
    let mut i: usize = 0;
    while i < chars.len()
        invariant
            i <= chars.len(),
            chars@ == tag@,
            forall|j: int| 0 <= j < i ==> is_tag_char(#[trigger] tag@[j]),
        decreases chars.len() - i,
    {
        if !tag_char(chars[i]) {
            return false;
        }
        i += 1;
    }
    true
}

/// Whether `id` is an identifier.
pub fn valid_id(id: &str) -> (b: bool)
    ensures
        b == is_id(id@),
{
    let chars = chars_of(id);
    if chars.len() == 0 {
        return false;
    }
    let mut i: usize = 0;
    while i < chars.len()
        invariant
            i <= chars.len(),
            chars@ == id@,
            forall|j: int| 0 <= j < i ==> is_id_char(#[trigger] id@[j]),
        decreases chars.len() - i,
    {
        if !id_char(chars[i]) {
            return false;
        }
        i += 1;
    }
    true
}

/// The tag itself where it is one; else the failure that carries it.
pub fn validate_tag(tag: &str) -> (r: Result<String, Error>)
    ensures
        match r {
            Ok(t) => is_tag(tag@) && t@ == tag@,
            Err(e) => !is_tag(tag@) && e@ == ErrorView::InvalidTag(tag@),
        },
{
    if valid_tag(tag) {
        Ok(tag.to_owned())
    } else {
        Err(Error::InvalidTag(tag.to_owned()))
    }
}

/// The identifier itself where it is one; else the failure that carries it.
pub fn validate_id(id: &str) -> (r: Result<String, Error>)
    ensures
        match r {
            Ok(t) => is_id(id@) && t@ == id@,
            Err(e) => !is_id(id@) && e@ == ErrorView::InvalidId(id@),
        },
{
    if valid_id(id) {
        Ok(id.to_owned())
    } else {
        Err(Error::InvalidId(id.to_owned()))
    }
}

} // verus!
