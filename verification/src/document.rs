use crate::error::{Error, ErrorView};
use crate::model::{
    lemma_child_height, lemma_view_children, texts, whatdos_view, Whatdo, WhatdoView,
};
use crate::validate::{is_id, is_tag, valid_id, valid_tag};
use crate::yaml::{
    entries_view, items_view, lemma_view_parts, read_yaml, write_yaml, yaml_document, yaml_text,
    Yaml, YamlView,
};
use vstd::prelude::*;

verus! {

/// The value under the first of the keys `entries[from ..]` that is the
/// string `key`.
pub open spec fn lookup(entries: Seq<(YamlView, YamlView)>, from: int, key: Seq<char>) -> Option<
    YamlView,
>
    decreases entries.len() - from,
{
    if 0 <= from < entries.len() {
        if entries[from].0 == YamlView::String(key) {
            Some(entries[from].1)
        } else {
            lookup(entries, from + 1, key)
        }
    } else {
        None
    }
}

/// What a lookup finds is a part of the entries.
pub proof fn lemma_lookup_smaller(entries: Seq<(YamlView, YamlView)>, from: int, key: Seq<char>)
    ensures
        lookup(entries, from, key) matches Some(v) ==> decreases_to!(entries => v),
    decreases entries.len() - from,
{
    if 0 <= from < entries.len() {
        if entries[from].0 == YamlView::String(key) {
            assert(decreases_to!(entries => entries[from]));
            assert(decreases_to!(entries[from] => entries[from].1));
        } else {
            lemma_lookup_smaller(entries, from + 1, key);
        }
    }
}

/// The identifiers that the items `items[from ..]` of a `queue` hold, or
/// the first fault among them: an item that is no string, or no identifier.
pub open spec fn parsed_queue(items: Seq<YamlView>, from: int) -> Result<
    Seq<Seq<char>>,
    ErrorView,
>
    decreases items.len() - from,
{
    if 0 <= from < items.len() {
        match items[from] {
            YamlView::String(s) => if is_id(s) {
                match parsed_queue(items, from + 1) {
                    Ok(rest) => Ok(seq![s] + rest),
                    Err(e) => Err(e),
                }
            } else {
                Err(ErrorView::InvalidWhatdoId(s))
            },
            _ => Err(ErrorView::ItemNotString),
        }
    } else {
        Ok(Seq::empty())
    }
}

/// The tags that the items `items[from ..]` of `tags` hold, or the first
/// fault among them: an item that is no string, or no tag.
pub open spec fn parsed_tags(items: Seq<YamlView>, from: int) -> Result<Seq<Seq<char>>, ErrorView>
    decreases items.len() - from,
{
    if 0 <= from < items.len() {
        match items[from] {
            YamlView::String(s) => if is_tag(s) {
                match parsed_tags(items, from + 1) {
                    Ok(rest) => Ok(seq![s] + rest),
                    Err(e) => Err(e),
                }
            } else {
                Err(ErrorView::InvalidTagItem(s))
            },
            _ => Err(ErrorView::ItemNotString),
        }
    } else {
        Ok(Seq::empty())
    }
}

/// The first fault in the kinds of the values that a task's mapping holds
/// under the known keys, in the order `summary`, `whatdos`, `queue`,
/// `priority`, `tags`, `branch_name`.
pub open spec fn kind_fault(entries: Seq<(YamlView, YamlView)>) -> Option<ErrorView> {
    let summary = lookup(entries, 0, "summary"@);
    let whatdos = lookup(entries, 0, "whatdos"@);
    let queue = lookup(entries, 0, "queue"@);
    let priority = lookup(entries, 0, "priority"@);
    let tags = lookup(entries, 0, "tags"@);
    let branch_name = lookup(entries, 0, "branch_name"@);
    if summary is Some && !(summary->0 is String) {
        Some(ErrorView::SummaryNotString)
    } else if whatdos is Some && !(whatdos->0 is Mapping) {
        Some(ErrorView::WhatdosNotMapping)
    } else if queue is Some && !(queue->0 is Sequence) {
        Some(ErrorView::QueueNotSequence)
    } else if priority is Some && priority->0 is Number {
        Some(ErrorView::PriorityNotInteger)
    } else if priority is Some && !(priority->0 is Integer) {
        Some(ErrorView::PriorityNotNumber)
    } else if tags is Some && !(tags->0 is Sequence) {
        Some(ErrorView::TagsNotSequence)
    } else if branch_name is Some && !(branch_name->0 is String) {
        Some(ErrorView::BranchNameNotString)
    } else {
        None
    }
}

/// The task named `id` that the YAML value `doc` stands for, or the first
/// fault in it.
///
/// A string is the summary of a task in the one-line form. A mapping may
/// hold `summary`, `whatdos`, `queue`, `priority`, `tags` and `branch_name`;
/// other keys are passed over. The kinds of the values are looked at first,
/// then the children, the queue and the tags.
pub open spec fn parsed(id: Seq<char>, doc: YamlView) -> Result<WhatdoView, ErrorView>
    decreases doc, 0nat,
{
    match doc {
        YamlView::String(s) => Ok(
            WhatdoView {
                id,
                summary: Some(s),
                whatdos: None,
                queue: None,
                priority: None,
                tags: None,
                branch_name: None,
                simple_format: true,
            },
        ),
        YamlView::Mapping(entries) => {
            let summary = lookup(entries, 0, "summary"@);
            let whatdos = lookup(entries, 0, "whatdos"@);
            let queue = lookup(entries, 0, "queue"@);
            let priority = lookup(entries, 0, "priority"@);
            let tags = lookup(entries, 0, "tags"@);
            let branch_name = lookup(entries, 0, "branch_name"@);
            if kind_fault(entries) is Some {
                Err(kind_fault(entries)->0)
            } else {
                let kids = match whatdos {
                    Some(YamlView::Mapping(below)) => {
                        proof {
                            lemma_lookup_smaller(entries, 0, "whatdos"@);
                        }
                        match parsed_map(below, 0) {
                            Ok(kids) => Ok(Some(kids)),
                            Err(e) => Err(e),
                        }
                    },
                    _ => Ok(None),
                };
                let waiting = match queue {
                    Some(YamlView::Sequence(items)) => match parsed_queue(items, 0) {
                        Ok(ids) => Ok(Some(ids)),
                        Err(e) => Err(e),
                    },
                    _ => Ok(None),
                };
                let labels = match tags {
                    Some(YamlView::Sequence(items)) => match parsed_tags(items, 0) {
                        Ok(list) => Ok(Some(list)),
                        Err(e) => Err(e),
                    },
                    _ => Ok(None),
                };
                if kids is Err {
                    Err(kids->Err_0)
                } else if waiting is Err {
                    Err(waiting->Err_0)
                } else if labels is Err {
                    Err(labels->Err_0)
                } else {
                    Ok(
                        WhatdoView {
                            id,
                            summary: match summary {
                                Some(YamlView::String(s)) => Some(s),
                                _ => None,
                            },
                            whatdos: kids->Ok_0,
                            queue: waiting->Ok_0,
                            priority: match priority {
                                Some(YamlView::Integer(p)) => Some(p),
                                _ => None,
                            },
                            tags: labels->Ok_0,
                            branch_name: match branch_name {
                                Some(YamlView::String(s)) => Some(s),
                                _ => None,
                            },
                            simple_format: false,
                        },
                    )
                }
            }
        },
        _ => Err(ErrorView::NotStringOrMapping),
    }
}

/// The tasks that the entries `entries[from ..]` of a `whatdos` mapping
/// stand for, each named by its key, or the first fault: a key that is no
/// string or no identifier, or a fault in a task.
pub open spec fn parsed_map(entries: Seq<(YamlView, YamlView)>, from: int) -> Result<
    Seq<WhatdoView>,
    ErrorView,
>
    decreases entries, entries.len() - from,
{
    if 0 <= from < entries.len() {
        match entries[from].0 {
            YamlView::String(key) => if is_id(key) {
                match parsed(key, entries[from].1) {
                    Ok(task) => match parsed_map(entries, from + 1) {
                        Ok(rest) => Ok(seq![task] + rest),
                        Err(e) => Err(e),
                    },
                    Err(e) => Err(e),
                }
            } else {
                Err(ErrorView::InvalidWhatdoId(key))
            },
            _ => Err(ErrorView::KeyNotString),
        }
    } else {
        Ok(Seq::empty())
    }
}

/// The value of a result that holds a task.
pub open spec fn result_view(r: Result<Whatdo, Error>) -> Result<WhatdoView, ErrorView> {
    match r {
        Ok(task) => Ok(task@),
        Err(e) => Err(e@),
    }
}

/// The value of a result that holds a list of tasks.
pub open spec fn tasks_result_view(r: Result<Vec<Whatdo>, Error>) -> Result<
    Seq<WhatdoView>,
    ErrorView,
> {
    match r {
        Ok(tasks) => Ok(whatdos_view(tasks@)),
        Err(e) => Err(e@),
    }
}

/// The value of a result that holds a list of strings.
pub open spec fn texts_result_view(r: Result<Vec<String>, Error>) -> Result<
    Seq<Seq<char>>,
    ErrorView,
> {
    match r {
        Ok(list) => Ok(texts(list@)),
        Err(e) => Err(e@),
    }
}

fn get<'a>(entries: &'a Vec<(Yaml, Yaml)>, key: &str) -> (r: Option<&'a Yaml>)
    ensures
        match r {
            Some(v) => lookup(entries_view(entries@), 0, key@) == Some(v@) && exists|i: int|
                0 <= i < entries@.len() && (#[trigger] entries@[i]).1 == *v,
            None => lookup(entries_view(entries@), 0, key@) is None,
        },
{
    let wanted = key.to_owned();
    let ghost all = entries_view(entries@);
    let mut i: usize = 0;
    while i < entries.len()
        invariant
            i <= entries.len(),
            wanted@ == key@,
            all == entries_view(entries@),
            lookup(all, 0, key@) == lookup(all, i as int, key@),
        decreases entries.len() - i,
    {
        proof {
            assert(all[i as int] == (entries@[i as int].0@, entries@[i as int].1@));
        }
        let hit = match &entries[i].0 {
            Yaml::String(s) => *s == wanted,
            _ => false,
        };
        if hit {
            return Some(&entries[i].1);
        }
        i += 1;
    }
    None
}

/// The identifiers that the items of a `queue` hold.
pub fn parse_queue_sequence(list: &Vec<Yaml>) -> (r: Result<Vec<String>, Error>)
    ensures
        texts_result_view(r) == parsed_queue(items_view(list@), 0),
{
    let ghost items = items_view(list@);
    let mut ids: Vec<String> = Vec::new();
    let mut i: usize = 0;
    proof {
        assert(texts(ids@) =~= Seq::<Seq<char>>::empty());
    }
    while i < list.len()
        invariant
            i <= list.len(),
            items == items_view(list@),
            parsed_queue(items, 0) == (match parsed_queue(items, i as int) {
                Ok(rest) => Ok(texts(ids@) + rest),
                Err(e) => Err(e),
            }),
        decreases list.len() - i,
    {
        proof {
            assert(items[i as int] == list@[i as int]@);
        }
        match &list[i] {
            Yaml::String(s) => {
                if valid_id(s.as_str()) {
                    let ghost before = texts(ids@);
                    ids.push(s.clone());
                    proof {
                        assert(texts(ids@) =~= before.push(s@));
                        match parsed_queue(items, i + 1) {
                            Ok(rest) => {
                                assert(before + (seq![s@] + rest) =~= before.push(s@) + rest);
                            },
                            Err(_) => {},
                        }
                    }
                } else {
                    return Err(Error::InvalidWhatdoId(s.clone()));
                }
            },
            _ => {
                return Err(Error::ItemNotString);
            },
        }
        i += 1;
    }
    proof {
        assert(texts(ids@) + Seq::<Seq<char>>::empty() =~= texts(ids@));
    }
    Ok(ids)
}

/// The tags that the items of `tags` hold.
pub fn parse_tags_sequence(list: &Vec<Yaml>) -> (r: Result<Vec<String>, Error>)
    ensures
        texts_result_view(r) == parsed_tags(items_view(list@), 0),
{
    let ghost items = items_view(list@);
    let mut tags: Vec<String> = Vec::new();
    let mut i: usize = 0;
    proof {
        assert(texts(tags@) =~= Seq::<Seq<char>>::empty());
    }
    while i < list.len()
        invariant
            i <= list.len(),
            items == items_view(list@),
            parsed_tags(items, 0) == (match parsed_tags(items, i as int) {
                Ok(rest) => Ok(texts(tags@) + rest),
                Err(e) => Err(e),
            }),
        decreases list.len() - i,
    {
        proof {
            assert(items[i as int] == list@[i as int]@);
        }
        match &list[i] {
            Yaml::String(s) => {
                if valid_tag(s.as_str()) {
                    let ghost before = texts(tags@);
                    tags.push(s.clone());
                    proof {
                        assert(texts(tags@) =~= before.push(s@));
                        match parsed_tags(items, i + 1) {
                            Ok(rest) => {
                                assert(before + (seq![s@] + rest) =~= before.push(s@) + rest);
                            },
                            Err(_) => {},
                        }
                    }
                } else {
                    return Err(Error::InvalidTagItem(s.clone()));
                }
            },
            _ => {
                return Err(Error::ItemNotString);
            },
        }
        i += 1;
    }
    proof {
        assert(texts(tags@) + Seq::<Seq<char>>::empty() =~= texts(tags@));
    }
    Ok(tags)
}

/// The tasks that the entries of a `whatdos` mapping stand for.
pub fn parse_whatdo_map(mapping: &Vec<(Yaml, Yaml)>) -> (r: Result<Vec<Whatdo>, Error>)
    ensures
        tasks_result_view(r) == parsed_map(entries_view(mapping@), 0),
    decreases mapping, 1nat,
{
    let ghost entries = entries_view(mapping@);
    let mut tasks: Vec<Whatdo> = Vec::new();
    let mut i: usize = 0;
    proof {
        assert(whatdos_view(tasks@) =~= Seq::<WhatdoView>::empty());
    }
    while i < mapping.len()
        invariant
            i <= mapping.len(),
            entries == entries_view(mapping@),
            parsed_map(entries, 0) == (match parsed_map(entries, i as int) {
                Ok(rest) => Ok(whatdos_view(tasks@) + rest),
                Err(e) => Err(e),
            }),
        decreases mapping.len() - i,
    {
        proof {
            assert(entries[i as int] == (mapping@[i as int].0@, mapping@[i as int].1@));
            assert(decreases_to!(*mapping => mapping[i as int]));
            assert(decreases_to!(mapping[i as int] => mapping[i as int].1));
        }
        match &mapping[i].0 {
            Yaml::String(key) => {
                if valid_id(key.as_str()) {
                    match parse_whatdo(key.as_str(), &mapping[i].1) {
                        Ok(task) => {
                            let ghost before = whatdos_view(tasks@);
                            tasks.push(task);
                            proof {
                                assert(whatdos_view(tasks@) =~= before.push(task@));
                                match parsed_map(entries, i + 1) {
                                    Ok(rest) => {
                                        assert(before + (seq![task@] + rest) =~= before.push(
                                            task@,
                                        ) + rest);
                                    },
                                    Err(_) => {},
                                }
                            }
                        },
                        Err(e) => {
                            return Err(e);
                        },
                    }
                } else {
                    return Err(Error::InvalidWhatdoId(key.clone()));
                }
            },
            _ => {
                return Err(Error::KeyNotString);
            },
        }
        i += 1;
    }
    proof {
        assert(whatdos_view(tasks@) + Seq::<WhatdoView>::empty() =~= whatdos_view(tasks@));
    }
    Ok(tasks)
}

/// The task named `id` that the YAML value `data` stands for.
pub fn parse_whatdo(id: &str, data: &Yaml) -> (r: Result<Whatdo, Error>)
    ensures
        result_view(r) == parsed(id@, data@),
    decreases data, 0nat,
{
    proof {
        lemma_view_parts(*data);
    }
    match data {
        Yaml::String(s) => Ok(Whatdo::simple(id, Some(s.as_str()))),
        Yaml::Mapping(items) => {
            let ghost entries = entries_view(items@);
            let summary = match get(items, "summary") {
                None => None,
                Some(Yaml::String(s)) => Some(s),
                Some(_) => {
                    return Err(Error::SummaryNotString);
                },
            };
            let whatdos_map = match get(items, "whatdos") {
                None => None,
                Some(Yaml::Mapping(d)) => Some(d),
                Some(_) => {
                    return Err(Error::WhatdosNotMapping);
                },
            };
            let queue_sequence = match get(items, "queue") {
                None => None,
                Some(Yaml::Sequence(s)) => Some(s),
                Some(_) => {
                    return Err(Error::QueueNotSequence);
                },
            };
            let priority = match get(items, "priority") {
                None => None,
                Some(Yaml::Integer(n)) => Some(*n),
                Some(Yaml::Number) => {
                    return Err(Error::PriorityNotInteger);
                },
                Some(_) => {
                    return Err(Error::PriorityNotNumber);
                },
            };
            let tags_sequence = match get(items, "tags") {
                None => None,
                Some(Yaml::Sequence(s)) => Some(s),
                Some(_) => {
                    return Err(Error::TagsNotSequence);
                },
            };
            let branch_name = match get(items, "branch_name") {
                None => None,
                Some(Yaml::String(s)) => Some(s.clone()),
                Some(_) => {
                    return Err(Error::BranchNameNotString);
                },
            };
            proof {
                assert(kind_fault(entries) is None);
            }
            let whatdos = match whatdos_map {
                Some(d) => {
                    proof {
                        let i = choose|i: int|
                            0 <= i < items@.len() && (#[trigger] items@[i]).1 == Yaml::Mapping(*d);
                        assert(decreases_to!(*items => items[i]));
                        assert(decreases_to!(items[i] => items[i].1));
                        assert(decreases_to!(items[i].1 => *d));
                        lemma_view_parts(Yaml::Mapping(*d));
                    }
                    match parse_whatdo_map(d) {
                        Ok(kids) => Some(kids),
                        Err(e) => {
                            return Err(e);
                        },
                    }
                },
                None => None,
            };
            let queue = match queue_sequence {
                Some(s) => {
                    proof {
                        lemma_view_parts(Yaml::Sequence(*s));
                    }
                    match parse_queue_sequence(s) {
                        Ok(ids) => Some(ids),
                        Err(e) => {
                            return Err(e);
                        },
                    }
                },
                None => None,
            };
            let tags = match tags_sequence {
                Some(s) => {
                    proof {
                        lemma_view_parts(Yaml::Sequence(*s));
                    }
                    match parse_tags_sequence(s) {
                        Ok(list) => Some(list),
                        Err(e) => {
                            return Err(e);
                        },
                    }
                },
                None => None,
            };
            let r = Whatdo {
                id: id.to_owned(),
                summary: match summary {
                    Some(s) => Some(s.clone()),
                    None => None,
                },
                whatdos,
                queue,
                tags,
                priority,
                branch_name,
                simple_format: false,
            };
            proof {
                lemma_view_children(r);
                let expected = parsed(id@, data@);
                assert(expected is Ok);
                assert(r@.queue =~= expected->Ok_0.queue);
                assert(r@.tags =~= expected->Ok_0.tags);
            }
            Ok(r)
        },
        _ => Err(Error::NotStringOrMapping),
    }
}

/// The place of the first of the keys `entries[from ..]` that is `key`.
pub open spec fn position(entries: Seq<(YamlView, YamlView)>, from: int, key: YamlView) -> Option<
    int,
>
    decreases entries.len() - from,
{
    if 0 <= from < entries.len() {
        if entries[from].0 == key {
            Some(from)
        } else {
            position(entries, from + 1, key)
        }
    } else {
        None
    }
}

/// `entries` with `value` under `key`: in the place of the value that
/// `key` had, or at the end where it had none.
pub open spec fn put(entries: Seq<(YamlView, YamlView)>, key: YamlView, value: YamlView) -> Seq<
    (YamlView, YamlView),
> {
    match position(entries, 0, key) {
        Some(i) => entries.update(i, (entries[i].0, value)),
        None => entries.push((key, value)),
    }
}

/// A list of strings as a YAML sequence.
pub open spec fn strings_sequence(list: Seq<Seq<char>>) -> YamlView {
    YamlView::Sequence(Seq::new(list.len(), |i: int| YamlView::String(list[i])))
}

/// The entry for an optional field: none where the field is absent.
pub open spec fn field(key: Seq<char>, value: Option<YamlView>) -> Seq<(YamlView, YamlView)> {
    match value {
        Some(v) => seq![(YamlView::String(key), v)],
        None => Seq::empty(),
    }
}

/// The YAML value that stands for a task: the summary alone, where the
/// task may be written in the one-line form and has a summary; else a
/// mapping of the fields that are present, in the order `summary`,
/// `priority`, `branch_name`, `tags`, `queue`, `whatdos`.
pub open spec fn serialized_value(task: WhatdoView) -> YamlView
    decreases task.height(), 1int, 0int,
{
    if task.terse() && task.summary is Some {
        YamlView::String(task.summary->0)
    } else {
        YamlView::Mapping(
            field(
                "summary"@,
                match task.summary {
                    Some(s) => Some(YamlView::String(s)),
                    None => None,
                },
            ) + field(
                "priority"@,
                match task.priority {
                    Some(p) => Some(YamlView::Integer(p)),
                    None => None,
                },
            ) + field(
                "branch_name"@,
                match task.branch_name {
                    Some(s) => Some(YamlView::String(s)),
                    None => None,
                },
            ) + field(
                "tags"@,
                match task.tags {
                    Some(list) => Some(strings_sequence(list)),
                    None => None,
                },
            ) + field(
                "queue"@,
                match task.queue {
                    Some(list) => Some(strings_sequence(list)),
                    None => None,
                },
            ) + field(
                "whatdos"@,
                match task.whatdos {
                    Some(kids) => Some(
                        YamlView::Mapping(serialized_children(task, kids.len())),
                    ),
                    None => None,
                },
            ),
        )
    }
}

/// The entries for the first `n` children of `task`, each under its
/// identifier; of two children of one identifier the later takes the place
/// of the earlier.
pub open spec fn serialized_children(task: WhatdoView, n: nat) -> Seq<(YamlView, YamlView)>
    decreases task.height(), 0int, n,
{
    if 0 < n <= task.children().len() {
        proof {
            lemma_child_height(task, n - 1);
        }
        let child = task.children()[n - 1];
        put(
            serialized_children(task, (n - 1) as nat),
            YamlView::String(child.id),
            serialized_value(child),
        )
    } else {
        Seq::empty()
    }
}

/// The entry that stands for a task in the mapping of its parent: key and
/// value.
pub open spec fn serialized(task: WhatdoView) -> (YamlView, YamlView) {
    (YamlView::String(task.id), serialized_value(task))
}

fn put_entry(entries: &mut Vec<(Yaml, Yaml)>, key: String, value: Yaml)
    ensures
        entries_view(final(entries)@) == put(
            entries_view(old(entries)@),
            YamlView::String(key@),
            value@,
        ),
{
    let ghost all = entries_view(entries@);
    let ghost wanted = YamlView::String(key@);
    let mut i: usize = 0;
    while i < entries.len()
        invariant
            i <= entries.len(),
            entries@ == old(entries)@,
            all == entries_view(entries@),
            wanted == YamlView::String(key@),
            position(all, 0, wanted) == position(all, i as int, wanted),
        decreases entries.len() - i,
    {
        proof {
            assert(all[i as int] == (entries@[i as int].0@, entries@[i as int].1@));
        }
        let hit = match &entries[i].0 {
            Yaml::String(s) => *s == key,
            _ => false,
        };
        if hit {
            let old_entry = entries.remove(i);
            entries.insert(i, (old_entry.0, value));
            proof {
                assert(entries_view(entries@) =~= all.update(i as int, (all[i as int].0, value@)));
            }
            return ;
        }
        i += 1;
    }
    entries.push((Yaml::String(key), value));
    proof {
        assert(entries_view(entries@) =~= all.push((wanted, value@)));
    }
}

fn push_field(entries: &mut Vec<(Yaml, Yaml)>, key: &str, value: Yaml)
    ensures
        entries_view(final(entries)@) == entries_view(old(entries)@) + field(key@, Some(value@)),
{
    entries.push((Yaml::String(key.to_owned()), value));
    proof {
        assert(entries_view(entries@) =~= entries_view(old(entries)@) + field(
            key@,
            Some(value@),
        ));
    }
}

fn sequence_of(list: &Vec<String>) -> (r: Yaml)
    ensures
        r@ == strings_sequence(texts(list@)),
{
    let mut items: Vec<Yaml> = Vec::new();
    let mut i: usize = 0;
    while i < list.len()
        invariant
            i <= list.len(),
            items@.len() == i,
            forall|j: int| 0 <= j < i ==> items@[j]@ == YamlView::String(list@[j]@),
        decreases list.len() - i,
    {
        items.push(Yaml::String(list[i].clone()));
        i += 1;
    }
    let r = Yaml::Sequence(items);
    proof {
        lemma_view_parts(r);
        assert(items_view(items@) =~= Seq::new(
            texts(list@).len(),
            |i: int| YamlView::String(texts(list@)[i]),
        ));
    }
    r
}

/// The entry that stands for a task in the mapping of its parent: key and
/// value.
pub fn serialize_whatdo(whatdo: &Whatdo) -> (r: (Yaml, Yaml))
    ensures
        (r.0@, r.1@) == serialized(whatdo@),
    decreases whatdo@.height(),
{
    let ghost task = whatdo@;
    proof {
        lemma_view_children(*whatdo);
    }
    if whatdo.simple_format() {
        if let Some(summary) = &whatdo.summary {
            return (Yaml::String(whatdo.id.clone()), Yaml::String(summary.clone()));
        }
    }
    let mut mapping: Vec<(Yaml, Yaml)> = Vec::new();
    proof {
        assert(entries_view(mapping@) =~= Seq::<(YamlView, YamlView)>::empty());
    }
    if let Some(summary) = &whatdo.summary {
        push_field(&mut mapping, "summary", Yaml::String(summary.clone()));
    }
    let ghost first = entries_view(mapping@);
    if let Some(priority) = whatdo.priority {
        push_field(&mut mapping, "priority", Yaml::Integer(priority));
    }
    if let Some(branch_name) = &whatdo.branch_name {
        push_field(&mut mapping, "branch_name", Yaml::String(branch_name.clone()));
    }
    if let Some(tags) = &whatdo.tags {
        push_field(&mut mapping, "tags", sequence_of(tags));
    }
    if let Some(queue) = &whatdo.queue {
        push_field(&mut mapping, "queue", sequence_of(queue));
    }
    if let Some(whatdos) = &whatdo.whatdos {
        let mut whatdo_mapping: Vec<(Yaml, Yaml)> = Vec::new();
        let mut i: usize = 0;
        proof {
            assert(entries_view(whatdo_mapping@) =~= serialized_children(task, 0));
        }
        while i < whatdos.len()
            invariant
                i <= whatdos.len(),
                task == whatdo@,
                task.children() == whatdos_view(whatdos@),
                entries_view(whatdo_mapping@) == serialized_children(task, i as nat),
            decreases whatdos.len() - i,
        {
            proof {
                assert(task.children()[i as int] == whatdos@[i as int]@);
                lemma_child_height(task, i as int);
            }
            let (_, value) = serialize_whatdo(&whatdos[i]);
            put_entry(&mut whatdo_mapping, whatdos[i].id.clone(), value);
            i += 1;
        }
        let below = Yaml::Mapping(whatdo_mapping);
        proof {
            lemma_view_parts(below);
        }
        push_field(&mut mapping, "whatdos", below);
    }
    let r = Yaml::Mapping(mapping);
    proof {
        lemma_view_parts(r);
        assert(first =~= field(
            "summary"@,
            match task.summary {
                Some(s) => Some(YamlView::String(s)),
                None => None,
            },
        ));
        assert(forall|list: Seq<(YamlView, YamlView)>| list + Seq::empty() =~= list);
    }
    (Yaml::String(whatdo.id.clone()), r)
}

proof fn lemma_put_plain(entries: Seq<(YamlView, YamlView)>, key: YamlView, value: YamlView)
    requires
        forall|i: int|
            0 <= i < entries.len() ==> (#[trigger] entries[i]).0.plain() && entries[i].1.plain(),
        key.plain(),
        value.plain(),
    ensures
        forall|i: int|
            0 <= i < put(entries, key, value).len() ==> (#[trigger] put(
                entries,
                key,
                value,
            )[i]).0.plain() && put(entries, key, value)[i].1.plain(),
{
    lemma_position(entries, 0, key);
}

/// A place that [`position`] gives lies among the entries looked at and
/// holds the key; where it gives none, none of them holds it.
pub proof fn lemma_position(entries: Seq<(YamlView, YamlView)>, from: int, key: YamlView)
    requires
        0 <= from,
    ensures
        match position(entries, from, key) {
            Some(i) => from <= i < entries.len() && entries[i].0 == key && forall|j: int|
                from <= j < i ==> (#[trigger] entries[j]).0 != key,
            None => forall|j: int| from <= j < entries.len() ==> (#[trigger] entries[j]).0 != key,
        },
    decreases entries.len() - from,
{
    if from < entries.len() {
        if entries[from].0 != key {
            lemma_position(entries, from + 1, key);
        }
    }
}

proof fn lemma_strings_plain(list: Seq<Seq<char>>)
    ensures
        strings_sequence(list).plain(),
{
    reveal_with_fuel(YamlView::plain, 2);
}

/// What stands for a task can be written out.
pub proof fn lemma_serialized_plain(task: WhatdoView)
    ensures
        serialized_value(task).plain(),
    decreases task.height(), 1int, 0int,
{
    if !(task.terse() && task.summary is Some) {
        let entries = serialized_value(task)->Mapping_0;
        if task.whatdos is Some {
            lemma_serialized_children_plain(task, task.children().len());
            assert(YamlView::Mapping(serialized_children(task, task.children().len())).plain());
        }
        if task.tags is Some {
            lemma_strings_plain(task.tags->0);
        }
        if task.queue is Some {
            lemma_strings_plain(task.queue->0);
        }
        assert forall|i: int| 0 <= i < entries.len() implies (#[trigger] entries[i]).0.plain()
            && entries[i].1.plain() by {}
    }
}

proof fn lemma_serialized_children_plain(task: WhatdoView, n: nat)
    requires
        n <= task.children().len(),
    ensures
        forall|i: int|
            0 <= i < serialized_children(task, n).len() ==> (#[trigger] serialized_children(
                task,
                n,
            )[i]).0.plain() && serialized_children(task, n)[i].1.plain(),
    decreases task.height(), 0int, n,
{
    if n > 0 {
        lemma_child_height(task, n - 1);
        let child = task.children()[n - 1];
        lemma_serialized_children_plain(task, (n - 1) as nat);
        lemma_serialized_plain(child);
        lemma_put_plain(
            serialized_children(task, (n - 1) as nat),
            YamlView::String(child.id),
            serialized_value(child),
        );
    }
}

/// The tree that a document holds: the YAML text is read, and the value
/// read, which is well formed, is taken for the task named `project_name`.
pub fn parse_document(project_name: &str, text: &str) -> (r: Result<Whatdo, Error>)
    ensures
        match yaml_document(text@) {
            Ok(doc) => doc.well_formed() && result_view(r) == parsed(project_name@, doc),
            Err(message) => result_view(r) == Err::<WhatdoView, ErrorView>(
                ErrorView::Syntax(message),
            ),
        },
{
    match read_yaml(text) {
        Ok(doc) => parse_whatdo(project_name, &doc),
        Err(message) => Err(Error::Syntax(message)),
    }
}

/// The document that holds a tree: what stands for the root, written as
/// YAML text.
pub fn write_document(whatdo: &Whatdo) -> (r: Result<String, Error>)
    ensures
        match yaml_text(serialized_value(whatdo@)) {
            Ok(text) => r matches Ok(t) && t@ == text,
            Err(message) => r matches Err(e) && e@ == ErrorView::Syntax(message),
        },
{
    let (_, doc) = serialize_whatdo(whatdo);
    proof {
        lemma_serialized_plain(whatdo@);
    }
    match write_yaml(&doc) {
        Ok(text) => Ok(text),
        Err(message) => Err(Error::Syntax(message)),
    }
}

} // verus!
