use crate::document::{
    field, kind_fault, lemma_lookup_smaller, lemma_position, lookup, parsed, parsed_map,
    parsed_queue, parsed_tags, position, serialized_children, serialized_value, strings_sequence,
};
use crate::error::ErrorView;
use crate::index::{lemma_occurs_among, occurs};
use crate::invariants::tags_valid;
use crate::model::WhatdoView;
use crate::validate::{is_id, is_tag};
use crate::yaml::YamlView;
use vstd::prelude::*;

verus! {

proof fn lemma_lookup_from(entries: Seq<(YamlView, YamlView)>, from: int, key: Seq<char>)
    requires
        0 <= from <= entries.len(),
    ensures
        lookup(entries, from, key) == lookup(entries.skip(from), 0, key),
    decreases entries.len() - from,
{
    let rest = entries.skip(from);
    if from < entries.len() {
        assert(rest[0] == entries[from]);
        if entries[from].0 != YamlView::String(key) {
            lemma_lookup_from(entries, from + 1, key);
            lemma_lookup_from(rest, 1, key);
            assert(rest.skip(1) =~= entries.skip(from + 1));
        }
    }
}

proof fn lemma_lookup_joined(
    a: Seq<(YamlView, YamlView)>,
    b: Seq<(YamlView, YamlView)>,
    from: int,
    key: Seq<char>,
)
    requires
        0 <= from <= a.len(),
    ensures
        lookup(a + b, from, key) == (match lookup(a, from, key) {
            Some(v) => Some(v),
            None => lookup(b, 0, key),
        }),
    decreases a.len() - from,
{
    let all = a + b;
    if from < a.len() {
        assert(all[from] == a[from]);
        if a[from].0 != YamlView::String(key) {
            lemma_lookup_joined(a, b, from + 1, key);
        }
    } else {
        lemma_lookup_from(all, from, key);
        assert(all.skip(from) =~= b);
    }
}

/// The six field names are six different strings.
proof fn lemma_field_names()
    ensures
        "summary"@ != "priority"@,
        "summary"@ != "branch_name"@,
        "summary"@ != "tags"@,
        "summary"@ != "queue"@,
        "summary"@ != "whatdos"@,
        "priority"@ != "branch_name"@,
        "priority"@ != "tags"@,
        "priority"@ != "queue"@,
        "priority"@ != "whatdos"@,
        "branch_name"@ != "tags"@,
        "branch_name"@ != "queue"@,
        "branch_name"@ != "whatdos"@,
        "tags"@ != "queue"@,
        "tags"@ != "whatdos"@,
        "queue"@ != "whatdos"@,
{
    reveal_strlit("summary");
    reveal_strlit("priority");
    reveal_strlit("branch_name");
    reveal_strlit("tags");
    reveal_strlit("queue");
    reveal_strlit("whatdos");
    assert("summary"@[0] == 's');
    assert("priority"@[0] == 'p');
    assert("branch_name"@[0] == 'b');
    assert("tags"@[0] == 't');
    assert("queue"@[0] == 'q');
    assert("whatdos"@[0] == 'w');
}

/// In the mapping made of six fields, each name leads to its own value.
proof fn lemma_fields(
    summary: Option<YamlView>,
    priority: Option<YamlView>,
    branch_name: Option<YamlView>,
    tags: Option<YamlView>,
    queue: Option<YamlView>,
    whatdos: Option<YamlView>,
)
    ensures
        ({
            let all = field("summary"@, summary) + field("priority"@, priority) + field(
                "branch_name"@,
                branch_name,
            ) + field("tags"@, tags) + field("queue"@, queue) + field("whatdos"@, whatdos);
            &&& lookup(all, 0, "summary"@) == summary
            &&& lookup(all, 0, "priority"@) == priority
            &&& lookup(all, 0, "branch_name"@) == branch_name
            &&& lookup(all, 0, "tags"@) == tags
            &&& lookup(all, 0, "queue"@) == queue
            &&& lookup(all, 0, "whatdos"@) == whatdos
        }),
{
    lemma_field_names();
    let f1 = field("summary"@, summary);
    let f2 = field("priority"@, priority);
    let f3 = field("branch_name"@, branch_name);
    let f4 = field("tags"@, tags);
    let f5 = field("queue"@, queue);
    let f6 = field("whatdos"@, whatdos);
    let a2 = f1 + f2;
    let a3 = a2 + f3;
    let a4 = a3 + f4;
    let a5 = a4 + f5;
    let a6 = a5 + f6;
    assert forall|key: Seq<char>| #![auto]
        lookup(a6, 0, key) == (match lookup(f1, 0, key) {
            Some(v) => Some(v),
            None => match lookup(f2, 0, key) {
                Some(v) => Some(v),
                None => match lookup(f3, 0, key) {
                    Some(v) => Some(v),
                    None => match lookup(f4, 0, key) {
                        Some(v) => Some(v),
                        None => match lookup(f5, 0, key) {
                            Some(v) => Some(v),
                            None => lookup(f6, 0, key),
                        },
                    },
                },
            },
        }) by {
        lemma_lookup_joined(f1, f2, 0, key);
        lemma_lookup_joined(a2, f3, 0, key);
        lemma_lookup_joined(a3, f4, 0, key);
        lemma_lookup_joined(a4, f5, 0, key);
        lemma_lookup_joined(a5, f6, 0, key);
    }
    assert forall|name: Seq<char>, value: Option<YamlView>, key: Seq<char>| #![auto]
        lookup(field(name, value), 0, key) == (if name == key {
            value
        } else {
            None
        }) by {
        let f = field(name, value);
        if value is Some {
            assert(f[0] == (YamlView::String(name), value->0));
            assert(lookup(f, 1, key) is None);
        }
    }
}

/// What a queue that was read holds are identifiers.
proof fn lemma_parsed_queue(items: Seq<YamlView>, from: int)
    requires
        0 <= from,
    ensures
        parsed_queue(items, from) matches Ok(ids) ==> forall|i: int|
            0 <= i < ids.len() ==> is_id(#[trigger] ids[i]),
    decreases items.len() - from,
{
    if from < items.len() {
        lemma_parsed_queue(items, from + 1);
        if parsed_queue(items, from) is Ok {
            let ids = parsed_queue(items, from)->Ok_0;
            let rest = parsed_queue(items, from + 1)->Ok_0;
            assert forall|i: int| 0 <= i < ids.len() implies is_id(#[trigger] ids[i]) by {
                if i > 0 {
                    assert(ids[i] == rest[i - 1]);
                }
            }
        }
    }
}

/// What a list of tags that was read holds are tags.
proof fn lemma_parsed_tags(items: Seq<YamlView>, from: int)
    requires
        0 <= from,
    ensures
        parsed_tags(items, from) matches Ok(tags) ==> forall|i: int|
            0 <= i < tags.len() ==> is_tag(#[trigger] tags[i]),
    decreases items.len() - from,
{
    if from < items.len() {
        lemma_parsed_tags(items, from + 1);
        if parsed_tags(items, from) is Ok {
            let tags = parsed_tags(items, from)->Ok_0;
            let rest = parsed_tags(items, from + 1)->Ok_0;
            assert forall|i: int| 0 <= i < tags.len() implies is_tag(#[trigger] tags[i]) by {
                if i > 0 {
                    assert(tags[i] == rest[i - 1]);
                }
            }
        }
    }
}

/// Identifiers written as a sequence are read back as they were.
proof fn lemma_queue_back(list: Seq<Seq<char>>, from: int)
    requires
        0 <= from <= list.len(),
        forall|i: int| 0 <= i < list.len() ==> is_id(#[trigger] list[i]),
    ensures
        parsed_queue(strings_sequence(list)->Sequence_0, from) == Ok::<Seq<Seq<char>>, ErrorView>(
            list.skip(from),
        ),
    decreases list.len() - from,
{
    let items = strings_sequence(list)->Sequence_0;
    if from < list.len() {
        lemma_queue_back(list, from + 1);
        assert(items[from] == YamlView::String(list[from]));
        assert(seq![list[from]] + list.skip(from + 1) =~= list.skip(from));
    } else {
        assert(list.skip(from) =~= Seq::<Seq<char>>::empty());
    }
}

/// Tags written as a sequence are read back as they were.
proof fn lemma_tags_back(list: Seq<Seq<char>>, from: int)
    requires
        0 <= from <= list.len(),
        forall|i: int| 0 <= i < list.len() ==> is_tag(#[trigger] list[i]),
    ensures
        parsed_tags(strings_sequence(list)->Sequence_0, from) == Ok::<Seq<Seq<char>>, ErrorView>(
            list.skip(from),
        ),
    decreases list.len() - from,
{
    let items = strings_sequence(list)->Sequence_0;
    if from < list.len() {
        lemma_tags_back(list, from + 1);
        assert(items[from] == YamlView::String(list[from]));
        assert(seq![list[from]] + list.skip(from + 1) =~= list.skip(from));
    } else {
        assert(list.skip(from) =~= Seq::<Seq<char>>::empty());
    }
}

/// The entries that stand for children of different names: one for each
/// child, in order.
proof fn lemma_children_entries(task: WhatdoView, n: nat)
    requires
        n <= task.children().len(),
        forall|i: int, j: int|
            0 <= i < j < task.children().len() ==> (#[trigger] task.children()[i]).id != (
            #[trigger] task.children()[j]).id,
    ensures
        serialized_children(task, n).len() == n,
        forall|i: int|
            0 <= i < n ==> #[trigger] serialized_children(task, n)[i] == (
                YamlView::String(task.children()[i].id),
                serialized_value(task.children()[i]),
            ),
    decreases n,
{
    if n > 0 {
        lemma_children_entries(task, (n - 1) as nat);
        let earlier = serialized_children(task, (n - 1) as nat);
        let child = task.children()[n - 1];
        let key = YamlView::String(child.id);
        lemma_position(earlier, 0, key);
        if position(earlier, 0, key) is Some {
            let i = position(earlier, 0, key)->0;
            assert(earlier[i].0 == YamlView::String(task.children()[i].id));
            assert(task.children()[i].id != task.children()[n - 1].id);
        }
        assert(serialized_children(task, n) == earlier.push((key, serialized_value(child))));
    }
}

/// Children that are read back one by one are read back as a list.
proof fn lemma_children_back(
    entries: Seq<(YamlView, YamlView)>,
    kids: Seq<WhatdoView>,
    from: int,
)
    requires
        0 <= from <= kids.len(),
        entries.len() == kids.len(),
        forall|i: int|
            0 <= i < kids.len() ==> #[trigger] entries[i] == (
                YamlView::String(kids[i].id),
                serialized_value(kids[i]),
            ),
        forall|i: int|
            0 <= i < kids.len() ==> is_id((#[trigger] kids[i]).id) && parsed(
                kids[i].id,
                serialized_value(kids[i]),
            ) == Ok::<WhatdoView, ErrorView>(kids[i]),
    ensures
        parsed_map(entries, from) == Ok::<Seq<WhatdoView>, ErrorView>(kids.skip(from)),
    decreases kids.len() - from,
{
    if from < kids.len() {
        lemma_children_back(entries, kids, from + 1);
        assert(entries[from] == (YamlView::String(kids[from].id), serialized_value(kids[from])));
        assert(seq![kids[from]] + kids.skip(from + 1) =~= kids.skip(from));
    } else {
        assert(kids.skip(from) =~= Seq::<WhatdoView>::empty());
    }
}

/// A task read from a well-formed document, written and read again, is the
/// task that was read first.
pub proof fn lemma_round_trip(id: Seq<char>, doc: YamlView)
    requires
        doc.well_formed(),
    ensures
        parsed(id, doc) matches Ok(task) ==> parsed(id, serialized_value(task)) == Ok::<
            WhatdoView,
            ErrorView,
        >(task),
    decreases doc, 0nat,
{
    if parsed(id, doc) is Ok {
        let task = parsed(id, doc)->Ok_0;
        match doc {
            YamlView::String(s) => {},
            YamlView::Mapping(entries) => {
                let below = lookup(entries, 0, "whatdos"@);
                let queue = lookup(entries, 0, "queue"@);
                let tags = lookup(entries, 0, "tags"@);
                assert(kind_fault(entries) is None);
                let kids_value = match task.whatdos {
                    Some(kids) => Some(
                        YamlView::Mapping(serialized_children(task, kids.len())),
                    ),
                    None => None,
                };
                lemma_fields(
                    match task.summary {
                        Some(s) => Some(YamlView::String(s)),
                        None => None,
                    },
                    match task.priority {
                        Some(p) => Some(YamlView::Integer(p)),
                        None => None,
                    },
                    match task.branch_name {
                        Some(s) => Some(YamlView::String(s)),
                        None => None,
                    },
                    match task.tags {
                        Some(list) => Some(strings_sequence(list)),
                        None => None,
                    },
                    match task.queue {
                        Some(list) => Some(strings_sequence(list)),
                        None => None,
                    },
                    kids_value,
                );
                let written = serialized_value(task);
                let fields = written->Mapping_0;
                assert(kind_fault(fields) is None);
                if task.queue is Some {
                    lemma_parsed_queue(queue->0->Sequence_0, 0);
                    lemma_queue_back(task.queue->0, 0);
                    assert(task.queue->0.skip(0) =~= task.queue->0);
                }
                if task.tags is Some {
                    lemma_parsed_tags(tags->0->Sequence_0, 0);
                    lemma_tags_back(task.tags->0, 0);
                    assert(task.tags->0.skip(0) =~= task.tags->0);
                }
                if task.whatdos is Some {
                    let kids = task.whatdos->0;
                    let inner = below->0->Mapping_0;
                    lemma_lookup_smaller(entries, 0, "whatdos"@);
                    lemma_lookup_well_formed(entries, 0, "whatdos"@);
                    lemma_round_trip_map(inner, 0);
                    assert(task.children() == kids);
                    lemma_children_entries(task, kids.len());
                    lemma_children_back(serialized_children(task, kids.len()), kids, 0);
                    assert(kids.skip(0) =~= kids);
                }
                assert(parsed(id, written) == Ok::<WhatdoView, ErrorView>(task));
            },
            _ => {},
        }
    }
}

/// What a lookup finds in a well-formed mapping is well formed.
proof fn lemma_lookup_well_formed(entries: Seq<(YamlView, YamlView)>, from: int, key: Seq<char>)
    requires
        0 <= from,
        YamlView::Mapping(entries).well_formed(),
    ensures
        lookup(entries, from, key) matches Some(v) ==> v.well_formed(),
    decreases entries.len() - from,
{
    if from < entries.len() {
        if entries[from].0 == YamlView::String(key) {
            assert(entries[from].1.well_formed());
        } else {
            lemma_lookup_well_formed(entries, from + 1, key);
        }
    }
}

/// The children's part of [`lemma_round_trip`]: the children read from a
/// well-formed mapping have identifiers for names, no two the same, and
/// each is read back as it was.
proof fn lemma_round_trip_map(entries: Seq<(YamlView, YamlView)>, from: int)
    requires
        0 <= from,
        YamlView::Mapping(entries).well_formed(),
    ensures
        parsed_map(entries, from) matches Ok(kids) ==> {
            &&& kids.len() == entries.len() - from || (from > entries.len() && kids.len() == 0)
            &&& forall|i: int|
                0 <= i < kids.len() ==> (#[trigger] kids[i]).id == entries[from + i].0->String_0
                    && entries[from + i].0 is String && is_id(kids[i].id) && parsed(
                    kids[i].id,
                    serialized_value(kids[i]),
                ) == Ok::<WhatdoView, ErrorView>(kids[i])
            &&& forall|i: int, j: int|
                0 <= i < j < kids.len() ==> (#[trigger] kids[i]).id != (#[trigger] kids[j]).id
        },
    decreases entries, entries.len() - from,
{
    if from < entries.len() && parsed_map(entries, from) is Ok {
        let kids = parsed_map(entries, from)->Ok_0;
        let key = entries[from].0->String_0;
        let rest = parsed_map(entries, from + 1)->Ok_0;
        let first = parsed(key, entries[from].1)->Ok_0;
        assert(entries[from].1.well_formed());
        lemma_round_trip(key, entries[from].1);
        lemma_round_trip_map(entries, from + 1);
        lemma_parsed_id(key, entries[from].1);
        assert(kids == seq![first] + rest);
        assert forall|i: int| 0 <= i < kids.len() implies (#[trigger] kids[i]).id == entries[from
            + i].0->String_0 && entries[from + i].0 is String && is_id(kids[i].id) && parsed(
            kids[i].id,
            serialized_value(kids[i]),
        ) == Ok::<WhatdoView, ErrorView>(kids[i]) by {
            if i > 0 {
                assert(kids[i] == rest[i - 1]);
            }
        }
        assert forall|i: int, j: int| 0 <= i < j < kids.len() implies (#[trigger] kids[i]).id != (
        #[trigger] kids[j]).id by {
            assert(kids[j] == rest[j - 1]);
            if i > 0 {
                assert(kids[i] == rest[i - 1]);
            } else {
                assert(entries[from].0 != entries[from + j].0);
            }
        }
    }
}

/// A task that was read has the name it was read under.
proof fn lemma_parsed_id(id: Seq<char>, doc: YamlView)
    ensures
        parsed(id, doc) matches Ok(task) ==> task.id == id,
{
}

/// Every tag of a tree that was read is a tag.
pub proof fn lemma_parsed_tags_valid(id: Seq<char>, doc: YamlView)
    ensures
        parsed(id, doc) matches Ok(tree) ==> tags_valid(tree),
    decreases doc, 0nat,
{
    if parsed(id, doc) is Ok {
        let tree = parsed(id, doc)->Ok_0;
        match doc {
            YamlView::Mapping(entries) => {
                let below = lookup(entries, 0, "whatdos"@);
                let tags = lookup(entries, 0, "tags"@);
                assert(kind_fault(entries) is None);
                if tree.tags is Some {
                    lemma_parsed_tags(tags->0->Sequence_0, 0);
                }
                if tree.whatdos is Some {
                    lemma_lookup_smaller(entries, 0, "whatdos"@);
                    lemma_parsed_map_tags_valid(below->0->Mapping_0, 0);
                }
                assert forall|task: WhatdoView, i: int|
                    occurs(tree, task) && task.tags is Some && 0 <= i < task.tags->0.len() implies is_tag(
                    #[trigger] task.tags->0[i],
                ) by {
                    if task != tree {
                        lemma_occurs_among(tree, 0, task);
                        let j = choose|j: int|
                            0 <= j < tree.children().len() && occurs(
                                #[trigger] tree.children()[j],
                                task,
                            );
                        assert(tags_valid(tree.children()[j]));
                    }
                }
            },
            _ => {
                assert forall|task: WhatdoView, i: int|
                    occurs(tree, task) && task.tags is Some && 0 <= i < task.tags->0.len() implies is_tag(
                    #[trigger] task.tags->0[i],
                ) by {
                    assert(tree.children().len() == 0);
                    assert(task == tree);
                }
            },
        }
    }
}

/// The children's part of [`lemma_parsed_tags_valid`].
proof fn lemma_parsed_map_tags_valid(entries: Seq<(YamlView, YamlView)>, from: int)
    requires
        0 <= from,
    ensures
        parsed_map(entries, from) matches Ok(kids) ==> forall|i: int|
            0 <= i < kids.len() ==> tags_valid(#[trigger] kids[i]),
    decreases entries, entries.len() - from,
{
    if from < entries.len() && parsed_map(entries, from) is Ok {
        let kids = parsed_map(entries, from)->Ok_0;
        let key = entries[from].0->String_0;
        let rest = parsed_map(entries, from + 1)->Ok_0;
        lemma_parsed_tags_valid(key, entries[from].1);
        lemma_parsed_map_tags_valid(entries, from + 1);
        assert forall|i: int| 0 <= i < kids.len() implies tags_valid(#[trigger] kids[i]) by {
            if i > 0 {
                assert(kids[i] == rest[i - 1]);
            }
        }
    }
}

} // verus!
