use crate::index::{follows, total};
use crate::model::{
    lemma_child_height, lemma_view_children, texts, whatdos_view, Whatdo, WhatdoView,
};
use crate::text::{decimal, decimal_text, joined, repeat_char, repeated};
use vstd::prelude::*;
use vstd::string::StringExecFns;

verus! {

/// How a piece of a line is to be shown.
#[derive(Clone, Copy, Debug, PartialEq, Eq, Structural)]
pub enum Style {
    Plain,
    Yellow,
    Bold,
    Dimmed,
}

/// A piece of a line: a text and how it is to be shown.
#[derive(Debug, PartialEq, Eq)]
pub struct Span {
    pub style: Style,
    pub text: String,
}

/// The mathematical value of a [`Span`].
pub struct SpanView {
    pub style: Style,
    pub text: Seq<char>,
}

impl View for Span {
    type V = SpanView;

    open spec fn view(&self) -> SpanView {
        SpanView { style: self.style, text: self.text@ }
    }
}

/// The values of the pieces of a line.
pub open spec fn spans_view(spans: Seq<Span>) -> Seq<SpanView> {
    Seq::new(spans.len(), |i: int| spans[i]@)
}

/// The values of a list of lines.
pub open spec fn lines_view(lines: Seq<Vec<Span>>) -> Seq<Seq<SpanView>> {
    Seq::new(lines.len(), |i: int| spans_view(lines[i]@))
}

/// A piece shown as it is.
pub open spec fn plain(text: Seq<char>) -> SpanView {
    SpanView { style: Style::Plain, text }
}

/// The texts of `spans`, one after the other.
pub open spec fn plain_text(spans: Seq<SpanView>) -> Seq<char>
    decreases spans.len(),
{
    if spans.len() == 0 {
        Seq::empty()
    } else {
        plain_text(spans.drop_last()) + spans.last().text
    }
}

/// The pieces for the first `n` tags: each tag, and a comma behind each but
/// the first.
pub open spec fn tag_spans(tags: Seq<Seq<char>>, n: nat) -> Seq<SpanView>
    decreases n,
{
    if 0 < n <= tags.len() {
        let earlier = tag_spans(tags, (n - 1) as nat);
        if n == 1 {
            earlier.push(plain(tags[n - 1]))
        } else {
            earlier.push(plain(tags[n - 1])).push(plain(seq![',']))
        }
    } else {
        Seq::empty()
    }
}

/// The full form of a task: the identifier in brackets; the priority, where
/// there is one, behind `P` in brackets; the tags, where there are any, in
/// brackets; and the summary to show.
pub open spec fn display(task: WhatdoView) -> Seq<SpanView> {
    seq![plain(seq!['[']), SpanView { style: Style::Yellow, text: task.id }, plain(seq![']'])] + (
    match task.priority {
        Some(p) => seq![
            plain(seq![' ', '[', 'P']),
            SpanView { style: Style::Bold, text: decimal_text(p as int) },
            plain(seq![']']),
        ],
        None => Seq::empty(),
    }) + (match task.tags {
        Some(tags) => seq![plain(seq![' ', '['])] + tag_spans(tags, tags.len()) + seq![
            plain(seq![']']),
        ],
        None => Seq::empty(),
    }) + seq![plain(seq![' '] + task.effective_summary())]
}

fn span(style: Style, text: String) -> (r: Span)
    ensures
        r@ == (SpanView { style, text: text@ }),
{
    Span { style, text }
}

fn plain_span(text: &str) -> (r: Span)
    ensures
        r@ == plain(text@),
{
    Span { style: Style::Plain, text: text.to_owned() }
}

fn put(line: &mut Vec<Span>, piece: Span)
    ensures
        spans_view(final(line)@) == spans_view(old(line)@).push(piece@),
{
    line.push(piece);
    proof {
        assert(spans_view(line@) =~= spans_view(old(line)@).push(piece@));
    }
}

/// The texts of `spans`, one after the other, as one string.
pub fn text_of(spans: &Vec<Span>) -> (r: String)
    ensures
        r@ == plain_text(spans_view(spans@)),
{
    let mut r = String::new();
    let mut i: usize = 0;
    while i < spans.len()
        invariant
            i <= spans.len(),
            r@ == plain_text(spans_view(spans@).take(i as int)),
        decreases spans.len() - i,
    {
        proof {
            let all = spans_view(spans@);
            assert(all.take(i + 1).drop_last() =~= all.take(i as int));
            assert(all.take(i + 1).last() == spans@[i as int]@);
        }
        r.append(spans[i].text.as_str());
        i += 1;
    }
    proof {
        assert(spans_view(spans@).take(i as int) =~= spans_view(spans@));
    }
    r
}

impl Whatdo {
    /// The full form of the task, in pieces.
    pub fn display_spans(&self) -> (r: Vec<Span>)
        ensures
            spans_view(r@) == display(self@),
    {
        let mut r: Vec<Span> = Vec::new();
        proof {
            reveal_strlit("[");
            reveal_strlit("]");
            reveal_strlit(" [P");
            reveal_strlit(" [");
            reveal_strlit(",");
            reveal_strlit(" ");
            assert("["@ =~= seq!['[']);
            assert("]"@ =~= seq![']']);
            assert(" [P"@ =~= seq![' ', '[', 'P']);
            assert(" ["@ =~= seq![' ', '[']);
            assert(","@ =~= seq![',']);
            assert(" "@ =~= seq![' ']);
        }
        put(&mut r, plain_span("["));
        put(&mut r, span(Style::Yellow, self.id.clone()));
        put(&mut r, plain_span("]"));
        let ghost head = spans_view(r@);
        proof {
            assert(head =~= seq![
                plain(seq!['[']),
                SpanView { style: Style::Yellow, text: self@.id },
                plain(seq![']']),
            ]);
        }
        if let Some(p) = self.priority {
            put(&mut r, plain_span(" [P"));
            put(&mut r, span(Style::Bold, decimal(p)));
            put(&mut r, plain_span("]"));
        }
        let ghost with_priority = spans_view(r@);
        proof {
            assert(with_priority =~= head + (match self@.priority {
                Some(p) => seq![
                    plain(seq![' ', '[', 'P']),
                    SpanView { style: Style::Bold, text: decimal_text(p as int) },
                    plain(seq![']']),
                ],
                None => Seq::empty(),
            }));
        }
        if let Some(tags) = &self.tags {
            put(&mut r, plain_span(" ["));
            let ghost tag_texts = self@.tags->0;
            let ghost opened = spans_view(r@);
            proof {
                assert(opened =~= with_priority + seq![plain(seq![' ', '['])]);
            }
            let mut i: usize = 0;
            while i < tags.len()
                invariant
                    i <= tags.len(),
                    tag_texts.len() == tags@.len(),
                    forall|j: int| 0 <= j < tags@.len() ==> tag_texts[j] == tags@[j]@,
                    spans_view(r@) == opened + tag_spans(tag_texts, i as nat),
                    ","@ == seq![','],
                decreases tags.len() - i,
            {
                let ghost earlier = tag_spans(tag_texts, i as nat);
                let ghost tag = plain(tag_texts[i as int]);
                put(&mut r, plain_span(tags[i].as_str()));
                proof {
                    assert((opened + earlier).push(tag) =~= opened + earlier.push(tag));
                }
                if i > 0 {
                    put(&mut r, plain_span(","));
                    proof {
                        assert((opened + earlier.push(tag)).push(plain(seq![','])) =~= opened
                            + earlier.push(tag).push(plain(seq![','])));
                    }
                }
                i += 1;
            }
            let ghost listed = tag_spans(tag_texts, tag_texts.len());
            put(&mut r, plain_span("]"));
            proof {
                assert(spans_view(r@) =~= (opened + listed).push(plain(seq![']'])));
                assert(spans_view(r@) =~= with_priority + (seq![plain(seq![' ', '['])] + tag_spans(
                    tag_texts,
                    tag_texts.len(),
                ) + seq![plain(seq![']'])]));
            }
        }
        let ghost with_tags = spans_view(r@);
        proof {
            assert(with_tags =~= with_priority + (match self@.tags {
                Some(tags) => seq![plain(seq![' ', '['])] + tag_spans(tags, tags.len()) + seq![
                    plain(seq![']']),
                ],
                None => Seq::empty(),
            }));
        }
        let summary = self.summary();
        put(&mut r, span(Style::Plain, joined(" ", summary.as_str())));
        proof {
            assert(spans_view(r@) =~= with_tags + seq![
                plain(seq![' '] + self@.effective_summary()),
            ]);
        }
        r
    }

    /// The full form of the task as plain text.
    pub fn display(&self) -> (r: String)
        ensures
            r@ == plain_text(display(self@)),
    {
        let spans = self.display_spans();
        text_of(&spans)
    }
}

/// A line of context: the identifier alone, in brackets, dimmed, behind
/// `width` marks of depth.
pub open spec fn context_line(id: Seq<char>, width: int) -> Seq<SpanView> {
    seq![
        SpanView {
            style: Style::Dimmed,
            text: repeated('>', width) + seq!['['] + id + seq![']'],
        },
    ]
}

/// The line of a task that the filter accepts: its full form behind `width`
/// marks of depth.
pub open spec fn match_line(task: WhatdoView, width: int) -> Seq<SpanView> {
    seq![plain(repeated('>', width))] + display(task)
}

/// The lines of context for the tasks in `path`, which stand directly above
/// a task at depth `level`: the shallowest first.
pub open spec fn flushed(path: Seq<Seq<char>>, level: nat) -> Seq<Seq<SpanView>> {
    Seq::new(path.len(), |i: int| context_line(path[i], level - (path.len() - i) - 1))
}

/// The lines that `node` and all below it give, and the path of tasks not
/// yet printed that is left behind.
///
/// `path` names the tasks above `node` that are held back until something
/// below them is printed; `level` is the depth of `node`, and `above` says
/// whether a task above it was accepted. The task whose identifier is
/// `root_id` is walked, never printed.
pub open spec fn walk(
    root_id: Seq<char>,
    pred: spec_fn(WhatdoView) -> bool,
    transitive: bool,
    node: WhatdoView,
    path: Seq<Seq<char>>,
    level: nat,
    above: bool,
) -> (Seq<Seq<SpanView>>, Seq<Seq<char>>)
    decreases node.height(), 1int, 0int,
{
    let direct = pred(node);
    let shown = direct || (transitive && above);
    let own = if node.id == root_id {
        (Seq::empty(), path)
    } else if direct {
        (flushed(path, level).push(match_line(node, level - 1)), Seq::empty())
    } else if shown {
        (flushed(path, level).push(context_line(node.id, level - 1)), Seq::empty())
    } else {
        (Seq::empty(), path.push(node.id))
    };
    let below = walk_children(root_id, pred, transitive, node, 0, own.1, level + 1, shown);
    let left = if below.1.len() > 0 && below.1.last() == node.id {
        below.1.drop_last()
    } else {
        below.1
    };
    (own.0 + below.0, left)
}

/// The part of [`walk`] that the children of `node` from `from` on give;
/// `level` is their depth.
pub open spec fn walk_children(
    root_id: Seq<char>,
    pred: spec_fn(WhatdoView) -> bool,
    transitive: bool,
    node: WhatdoView,
    from: int,
    path: Seq<Seq<char>>,
    level: nat,
    above: bool,
) -> (Seq<Seq<SpanView>>, Seq<Seq<char>>)
    decreases node.height(), 0int, node.children().len() - from,
{
    if 0 <= from < node.children().len() {
        proof {
            lemma_child_height(node, from);
        }
        let first = walk(root_id, pred, transitive, node.children()[from], path, level, above);
        let rest = walk_children(
            root_id,
            pred,
            transitive,
            node,
            from + 1,
            first.1,
            level,
            above,
        );
        (first.0 + rest.0, rest.1)
    } else {
        (Seq::empty(), path)
    }
}

/// The lines of the view of a whole tree.
pub open spec fn tree_lines(
    root: WhatdoView,
    pred: spec_fn(WhatdoView) -> bool,
    transitive: bool,
) -> Seq<Seq<SpanView>> {
    walk(root.id, pred, transitive, root, Seq::empty(), 0, false).0
}

/// `a` is the beginning of `b`.
pub open spec fn is_beginning<T>(a: Seq<T>, b: Seq<T>) -> bool {
    a.len() <= b.len() && a == b.take(a.len() as int)
}

/// The path that a walk leaves behind is the beginning of the path it was
/// given.
pub proof fn lemma_walk_path(
    root_id: Seq<char>,
    pred: spec_fn(WhatdoView) -> bool,
    transitive: bool,
    node: WhatdoView,
    path: Seq<Seq<char>>,
    level: nat,
    above: bool,
)
    ensures
        is_beginning(walk(root_id, pred, transitive, node, path, level, above).1, path),
    decreases node.height(), 1int, 0int,
{
    let direct = pred(node);
    let shown = direct || (transitive && above);
    let own: (Seq<Seq<SpanView>>, Seq<Seq<char>>) = if node.id == root_id {
        (Seq::empty(), path)
    } else if direct {
        (flushed(path, level).push(match_line(node, level - 1)), Seq::empty())
    } else if shown {
        (flushed(path, level).push(context_line(node.id, level - 1)), Seq::empty())
    } else {
        (Seq::empty(), path.push(node.id))
    };
    let below = walk_children(root_id, pred, transitive, node, 0, own.1, level + 1, shown);
    lemma_walk_children_path(root_id, pred, transitive, node, 0, own.1, level + 1, shown);
    let left = walk(root_id, pred, transitive, node, path, level, above).1;
    let n = left.len() as int;
    if node.id == root_id {
        assert(left =~= path.take(n));
    } else if shown {
        assert(below.1 =~= Seq::<Seq<char>>::empty());
        assert(left =~= path.take(n));
    } else {
        if below.1.len() == own.1.len() {
            assert(below.1 =~= own.1);
            assert(left =~= path);
            assert(left =~= path.take(n));
        } else {
            assert(below.1 =~= path.take(below.1.len() as int));
            assert(left =~= path.take(n));
        }
    }
}

/// The children's part of [`lemma_walk_path`].
pub proof fn lemma_walk_children_path(
    root_id: Seq<char>,
    pred: spec_fn(WhatdoView) -> bool,
    transitive: bool,
    node: WhatdoView,
    from: int,
    path: Seq<Seq<char>>,
    level: nat,
    above: bool,
)
    ensures
        is_beginning(
            walk_children(root_id, pred, transitive, node, from, path, level, above).1,
            path,
        ),
    decreases node.height(), 0int, node.children().len() - from,
{
    if 0 <= from < node.children().len() {
        lemma_child_height(node, from);
        let first = walk(root_id, pred, transitive, node.children()[from], path, level, above);
        lemma_walk_path(root_id, pred, transitive, node.children()[from], path, level, above);
        lemma_walk_children_path(
            root_id,
            pred,
            transitive,
            node,
            from + 1,
            first.1,
            level,
            above,
        );
        let last = walk_children(root_id, pred, transitive, node, from, path, level, above).1;
        assert(last =~= path.take(last.len() as int));
    } else {
        assert(path =~= path.take(path.len() as int));
    }
}

/// `lines` as plain text, each line ended by a line feed.
pub open spec fn rendered(lines: Seq<Seq<SpanView>>) -> Seq<char>
    decreases lines.len(),
{
    if lines.len() == 0 {
        Seq::empty()
    } else {
        rendered(lines.drop_last()) + plain_text(lines.last()) + seq!['\n']
    }
}

/// `lines` as plain text, each line ended by a line feed.
pub fn text_of_lines(lines: &Vec<Vec<Span>>) -> (r: String)
    ensures
        r@ == rendered(lines_view(lines@)),
{
    let mut r = String::new();
    let mut i: usize = 0;
    while i < lines.len()
        invariant
            i <= lines.len(),
            r@ == rendered(lines_view(lines@).take(i as int)),
        decreases lines.len() - i,
    {
        proof {
            let all = lines_view(lines@);
            assert(all.take(i + 1).drop_last() =~= all.take(i as int));
            assert(all.take(i + 1).last() == spans_view(lines@[i as int]@));
        }
        let line = text_of(&lines[i]);
        r.append(line.as_str());
        r.push('\n');
        i += 1;
    }
    proof {
        assert(lines_view(lines@).take(i as int) =~= lines_view(lines@));
    }
    r
}

/// A view of a tree that shows the tasks a filter accepts, each below the
/// tasks that lead to it.
pub struct WhatdoTreeView<F: Fn(&Whatdo) -> bool> {
    pub root: Whatdo,
    pub filter: F,
    /// Whether the tasks below an accepted task are shown too.
    pub transitive: bool,
}

fn context(width: usize, id: &str) -> (line: Vec<Span>)
    ensures
        spans_view(line@) == context_line(id@, width as int),
{
    let mut text = repeat_char('>', width);
    text.push('[');
    text.append(id);
    text.push(']');
    let mut line: Vec<Span> = Vec::new();
    put(&mut line, span(Style::Dimmed, text));
    proof {
        assert(text@ =~= repeated('>', width as int) + seq!['['] + id@ + seq![']']);
        assert(spans_view(line@) =~= context_line(id@, width as int));
    }
    line
}

fn put_line(out: &mut Vec<Vec<Span>>, line: Vec<Span>)
    ensures
        lines_view(final(out)@) == lines_view(old(out)@).push(spans_view(line@)),
{
    out.push(line);
    proof {
        assert(lines_view(out@) =~= lines_view(old(out)@).push(spans_view(line@)));
    }
}

impl<F: Fn(&Whatdo) -> bool> WhatdoTreeView<F> {
    /// Puts the lines for `whatdo` and all below it behind `out`.
    ///
    /// `indent` holds one mark for each level of `whatdo`'s depth;
    /// `unprinted_path` names the tasks above it that are held back.
    fn fmt_rec(
        &self,
        out: &mut Vec<Vec<Span>>,
        whatdo: &Whatdo,
        unprinted_path: &mut Vec<String>,
        indent: &str,
        ancestor_satisfied_filter: bool,
    )
        requires
            total(&self.filter),
            indent@ == repeated('>', indent@.len() as int),
            old(unprinted_path)@.len() <= indent@.len(),
            whatdo@.id != self.root@.id ==> old(unprinted_path)@.len() < indent@.len(),
        ensures
            forall|model: spec_fn(WhatdoView) -> bool| #[trigger]
                follows(&self.filter, model) ==> {
                    &&& lines_view(final(out)@) == lines_view(old(out)@) + walk(
                        self.root@.id,
                        model,
                        self.transitive,
                        whatdo@,
                        texts(old(unprinted_path)@),
                        indent@.len(),
                        ancestor_satisfied_filter,
                    ).0
                    &&& texts(final(unprinted_path)@) == walk(
                        self.root@.id,
                        model,
                        self.transitive,
                        whatdo@,
                        texts(old(unprinted_path)@),
                        indent@.len(),
                        ancestor_satisfied_filter,
                    ).1
                },
            is_beginning(texts(final(unprinted_path)@), texts(old(unprinted_path)@)),
            is_beginning(lines_view(old(out)@), lines_view(final(out)@)),
        decreases whatdo@.height(),
    {
        let satisfies_filter = (self.filter)(whatdo);
        let transitively_satisfies_filter = satisfies_filter || (self.transitive
            && ancestor_satisfied_filter);
        let level = indent.unicode_len();
        let ghost node = whatdo@;
        let ghost root_id = self.root@.id;
        let ghost path = texts(unprinted_path@);
        let ghost start = lines_view(out@);
        if !(whatdo.id == self.root.id) {
            if transitively_satisfies_filter {
                let mut i: usize = 0;
                while i < unprinted_path.len()
                    invariant
                        i <= unprinted_path@.len(),
                        unprinted_path@.len() < level,
                        unprinted_path@ == old(unprinted_path)@,
                        path == texts(unprinted_path@),
                        lines_view(out@) == start + flushed(path, level as nat).take(i as int),
                    decreases unprinted_path.len() - i,
                {
                    let width = level - (unprinted_path.len() - i) - 1;
                    let line = context(width, unprinted_path[i].as_str());
                    put_line(out, line);
                    i += 1;
                    proof {
                        let all = flushed(path, level as nat);
                        assert(all.take(i as int) =~= all.take(i - 1).push(all[i - 1]));
                        assert(lines_view(out@) =~= start + all.take(i as int));
                    }
                }
                proof {
                    let all = flushed(path, level as nat);
                    assert(all.take(i as int) =~= all);
                }
                unprinted_path.clear();
                proof {
                    assert(texts(unprinted_path@) =~= Seq::<Seq<char>>::empty());
                }
            }
            if satisfies_filter {
                let mut line: Vec<Span> = Vec::new();
                put(&mut line, span(Style::Plain, repeat_char('>', level - 1)));
                let mut rest = whatdo.display_spans();
                proof {
                    assert(spans_view(line@ + rest@) =~= spans_view(line@) + spans_view(rest@));
                    assert(spans_view(line@) =~= seq![plain(repeated('>', level - 1))]);
                    assert(spans_view(line@ + rest@) =~= match_line(node, level - 1));
                }
                line.append(&mut rest);
                put_line(out, line);
            } else if transitively_satisfies_filter {
                let line = context(level - 1, whatdo.id.as_str());
                put_line(out, line);
            } else {
                unprinted_path.push(whatdo.id.clone());
                proof {
                    assert(texts(unprinted_path@) =~= path.push(node.id));
                    assert(lines_view(out@) =~= start + Seq::<Seq<SpanView>>::empty());
                }
            }
        } else {
            proof {
                assert(lines_view(out@) =~= start + Seq::<Seq<SpanView>>::empty());
            }
        }
        let ghost own_path = texts(unprinted_path@);
        let ghost own_lines = lines_view(out@);
        proof {
            reveal_strlit(">");
            lemma_view_children(*whatdo);
            assert(own_path == path || own_path == path.push(node.id) || own_path
                == Seq::<Seq<char>>::empty());
            assert(start =~= own_lines.take(start.len() as int));
            assert(own_path =~= own_path.take(own_path.len() as int));
            assert(own_lines =~= own_lines.take(own_lines.len() as int));
        }
        let deeper = joined(indent, ">");
        proof {
            assert(deeper@ =~= repeated('>', level + 1));
            assert(deeper@.len() == level + 1);
        }
        if let Some(kids) = &whatdo.whatdos {
            let mut k: usize = 0;
            while k < kids.len()
                invariant
                    k <= kids.len(),
                    total(&self.filter),
                    node == whatdo@,
                    root_id == self.root@.id,
                    node.children() == whatdos_view(kids@),
                    deeper@ == repeated('>', deeper@.len() as int),
                    deeper@.len() == level + 1,
                    unprinted_path@.len() <= level,
                    is_beginning(texts(unprinted_path@), own_path),
                    forall|model: spec_fn(WhatdoView) -> bool| #[trigger]
                        follows(&self.filter, model) ==> {
                            &&& walk_children(
                                root_id,
                                model,
                                self.transitive,
                                node,
                                0,
                                own_path,
                                (level + 1) as nat,
                                transitively_satisfies_filter,
                            ).0 == lines_view(out@).skip(own_lines.len() as int) + walk_children(
                                root_id,
                                model,
                                self.transitive,
                                node,
                                k as int,
                                texts(unprinted_path@),
                                (level + 1) as nat,
                                transitively_satisfies_filter,
                            ).0
                            &&& walk_children(
                                root_id,
                                model,
                                self.transitive,
                                node,
                                0,
                                own_path,
                                (level + 1) as nat,
                                transitively_satisfies_filter,
                            ).1 == walk_children(
                                root_id,
                                model,
                                self.transitive,
                                node,
                                k as int,
                                texts(unprinted_path@),
                                (level + 1) as nat,
                                transitively_satisfies_filter,
                            ).1
                        },
                    is_beginning(own_lines, lines_view(out@)),
                decreases kids.len() - k,
            {
                let ghost before = lines_view(out@);
                let ghost path_before = texts(unprinted_path@);
                proof {
                    lemma_child_height(node, k as int);
                    assert(node.children()[k as int] == kids@[k as int]@);
                }
                self.fmt_rec(
                    out,
                    &kids[k],
                    unprinted_path,
                    deeper.as_str(),
                    transitively_satisfies_filter,
                );
                proof {
                    let n = own_lines.len() as int;
                    let after = lines_view(out@);
                    assert forall|model: spec_fn(WhatdoView) -> bool| #[trigger]
                        follows(&self.filter, model) implies {
                        &&& walk_children(
                            root_id,
                            model,
                            self.transitive,
                            node,
                            0,
                            own_path,
                            (level + 1) as nat,
                            transitively_satisfies_filter,
                        ).0 == after.skip(n) + walk_children(
                            root_id,
                            model,
                            self.transitive,
                            node,
                            k + 1,
                            texts(unprinted_path@),
                            (level + 1) as nat,
                            transitively_satisfies_filter,
                        ).0
                        &&& walk_children(
                            root_id,
                            model,
                            self.transitive,
                            node,
                            0,
                            own_path,
                            (level + 1) as nat,
                            transitively_satisfies_filter,
                        ).1 == walk_children(
                            root_id,
                            model,
                            self.transitive,
                            node,
                            k + 1,
                            texts(unprinted_path@),
                            (level + 1) as nat,
                            transitively_satisfies_filter,
                        ).1
                    } by {
                        let first = walk(
                            root_id,
                            model,
                            self.transitive,
                            kids@[k as int]@,
                            path_before,
                            (level + 1) as nat,
                            transitively_satisfies_filter,
                        );
                        let rest = walk_children(
                            root_id,
                            model,
                            self.transitive,
                            node,
                            k + 1,
                            first.1,
                            (level + 1) as nat,
                            transitively_satisfies_filter,
                        );
                        assert((before + first.0).skip(n) =~= before.skip(n) + first.0);
                        assert(before.skip(n) + (first.0 + rest.0) =~= (before.skip(n) + first.0)
                            + rest.0);
                    }
                    assert(own_lines =~= after.take(n)) by {
                        assert(before == after.take(before.len() as int));
                        assert(own_lines == before.take(n));
                    }
                    let held = texts(unprinted_path@);
                    assert(held =~= own_path.take(held.len() as int)) by {
                        assert(held == path_before.take(held.len() as int));
                        assert(path_before == own_path.take(path_before.len() as int));
                    }
                }
                k += 1;
            }
            proof {
                let all = lines_view(out@);
                let n = own_lines.len() as int;
                assert(all =~= all.take(n) + all.skip(n));
            }
        } else {
            proof {
                assert(lines_view(out@) =~= own_lines + Seq::<Seq<SpanView>>::empty());
                assert(own_lines =~= own_lines.take(own_lines.len() as int));
            }
        }
        let ghost held = texts(unprinted_path@);
        proof {
            assert(start =~= lines_view(out@).take(start.len() as int)) by {
                assert(own_lines == lines_view(out@).take(own_lines.len() as int));
                assert(start == own_lines.take(start.len() as int));
            }
        }
        let n = unprinted_path.len();
        if n > 0 && unprinted_path[n - 1] == whatdo.id {
            unprinted_path.pop();
            proof {
                assert(held.last() == node.id);
                assert(texts(unprinted_path@) =~= held.drop_last());
            }
        } else {
            proof {
                if n > 0 {
                    assert(held.last() == unprinted_path@[n - 1]@);
                }
            }
        }
        proof {
            let left = texts(unprinted_path@);
            if own_path == path.push(node.id) && held.len() == own_path.len() {
                assert(held =~= own_path);
                assert(left =~= path);
            }
            assert(left =~= path.take(left.len() as int));
        }
    }

    /// The view as plain text.
    pub fn render(&self) -> (r: String)
        requires
            total(&self.filter),
        ensures
            forall|model: spec_fn(WhatdoView) -> bool| #[trigger]
                follows(&self.filter, model) ==> r@ == rendered(
                    tree_lines(self.root@, model, self.transitive),
                ),
    {
        let lines = self.lines();
        text_of_lines(&lines)
    }

    /// The lines of the view, each in pieces. Whatever the filter computes,
    /// the lines are the view for that.
    pub fn lines(&self) -> (r: Vec<Vec<Span>>)
        requires
            total(&self.filter),
        ensures
            forall|model: spec_fn(WhatdoView) -> bool| #[trigger]
                follows(&self.filter, model) ==> lines_view(r@) == tree_lines(
                    self.root@,
                    model,
                    self.transitive,
                ),
    {
        let mut out: Vec<Vec<Span>> = Vec::new();
        let mut unprinted_path: Vec<String> = Vec::new();
        proof {
            reveal_strlit("");
            assert(""@ =~= repeated('>', 0));
            assert(texts(unprinted_path@) =~= Seq::<Seq<char>>::empty());
            assert(lines_view(out@) =~= Seq::<Seq<SpanView>>::empty());
        }
        self.fmt_rec(&mut out, &self.root, &mut unprinted_path, "", false);
        proof {
            assert forall|model: spec_fn(WhatdoView) -> bool| #[trigger]
                follows(&self.filter, model) implies lines_view(out@) == tree_lines(
                self.root@,
                model,
                self.transitive,
            ) by {
                let w = walk(
                    self.root@.id,
                    model,
                    self.transitive,
                    self.root@,
                    Seq::empty(),
                    0,
                    false,
                );
                assert(Seq::<Seq<SpanView>>::empty() + w.0 =~= w.0);
            }
        }
        out
    }
}

} // verus!
