use crate::text::{chars_of, to_uppercase, uppercase};
use vstd::prelude::*;
use vstd::string::StringExecFns;

verus! {

/// A task: a node of the tree of things to do.
#[derive(Debug, PartialEq, Eq)]
pub struct Whatdo {
    /// The name of the task, one in the whole tree.
    pub id: String,
    /// What the task is about; see [`Whatdo::summary`].
    pub summary: Option<String>,
    /// The tasks that this one is made of, which it owns.
    pub whatdos: Option<Vec<Whatdo>>,
    /// Identifiers of tasks below this one, in the order in which they are
    /// to be worked on before all others.
    pub queue: Option<Vec<String>>,
    /// The lower the number, the earlier the task is worked on.
    pub priority: Option<i64>,
    pub tags: Option<Vec<String>>,
    /// The branch tied to the task, where it is not named like the task;
    /// see [`Whatdo::branch_name`].
    pub branch_name: Option<String>,
    /// Whether the task is written in the one-line form where it can be;
    /// see [`Whatdo::simple_format`].
    pub simple_format: bool,
}

/// The mathematical value of a task: every string a sequence of characters,
/// every list a sequence.
pub struct WhatdoView {
    pub id: Seq<char>,
    pub summary: Option<Seq<char>>,
    pub whatdos: Option<Seq<WhatdoView>>,
    pub queue: Option<Seq<Seq<char>>>,
    pub priority: Option<i64>,
    pub tags: Option<Seq<Seq<char>>>,
    pub branch_name: Option<Seq<char>>,
    pub simple_format: bool,
}

impl WhatdoView {
    /// The children, none where the list is absent.
    pub open spec fn children(self) -> Seq<WhatdoView> {
        match self.whatdos {
            Some(kids) => kids,
            None => Seq::empty(),
        }
    }

    /// The summary to show: the stored one, or else one made from the identifier.
    pub open spec fn effective_summary(self) -> Seq<char> {
        match self.summary {
            Some(text) => text,
            None => deslugified(self.id),
        }
    }

    /// The name by which a branch is tied to the task: the stored one, or else
    /// the identifier.
    pub open spec fn reference_name(self) -> Seq<char> {
        match self.branch_name {
            Some(name) => name,
            None => self.id,
        }
    }

    /// The number of levels of tasks below this one.
    pub open spec fn height(self) -> nat
        decreases self, 0nat,
    {
        match self.whatdos {
            Some(kids) => 1 + tallest(kids, kids.len()),
            None => 0,
        }
    }

    /// Whether the task may be written in the one-line form: it is marked so
    /// and holds nothing but, at most, a summary.
    pub open spec fn terse(self) -> bool {
        &&& self.simple_format
        &&& self.queue is None
        &&& self.whatdos is None
        &&& self.priority is None
        &&& self.tags is None
        &&& self.branch_name is None
    }
}

/// The greatest height among the first `n` of `tasks`.
pub open spec fn tallest(tasks: Seq<WhatdoView>, n: nat) -> nat
    decreases tasks, n,
{
    if 0 < n <= tasks.len() {
        let rest = tallest(tasks, (n - 1) as nat);
        let last = tasks[n - 1].height();
        if rest < last {
            last
        } else {
            rest
        }
    } else {
        0
    }
}

/// None of the first `n` of `tasks` is higher than the highest of them.
pub proof fn lemma_tallest(tasks: Seq<WhatdoView>, n: nat, i: int)
    requires
        0 <= i < n <= tasks.len(),
    ensures
        tasks[i].height() <= tallest(tasks, n),
    decreases n,
{
    if i < n - 1 {
        lemma_tallest(tasks, (n - 1) as nat, i);
    }
}

/// A task is higher than each of its children.
pub proof fn lemma_child_height(task: WhatdoView, i: int)
    requires
        0 <= i < task.children().len(),
    ensures
        task.children()[i].height() < task.height(),
{
    lemma_tallest(task.children(), task.children().len(), i);
}

/// What one character of an identifier becomes in a summary.
pub open spec fn deslugified_char(c: char, first: bool) -> Seq<char> {
    if c == '_' || c == '-' {
        seq![' ']
    } else if first {
        uppercase(c)
    } else {
        seq![c]
    }
}

/// An identifier turned into a summary: `_` and `-` become spaces, and a
/// first character that is neither is put in upper case.
pub open spec fn deslugified(s: Seq<char>) -> Seq<char>
    decreases s.len(),
{
    if s.len() == 0 {
        Seq::empty()
    } else {
        deslugified(s.drop_last()) + deslugified_char(s.last(), s.len() == 1)
    }
}

/// An identifier turned into a summary.
pub fn deslugify(s: &str) -> (r: String)
    ensures
        r@ == deslugified(s@),
{
    let chars = chars_of(s);
    let mut result = String::new();
    let mut i: usize = 0;
    while i < chars.len()
        invariant
            i <= chars.len(),
            chars@ == s@,
            result@ == deslugified(s@.take(i as int)),
        decreases chars.len() - i,
    {
        let c = chars[i];
        proof {
            assert(s@.take(i + 1).drop_last() =~= s@.take(i as int));
        }
        if c == '_' || c == '-' {
            result.push(' ');
            proof {
                assert(result@ =~= deslugified(s@.take(i as int)) + seq![' ']);
            }
        } else if i == 0 {
            let upper = to_uppercase(c);
            result.append(upper.as_str());
        } else {
            result.push(c);
            proof {
                assert(result@ =~= deslugified(s@.take(i as int)) + seq![c]);
            }
        }
        i += 1;
    }
    proof {
        assert(s@.take(i as int) =~= s@);
    }
    result
}

/// The value of an optional string.
pub open spec fn text_view(s: Option<String>) -> Option<Seq<char>> {
    match s {
        Some(t) => Some(t@),
        None => None,
    }
}

/// The values of a list of strings.
pub open spec fn texts(list: Seq<String>) -> Seq<Seq<char>> {
    Seq::new(list.len(), |i: int| list[i]@)
}

/// The values of an optional list of strings.
pub open spec fn texts_view(s: Option<Vec<String>>) -> Option<Seq<Seq<char>>> {
    match s {
        Some(v) => Some(texts(v@)),
        None => None,
    }
}

impl View for Whatdo {
    type V = WhatdoView;

    open spec fn view(&self) -> WhatdoView
        decreases self, 0nat,
    {
        WhatdoView {
            id: self.id@,
            summary: text_view(self.summary),
            whatdos: match self.whatdos {
                Some(kids) => Some(first_views(kids@, kids@.len())),
                None => None,
            },
            queue: texts_view(self.queue),
            priority: self.priority,
            tags: texts_view(self.tags),
            branch_name: text_view(self.branch_name),
            simple_format: self.simple_format,
        }
    }
}

/// The values of the first `n` of `tasks`.
pub open spec fn first_views(tasks: Seq<Whatdo>, n: nat) -> Seq<WhatdoView>
    decreases tasks, n,
{
    if 0 < n <= tasks.len() {
        first_views(tasks, (n - 1) as nat).push(tasks[n - 1].view())
    } else {
        Seq::empty()
    }
}

/// The values of a list of tasks, in order.
pub open spec fn whatdos_view(tasks: Seq<Whatdo>) -> Seq<WhatdoView> {
    Seq::new(tasks.len(), |i: int| tasks[i]@)
}

proof fn lemma_first_views(tasks: Seq<Whatdo>, n: nat)
    requires
        n <= tasks.len(),
    ensures
        first_views(tasks, n).len() == n,
        forall|i: int| 0 <= i < n ==> first_views(tasks, n)[i] == tasks[i]@,
    decreases n,
{
    if n > 0 {
        lemma_first_views(tasks, (n - 1) as nat);
        let earlier = first_views(tasks, (n - 1) as nat);
        assert(first_views(tasks, n) == earlier.push(tasks[n - 1].view()));
        assert(earlier.len() == n - 1);
    }
}

/// The value of a task holds the values of its children.
pub proof fn lemma_view_children(wd: Whatdo)
    ensures
        wd.whatdos is None ==> wd@.whatdos is None,
        wd.whatdos matches Some(kids) ==> wd@.whatdos == Some(whatdos_view(kids@)),
{
    match wd.whatdos {
        Some(kids) => {
            lemma_first_views(kids@, kids@.len());
            assert(wd@.whatdos->0 =~= whatdos_view(kids@));
        },
        None => {},
    }
}

impl Whatdo {
    /// A task that holds only an identifier and, at most, a summary, and
    /// that may be written in the one-line form.
    pub fn simple(id: &str, summary: Option<&str>) -> (r: Whatdo)
        ensures
            r@ == (WhatdoView {
                id: id@,
                summary: match summary {
                    Some(text) => Some(text@),
                    None => None,
                },
                whatdos: None,
                queue: None,
                priority: None,
                tags: None,
                branch_name: None,
                simple_format: true,
            }),
    {
        Whatdo {
            id: id.to_owned(),
            summary: match summary {
                Some(text) => Some(text.to_owned()),
                None => None,
            },
            whatdos: None,
            queue: None,
            priority: None,
            tags: None,
            branch_name: None,
            simple_format: true,
        }
    }

    /// The summary to show.
    pub fn summary(&self) -> (r: String)
        ensures
            r@ == self@.effective_summary(),
    {
        match &self.summary {
            Some(s) => s.clone(),
            None => deslugify(self.id.as_str()),
        }
    }

    /// Copies of the children, none where the list is absent.
    pub fn whatdos(&self) -> (r: Vec<Whatdo>)
        ensures
            whatdos_view(r@) == self@.children(),
    {
        proof {
            lemma_view_children(*self);
        }
        match &self.whatdos {
            None => {
                let r: Vec<Whatdo> = Vec::new();
                proof {
                    assert(whatdos_view(r@) =~= self@.children());
                }
                r
            },
            Some(kids) => {
                let mut r: Vec<Whatdo> = Vec::new();
                let mut i: usize = 0;
                while i < kids.len()
                    invariant
                        i <= kids.len(),
                        r@.len() == i,
                        forall|j: int| 0 <= j < i ==> r@[j]@ == kids@[j]@,
                    decreases kids.len() - i,
                {
                    r.push(kids[i].copy());
                    i += 1;
                }
                proof {
                    assert(whatdos_view(r@) =~= whatdos_view(kids@));
                }
                r
            },
        }
    }

    /// Whether the task may be written in the one-line form.
    pub fn simple_format(&self) -> (b: bool)
        ensures
            b == self@.terse(),
    {
        proof {
            lemma_view_children(*self);
        }
        self.simple_format && self.queue.is_none() && self.whatdos.is_none()
            && self.priority.is_none() && self.tags.is_none() && self.branch_name.is_none()
    }

    /// The name by which a branch is tied to the task.
    pub fn branch_name(&self) -> (r: &String)
        ensures
            r@ == self@.reference_name(),
    {
        match &self.branch_name {
            Some(name) => name,
            None => &self.id,
        }
    }

    /// A deep copy: the same mathematical value in fresh storage.
    pub fn copy(&self) -> (r: Whatdo)
        ensures
            r@ == self@,
        decreases self,
    {
        let whatdos = match &self.whatdos {
            Some(v) => {
                let mut out: Vec<Whatdo> = Vec::new();
                let mut i: usize = 0;
                while i < v.len()
                    invariant
                        i <= v.len(),
                        out@.len() == i,
                        forall|j: int| 0 <= j < i ==> out@[j]@ == v@[j]@,
                        self.whatdos == Some(*v),
                    decreases v.len() - i,
                {
                    proof {
                        assert(decreases_to!(self => self.whatdos));
                        assert(decreases_to!(self.whatdos => self.whatdos->0));
                        assert(decreases_to!(*v => v[i as int]));
                    }
                    out.push(v[i].copy());
                    i += 1;
                }
                Some(out)
            },
            None => None,
        };
        let r = Whatdo {
            id: self.id.clone(),
            summary: self.summary.clone(),
            whatdos,
            queue: self.queue.clone(),
            priority: self.priority,
            tags: self.tags.clone(),
            branch_name: self.branch_name.clone(),
            simple_format: self.simple_format,
        };
        proof {
            lemma_view_children(r);
            lemma_view_children(*self);
            if self.whatdos is Some {
                assert(whatdos_view(r.whatdos->0@) =~= whatdos_view(self.whatdos->0@));
            }
            assert(r@.queue =~= self@.queue);
            assert(r@.tags =~= self@.tags);
        }
        r
    }
}

impl Clone for Whatdo {
    fn clone(&self) -> (r: Self)
        ensures
            r@ == self@,
    {
        self.copy()
    }
}

} // verus!
