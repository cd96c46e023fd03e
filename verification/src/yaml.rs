use vstd::prelude::*;

verus! {

/// A YAML value, as far as a task document is made of it.
#[derive(Debug, PartialEq, Eq)]
pub enum Yaml {
    Null,
    Bool(bool),
    /// A number that is a 64-bit integer.
    Integer(i64),
    /// Any other number.
    Number,
    String(String),
    Sequence(Vec<Yaml>),
    /// A mapping: its entries, key and value, in the order of the document.
    Mapping(Vec<(Yaml, Yaml)>),
    /// A value with a tag of its own.
    Tagged,
}

/// The mathematical value of a [`Yaml`].
pub enum YamlView {
    Null,
    Bool(bool),
    Integer(i64),
    Number,
    String(Seq<char>),
    Sequence(Seq<YamlView>),
    Mapping(Seq<(YamlView, YamlView)>),
    Tagged,
}

impl View for Yaml {
    type V = YamlView;

    open spec fn view(&self) -> YamlView
        decreases self, 0nat,
    {
        match *self {
            Yaml::Null => YamlView::Null,
            Yaml::Bool(b) => YamlView::Bool(b),
            Yaml::Integer(n) => YamlView::Integer(n),
            Yaml::Number => YamlView::Number,
            Yaml::String(s) => YamlView::String(s@),
            Yaml::Sequence(items) => YamlView::Sequence(first_items(items@, items@.len())),
            Yaml::Mapping(entries) => YamlView::Mapping(first_entries(entries@, entries@.len())),
            Yaml::Tagged => YamlView::Tagged,
        }
    }
}

/// The values of the first `n` of `items`.
pub open spec fn first_items(items: Seq<Yaml>, n: nat) -> Seq<YamlView>
    decreases items, n,
{
    if 0 < n <= items.len() {
        first_items(items, (n - 1) as nat).push(items[n - 1].view())
    } else {
        Seq::empty()
    }
}

/// The values of the first `n` of `entries`.
pub open spec fn first_entries(entries: Seq<(Yaml, Yaml)>, n: nat) -> Seq<(YamlView, YamlView)>
    decreases entries, n,
{
    if 0 < n <= entries.len() {
        first_entries(entries, (n - 1) as nat).push(
            (entries[n - 1].0.view(), entries[n - 1].1.view()),
        )
    } else {
        Seq::empty()
    }
}

/// The values of a list of YAML values.
pub open spec fn items_view(items: Seq<Yaml>) -> Seq<YamlView> {
    Seq::new(items.len(), |i: int| items[i]@)
}

/// The values of a list of entries.
pub open spec fn entries_view(entries: Seq<(Yaml, Yaml)>) -> Seq<(YamlView, YamlView)> {
    Seq::new(entries.len(), |i: int| (entries[i].0@, entries[i].1@))
}

proof fn lemma_first_items(items: Seq<Yaml>, n: nat)
    requires
        n <= items.len(),
    ensures
        first_items(items, n).len() == n,
        forall|i: int| 0 <= i < n ==> first_items(items, n)[i] == items[i]@,
    decreases n,
{
    if n > 0 {
        lemma_first_items(items, (n - 1) as nat);
        let prev = first_items(items, (n - 1) as nat);
        assert(first_items(items, n) == prev.push(items[n - 1].view()));
        assert(prev.len() == n - 1);
    }
}

proof fn lemma_first_entries(entries: Seq<(Yaml, Yaml)>, n: nat)
    requires
        n <= entries.len(),
    ensures
        first_entries(entries, n).len() == n,
        forall|i: int|
            0 <= i < n ==> first_entries(entries, n)[i] == (entries[i].0@, entries[i].1@),
    decreases n,
{
    if n > 0 {
        lemma_first_entries(entries, (n - 1) as nat);
        let prev = first_entries(entries, (n - 1) as nat);
        assert(first_entries(entries, n) == prev.push(
            (entries[n - 1].0.view(), entries[n - 1].1.view()),
        ));
        assert(prev.len() == n - 1);
    }
}

/// The value of a sequence holds the values of its items, and the value of
/// a mapping those of its entries.
pub proof fn lemma_view_parts(doc: Yaml)
    ensures
        doc matches Yaml::Sequence(items) ==> doc@ == YamlView::Sequence(items_view(items@)),
        doc matches Yaml::Mapping(entries) ==> doc@ == YamlView::Mapping(entries_view(entries@)),
{
    match doc {
        Yaml::Sequence(items) => {
            lemma_first_items(items@, items@.len());
            assert(first_items(items@, items@.len()) =~= items_view(items@));
        },
        Yaml::Mapping(entries) => {
            lemma_first_entries(entries@, entries@.len());
            assert(first_entries(entries@, entries@.len()) =~= entries_view(entries@));
        },
        _ => {},
    }
}

impl YamlView {
    /// Whether the value is one that a YAML reader yields: in every mapping,
    /// no key that is a string stands twice.
    pub open spec fn well_formed(self) -> bool
        decreases self,
    {
        match self {
            YamlView::Sequence(items) => forall|i: int|
                0 <= i < items.len() ==> (#[trigger] items[i]).well_formed(),
            YamlView::Mapping(entries) => {
                &&& forall|i: int|
                    0 <= i < entries.len() ==> (#[trigger] entries[i]).0.well_formed()
                        && entries[i].1.well_formed()
                &&& forall|i: int, j: int|
                    0 <= i < entries.len() && 0 <= j < entries.len() && i != j && (
                    #[trigger] entries[i]).0 is String ==> entries[i].0 != (
                    #[trigger] entries[j]).0
            },
            _ => true,
        }
    }

    /// Whether the value can be written out: it holds no number other than
    /// 64-bit integers and no tagged value.
    pub open spec fn plain(self) -> bool
        decreases self,
    {
        match self {
            YamlView::Number => false,
            YamlView::Tagged => false,
            YamlView::Sequence(items) => forall|i: int|
                0 <= i < items.len() ==> (#[trigger] items[i]).plain(),
            YamlView::Mapping(entries) => forall|i: int|
                0 <= i < entries.len() ==> (#[trigger] entries[i]).0.plain() && entries[i].1.plain(),
            _ => true,
        }
    }
}

/// `serde_yaml::Value`, taken as it is: nothing is said of what it holds.
#[verifier::external_type_specification]
#[verifier::external_body]
pub struct ExValue(serde_yaml::Value);

/// What `serde_yaml::from_str` makes of a text, read as a `serde_yaml::Value`:
/// the value, or the message of the error.
pub uninterp spec fn yaml_document(text: Seq<char>) -> Result<YamlView, Seq<char>>;

/// What `serde_yaml::to_string` makes of a value: the text, or the message
/// of the error.
pub uninterp spec fn yaml_text(doc: YamlView) -> Result<Seq<char>, Seq<char>>;

/// Turns a `serde_yaml::Value` into a [`Yaml`], variant by variant; of a
/// number it keeps what `Number::as_i64` gives. The contract claims that
/// the keys of a `serde_yaml::Mapping` are distinct.
#[verifier::external_body]
fn from_value(value: &serde_yaml::Value) -> (doc: Yaml)
    ensures
        doc@.well_formed(),
{
    match value {
        serde_yaml::Value::Null => Yaml::Null,
        serde_yaml::Value::Bool(b) => Yaml::Bool(*b),
        serde_yaml::Value::Number(n) => n.as_i64().map_or(Yaml::Number, Yaml::Integer),
        serde_yaml::Value::String(s) => Yaml::String(s.clone()),
        serde_yaml::Value::Sequence(s) => Yaml::Sequence(s.iter().map(from_value).collect()),
        serde_yaml::Value::Mapping(m) => Yaml::Mapping(
            m.iter().map(|(k, v)| (from_value(k), from_value(v))).collect(),
        ),
        serde_yaml::Value::Tagged(_) => Yaml::Tagged,
    }
}

/// Turns a [`Yaml`] into a `serde_yaml::Value`, variant by variant.
#[verifier::external_body]
fn to_value(doc: &Yaml) -> (value: serde_yaml::Value)
    requires
        doc@.plain(),
{
    match doc {
        Yaml::Bool(b) => serde_yaml::Value::Bool(*b),
        Yaml::Integer(n) => serde_yaml::Value::Number(serde_yaml::Number::from(*n)),
        Yaml::String(s) => serde_yaml::Value::String(s.clone()),
        Yaml::Sequence(s) => serde_yaml::Value::Sequence(s.iter().map(to_value).collect()),
        Yaml::Mapping(m) => serde_yaml::Value::Mapping(
            m.iter().map(|(k, v)| (to_value(k), to_value(v))).collect(),
        ),
        Yaml::Null | Yaml::Number | Yaml::Tagged => serde_yaml::Value::Null,
    }
}

/// Reads a text with `serde_yaml::from_str`; the contract gives the outcome
/// its name and claims that a value read is well formed.
#[verifier::external_body]
pub(crate) fn read_yaml(text: &str) -> (r: Result<Yaml, String>)
    ensures
        match r {
            Ok(doc) => yaml_document(text@) == Ok::<YamlView, Seq<char>>(doc@) && doc@.well_formed(),
            Err(message) => yaml_document(text@) == Err::<YamlView, Seq<char>>(message@),
        },
{
    match serde_yaml::from_str::<serde_yaml::Value>(text) {
        Ok(value) => Ok(from_value(&value)),
        Err(e) => Err(e.to_string()),
    }
}

/// Writes a value with `serde_yaml::to_string`; the contract gives the
/// outcome its name.
#[verifier::external_body]
pub(crate) fn write_yaml(doc: &Yaml) -> (r: Result<String, String>)
    requires
        doc@.plain(),
    ensures
        match r {
            Ok(text) => yaml_text(doc@) == Ok::<Seq<char>, Seq<char>>(text@),
            Err(message) => yaml_text(doc@) == Err::<Seq<char>, Seq<char>>(message@),
        },
{
    match serde_yaml::to_string(&to_value(doc)) {
        Ok(text) => Ok(text),
        Err(e) => Err(e.to_string()),
    }
}

} // verus!
