//! Structured documents: the tree of plain values that manifests are read
//! as, its mathematical model, and the boundary to the YAML parser and
//! emitter.

use crate::error::Error;
use crate::util::views;
use vstd::prelude::*;
use vstd::std_specs::cmp::PartialEqSpecImpl;
use yaml_rust2::emitter::EmitError;
use yaml_rust2::scanner::ScanError;
use yaml_rust2::{Yaml, YamlEmitter, YamlLoader};

verus! {

/// Mathematical model of a structured document: a scalar, a sequence of
/// values, or a mapping held as its entries in order of insertion.
#[verifier::ext_equal]
pub enum Value {
    Real(Seq<char>),
    Integer(i64),
    String(Seq<char>),
    Boolean(bool),
    Array(Seq<Value>),
    Hash(Seq<(Value, Value)>),
    Alias(usize),
    Null,
    BadValue,
}

/// The value of the first entry whose key is the string `key`, and
/// `BadValue` where no entry has that key.
pub open spec fn entry_value(entries: Seq<(Value, Value)>, key: Seq<char>) -> Value
    decreases entries.len(),
{
    if entries.len() == 0 {
        Value::BadValue
    } else if entries[0].0 == Value::String(key) {
        entries[0].1
    } else {
        entry_value(entries.drop_first(), key)
    }
}

impl Value {
    /// Lookup by string key. A mapping yields the value stored under the
    /// key; a missing key, and every value that is no mapping, yields
    /// `BadValue`.
    pub open spec fn get(self, key: Seq<char>) -> Value {
        match self {
            Value::Hash(entries) => entry_value(entries, key),
            _ => Value::BadValue,
        }
    }

    /// The text of a string scalar.
    pub open spec fn as_str(self) -> Option<Seq<char>> {
        match self {
            Value::String(s) => Some(s),
            _ => None,
        }
    }

    /// The items of a sequence.
    pub open spec fn as_vec(self) -> Option<Seq<Value>> {
        match self {
            Value::Array(items) => Some(items),
            _ => None,
        }
    }

    /// Whether this is what a failed lookup yields.
    pub open spec fn is_badvalue(self) -> bool {
        self is BadValue
    }

    /// No mapping, at any depth, holds two entries under one key.
    pub open spec fn distinct_keys(self) -> bool
        decreases self,
    {
        match self {
            Value::Array(items) => forall|i: int|
                0 <= i < items.len() ==> (#[trigger] items[i]).distinct_keys(),
            Value::Hash(entries) => {
                &&& forall|i: int|
                    0 <= i < entries.len() ==> (#[trigger] entries[i]).0.distinct_keys()
                        && entries[i].1.distinct_keys()
                &&& forall|i: int, j: int|
                    0 <= i < j < entries.len() ==> (#[trigger] entries[i]).0
                        != (#[trigger] entries[j]).0
            },
            _ => true,
        }
    }
}

/// A lookup that found the first `i` entries not to match skips them.
pub proof fn lemma_entry_value_skip(entries: Seq<(Value, Value)>, key: Seq<char>, i: int)
    requires
        0 <= i <= entries.len(),
        forall|j: int| 0 <= j < i ==> (#[trigger] entries[j]).0 != Value::String(key),
    ensures
        entry_value(entries, key) == entry_value(entries.subrange(i, entries.len() as int), key),
    decreases i,
{
    if i == 0 {
        assert(entries.subrange(0, entries.len() as int) =~= entries);
    } else {
        let rest = entries.drop_first();
        assert(entries[0].0 != Value::String(key));
        assert forall|j: int| 0 <= j < i - 1 implies (#[trigger] rest[j]).0 != Value::String(
            key,
        ) by {
            assert(rest[j] == entries[j + 1]);
        }
        lemma_entry_value_skip(rest, key, i - 1);
        assert(rest.subrange(i - 1, rest.len() as int) =~= entries.subrange(
            i,
            entries.len() as int,
        ));
    }
}

/// A structured document held as plain values. Mappings keep their entries
/// in order of insertion.
#[derive(Debug)]
pub enum Document {
    /// A floating-point scalar, kept as it was written.
    Real(String),
    Integer(i64),
    String(String),
    Boolean(bool),
    Array(Vec<Document>),
    Hash(Vec<(Document, Document)>),
    Alias(usize),
    Null,
    /// What a lookup yields where there is nothing to find.
    BadValue,
}

/// The model of a document: the same tree, with texts and lists as
/// sequences.
pub open spec fn document_value(d: Document) -> Value
    decreases d,
{
    match d {
        Document::Real(s) => Value::Real(s@),
        Document::Integer(i) => Value::Integer(i),
        Document::String(s) => Value::String(s@),
        Document::Boolean(b) => Value::Boolean(b),
        Document::Array(items) => Value::Array(
            Seq::new(
                items@.len(),
                |i: int|
                    if 0 <= i < items@.len() {
                        document_value(items@[i])
                    } else {
                        Value::BadValue
                    },
            ),
        ),
        Document::Hash(entries) => Value::Hash(
            Seq::new(
                entries@.len(),
                |i: int|
                    if 0 <= i < entries@.len() {
                        (document_value(entries@[i].0), document_value(entries@[i].1))
                    } else {
                        (Value::BadValue, Value::BadValue)
                    },
            ),
        ),
        Document::Alias(n) => Value::Alias(n),
        Document::Null => Value::Null,
        Document::BadValue => Value::BadValue,
    }
}

impl View for Document {
    type V = Value;

    open spec fn view(&self) -> Value {
        document_value(*self)
    }
}

/// The model that an optional document stands for: a missing one is
/// `BadValue`.
pub open spec fn value_or_bad(found: Option<&Document>) -> Value {
    match found {
        Some(d) => d@,
        None => Value::BadValue,
    }
}

/// A copy of a document, equal to it in every scalar, item and entry.
fn duplicate(d: &Document) -> (res: Document)
    ensures
        res@ == d@,
    decreases d,
{
    match d {
        Document::Real(s) => Document::Real(s.clone()),
        Document::Integer(i) => Document::Integer(*i),
        Document::String(s) => Document::String(s.clone()),
        Document::Boolean(b) => Document::Boolean(*b),
        Document::Array(items) => {
            let mut copy: Vec<Document> = Vec::new();
            let mut i: usize = 0;
            while i < items.len()
                invariant
                    i <= items.len(),
                    copy.len() == i,
                    d is Array,
                    d->Array_0 == *items,
                    forall|j: int| 0 <= j < i ==> (#[trigger] copy@[j])@ == items@[j]@,
                decreases items.len() - i,
            {
                proof {
                    vstd::std_specs::vec::axiom_vec_index_decreases(*items, i as int);
                    assert(decreases_to!(*d => d->Array_0));
                }
                copy.push(duplicate(&items[i]));
                i += 1;
            }
            let res = Document::Array(copy);
            assert(res@->Array_0 =~= d@->Array_0);
            res
        },
        Document::Hash(entries) => {
            let mut copy: Vec<(Document, Document)> = Vec::new();
            let mut i: usize = 0;
            while i < entries.len()
                invariant
                    i <= entries.len(),
                    copy.len() == i,
                    d is Hash,
                    d->Hash_0 == *entries,
                    forall|j: int|
                        0 <= j < i ==> (#[trigger] copy@[j]).0@ == entries@[j].0@ && copy@[j].1@
                            == entries@[j].1@,
                decreases entries.len() - i,
            {
                proof {
                    vstd::std_specs::vec::axiom_vec_index_decreases(*entries, i as int);
                    assert(decreases_to!(*d => d->Hash_0));
                    assert(decreases_to!(entries@[i as int] => entries@[i as int].0));
                    assert(decreases_to!(entries@[i as int] => entries@[i as int].1));
                }
                let key = duplicate(&entries[i].0);
                let value = duplicate(&entries[i].1);
                copy.push((key, value));
                i += 1;
            }
            let res = Document::Hash(copy);
            assert(res@->Hash_0 =~= d@->Hash_0);
            res
        },
        Document::Alias(n) => Document::Alias(*n),
        Document::Null => Document::Null,
        Document::BadValue => Document::BadValue,
    }
}

impl Clone for Document {
    fn clone(&self) -> (res: Self)
        ensures
            res@ == self@,
    {
        duplicate(self)
    }
}

impl Document {
    /// The value stored under the string key `key`, where this document is a
    /// mapping that has it.
    pub fn get(&self, key: &str) -> (found: Option<&Document>)
        ensures
            value_or_bad(found) == self@.get(key@),
    {
        match self {
            Document::Hash(entries) => {
                let wanted = key.to_owned();
                let mut i: usize = 0;
                while i < entries.len()
                    invariant
                        i <= entries.len(),
                        wanted@ == key@,
                        *self == Document::Hash(*entries),
                        forall|j: int|
                            0 <= j < i ==> (#[trigger] self@->Hash_0[j]).0 != Value::String(key@),
                    decreases entries.len() - i,
                {
                    let hit = match &entries[i].0 {
                        Document::String(s) => *s == wanted,
                        _ => false,
                    };
                    assert(hit == (self@->Hash_0[i as int].0 == Value::String(key@))) by {
                        reveal_with_fuel(document_value, 2);
                    }
                    if hit {
                        proof {
                            let all = self@->Hash_0;
                            lemma_entry_value_skip(all, key@, i as int);
                        }
                        return Some(&entries[i].1);
                    }
                    i += 1;
                }
                proof {
                    let all = self@->Hash_0;
                    lemma_entry_value_skip(all, key@, all.len() as int);
                }
                None
            },
            _ => None,
        }
    }

    /// The text of a string scalar.
    pub fn as_str(&self) -> (text: Option<&str>)
        ensures
            match text {
                Some(s) => self@.as_str() == Some(s@),
                None => self@.as_str() is None,
            },
    {
        match self {
            Document::String(s) => Some(s.as_str()),
            _ => None,
        }
    }

    /// The items of a sequence.
    pub fn as_vec(&self) -> (items: Option<&Vec<Document>>)
        ensures
            match items {
                Some(v) => self@.as_vec() == Some(views(v@)),
                None => self@.as_vec() is None,
            },
    {
        match self {
            Document::Array(v) => {
                assert(self@->Array_0 =~= views(v@));
                Some(v)
            },
            _ => None,
        }
    }

    /// Whether this is what a failed lookup yields.
    pub fn is_badvalue(&self) -> (bad: bool)
        ensures
            bad == self@.is_badvalue(),
    {
        match self {
            Document::BadValue => true,
            _ => false,
        }
    }
}

/// One step of a lookup along a path of keys: the value under `key` of a
/// document that an earlier step found, if it found one.
pub fn child<'a>(parent: Option<&'a Document>, key: &str) -> (found: Option<&'a Document>)
    ensures
        value_or_bad(found) == value_or_bad(parent).get(key@),
{
    match parent {
        Some(d) => d.get(key),
        None => None,
    }
}

/// Whether two documents are the same tree.
fn same(a: &Document, b: &Document) -> (r: bool)
    ensures
        r == (a@ == b@),
    decreases a,
{
    match (a, b) {
        (Document::Real(x), Document::Real(y)) => *x == *y,
        (Document::Integer(x), Document::Integer(y)) => *x == *y,
        (Document::String(x), Document::String(y)) => *x == *y,
        (Document::Boolean(x), Document::Boolean(y)) => *x == *y,
        (Document::Array(x), Document::Array(y)) => {
            if x.len() != y.len() {
                assert(a@->Array_0.len() != b@->Array_0.len());
                return false;
            }
            let mut i: usize = 0;
            while i < x.len()
                invariant
                    i <= x.len(),
                    x.len() == y.len(),
                    a->Array_0 == *x,
                    b->Array_0 == *y,
                    a is Array,
                    b is Array,
                    forall|j: int| 0 <= j < i ==> (#[trigger] x@[j])@ == y@[j]@,
                decreases x.len() - i,
            {
                proof {
                    vstd::std_specs::vec::axiom_vec_index_decreases(*x, i as int);
                    assert(decreases_to!(*a => a->Array_0));
                }
                if !same(&x[i], &y[i]) {
                    assert(a@->Array_0[i as int] != b@->Array_0[i as int]);
                    return false;
                }
                i += 1;
            }
            assert(a@->Array_0 =~= b@->Array_0);
            true
        },
        (Document::Hash(x), Document::Hash(y)) => {
            if x.len() != y.len() {
                assert(a@->Hash_0.len() != b@->Hash_0.len());
                return false;
            }
            let mut i: usize = 0;
            while i < x.len()
                invariant
                    i <= x.len(),
                    x.len() == y.len(),
                    a->Hash_0 == *x,
                    b->Hash_0 == *y,
                    a is Hash,
                    b is Hash,
                    forall|j: int|
                        0 <= j < i ==> (#[trigger] x@[j]).0@ == y@[j].0@ && x@[j].1@ == y@[j].1@,
                decreases x.len() - i,
            {
                proof {
                    vstd::std_specs::vec::axiom_vec_index_decreases(*x, i as int);
                    assert(decreases_to!(*a => a->Hash_0));
                    assert(decreases_to!(x@[i as int] => x@[i as int].0));
                    assert(decreases_to!(x@[i as int] => x@[i as int].1));
                }
                if !same(&x[i].0, &y[i].0) || !same(&x[i].1, &y[i].1) {
                    assert(a@->Hash_0[i as int] != b@->Hash_0[i as int]);
                    return false;
                }
                i += 1;
            }
            assert(a@->Hash_0 =~= b@->Hash_0);
            true
        },
        (Document::Alias(x), Document::Alias(y)) => *x == *y,
        (Document::Null, Document::Null) => true,
        (Document::BadValue, Document::BadValue) => true,
        _ => false,
    }
}

impl PartialEq for Document {
    fn eq(&self, other: &Document) -> (r: bool) {
        same(self, other)
    }
}

impl PartialEqSpecImpl for Document {
    open spec fn obeys_eq_spec() -> bool {
        true
    }

    open spec fn eq_spec(&self, other: &Document) -> bool {
        self@ == other@
    }
}

/// Whether no mapping inside `d`, at any depth, holds two entries under one
/// key.
fn distinct(d: &Document) -> (r: bool)
    ensures
        r == d@.distinct_keys(),
    decreases d,
{
    match d {
        Document::Array(items) => {
            let mut i: usize = 0;
            while i < items.len()
                invariant
                    i <= items.len(),
                    d is Array,
                    d->Array_0 == *items,
                    forall|j: int| 0 <= j < i ==> (#[trigger] d@->Array_0[j]).distinct_keys(),
                decreases items.len() - i,
            {
                proof {
                    vstd::std_specs::vec::axiom_vec_index_decreases(*items, i as int);
                    assert(decreases_to!(*d => d->Array_0));
                }
                if !distinct(&items[i]) {
                    assert(!d@->Array_0[i as int].distinct_keys());
                    return false;
                }
                i += 1;
            }
            true
        },
        Document::Hash(entries) => {
            let mut i: usize = 0;
            while i < entries.len()
                invariant
                    i <= entries.len(),
                    d is Hash,
                    d->Hash_0 == *entries,
                    forall|j: int|
                        0 <= j < i ==> (#[trigger] d@->Hash_0[j]).0.distinct_keys()
                            && d@->Hash_0[j].1.distinct_keys(),
                    forall|j: int, k: int|
                        0 <= j < k < i ==> (#[trigger] d@->Hash_0[j]).0 != (
                        #[trigger] d@->Hash_0[k]).0,
                decreases entries.len() - i,
            {
                proof {
                    vstd::std_specs::vec::axiom_vec_index_decreases(*entries, i as int);
                    assert(decreases_to!(*d => d->Hash_0));
                    assert(decreases_to!(entries@[i as int] => entries@[i as int].0));
                    assert(decreases_to!(entries@[i as int] => entries@[i as int].1));
                }
                if !distinct(&entries[i].0) || !distinct(&entries[i].1) {
                    assert(!(d@->Hash_0[i as int].0.distinct_keys()
                        && d@->Hash_0[i as int].1.distinct_keys()));
                    return false;
                }
                let mut j: usize = 0;
                while j < i
                    invariant
                        j <= i < entries.len(),
                        d is Hash,
                        d->Hash_0 == *entries,
                        forall|k: int|
                            0 <= k < j ==> (#[trigger] d@->Hash_0[k]).0 != d@->Hash_0[i as int].0,
                    decreases i - j,
                {
                    if same(&entries[j].0, &entries[i].0) {
                        assert(d@->Hash_0[j as int].0 == d@->Hash_0[i as int].0);
                        return false;
                    }
                    j += 1;
                }
                i += 1;
            }
            true
        },
        _ => true,
    }
}

impl Document {
    /// Whether no mapping in this document, at any depth, holds two entries
    /// under one key.
    pub fn has_distinct_keys(&self) -> (r: bool)
        ensures
            r == self@.distinct_keys(),
    {
        distinct(self)
    }
}

/// `yaml_rust2::Yaml`, a node of the parser's own tree, carried as an
/// opaque value.
#[verifier::external_type_specification]
#[verifier::external_body]
pub struct ExYaml(Yaml);

/// `yaml_rust2::ScanError`, the parser's error, carried as an opaque value.
#[verifier::external_type_specification]
#[verifier::external_body]
pub struct ExScanError(ScanError);

/// `yaml_rust2::EmitError`, the emitter's error, carried as an opaque
/// value.
#[verifier::external_type_specification]
#[verifier::external_body]
pub struct ExEmitError(EmitError);

/// What a node of the parser's own tree type holds: scalar for scalar,
/// items in order, entries in order of insertion.
pub uninterp spec fn yaml_value(y: Yaml) -> Value;

/// The documents that `yaml_rust2::YamlLoader::load_from_str` reads from a
/// text, and `None` where it rejects the text.
pub uninterp spec fn loaded_documents(text: Seq<char>) -> Option<Seq<Value>>;

/// The text that `yaml_rust2::YamlEmitter::dump`, with the emitter's initial
/// settings, writes for a value, and `None` where it reports an error.
pub uninterp spec fn emitted_text(v: Value) -> Option<Seq<char>>;

/// Calls `yaml_rust2::YamlLoader::load_from_str`. Trusted: the outcome is a
/// function of the text alone, named `loaded_documents`.
#[verifier::external_body]
fn load_from_str(text: &str) -> (r: Result<Vec<Yaml>, ScanError>)
    ensures
        match r {
            Ok(nodes) => loaded_documents(text@) == Some(
                Seq::new(nodes@.len(), |i: int| yaml_value(nodes@[i])),
            ),
            Err(_) => loaded_documents(text@) is None,
        },
{
    YamlLoader::load_from_str(text)
}

/// Calls `yaml_rust2::Yaml::as_vec`. Trusted: a sequence node hands out its
/// items, in order; every other node hands out nothing.
#[verifier::external_body]
fn as_vec(y: &Yaml) -> (r: Option<&Vec<Yaml>>)
    ensures
        match r {
            Some(items) => yaml_value(*y) == Value::Array(
                Seq::new(items@.len(), |i: int| yaml_value(items@[i])),
            ),
            None => !(yaml_value(*y) is Array),
        },
{
    y.as_vec()
}

/// Calls `yaml_rust2::Yaml::as_hash` and walks the map with its `iter`.
/// Trusted: a mapping node hands out its entries, in order of insertion;
/// every other node hands out nothing.
#[verifier::external_body]
fn hash_entries(y: &Yaml) -> (r: Option<Vec<(&Yaml, &Yaml)>>)
    ensures
        match r {
            Some(entries) => yaml_value(*y) == Value::Hash(
                Seq::new(
                    entries@.len(),
                    |i: int| (yaml_value(*entries@[i].0), yaml_value(*entries@[i].1)),
                ),
            ),
            None => !(yaml_value(*y) is Hash),
        },
{
    y.as_hash().map(|h| h.iter().collect())
}

/// Copies a scalar node of `yaml_rust2::Yaml` into a `Document`, variant
/// for variant. Trusted: the copy holds what the node holds.
#[verifier::external_body]
fn scalar_from_yaml(y: &Yaml) -> (d: Document)
    requires
        !(yaml_value(*y) is Array),
        !(yaml_value(*y) is Hash),
    ensures
        d@ == yaml_value(*y),
{
    match y {
        Yaml::Real(s) => Document::Real(s.clone()),
        Yaml::Integer(i) => Document::Integer(*i),
        Yaml::String(s) => Document::String(s.clone()),
        Yaml::Boolean(b) => Document::Boolean(*b),
        Yaml::Alias(n) => Document::Alias(*n),
        Yaml::Null => Document::Null,
        _ => Document::BadValue,
    }
}

/// Builds a scalar node of `yaml_rust2::Yaml` from a `Document`, variant
/// for variant. Trusted: the node holds what the document holds.
#[verifier::external_body]
fn yaml_from_scalar(d: &Document) -> (y: Yaml)
    requires
        !(d is Array),
        !(d is Hash),
    ensures
        yaml_value(y) == d@,
{
    match d {
        Document::Real(s) => Yaml::Real(s.clone()),
        Document::Integer(i) => Yaml::Integer(*i),
        Document::String(s) => Yaml::String(s.clone()),
        Document::Boolean(b) => Yaml::Boolean(*b),
        Document::Alias(n) => Yaml::Alias(*n),
        Document::Null => Yaml::Null,
        _ => Yaml::BadValue,
    }
}

/// Builds `yaml_rust2::Yaml::Array`. Trusted: the node holds the items, in
/// order.
#[verifier::external_body]
fn yaml_from_items(items: Vec<Yaml>) -> (y: Yaml)
    ensures
        yaml_value(y) == Value::Array(Seq::new(items@.len(), |i: int| yaml_value(items@[i]))),
{
    Yaml::Array(items)
}

/// Builds `yaml_rust2::Yaml::Hash` by collecting the entries into its map.
/// Trusted: the node holds the entries, in order. The map keeps one entry
/// for each key, so entries that share a key are left out.
#[verifier::external_body]
fn yaml_from_entries(entries: Vec<(Yaml, Yaml)>) -> (y: Yaml)
    requires
        forall|i: int, j: int|
            0 <= i < j < entries@.len() ==> yaml_value((#[trigger] entries@[i]).0) != yaml_value(
                (#[trigger] entries@[j]).0,
            ),
    ensures
        yaml_value(y) == Value::Hash(
            Seq::new(
                entries@.len(),
                |i: int| (yaml_value(entries@[i].0), yaml_value(entries@[i].1)),
            ),
        ),
{
    Yaml::Hash(entries.into_iter().collect())
}

/// The document that a node of the parser's tree stands for.
fn document_from_yaml(y: &Yaml) -> (d: Document)
    ensures
        d@ == yaml_value(*y),
    decreases yaml_value(*y),
{
    if let Some(items) = as_vec(y) {
        let mut copy: Vec<Document> = Vec::new();
        let mut i: usize = 0;
        while i < items.len()
            invariant
                i <= items.len(),
                copy.len() == i,
                yaml_value(*y) == Value::Array(
                    Seq::new(items@.len(), |i: int| yaml_value(items@[i])),
                ),
                forall|j: int| 0 <= j < i ==> (#[trigger] copy@[j])@ == yaml_value(items@[j]),
            decreases items.len() - i,
        {
            proof {
                let all = yaml_value(*y)->Array_0;
                assert(all[i as int] == yaml_value(items@[i as int]));
                assert(decreases_to!(yaml_value(*y) => all));
                assert(decreases_to!(all => all[i as int]));
            }
            copy.push(document_from_yaml(&items[i]));
            i += 1;
        }
        let d = Document::Array(copy);
        assert(d@->Array_0 =~= yaml_value(*y)->Array_0);
        d
    } else if let Some(entries) = hash_entries(y) {
        let mut copy: Vec<(Document, Document)> = Vec::new();
        let mut i: usize = 0;
        while i < entries.len()
            invariant
                i <= entries.len(),
                copy.len() == i,
                yaml_value(*y) == Value::Hash(
                    Seq::new(
                        entries@.len(),
                        |i: int| (yaml_value(*entries@[i].0), yaml_value(*entries@[i].1)),
                    ),
                ),
                forall|j: int|
                    0 <= j < i ==> (#[trigger] copy@[j]).0@ == yaml_value(*entries@[j].0)
                        && copy@[j].1@ == yaml_value(*entries@[j].1),
            decreases entries.len() - i,
        {
            proof {
                let all = yaml_value(*y)->Hash_0;
                assert(all[i as int] == (
                    yaml_value(*entries@[i as int].0),
                    yaml_value(*entries@[i as int].1),
                ));
                assert(decreases_to!(yaml_value(*y) => all));
                assert(decreases_to!(all => all[i as int]));
                assert(decreases_to!(all[i as int] => all[i as int].0));
                assert(decreases_to!(all[i as int] => all[i as int].1));
            }
            let key = document_from_yaml(entries[i].0);
            let value = document_from_yaml(entries[i].1);
            copy.push((key, value));
            i += 1;
        }
        let d = Document::Hash(copy);
        assert(d@->Hash_0 =~= yaml_value(*y)->Hash_0);
        d
    } else {
        scalar_from_yaml(y)
    }
}

/// The node of the parser's tree that stands for a document in which no
/// mapping holds two entries under one key.
fn yaml_from_document(d: &Document) -> (y: Yaml)
    requires
        d@.distinct_keys(),
    ensures
        yaml_value(y) == d@,
    decreases d,
{
    match d {
        Document::Array(items) => {
            let mut nodes: Vec<Yaml> = Vec::new();
            let mut i: usize = 0;
            while i < items.len()
                invariant
                    i <= items.len(),
                    nodes.len() == i,
                    d is Array,
                    d->Array_0 == *items,
                    d@.distinct_keys(),
                    forall|j: int| 0 <= j < i ==> yaml_value(#[trigger] nodes@[j]) == items@[j]@,
                decreases items.len() - i,
            {
                proof {
                    vstd::std_specs::vec::axiom_vec_index_decreases(*items, i as int);
                    assert(decreases_to!(*d => d->Array_0));
                    assert(d@->Array_0[i as int] == items@[i as int]@);
                }
                nodes.push(yaml_from_document(&items[i]));
                i += 1;
            }
            let y = yaml_from_items(nodes);
            assert(yaml_value(y)->Array_0 =~= d@->Array_0);
            y
        },
        Document::Hash(entries) => {
            let mut nodes: Vec<(Yaml, Yaml)> = Vec::new();
            let mut i: usize = 0;
            while i < entries.len()
                invariant
                    i <= entries.len(),
                    nodes.len() == i,
                    d is Hash,
                    d->Hash_0 == *entries,
                    d@.distinct_keys(),
                    forall|j: int|
                        0 <= j < i ==> yaml_value((#[trigger] nodes@[j]).0) == entries@[j].0@
                            && yaml_value(nodes@[j].1) == entries@[j].1@,
                decreases entries.len() - i,
            {
                proof {
                    vstd::std_specs::vec::axiom_vec_index_decreases(*entries, i as int);
                    assert(decreases_to!(*d => d->Hash_0));
                    assert(decreases_to!(entries@[i as int] => entries@[i as int].0));
                    assert(decreases_to!(entries@[i as int] => entries@[i as int].1));
                    assert(d@->Hash_0[i as int] == (entries@[i as int].0@, entries@[i as int].1@));
                }
                let key = yaml_from_document(&entries[i].0);
                let value = yaml_from_document(&entries[i].1);
                nodes.push((key, value));
                i += 1;
            }
            assert forall|i: int, j: int| 0 <= i < j < nodes@.len() implies yaml_value(
                (#[trigger] nodes@[i]).0,
            ) != yaml_value((#[trigger] nodes@[j]).0) by {
                assert(d@->Hash_0[i].0 == entries@[i].0@);
                assert(d@->Hash_0[j].0 == entries@[j].0@);
            }
            let y = yaml_from_entries(nodes);
            assert(yaml_value(y)->Hash_0 =~= d@->Hash_0);
            y
        },
        _ => yaml_from_scalar(d),
    }
}

/// Calls `yaml_rust2::YamlEmitter::dump` on a fresh emitter that writes into
/// a string. Trusted: the outcome is a function of what the node holds,
/// named `emitted_text`.
#[verifier::external_body]
fn dump(y: &Yaml) -> (r: Result<String, EmitError>)
    ensures
        match r {
            Ok(text) => emitted_text(yaml_value(*y)) == Some(text@),
            Err(_) => emitted_text(yaml_value(*y)) is None,
        },
{
    let mut out = String::new();
    let written = YamlEmitter::new(&mut out).dump(y);
    written.map(|_| out)
}

/// Reads a text as a stream of documents. `None` where the text is not
/// well-formed.
pub fn parse_documents(text: &str) -> (r: Option<Vec<Document>>)
    ensures
        match r {
            Some(documents) => loaded_documents(text@) == Some(views(documents@)),
            None => loaded_documents(text@) is None,
        },
{
    match load_from_str(text) {
        Ok(nodes) => {
            let mut documents: Vec<Document> = Vec::new();
            let mut i: usize = 0;
            while i < nodes.len()
                invariant
                    i <= nodes.len(),
                    documents.len() == i,
                    forall|j: int|
                        0 <= j < i ==> (#[trigger] documents@[j])@ == yaml_value(nodes@[j]),
                decreases nodes.len() - i,
            {
                documents.push(document_from_yaml(&nodes[i]));
                i += 1;
            }
            assert(views(documents@) =~= Seq::new(
                nodes@.len(),
                |i: int| yaml_value(nodes@[i]),
            ));
            Some(documents)
        },
        Err(_) => None,
    }
}

/// Writes a document out as text. `MalformedManifest` where a mapping in it
/// holds two entries under one key; `RenderFailure` where the emitter
/// reports an error.
pub fn emit_document(document: &Document) -> (r: Result<String, Error>)
    ensures
        match r {
            Ok(text) => document@.distinct_keys() && emitted_text(document@) == Some(text@),
            Err(e) => if document@.distinct_keys() {
                e == Error::RenderFailure && emitted_text(document@) is None
            } else {
                e == Error::MalformedManifest
            },
        },
{
    if !document.has_distinct_keys() {
        return Err(Error::MalformedManifest);
    }
    let node = yaml_from_document(document);
    match dump(&node) {
        Ok(text) => Ok(text),
        Err(_) => Err(Error::RenderFailure),
    }
}

} // verus!
