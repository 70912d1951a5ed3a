//! The value model: a tagged union of everything that can cross the boundary.

use vstd::prelude::*;
use crate::codes;

verus! {

/// What the items of a typed array are.
#[derive(Debug, Clone, Copy, PartialEq, Eq, Structural)]
pub enum ArrayKind {
    /// 64-bit integers.
    Long,
    /// Doubles.
    Double,
    /// Booleans.
    Boolean,
    /// 32-bit integers.
    Int,
    /// Floats.
    Float,
}

/// Mathematical model of a [`Component`].
pub enum ComponentModel {
    Null,
    Plain(Seq<char>),
    Put(Seq<char>),
    Ref(u8),
}

/// The namespace or the name of a keyword or of a symbol, as it is written.
///
/// The writer of a keyword puts each string into a cache the first time it
/// writes it, and refers to its place there from then on. A component is
/// kept as it was found: the string itself, or the place referred to.
#[derive(Debug, PartialEq, Eq)]
pub enum Component {
    /// No namespace.
    Null,
    /// A string that is written without the cache.
    Plain(String),
    /// A string that is written and put into the cache.
    Put(String),
    /// The place in the cache of a string that was put there before.
    Ref(u8),
}

impl View for Component {
    type V = ComponentModel;

    open spec fn view(&self) -> ComponentModel {
        match self {
            Component::Null => ComponentModel::Null,
            Component::Plain(s) => ComponentModel::Plain(s@),
            Component::Put(s) => ComponentModel::Put(s@),
            Component::Ref(i) => ComponentModel::Ref(*i),
        }
    }
}

impl ComponentModel {
    /// Whether this component can be written: a place in the cache is one of
    /// the first thirty-two.
    pub open spec fn wf(self) -> bool {
        self is Ref ==> self->Ref_0 < 32
    }
}

impl Component {
    /// Whether two components are the same.
    pub fn same(&self, other: &Component) -> (r: bool)
        ensures
            r == (self@ == other@),
    {
        match (self, other) {
            (Component::Null, Component::Null) => true,
            (Component::Plain(a), Component::Plain(b)) => *a == *b,
            (Component::Put(a), Component::Put(b)) => *a == *b,
            (Component::Ref(a), Component::Ref(b)) => *a == *b,
            _ => false,
        }
    }

    /// Whether this component can be written.
    pub fn is_wf(&self) -> (r: bool)
        ensures
            r == self@.wf(),
    {
        match self {
            Component::Ref(i) => *i < 32,
            _ => true,
        }
    }
}

/// Mathematical model of a [`Value`]: the same tree with sequences in place of
/// vectors and strings.
pub enum ValueModel {
    Null,
    Bool(bool),
    Int(i64),
    /// IEEE-754 single precision, by its bit pattern.
    Float(u32),
    /// IEEE-754 double precision, by its bit pattern.
    Double(u64),
    Str(Seq<char>),
    Bytes(Seq<u8>),
    List(Seq<ValueModel>),
    Mapping(Seq<(ValueModel, ValueModel)>),
    Ext { tag: Seq<char>, fields: Seq<(ValueModel, ValueModel)> },
    SetOf(Seq<ValueModel>),
    Uuid(Seq<u8>),
    Regex(Seq<char>),
    Uri(Seq<char>),
    Inst(i64),
    Array { kind: ArrayKind, items: Seq<ValueModel> },
    Key { namespace: ComponentModel, name: ComponentModel },
    Sym { namespace: ComponentModel, name: ComponentModel },
}

/// A self-describing value.
///
/// Floating-point numbers are held by their bit patterns, and two values are
/// equal when they are the same variant with the same parts. The two zeros
/// of the doubles are different values, though both are written as the same
/// byte.
#[derive(Debug, PartialEq, Eq)]
pub enum Value {
    Null,
    Bool(bool),
    Int(i64),
    Float(u32),
    Double(u64),
    Str(String),
    Bytes(Vec<u8>),
    /// An ordered sequence.
    List(Vec<Value>),
    /// A mapping, in insertion order.
    Mapping(Vec<(Value, Value)>),
    /// A tagged record: a type tag and the record's fields, in order.
    Ext { tag: String, fields: Vec<(Value, Value)> },
    /// A set, by its members in the order in which they were written.
    SetOf(Vec<Value>),
    /// A UUID, by its bytes.
    Uuid(Vec<u8>),
    /// A regular expression, by its text.
    Regex(String),
    /// A URI, by its text.
    Uri(String),
    /// An instant, by its milliseconds.
    Inst(i64),
    /// A typed array: the kind of its items, and the items in order.
    Array { kind: ArrayKind, items: Vec<Value> },
    /// A keyword, by its namespace and its name.
    Key { namespace: Component, name: Component },
    /// A symbol, by its namespace and its name.
    Sym { namespace: Component, name: Component },
}

/// The models of a vector of values, element by element.
pub open spec fn list_view(items: Seq<Value>) -> Seq<ValueModel>
    decreases items,
{
    Seq::new(
        items.len(),
        |i: int|
            if 0 <= i < items.len() {
                items[i].view()
            } else {
                ValueModel::Null
            },
    )
}

/// The models of a vector of entries, entry by entry.
pub open spec fn entries_view(entries: Seq<(Value, Value)>) -> Seq<(ValueModel, ValueModel)>
    decreases entries,
{
    Seq::new(
        entries.len(),
        |i: int|
            if 0 <= i < entries.len() {
                (entries[i].0.view(), entries[i].1.view())
            } else {
                (ValueModel::Null, ValueModel::Null)
            },
    )
}

impl View for Value {
    type V = ValueModel;

    open spec fn view(&self) -> ValueModel
        decreases self,
    {
        match self {
            Value::Null => ValueModel::Null,
            Value::Bool(b) => ValueModel::Bool(*b),
            Value::Int(i) => ValueModel::Int(*i),
            Value::Float(bits) => ValueModel::Float(*bits),
            Value::Double(bits) => ValueModel::Double(*bits),
            Value::Str(s) => ValueModel::Str(s@),
            Value::Bytes(b) => ValueModel::Bytes(b@),
            Value::List(items) => ValueModel::List(list_view(items@)),
            Value::Mapping(entries) => ValueModel::Mapping(entries_view(entries@)),
            Value::Ext { tag, fields } => ValueModel::Ext {
                tag: tag@,
                fields: entries_view(fields@),
            },
            Value::SetOf(items) => ValueModel::SetOf(list_view(items@)),
            Value::Uuid(b) => ValueModel::Uuid(b@),
            Value::Regex(s) => ValueModel::Regex(s@),
            Value::Uri(s) => ValueModel::Uri(s@),
            Value::Inst(i) => ValueModel::Inst(*i),
            Value::Array { kind, items } => ValueModel::Array {
                kind: *kind,
                items: list_view(items@),
            },
            Value::Key { namespace, name } => ValueModel::Key {
                namespace: namespace@,
                name: name@,
            },
            Value::Sym { namespace, name } => ValueModel::Sym {
                namespace: namespace@,
                name: name@,
            },
        }
    }
}

/// Whether no key occurs twice among `entries`.
pub open spec fn keys_unique(entries: Seq<(ValueModel, ValueModel)>) -> bool {
    forall|i: int, j: int|
        0 <= i < j < entries.len() ==> (#[trigger] entries[i]).0 != (#[trigger] entries[j]).0
}

/// The text of the key under which a tagged record carries its tag.
pub open spec fn type_key() -> Seq<char> {
    "type"@
}

/// The key under which a tagged record carries its tag on the wire. No field
/// of a record has this key.
pub open spec fn tag_key() -> ValueModel {
    ValueModel::Str(type_key())
}

/// The value of a tagged kind that the code `code` makes of the payload
/// that follows it: a set of a list, a UUID of a byte array, a regular
/// expression or a URI of a string, an instant of an integer; none where the
/// payload is of another kind.
pub open spec fn tagged_of(code: u8, payload: ValueModel) -> Option<ValueModel> {
    match payload {
        ValueModel::List(items) => if code == codes::SET {
            Some(ValueModel::SetOf(items))
        } else {
            None
        },
        ValueModel::Bytes(b) => if code == codes::UUID {
            Some(ValueModel::Uuid(b))
        } else {
            None
        },
        ValueModel::Str(s) => if code == codes::REGEX {
            Some(ValueModel::Regex(s))
        } else if code == codes::URI {
            Some(ValueModel::Uri(s))
        } else {
            None
        },
        ValueModel::Int(i) => if code == codes::INST {
            Some(ValueModel::Inst(i))
        } else {
            None
        },
        _ => None,
    }
}

/// Whether `item` can stand in a typed array of the kind `kind`.
pub open spec fn element_fits(kind: ArrayKind, item: ValueModel) -> bool {
    match kind {
        ArrayKind::Long => item is Int,
        ArrayKind::Int => item is Int && i32::MIN <= item->Int_0 <= i32::MAX,
        ArrayKind::Double => item is Double,
        ArrayKind::Float => item is Float,
        ArrayKind::Boolean => item is Bool,
    }
}

/// Whether every item can stand in a typed array of the kind `kind`.
pub open spec fn elements_fit(kind: ArrayKind, items: Seq<ValueModel>) -> bool {
    forall|i: int| 0 <= i < items.len() ==> element_fits(kind, #[trigger] items[i])
}

impl ValueModel {
    /// The entries of a mapping or the fields of a record; of any other
    /// value, none.
    pub open spec fn entries(self) -> Seq<(ValueModel, ValueModel)> {
        match self {
            ValueModel::Mapping(entries) => entries,
            ValueModel::Ext { fields, .. } => fields,
            _ => Seq::empty(),
        }
    }

    /// The invariant of the value model: in every mapping and in every
    /// record, at any depth, no key occurs twice, and no field of a record
    /// has the tag's key; every item of a typed array is of the array's
    /// kind; and every keyword and symbol has a name, and components that
    /// can be written.
    pub open spec fn wf(self) -> bool
        decreases self,
    {
        match self {
            ValueModel::List(items) => items_wf(items),
            ValueModel::Mapping(entries) => {
                &&& keys_unique(entries)
                &&& forall|i: int|
                    0 <= i < entries.len() ==> (#[trigger] entries[i]).0.wf() && entries[i].1.wf()
            },
            ValueModel::Ext { tag, fields } => {
                &&& keys_unique(fields)
                &&& lacks_tag_key(fields)
                &&& forall|i: int|
                    0 <= i < fields.len() ==> (#[trigger] fields[i]).0.wf() && fields[i].1.wf()
            },
            ValueModel::SetOf(items) => items_wf(items),
            ValueModel::Array { kind, items } => elements_fit(kind, items),
            ValueModel::Key { namespace, name } => namespace.wf() && name.wf() && !(name is Null),
            ValueModel::Sym { namespace, name } => namespace.wf() && name.wf() && !(name is Null),
            _ => true,
        }
    }
}

/// Whether `key` is a key of `entries`.
pub open spec fn has_key(entries: Seq<(ValueModel, ValueModel)>, key: ValueModel) -> bool {
    exists|i: int| 0 <= i < entries.len() && (#[trigger] entries[i]).0 == key
}

/// Whether the first entry of `entries` with the key `key` maps it to
/// `value`.
pub open spec fn first_entry(
    entries: Seq<(ValueModel, ValueModel)>,
    key: ValueModel,
    value: ValueModel,
) -> bool {
    exists|i: int|
        0 <= i < entries.len() && #[trigger] entries[i] == (key, value) && forall|k: int|
            0 <= k < i ==> (#[trigger] entries[k]).0 != key
}

/// `entries` with `key` mapped to `value`: in place where `key` is a key
/// already, else as a new last entry.
pub open spec fn with_entry(
    entries: Seq<(ValueModel, ValueModel)>,
    key: ValueModel,
    value: ValueModel,
) -> Seq<(ValueModel, ValueModel)> {
    if has_key(entries, key) {
        Seq::new(
            entries.len(),
            |i: int| if entries[i].0 == key { (key, value) } else { entries[i] },
        )
    } else {
        entries.push((key, value))
    }
}

/// The mapping that a run of entries builds up, entered one after the other:
/// a key that comes again keeps its place and takes the later value.
pub open spec fn merged(entries: Seq<(ValueModel, ValueModel)>) -> Seq<(ValueModel, ValueModel)>
    decreases entries.len(),
{
    if entries.len() == 0 {
        Seq::empty()
    } else {
        with_entry(merged(entries.drop_last()), entries.last().0, entries.last().1)
    }
}

/// Whether every item meets the invariant.
pub open spec fn items_wf(items: Seq<ValueModel>) -> bool
    decreases items,
{
    forall|i: int| 0 <= i < items.len() ==> (#[trigger] items[i]).wf()
}

/// Whether no entry of `entries` has the tag's key.
pub open spec fn lacks_tag_key(entries: Seq<(ValueModel, ValueModel)>) -> bool {
    forall|i: int| 0 <= i < entries.len() ==> (#[trigger] entries[i]).0 != tag_key()
}

/// Whether every key and every value of `entries` meets the invariant.
pub open spec fn entries_wf(entries: Seq<(ValueModel, ValueModel)>) -> bool {
    forall|i: int| 0 <= i < entries.len() ==> (#[trigger] entries[i]).0.wf() && entries[i].1.wf()
}

/// Maps `key` to `value` in `entries`: in place where the key is there
/// already, else as a new last entry.
pub fn put(entries: &mut Vec<(Value, Value)>, key: Value, value: Value)
    requires
        keys_unique(entries_view(old(entries)@)),
    ensures
        entries_view(final(entries)@) == with_entry(entries_view(old(entries)@), key@, value@),
        keys_unique(entries_view(final(entries)@)),
        entries_wf(entries_view(old(entries)@)) && key@.wf() && value@.wf() ==> entries_wf(
            entries_view(final(entries)@),
        ),
{
    let ghost before = entries_view(entries@);
    let mut i: usize = 0;
    while i < entries.len()
        invariant
            i <= entries.len(),
            entries@ == old(entries)@,
            before == entries_view(entries@),
            before.len() == entries.len(),
            keys_unique(before),
            forall|k: int| 0 <= k < i ==> (#[trigger] before[k]).0 != key@,
        decreases entries.len() - i,
    {
        if entries[i].0.same(&key) {
            proof {
                assert(before[i as int].0 == key@);
                assert(has_key(before, key@));
            }
            entries.set(i, (key, value));
            proof {
                let after = entries_view(entries@);
                assert(after =~= with_entry(before, key@, value@)) by {
                    assert forall|j: int| 0 <= j < before.len() implies after[j] == (
                    if before[j].0 == key@ {
                        (key@, value@)
                    } else {
                        before[j]
                    }) by {
                        if j != i {
                            if j < i {
                                assert(before[j].0 != before[i as int].0);
                            } else {
                                assert(before[i as int].0 != before[j].0);
                            }
                        }
                    }
                }
                assert forall|x: int, y: int| 0 <= x < y < after.len() implies (#[trigger] after[x]).0
                    != (#[trigger] after[y]).0 by {
                    assert(before[x].0 != before[y].0);
                    assert(after[x].0 == before[x].0);
                    assert(after[y].0 == before[y].0);
                }
                if entries_wf(before) && key@.wf() && value@.wf() {
                    assert forall|j: int| 0 <= j < after.len() implies (#[trigger] after[j]).0.wf()
                        && after[j].1.wf() by {
                        if j != i {
                            assert(after[j] == before[j]);
                        }
                    }
                }
            }
            return ;
        }
        i += 1;
    }
    proof {
        assert(!has_key(before, key@));
    }
    entries.push((key, value));
    proof {
        let after = entries_view(entries@);
        assert(after =~= before.push((key@, value@)));
        assert forall|x: int, y: int| 0 <= x < y < after.len() implies (#[trigger] after[x]).0 != (
        #[trigger] after[y]).0 by {
            if y < before.len() {
                assert(before[x].0 != before[y].0);
            } else {
                assert(before[x].0 != key@);
            }
        }
        if entries_wf(before) && key@.wf() && value@.wf() {
            assert forall|j: int| 0 <= j < after.len() implies (#[trigger] after[j]).0.wf()
                && after[j].1.wf() by {
                if j < before.len() {
                    assert(after[j] == before[j]);
                }
            }
        }
    }
}

/// Whether every item of `items` meets the invariant.
fn items_ok(items: &Vec<Value>) -> (r: bool)
    ensures
        r == items_wf(list_view(items@)),
    decreases items,
{
    let mut i: usize = 0;
    while i < items.len()
        invariant
            i <= items.len(),
            forall|k: int| 0 <= k < i ==> (#[trigger] list_view(items@)[k]).wf(),
        decreases items.len() - i,
    {
        if !items[i].is_wf() {
            assert(!list_view(items@)[i as int].wf());
            return false;
        }
        i += 1;
    }
    true
}

/// Whether every key and every value of `entries` meets the invariant.
fn entries_ok(entries: &Vec<(Value, Value)>) -> (r: bool)
    ensures
        r == entries_wf(entries_view(entries@)),
    decreases entries,
{
    let mut i: usize = 0;
    while i < entries.len()
        invariant
            i <= entries.len(),
            forall|k: int|
                0 <= k < i ==> (#[trigger] entries_view(entries@)[k]).0.wf() && entries_view(
                    entries@,
                )[k].1.wf(),
        decreases entries.len() - i,
    {
        if !entries[i].0.is_wf() || !entries[i].1.is_wf() {
            assert(!(entries_view(entries@)[i as int].0.wf() && entries_view(
                entries@,
            )[i as int].1.wf()));
            return false;
        }
        i += 1;
    }
    true
}

/// Whether no key occurs twice among `entries`.
fn keys_distinct(entries: &Vec<(Value, Value)>) -> (r: bool)
    ensures
        r == keys_unique(entries_view(entries@)),
{
    let ghost all = entries_view(entries@);
    let mut j: usize = 0;
    while j < entries.len()
        invariant
            j <= entries.len(),
            all == entries_view(entries@),
            forall|x: int, y: int| 0 <= x < y < j ==> (#[trigger] all[x]).0 != (#[trigger] all[y]).0,
        decreases entries.len() - j,
    {
        let mut i: usize = 0;
        while i < j
            invariant
                i <= j < entries.len(),
                all == entries_view(entries@),
                forall|x: int| 0 <= x < i ==> (#[trigger] all[x]).0 != all[j as int].0,
            decreases j - i,
        {
            if entries[i].0.same(&entries[j].0) {
                assert(all[i as int].0 == all[j as int].0);
                return false;
            }
            i += 1;
        }
        j += 1;
    }
    true
}

/// Whether no entry of `entries` has the tag's key.
fn without_tag_key(entries: &Vec<(Value, Value)>) -> (r: bool)
    ensures
        r == lacks_tag_key(entries_view(entries@)),
{
    let wanted = Value::Str("type".to_owned());
    let mut i: usize = 0;
    while i < entries.len()
        invariant
            i <= entries.len(),
            wanted@ == tag_key(),
            forall|k: int| 0 <= k < i ==> (#[trigger] entries_view(entries@)[k]).0 != tag_key(),
        decreases entries.len() - i,
    {
        if entries[i].0.same(&wanted) {
            assert(entries_view(entries@)[i as int].0 == tag_key());
            return false;
        }
        i += 1;
    }
    true
}

/// The value that `entries` maps `key` to, if it is a key: that of the
/// first entry with this key.
pub fn lookup<'a>(entries: &'a Vec<(Value, Value)>, key: &Value) -> (r: Option<&'a Value>)
    ensures
        match r {
            Some(value) => first_entry(entries_view(entries@), key@, value@),
            None => !has_key(entries_view(entries@), key@),
        },
{
    let mut i: usize = 0;
    while i < entries.len()
        invariant
            i <= entries.len(),
            forall|k: int| 0 <= k < i ==> (#[trigger] entries_view(entries@)[k]).0 != key@,
        decreases entries.len() - i,
    {
        if entries[i].0.same(key) {
            assert(entries_view(entries@)[i as int] == (key@, entries@[i as int].1@));
            return Some(&entries[i].1);
        }
        i += 1;
    }
    None
}

/// Makes the value of a tagged kind of the payload that follows the code
/// `code`, where the payload is of the kind that the code announces.
pub fn tag(code: u8, payload: Value) -> (r: Option<Value>)
    ensures
        match r {
            Some(v) => tagged_of(code, payload@) == Some(v@),
            None => tagged_of(code, payload@) is None,
        },
{
    match payload {
        Value::List(items) => if code == codes::SET {
            Some(Value::SetOf(items))
        } else {
            None
        },
        Value::Bytes(b) => if code == codes::UUID {
            Some(Value::Uuid(b))
        } else {
            None
        },
        Value::Str(s) => if code == codes::REGEX {
            Some(Value::Regex(s))
        } else if code == codes::URI {
            Some(Value::Uri(s))
        } else {
            None
        },
        Value::Int(i) => if code == codes::INST {
            Some(Value::Inst(i))
        } else {
            None
        },
        _ => None,
    }
}

/// Whether every item of `items` can stand in a typed array of the kind
/// `kind`.
pub fn items_fit(kind: ArrayKind, items: &Vec<Value>) -> (r: bool)
    ensures
        r == elements_fit(kind, list_view(items@)),
{
    let mut i: usize = 0;
    while i < items.len()
        invariant
            i <= items.len(),
            forall|k: int| 0 <= k < i ==> element_fits(kind, #[trigger] list_view(items@)[k]),
        decreases items.len() - i,
    {
        let fits = match (kind, &items[i]) {
            (ArrayKind::Long, Value::Int(_)) => true,
            (ArrayKind::Int, Value::Int(n)) => -0x8000_0000 <= *n && *n <= 0x7FFF_FFFF,
            (ArrayKind::Double, Value::Double(_)) => true,
            (ArrayKind::Float, Value::Float(_)) => true,
            (ArrayKind::Boolean, Value::Bool(_)) => true,
            _ => false,
        };
        assert(fits == element_fits(kind, list_view(items@)[i as int]));
        if !fits {
            return false;
        }
        i += 1;
    }
    true
}

/// Whether two byte vectors hold the same bytes.
fn same_bytes(a: &Vec<u8>, b: &Vec<u8>) -> (r: bool)
    ensures
        r == (a@ == b@),
{
    if a.len() != b.len() {
        return false;
    }
    let mut i: usize = 0;
    while i < a.len()
        invariant
            i <= a.len(),
            a.len() == b.len(),
            forall|k: int| 0 <= k < i ==> a@[k] == b@[k],
        decreases a.len() - i,
    {
        if a[i] != b[i] {
            return false;
        }
        i += 1;
    }
    assert(a@ =~= b@);
    true
}

/// Whether two vectors of values are the same, item by item.
fn same_items(a: &Vec<Value>, b: &Vec<Value>) -> (r: bool)
    ensures
        r == (list_view(a@) == list_view(b@)),
    decreases a,
{
    if a.len() != b.len() {
        assert(list_view(a@).len() != list_view(b@).len());
        return false;
    }
    let mut i: usize = 0;
    while i < a.len()
        invariant
            i <= a.len(),
            a.len() == b.len(),
            forall|k: int| 0 <= k < i ==> a@[k]@ == b@[k]@,
        decreases a.len() - i,
    {
        if !a[i].same(&b[i]) {
            assert(list_view(a@)[i as int] != list_view(b@)[i as int]);
            return false;
        }
        i += 1;
    }
    assert(list_view(a@) =~= list_view(b@));
    true
}

/// Whether two vectors of entries are the same, entry by entry.
fn same_entries(a: &Vec<(Value, Value)>, b: &Vec<(Value, Value)>) -> (r: bool)
    ensures
        r == (entries_view(a@) == entries_view(b@)),
    decreases a,
{
    if a.len() != b.len() {
        assert(entries_view(a@).len() != entries_view(b@).len());
        return false;
    }
    let mut i: usize = 0;
    while i < a.len()
        invariant
            i <= a.len(),
            a.len() == b.len(),
            forall|k: int| 0 <= k < i ==> a@[k].0@ == b@[k].0@ && a@[k].1@ == b@[k].1@,
        decreases a.len() - i,
    {
        if !a[i].0.same(&b[i].0) || !a[i].1.same(&b[i].1) {
            assert(entries_view(a@)[i as int] != entries_view(b@)[i as int]);
            return false;
        }
        i += 1;
    }
    assert(entries_view(a@) =~= entries_view(b@));
    true
}

impl Value {
    /// Whether two values are the same: the same variant with the same
    /// parts, in the same order.
    pub fn same(&self, other: &Value) -> (r: bool)
        ensures
            r == (self@ == other@),
        decreases self,
    {
        match (self, other) {
            (Value::Null, Value::Null) => true,
            (Value::Bool(a), Value::Bool(b)) => *a == *b,
            (Value::Int(a), Value::Int(b)) => *a == *b,
            (Value::Float(a), Value::Float(b)) => *a == *b,
            (Value::Double(a), Value::Double(b)) => *a == *b,
            (Value::Str(a), Value::Str(b)) => *a == *b,
            (Value::Bytes(a), Value::Bytes(b)) => same_bytes(a, b),
            (Value::List(a), Value::List(b)) => same_items(a, b),
            (Value::Mapping(a), Value::Mapping(b)) => same_entries(a, b),
            (Value::Ext { tag: ta, fields: fa }, Value::Ext { tag: tb, fields: fb }) => *ta == *tb
                && same_entries(fa, fb),
            (Value::SetOf(a), Value::SetOf(b)) => same_items(a, b),
            (Value::Uuid(a), Value::Uuid(b)) => same_bytes(a, b),
            (Value::Regex(a), Value::Regex(b)) => *a == *b,
            (Value::Uri(a), Value::Uri(b)) => *a == *b,
            (Value::Inst(a), Value::Inst(b)) => *a == *b,
            (Value::Array { kind: ka, items: a }, Value::Array { kind: kb, items: b }) => *ka
                == *kb && same_items(a, b),
            (
                Value::Key { namespace: na, name: a },
                Value::Key { namespace: nb, name: b },
            ) => na.same(nb) && a.same(b),
            (
                Value::Sym { namespace: na, name: a },
                Value::Sym { namespace: nb, name: b },
            ) => na.same(nb) && a.same(b),
            _ => false,
        }
    }

    /// Whether this value meets the invariant of the value model.
    pub fn is_wf(&self) -> (r: bool)
        ensures
            r == self@.wf(),
        decreases self,
    {
        match self {
            Value::List(items) => {
                items_ok(items)
            },
            Value::Mapping(entries) => {
                let distinct = keys_distinct(entries);
                let ok = entries_ok(entries);
                assert(self@.wf() == (keys_unique(entries_view(entries@)) && entries_wf(
                    entries_view(entries@),
                )));
                distinct && ok
            },
            Value::Ext { tag, fields } => {
                let distinct = keys_distinct(fields);
                let untagged = without_tag_key(fields);
                let ok = entries_ok(fields);
                assert(self@.wf() == (keys_unique(entries_view(fields@)) && lacks_tag_key(
                    entries_view(fields@),
                ) && entries_wf(entries_view(fields@))));
                distinct && untagged && ok
            },
            Value::SetOf(items) => items_ok(items),
            Value::Array { kind, items } => items_fit(*kind, items),
            Value::Key { namespace, name } => namespace.is_wf() && name.is_wf() && !matches!(
                name,
                Component::Null
            ),
            Value::Sym { namespace, name } => namespace.is_wf() && name.is_wf() && !matches!(
                name,
                Component::Null
            ),
            _ => true,
        }
    }

    /// The value under `key` in a mapping or in a record; `None` where the
    /// key is not there or this is neither.
    pub fn get(&self, key: &Value) -> (r: Option<&Value>)
        ensures
            match r {
                Some(value) => first_entry(self@.entries(), key@, value@),
                None => !has_key(self@.entries(), key@),
            },
    {
        match self {
            Value::Mapping(entries) => lookup(entries, key),
            Value::Ext { fields, .. } => lookup(fields, key),
            _ => None,
        }
    }
}

} // verus!
