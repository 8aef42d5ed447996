use vstd::prelude::*;

use crate::entries::{find_key, lemma_find_key, map_get, map_insert};
use crate::text::str_eq;

verus! {

/// A JSON number, kept as serde_json keeps it: a non-negative integer, a
/// negative integer, or a float, which this library carries as its decimal
/// text.
#[derive(Debug, PartialEq, Eq)]
pub enum JsonNumber {
    PosInt(u64),
    NegInt(i64),
    Float(String),
}

/// A JSON value.
#[derive(Debug)]
pub enum JsonValue {
    Null,
    Bool(bool),
    Number(JsonNumber),
    String(String),
    Array(Vec<JsonValue>),
    Object(JsonMap),
}

/// A JSON object: its entries in insertion order, each key at most once.
#[derive(Debug)]
pub struct JsonMap {
    pub entries: Vec<(String, JsonValue)>,
}

/// The mathematical model of a JSON number.
pub enum NumberModel {
    PosInt(u64),
    NegInt(i64),
    Float(Seq<char>),
}

/// The mathematical model of a JSON value; an object is its sequence of
/// entries.
pub enum JsonModel {
    Null,
    Bool(bool),
    Number(NumberModel),
    Str(Seq<char>),
    Array(Seq<JsonModel>),
    Object(Seq<(Seq<char>, JsonModel)>),
}

pub open spec fn number_model(n: JsonNumber) -> NumberModel {
    match n {
        JsonNumber::PosInt(u) => NumberModel::PosInt(u),
        JsonNumber::NegInt(i) => NumberModel::NegInt(i),
        JsonNumber::Float(s) => NumberModel::Float(s@),
    }
}

pub open spec fn json_model(v: JsonValue) -> JsonModel
    decreases v,
{
    match v {
        JsonValue::Null => JsonModel::Null,
        JsonValue::Bool(b) => JsonModel::Bool(b),
        JsonValue::Number(n) => JsonModel::Number(number_model(n)),
        JsonValue::String(s) => JsonModel::Str(s@),
        JsonValue::Array(items) => JsonModel::Array(items_model(items@)),
        JsonValue::Object(m) => JsonModel::Object(entries_model(m.entries@)),
    }
}

pub open spec fn items_model(s: Seq<JsonValue>) -> Seq<JsonModel>
    decreases s,
{
    if s.len() == 0 {
        Seq::empty()
    } else {
        items_model(s.drop_last()).push(json_model(s.last()))
    }
}

pub open spec fn entries_model(s: Seq<(String, JsonValue)>) -> Seq<(Seq<char>, JsonModel)>
    decreases s,
{
    if s.len() == 0 {
        Seq::empty()
    } else {
        entries_model(s.drop_last()).push((s.last().0@, json_model(s.last().1)))
    }
}


/// The model of an optional JSON value.
pub open spec fn option_model(p: Option<JsonValue>) -> Option<JsonModel> {
    match p {
        Some(v) => Some(v@),
        None => None,
    }
}

#[verifier::external_type_specification]
#[verifier::external_body]
pub struct ExSerdeValue(serde_json::Value);

#[verifier::external_type_specification]
#[verifier::external_body]
pub struct ExSerdeNumber(serde_json::Number);

/// What serde_json's `from_str` gives when it parses `text` as a JSON value:
/// the value (objects keep their entries in the order of the text, a
/// repeated key keeping its first place and its last value), or nothing when
/// the text is not JSON.
pub uninterp spec fn json_parse_outcome(text: Seq<char>) -> Option<JsonModel>;

/// Converts a serde_json number: an unsigned integer, a negative integer, or
/// a float carried as serde_json writes it.
#[verifier::external_body]
fn number_from_serde(n: serde_json::Number) -> JsonNumber {
    match (n.as_u64(), n.as_i64()) {
        (Some(u), _) => JsonNumber::PosInt(u),
        (None, Some(i)) => JsonNumber::NegInt(i),
        (None, None) => JsonNumber::Float(n.to_string()),
    }
}

/// Converts a serde_json value, variant for variant.
#[verifier::external_body]
fn value_from_serde(v: serde_json::Value) -> JsonValue {
    match v {
        serde_json::Value::Null => JsonValue::Null,
        serde_json::Value::Bool(b) => JsonValue::Bool(b),
        serde_json::Value::Number(n) => JsonValue::Number(number_from_serde(n)),
        serde_json::Value::String(s) => JsonValue::String(s),
        serde_json::Value::Array(a) => JsonValue::Array(a.into_iter().map(value_from_serde).collect()),
        serde_json::Value::Object(o) => JsonValue::Object(
            JsonMap { entries: o.into_iter().map(|(k, x)| (k, value_from_serde(x))).collect() },
        ),
    }
}

/// Calls `serde_json::from_str::<serde_json::Value>` on `text`; a parse error
/// gives `None`.
#[verifier::external_body]
pub(crate) fn parse_json(text: &str) -> (r: Option<JsonValue>)
    ensures
        option_model(r) == json_parse_outcome(text@),
{
    serde_json::from_str::<serde_json::Value>(text).ok().map(value_from_serde)
}
} // verus!

verus! {

impl View for JsonValue {
    type V = JsonModel;

    open spec fn view(&self) -> JsonModel {
        json_model(*self)
    }
}

impl View for JsonMap {
    type V = Seq<(Seq<char>, JsonModel)>;

    open spec fn view(&self) -> Seq<(Seq<char>, JsonModel)> {
        entries_model(self.entries@)
    }
}

/// The model of a sequence of entries is taken entry by entry.
pub proof fn lemma_entries_model(s: Seq<(String, JsonValue)>)
    ensures
        entries_model(s).len() == s.len(),
        forall|i: int| 0 <= i < s.len() ==> #[trigger] entries_model(s)[i] == (s[i].0@, json_model(s[i].1)),
    decreases s.len(),
{
    if s.len() > 0 {
        lemma_entries_model(s.drop_last());
        assert forall|i: int| 0 <= i < s.len() implies #[trigger] entries_model(s)[i] == (
            s[i].0@,
            json_model(s[i].1),
        ) by {
            if i < s.len() - 1 {
                assert(s.drop_last()[i] == s[i]);
            }
        }
    }
}

/// The model of a sequence of values is taken value by value.
pub proof fn lemma_items_model(s: Seq<JsonValue>)
    ensures
        items_model(s).len() == s.len(),
        forall|i: int| 0 <= i < s.len() ==> #[trigger] items_model(s)[i] == json_model(s[i]),
    decreases s.len(),
{
    if s.len() > 0 {
        lemma_items_model(s.drop_last());
        assert forall|i: int| 0 <= i < s.len() implies #[trigger] items_model(s)[i] == json_model(s[i]) by {
            if i < s.len() - 1 {
                assert(s.drop_last()[i] == s[i]);
            }
        }
    }
}

/// The value as a signed 64-bit integer, if it is an integer that fits.
pub open spec fn model_as_i64(m: JsonModel) -> Option<i64> {
    match m {
        JsonModel::Number(NumberModel::PosInt(u)) => if u <= i64::MAX {
            Some(u as i64)
        } else {
            None
        },
        JsonModel::Number(NumberModel::NegInt(i)) => Some(i),
        _ => None,
    }
}

/// The text of a JSON string.
pub open spec fn model_as_str(m: JsonModel) -> Option<Seq<char>> {
    match m {
        JsonModel::Str(s) => Some(s),
        _ => None,
    }
}

/// The value of a JSON boolean.
pub open spec fn model_as_bool(m: JsonModel) -> Option<bool> {
    match m {
        JsonModel::Bool(b) => Some(b),
        _ => None,
    }
}

/// The entries of a JSON object.
pub open spec fn model_as_object(m: JsonModel) -> Option<Seq<(Seq<char>, JsonModel)>> {
    match m {
        JsonModel::Object(es) => Some(es),
        _ => None,
    }
}

impl JsonValue {
    /// The value as a signed 64-bit integer, if it is an integer that fits.
    pub fn as_i64(&self) -> (r: Option<i64>)
        ensures
            r == model_as_i64(self@),
    {
        match self {
            JsonValue::Number(JsonNumber::PosInt(u)) => if *u <= 9_223_372_036_854_775_807u64 {
                Some(*u as i64)
            } else {
                None
            },
            JsonValue::Number(JsonNumber::NegInt(i)) => Some(*i),
            _ => None,
        }
    }

    /// The text of a JSON string.
    pub fn as_str(&self) -> (r: Option<&str>)
        ensures
            match r {
                Some(s) => model_as_str(self@) == Some(s@),
                None => model_as_str(self@) is None,
            },
    {
        match self {
            JsonValue::String(s) => Some(s.as_str()),
            _ => None,
        }
    }

    /// The value of a JSON boolean.
    pub fn as_bool(&self) -> (r: Option<bool>)
        ensures
            r == model_as_bool(self@),
    {
        match self {
            JsonValue::Bool(b) => Some(*b),
            _ => None,
        }
    }

    /// The entries of a JSON object.
    pub fn as_object(&self) -> (r: Option<&JsonMap>)
        ensures
            match r {
                Some(m) => model_as_object(self@) == Some(m@),
                None => model_as_object(self@) is None,
            },
    {
        match self {
            JsonValue::Object(m) => Some(m),
            _ => None,
        }
    }

    /// Whether the value is an array.
    pub fn is_array(&self) -> (r: bool)
        ensures
            r == (self@ is Array),
    {
        match self {
            JsonValue::Array(_) => true,
            _ => false,
        }
    }

    /// Whether the value is a number.
    pub fn is_number(&self) -> (r: bool)
        ensures
            r == (self@ is Number),
    {
        match self {
            JsonValue::Number(_) => true,
            _ => false,
        }
    }

    /// Whether the value is an object.
    pub fn is_object(&self) -> (r: bool)
        ensures
            r == (self@ is Object),
    {
        match self {
            JsonValue::Object(_) => true,
            _ => false,
        }
    }

    /// Whether the value is null.
    pub fn is_null(&self) -> (r: bool)
        ensures
            r == (self@ is Null),
    {
        match self {
            JsonValue::Null => true,
            _ => false,
        }
    }

    /// The elements of an array.
    pub fn as_array(&self) -> (r: Option<&Vec<JsonValue>>)
        ensures
            match r {
                Some(v) => self@ == JsonModel::Array(items_model(v@)),
                None => !(self@ is Array),
            },
    {
        match self {
            JsonValue::Array(v) => Some(v),
            _ => None,
        }
    }

    /// The number that serde_json makes of an `i32`.
    pub fn from_i32(n: i32) -> (r: JsonValue)
        ensures
            r@ == i32_json(n),
    {
        if n < 0 {
            JsonValue::Number(JsonNumber::NegInt(n as i64))
        } else {
            JsonValue::Number(JsonNumber::PosInt(n as u64))
        }
    }
}

/// The JSON number that serde_json makes of an `i32`.
pub open spec fn i32_json(n: i32) -> JsonModel {
    if n < 0 {
        JsonModel::Number(NumberModel::NegInt(n as i64))
    } else {
        JsonModel::Number(NumberModel::PosInt(n as u64))
    }
}

impl JsonMap {
    /// An empty object.
    pub fn new() -> (r: JsonMap)
        ensures
            r@ == Seq::<(Seq<char>, JsonModel)>::empty(),
    {
        JsonMap { entries: Vec::new() }
    }

    /// The number of entries.
    pub fn len(&self) -> (r: usize)
        ensures
            r == self@.len(),
    {
        proof {
            lemma_entries_model(self.entries@);
        }
        self.entries.len()
    }

    /// The index of `key`, if it is present.
    pub fn find(&self, key: &str) -> (r: Option<usize>)
        ensures
            match r {
                Some(i) => find_key(self@, key@) == Some(i as int) && i < self.entries.len(),
                None => find_key(self@, key@) is None,
            },
    {
        proof {
            lemma_entries_model(self.entries@);
            lemma_find_key(self@, key@);
        }
        let mut i: usize = 0;
        while i < self.entries.len()
            invariant
                i <= self.entries.len(),
                self@.len() == self.entries@.len(),
                forall|j: int| 0 <= j < self.entries@.len() ==> #[trigger] self@[j].0 == self.entries@[j].0@,
                forall|j: int| 0 <= j < i ==> self@[j].0 != key@,
            decreases self.entries.len() - i,
        {
            if str_eq(self.entries[i].0.as_str(), key) {
                proof {
                    lemma_find_key(self@, key@);
                    assert(self@[i as int].0 == key@);
                    match find_key(self@, key@) {
                        Some(p) => {
                            if p < i {
                                assert(self@[p].0 != key@);
                            }
                            if p > i {
                                assert(self@[i as int].0 != key@);
                            }
                        },
                        None => {
                            assert(self@[i as int].0 != key@);
                        },
                    }
                }
                return Some(i);
            }
            i = i + 1;
        }
        None
    }

    /// Whether `key` is present.
    pub fn contains_key(&self, key: &str) -> (r: bool)
        ensures
            r == (map_get(self@, key@) is Some),
    {
        self.find(key).is_some()
    }

    /// The value under `key`, if any.
    pub fn get(&self, key: &str) -> (r: Option<&JsonValue>)
        ensures
            match r {
                Some(v) => map_get(self@, key@) == Some(v@),
                None => map_get(self@, key@) is None,
            },
    {
        proof {
            lemma_entries_model(self.entries@);
        }
        match self.find(key) {
            Some(i) => Some(&self.entries[i].1),
            None => None,
        }
    }

    /// Inserts `value` under `key`: a present key keeps its place.
    pub fn insert(&mut self, key: String, value: JsonValue)
        ensures
            final(self)@ == map_insert(old(self)@, key@, value@),
    {
        proof {
            lemma_entries_model(self.entries@);
        }
        let ghost key_view = key@;
        let ghost value_model = value@;
        match self.find(key.as_str()) {
            Some(i) => {
                let ghost before = self.entries@;
                self.entries.set(i, (key, value));
                proof {
                    lemma_entries_model(self.entries@);
                    assert(self@ =~= entries_model(before).update(i as int, (key_view, value_model)));
                }
            },
            None => {
                let ghost before = self.entries@;
                self.entries.push((key, value));
                proof {
                    lemma_entries_model(self.entries@);
                    assert(self@ =~= entries_model(before).push((key_view, value_model)));
                }
            },
        }
    }

    /// Inserts `value` under `key` in the object stored under `outer`, which is
    /// first created empty when `outer` is absent. When `outer` holds a value
    /// that is not an object, nothing changes.
    pub fn insert_nested(&mut self, outer: String, key: String, value: JsonValue)
        ensures
            final(self)@ == insert_nested_model(old(self)@, outer@, key@, value@),
    {
        proof {
            lemma_entries_model(self.entries@);
        }
        match self.find(outer.as_str()) {
            Some(i) => {
                let ghost before = self.entries@;
                proof {
                    lemma_find_key(self@, outer@);
                    assert(before[i as int].0@ == outer@);
                }
                let (name, current) = self.entries.remove(i);
                assert(name@ == outer@);
                match current {
                    JsonValue::Object(mut inner) => {
                        inner.insert(key, value);
                        self.entries.insert(i, (name, JsonValue::Object(inner)));
                        proof {
                            lemma_entries_model(self.entries@);
                            lemma_entries_model(before);
                            assert forall|j: int| 0 <= j < before.len() && j != i implies self.entries@[j] == before[j] by {}
                            assert(self@ =~= entries_model(before).update(
                                i as int,
                                (outer@, self.entries@[i as int].1@),
                            ));
                        }
                    },
                    other => {
                        self.entries.insert(i, (name, other));
                        proof {
                            lemma_entries_model(self.entries@);
                            lemma_entries_model(before);
                            assert(self.entries@ =~= before);
                        }
                    },
                }
            },
            None => {
                let mut inner = JsonMap::new();
                inner.insert(key, value);
                let ghost before = self.entries@;
                let ghost inner_model = inner@;
                self.entries.push((outer, JsonValue::Object(inner)));
                proof {
                    lemma_entries_model(self.entries@);
                    lemma_entries_model(before);
                    assert(self@ =~= entries_model(before).push((outer@, JsonModel::Object(inner_model))));
                }
            },
        }
    }
}

/// The object after `value` is put under `key` inside the object under
/// `outer` (an empty object is created for an absent `outer`; an `outer`
/// that holds something else is left alone).
pub open spec fn insert_nested_model(
    es: Seq<(Seq<char>, JsonModel)>,
    outer: Seq<char>,
    key: Seq<char>,
    value: JsonModel,
) -> Seq<(Seq<char>, JsonModel)> {
    match map_get(es, outer) {
        Some(JsonModel::Object(inner)) => map_insert(es, outer, JsonModel::Object(map_insert(inner, key, value))),
        Some(_) => es,
        None => map_insert(es, outer, JsonModel::Object(seq![(key, value)])),
    }
}

} // verus!

verus! {

/// The number of nodes of a JSON value.
pub open spec fn json_size(v: JsonValue) -> nat
    decreases v,
{
    match v {
        JsonValue::Array(items) => 1 + items_size(items@),
        JsonValue::Object(m) => 1 + entries_size(m.entries@),
        _ => 1,
    }
}

pub open spec fn items_size(s: Seq<JsonValue>) -> nat
    decreases s,
{
    if s.len() == 0 {
        0
    } else {
        items_size(s.drop_last()) + json_size(s.last())
    }
}

pub open spec fn entries_size(s: Seq<(String, JsonValue)>) -> nat
    decreases s,
{
    if s.len() == 0 {
        0
    } else {
        entries_size(s.drop_last()) + json_size(s.last().1)
    }
}

pub proof fn lemma_items_suffix(s: Seq<JsonValue>, i: int)
    requires
        0 <= i < s.len(),
    ensures
        items_size(s.subrange(i, s.len() as int)) == json_size(s[i]) + items_size(s.subrange(i + 1, s.len() as int)),
    decreases s.len(),
{
    let t = s.subrange(i, s.len() as int);
    let u = s.subrange(i + 1, s.len() as int);
    if i == s.len() - 1 {
        assert(t.drop_last() =~= Seq::<JsonValue>::empty());
        assert(u =~= Seq::<JsonValue>::empty());
    } else {
        lemma_items_suffix(s.drop_last(), i);
        assert(t.drop_last() =~= s.drop_last().subrange(i, s.len() - 1));
        assert(u.drop_last() =~= s.drop_last().subrange(i + 1, s.len() - 1));
        assert(s.drop_last()[i] == s[i]);
    }
}

impl JsonValue {
    /// A copy of the value, equal to it in every part.
    pub fn deep_clone(&self) -> (r: JsonValue)
        ensures
            r@ == self@,
        decreases json_size(*self),
    {
        match self {
            JsonValue::Null => JsonValue::Null,
            JsonValue::Bool(b) => JsonValue::Bool(*b),
            JsonValue::Number(n) => JsonValue::Number(n.deep_clone()),
            JsonValue::String(s) => JsonValue::String(s.clone()),
            JsonValue::Array(items) => {
                let mut out: Vec<JsonValue> = Vec::new();
                let mut i: usize = 0;
                while i < items.len()
                    invariant
                        i <= items.len(),
                        out@.len() == i,
                        forall|j: int| 0 <= j < i ==> #[trigger] out@[j]@ == items@[j]@,
                        1 + items_size(items@) == json_size(*self),
                    decreases items.len() - i,
                {
                    proof {
                        lemma_items_suffix(items@, i as int);
                        assert(items@.subrange(0, items@.len() as int) =~= items@);
                        lemma_items_size_bound(items@, i as int);
                    }
                    let c = items[i].deep_clone();
                    out.push(c);
                    i = i + 1;
                }
                proof {
                    lemma_items_model(items@);
                    lemma_items_model(out@);
                    assert forall|j: int| 0 <= j < out@.len() implies items_model(out@)[j] == items_model(
                        items@,
                    )[j] by {
                        assert(out@[j]@ == items@[j]@);
                    }
                    assert(items_model(out@) =~= items_model(items@));
                }
                JsonValue::Array(out)
            },
            JsonValue::Object(m) => {
                let mut out: Vec<(String, JsonValue)> = Vec::new();
                let mut i: usize = 0;
                while i < m.entries.len()
                    invariant
                        i <= m.entries.len(),
                        out@.len() == i,
                        forall|j: int|
                            0 <= j < i ==> (#[trigger] out@[j]).0@ == m.entries@[j].0@ && out@[j].1@
                                == m.entries@[j].1@,
                        1 + entries_size(m.entries@) == json_size(*self),
                    decreases m.entries.len() - i,
                {
                    proof {
                        lemma_entries_size_bound(m.entries@, i as int);
                    }
                    let k = m.entries[i].0.clone();
                    let c = m.entries[i].1.deep_clone();
                    out.push((k, c));
                    i = i + 1;
                }
                proof {
                    lemma_entries_model(m.entries@);
                    lemma_entries_model(out@);
                    assert(entries_model(out@) =~= entries_model(m.entries@));
                }
                JsonValue::Object(JsonMap { entries: out })
            },
        }
    }
}

pub proof fn lemma_items_size_bound(s: Seq<JsonValue>, i: int)
    requires
        0 <= i < s.len(),
    ensures
        json_size(s[i]) <= items_size(s),
    decreases s.len(),
{
    if i < s.len() - 1 {
        lemma_items_size_bound(s.drop_last(), i);
        assert(s.drop_last()[i] == s[i]);
    }
}

pub proof fn lemma_entries_size_bound(s: Seq<(String, JsonValue)>, i: int)
    requires
        0 <= i < s.len(),
    ensures
        json_size(s[i].1) <= entries_size(s),
    decreases s.len(),
{
    if i < s.len() - 1 {
        lemma_entries_size_bound(s.drop_last(), i);
        assert(s.drop_last()[i] == s[i]);
    }
}

impl JsonNumber {
    /// A copy of the number.
    pub fn deep_clone(&self) -> (r: JsonNumber)
        ensures
            number_model(r) == number_model(*self),
    {
        match self {
            JsonNumber::PosInt(u) => JsonNumber::PosInt(*u),
            JsonNumber::NegInt(i) => JsonNumber::NegInt(*i),
            JsonNumber::Float(s) => JsonNumber::Float(s.clone()),
        }
    }
}

impl JsonMap {
    /// A copy of the object, equal to it in every part.
    pub fn deep_clone(&self) -> (r: JsonMap)
        ensures
            r@ == self@,
    {
        let mut out: Vec<(String, JsonValue)> = Vec::new();
        let mut i: usize = 0;
        while i < self.entries.len()
            invariant
                i <= self.entries.len(),
                out@.len() == i,
                forall|j: int|
                    0 <= j < i ==> (#[trigger] out@[j]).0@ == self.entries@[j].0@ && out@[j].1@
                        == self.entries@[j].1@,
            decreases self.entries.len() - i,
        {
            let k = self.entries[i].0.clone();
            let c = self.entries[i].1.deep_clone();
            out.push((k, c));
            i = i + 1;
        }
        proof {
            lemma_entries_model(self.entries@);
            lemma_entries_model(out@);
            assert(entries_model(out@) =~= entries_model(self.entries@));
        }
        JsonMap { entries: out }
    }
}

} // verus!
