use vstd::prelude::*;

use crate::entries::{
    find_key, keys_unique, lemma_find_key, lemma_insert_all_unique, lemma_insert_unique, lemma_remove_get, map_get,
    map_insert, map_insert_all, map_remove,
};
use crate::text::str_eq;

verus! {

/// A raw configuration value, as the host hands it over.
#[derive(Debug)]
pub enum ConfigValue {
    String(String),
    Number(i32),
    Bool(bool),
    Array(Vec<ConfigValue>),
    Object(ConfigMap),
    Null,
}

/// Raw configuration: keys with values, in the order the host gave them. A
/// map built with `new`, `insert`, `insert_all` and `shift_remove` holds each
/// key once (`keys_unique` of its view).
#[derive(Debug)]
pub struct ConfigMap {
    pub entries: Vec<(String, ConfigValue)>,
}

/// The mathematical model of a raw configuration value.
pub enum ConfigModel {
    Str(Seq<char>),
    Number(i32),
    Bool(bool),
    Array(Seq<ConfigModel>),
    Object(Seq<(Seq<char>, ConfigModel)>),
    Null,
}

pub open spec fn config_model(v: ConfigValue) -> ConfigModel
    decreases v,
{
    match v {
        ConfigValue::String(s) => ConfigModel::Str(s@),
        ConfigValue::Number(n) => ConfigModel::Number(n),
        ConfigValue::Bool(b) => ConfigModel::Bool(b),
        ConfigValue::Array(items) => ConfigModel::Array(config_items_model(items@)),
        ConfigValue::Object(m) => ConfigModel::Object(config_entries_model(m.entries@)),
        ConfigValue::Null => ConfigModel::Null,
    }
}

pub open spec fn config_items_model(s: Seq<ConfigValue>) -> Seq<ConfigModel>
    decreases s,
{
    if s.len() == 0 {
        Seq::empty()
    } else {
        config_items_model(s.drop_last()).push(config_model(s.last()))
    }
}

pub open spec fn config_entries_model(s: Seq<(String, ConfigValue)>) -> Seq<(Seq<char>, ConfigModel)>
    decreases s,
{
    if s.len() == 0 {
        Seq::empty()
    } else {
        config_entries_model(s.drop_last()).push((s.last().0@, config_model(s.last().1)))
    }
}

impl View for ConfigMap {
    type V = Seq<(Seq<char>, ConfigModel)>;

    open spec fn view(&self) -> Seq<(Seq<char>, ConfigModel)> {
        config_entries_model(self.entries@)
    }
}

/// The model of a sequence of entries is taken entry by entry.
pub proof fn lemma_config_entries_model(s: Seq<(String, ConfigValue)>)
    ensures
        config_entries_model(s).len() == s.len(),
        forall|i: int|
            0 <= i < s.len() ==> #[trigger] config_entries_model(s)[i] == (s[i].0@, config_model(s[i].1)),
    decreases s.len(),
{
    if s.len() > 0 {
        lemma_config_entries_model(s.drop_last());
        assert forall|i: int| 0 <= i < s.len() implies #[trigger] config_entries_model(s)[i] == (
            s[i].0@,
            config_model(s[i].1),
        ) by {
            if i < s.len() - 1 {
                assert(s.drop_last()[i] == s[i]);
            }
        }
    }
}

/// The model of a sequence of values is taken value by value.
pub proof fn lemma_config_items_model(s: Seq<ConfigValue>)
    ensures
        config_items_model(s).len() == s.len(),
        forall|i: int| 0 <= i < s.len() ==> #[trigger] config_items_model(s)[i] == config_model(s[i]),
    decreases s.len(),
{
    if s.len() > 0 {
        lemma_config_items_model(s.drop_last());
        assert forall|i: int| 0 <= i < s.len() implies #[trigger] config_items_model(s)[i]
            == config_model(s[i]) by {
            if i < s.len() - 1 {
                assert(s.drop_last()[i] == s[i]);
            }
        }
    }
}

impl ConfigMap {
    /// An empty map.
    pub fn new() -> (r: ConfigMap)
        ensures
            r@ == Seq::<(Seq<char>, ConfigModel)>::empty(),
    {
        ConfigMap { entries: Vec::new() }
    }

    /// The number of entries.
    pub fn len(&self) -> (r: usize)
        ensures
            r == self@.len(),
    {
        proof {
            lemma_config_entries_model(self.entries@);
        }
        self.entries.len()
    }

    /// The index of `key`, if it is present.
    pub fn find(&self, key: &str) -> (r: Option<usize>)
        ensures
            match r {
                Some(i) => find_key(self@, key@) == Some(i as int) && i < self.entries.len(),
                None => find_key(self@, key@) is None,
            },
    {
        proof {
            lemma_config_entries_model(self.entries@);
            lemma_find_key(self@, key@);
        }
        let mut i: usize = 0;
        while i < self.entries.len()
            invariant
                i <= self.entries.len(),
                self@.len() == self.entries@.len(),
                forall|j: int| 0 <= j < self.entries@.len() ==> #[trigger] self@[j].0 == self.entries@[j].0@,
                forall|j: int| 0 <= j < i ==> self@[j].0 != key@,
            decreases self.entries.len() - i,
        {
            if str_eq(self.entries[i].0.as_str(), key) {
                proof {
                    lemma_find_key(self@, key@);
                    assert(self@[i as int].0 == key@);
                    match find_key(self@, key@) {
                        Some(p) => {
                            if p < i {
                                assert(self@[p].0 != key@);
                            }
                            if p > i {
                                assert(self@[i as int].0 != key@);
                            }
                        },
                        None => {
                            assert(self@[i as int].0 != key@);
                        },
                    }
                }
                return Some(i);
            }
            i = i + 1;
        }
        None
    }

    /// Whether `key` is present.
    pub fn contains_key(&self, key: &str) -> (r: bool)
        ensures
            r == (map_get(self@, key@) is Some),
    {
        self.find(key).is_some()
    }

    /// The value under `key`, if any.
    pub fn get(&self, key: &str) -> (r: Option<&ConfigValue>)
        ensures
            match r {
                Some(v) => map_get(self@, key@) == Some(config_model(*v)),
                None => map_get(self@, key@) is None,
            },
    {
        proof {
            lemma_config_entries_model(self.entries@);
        }
        match self.find(key) {
            Some(i) => Some(&self.entries[i].1),
            None => None,
        }
    }

    /// Inserts `value` under `key`: a present key keeps its place.
    pub fn insert(&mut self, key: String, value: ConfigValue)
        ensures
            final(self)@ == map_insert(old(self)@, key@, config_model(value)),
            keys_unique(old(self)@) ==> keys_unique(final(self)@),
    {
        proof {
            lemma_config_entries_model(self.entries@);
            if keys_unique(self@) {
                lemma_insert_unique(self@, key@, config_model(value));
            }
        }
        let ghost key_view = key@;
        let ghost value_model = config_model(value);
        match self.find(key.as_str()) {
            Some(i) => {
                let ghost before = self.entries@;
                self.entries.set(i, (key, value));
                proof {
                    lemma_config_entries_model(self.entries@);
                    assert(self@ =~= config_entries_model(before).update(
                        i as int,
                        (key_view, value_model),
                    ));
                }
            },
            None => {
                let ghost before = self.entries@;
                self.entries.push((key, value));
                proof {
                    lemma_config_entries_model(self.entries@);
                    assert(self@ =~= config_entries_model(before).push((key_view, value_model)));
                }
            },
        }
    }

    /// Inserts the entries of `other` in their order: the host's override
    /// settings laid over stored ones.
    pub fn insert_all(&mut self, other: ConfigMap)
        ensures
            final(self)@ == map_insert_all(old(self)@, other@),
            keys_unique(old(self)@) ==> keys_unique(final(self)@),
    {
        proof {
            if keys_unique(self@) {
                lemma_insert_all_unique(self@, other@);
            }
        }
        let ghost orig = other.entries@;
        let ghost items = other@;
        let ghost base = self@;
        proof {
            lemma_config_entries_model(orig);
            assert(orig.subrange(0, orig.len() as int) =~= orig);
            assert(items.take(0) =~= Seq::<(Seq<char>, ConfigModel)>::empty());
        }
        let mut rest = other.entries;
        let total = rest.len();
        assert(total == orig.len());
        let mut i: usize = 0;
        while rest.len() > 0
            invariant
                i <= orig.len() <= usize::MAX,
                rest@ == orig.subrange(i as int, orig.len() as int),
                items == config_entries_model(orig),
                items.len() == orig.len(),
                forall|j: int|
                    0 <= j < orig.len() ==> #[trigger] items[j] == (orig[j].0@, config_model(orig[j].1)),
                self@ == map_insert_all(base, items.take(i as int)),
            decreases rest.len(),
        {
            let (key, value) = rest.remove(0);
            assert((key, value) == orig[i as int]);
            assert(items.take(i + 1).drop_last() =~= items.take(i as int));
            self.insert(key, value);
            i = i + 1;
            assert(rest@ =~= orig.subrange(i as int, orig.len() as int));
        }
        proof {
            assert(items.take(orig.len() as int) =~= items);
        }
    }

    /// Removes `key`, keeping the order of the other entries, and gives back
    /// its value.
    pub fn shift_remove(&mut self, key: &str) -> (r: Option<ConfigValue>)
        ensures
            final(self)@ == map_remove(old(self)@, key@),
            keys_unique(old(self)@) ==> keys_unique(final(self)@),
            match r {
                Some(v) => map_get(old(self)@, key@) == Some(config_model(v)),
                None => map_get(old(self)@, key@) is None,
            },
    {
        proof {
            lemma_config_entries_model(self.entries@);
            if keys_unique(self@) {
                lemma_remove_get(self@, key@, key@);
            }
        }
        match self.find(key) {
            Some(i) => {
                let ghost before = self.entries@;
                let (_, v) = self.entries.remove(i);
                proof {
                    lemma_config_entries_model(self.entries@);
                    assert(self@ =~= config_entries_model(before).remove(i as int));
                }
                Some(v)
            },
            None => None,
        }
    }
}

} // verus!

verus! {

/// The number of nodes of a raw configuration value.
pub open spec fn config_size(v: ConfigValue) -> nat
    decreases v,
{
    match v {
        ConfigValue::Array(items) => 1 + config_items_size(items@),
        ConfigValue::Object(m) => 1 + config_entries_size(m.entries@),
        _ => 1,
    }
}

pub open spec fn config_items_size(s: Seq<ConfigValue>) -> nat
    decreases s,
{
    if s.len() == 0 {
        0
    } else {
        config_items_size(s.drop_last()) + config_size(s.last())
    }
}

pub open spec fn config_entries_size(s: Seq<(String, ConfigValue)>) -> nat
    decreases s,
{
    if s.len() == 0 {
        0
    } else {
        config_entries_size(s.drop_last()) + config_size(s.last().1)
    }
}

pub proof fn lemma_config_items_size_bound(s: Seq<ConfigValue>, i: int)
    requires
        0 <= i < s.len(),
    ensures
        config_size(s[i]) <= config_items_size(s),
    decreases s.len(),
{
    if i < s.len() - 1 {
        lemma_config_items_size_bound(s.drop_last(), i);
        assert(s.drop_last()[i] == s[i]);
    }
}

pub proof fn lemma_config_entries_size_bound(s: Seq<(String, ConfigValue)>, i: int)
    requires
        0 <= i < s.len(),
    ensures
        config_size(s[i].1) <= config_entries_size(s),
    decreases s.len(),
{
    if i < s.len() - 1 {
        lemma_config_entries_size_bound(s.drop_last(), i);
        assert(s.drop_last()[i] == s[i]);
    }
}

} // verus!
