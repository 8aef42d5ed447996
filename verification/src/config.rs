use vstd::prelude::*;

use crate::config_map::{
    config_entries_model, config_items_model, config_model, config_size,
    lemma_config_entries_model, lemma_config_entries_size_bound, lemma_config_items_model,
    lemma_config_items_size_bound, ConfigMap, ConfigModel, ConfigValue,
};
use crate::configuration::{
    bool_parser, diagnostics_model, get_nullable_bool, get_nullable_new_line_kind,
    get_nullable_string, get_nullable_u8, new_line_kind_parser, read_setting, string_parser,
    u8_parser, ConfigurationDiagnostic, GlobalConfiguration, NewLineKind,
    ResolveConfigurationResult,
};
use crate::entries::{
    find_key, keys_of, keys_unique, last_value, lemma_find_key, lemma_insert_all_fresh, lemma_insert_all_get,
    lemma_insert_all_keys, lemma_insert_all_unique, lemma_insert_get, lemma_remove_get, map_get,
    map_insert, map_insert_all, map_remove,
};
use crate::json::{
    i32_json, insert_nested_model, items_model, json_parse_outcome, lemma_items_model, model_as_bool,
    model_as_i64, model_as_object, model_as_str, option_model, parse_json, JsonMap, JsonModel,
    JsonNumber, JsonValue, NumberModel,
};
use crate::text::{
    ascii_lower, chars_eq_ignore_ascii_case, chars_of, concat, decimal_text, eq_ignore_ascii_case, i64_text,
    last_index_of, lemma_u8_text_value_of_decimal, lowercase_text, rfind_char, str_eq, string_of, to_lowercase,
};

verus! {

/// The JSON value that a raw configuration value becomes.
pub open spec fn config_to_json(m: ConfigModel) -> JsonModel
    decreases m,
{
    match m {
        ConfigModel::Str(s) => JsonModel::Str(s),
        ConfigModel::Number(n) => i32_json(n),
        ConfigModel::Bool(b) => JsonModel::Bool(b),
        ConfigModel::Null => JsonModel::Null,
        ConfigModel::Array(items) => JsonModel::Array(config_items_to_json(items)),
        ConfigModel::Object(es) => JsonModel::Object(config_entries_to_json(es)),
    }
}

/// The JSON values that raw values become, in order.
pub open spec fn config_items_to_json(s: Seq<ConfigModel>) -> Seq<JsonModel>
    decreases s,
{
    if s.len() == 0 {
        Seq::empty()
    } else {
        config_items_to_json(s.drop_last()).push(config_to_json(s.last()))
    }
}

/// The JSON object that raw entries become, inserted one by one.
pub open spec fn config_entries_to_json(s: Seq<(Seq<char>, ConfigModel)>) -> Seq<(Seq<char>, JsonModel)>
    decreases s,
{
    if s.len() == 0 {
        Seq::empty()
    } else {
        map_insert(config_entries_to_json(s.drop_last()), s.last().0, config_to_json(s.last().1))
    }
}

/// Converts a raw configuration value to JSON: numbers become integers,
/// arrays and objects are converted element by element.
pub fn config_key_value_to_json(value: ConfigValue) -> (r: JsonValue)
    ensures
        r@ == config_to_json(config_model(value)),
    decreases config_size(value),
{
    let ghost size = config_size(value);
    match value {
        ConfigValue::Bool(b) => JsonValue::Bool(b),
        ConfigValue::String(s) => JsonValue::String(s),
        ConfigValue::Number(n) => JsonValue::from_i32(n),
        ConfigValue::Null => JsonValue::Null,
        ConfigValue::Array(items) => {
            let ghost orig = items@;
            let mut rest = items;
            let mut out: Vec<JsonValue> = Vec::new();
            let mut i: usize = 0;
            proof {
                lemma_config_items_model(orig);
                assert(orig.subrange(0, orig.len() as int) =~= orig);
                assert(orig.len() == rest.len());
            }
            while rest.len() > 0
                invariant
                    i <= orig.len(),
                    rest@ == orig.subrange(i as int, orig.len() as int),
                    out@.len() == i,
                    forall|j: int| 0 <= j < i ==> #[trigger] out@[j]@ == config_to_json(config_model(orig[j])),
                    size == 1 + crate::config_map::config_items_size(orig),
                    size == config_size(value),
                    orig.len() <= usize::MAX,
                decreases rest.len(),
            {
                proof {
                    lemma_config_items_size_bound(orig, i as int);
                }
                let item = rest.remove(0);
                assert(item == orig[i as int]);
                let j = config_key_value_to_json(item);
                out.push(j);
                i = i + 1;
                assert(rest@ =~= orig.subrange(i as int, orig.len() as int));
            }
            proof {
                lemma_items_model(out@);
                lemma_config_items_model(orig);
                lemma_items_to_json(config_items_model(orig));
                assert(out@.len() == orig.len());
                assert forall|j: int| 0 <= j < out@.len() implies items_model(out@)[j]
                    == config_items_to_json(config_items_model(orig))[j] by {
                    assert(out@[j]@ == config_to_json(config_model(orig[j])));
                }
                assert(items_model(out@) =~= config_items_to_json(config_items_model(orig)));
            }
            JsonValue::Array(out)
        },
        ConfigValue::Object(m) => {
            let ghost orig = m.entries@;
            let mut rest = m.entries;
            let mut out = JsonMap::new();
            let mut i: usize = 0;
            proof {
                lemma_config_entries_model(orig);
                assert(orig.subrange(0, orig.len() as int) =~= orig);
                assert(config_entries_model(orig).take(0) =~= Seq::<(Seq<char>, ConfigModel)>::empty());
                assert(orig.len() == rest.len());
            }
            while rest.len() > 0
                invariant
                    i <= orig.len(),
                    rest@ == orig.subrange(i as int, orig.len() as int),
                    config_entries_model(orig).len() == orig.len(),
                    forall|j: int|
                        0 <= j < orig.len() ==> #[trigger] config_entries_model(orig)[j] == (
                            orig[j].0@,
                            config_model(orig[j].1),
                        ),
                    out@ == config_entries_to_json(config_entries_model(orig).take(i as int)),
                    size == 1 + crate::config_map::config_entries_size(orig),
                    size == config_size(value),
                    orig.len() <= usize::MAX,
                decreases rest.len(),
            {
                proof {
                    lemma_config_entries_size_bound(orig, i as int);
                }
                let (k, v) = rest.remove(0);
                assert((k, v) == orig[i as int]);
                let j = config_key_value_to_json(v);
                let ghost prev = config_entries_model(orig).take(i as int);
                out.insert(k, j);
                i = i + 1;
                proof {
                    let next = config_entries_model(orig).take(i as int);
                    assert(next.drop_last() =~= prev);
                }
                assert(rest@ =~= orig.subrange(i as int, orig.len() as int));
            }
            proof {
                assert(config_entries_model(orig).take(orig.len() as int) =~= config_entries_model(orig));
            }
            JsonValue::Object(out)
        },
    }
}

/// Converting values one by one gives the converted sequence.
pub proof fn lemma_items_to_json(s: Seq<ConfigModel>)
    ensures
        config_items_to_json(s).len() == s.len(),
        forall|i: int| 0 <= i < s.len() ==> #[trigger] config_items_to_json(s)[i] == config_to_json(s[i]),
    decreases s.len(),
{
    if s.len() > 0 {
        lemma_items_to_json(s.drop_last());
        assert forall|i: int| 0 <= i < s.len() implies #[trigger] config_items_to_json(s)[i]
            == config_to_json(s[i]) by {
            if i < s.len() - 1 {
                assert(s.drop_last()[i] == s[i]);
            }
        }
    }
}

/// An object whose keys are unique converts entry by entry: the converted
/// object has the same keys in the same order, each with its value converted.
pub proof fn lemma_entries_to_json(s: Seq<(Seq<char>, ConfigModel)>)
    requires
        keys_unique(s),
    ensures
        config_entries_to_json(s).len() == s.len(),
        forall|i: int|
            0 <= i < s.len() ==> #[trigger] config_entries_to_json(s)[i] == (s[i].0, config_to_json(s[i].1)),
    decreases s.len(),
{
    if s.len() > 0 {
        let init = s.drop_last();
        assert(keys_unique(init));
        lemma_entries_to_json(init);
        let prev = config_entries_to_json(init);
        lemma_find_key(prev, s.last().0);
        assert forall|q: int| 0 <= q < prev.len() implies prev[q].0 != s.last().0 by {
            assert(prev[q].0 == init[q].0);
            assert(init[q] == s[q]);
        }
        assert(find_key(prev, s.last().0) is None);
        assert forall|i: int| 0 <= i < s.len() implies #[trigger] config_entries_to_json(s)[i]
            == (s[i].0, config_to_json(s[i].1)) by {
            if i < s.len() - 1 {
                assert(init[i] == s[i]);
            }
        }
    }
}

} // verus!

verus! {

/// The part before and the part after the last `.` of a key, if it has one.
pub open spec fn split_key(k: Seq<char>) -> Option<(Seq<char>, Seq<char>)> {
    match last_index_of(k, '.') {
        Some(i) => Some((k.subrange(0, i), k.subrange(i + 1, k.len() as int))),
        None => None,
    }
}

/// The key without the prefix up to its last `.`.
pub open spec fn base_key(k: Seq<char>) -> Seq<char> {
    match split_key(k) {
        Some((_, b)) => b,
        None => k,
    }
}

pub proof fn lemma_last_index_of(s: Seq<char>, c: char)
    ensures
        last_index_of(s, c) matches Some(i) ==> 0 <= i < s.len() && s[i] == c && forall|j: int|
            i < j < s.len() ==> s[j] != c,
        last_index_of(s, c) is None ==> forall|j: int| 0 <= j < s.len() ==> s[j] != c,
    decreases s.len(),
{
    if s.len() > 0 && s.last() != c {
        lemma_last_index_of(s.drop_last(), c);
        assert forall|j: int| 0 <= j < s.len() - 1 implies s.drop_last()[j] == s[j] by {}
    }
}

/// The characters `cs[from..to]` as a string.
pub(crate) fn char_range(cs: &Vec<char>, from: usize, to: usize) -> (r: String)
    requires
        from <= to <= cs.len(),
    ensures
        r@ == cs@.subrange(from as int, to as int),
{
    let mut out: Vec<char> = Vec::new();
    let mut i = from;
    while i < to
        invariant
            from <= i <= to <= cs.len(),
            out@ == cs@.subrange(from as int, i as int),
        decreases to - i,
    {
        out.push(cs[i]);
        i = i + 1;
        assert(out@ =~= cs@.subrange(from as int, i as int));
    }
    string_of(out.as_slice())
}

/// Splits a key at its last `.`.
pub fn split_key_exec(key: &str) -> (r: Option<(String, String)>)
    ensures
        match r {
            Some((a, b)) => split_key(key@) == Some((a@, b@)),
            None => split_key(key@) is None,
        },
{
    let cs = chars_of(key);
    proof {
        lemma_last_index_of(cs@, '.');
    }
    match rfind_char(cs.as_slice(), '.') {
        Some(i) => {
            let a = char_range(&cs, 0, i);
            let b = char_range(&cs, i + 1, cs.len());
            Some((a, b))
        },
        None => None,
    }
}

/// The key without the prefix up to its last `.`.
pub fn base_key_exec(key: &str) -> (r: String)
    ensures
        r@ == base_key(key@),
{
    match split_key_exec(key) {
        Some((_, b)) => b,
        None => key.to_owned(),
    }
}

/// Whether a key is a legacy `svg.<name>` alias of `<name>` (the prefix
/// compared without ASCII case, the name not empty).
pub open spec fn is_svg_alias(k: Seq<char>) -> bool {
    match split_key(k) {
        Some((e, b)) => eq_ignore_ascii_case(e, "svg"@) && b.len() > 0,
        None => false,
    }
}

/// The entries that are not aliases, in order.
pub open spec fn plain_entries(es: Seq<(Seq<char>, ConfigModel)>) -> Seq<(Seq<char>, ConfigModel)>
    decreases es.len(),
{
    if es.len() == 0 {
        Seq::empty()
    } else if is_svg_alias(es.last().0) {
        plain_entries(es.drop_last())
    } else {
        plain_entries(es.drop_last()).push(es.last())
    }
}

/// The aliases, renamed to the names they stand for, in order.
pub open spec fn alias_entries(es: Seq<(Seq<char>, ConfigModel)>) -> Seq<(Seq<char>, ConfigModel)>
    decreases es.len(),
{
    if es.len() == 0 {
        Seq::empty()
    } else if is_svg_alias(es.last().0) {
        alias_entries(es.drop_last()).push((base_key(es.last().0), es.last().1))
    } else {
        alias_entries(es.drop_last())
    }
}

/// The configuration with every `svg.<name>` alias put under `<name>`; an
/// alias is inserted after the plain keys, so it wins over `<name>`.
pub open spec fn normalized_entries(es: Seq<(Seq<char>, ConfigModel)>) -> Seq<(Seq<char>, ConfigModel)> {
    map_insert_all(map_insert_all(Seq::empty(), plain_entries(es)), alias_entries(es))
}


/// The name that an alias stands for is not itself an alias: it holds no `.`.
proof fn lemma_alias_name_is_plain(k: Seq<char>)
    requires
        is_svg_alias(k),
    ensures
        !is_svg_alias(base_key(k)),
{
    lemma_last_index_of(k, '.');
    let i = last_index_of(k, '.')->0;
    let b = k.subrange(i + 1, k.len() as int);
    assert(base_key(k) == b);
    assert forall|j: int| 0 <= j < b.len() implies b[j] != '.' by {
        assert(b[j] == k[i + 1 + j]);
    }
    lemma_last_index_of(b, '.');
    if last_index_of(b, '.') is Some {
        let p = last_index_of(b, '.')->0;
        assert(b[p] == '.');
    }
}

/// The entries that are not aliases hold no alias; without aliases, they are
/// all the entries.
proof fn lemma_plain_entries(es: Seq<(Seq<char>, ConfigModel)>)
    ensures
        forall|i: int| 0 <= i < plain_entries(es).len() ==> !is_svg_alias(#[trigger] plain_entries(es)[i].0),
        (forall|i: int| 0 <= i < es.len() ==> !is_svg_alias(#[trigger] es[i].0)) ==> plain_entries(es) == es,
    decreases es.len(),
{
    if es.len() > 0 {
        lemma_plain_entries(es.drop_last());
        let prev = plain_entries(es.drop_last());
        if !is_svg_alias(es.last().0) {
            assert forall|i: int| 0 <= i < plain_entries(es).len() implies !is_svg_alias(#[trigger] plain_entries(es)[i].0) by {
                if i < prev.len() {
                    assert(plain_entries(es)[i] == prev[i]);
                }
            }
        }
        if forall|i: int| 0 <= i < es.len() ==> !is_svg_alias(#[trigger] es[i].0) {
            assert(!is_svg_alias(es[es.len() - 1].0));
            assert forall|i: int| 0 <= i < es.drop_last().len() implies !is_svg_alias(#[trigger] es.drop_last()[i].0) by {
                assert(es.drop_last()[i] == es[i]);
            }
            assert(es.drop_last().push(es.last()) =~= es);
        }
    }
}

/// The renamed aliases hold no alias; without aliases, there are none.
proof fn lemma_alias_entries(es: Seq<(Seq<char>, ConfigModel)>)
    ensures
        forall|i: int| 0 <= i < alias_entries(es).len() ==> !is_svg_alias(#[trigger] alias_entries(es)[i].0),
        (forall|i: int| 0 <= i < es.len() ==> !is_svg_alias(#[trigger] es[i].0)) ==> alias_entries(es).len() == 0,
    decreases es.len(),
{
    if es.len() > 0 {
        lemma_alias_entries(es.drop_last());
        let prev = alias_entries(es.drop_last());
        if is_svg_alias(es.last().0) {
            lemma_alias_name_is_plain(es.last().0);
            assert forall|i: int| 0 <= i < alias_entries(es).len() implies !is_svg_alias(#[trigger] alias_entries(es)[i].0) by {
                if i < prev.len() {
                    assert(alias_entries(es)[i] == prev[i]);
                }
            }
        }
        if forall|i: int| 0 <= i < es.len() ==> !is_svg_alias(#[trigger] es[i].0) {
            assert(!is_svg_alias(es[es.len() - 1].0));
            assert forall|i: int| 0 <= i < es.drop_last().len() implies !is_svg_alias(#[trigger] es.drop_last()[i].0) by {
                assert(es.drop_last()[i] == es[i]);
            }
        }
    }
}

/// After normalization no key is an alias and no key occurs twice.
pub proof fn lemma_normalized_has_no_aliases(es: Seq<(Seq<char>, ConfigModel)>)
    ensures
        keys_unique(normalized_entries(es)),
        forall|i: int| 0 <= i < normalized_entries(es).len() ==> !is_svg_alias(#[trigger] normalized_entries(es)[i].0),
{
    let plain = plain_entries(es);
    let aliases = alias_entries(es);
    let first = map_insert_all(Seq::<(Seq<char>, ConfigModel)>::empty(), plain);
    let n = normalized_entries(es);
    lemma_plain_entries(es);
    lemma_alias_entries(es);
    lemma_insert_all_unique(Seq::<(Seq<char>, ConfigModel)>::empty(), plain);
    lemma_insert_all_unique(first, aliases);
    assert forall|i: int| 0 <= i < n.len() implies !is_svg_alias(#[trigger] n[i].0) by {
        lemma_insert_all_keys(first, aliases, i);
        if keys_of(aliases).contains(n[i].0) {
            let j = choose|j: int| 0 <= j < keys_of(aliases).len() && keys_of(aliases)[j] == n[i].0;
            assert(aliases[j].0 == n[i].0);
        } else {
            let j = choose|j: int| 0 <= j < keys_of(first).len() && keys_of(first)[j] == n[i].0;
            lemma_insert_all_keys(Seq::<(Seq<char>, ConfigModel)>::empty(), plain, j);
            let q = choose|q: int| 0 <= q < keys_of(plain).len() && keys_of(plain)[q] == first[j].0;
            assert(plain[q].0 == n[i].0);
        }
    }
}

/// Normalizing twice is normalizing once.
pub proof fn lemma_normalize_idempotent(es: Seq<(Seq<char>, ConfigModel)>)
    ensures
        normalized_entries(normalized_entries(es)) == normalized_entries(es),
{
    let n = normalized_entries(es);
    lemma_normalized_has_no_aliases(es);
    lemma_plain_entries(n);
    lemma_alias_entries(n);
    assert(alias_entries(n) =~= Seq::<(Seq<char>, ConfigModel)>::empty());
    lemma_insert_all_fresh(n);
}

/// Whether the key is a legacy `svg.<name>` alias, and its name if it is.
fn svg_alias_name(key: &str) -> (r: Option<String>)
    ensures
        match r {
            Some(b) => is_svg_alias(key@) && b@ == base_key(key@),
            None => !is_svg_alias(key@),
        },
{
    match split_key_exec(key) {
        Some((e, b)) => {
            let ec = chars_of(e.as_str());
            let svg = chars_of("svg");
            if chars_eq_ignore_ascii_case(ec.as_slice(), svg.as_slice()) && !b.as_str().is_empty() {
                Some(b)
            } else {
                None
            }
        },
        None => None,
    }
}

/// Rewrites the settings so that each `svg.<name>` key stands under `<name>`
/// instead; when both forms are present, the `svg.` form wins. Resolving a
/// configuration does not do this: there, `svg.<name>` is the override of
/// `<name>` for `.svg` files. This is for a caller that wants the `svg.`
/// keys read as plain settings.
pub fn normalize_svg_aliases(config: ConfigMap) -> (r: ConfigMap)
    ensures
        r@ == normalized_entries(config@),
{
    let ghost orig = config.entries@;
    let ghost m = config@;
    let mut rest = config.entries;
    let mut normalized = ConfigMap::new();
    let mut aliases: Vec<(String, ConfigValue)> = Vec::new();
    let mut i: usize = 0;
    proof {
        lemma_config_entries_model(orig);
        assert(orig.subrange(0, orig.len() as int) =~= orig);
        assert(orig.len() == rest.len());
        assert(m.take(0) =~= Seq::<(Seq<char>, ConfigModel)>::empty());
    }
    while rest.len() > 0
        invariant
            i <= orig.len() <= usize::MAX,
            rest@ == orig.subrange(i as int, orig.len() as int),
            m == config_entries_model(orig),
            m.len() == orig.len(),
            forall|j: int| 0 <= j < orig.len() ==> #[trigger] m[j] == (orig[j].0@, config_model(orig[j].1)),
            normalized@ == map_insert_all(Seq::empty(), plain_entries(m.take(i as int))),
            config_entries_model(aliases@) == alias_entries(m.take(i as int)),
        decreases rest.len(),
    {
        let (k, v) = rest.remove(0);
        assert((k, v) == orig[i as int]);
        let ghost prev = m.take(i as int);
        let ghost next = m.take(i + 1);
        assert(next.drop_last() =~= prev);
        assert(next.last() == (k@, config_model(v)));
        match svg_alias_name(k.as_str()) {
            Some(b) => {
                let ghost before = aliases@;
                aliases.push((b, v));
                proof {
                    assert(aliases@.drop_last() == before);
                }
            },
            None => {
                normalized.insert(k, v);
                proof {
                    let pn = plain_entries(next);
                    assert(pn == plain_entries(prev).push(next.last()));
                    assert(pn.drop_last() =~= plain_entries(prev));
                }
            },
        }
        i = i + 1;
        assert(rest@ =~= orig.subrange(i as int, orig.len() as int));
    }
    proof {
        assert(m.take(orig.len() as int) =~= m);
    }
    let ghost alias_model = config_entries_model(aliases@);
    let ghost base = normalized@;
    let ghost alias_orig = aliases@;
    let mut j: usize = 0;
    let mut pending = aliases;
    proof {
        crate::config_map::lemma_config_entries_model(alias_orig);
        assert(alias_orig.subrange(0, alias_orig.len() as int) =~= alias_orig);
        assert(alias_orig.len() == pending.len());
        assert(alias_model.take(0) =~= Seq::<(Seq<char>, ConfigModel)>::empty());
    }
    while pending.len() > 0
        invariant
            j <= alias_orig.len() <= usize::MAX,
            pending@ == alias_orig.subrange(j as int, alias_orig.len() as int),
            alias_model.len() == alias_orig.len(),
            forall|q: int|
                0 <= q < alias_orig.len() ==> #[trigger] alias_model[q] == (
                    alias_orig[q].0@,
                    config_model(alias_orig[q].1),
                ),
            normalized@ == map_insert_all(base, alias_model.take(j as int)),
        decreases pending.len(),
    {
        let (k, v) = pending.remove(0);
        assert((k, v) == alias_orig[j as int]);
        let ghost prev = alias_model.take(j as int);
        let ghost next = alias_model.take(j + 1);
        assert(next.drop_last() =~= prev);
        normalized.insert(k, v);
        j = j + 1;
        assert(pending@ =~= alias_orig.subrange(j as int, alias_orig.len() as int));
    }
    proof {
        assert(alias_model.take(alias_orig.len() as int) =~= alias_model);
    }
    normalized
}

} // verus!

verus! {

/// The options that the configuration check knows, as listed in its message.
pub open spec fn known_options_text() -> Seq<char> {
    "plugins, floatPrecision, datauri, js2svg, path, finalNewline, useShortTags"@
}

/// The message that the configuration check gives for the setting `key` with
/// value `v`, if it gives one. Only the part of `key` after its last `.`
/// decides which check applies.
pub open spec fn validation_message(key: Seq<char>, v: JsonModel) -> Option<Seq<char>> {
    let b = base_key(key);
    if b == "plugins"@ {
        if v is Array {
            None
        } else {
            Some("Expected 'plugins' to be an array of plugin configurations"@)
        }
    } else if b == "floatPrecision"@ {
        match model_as_i64(v) {
            Some(n) => if 0 <= n <= 20 {
                None
            } else {
                Some("'floatPrecision' should be between 0 and 20, got "@ + decimal_text(n as int))
            },
            None => if v is Number {
                None
            } else {
                Some("Expected 'floatPrecision' to be a number"@)
            },
        }
    } else if b == "datauri"@ {
        match model_as_str(v) {
            Some(s) => if s == "base64"@ || s == "enc"@ || s == "unenc"@ {
                None
            } else {
                Some("'datauri' must be 'base64', 'enc', or 'unenc', got '"@ + s + "'"@)
            },
            None => Some("Expected 'datauri' to be a string"@),
        }
    } else if b == "js2svg"@ {
        if v is Object {
            None
        } else {
            Some("Expected 'js2svg' to be an object"@)
        }
    } else if b == "path"@ || b == "finalNewline"@ || b == "useShortTags"@ || b == "multipass"@ {
        None
    } else {
        Some("Unknown SVGO option '"@ + b + "'. Known options: "@ + known_options_text())
    }
}

/// The diagnostics that the configuration check gives for `key` and `v`.
pub open spec fn validation_diagnostics(key: Seq<char>, v: JsonModel) -> Seq<(Seq<char>, Seq<char>)> {
    match validation_message(key, v) {
        Some(m) => seq![(key, m)],
        None => Seq::empty(),
    }
}

/// The configuration check gives at most one diagnostic, under the full key;
/// which check applies depends only on the text after the key's last `.`;
/// `path`, `finalNewline`, `useShortTags` and `multipass` are never reported.
pub proof fn lemma_validation_shape(key: Seq<char>, other: Seq<char>, v: JsonModel)
    requires
        base_key(key) == base_key(other),
    ensures
        validation_diagnostics(key, v).len() <= 1,
        forall|i: int|
            0 <= i < validation_diagnostics(key, v).len() ==> (#[trigger] validation_diagnostics(key, v)[i]).0
                == key,
        validation_message(key, v) == validation_message(other, v),
        base_key(key) == "path"@ || base_key(key) == "finalNewline"@ || base_key(key) == "useShortTags"@
            || base_key(key) == "multipass"@ ==> validation_diagnostics(key, v).len() == 0,
{
    reveal_strlit("plugins");
    reveal_strlit("floatPrecision");
    reveal_strlit("datauri");
    reveal_strlit("js2svg");
    reveal_strlit("path");
    reveal_strlit("finalNewline");
    reveal_strlit("useShortTags");
    reveal_strlit("multipass");
    let b = base_key(key);
    if b == "path"@ || b == "finalNewline"@ || b == "useShortTags"@ || b == "multipass"@ {
        assert(b != "plugins"@ && b != "floatPrecision"@ && b != "datauri"@ && b != "js2svg"@) by {
            assert("path"@.len() == 4 && "finalNewline"@.len() == 12 && "useShortTags"@.len() == 12
                && "multipass"@.len() == 9);
            assert("plugins"@.len() == 7 && "floatPrecision"@.len() == 14 && "datauri"@.len() == 7
                && "js2svg"@.len() == 6);
        }
    }
}

/// The check of `floatPrecision`: an integer between 0 and 20 passes and
/// any other integer is reported with its value; a number that is no `i64`
/// passes; anything that is not a number is reported as such.
pub proof fn lemma_float_precision(key: Seq<char>, v: JsonModel)
    requires
        base_key(key) == "floatPrecision"@,
    ensures
        match model_as_i64(v) {
            Some(n) => validation_diagnostics(key, v) == if 0 <= n <= 20 {
                Seq::<(Seq<char>, Seq<char>)>::empty()
            } else {
                seq![(key, "'floatPrecision' should be between 0 and 20, got "@ + decimal_text(n as int))]
            },
            None => validation_diagnostics(key, v) == if v is Number {
                Seq::<(Seq<char>, Seq<char>)>::empty()
            } else {
                seq![(key, "Expected 'floatPrecision' to be a number"@)]
            },
        },
{
    reveal_strlit("plugins");
    reveal_strlit("floatPrecision");
    assert("plugins"@.len() != "floatPrecision"@.len());
}

proof fn lemma_check_names_distinct()
    ensures
        "datauri"@ != "plugins"@,
        "datauri"@ != "floatPrecision"@,
        "js2svg"@ != "plugins"@,
        "js2svg"@ != "floatPrecision"@,
        "js2svg"@ != "datauri"@,
{
    reveal_strlit("plugins");
    reveal_strlit("floatPrecision");
    reveal_strlit("datauri");
    reveal_strlit("js2svg");
    assert("datauri"@[0] != "plugins"@[0]);
    assert("datauri"@.len() != "floatPrecision"@.len());
    assert("js2svg"@.len() != "plugins"@.len());
    assert("js2svg"@.len() != "floatPrecision"@.len());
    assert("js2svg"@.len() != "datauri"@.len());
}

/// The check of `datauri`: exactly the strings `base64`, `enc` and `unenc`
/// pass; any other string is reported with its text, and a value that is not
/// a string is reported as such.
pub proof fn lemma_datauri_check(key: Seq<char>, v: JsonModel)
    requires
        base_key(key) == "datauri"@,
    ensures
        match v {
            JsonModel::Str(s) => validation_diagnostics(key, v) == if s == "base64"@ || s == "enc"@ || s
                == "unenc"@ {
                Seq::<(Seq<char>, Seq<char>)>::empty()
            } else {
                seq![(key, "'datauri' must be 'base64', 'enc', or 'unenc', got '"@ + s + "'"@)]
            },
            _ => validation_diagnostics(key, v) == seq![(key, "Expected 'datauri' to be a string"@)],
        },
        validation_diagnostics(key, JsonModel::Str("base64"@)).len() == 0,
        validation_diagnostics(key, JsonModel::Str("enc"@)).len() == 0,
        validation_diagnostics(key, JsonModel::Str("unenc"@)).len() == 0,
{
    lemma_check_names_distinct();
}

/// The check of `plugins`: an array passes, anything else is reported.
pub proof fn lemma_plugins_check(key: Seq<char>, v: JsonModel)
    requires
        base_key(key) == "plugins"@,
    ensures
        validation_diagnostics(key, v) == if v is Array {
            Seq::<(Seq<char>, Seq<char>)>::empty()
        } else {
            seq![(key, "Expected 'plugins' to be an array of plugin configurations"@)]
        },
{
}

/// The check of `js2svg`: an object passes, anything else is reported.
pub proof fn lemma_js2svg_check(key: Seq<char>, v: JsonModel)
    requires
        base_key(key) == "js2svg"@,
    ensures
        validation_diagnostics(key, v) == if v is Object {
            Seq::<(Seq<char>, Seq<char>)>::empty()
        } else {
            seq![(key, "Expected 'js2svg' to be an object"@)]
        },
{
    lemma_check_names_distinct();
}

/// A key whose base is none of the known options is reported as unknown,
/// whatever its value, with the list of the known options.
pub proof fn lemma_unknown_option(key: Seq<char>, v: JsonModel)
    requires
        base_key(key) != "plugins"@,
        base_key(key) != "floatPrecision"@,
        base_key(key) != "datauri"@,
        base_key(key) != "js2svg"@,
        base_key(key) != "path"@,
        base_key(key) != "finalNewline"@,
        base_key(key) != "useShortTags"@,
        base_key(key) != "multipass"@,
    ensures
        validation_diagnostics(key, v) == seq![
            (
                key,
                "Unknown SVGO option '"@ + base_key(key) + "'. Known options: "@
                    + "plugins, floatPrecision, datauri, js2svg, path, finalNewline, useShortTags"@,
            ),
        ],
{
}

/// The message of the configuration check for `key` and `value`, if any.
fn validation_message_exec(key: &str, value: &JsonValue) -> (r: Option<String>)
    ensures
        match r {
            Some(m) => validation_message(key@, value@) == Some(m@),
            None => validation_message(key@, value@) is None,
        },
{
    let b = base_key_exec(key);
    let b = b.as_str();
    if str_eq(b, "plugins") {
        if value.is_array() {
            None
        } else {
            Some("Expected 'plugins' to be an array of plugin configurations".to_owned())
        }
    } else if str_eq(b, "floatPrecision") {
        match value.as_i64() {
            Some(n) => if 0 <= n && n <= 20 {
                None
            } else {
                Some(concat("'floatPrecision' should be between 0 and 20, got ", i64_text(n).as_str()))
            },
            None => if value.is_number() {
                None
            } else {
                Some("Expected 'floatPrecision' to be a number".to_owned())
            },
        }
    } else if str_eq(b, "datauri") {
        match value.as_str() {
            Some(s) => if str_eq(s, "base64") || str_eq(s, "enc") || str_eq(s, "unenc") {
                None
            } else {
                let m = concat("'datauri' must be 'base64', 'enc', or 'unenc', got '", s);
                Some(concat(m.as_str(), "'"))
            },
            None => Some("Expected 'datauri' to be a string".to_owned()),
        }
    } else if str_eq(b, "js2svg") {
        if value.is_object() {
            None
        } else {
            Some("Expected 'js2svg' to be an object".to_owned())
        }
    } else if str_eq(b, "path") || str_eq(b, "finalNewline") || str_eq(b, "useShortTags") || str_eq(
        b,
        "multipass",
    ) {
        None
    } else {
        let m = concat("Unknown SVGO option '", b);
        let m = concat(m.as_str(), "'. Known options: ");
        Some(concat(
            m.as_str(),
            "plugins, floatPrecision, datauri, js2svg, path, finalNewline, useShortTags",
        ))
    }
}

/// Checks a setting against what SVGO accepts and adds a diagnostic for an
/// invalid value or an unknown key.
pub fn validate_config_value(
    key: &str,
    value: &JsonValue,
    diagnostics: &mut Vec<ConfigurationDiagnostic>,
)
    ensures
        diagnostics_model(final(diagnostics)@) == diagnostics_model(old(diagnostics)@)
            + validation_diagnostics(key@, value@),
{
    let ghost before = diagnostics@;
    match validation_message_exec(key, value) {
        Some(message) => {
            let ghost mv = message@;
            diagnostics.push(ConfigurationDiagnostic { property_name: key.to_owned(), message });
            assert(diagnostics_model(diagnostics@) =~= diagnostics_model(before) + seq![(key@, mv)]);
        },
        None => {
            assert(diagnostics_model(diagnostics@) =~= diagnostics_model(before) + Seq::empty());
        },
    }
}

} // verus!

verus! {

/// Configuration handed to SVGO: the main options, and per file extension the
/// options that replace them for files with that extension.
#[derive(Debug)]
pub struct SvgoConfig {
    /// Main configuration options passed to SVGO.
    pub main: JsonMap,
    /// Extension-specific configuration overrides, keyed by lower-case
    /// extension.
    pub extension_overrides: JsonMap,
}

/// The `js2svg` object of the main options, if it is an object.
pub open spec fn js2svg_of(main: Seq<(Seq<char>, JsonModel)>) -> Option<Seq<(Seq<char>, JsonModel)>> {
    match map_get(main, "js2svg"@) {
        Some(v) => model_as_object(v),
        None => None,
    }
}

/// The value under `key` in the `js2svg` object, if any.
pub open spec fn js2svg_value(main: Seq<(Seq<char>, JsonModel)>, key: Seq<char>) -> Option<JsonModel> {
    match js2svg_of(main) {
        Some(js) => map_get(js, key),
        None => None,
    }
}

impl SvgoConfig {
    /// An empty configuration.
    pub fn new() -> (r: SvgoConfig)
        ensures
            r.main@ == Seq::<(Seq<char>, JsonModel)>::empty(),
            r.extension_overrides@ == Seq::<(Seq<char>, JsonModel)>::empty(),
    {
        SvgoConfig { main: JsonMap::new(), extension_overrides: JsonMap::new() }
    }

    /// A copy of the configuration.
    pub fn deep_clone(&self) -> (r: SvgoConfig)
        ensures
            r.main@ == self.main@,
            r.extension_overrides@ == self.extension_overrides@,
    {
        SvgoConfig { main: self.main.deep_clone(), extension_overrides: self.extension_overrides.deep_clone() }
    }

    /// The `js2svg` configuration object.
    pub fn get_js2svg(&self) -> (r: Option<&JsonMap>)
        ensures
            match r {
                Some(m) => js2svg_of(self.main@) == Some(m@),
                None => js2svg_of(self.main@) is None,
            },
    {
        match self.main.get("js2svg") {
            Some(v) => v.as_object(),
            None => None,
        }
    }

    /// The configured indent, if it is an integer.
    pub fn get_indent(&self) -> (r: Option<i64>)
        ensures
            r == match js2svg_value(self.main@, "indent"@) {
                Some(v) => model_as_i64(v),
                None => None,
            },
    {
        match self.get_js2svg() {
            Some(js) => match js.get("indent") {
                Some(v) => v.as_i64(),
                None => None,
            },
            None => None,
        }
    }

    /// The configured end-of-line style, if it is a string.
    pub fn get_eol(&self) -> (r: Option<&str>)
        ensures
            match r {
                Some(s) => (match js2svg_value(self.main@, "eol"@) {
                    Some(v) => model_as_str(v),
                    None => None,
                }) == Some(s@),
                None => (match js2svg_value(self.main@, "eol"@) {
                    Some(v) => model_as_str(v),
                    None => None,
                }) is None,
            },
    {
        match self.get_js2svg() {
            Some(js) => match js.get("eol") {
                Some(v) => v.as_str(),
                None => None,
            },
            None => None,
        }
    }

    /// Whether pretty printing is enabled, if it is a boolean.
    pub fn is_pretty(&self) -> (r: Option<bool>)
        ensures
            r == match js2svg_value(self.main@, "pretty"@) {
                Some(v) => model_as_bool(v),
                None => None,
            },
    {
        match self.get_js2svg() {
            Some(js) => match js.get("pretty") {
                Some(v) => v.as_bool(),
                None => None,
            },
            None => None,
        }
    }

    /// Whether multipass optimization is asked for, if the main option
    /// `multipass` is a boolean.
    pub fn is_multipass(&self) -> (r: Option<bool>)
        ensures
            r == match map_get(self.main@, "multipass"@) {
                Some(v) => model_as_bool(v),
                None => None,
            },
    {
        match self.main.get("multipass") {
            Some(v) => v.as_bool(),
            None => None,
        }
    }

    /// A value of the main configuration.
    pub fn get_main_value(&self, key: &str) -> (r: Option<&JsonValue>)
        ensures
            match r {
                Some(v) => map_get(self.main@, key@) == Some(v@),
                None => map_get(self.main@, key@) is None,
            },
    {
        self.main.get(key)
    }

    /// The override configuration of an extension.
    pub fn get_extension_override(&self, ext: &str) -> (r: Option<&JsonValue>)
        ensures
            match r {
                Some(v) => map_get(self.extension_overrides@, ext@) == Some(v@),
                None => map_get(self.extension_overrides@, ext@) is None,
            },
    {
        self.extension_overrides.get(ext)
    }

    /// Whether an extension has override configuration.
    pub fn has_extension_override(&self, ext: &str) -> (r: bool)
        ensures
            r == (map_get(self.extension_overrides@, ext@) is Some),
    {
        self.extension_overrides.contains_key(ext)
    }
}

/// The `js2svg` object that the settings give, the diagnostics of reading
/// them, and the configuration that is left once they are taken out.
pub open spec fn js2svg_stage(c0: Seq<(Seq<char>, ConfigModel)>, g: GlobalConfiguration) -> (
    Seq<(Seq<char>, JsonModel)>,
    Seq<(Seq<char>, Seq<char>)>,
    Seq<(Seq<char>, ConfigModel)>,
) {
    let r1 = read_setting(map_get(c0, "indentWidth"@), "indentWidth"@, u8_parser());
    let c1 = map_remove(c0, "indentWidth"@);
    let tab: u8 = match r1.0 {
        Some(v) => v,
        None => match g.indent_width {
            Some(w) => w,
            None => 2u8,
        },
    };
    let r2 = read_setting(map_get(c1, "indent"@), "indent"@, u8_parser());
    let c2 = map_remove(c1, "indent"@);
    let indent: u8 = match r2.0 {
        Some(v) => v,
        None => tab,
    };
    let r3 = read_setting(map_get(c2, "newLineKind"@), "newLineKind"@, new_line_kind_parser());
    let c3 = map_remove(c2, "newLineKind"@);
    let kind = match r3.0 {
        Some(k) => k,
        None => match g.new_line_kind {
            Some(k) => k,
            None => NewLineKind::LineFeed,
        },
    };
    let r4 = read_setting(map_get(c3, "eol"@), "eol"@, string_parser());
    let c4 = map_remove(c3, "eol"@);
    let eol = match r4.0 {
        Some(s) => s,
        None => if kind is CarriageReturnLineFeed {
            "crlf"@
        } else {
            "lf"@
        },
    };
    let r5 = read_setting(map_get(c4, "pretty"@), "pretty"@, bool_parser());
    let c5 = map_remove(c4, "pretty"@);
    let pretty = match r5.0 {
        Some(b) => b,
        None => true,
    };
    let r6 = read_setting(map_get(c5, "finalNewline"@), "finalNewline"@, bool_parser());
    let c6 = map_remove(c5, "finalNewline"@);
    let r7 = read_setting(map_get(c6, "useShortTags"@), "useShortTags"@, bool_parser());
    let c7 = map_remove(c6, "useShortTags"@);
    let js = map_insert(Seq::empty(), "indent"@, JsonModel::Number(NumberModel::PosInt(indent as u64)));
    let js = map_insert(js, "eol"@, JsonModel::Str(eol));
    let js = map_insert(js, "pretty"@, JsonModel::Bool(pretty));
    let js = match r6.0 {
        Some(b) => map_insert(js, "finalNewline"@, JsonModel::Bool(b)),
        None => js,
    };
    let js = match r7.0 {
        Some(b) => map_insert(js, "useShortTags"@, JsonModel::Bool(b)),
        None => js,
    };
    (js, r1.1 + r2.1 + r3.1 + r4.1 + r5.1 + r6.1 + r7.1, c7)
}

/// The value that a setting is stored as: its JSON form, except that a string
/// under `plugins` is replaced by `parsed_plugins` when that is given.
pub open spec fn stored_value(key: Seq<char>, v: ConfigModel, parsed_plugins: Option<JsonModel>) -> JsonModel {
    let j = config_to_json(v);
    if key == "plugins"@ && j is Str && parsed_plugins is Some {
        parsed_plugins->0
    } else {
        j
    }
}

/// The main options, the extension overrides and the diagnostics after the
/// setting `e` is handled: it is checked; a key with a `.` goes to the
/// override of its lower-cased prefix; any other key goes to the main
/// options.
pub open spec fn apply_entry(
    st: (Seq<(Seq<char>, JsonModel)>, Seq<(Seq<char>, JsonModel)>, Seq<(Seq<char>, Seq<char>)>),
    e: (Seq<char>, ConfigModel),
    parsed_plugins: Option<JsonModel>,
) -> (Seq<(Seq<char>, JsonModel)>, Seq<(Seq<char>, JsonModel)>, Seq<(Seq<char>, Seq<char>)>) {
    let v = stored_value(e.0, e.1, parsed_plugins);
    let diags = st.2 + validation_diagnostics(e.0, v);
    match split_key(e.0) {
        Some((ext, name)) => (st.0, insert_nested_model(st.1, lowercase_text(ext), name, v), diags),
        None => (map_insert(st.0, e.0, v), st.1, diags),
    }
}

/// The settings `es` handled in order.
pub open spec fn apply_entries(
    st: (Seq<(Seq<char>, JsonModel)>, Seq<(Seq<char>, JsonModel)>, Seq<(Seq<char>, Seq<char>)>),
    es: Seq<(Seq<char>, ConfigModel)>,
    parsed_plugins: Option<JsonModel>,
) -> (Seq<(Seq<char>, JsonModel)>, Seq<(Seq<char>, JsonModel)>, Seq<(Seq<char>, Seq<char>)>)
    decreases es.len(),
{
    if es.len() == 0 {
        st
    } else {
        apply_entry(apply_entries(st, es.drop_last(), parsed_plugins), es.last(), parsed_plugins)
    }
}

/// How `multipass` is read from the settings left after the `js2svg`
/// settings: its value (default `false`), its diagnostics, and the settings
/// left once it is taken out.
pub open spec fn multipass_stage(c: Seq<(Seq<char>, ConfigModel)>) -> (
    bool,
    Seq<(Seq<char>, Seq<char>)>,
    Seq<(Seq<char>, ConfigModel)>,
) {
    let r = read_setting(map_get(c, "multipass"@), "multipass"@, bool_parser());
    let value = match r.0 {
        Some(b) => b,
        None => false,
    };
    (value, r.1, map_remove(c, "multipass"@))
}

/// The main options before the remaining settings are handled: the `js2svg`
/// options and `multipass`.
pub open spec fn initial_main(js: Seq<(Seq<char>, JsonModel)>, multipass: bool) -> Seq<(Seq<char>, JsonModel)> {
    map_insert(
        map_insert(Seq::empty(), "js2svg"@, JsonModel::Object(js)),
        "multipass"@,
        JsonModel::Bool(multipass),
    )
}

/// The resolved configuration, given what a `plugins` string parsed to: its
/// main options, its extension overrides, and its diagnostics.
pub open spec fn resolve_parsed_model(
    config: Seq<(Seq<char>, ConfigModel)>,
    g: GlobalConfiguration,
    parsed_plugins: Option<JsonModel>,
) -> (Seq<(Seq<char>, JsonModel)>, Seq<(Seq<char>, JsonModel)>, Seq<(Seq<char>, Seq<char>)>) {
    let stage = js2svg_stage(config, g);
    let mp = multipass_stage(stage.2);
    apply_entries((initial_main(stage.0, mp.0), Seq::empty(), stage.1 + mp.1), mp.2, parsed_plugins)
}

/// What the JSON text of a string under `plugins` parses to, when there is
/// such a string and it parses.
pub open spec fn plugins_parse(config: Seq<(Seq<char>, ConfigModel)>) -> Option<JsonModel> {
    match map_get(config, "plugins"@) {
        Some(ConfigModel::Str(text)) => json_parse_outcome(text),
        _ => None,
    }
}

/// Whether every character of `s` is ASCII.
pub open spec fn ascii_text(s: Seq<char>) -> bool {
    forall|i: int| 0 <= i < s.len() ==> (#[trigger] s[i] as u32) < 128
}

/// The ASCII lower case of `s`, character by character.
pub open spec fn ascii_lowercase(s: Seq<char>) -> Seq<char> {
    s.map_values(|c: char| ascii_lower(c))
}

/// Whether the lower-cased prefix of the key `k`, if it has a `.` and its
/// prefix is ASCII, is the ASCII lower case of that prefix.
pub open spec fn prefix_lowercase_known(k: Seq<char>) -> bool {
    match split_key(k) {
        Some((ext, _)) => ascii_text(ext) ==> lowercase_text(ext) == ascii_lowercase(ext),
        None => true,
    }
}

/// The resolved configuration of the host's settings `config`: its main
/// options, its extension overrides, and its diagnostics.
pub open spec fn resolve_config_model(
    config: Seq<(Seq<char>, ConfigModel)>,
    g: GlobalConfiguration,
) -> (Seq<(Seq<char>, JsonModel)>, Seq<(Seq<char>, JsonModel)>, Seq<(Seq<char>, Seq<char>)>) {
    resolve_parsed_model(config, g, plugins_parse(config))
}

/// Resolves the plugin configuration from the host's configuration.
///
/// The `js2svg` options come from `indent` (default: `indentWidth`, then the
/// global indent width, then 2), `eol` (default from `newLineKind`, then the
/// global newline kind: `crlf` for CRLF, else `lf`), `pretty` (default
/// `true`), `finalNewline` and `useShortTags`; `multipass` is a main option
/// (default `false`). Every other key is checked and kept: `<ext>.<key>` (so
/// also `svg.<key>`, which applies to `.svg` files) as an override for files
/// with extension `<ext>`, other keys as main options. A string under
/// `plugins` that holds JSON is kept as the value it parses to.
pub fn resolve_config(config: ConfigMap, global_config: GlobalConfiguration) -> (r: ResolveConfigurationResult<
    SvgoConfig,
>)
    ensures
        (r.config.main@, r.config.extension_overrides@, diagnostics_model(r.diagnostics@))
            == resolve_config_model(config@, global_config),
        keys_unique(config@) ==> forall|k: Seq<char>, ext: Seq<char>, name: Seq<char>|
            #![trigger split_key(k), override_holds(r.config.extension_overrides@, ascii_lowercase(ext), name)]
            map_get(config@, k) is Some && split_key(k) == Some((ext, name)) && ascii_text(ext)
                ==> override_holds(r.config.extension_overrides@, ascii_lowercase(ext), name),
{
    let parsed_plugins = match config.get("plugins") {
        Some(ConfigValue::String(text)) => parse_json(text.as_str()),
        _ => None,
    };
    let ghost c0 = config@;
    let r = resolve_parsed_config(config, global_config, parsed_plugins);
    proof {
        if keys_unique(c0) {
            assert forall|k: Seq<char>, ext: Seq<char>, name: Seq<char>|
                map_get(c0, k) is Some && split_key(k) == Some((ext, name)) && ascii_text(ext) implies
                override_holds(r.config.extension_overrides@, ascii_lowercase(ext), name) by {
                lemma_split_key_not_setting(k, ext, name);
                lemma_settings_left(c0, global_config, k);
                let stage = js2svg_stage(c0, global_config);
                lemma_remove_get(stage.2, "multipass"@, k);
                let left = multipass_stage(stage.2).2;
                lemma_find_key(left, k);
                let p = find_key(left, k)->0;
                assert(prefix_lowercase_known(left[p].0));
                lemma_extension_setting_kept(c0, global_config, k, ext, name);
            }
        }
    }
    r
}

/// Resolves a configuration given what the JSON text of a string under
/// `plugins` parsed to (`parsed_plugins`; `None` when there is no such string
/// or it does not parse).
#[verifier::rlimit(40)]
pub fn resolve_parsed_config(
    config: ConfigMap,
    global_config: GlobalConfiguration,
    parsed_plugins: Option<JsonValue>,
) -> (r: ResolveConfigurationResult<SvgoConfig>)
    ensures
        (r.config.main@, r.config.extension_overrides@, diagnostics_model(r.diagnostics@))
            == resolve_parsed_model(config@, global_config, option_model(parsed_plugins)),
        forall|j: int|
            0 <= j < multipass_stage(js2svg_stage(config@, global_config).2).2.len()
                ==> prefix_lowercase_known(
                #[trigger] multipass_stage(js2svg_stage(config@, global_config).2).2[j].0,
            ),
{
    let ghost parsed = option_model(parsed_plugins);
    let mut config = config;
    let ghost c0 = config@;
    let mut diagnostics: Vec<ConfigurationDiagnostic> = Vec::new();
    let tab_default = match global_config.indent_width {
        Some(w) => w,
        None => 2u8,
    };
    let tab = match get_nullable_u8(&mut config, "indentWidth", &mut diagnostics) {
        Some(v) => v,
        None => tab_default,
    };
    let indent = match get_nullable_u8(&mut config, "indent", &mut diagnostics) {
        Some(v) => v,
        None => tab,
    };
    let kind_default = match global_config.new_line_kind {
        Some(k) => k,
        None => NewLineKind::LineFeed,
    };
    let kind = match get_nullable_new_line_kind(&mut config, "newLineKind", &mut diagnostics) {
        Some(k) => k,
        None => kind_default,
    };
    let mut js2svg = JsonMap::new();
    js2svg.insert("indent".to_owned(), JsonValue::Number(JsonNumber::PosInt(indent as u64)));
    let eol = match get_nullable_string(&mut config, "eol", &mut diagnostics) {
        Some(s) => s,
        None => match kind {
            NewLineKind::CarriageReturnLineFeed => "crlf".to_owned(),
            _ => "lf".to_owned(),
        },
    };
    js2svg.insert("eol".to_owned(), JsonValue::String(eol));
    let pretty = match get_nullable_bool(&mut config, "pretty", &mut diagnostics) {
        Some(b) => b,
        None => true,
    };
    js2svg.insert("pretty".to_owned(), JsonValue::Bool(pretty));
    match get_nullable_bool(&mut config, "finalNewline", &mut diagnostics) {
        Some(b) => js2svg.insert("finalNewline".to_owned(), JsonValue::Bool(b)),
        None => {},
    }
    match get_nullable_bool(&mut config, "useShortTags", &mut diagnostics) {
        Some(b) => js2svg.insert("useShortTags".to_owned(), JsonValue::Bool(b)),
        None => {},
    }
    let ghost stage = js2svg_stage(c0, global_config);
    assert(js2svg@ == stage.0);
    assert(diagnostics_model(diagnostics@) =~= Seq::empty() + stage.1);
    assert(config@ == stage.2);
    let multipass = match get_nullable_bool(&mut config, "multipass", &mut diagnostics) {
        Some(b) => b,
        None => false,
    };
    let ghost mp = multipass_stage(stage.2);
    assert(diagnostics_model(diagnostics@) =~= stage.1 + mp.1);
    let mut main = JsonMap::new();
    main.insert("js2svg".to_owned(), JsonValue::Object(js2svg));
    main.insert("multipass".to_owned(), JsonValue::Bool(multipass));
    assert(main@ == initial_main(stage.0, mp.0));
    let mut extension_overrides = JsonMap::new();
    let ghost rest_model = config@;
    assert(rest_model == mp.2);
    let ghost orig = config.entries@;
    let mut rest = config.entries;
    let mut i: usize = 0;
    let ghost start = (main@, extension_overrides@, diagnostics_model(diagnostics@));
    proof {
        lemma_config_entries_model(orig);
        assert(orig.subrange(0, orig.len() as int) =~= orig);
        assert(orig.len() == rest.len());
        assert(rest_model.take(0) =~= Seq::<(Seq<char>, ConfigModel)>::empty());
    }
    while rest.len() > 0
        invariant
            i <= orig.len() <= usize::MAX,
            rest@ == orig.subrange(i as int, orig.len() as int),
            rest_model == crate::config_map::config_entries_model(orig),
            rest_model.len() == orig.len(),
            forall|j: int|
                0 <= j < orig.len() ==> #[trigger] rest_model[j] == (orig[j].0@, config_model(orig[j].1)),
            parsed == option_model(parsed_plugins),
            (main@, extension_overrides@, diagnostics_model(diagnostics@)) == apply_entries(
                start,
                rest_model.take(i as int),
                parsed,
            ),
            forall|j: int| 0 <= j < i ==> prefix_lowercase_known(#[trigger] rest_model[j].0),
        decreases rest.len(),
    {
        let (key, value) = rest.remove(0);
        assert((key, value) == orig[i as int]);
        let ghost prev = rest_model.take(i as int);
        let ghost next = rest_model.take(i + 1);
        assert(next.drop_last() =~= prev);
        assert(next.last() == (key@, config_model(value)));
        let converted = config_key_value_to_json(value);
        let stored = if str_eq(key.as_str(), "plugins") && converted.as_str().is_some()
            && parsed_plugins.is_some() {
            match &parsed_plugins {
                Some(p) => p.deep_clone(),
                None => converted,
            }
        } else {
            converted
        };
        assert(stored@ == stored_value(key@, next.last().1, parsed));
        validate_config_value(key.as_str(), &stored, &mut diagnostics);
        match split_key_exec(key.as_str()) {
            Some((ext, name)) => {
                let ext = to_lowercase(ext.as_str());
                assert(prefix_lowercase_known(key@));
                extension_overrides.insert_nested(ext, name, stored);
            },
            None => {
                main.insert(key, stored);
            },
        }
        i = i + 1;
        assert(rest@ =~= orig.subrange(i as int, orig.len() as int));
    }
    proof {
        assert(rest_model.take(orig.len() as int) =~= rest_model);
    }
    ResolveConfigurationResult { diagnostics, config: SvgoConfig { main, extension_overrides } }
}

} // verus!

verus! {

/// The value of the last alias of `name` among the settings, if any.
pub open spec fn last_alias_value(es: Seq<(Seq<char>, ConfigModel)>, name: Seq<char>) -> Option<ConfigModel>
    decreases es.len(),
{
    if es.len() == 0 {
        None
    } else if is_svg_alias(es.last().0) && base_key(es.last().0) == name {
        Some(es.last().1)
    } else {
        last_alias_value(es.drop_last(), name)
    }
}

proof fn lemma_alias_entries_last(es: Seq<(Seq<char>, ConfigModel)>, name: Seq<char>)
    ensures
        last_value(alias_entries(es), name) == last_alias_value(es, name),
    decreases es.len(),
{
    if es.len() > 0 {
        lemma_alias_entries_last(es.drop_last(), name);
        if is_svg_alias(es.last().0) {
            assert(alias_entries(es).drop_last() =~= alias_entries(es.drop_last()));
        }
    }
}

proof fn lemma_plain_entries_last(es: Seq<(Seq<char>, ConfigModel)>, name: Seq<char>)
    requires
        !is_svg_alias(name),
    ensures
        last_value(plain_entries(es), name) == last_value(es, name),
    decreases es.len(),
{
    if es.len() > 0 {
        lemma_plain_entries_last(es.drop_last(), name);
        if !is_svg_alias(es.last().0) {
            assert(plain_entries(es).drop_last() =~= plain_entries(es.drop_last()));
        }
    }
}

/// A legacy `svg.<name>` key is an alias of `<name>` that wins over it: after
/// normalization, `<name>` holds the value of its last alias, or else its own
/// last value.
pub proof fn lemma_svg_alias_wins(es: Seq<(Seq<char>, ConfigModel)>, name: Seq<char>)
    requires
        !is_svg_alias(name),
    ensures
        map_get(normalized_entries(es), name) == match last_alias_value(es, name) {
            Some(v) => Some(v),
            None => last_value(es, name),
        },
{
    let empty = Seq::<(Seq<char>, ConfigModel)>::empty();
    let first = map_insert_all(empty, plain_entries(es));
    lemma_insert_all_get(first, alias_entries(es), name);
    lemma_insert_all_get(empty, plain_entries(es), name);
    lemma_find_key(empty, name);
    lemma_alias_entries_last(es, name);
    lemma_plain_entries_last(es, name);
}

} // verus!

verus! {

/// Distinct setting names are distinct texts.
proof fn lemma_setting_names_distinct()
    ensures
        "indent"@ != "eol"@,
        "indent"@ != "pretty"@,
        "eol"@ != "pretty"@,
        "finalNewline"@ != "indent"@,
        "finalNewline"@ != "eol"@,
        "finalNewline"@ != "pretty"@,
        "useShortTags"@ != "indent"@,
        "useShortTags"@ != "eol"@,
        "useShortTags"@ != "pretty"@,
{
    reveal_strlit("indent");
    reveal_strlit("eol");
    reveal_strlit("pretty");
    reveal_strlit("finalNewline");
    reveal_strlit("useShortTags");
    assert("indent"@[0] != "pretty"@[0]);
    assert("finalNewline"@[0] != "useShortTags"@[0]);
    assert("finalNewline"@.len() != "indent"@.len());
    assert("finalNewline"@.len() != "eol"@.len());
    assert("finalNewline"@.len() != "pretty"@.len());
    assert("useShortTags"@.len() != "indent"@.len());
    assert("useShortTags"@.len() != "eol"@.len());
    assert("useShortTags"@.len() != "pretty"@.len());
    assert("indent"@.len() != "eol"@.len());
    assert("eol"@.len() != "pretty"@.len());
}

/// Handling settings none of which is named `k` leaves the main option `k`
/// as it was.
proof fn lemma_apply_entries_keep(
    st: (Seq<(Seq<char>, JsonModel)>, Seq<(Seq<char>, JsonModel)>, Seq<(Seq<char>, Seq<char>)>),
    es: Seq<(Seq<char>, ConfigModel)>,
    parsed: Option<JsonModel>,
    k: Seq<char>,
)
    requires
        forall|i: int| 0 <= i < es.len() ==> #[trigger] es[i].0 != k,
    ensures
        map_get(apply_entries(st, es, parsed).0, k) == map_get(st.0, k),
    decreases es.len(),
{
    if es.len() > 0 {
        assert forall|i: int| 0 <= i < es.drop_last().len() implies #[trigger] es.drop_last()[i].0 != k by {
            assert(es.drop_last()[i] == es[i]);
        }
        lemma_apply_entries_keep(st, es.drop_last(), parsed, k);
        let prev = apply_entries(st, es.drop_last(), parsed);
        let e = es.last();
        assert(e.0 != k);
        lemma_insert_get(prev.0, e.0, stored_value(e.0, e.1, parsed), k);
    }
}

/// Removing settings from unique ones never brings the key `k` in.
proof fn lemma_remove_keeps_absent(es: Seq<(Seq<char>, ConfigModel)>, removed: Seq<char>, k: Seq<char>)
    requires
        keys_unique(es),
        map_get(es, k) is None,
    ensures
        keys_unique(map_remove(es, removed)),
        map_get(map_remove(es, removed), k) is None,
{
    lemma_remove_get(es, removed, k);
}

/// The main options start with the `js2svg` options and `multipass`.
proof fn lemma_initial_main(js: Seq<(Seq<char>, JsonModel)>, multipass: bool)
    ensures
        map_get(initial_main(js, multipass), "js2svg"@) == Some(JsonModel::Object(js)),
        map_get(initial_main(js, multipass), "multipass"@) == Some(JsonModel::Bool(multipass)),
{
    reveal_strlit("js2svg");
    reveal_strlit("multipass");
    assert("js2svg"@.len() != "multipass"@.len());
    let empty = Seq::<(Seq<char>, JsonModel)>::empty();
    let first = map_insert(empty, "js2svg"@, JsonModel::Object(js));
    lemma_find_key(empty, "js2svg"@);
    lemma_find_key(empty, "multipass"@);
    lemma_insert_get(empty, "js2svg"@, JsonModel::Object(js), "js2svg"@);
    lemma_insert_get(empty, "js2svg"@, JsonModel::Object(js), "multipass"@);
    lemma_insert_get(first, "multipass"@, JsonModel::Bool(multipass), "js2svg"@);
    lemma_insert_get(first, "multipass"@, JsonModel::Bool(multipass), "multipass"@);
}

/// The `js2svg` options that the settings give always hold `indent`, `eol`
/// and `pretty`; unless the configuration sets `js2svg` itself, they are the
/// main option `js2svg`.
pub proof fn lemma_js2svg_options(config: Seq<(Seq<char>, ConfigModel)>, g: GlobalConfiguration)
    requires
        keys_unique(config),
    ensures
        ({
            let js = js2svg_stage(config, g).0;
            &&& map_get(js, "indent"@) matches Some(JsonModel::Number(NumberModel::PosInt(_)))
            &&& map_get(js, "eol"@) matches Some(JsonModel::Str(_))
            &&& map_get(js, "pretty"@) matches Some(JsonModel::Bool(_))
            &&& map_get(config, "js2svg"@) is None ==> map_get(resolve_config_model(config, g).0, "js2svg"@)
                == Some(JsonModel::Object(js))
            &&& match map_get(config, "indent"@) {
                Some(ConfigModel::Number(i)) => 0 <= i <= 255 ==> map_get(js, "indent"@) == Some(
                    JsonModel::Number(NumberModel::PosInt(i as u64)),
                ),
                _ => true,
            }
            &&& match map_get(config, "pretty"@) {
                Some(ConfigModel::Bool(p)) => map_get(js, "pretty"@) == Some(JsonModel::Bool(p)),
                _ => true,
            }
            &&& match map_get(config, "eol"@) {
                Some(ConfigModel::Str(t)) => map_get(js, "eol"@) == Some(JsonModel::Str(t)),
                _ => true,
            }
            &&& match map_get(config, "finalNewline"@) {
                Some(ConfigModel::Bool(b)) => map_get(js, "finalNewline"@) == Some(JsonModel::Bool(b)),
                None => map_get(js, "finalNewline"@) is None,
                _ => true,
            }
            &&& match map_get(config, "useShortTags"@) {
                Some(ConfigModel::Bool(b)) => map_get(js, "useShortTags"@) == Some(JsonModel::Bool(b)),
                None => map_get(js, "useShortTags"@) is None,
                _ => true,
            }
        }),
{
    let c0 = config;
    reveal_strlit("indentWidth");
    reveal_strlit("indent");
    reveal_strlit("newLineKind");
    reveal_strlit("eol");
    reveal_strlit("pretty");
    reveal_strlit("true");
    reveal_strlit("false");
    assert("indentWidth"@.len() != "indent"@.len());
    assert("indentWidth"@.len() != "pretty"@.len());
    assert("newLineKind"@.len() != "pretty"@.len());
    assert("true"@.len() != "false"@.len());
    let stage = js2svg_stage(c0, g);
    lemma_setting_names_distinct();
    let r1 = read_setting(map_get(c0, "indentWidth"@), "indentWidth"@, u8_parser());
    let tab: u8 = match r1.0 {
        Some(v) => v,
        None => match g.indent_width {
            Some(w) => w,
            None => 2u8,
        },
    };
    let c1 = map_remove(c0, "indentWidth"@);
    let r2 = read_setting(map_get(c1, "indent"@), "indent"@, u8_parser());
    let indent: u8 = match r2.0 {
        Some(v) => v,
        None => tab,
    };
    let c2 = map_remove(c1, "indent"@);
    let r3 = read_setting(map_get(c2, "newLineKind"@), "newLineKind"@, new_line_kind_parser());
    let kind = match r3.0 {
        Some(k) => k,
        None => match g.new_line_kind {
            Some(k) => k,
            None => NewLineKind::LineFeed,
        },
    };
    let c3 = map_remove(c2, "newLineKind"@);
    let r4 = read_setting(map_get(c3, "eol"@), "eol"@, string_parser());
    let eol = match r4.0 {
        Some(s) => s,
        None => if kind is CarriageReturnLineFeed {
            "crlf"@
        } else {
            "lf"@
        },
    };
    let c4 = map_remove(c3, "eol"@);
    let r5 = read_setting(map_get(c4, "pretty"@), "pretty"@, bool_parser());
    let pretty = match r5.0 {
        Some(b) => b,
        None => true,
    };
    let c5 = map_remove(c4, "pretty"@);
    let r6 = read_setting(map_get(c5, "finalNewline"@), "finalNewline"@, bool_parser());
    let c6 = map_remove(c5, "finalNewline"@);
    let r7 = read_setting(map_get(c6, "useShortTags"@), "useShortTags"@, bool_parser());
    let c7 = map_remove(c6, "useShortTags"@);
    let empty = Seq::<(Seq<char>, JsonModel)>::empty();
    let js1 = map_insert(empty, "indent"@, JsonModel::Number(NumberModel::PosInt(indent as u64)));
    let js2 = map_insert(js1, "eol"@, JsonModel::Str(eol));
    let js3 = map_insert(js2, "pretty"@, JsonModel::Bool(pretty));
    let js4 = match r6.0 {
        Some(b) => map_insert(js3, "finalNewline"@, JsonModel::Bool(b)),
        None => js3,
    };
    let js5 = match r7.0 {
        Some(b) => map_insert(js4, "useShortTags"@, JsonModel::Bool(b)),
        None => js4,
    };
    assert(stage.0 == js5);
    assert(stage.2 == c7);
    lemma_remove_get(c0, "indentWidth"@, "indent"@);
    lemma_remove_get(c0, "indentWidth"@, "pretty"@);
    lemma_remove_get(c1, "indent"@, "pretty"@);
    lemma_remove_get(c2, "newLineKind"@, "pretty"@);
    lemma_remove_get(c3, "eol"@, "pretty"@);
    reveal_strlit("finalNewline");
    reveal_strlit("useShortTags");
    assert("finalNewline"@[0] != "useShortTags"@[0]);
    assert("finalNewline"@.len() != "indentWidth"@.len());
    assert("useShortTags"@.len() != "indentWidth"@.len());
    assert("eol"@.len() != "indentWidth"@.len());
    assert("eol"@.len() != "newLineKind"@.len());
    lemma_remove_get(c0, "indentWidth"@, "eol"@);
    lemma_remove_get(c1, "indent"@, "eol"@);
    lemma_remove_get(c2, "newLineKind"@, "eol"@);
    lemma_remove_get(c0, "indentWidth"@, "finalNewline"@);
    lemma_remove_get(c1, "indent"@, "finalNewline"@);
    lemma_remove_get(c2, "newLineKind"@, "finalNewline"@);
    lemma_remove_get(c3, "eol"@, "finalNewline"@);
    lemma_remove_get(c4, "pretty"@, "finalNewline"@);
    lemma_remove_get(c0, "indentWidth"@, "useShortTags"@);
    lemma_remove_get(c1, "indent"@, "useShortTags"@);
    lemma_remove_get(c2, "newLineKind"@, "useShortTags"@);
    lemma_remove_get(c3, "eol"@, "useShortTags"@);
    lemma_remove_get(c4, "pretty"@, "useShortTags"@);
    lemma_remove_get(c5, "finalNewline"@, "useShortTags"@);
    lemma_find_key(empty, "finalNewline"@);
    lemma_find_key(empty, "useShortTags"@);
    lemma_insert_get(empty, "indent"@, JsonModel::Number(NumberModel::PosInt(indent as u64)), "finalNewline"@);
    lemma_insert_get(js1, "eol"@, JsonModel::Str(eol), "finalNewline"@);
    lemma_insert_get(js2, "pretty"@, JsonModel::Bool(pretty), "finalNewline"@);
    lemma_insert_get(empty, "indent"@, JsonModel::Number(NumberModel::PosInt(indent as u64)), "useShortTags"@);
    lemma_insert_get(js1, "eol"@, JsonModel::Str(eol), "useShortTags"@);
    lemma_insert_get(js2, "pretty"@, JsonModel::Bool(pretty), "useShortTags"@);
    match r6.0 {
        Some(b) => {
            lemma_insert_get(js3, "finalNewline"@, JsonModel::Bool(b), "finalNewline"@);
            lemma_insert_get(js3, "finalNewline"@, JsonModel::Bool(b), "useShortTags"@);
        },
        None => {},
    }
    match r7.0 {
        Some(b) => {
            lemma_insert_get(js4, "useShortTags"@, JsonModel::Bool(b), "finalNewline"@);
            lemma_insert_get(js4, "useShortTags"@, JsonModel::Bool(b), "useShortTags"@);
        },
        None => {},
    }
    match map_get(c0, "indent"@) {
        Some(ConfigModel::Number(i)) => {
            if 0 <= i <= 255 {
                lemma_u8_text_value_of_decimal(i as u8);
            }
        },
        _ => {},
    }
    lemma_insert_get(empty, "indent"@, JsonModel::Number(NumberModel::PosInt(indent as u64)), "indent"@);
    lemma_insert_get(js1, "eol"@, JsonModel::Str(eol), "indent"@);
    lemma_insert_get(js1, "eol"@, JsonModel::Str(eol), "eol"@);
    lemma_insert_get(js2, "pretty"@, JsonModel::Bool(pretty), "indent"@);
    lemma_insert_get(js2, "pretty"@, JsonModel::Bool(pretty), "eol"@);
    lemma_insert_get(js2, "pretty"@, JsonModel::Bool(pretty), "pretty"@);
    match r6.0 {
        Some(b) => {
            lemma_insert_get(js3, "finalNewline"@, JsonModel::Bool(b), "indent"@);
            lemma_insert_get(js3, "finalNewline"@, JsonModel::Bool(b), "eol"@);
            lemma_insert_get(js3, "finalNewline"@, JsonModel::Bool(b), "pretty"@);
        },
        None => {},
    }
    match r7.0 {
        Some(b) => {
            lemma_insert_get(js4, "useShortTags"@, JsonModel::Bool(b), "indent"@);
            lemma_insert_get(js4, "useShortTags"@, JsonModel::Bool(b), "eol"@);
            lemma_insert_get(js4, "useShortTags"@, JsonModel::Bool(b), "pretty"@);
        },
        None => {},
    }
    if map_get(c0, "js2svg"@) is None {
        lemma_remove_keeps_absent(c0, "indentWidth"@, "js2svg"@);
        lemma_remove_keeps_absent(c1, "indent"@, "js2svg"@);
        lemma_remove_keeps_absent(c2, "newLineKind"@, "js2svg"@);
        lemma_remove_keeps_absent(c3, "eol"@, "js2svg"@);
        lemma_remove_keeps_absent(c4, "pretty"@, "js2svg"@);
        lemma_remove_keeps_absent(c5, "finalNewline"@, "js2svg"@);
        lemma_remove_keeps_absent(c6, "useShortTags"@, "js2svg"@);
        let mp = multipass_stage(c7);
        lemma_remove_keeps_absent(c7, "multipass"@, "js2svg"@);
        lemma_find_key(mp.2, "js2svg"@);
        lemma_initial_main(js5, mp.0);
        lemma_apply_entries_keep(
            (initial_main(js5, mp.0), empty, stage.1 + mp.1),
            mp.2,
            plugins_parse(c0),
            "js2svg"@,
        );
    }
}

} // verus!

verus! {

/// Whether none of the settings that shape the `js2svg` options is given.
pub open spec fn js2svg_settings_absent(c: Seq<(Seq<char>, ConfigModel)>) -> bool {
    &&& map_get(c, "indentWidth"@) is None
    &&& map_get(c, "indent"@) is None
    &&& map_get(c, "newLineKind"@) is None
    &&& map_get(c, "eol"@) is None
    &&& map_get(c, "pretty"@) is None
    &&& map_get(c, "finalNewline"@) is None
    &&& map_get(c, "useShortTags"@) is None
    &&& map_get(c, "js2svg"@) is None
}

/// The indent used when no setting gives one: the global indent width, else 2.
pub open spec fn default_indent(g: GlobalConfiguration) -> u64 {
    match g.indent_width {
        Some(w) => w as u64,
        None => 2,
    }
}

/// The end of line used when no setting gives one: `crlf` when the global
/// newline kind is CRLF, else `lf`.
pub open spec fn default_eol(g: GlobalConfiguration) -> Seq<char> {
    if g.new_line_kind == Some(NewLineKind::CarriageReturnLineFeed) {
        "crlf"@
    } else {
        "lf"@
    }
}

/// Without settings for them, the `js2svg` options are the defaults: the
/// global indent width (else 2), the global newline kind's end of line (else
/// `lf`), and pretty printing.
pub proof fn lemma_js2svg_defaults(config: Seq<(Seq<char>, ConfigModel)>, g: GlobalConfiguration)
    requires
        keys_unique(config),
        js2svg_settings_absent(config),
    ensures
        map_get(resolve_config_model(config, g).0, "js2svg"@) == Some(
            JsonModel::Object(
                seq![
                    ("indent"@, JsonModel::Number(NumberModel::PosInt(default_indent(g)))),
                    ("eol"@, JsonModel::Str(default_eol(g))),
                    ("pretty"@, JsonModel::Bool(true)),
                ],
            ),
        ),
{
    let c0 = config;
    lemma_js2svg_options(config, g);
    lemma_setting_names_distinct();
    let empty = Seq::<(Seq<char>, JsonModel)>::empty();
    let v1 = JsonModel::Number(NumberModel::PosInt(default_indent(g)));
    let v2 = JsonModel::Str(default_eol(g));
    let v3 = JsonModel::Bool(true);
    let js1 = map_insert(empty, "indent"@, v1);
    lemma_find_key(empty, "indent"@);
    assert(js1 == seq![("indent"@, v1)]);
    lemma_find_key(js1, "eol"@);
    let js2 = map_insert(js1, "eol"@, v2);
    assert(js2 == seq![("indent"@, v1), ("eol"@, v2)]);
    lemma_find_key(js2, "pretty"@);
    let js3 = map_insert(js2, "pretty"@, v3);
    assert(js3 =~= seq![("indent"@, v1), ("eol"@, v2), ("pretty"@, v3)]);
    assert(js2svg_stage(c0, g).0 == js3);
}

} // verus!

verus! {

/// The settings that are left once the `js2svg` settings are taken out.
pub open spec fn settings_left(c: Seq<(Seq<char>, ConfigModel)>) -> Seq<(Seq<char>, ConfigModel)> {
    let c1 = map_remove(c, "indentWidth"@);
    let c2 = map_remove(c1, "indent"@);
    let c3 = map_remove(c2, "newLineKind"@);
    let c4 = map_remove(c3, "eol"@);
    let c5 = map_remove(c4, "pretty"@);
    let c6 = map_remove(c5, "finalNewline"@);
    map_remove(c6, "useShortTags"@)
}

/// Whether `k` names none of the `js2svg` settings.
pub open spec fn not_js2svg_setting(k: Seq<char>) -> bool {
    &&& k != "indentWidth"@
    &&& k != "indent"@
    &&& k != "newLineKind"@
    &&& k != "eol"@
    &&& k != "pretty"@
    &&& k != "finalNewline"@
    &&& k != "useShortTags"@
}

proof fn lemma_settings_left(c: Seq<(Seq<char>, ConfigModel)>, g: GlobalConfiguration, k: Seq<char>)
    requires
        keys_unique(c),
        not_js2svg_setting(k),
    ensures
        js2svg_stage(c, g).2 == settings_left(c),
        keys_unique(settings_left(c)),
        map_get(settings_left(c), k) == map_get(c, k),
{
    let c1 = map_remove(c, "indentWidth"@);
    let c2 = map_remove(c1, "indent"@);
    let c3 = map_remove(c2, "newLineKind"@);
    let c4 = map_remove(c3, "eol"@);
    let c5 = map_remove(c4, "pretty"@);
    let c6 = map_remove(c5, "finalNewline"@);
    lemma_remove_get(c, "indentWidth"@, k);
    lemma_remove_get(c1, "indent"@, k);
    lemma_remove_get(c2, "newLineKind"@, k);
    lemma_remove_get(c3, "eol"@, k);
    lemma_remove_get(c4, "pretty"@, k);
    lemma_remove_get(c5, "finalNewline"@, k);
    lemma_remove_get(c6, "useShortTags"@, k);
}

/// In a map with unique keys, a key that is not the last one is found the
/// same way without the last entry.
proof fn lemma_get_drop_last<V>(es: Seq<(Seq<char>, V)>, k: Seq<char>)
    requires
        keys_unique(es),
        es.len() > 0,
    ensures
        keys_unique(es.drop_last()),
        es.last().0 != k ==> map_get(es.drop_last(), k) == map_get(es, k),
        es.last().0 == k ==> map_get(es, k) == Some(es.last().1),
{
    let d = es.drop_last();
    lemma_find_key(es, k);
    lemma_find_key(d, k);
    assert forall|q: int| 0 <= q < d.len() implies d[q] == es[q] by {}
    if es.last().0 == k {
        match find_key(es, k) {
            Some(p) => {
                if p < es.len() - 1 {
                    assert(es[p].0 == es[es.len() - 1].0);
                }
            },
            None => {
                assert(es[es.len() - 1].0 == k);
            },
        }
    }
}

proof fn lemma_apply_entries_plain_key(
    st: (Seq<(Seq<char>, JsonModel)>, Seq<(Seq<char>, JsonModel)>, Seq<(Seq<char>, Seq<char>)>),
    es: Seq<(Seq<char>, ConfigModel)>,
    parsed: Option<JsonModel>,
    k: Seq<char>,
    v: ConfigModel,
)
    requires
        keys_unique(es),
        map_get(es, k) == Some(v),
        split_key(k) is None,
        k != "multipass"@,
    ensures
        map_get(apply_entries(st, es, parsed).0, k) == Some(stored_value(k, v, parsed)),
    decreases es.len(),
{
    lemma_find_key(es, k);
    lemma_get_drop_last(es, k);
    let e = es.last();
    let prev = apply_entries(st, es.drop_last(), parsed);
    let stored = stored_value(e.0, e.1, parsed);
    if e.0 == k {
        assert(base_key(k) == k);
        lemma_insert_get(prev.0, k, stored, k);
    } else {
        lemma_apply_entries_plain_key(st, es.drop_last(), parsed, k, v);
        lemma_insert_get(prev.0, e.0, stored, k);
    }
}

/// A setting without a `.` that is neither a `js2svg` setting nor `multipass`
/// is handed to SVGO as a main option, with its JSON value (a `plugins`
/// string that holds JSON as the value it parses to); a `js2svg` setting
/// itself replaces the `js2svg` options.
pub proof fn lemma_plain_setting_kept(
    config: Seq<(Seq<char>, ConfigModel)>,
    g: GlobalConfiguration,
    k: Seq<char>,
    v: ConfigModel,
)
    requires
        keys_unique(config),
        map_get(config, k) == Some(v),
        split_key(k) is None,
        not_js2svg_setting(k),
        k != "multipass"@,
    ensures
        map_get(resolve_config_model(config, g).0, k) == Some(stored_value(k, v, plugins_parse(config))),
{
    lemma_settings_left(config, g, k);
    let stage = js2svg_stage(config, g);
    let mp = multipass_stage(stage.2);
    lemma_remove_get(stage.2, "multipass"@, k);
    lemma_apply_entries_plain_key(
        (initial_main(stage.0, mp.0), Seq::empty(), stage.1 + mp.1),
        mp.2,
        plugins_parse(config),
        k,
        v,
    );
}

/// Whether the override of `ext` is an object that holds `name`.
pub open spec fn override_holds(overrides: Seq<(Seq<char>, JsonModel)>, ext: Seq<char>, name: Seq<char>) -> bool {
    match map_get(overrides, ext) {
        Some(JsonModel::Object(inner)) => map_get(inner, name) is Some,
        _ => false,
    }
}

/// Whether `v` is absent or an object.
pub open spec fn absent_or_object(v: Option<JsonModel>) -> bool {
    match v {
        None => true,
        Some(JsonModel::Object(_)) => true,
        _ => false,
    }
}

/// Whether every override is an object.
pub open spec fn overrides_are_objects(overrides: Seq<(Seq<char>, JsonModel)>) -> bool {
    forall|ext: Seq<char>| #[trigger] absent_or_object(map_get(overrides, ext))
}

proof fn lemma_insert_nested_objects(
    overrides: Seq<(Seq<char>, JsonModel)>,
    outer: Seq<char>,
    key: Seq<char>,
    value: JsonModel,
    ext: Seq<char>,
    name: Seq<char>,
)
    requires
        overrides_are_objects(overrides),
    ensures
        overrides_are_objects(insert_nested_model(overrides, outer, key, value)),
        override_holds(overrides, ext, name) ==> override_holds(
            insert_nested_model(overrides, outer, key, value),
            ext,
            name,
        ),
        (outer == ext && key == name) ==> override_holds(
            insert_nested_model(overrides, outer, key, value),
            ext,
            name,
        ),
{
    let r = insert_nested_model(overrides, outer, key, value);
    assert(absent_or_object(map_get(overrides, outer)));
    match map_get(overrides, outer) {
        Some(JsonModel::Object(inner)) => {
            let updated = JsonModel::Object(map_insert(inner, key, value));
            assert forall|x: Seq<char>| #[trigger] absent_or_object(map_get(r, x)) by {
                lemma_insert_get(overrides, outer, updated, x);
                assert(absent_or_object(map_get(overrides, x)));
            }
            lemma_insert_get(overrides, outer, updated, ext);
            lemma_insert_get(inner, key, value, name);
        },
        Some(_) => {},
        None => {
            let fresh = JsonModel::Object(seq![(key, value)]);
            assert forall|x: Seq<char>| #[trigger] absent_or_object(map_get(r, x)) by {
                lemma_insert_get(overrides, outer, fresh, x);
                assert(absent_or_object(map_get(overrides, x)));
            }
            lemma_insert_get(overrides, outer, fresh, ext);
            lemma_find_key(seq![(key, value)], name);
            assert(seq![(key, value)][0].0 == key);
        },
    }
}

proof fn lemma_apply_entries_extension_key(
    st: (Seq<(Seq<char>, JsonModel)>, Seq<(Seq<char>, JsonModel)>, Seq<(Seq<char>, Seq<char>)>),
    es: Seq<(Seq<char>, ConfigModel)>,
    parsed: Option<JsonModel>,
    k: Seq<char>,
    ext: Seq<char>,
    name: Seq<char>,
)
    requires
        overrides_are_objects(st.1),
        keys_of(es).contains(k),
        split_key(k) == Some((ext, name)),
    ensures
        overrides_are_objects(apply_entries(st, es, parsed).1),
        override_holds(apply_entries(st, es, parsed).1, lowercase_text(ext), name),
    decreases es.len(),
{
    let e = es.last();
    let prev = apply_entries(st, es.drop_last(), parsed);
    let v = stored_value(e.0, e.1, parsed);
    lemma_apply_entries_objects(st, es.drop_last(), parsed);
    if e.0 == k {
        assert(base_key(k) == name);
        lemma_insert_nested_objects(prev.1, lowercase_text(ext), name, v, lowercase_text(ext), name);
    } else {
        let j = choose|j: int| 0 <= j < keys_of(es).len() && keys_of(es)[j] == k;
        assert(j < es.len() - 1);
        assert(keys_of(es.drop_last())[j] == k);
        lemma_apply_entries_extension_key(st, es.drop_last(), parsed, k, ext, name);
        match split_key(e.0) {
            Some((x, n)) => {
                lemma_insert_nested_objects(prev.1, lowercase_text(x), n, v, lowercase_text(ext), name);
            },
            None => {},
        }
    }
}

proof fn lemma_apply_entries_objects(
    st: (Seq<(Seq<char>, JsonModel)>, Seq<(Seq<char>, JsonModel)>, Seq<(Seq<char>, Seq<char>)>),
    es: Seq<(Seq<char>, ConfigModel)>,
    parsed: Option<JsonModel>,
)
    requires
        overrides_are_objects(st.1),
    ensures
        overrides_are_objects(apply_entries(st, es, parsed).1),
    decreases es.len(),
{
    if es.len() > 0 {
        let e = es.last();
        let prev = apply_entries(st, es.drop_last(), parsed);
        lemma_apply_entries_objects(st, es.drop_last(), parsed);
        match split_key(e.0) {
            Some((x, n)) => {
                lemma_insert_nested_objects(prev.1, lowercase_text(x), n, stored_value(e.0, e.1, parsed), x, n);
            },
            None => {},
        }
    }
}

/// A setting `<ext>.<name>` (split at its last `.`) lands in the extension
/// overrides: the override of the lower-cased `<ext>` is an object that holds
/// `<name>`.
pub proof fn lemma_extension_setting_kept(
    config: Seq<(Seq<char>, ConfigModel)>,
    g: GlobalConfiguration,
    k: Seq<char>,
    ext: Seq<char>,
    name: Seq<char>,
)
    requires
        keys_unique(config),
        map_get(config, k) is Some,
        split_key(k) == Some((ext, name)),
    ensures
        override_holds(resolve_config_model(config, g).1, lowercase_text(ext), name),
{
    let c0 = config;
    lemma_split_key_not_setting(k, ext, name);
    lemma_settings_left(c0, g, k);
    let stage = js2svg_stage(c0, g);
    let mp = multipass_stage(stage.2);
    lemma_remove_get(stage.2, "multipass"@, k);
    let left = mp.2;
    lemma_find_key(left, k);
    let p = find_key(left, k)->0;
    assert(keys_of(left)[p] == k);
    let main = initial_main(stage.0, mp.0);
    let empty = Seq::<(Seq<char>, JsonModel)>::empty();
    assert forall|x: Seq<char>| #[trigger] absent_or_object(map_get(empty, x)) by {
        lemma_find_key(empty, x);
    }
    lemma_apply_entries_extension_key((main, empty, stage.1 + mp.1), left, plugins_parse(c0), k, ext, name);
}

/// A key with a `.` names none of the `js2svg` settings.
proof fn lemma_split_key_not_setting(k: Seq<char>, ext: Seq<char>, name: Seq<char>)
    requires
        split_key(k) == Some((ext, name)),
    ensures
        not_js2svg_setting(k),
        k != "multipass"@,
{
    lemma_last_index_of(k, '.');
    let i = last_index_of(k, '.')->0;
    assert(k[i] == '.');
    reveal_strlit("indentWidth");
    reveal_strlit("indent");
    reveal_strlit("newLineKind");
    reveal_strlit("eol");
    reveal_strlit("pretty");
    reveal_strlit("finalNewline");
    reveal_strlit("useShortTags");
    reveal_strlit("multipass");
    assert forall|j: int| 0 <= j < "multipass"@.len() implies "multipass"@[j] != '.' by {}
    assert forall|j: int| 0 <= j < "indentWidth"@.len() implies "indentWidth"@[j] != '.' by {}
    assert forall|j: int| 0 <= j < "indent"@.len() implies "indent"@[j] != '.' by {}
    assert forall|j: int| 0 <= j < "newLineKind"@.len() implies "newLineKind"@[j] != '.' by {}
    assert forall|j: int| 0 <= j < "eol"@.len() implies "eol"@[j] != '.' by {}
    assert forall|j: int| 0 <= j < "pretty"@.len() implies "pretty"@[j] != '.' by {}
    assert forall|j: int| 0 <= j < "finalNewline"@.len() implies "finalNewline"@[j] != '.' by {}
    assert forall|j: int| 0 <= j < "useShortTags"@.len() implies "useShortTags"@[j] != '.' by {}
}

} // verus!

verus! {

/// `multipass` is a main option: the boolean that the setting gives, or
/// `false` when it is not set or cannot be read.
pub proof fn lemma_multipass_option(config: Seq<(Seq<char>, ConfigModel)>, g: GlobalConfiguration)
    requires
        keys_unique(config),
    ensures
        map_get(resolve_config_model(config, g).0, "multipass"@) == Some(
            JsonModel::Bool(
                match read_setting(map_get(config, "multipass"@), "multipass"@, bool_parser()).0 {
                    Some(b) => b,
                    None => false,
                },
            ),
        ),
        map_get(config, "multipass"@) is None ==> map_get(resolve_config_model(config, g).0, "multipass"@)
            == Some(JsonModel::Bool(false)),
{
    reveal_strlit("multipass");
    reveal_strlit("indentWidth");
    reveal_strlit("indent");
    reveal_strlit("newLineKind");
    reveal_strlit("eol");
    reveal_strlit("pretty");
    reveal_strlit("finalNewline");
    reveal_strlit("useShortTags");
    assert(not_js2svg_setting("multipass"@)) by {
        assert("multipass"@.len() == 9);
    }
    lemma_settings_left(config, g, "multipass"@);
    let stage = js2svg_stage(config, g);
    let mp = multipass_stage(stage.2);
    lemma_remove_get(stage.2, "multipass"@, "multipass"@);
    lemma_find_key(mp.2, "multipass"@);
    lemma_initial_main(stage.0, mp.0);
    lemma_apply_entries_keep(
        (initial_main(stage.0, mp.0), Seq::empty(), stage.1 + mp.1),
        mp.2,
        plugins_parse(config),
        "multipass"@,
    );
}

/// Settings `indent` (a number up to 255), `pretty` and `multipass` (two
/// booleans) are kept as given, whatever the global configuration: the main
/// `js2svg` options hold that indent and that `pretty`, and the main option
/// `multipass` is that boolean.
pub proof fn lemma_combined_settings(
    config: Seq<(Seq<char>, ConfigModel)>,
    g: GlobalConfiguration,
    indent: i32,
    pretty: bool,
    multipass: bool,
)
    requires
        keys_unique(config),
        map_get(config, "js2svg"@) is None,
        map_get(config, "indent"@) == Some(ConfigModel::Number(indent)),
        0 <= indent <= 255,
        map_get(config, "pretty"@) == Some(ConfigModel::Bool(pretty)),
        map_get(config, "multipass"@) == Some(ConfigModel::Bool(multipass)),
    ensures
        ({
            let main = resolve_config_model(config, g).0;
            &&& map_get(main, "multipass"@) == Some(JsonModel::Bool(multipass))
            &&& map_get(main, "js2svg"@) matches Some(JsonModel::Object(js)) && map_get(js, "indent"@) == Some(
                JsonModel::Number(NumberModel::PosInt(indent as u64)),
            ) && map_get(js, "pretty"@) == Some(JsonModel::Bool(pretty))
        }),
{
    lemma_js2svg_options(config, g);
    lemma_multipass_option(config, g);
    reveal_strlit("true");
    reveal_strlit("false");
    assert("true"@.len() != "false"@.len());
}

/// The `eol` option when the settings give no `newLineKind`: the `eol`
/// string as given (unchecked), or, without an `eol` setting, `crlf` when the
/// global newline kind is CRLF and `lf` otherwise.
pub proof fn lemma_eol_option(config: Seq<(Seq<char>, ConfigModel)>, g: GlobalConfiguration)
    requires
        keys_unique(config),
        map_get(config, "newLineKind"@) is None,
    ensures
        map_get(config, "eol"@) is None ==> map_get(js2svg_stage(config, g).0, "eol"@) == Some(
            JsonModel::Str(default_eol(g)),
        ),
        forall|text: Seq<char>|
            map_get(config, "eol"@) == Some(ConfigModel::Str(text)) ==> map_get(
                #[trigger] js2svg_stage(config, g).0,
                "eol"@,
            ) == Some(JsonModel::Str(text)),
{
    lemma_setting_names_distinct();
    reveal_strlit("indentWidth");
    reveal_strlit("newLineKind");
    reveal_strlit("eol");
    reveal_strlit("indent");
    assert("indentWidth"@.len() != "eol"@.len());
    assert("newLineKind"@.len() != "eol"@.len());
    assert("indentWidth"@.len() != "newLineKind"@.len() || "indentWidth"@[0] != "newLineKind"@[0]);
    assert("indent"@.len() != "newLineKind"@.len());
    let c1 = map_remove(config, "indentWidth"@);
    let c2 = map_remove(c1, "indent"@);
    lemma_remove_get(config, "indentWidth"@, "eol"@);
    lemma_remove_get(config, "indentWidth"@, "newLineKind"@);
    lemma_remove_get(c1, "indent"@, "eol"@);
    lemma_remove_get(c1, "indent"@, "newLineKind"@);
    let c3 = map_remove(c2, "newLineKind"@);
    lemma_remove_get(c2, "newLineKind"@, "eol"@);
    lemma_js2svg_options(config, g);
    let stage = js2svg_stage(config, g);
    let r3 = read_setting(map_get(c2, "newLineKind"@), "newLineKind"@, new_line_kind_parser());
    assert(r3.0 is None);
    let r4 = read_setting(map_get(c3, "eol"@), "eol"@, string_parser());
    let kind = match g.new_line_kind {
        Some(k) => k,
        None => NewLineKind::LineFeed,
    };
    let eol = match r4.0 {
        Some(t) => t,
        None => if kind is CarriageReturnLineFeed {
            "crlf"@
        } else {
            "lf"@
        },
    };
    let r1 = read_setting(map_get(config, "indentWidth"@), "indentWidth"@, u8_parser());
    let tab: u8 = match r1.0 {
        Some(v) => v,
        None => match g.indent_width {
            Some(w) => w,
            None => 2u8,
        },
    };
    let r2 = read_setting(map_get(c1, "indent"@), "indent"@, u8_parser());
    let indent: u8 = match r2.0 {
        Some(v) => v,
        None => tab,
    };
    let empty = Seq::<(Seq<char>, JsonModel)>::empty();
    let js1 = map_insert(empty, "indent"@, JsonModel::Number(NumberModel::PosInt(indent as u64)));
    let js2 = map_insert(js1, "eol"@, JsonModel::Str(eol));
    lemma_insert_get(js1, "eol"@, JsonModel::Str(eol), "eol"@);
    let c4 = map_remove(c3, "eol"@);
    let r5 = read_setting(map_get(c4, "pretty"@), "pretty"@, bool_parser());
    let pretty = match r5.0 {
        Some(b) => b,
        None => true,
    };
    let js3 = map_insert(js2, "pretty"@, JsonModel::Bool(pretty));
    lemma_insert_get(js2, "pretty"@, JsonModel::Bool(pretty), "eol"@);
    let c5 = map_remove(c4, "pretty"@);
    let r6 = read_setting(map_get(c5, "finalNewline"@), "finalNewline"@, bool_parser());
    let js4 = match r6.0 {
        Some(b) => map_insert(js3, "finalNewline"@, JsonModel::Bool(b)),
        None => js3,
    };
    match r6.0 {
        Some(b) => lemma_insert_get(js3, "finalNewline"@, JsonModel::Bool(b), "eol"@),
        None => {},
    }
    let c6 = map_remove(c5, "finalNewline"@);
    let r7 = read_setting(map_get(c6, "useShortTags"@), "useShortTags"@, bool_parser());
    match r7.0 {
        Some(b) => lemma_insert_get(js4, "useShortTags"@, JsonModel::Bool(b), "eol"@),
        None => {},
    }
    assert(map_get(stage.0, "eol"@) == Some(JsonModel::Str(eol)));
}

/// A `plugins` string is kept as the JSON value it parses to, or as the
/// string itself when it is not JSON.
pub proof fn lemma_plugins_string(config: Seq<(Seq<char>, ConfigModel)>, g: GlobalConfiguration, text: Seq<char>)
    requires
        keys_unique(config),
        map_get(config, "plugins"@) == Some(ConfigModel::Str(text)),
    ensures
        map_get(resolve_config_model(config, g).0, "plugins"@) == Some(
            match json_parse_outcome(text) {
                Some(parsed) => parsed,
                None => JsonModel::Str(text),
            },
        ),
{
    reveal_strlit("plugins");
    reveal_strlit("multipass");
    reveal_strlit("indentWidth");
    reveal_strlit("indent");
    reveal_strlit("newLineKind");
    reveal_strlit("eol");
    reveal_strlit("pretty");
    reveal_strlit("finalNewline");
    reveal_strlit("useShortTags");
    assert(not_js2svg_setting("plugins"@) && "plugins"@ != "multipass"@) by {
        assert("plugins"@.len() == 7);
    }
    assert forall|j: int| 0 <= j < "plugins"@.len() implies "plugins"@[j] != '.' by {}
    lemma_last_index_of("plugins"@, '.');
    if last_index_of("plugins"@, '.') is Some {
        let i = last_index_of("plugins"@, '.')->0;
        assert("plugins"@[i] == '.');
    }
    lemma_plain_setting_kept(config, g, "plugins"@, ConfigModel::Str(text));
}

} // verus!
