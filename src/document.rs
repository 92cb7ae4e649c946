//! Reading configuration text into a configuration tree, with the `toml`
//! crate as the parser.

use vstd::prelude::*;
use crate::config::{
    config_wf, converts, fits, lemma_fits_unfold, keys_distinct, lemma_converts_same, same_config, same_config_entries,
    toml2py, ConfigError, ConfigValue, HostDict, HostValue,
};

verus! {

#[verifier::external_type_specification]
#[verifier::external_body]
pub struct ExTomlValue(toml::Value);

#[verifier::external_type_specification]
#[verifier::external_body]
pub struct ExTomlError(toml::de::Error);

/// Arrays and tables nesting deeper than this, the root table included, are
/// reported as `ConfigError::TooDeep` instead of being read.
pub const MAX_NESTING: usize = 1024;

/// The tree the parser reads from the document `text`: `None` where it refuses
/// the text.
pub uninterp spec fn toml_document(text: Seq<char>) -> Option<ConfigValue>;

/// What a `toml::Value` holds, as a configuration tree: floats as their bit
/// patterns, date-times as their `Display` text, tables in insertion order.
pub uninterp spec fn toml_model(v: toml::Value) -> ConfigValue;

/// Relies on `toml::from_str` read into a `toml::Value`: the result depends on
/// the text alone.
#[verifier::external_body]
fn parse_document(text: &str) -> (r: Result<toml::Value, toml::de::Error>)
    ensures
        r is Err <==> toml_document(text@) is None,
        r matches Ok(v) ==> toml_document(text@) == Some(toml_model(v)),
{
    toml::from_str::<toml::Value>(text)
}

/// Relies on `Display` of `toml::de::Error`: the parser's diagnostic.
#[verifier::external_body]
fn error_text(e: &toml::de::Error) -> String {
    e.to_string()
}

/// One level of a `toml::Value`: scalars as plain values, children still in
/// the parser's type.
enum TomlNode {
    String(String),
    Integer(i64),
    Float(u64),
    Boolean(bool),
    Datetime(String),
    Array(Vec<toml::Value>),
    Table(Vec<(String, toml::Value)>),
}

/// `n` is the top level of the tree `m`, each child standing for its part of
/// `m`.
spec fn node_matches(n: TomlNode, m: ConfigValue) -> bool {
    match n {
        TomlNode::String(s) => m matches ConfigValue::String(t) && t@ == s@,
        TomlNode::Integer(x) => m == ConfigValue::Integer(x),
        TomlNode::Float(bits) => m == ConfigValue::Float(bits),
        TomlNode::Boolean(b) => m == ConfigValue::Boolean(b),
        TomlNode::Datetime(s) => m matches ConfigValue::Datetime(t) && t@ == s@,
        TomlNode::Array(items) => m matches ConfigValue::Array(a) && items.len() == a.len()
            && forall|i: int| 0 <= i < items.len() ==> toml_model(#[trigger] items[i]) == a[i],
        TomlNode::Table(entries) => m matches ConfigValue::Table(t) && entries.len() == t.len()
            && keys_distinct(entries@) && forall|i: int|
            #![trigger entries[i]]
            0 <= i < entries.len() ==> entries[i].0@ == t[i].0@ && toml_model(entries[i].1) == t[i].1,
    }
}

/// Relies on the variants of `toml::Value`, on `Display` of
/// `toml::value::Datetime` for a date-time's text, and on `toml::Table`
/// holding each key once, walked in insertion order (feature `preserve_order`).
#[verifier::external_body]
fn toml_node(v: &toml::Value) -> (r: TomlNode)
    ensures
        node_matches(r, toml_model(*v)),
{
    match v {
        toml::Value::String(s) => TomlNode::String(s.clone()),
        toml::Value::Integer(n) => TomlNode::Integer(*n),
        toml::Value::Float(x) => TomlNode::Float(x.to_bits()),
        toml::Value::Boolean(b) => TomlNode::Boolean(*b),
        toml::Value::Datetime(d) => TomlNode::Datetime(d.to_string()),
        toml::Value::Array(a) => TomlNode::Array(a.clone()),
        toml::Value::Table(t) => TomlNode::Table(t.iter().map(|(k, x)| (k.clone(), x.clone())).collect()),
    }
}

/// Builds the configuration tree of a parsed value, descending at most `depth`
/// levels into arrays and tables.
fn from_toml(v: &toml::Value, depth: usize) -> (r: Option<ConfigValue>)
    ensures
        r is Some <==> fits(toml_model(*v), depth as nat),
        r matches Some(c) ==> same_config(c, toml_model(*v)) && config_wf(c),
    decreases depth,
{
    let ghost m = toml_model(*v);
    match toml_node(v) {
        TomlNode::String(s) => Some(ConfigValue::String(s)),
        TomlNode::Integer(n) => Some(ConfigValue::Integer(n)),
        TomlNode::Float(bits) => Some(ConfigValue::Float(bits)),
        TomlNode::Boolean(b) => Some(ConfigValue::Boolean(b)),
        TomlNode::Datetime(s) => Some(ConfigValue::Datetime(s)),
        TomlNode::Array(items) => {
            let ghost a = m->Array_0;
            if depth == 0 {
                return None;
            }
            let mut out: Vec<ConfigValue> = Vec::new();
            let mut i: usize = 0;
            while i < items.len()
                invariant
                    0 < depth,
                    m == toml_model(*v),
                    m == ConfigValue::Array(a),
                    items.len() == a.len(),
                    forall|k: int| 0 <= k < items.len() ==> toml_model(#[trigger] items[k]) == a[k],
                    i <= items.len(),
                    out.len() == i,
                    forall|k: int| #![trigger out[k]]
                        0 <= k < i ==> config_wf(out[k]) && same_config(out[k], a[k]) && fits(
                            a[k],
                            (depth - 1) as nat,
                        ),
                decreases items.len() - i,
            {
                assert(toml_model(items[i as int]) == a[i as int]);
                match from_toml(&items[i], depth - 1) {
                    Some(c) => out.push(c),
                    None => {
                        proof {
                            lemma_fits_unfold(m, depth as nat);
                        }
                        assert(!fits(a[i as int], (depth - 1) as nat));
                        return None;
                    },
                }
                i += 1;
            }
            assert forall|k: int| 0 <= k < a.len() implies fits(#[trigger] a[k], (depth - 1) as nat) by {
                assert(config_wf(out[k]));
            }
            proof {
                lemma_fits_unfold(m, depth as nat);
            }
            let r = ConfigValue::Array(out);
            assert(same_config(r, m));
            Some(r)
        },
        TomlNode::Table(entries) => {
            let ghost t = m->Table_0;
            if depth == 0 {
                return None;
            }
            let mut out: Vec<(String, ConfigValue)> = Vec::new();
            let mut i: usize = 0;
            while i < entries.len()
                invariant
                    0 < depth,
                    m == toml_model(*v),
                    m == ConfigValue::Table(t),
                    keys_distinct(entries@),
                    entries.len() == t.len(),
                    forall|k: int| #![trigger entries[k]]
                        0 <= k < entries.len() ==> entries[k].0@ == t[k].0@ && toml_model(entries[k].1)
                            == t[k].1,
                    i <= entries.len(),
                    out.len() == i,
                    forall|k: int| #![trigger out[k]]
                        0 <= k < i ==> out[k].0@ == entries[k].0@ && config_wf(out[k].1) && same_config(
                            out[k].1,
                            t[k].1,
                        ) && fits(t[k].1, (depth - 1) as nat),
                decreases entries.len() - i,
            {
                assert(toml_model(entries[i as int].1) == t[i as int].1);
                match from_toml(&entries[i].1, depth - 1) {
                    Some(c) => out.push((entries[i].0.clone(), c)),
                    None => {
                        proof {
                            lemma_fits_unfold(m, depth as nat);
                        }
                        assert(!fits(t[i as int].1, (depth - 1) as nat));
                        return None;
                    },
                }
                i += 1;
            }
            assert(keys_distinct(out@)) by {
                assert forall|a: int, b: int| 0 <= a < b < out.len() implies
                    (#[trigger] out@[a]).0@ != (#[trigger] out@[b]).0@ by {
                    assert(entries@[a].0@ != entries@[b].0@);
                }
            }
            assert(same_config_entries(out@, t@));
            assert forall|k: int| 0 <= k < t.len() implies fits(#[trigger] t[k].1, (depth - 1) as nat) by {
                assert(config_wf(out[k].1));
            }
            proof {
                lemma_fits_unfold(m, depth as nat);
            }
            let r = ConfigValue::Table(out);
            assert(same_config(r, m));
            Some(r)
        },
    }
}

/// The configuration tree of a parsed value: `TooDeep` exactly where its
/// arrays and tables nest deeper than `MAX_NESTING`.
pub fn config_from_toml(v: &toml::Value) -> (r: Result<ConfigValue, ConfigError>)
    ensures
        fits(toml_model(*v), MAX_NESTING as nat) ==> (r matches Ok(c) && same_config(
            c,
            toml_model(*v),
        ) && config_wf(c)),
        !fits(toml_model(*v), MAX_NESTING as nat) ==> r matches Err(ConfigError::TooDeep),
{
    match from_toml(v, MAX_NESTING) {
        Some(c) => Ok(c),
        None => Err(ConfigError::TooDeep),
    }
}

/// Parses configuration text into a configuration tree, whose root must be a
/// table.
pub fn parse_config(text: &str) -> (r: Result<ConfigValue, ConfigError>)
    ensures
        match toml_document(text@) {
            None => r matches Err(ConfigError::Parse(_)),
            Some(t) => if !(t is Table) {
                r matches Err(ConfigError::TypeMismatch)
            } else if fits(t, MAX_NESTING as nat) {
                r matches Ok(c) && same_config(c, t) && config_wf(c)
            } else {
                r matches Err(ConfigError::TooDeep)
            },
        },
{
    match parse_document(text) {
        Err(e) => Err(ConfigError::Parse(error_text(&e))),
        Ok(v) => match toml_node(&v) {
            TomlNode::Table(_) => config_from_toml(&v),
            _ => Err(ConfigError::TypeMismatch),
        },
    }
}

/// Parses configuration text into a host mapping: the root table of the
/// document, each value converted.
pub fn tomlstr2py(text: &str) -> (r: Result<HostDict, ConfigError>)
    ensures
        match toml_document(text@) {
            None => r matches Err(ConfigError::Parse(_)),
            Some(t) => if !(t is Table) {
                r matches Err(ConfigError::TypeMismatch)
            } else if fits(t, MAX_NESTING as nat) {
                r matches Ok(d) && converts(t, HostValue::Dict(d.entries)) && keys_distinct(
                    d.entries@,
                )
            } else {
                r matches Err(ConfigError::TooDeep)
            },
        },
{
    match parse_config(text) {
        Err(e) => Err(e),
        Ok(c) => {
            let r = toml2py(&c);
            proof {
                let t = toml_document(text@)->Some_0;
                if r is Ok {
                    let d = r->Ok_0;
                    assert(converts(c, HostValue::Dict(d.entries)));
                    lemma_converts_same(c, t, HostValue::Dict(d.entries));
                }
            }
            r
        },
    }
}

} // verus!
