//! The configuration tree and its conversion into the host value model.

use vstd::prelude::*;

verus! {

/// One value of a configuration document.
#[derive(Debug, PartialEq)]
pub enum ConfigValue {
    String(String),
    Integer(i64),
    /// A binary64 number, held as its IEEE 754 bit pattern so that it travels
    /// through the tree unchanged.
    Float(u64),
    Boolean(bool),
    /// A date, a time or both, in canonical RFC 3339 text.
    Datetime(String),
    Array(Vec<ConfigValue>),
    /// Keys in document order.
    Table(Vec<(String, ConfigValue)>),
}

/// One value of the host's dynamic value model.
#[derive(Debug, PartialEq)]
pub enum HostValue {
    Str(String),
    Int(i64),
    /// A host float, as its IEEE 754 bit pattern.
    Float(u64),
    Bool(bool),
    List(Vec<HostValue>),
    /// A host mapping; keys in insertion order.
    Dict(Vec<(String, HostValue)>),
    /// The engine instance handed to a run; the host layer puts the object itself
    /// in its place.
    Engine,
}

/// A host mapping at the root of a configuration.
#[derive(Debug, PartialEq)]
pub struct HostDict {
    pub entries: Vec<(String, HostValue)>,
}

/// Why a configuration could not be turned into host keyword arguments.
#[derive(Debug, PartialEq)]
pub enum ConfigError {
    /// The text is not a valid document; the parser's diagnostic.
    Parse(String),
    /// The root of the document is not a table.
    TypeMismatch,
    /// Arrays and tables nest deeper than the tree is read.
    TooDeep,
}

/// No two entries of `t` share a key.
pub open spec fn keys_distinct<V>(t: Seq<(String, V)>) -> bool {
    forall|i: int, j: int| 0 <= i < j < t.len() ==> (#[trigger] t[i]).0@ != (#[trigger] t[j]).0@
}

/// Every table in `c`, at any depth, has distinct keys.
pub open spec fn config_wf(c: ConfigValue) -> bool
    decreases c,
{
    match c {
        ConfigValue::Array(a) => forall|i: int| 0 <= i < a.len() ==> config_wf(#[trigger] a[i]),
        ConfigValue::Table(t) => keys_distinct(t@) && forall|i: int|
            0 <= i < t.len() ==> config_wf(#[trigger] t[i].1),
        _ => true,
    }
}

/// Deep equality of configuration values: the same variant, the same scalars
/// and text, and arrays and tables equal entry by entry, in order.
pub open spec fn same_config(a: ConfigValue, b: ConfigValue) -> bool
    decreases a,
{
    match a {
        ConfigValue::String(s) => b matches ConfigValue::String(t) && t@ == s@,
        ConfigValue::Integer(n) => b == ConfigValue::Integer(n),
        ConfigValue::Float(bits) => b == ConfigValue::Float(bits),
        ConfigValue::Boolean(x) => b == ConfigValue::Boolean(x),
        ConfigValue::Datetime(s) => b matches ConfigValue::Datetime(t) && t@ == s@,
        ConfigValue::Array(x) => match b {
            ConfigValue::Array(y) => y.len() == x.len() && forall|i: int|
                0 <= i < x.len() ==> same_config(#[trigger] x[i], y[i]),
            _ => false,
        },
        ConfigValue::Table(t) => match b {
            ConfigValue::Table(u) => same_config_entries(t@, u@),
            _ => false,
        },
    }
}

/// `u` holds the keys of `t` in the same order, with deeply equal values.
pub open spec fn same_config_entries(t: Seq<(String, ConfigValue)>, u: Seq<(String, ConfigValue)>) -> bool
    decreases t,
{
    u.len() == t.len() && forall|i: int| #![trigger t[i]] #![trigger u[i]]
        0 <= i < t.len() ==> u[i].0@ == t[i].0@ && same_config(t[i].1, u[i].1)
}

/// Arrays and tables in `c` nest at most `depth` levels, the outermost one
/// included.
pub open spec fn fits(c: ConfigValue, depth: nat) -> bool
    decreases c,
{
    match c {
        ConfigValue::Array(a) => depth > 0 && forall|i: int|
            0 <= i < a.len() ==> fits(#[trigger] a[i], (depth - 1) as nat),
        ConfigValue::Table(t) => depth > 0 && forall|i: int|
            0 <= i < t.len() ==> fits(#[trigger] t[i].1, (depth - 1) as nat),
        _ => true,
    }
}

/// `h` is the host value that `c` converts to: each variant maps to its
/// nearest host counterpart, a date-time to its text, and arrays and tables
/// element by element, in order.
pub open spec fn converts(c: ConfigValue, h: HostValue) -> bool
    decreases c,
{
    match c {
        ConfigValue::String(s) => match h {
            HostValue::Str(t) => t@ == s@,
            _ => false,
        },
        ConfigValue::Integer(n) => h == HostValue::Int(n),
        ConfigValue::Float(bits) => h == HostValue::Float(bits),
        ConfigValue::Boolean(b) => h == HostValue::Bool(b),
        ConfigValue::Datetime(s) => match h {
            HostValue::Str(t) => t@ == s@,
            _ => false,
        },
        ConfigValue::Array(a) => match h {
            HostValue::List(l) => l.len() == a.len() && forall|i: int|
                0 <= i < a.len() ==> converts(#[trigger] a[i], l[i]),
            _ => false,
        },
        ConfigValue::Table(t) => match h {
            HostValue::Dict(d) => converts_entries(t@, d@),
            _ => false,
        },
    }
}

/// `d` holds the keys of `t` in the same order, each with its converted value.
pub open spec fn converts_entries(t: Seq<(String, ConfigValue)>, d: Seq<(String, HostValue)>) -> bool
    decreases t,
{
    d.len() == t.len() && forall|i: int| #![trigger t[i]] #![trigger d[i]]
        0 <= i < t.len() ==> d[i].0@ == t[i].0@ && converts(t[i].1, d[i].1)
}

/// Deep equality of host values: the same variant, the same scalars and text,
/// and lists and mappings equal entry by entry, in order.
pub open spec fn same_host(a: HostValue, b: HostValue) -> bool
    decreases a,
{
    match a {
        HostValue::Str(s) => match b {
            HostValue::Str(t) => t@ == s@,
            _ => false,
        },
        HostValue::Int(n) => b == HostValue::Int(n),
        HostValue::Float(bits) => b == HostValue::Float(bits),
        HostValue::Bool(x) => b == HostValue::Bool(x),
        HostValue::Engine => b is Engine,
        HostValue::List(l) => match b {
            HostValue::List(m) => m.len() == l.len() && forall|i: int|
                0 <= i < l.len() ==> same_host(#[trigger] l[i], m[i]),
            _ => false,
        },
        HostValue::Dict(d) => match b {
            HostValue::Dict(e) => same_entries(d@, e@),
            _ => false,
        },
    }
}

/// `e` holds the keys of `d` in the same order, with deeply equal values.
pub open spec fn same_entries(d: Seq<(String, HostValue)>, e: Seq<(String, HostValue)>) -> bool
    decreases d,
{
    e.len() == d.len() && forall|i: int| #![trigger d[i]] #![trigger e[i]]
        0 <= i < d.len() ==> e[i].0@ == d[i].0@ && same_host(d[i].1, e[i].1)
}

/// The keys of a mapping, in order.
pub open spec fn key_seq<V>(d: Seq<(String, V)>) -> Seq<Seq<char>> {
    d.map_values(|e: (String, V)| e.0@)
}

/// Converts one configuration value into the host value model.
pub fn toml2py_val(value: &ConfigValue) -> (r: HostValue)
    ensures
        converts(*value, r),
    decreases value,
{
    match value {
        ConfigValue::String(s) => HostValue::Str(s.clone()),
        ConfigValue::Integer(n) => HostValue::Int(*n),
        ConfigValue::Float(bits) => HostValue::Float(*bits),
        ConfigValue::Boolean(b) => HostValue::Bool(*b),
        ConfigValue::Datetime(s) => HostValue::Str(s.clone()),
        ConfigValue::Array(a) => HostValue::List(convert_items(a)),
        ConfigValue::Table(t) => HostValue::Dict(convert_entries(t)),
    }
}

fn convert_items(a: &Vec<ConfigValue>) -> (l: Vec<HostValue>)
    ensures
        l.len() == a.len(),
        forall|k: int| 0 <= k < a.len() ==> converts(#[trigger] a[k], l[k]),
    decreases a,
{
    let mut l: Vec<HostValue> = Vec::new();
    let mut i: usize = 0;
    while i < a.len()
        invariant
            i <= a.len(),
            l.len() == i,
            forall|k: int| 0 <= k < i ==> converts(#[trigger] a[k], l[k]),
        decreases a.len() - i,
    {
        proof {
            assert(decreases_to!(a => a[i as int]));
        }
        let h = toml2py_val(&a[i]);
        l.push(h);
        i += 1;
    }
    l
}

fn convert_entries(t: &Vec<(String, ConfigValue)>) -> (d: Vec<(String, HostValue)>)
    ensures
        converts_entries(t@, d@),
    decreases t,
{
    let mut d: Vec<(String, HostValue)> = Vec::new();
    let mut i: usize = 0;
    while i < t.len()
        invariant
            i <= t.len(),
            d.len() == i,
            forall|k: int| #![trigger d[k]] 0 <= k < i ==> d[k].0@ == t[k].0@ && converts(t[k].1, d[k].1),
        decreases t.len() - i,
    {
        proof {
            assert(decreases_to!(t => t[i as int]));
        }
        let h = toml2py_val(&t[i].1);
        d.push((t[i].0.clone(), h));
        i += 1;
    }
    assert(forall|k: int| 0 <= k < t.len() ==> d[k].0@ == t[k].0@ && converts(#[trigger] t[k].1, d[k].1));
    d
}

/// Converts the root of a configuration, which must be a table, into a host
/// mapping.
pub fn toml2py(value: &ConfigValue) -> (r: Result<HostDict, ConfigError>)
    ensures
        match *value {
            ConfigValue::Table(t) => r matches Ok(d) && converts_entries(t@, d.entries@),
            _ => r matches Err(ConfigError::TypeMismatch),
        },
        config_wf(*value) ==> (r matches Ok(d) ==> keys_distinct(d.entries@)),
{
    match value {
        ConfigValue::Table(t) => {
            let entries = convert_entries(t);
            assert(keys_distinct(t@) ==> keys_distinct(entries@)) by {
                if keys_distinct(t@) {
                    assert forall|a: int, b: int| 0 <= a < b < entries.len() implies
                        (#[trigger] entries@[a]).0@ != (#[trigger] entries@[b]).0@ by {
                        assert(t@[a].0@ != t@[b].0@);
                    }
                }
            }
            Ok(HostDict { entries })
        },
        _ => Err(ConfigError::TypeMismatch),
    }
}

/// The conversion is a function: a configuration value converts to host
/// values that are all deeply equal.
pub proof fn lemma_conversion_deterministic(c: ConfigValue, h1: HostValue, h2: HostValue)
    requires
        converts(c, h1),
        converts(c, h2),
    ensures
        same_host(h1, h2),
    decreases c,
{
    match c {
        ConfigValue::Array(a) => {
            let l1 = h1->List_0;
            let l2 = h2->List_0;
            assert forall|i: int| 0 <= i < l1.len() implies same_host(#[trigger] l1[i], l2[i]) by {
                assert(decreases_to!(a => a[i]));
                assert(converts(a[i], l1[i]));
                assert(converts(a[i], l2[i]));
                lemma_conversion_deterministic(a[i], l1[i], l2[i]);
            }
            assert(same_host(h1, h2));
        },
        ConfigValue::Table(t) => {
            let d1 = h1->Dict_0;
            let d2 = h2->Dict_0;
            assert(converts_entries(t@, d1@));
            assert(converts_entries(t@, d2@));
            assert forall|i: int| 0 <= i < d1.len() implies (#[trigger] d2@[i]).0@ == d1@[i].0@
                && same_host(d1@[i].1, d2@[i].1) by {
                assert(decreases_to!(t => t@));
                assert(decreases_to!(t@ => t@[i]));
                assert(decreases_to!(t@[i] => t@[i].1));
                lemma_conversion_deterministic(t@[i].1, d1@[i].1, d2@[i].1);
            }
            assert(same_entries(d1@, d2@));
        },
        _ => {},
    }
}

/// The conversion keeps what the document says: booleans stay booleans,
/// integers stay integers, floats keep their exact bits, text stays text,
/// arrays keep their length and order, and tables keep their keys in order.
pub proof fn lemma_conversion_faithful(c: ConfigValue, h: HostValue)
    requires
        converts(c, h),
    ensures
        c matches ConfigValue::Boolean(b) ==> h == HostValue::Bool(b),
        c matches ConfigValue::Integer(n) ==> h == HostValue::Int(n),
        c matches ConfigValue::Float(x) ==> h == HostValue::Float(x),
        c matches ConfigValue::String(s) ==> h matches HostValue::Str(t) && t@ == s@,
        c matches ConfigValue::Array(a) ==> h matches HostValue::List(l) && l.len() == a.len(),
        c matches ConfigValue::Table(t) ==> h matches HostValue::Dict(d) && key_seq(d@) == key_seq(
            t@,
        ),
{
    if let ConfigValue::Table(t) = c {
        let d = h->Dict_0;
        assert(converts_entries(t@, d@));
        assert(key_seq(d@) =~= key_seq(t@));
    }
}

pub(crate) proof fn lemma_fits_unfold(c: ConfigValue, depth: nat)
    ensures
        c matches ConfigValue::Array(a) ==> (fits(c, depth) <==> depth > 0 && forall|i: int|
            0 <= i < a.len() ==> fits(#[trigger] a[i], (depth - 1) as nat)),
        c matches ConfigValue::Table(t) ==> (fits(c, depth) <==> depth > 0 && forall|i: int|
            0 <= i < t.len() ==> fits(#[trigger] t[i].1, (depth - 1) as nat)),
{
}

/// Deeply equal configuration values convert to the same host values.
pub proof fn lemma_converts_same(c: ConfigValue, t: ConfigValue, h: HostValue)
    requires
        same_config(c, t),
        converts(c, h),
    ensures
        converts(t, h),
    decreases c,
{
    match c {
        ConfigValue::Array(x) => {
            let y = t->Array_0;
            let l = h->List_0;
            assert forall|i: int| 0 <= i < y.len() implies converts(#[trigger] y[i], l[i]) by {
                assert(decreases_to!(x => x[i]));
                assert(same_config(x[i], y[i]));
                assert(converts(x[i], l[i]));
                lemma_converts_same(x[i], y[i], l[i]);
            }
            assert(converts(t, h));
        },
        ConfigValue::Table(e) => {
            let u = t->Table_0;
            let d = h->Dict_0;
            assert(same_config_entries(e@, u@));
            assert(converts_entries(e@, d@));
            assert forall|i: int| 0 <= i < u.len() implies (#[trigger] d@[i]).0@ == u@[i].0@
                && converts(u@[i].1, d@[i].1) by {
                assert(decreases_to!(e => e@));
                assert(decreases_to!(e@ => e@[i]));
                assert(decreases_to!(e@[i] => e@[i].1));
                lemma_converts_same(e@[i].1, u@[i].1, d@[i].1);
            }
            assert(converts_entries(u@, d@));
        },
        _ => {},
    }
}

} // verus!
