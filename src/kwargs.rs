//! The keyword arguments of one optimizer run: a deep copy of the caller's
//! configuration with the engine, the checkpoint cadence and the input path
//! set in it.

use vstd::prelude::*;
use crate::config::{key_seq, keys_distinct, same_entries, same_host, HostDict, HostValue};

verus! {

/// Checkpoint cadence handed to every run.
pub const CHECK_INTERVAL: i64 = 1;

/// The key under which a run passes the engine instance.
pub open spec fn engine_key() -> Seq<char> {
    "customengine"@
}

/// The key of the checkpoint cadence.
pub open spec fn check_key() -> Seq<char> {
    "check"@
}

/// The key of the input file path.
pub open spec fn input_key() -> Seq<char> {
    "input"@
}

/// `k` is one of the keys that a run sets.
pub open spec fn is_run_key(k: Seq<char>) -> bool {
    k == engine_key() || k == check_key() || k == input_key()
}

/// `v` is what a run with input path `input` sets under the run key `k`.
pub open spec fn run_value(k: Seq<char>, input: Seq<char>, v: HostValue) -> bool {
    if k == engine_key() {
        v is Engine
    } else if k == check_key() {
        v == HostValue::Int(CHECK_INTERVAL)
    } else {
        v matches HostValue::Str(s) && s@ == input
    }
}

/// `ks` extended by `k`, unless `k` is in it already.
pub open spec fn with_key(ks: Seq<Seq<char>>, k: Seq<char>) -> Seq<Seq<char>> {
    if ks.contains(k) {
        ks
    } else {
        ks.push(k)
    }
}

/// The keys of the arguments of a run on a configuration with keys `ks`: those
/// keys in their order, then each run key that is not among them.
pub open spec fn run_keys(ks: Seq<Seq<char>>) -> Seq<Seq<char>> {
    with_key(with_key(with_key(ks, engine_key()), check_key()), input_key())
}

proof fn lemma_run_keys_differ()
    ensures
        engine_key() != check_key(),
        engine_key() != input_key(),
        check_key() != input_key(),
{
    reveal_strlit("customengine");
    reveal_strlit("check");
    reveal_strlit("input");
    assert(engine_key().len() != check_key().len());
    assert(engine_key().len() != input_key().len());
    assert(check_key()[0] != input_key()[0]);
}

proof fn lemma_with_key_index(ks: Seq<Seq<char>>, k: Seq<char>, j: int)
    requires
        0 <= j < with_key(ks, k).len(),
        with_key(ks, k)[j] != k,
    ensures
        j < ks.len(),
        with_key(ks, k)[j] == ks[j],
{
}

/// `r` is the argument mapping of a run on `params` with input path `input`.
pub open spec fn run_kwargs(
    params: Seq<(String, HostValue)>,
    input: Seq<char>,
    r: Seq<(String, HostValue)>,
) -> bool {
    &&& keys_distinct(r)
    &&& key_seq(r) == run_keys(key_seq(params))
    &&& forall|j: int|
        0 <= j < r.len() ==> if is_run_key(#[trigger] r[j].0@) {
            run_value(r[j].0@, input, r[j].1)
        } else {
            same_host(params[j].1, r[j].1)
        }
}

impl HostDict {
    /// Whether no two entries share a key.
    pub fn has_distinct_keys(&self) -> (r: bool)
        ensures
            r == keys_distinct(self.entries@),
    {
        let n = self.entries.len();
        let mut i: usize = 0;
        while i < n
            invariant
                n == self.entries.len(),
                i <= n,
                forall|a: int, b: int| 0 <= a < b < n && a < i ==>
                    (#[trigger] self.entries@[a]).0@ != (#[trigger] self.entries@[b]).0@,
            decreases n - i,
        {
            let mut j: usize = i + 1;
            while j < n
                invariant
                    n == self.entries.len(),
                    i < j <= n,
                    forall|a: int, b: int| 0 <= a < b < n && a < i ==>
                        (#[trigger] self.entries@[a]).0@ != (#[trigger] self.entries@[b]).0@,
                    forall|b: int| i < b < j ==>
                        self.entries@[i as int].0@ != (#[trigger] self.entries@[b]).0@,
                decreases n - j,
            {
                if self.entries[i].0 == self.entries[j].0 {
                    return false;
                }
                j += 1;
            }
            i += 1;
        }
        true
    }
}

/// A deep copy of a host value.
pub fn copy_value(v: &HostValue) -> (r: HostValue)
    ensures
        same_host(*v, r),
    decreases v,
{
    match v {
        HostValue::Str(s) => HostValue::Str(s.clone()),
        HostValue::Int(n) => HostValue::Int(*n),
        HostValue::Float(bits) => HostValue::Float(*bits),
        HostValue::Bool(b) => HostValue::Bool(*b),
        HostValue::Engine => HostValue::Engine,
        HostValue::List(l) => HostValue::List(copy_items(l)),
        HostValue::Dict(d) => HostValue::Dict(copy_entries(d)),
    }
}

fn copy_items(l: &Vec<HostValue>) -> (m: Vec<HostValue>)
    ensures
        m.len() == l.len(),
        forall|i: int| 0 <= i < l.len() ==> same_host(#[trigger] l[i], m[i]),
    decreases l,
{
    let mut m: Vec<HostValue> = Vec::new();
    let mut i: usize = 0;
    while i < l.len()
        invariant
            i <= l.len(),
            m.len() == i,
            forall|k: int| 0 <= k < i ==> same_host(#[trigger] l[k], m[k]),
        decreases l.len() - i,
    {
        proof {
            assert(decreases_to!(l => l[i as int]));
        }
        let c = copy_value(&l[i]);
        m.push(c);
        i += 1;
    }
    m
}

/// A deep copy of the entries of a mapping.
pub fn copy_entries(d: &Vec<(String, HostValue)>) -> (e: Vec<(String, HostValue)>)
    ensures
        same_entries(d@, e@),
    decreases d,
{
    let mut e: Vec<(String, HostValue)> = Vec::new();
    let mut i: usize = 0;
    while i < d.len()
        invariant
            i <= d.len(),
            e.len() == i,
            forall|k: int| #![trigger e[k]] 0 <= k < i ==> e[k].0@ == d[k].0@ && same_host(d[k].1, e[k].1),
        decreases d.len() - i,
    {
        proof {
            assert(decreases_to!(d => d[i as int]));
        }
        let c = copy_value(&d[i].1);
        e.push((d[i].0.clone(), c));
        i += 1;
    }
    assert(forall|k: int| 0 <= k < d.len() ==> e[k].0@ == d[k].0@ && same_host(#[trigger] d[k].1, e[k].1));
    e
}

/// Sets `key` to `value` as a host mapping does: in place where the key is
/// present, appended at the end where it is not.
pub fn set_item(entries: &mut Vec<(String, HostValue)>, key: String, value: HostValue)
    requires
        keys_distinct(old(entries)@),
    ensures
        keys_distinct(final(entries)@),
        key_seq(final(entries)@) == with_key(key_seq(old(entries)@), key@),
        forall|j: int|
            0 <= j < final(entries)@.len() && (#[trigger] final(entries)@[j]).0@ == key@
                ==> final(entries)@[j].1 == value,
        forall|j: int|
            0 <= j < old(entries)@.len() && (#[trigger] old(entries)@[j]).0@ != key@
                ==> final(entries)@[j].1 == old(entries)@[j].1,
{
    let ghost before = entries@;
    let n = entries.len();
    let mut i: usize = 0;
    while i < n
        invariant
            entries@ == before,
            before == old(entries)@,
            keys_distinct(before),
            n == entries.len(),
            i <= n,
            forall|k: int| 0 <= k < i ==> (#[trigger] entries@[k]).0@ != key@,
        decreases n - i,
    {
        if entries[i].0 == key {
            let k = entries[i].0.clone();
            entries.set(i, (k, value));
            proof {
                assert(key_seq(entries@) =~= key_seq(before));
                assert(key_seq(before)[i as int] == key@);
                assert(key_seq(before).contains(key@));
            }
            return;
        }
        i += 1;
    }
    entries.push((key, value));
    proof {
        assert(key_seq(entries@) =~= key_seq(before).push(key@));
        assert(!key_seq(before).contains(key@)) by {
            if key_seq(before).contains(key@) {
                let k = choose|k: int| 0 <= k < key_seq(before).len() && key_seq(before)[k] == key@;
                assert(before[k].0@ == key@);
            }
        }
    }
}

/// The keyword arguments of an optimizer run on `params`: a deep copy of it,
/// with `customengine` set to the engine, `check` to the checkpoint cadence
/// and `input` to `input`. `params` itself is left as it was.
pub fn optimizer_kwargs(params: &HostDict, input: &str) -> (r: HostDict)
    requires
        keys_distinct(params.entries@),
    ensures
        run_kwargs(params.entries@, input@, r.entries@),
{
    let mut e = copy_entries(&params.entries);
    assert(keys_distinct(e@)) by {
        assert forall|a: int, b: int| 0 <= a < b < e.len() implies
            (#[trigger] e@[a]).0@ != (#[trigger] e@[b]).0@ by {
            assert(params.entries@[a].0@ != params.entries@[b].0@);
        }
    }
    assert(key_seq(e@) =~= key_seq(params.entries@));
    let ghost e0 = e@;
    set_item(&mut e, "customengine".to_string(), HostValue::Engine);
    let ghost e1 = e@;
    set_item(&mut e, "check".to_string(), HostValue::Int(CHECK_INTERVAL));
    let ghost e2 = e@;
    set_item(&mut e, "input".to_string(), HostValue::Str(input.to_string()));
    proof {
        lemma_run_keys_differ();
        let ks0 = key_seq(e0);
        let ks1 = key_seq(e1);
        let ks2 = key_seq(e2);
        let ks3 = key_seq(e@);
        assert forall|j: int| 0 <= j < e.len() implies if is_run_key(#[trigger] e@[j].0@) {
            run_value(e@[j].0@, input@, e@[j].1)
        } else {
            same_host(params.entries@[j].1, e@[j].1)
        } by {
            let k = e@[j].0@;
            assert(ks3[j] == k);
            if k != input_key() {
                lemma_with_key_index(ks2, input_key(), j);
                assert(e2[j].0@ == k);
                assert(e@[j].1 == e2[j].1);
                if k != check_key() {
                    lemma_with_key_index(ks1, check_key(), j);
                    assert(e1[j].0@ == k);
                    assert(e2[j].1 == e1[j].1);
                    if k != engine_key() {
                        lemma_with_key_index(ks0, engine_key(), j);
                        assert(e0[j].0@ == k);
                        assert(e1[j].1 == e0[j].1);
                        assert(same_host(params.entries@[j].1, e0[j].1));
                    }
                }
            }
        }
    }
    HostDict { entries: e }
}

/// Two values deeply equal to a third are deeply equal to each other.
pub proof fn lemma_same_host_common(a: HostValue, b: HostValue, c: HostValue)
    requires
        same_host(a, b),
        same_host(a, c),
    ensures
        same_host(b, c),
    decreases a,
{
    match a {
        HostValue::List(l) => {
            let m = b->List_0;
            let n = c->List_0;
            assert(m.len() == l.len() && n.len() == l.len());
            assert forall|i: int| 0 <= i < m.len() implies same_host(#[trigger] m[i], n[i]) by {
                assert(decreases_to!(l => l[i]));
                assert(same_host(l[i], m[i]));
                assert(same_host(l[i], n[i]));
                lemma_same_host_common(l[i], m[i], n[i]);
            }
            assert(same_host(b, c));
        },
        HostValue::Dict(d) => {
            let e = b->Dict_0;
            let f = c->Dict_0;
            assert(same_entries(d@, e@));
            assert(same_entries(d@, f@));
            assert forall|i: int| 0 <= i < e.len() implies (#[trigger] f@[i]).0@ == e@[i].0@
                && same_host(e@[i].1, f@[i].1) by {
                assert(decreases_to!(d => d@));
                assert(decreases_to!(d@ => d@[i]));
                assert(decreases_to!(d@[i] => d@[i].1));
                assert(same_host(d@[i].1, e@[i].1));
                assert(same_host(d@[i].1, f@[i].1));
                lemma_same_host_common(d@[i].1, e@[i].1, f@[i].1);
            }
            assert(same_entries(e@, f@));
        },
        _ => {},
    }
}

/// Runs on one retained configuration are independent of each other: two
/// argument mappings built from the same configuration and input path hold the
/// same keys in the same order with deeply equal values, whatever either run
/// did with its own copy.
pub proof fn lemma_runs_agree(
    params: Seq<(String, HostValue)>,
    input: Seq<char>,
    r1: Seq<(String, HostValue)>,
    r2: Seq<(String, HostValue)>,
)
    requires
        run_kwargs(params, input, r1),
        run_kwargs(params, input, r2),
    ensures
        same_entries(r1, r2),
{
    assert(r1.len() == key_seq(r1).len());
    assert(r2.len() == key_seq(r2).len());
    assert forall|j: int| 0 <= j < r1.len() implies (#[trigger] r2[j]).0@ == r1[j].0@ && same_host(
        r1[j].1,
        r2[j].1,
    ) by {
        assert(key_seq(r1)[j] == key_seq(r2)[j]);
        let k = r1[j].0@;
        if is_run_key(k) {
            assert(run_value(k, input, r1[j].1));
            assert(run_value(k, input, r2[j].1));
        } else {
            lemma_same_host_common(params[j].1, r1[j].1, r2[j].1);
        }
    }
}

} // verus!
