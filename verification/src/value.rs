use vstd::prelude::*;

use crate::error::ConfError;
use crate::ip::{spec_ipv4_parse, IPv4};
use crate::text::{dec_limit, is_sdec, read_sdec, sdec_val, string_chars};

verus! {

broadcast use vstd::std_specs::vec::group_vec_axioms;

// ---------------------------------------------------------------------------
// The value tree and its mathematical model
// ---------------------------------------------------------------------------

/// One stored value of the tree. Every kind starts unset; a `List` starts
/// with its seed element alone.
pub enum Value {
    Simple { text: Option<String>, optional: bool },
    Selected { text: Option<String>, allowed: Vec<String>, optional: bool },
    IntegerRange { val: Option<i64>, lo: i64, hi: i64, optional: bool },
    Ip { addr: IPv4, optional: bool },
    Opaque { text: Option<String>, optional: bool },
    List { items: Vec<ValueMap> },
}

pub struct Entry {
    pub name: String,
    pub value: Value,
}

/// A scope: named values, later insertions shadowing earlier ones.
pub struct ValueMap {
    pub entries: Vec<Entry>,
}

/// The model of a stored value: texts as character sequences, numbers
/// as integers, lists as sequences of scopes.
#[verifier::ext_equal]
pub enum ValV {
    Simple { text: Option<Seq<char>>, optional: bool },
    Selected { text: Option<Seq<char>>, allowed: Seq<Seq<char>>, optional: bool },
    IntegerRange { val: Option<int>, lo: int, hi: int, optional: bool },
    Ip { addr: IPv4, optional: bool },
    Opaque { text: Option<Seq<char>>, optional: bool },
    List { items: Seq<Map<Seq<char>, ValV>> },
}

/// The model of a scope.
pub type ScopeV = Map<Seq<char>, ValV>;

pub open spec fn opt_text_v(o: Option<String>) -> Option<Seq<char>> {
    match o {
        Some(s) => Some(s@),
        None => None,
    }
}

pub open spec fn value_v(v: Value) -> ValV
    decreases v,
{
    match v {
        Value::Simple { text, optional } => ValV::Simple { text: opt_text_v(text), optional },
        Value::Selected { text, allowed, optional } => ValV::Selected {
            text: opt_text_v(text),
            allowed: allowed.deep_view(),
            optional,
        },
        Value::IntegerRange { val, lo, hi, optional } => ValV::IntegerRange {
            val: match val {
                Some(n) => Some(n as int),
                None => None,
            },
            lo: lo as int,
            hi: hi as int,
            optional,
        },
        Value::Ip { addr, optional } => ValV::Ip { addr, optional },
        Value::Opaque { text, optional } => ValV::Opaque { text: opt_text_v(text), optional },
        Value::List { items } => ValV::List { items: maps_v(items@) },
    }
}

pub open spec fn maps_v(ms: Seq<ValueMap>) -> Seq<ScopeV>
    decreases ms,
{
    if ms.len() == 0 {
        Seq::empty()
    } else {
        maps_v(ms.drop_last()).push(entries_v(ms.last().entries@))
    }
}

pub open spec fn entries_v(es: Seq<Entry>) -> ScopeV
    decreases es,
{
    if es.len() == 0 {
        Map::empty()
    } else {
        entries_v(es.drop_last()).insert(es.last().name@, value_v(es.last().value))
    }
}

impl View for ValueMap {
    type V = ScopeV;

    open spec fn view(&self) -> ScopeV {
        entries_v(self.entries@)
    }
}

pub(crate) proof fn lemma_maps_v_index(ms: Seq<ValueMap>)
    ensures
        maps_v(ms).len() == ms.len(),
        forall|i: int| 0 <= i < ms.len() ==> maps_v(ms)[i] == entries_v(ms[i].entries@),
    decreases ms,
{
    if ms.len() > 0 {
        lemma_maps_v_index(ms.drop_last());
    }
}

// ---------------------------------------------------------------------------
// Lookup and insertion
// ---------------------------------------------------------------------------

/// Finds the value stored under `key`: the latest entry of that name.
pub(crate) fn map_get_clone(m: &ValueMap, key: &str) -> (r: Option<Value>)
    ensures
        match r {
            Some(v) => m@.contains_key(key@) && value_v(v) == m@[key@],
            None => !m@.contains_key(key@),
        },
{
    let mut j: usize = m.entries.len();
    proof {
        assert(m.entries@.subrange(0, m.entries@.len() as int) =~= m.entries@);
    }
    while j > 0
        invariant
            j <= m.entries@.len(),
            m@.contains_key(key@) == entries_v(m.entries@.subrange(0, j as int)).contains_key(
                key@,
            ),
            m@.contains_key(key@) ==> m@[key@] == entries_v(
                m.entries@.subrange(0, j as int),
            )[key@],
        decreases j,
    {
        proof {
            let pre = m.entries@.subrange(0, j as int);
            assert(pre.drop_last() =~= m.entries@.subrange(0, j as int - 1));
            assert(pre.last() == m.entries@[j - 1]);
        }
        j -= 1;
        if crate::text::chars_eq_str(&string_chars(m.entries[j].name.as_str()), key) {
            let v = clone_value(&m.entries[j].value);
            return Some(v);
        }
    }
    proof {
        assert(m.entries@.subrange(0, 0) =~= Seq::<Entry>::empty());
    }
    None
}

/// Stores `v` under `key`, replacing the latest entry of that name or
/// appending a fresh one.
pub(crate) fn map_put(m: &mut ValueMap, key: &str, v: Value)
    ensures
        final(m)@ == old(m)@.insert(key@, value_v(v)),
{
    let ghost es0 = m.entries@;
    let mut j: usize = m.entries.len();
    while j > 0
        invariant
            j <= m.entries@.len(),
            m.entries@ == es0,
            old(m).entries@ == es0,
            forall|k: int| j <= k < es0.len() ==> (#[trigger] es0[k].name@) != key@,
        decreases j,
    {
        j -= 1;
        if crate::text::chars_eq_str(&string_chars(m.entries[j].name.as_str()), key) {
            let name = chars_string(key);
            let e = Entry { name, value: v };
            m.entries.remove(j);
            m.entries.insert(j, e);
            proof {
                assert(m.entries@ =~= es0.update(j as int, e));
                lemma_entries_v_update(es0, j as int, e);
            }
            return;
        }
    }
    let name = chars_string(key);
    let e = Entry { name, value: v };
    m.entries.push(e);
    proof {
        assert(m.entries@.drop_last() =~= es0);
        assert(m.entries@.last() == e);
    }
}

/// Replacing the latest entry of a name rewrites just that key of the model.
proof fn lemma_entries_v_update(es: Seq<Entry>, j: int, e: Entry)
    requires
        0 <= j < es.len(),
        es[j].name@ == e.name@,
        forall|k: int| j < k < es.len() ==> (#[trigger] es[k].name@) != e.name@,
    ensures
        entries_v(es.update(j, e)) == entries_v(es).insert(e.name@, value_v(e.value)),
    decreases es.len(),
{
    let up = es.update(j, e);
    if j == es.len() - 1 {
        assert(up.drop_last() =~= es.drop_last());
        assert(up.last() == e);
        assert(entries_v(es).insert(e.name@, value_v(e.value)) =~= entries_v(
            es.drop_last(),
        ).insert(e.name@, value_v(e.value)));
    } else {
        assert(up.drop_last() =~= es.drop_last().update(j, e));
        assert(up.last() == es.last());
        lemma_entries_v_update(es.drop_last(), j, e);
        assert(entries_v(es.drop_last().update(j, e)).insert(
            es.last().name@,
            value_v(es.last().value),
        ) =~= entries_v(es).insert(e.name@, value_v(e.value)));
    }
}

/// A String with the characters of `s`.
pub(crate) fn chars_string(s: &str) -> (r: String)
    ensures
        r@ == s@,
{
    let v = string_chars(s);
    crate::text::chars_to_string(&v)
}

// ---------------------------------------------------------------------------
// Deep copies, with their contents pinned
// ---------------------------------------------------------------------------

pub(crate) fn clone_string_vec(v: &Vec<String>) -> (r: Vec<String>)
    ensures
        r@ == v@,
{
    let mut r: Vec<String> = Vec::new();
    let mut i: usize = 0;
    while i < v.len()
        invariant
            i <= v@.len(),
            r@ =~= v@.subrange(0, i as int),
        decreases v@.len() - i,
    {
        r.push(v[i].clone());
        i += 1;
        proof {
            assert(r@ =~= v@.subrange(0, i as int));
        }
    }
    proof {
        assert(v@.subrange(0, v@.len() as int) =~= v@);
    }
    r
}

pub(crate) fn clone_value(v: &Value) -> (r: Value)
    ensures
        value_v(r) == value_v(*v),
    decreases *v,
{
    match v {
        Value::Simple { text, optional } => Value::Simple {
            text: clone_opt_string(text),
            optional: *optional,
        },
        Value::Selected { text, allowed, optional } => Value::Selected {
            text: clone_opt_string(text),
            allowed: clone_string_vec(allowed),
            optional: *optional,
        },
        Value::IntegerRange { val, lo, hi, optional } => Value::IntegerRange {
            val: match val {
                Some(n) => Some(*n),
                None => None,
            },
            lo: *lo,
            hi: *hi,
            optional: *optional,
        },
        Value::Ip { addr, optional } => Value::Ip { addr: *addr, optional: *optional },
        Value::Opaque { text, optional } => Value::Opaque {
            text: clone_opt_string(text),
            optional: *optional,
        },
        Value::List { items } => {
            let mut r: Vec<ValueMap> = Vec::new();
            let mut i: usize = 0;
            while i < items.len()
                invariant
                    i <= items@.len(),
                    *v == (Value::List { items: *items }),
                    r@.len() == i,
                    forall|k: int| 0 <= k < i ==> (#[trigger] r@[k])@ == items@[k]@,
                decreases items@.len() - i,
            {
                proof {
                    assert(decreases_to!(*v => v->List_items));
                    assert(decreases_to!(*v => items@[i as int]));
                }
                let c = clone_map(&items[i]);
                r.push(c);
                i += 1;
            }
            proof {
                lemma_maps_v_index(r@);
                lemma_maps_v_index(items@);
                assert(maps_v(r@) =~= maps_v(items@));
            }
            Value::List { items: r }
        },
    }
}

pub(crate) fn clone_opt_string(o: &Option<String>) -> (r: Option<String>)
    ensures
        opt_text_v(r) == opt_text_v(*o),
{
    match o {
        Some(s) => Some(s.clone()),
        None => None,
    }
}

pub(crate) fn clone_map(m: &ValueMap) -> (r: ValueMap)
    ensures
        r@ == m@,
    decreases *m,
{
    let mut r = ValueMap { entries: Vec::new() };
    let mut i: usize = 0;
    proof {
        assert(m.entries@.subrange(0, 0) =~= Seq::<Entry>::empty());
    }
    while i < m.entries.len()
        invariant
            i <= m.entries@.len(),
            entries_v(r.entries@) == entries_v(m.entries@.subrange(0, i as int)),
            r.entries@.len() == i,
        decreases m.entries@.len() - i,
    {
        proof {
            assert(decreases_to!(*m => m.entries@[i as int].value));
        }
        let name = m.entries[i].name.clone();
        let value = clone_value(&m.entries[i].value);
        let ghost before = r.entries@;
        r.entries.push(Entry { name, value });
        i += 1;
        proof {
            assert(r.entries@.drop_last() =~= before);
            let pre = m.entries@.subrange(0, i as int);
            assert(pre.drop_last() =~= m.entries@.subrange(0, i as int - 1));
            assert(pre.last() == m.entries@[i - 1]);
        }
    }
    proof {
        assert(m.entries@.subrange(0, m.entries@.len() as int) =~= m.entries@);
    }
    r
}

// ---------------------------------------------------------------------------
// The mutation surface, in specification form
// ---------------------------------------------------------------------------

/// What `set` does to a scope: parse `val` through the target kind's own
/// validator and store it, or report why not.
pub open spec fn set_value_v(m: ScopeV, key: Seq<char>, val: Seq<char>) -> Result<
    ScopeV,
    ConfError,
> {
    if !m.contains_key(key) {
        Err(ConfError::KeyError)
    } else {
        match m[key] {
            ValV::Simple { text: _, optional } => Ok(
                m.insert(key, ValV::Simple { text: Some(val), optional }),
            ),
            ValV::Selected { text: _, allowed, optional } => if allowed.contains(val) {
                Ok(m.insert(key, ValV::Selected { text: Some(val), allowed, optional }))
            } else {
                Err(ConfError::ValidationError)
            },
            ValV::IntegerRange { val: _, lo, hi, optional } => if is_sdec(val) && -dec_limit()
                < sdec_val(val) < dec_limit() && lo <= sdec_val(val) < hi {
                Ok(
                    m.insert(
                        key,
                        ValV::IntegerRange { val: Some(sdec_val(val)), lo, hi, optional },
                    ),
                )
            } else {
                Err(ConfError::ValidationError)
            },
            ValV::Ip { addr: _, optional } => match spec_ipv4_parse(val) {
                Some(a) => Ok(m.insert(key, ValV::Ip { addr: a, optional })),
                None => Err(ConfError::ValidationError),
            },
            ValV::Opaque { text: _, optional } => Ok(
                m.insert(key, ValV::Opaque { text: Some(val), optional }),
            ),
            ValV::List { items: _ } => Ok(m),
        }
    }
}

/// `set`, executably: fail-fast, leaving the scope untouched on error.
pub(crate) fn set_value(m: &mut ValueMap, key: &str, value: &str) -> (r: Result<(), ConfError>)
    ensures
        match r {
            Ok(()) => set_value_v(old(m)@, key@, value@) == Ok::<ScopeV, ConfError>(final(m)@),
            Err(e) => set_value_v(old(m)@, key@, value@) == Err::<ScopeV, ConfError>(e)
                && final(m)@ == old(m)@,
        },
{
    let got = match map_get_clone(m, key) {
        None => {
            return Err(ConfError::KeyError);
        },
        Some(v) => v,
    };
    match got {
        Value::Simple { text: _, optional } => {
            map_put(m, key, Value::Simple { text: Some(chars_string(value)), optional });
            Ok(())
        },
        Value::Selected { text: _, allowed, optional } => {
            let mut found = false;
            let mut i: usize = 0;
            while i < allowed.len()
                invariant
                    i <= allowed@.len(),
                    found == exists|k: int| 0 <= k < i && allowed@[k]@ == value@,
                decreases allowed@.len() - i,
            {
                if crate::text::chars_eq_str(&string_chars(allowed[i].as_str()), value) {
                    found = true;
                }
                i += 1;
            }
            proof {
                assert(allowed.deep_view().len() == allowed@.len());
                assert(forall|k: int| 0 <= k < allowed@.len()
                    ==> allowed.deep_view()[k] == (#[trigger] allowed@[k])@);
                if found {
                    let k = choose|k: int| 0 <= k < allowed@.len() && allowed@[k]@ == value@;
                    assert(allowed.deep_view()[k] == value@);
                } else {
                    if allowed.deep_view().contains(value@) {
                        let k = choose|k: int|
                            0 <= k < allowed.deep_view().len() && allowed.deep_view()[k]
                                == value@;
                        assert(allowed@[k]@ == value@);
                    }
                }
            }
            if found {
                map_put(
                    m,
                    key,
                    Value::Selected { text: Some(chars_string(value)), allowed, optional },
                );
                Ok(())
            } else {
                Err(ConfError::ValidationError)
            }
        },
        Value::IntegerRange { val: _, lo, hi, optional } => {
            let vc = string_chars(value);
            match read_sdec(&vc) {
                Some(n) => {
                    if lo <= n && n < hi {
                        map_put(
                            m,
                            key,
                            Value::IntegerRange { val: Some(n), lo, hi, optional },
                        );
                        Ok(())
                    } else {
                        Err(ConfError::ValidationError)
                    }
                },
                None => Err(ConfError::ValidationError),
            }
        },
        Value::Ip { addr: _, optional } => {
            let vc = string_chars(value);
            match IPv4::parse_chars(&vc) {
                Ok(a) => {
                    map_put(m, key, Value::Ip { addr: a, optional });
                    Ok(())
                },
                Err(_) => Err(ConfError::ValidationError),
            }
        },
        Value::Opaque { text: _, optional } => {
            map_put(m, key, Value::Opaque { text: Some(chars_string(value)), optional });
            Ok(())
        },
        Value::List { items: _ } => Ok(()),
    }
}

/// What `set_present` does: select the one member of a one-member
/// `Selected` set; anything else fails.
pub open spec fn set_present_v(m: ScopeV, key: Seq<char>) -> Result<ScopeV, ConfError> {
    if !m.contains_key(key) {
        Err(ConfError::KeyError)
    } else {
        match m[key] {
            ValV::Selected { text: _, allowed, optional } => if allowed.len() == 1 {
                Ok(m.insert(key, ValV::Selected { text: Some(allowed[0]), allowed, optional }))
            } else {
                Err(ConfError::ValidationError)
            },
            _ => Err(ConfError::ValidationError),
        }
    }
}

pub(crate) fn set_present(m: &mut ValueMap, key: &str) -> (r: Result<(), ConfError>)
    ensures
        match r {
            Ok(()) => set_present_v(old(m)@, key@) == Ok::<ScopeV, ConfError>(final(m)@),
            Err(e) => set_present_v(old(m)@, key@) == Err::<ScopeV, ConfError>(e) && final(m)@
                == old(m)@,
        },
{
    let got = match map_get_clone(m, key) {
        None => {
            return Err(ConfError::KeyError);
        },
        Some(v) => v,
    };
    match got {
        Value::Selected { text: _, allowed, optional } => {
            if allowed.len() == 1 {
                let t = allowed[0].clone();
                proof {
                    assert(allowed.deep_view()[0] == allowed@[0]@);
                }
                map_put(m, key, Value::Selected { text: Some(t), allowed, optional });
                Ok(())
            } else {
                proof {
                    assert(allowed.deep_view().len() == allowed@.len());
                }
                Err(ConfError::ValidationError)
            }
        },
        _ => Err(ConfError::ValidationError),
    }
}

/// What one `add_list` does: append a copy of the seed element.
pub open spec fn seed_push_v(m: ScopeV, key: Seq<char>) -> Result<ScopeV, ConfError> {
    if !m.contains_key(key) {
        Err(ConfError::KeyError)
    } else {
        match m[key] {
            ValV::List { items } => if items.len() >= 1 {
                Ok(m.insert(key, ValV::List { items: items.push(items[0]) }))
            } else {
                Err(ConfError::ValidationError)
            },
            _ => Err(ConfError::ValidationError),
        }
    }
}

pub(crate) fn add_list_one(m: &mut ValueMap, key: &str) -> (r: Result<(), ConfError>)
    ensures
        match r {
            Ok(()) => seed_push_v(old(m)@, key@) == Ok::<ScopeV, ConfError>(final(m)@),
            Err(e) => seed_push_v(old(m)@, key@) == Err::<ScopeV, ConfError>(e) && final(m)@
                == old(m)@,
        },
{
    let got = match map_get_clone(m, key) {
        None => {
            return Err(ConfError::KeyError);
        },
        Some(v) => v,
    };
    match got {
        Value::List { items } => {
            proof {
                lemma_maps_v_index(items@);
            }
            if items.len() == 0 {
                return Err(ConfError::ValidationError);
            }
            let mut items = items;
            let seed = clone_map(&items[0]);
            let ghost before = items@;
            items.push(seed);
            proof {
                assert(items@.drop_last() =~= before);
                assert(maps_v(items@) == maps_v(before).push(entries_v(items@.last().entries@)));
            }
            map_put(m, key, Value::List { items });
            Ok(())
        },
        _ => Err(ConfError::ValidationError),
    }
}

/// `add_list`, `n` times over.
pub open spec fn seed_push_n_v(m: ScopeV, key: Seq<char>, n: int) -> Result<ScopeV, ConfError>
    decreases n,
{
    if n <= 0 {
        Ok(m)
    } else {
        match seed_push_v(m, key) {
            Err(e) => Err(e),
            Ok(m2) => seed_push_n_v(m2, key, n - 1),
        }
    }
}

pub(crate) fn add_list_n(m: &mut ValueMap, key: &str, num: usize) -> (r: Result<(), ConfError>)
    ensures
        match r {
            Ok(()) => seed_push_n_v(old(m)@, key@, num as int) == Ok::<ScopeV, ConfError>(
                final(m)@,
            ),
            Err(e) => seed_push_n_v(old(m)@, key@, num as int) == Err::<ScopeV, ConfError>(e)
                && final(m)@ == old(m)@,
        },
{
    let mut t: usize = 0;
    while t < num
        invariant
            t <= num,
            seed_push_n_v(old(m)@, key@, num as int) == seed_push_n_v(m@, key@, (num - t) as int),
            t == 0 ==> m@ == old(m)@,
            t > 0 ==> seed_push_v(m@, key@) is Ok,
        decreases num - t,
    {
        match add_list_one(m, key) {
            Ok(()) => {},
            Err(e) => {
                proof {
                    lemma_seed_push_n_unfold(old(m)@, key@, (num - t) as int);
                }
                return Err(e);
            },
        }
        t += 1;
    }
    Ok(())
}

/// One failing seed push fails the whole count, and a push that once
/// succeeded keeps succeeding: the list stays present and non-empty.
proof fn lemma_seed_push_n_unfold(m: ScopeV, key: Seq<char>, n: int)
    requires
        n >= 1,
        seed_push_v(m, key) is Err,
    ensures
        seed_push_n_v(m, key, n) == match seed_push_v(m, key) {
            Err(e) => Err::<ScopeV, ConfError>(e),
            Ok(_) => Ok(m),
        },
{
}

pub open spec fn pair_strs_v(ps: Seq<(&str, &str)>) -> Seq<(Seq<char>, Seq<char>)> {
    Seq::new(ps.len(), |i: int| (ps[i].0@, ps[i].1@))
}

/// `set` applied pair by pair, fail-fast.
pub open spec fn apply_pairs_v(
    m: ScopeV,
    ps: Seq<(Seq<char>, Seq<char>)>,
    k: int,
) -> Result<ScopeV, ConfError>
    decreases ps.len() - k,
{
    if k < 0 || k >= ps.len() {
        Ok(m)
    } else {
        match set_value_v(m, ps[k].0, ps[k].1) {
            Err(e) => Err(e),
            Ok(m2) => apply_pairs_v(m2, ps, k + 1),
        }
    }
}

/// What `add_list_vec` does: copy the seed, apply the pairs to the copy,
/// append the result.
pub open spec fn add_list_vec_v(
    m: ScopeV,
    key: Seq<char>,
    ps: Seq<(Seq<char>, Seq<char>)>,
) -> Result<ScopeV, ConfError> {
    if !m.contains_key(key) {
        Err(ConfError::KeyError)
    } else {
        match m[key] {
            ValV::List { items } => if items.len() >= 1 {
                match apply_pairs_v(items[0], ps, 0) {
                    Err(e) => Err(e),
                    Ok(seeded) => Ok(m.insert(key, ValV::List { items: items.push(seeded) })),
                }
            } else {
                Err(ConfError::ValidationError)
            },
            _ => Err(ConfError::ValidationError),
        }
    }
}

pub(crate) fn add_list_pairs(m: &mut ValueMap, key: &str, vals: &Vec<(&str, &str)>) -> (r: Result<
    (),
    ConfError,
>)
    ensures
        match r {
            Ok(()) => add_list_vec_v(old(m)@, key@, pair_strs_v(vals@)) == Ok::<
                ScopeV,
                ConfError,
            >(final(m)@),
            Err(e) => add_list_vec_v(old(m)@, key@, pair_strs_v(vals@)) == Err::<
                ScopeV,
                ConfError,
            >(e) && final(m)@ == old(m)@,
        },
{
    let got = match map_get_clone(m, key) {
        None => {
            return Err(ConfError::KeyError);
        },
        Some(v) => v,
    };
    match got {
        Value::List { items } => {
            proof {
                lemma_maps_v_index(items@);
            }
            if items.len() == 0 {
                return Err(ConfError::ValidationError);
            }
            let mut items = items;
            let mut seed = clone_map(&items[0]);
            let ghost ps = pair_strs_v(vals@);
            let mut k: usize = 0;
            while k < vals.len()
                invariant
                    k <= vals@.len(),
                    ps == pair_strs_v(vals@),
                    m@ == old(m)@,
                    m@.contains_key(key@),
                    m@[key@] == (ValV::List { items: maps_v(items@) }),
                    apply_pairs_v(maps_v(items@)[0], ps, 0) == apply_pairs_v(seed@, ps, k as int),
                    maps_v(items@).len() == items@.len() >= 1,
                    maps_v(items@)[0] == items@[0]@,
                decreases vals@.len() - k,
            {
                let (pk, pv) = vals[k];
                match set_value(&mut seed, pk, pv) {
                    Ok(()) => {},
                    Err(e) => {
                        return Err(e);
                    },
                }
                k += 1;
            }
            let ghost before = items@;
            items.push(seed);
            proof {
                assert(items@.drop_last() =~= before);
                assert(maps_v(items@) == maps_v(before).push(entries_v(items@.last().entries@)));
            }
            map_put(m, key, Value::List { items });
            Ok(())
        },
        _ => Err(ConfError::ValidationError),
    }
}

pub open spec fn path_strs_v(ps: Seq<(&str, usize)>) -> Seq<(Seq<char>, int)> {
    Seq::new(ps.len(), |i: int| (ps[i].0@, ps[i].1 as int))
}

/// What `set_list_item` does: walk the (list name, index) path down to a
/// nested scope and apply `set` there.
pub open spec fn set_path_v(
    m: ScopeV,
    path: Seq<(Seq<char>, int)>,
    k: int,
    key: Seq<char>,
    val: Seq<char>,
) -> Result<ScopeV, ConfError>
    decreases path.len() - k,
{
    if k < 0 || k >= path.len() {
        set_value_v(m, key, val)
    } else {
        let nm = path[k].0;
        let idx = path[k].1;
        if !m.contains_key(nm) {
            Err(ConfError::KeyError)
        } else {
            match m[nm] {
                ValV::List { items } => if 0 <= idx < items.len() {
                    match set_path_v(items[idx], path, k + 1, key, val) {
                        Err(e) => Err(e),
                        Ok(sub) => Ok(m.insert(nm, ValV::List { items: items.update(idx, sub) })),
                    }
                } else {
                    Err(ConfError::KeyError)
                },
                _ => Err(ConfError::ValidationError),
            }
        }
    }
}

pub(crate) fn set_path(
    m: &mut ValueMap,
    path: &[(&str, usize)],
    k: usize,
    key: &str,
    value: &str,
) -> (r: Result<(), ConfError>)
    requires
        k <= path@.len(),
    ensures
        match r {
            Ok(()) => set_path_v(old(m)@, path_strs_v(path@), k as int, key@, value@) == Ok::<
                ScopeV,
                ConfError,
            >(final(m)@),
            Err(e) => set_path_v(old(m)@, path_strs_v(path@), k as int, key@, value@) == Err::<
                ScopeV,
                ConfError,
            >(e) && final(m)@ == old(m)@,
        },
    decreases path@.len() - k,
{
    if k >= path.len() {
        return set_value(m, key, value);
    }
    let (nm, idx) = path[k];
    let got = match map_get_clone(m, nm) {
        None => {
            return Err(ConfError::KeyError);
        },
        Some(v) => v,
    };
    match got {
        Value::List { items } => {
            proof {
                lemma_maps_v_index(items@);
            }
            if idx >= items.len() {
                return Err(ConfError::KeyError);
            }
            let mut items = items;
            let ghost before = items@;
            let mut sub = items.remove(idx);
            match set_path(&mut sub, path, k + 1, key, value) {
                Err(e) => Err(e),
                Ok(()) => {
                    items.insert(idx, sub);
                    proof {
                        assert(items@ =~= before.update(idx as int, sub));
                        lemma_maps_v_update(before, idx as int, sub);
                    }
                    map_put(m, nm, Value::List { items });
                    Ok(())
                },
            }
        },
        _ => Err(ConfError::ValidationError),
    }
}

/// Replacing one list element rewrites just that index of the model.
proof fn lemma_maps_v_update(ms: Seq<ValueMap>, j: int, s: ValueMap)
    requires
        0 <= j < ms.len(),
    ensures
        maps_v(ms.update(j, s)) == maps_v(ms).update(j, s@),
    decreases ms,
{
    let up = ms.update(j, s);
    if j == ms.len() - 1 {
        assert(up.drop_last() =~= ms.drop_last());
        assert(up.last() == s);
        lemma_maps_v_index(ms);
        assert(maps_v(ms.drop_last()).push(s@) =~= maps_v(ms).update(j, s@));
    } else {
        assert(up.drop_last() =~= ms.drop_last().update(j, s));
        assert(up.last() == ms.last());
        lemma_maps_v_update(ms.drop_last(), j, s);
        lemma_maps_v_index(ms);
        lemma_maps_v_index(ms.drop_last());
        assert(maps_v(ms.drop_last()).update(j, s@).push(
            entries_v(ms.last().entries@),
        ) =~= maps_v(ms).update(j, s@));
    }
}

} // verus!
