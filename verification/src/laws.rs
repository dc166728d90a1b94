use vstd::prelude::*;

use crate::error::ConfError;
use crate::ip::IPType;
use crate::parse::{
    compile_elems_v, compile_from_v, compile_line_v, is_close_marker, is_open_marker,
    is_structural, name_of, open_name_of, parts_of, strip_opt, token_out_v, line_out_v,
};
use crate::text::{tok_end, trim_q, trimmed, ws_end};
use crate::value::{
    entries_v, maps_v, lemma_maps_v_index, value_v, Entry, ScopeV, ValV, Value, ValueMap,
};

verus! {

// ---------------------------------------------------------------------------
// Selection and range laws
// ---------------------------------------------------------------------------

/// `set_present` succeeds exactly on a `Selected` kind whose allowed set
/// has one member; a present key of any other shape fails with
/// `ValidationError`, an absent one with `KeyError`.
pub proof fn law_set_present(m: ScopeV, key: Seq<char>)
    ensures
        crate::value::set_present_v(m, key) is Ok <==> m.contains_key(key) && match m[key] {
            ValV::Selected { allowed, .. } => allowed.len() == 1,
            _ => false,
        },
        m.contains_key(key) && !(crate::value::set_present_v(m, key) is Ok)
            ==> crate::value::set_present_v(m, key) == Err::<ScopeV, ConfError>(
            ConfError::ValidationError,
        ),
        !m.contains_key(key) ==> crate::value::set_present_v(m, key) == Err::<ScopeV, ConfError>(
            ConfError::KeyError,
        ),
{
}

/// Setting an `IntegerRange` value outside its `[lo, hi)` bound fails with
/// `ValidationError` — and, the store being handed back unchanged by a
/// failing `set`, the entry stays as it was.
pub proof fn law_range_bounds(m: ScopeV, key: Seq<char>, val: Seq<char>)
    requires
        m.contains_key(key),
        m[key] is IntegerRange,
    ensures
        crate::text::is_sdec(val) && !(m[key]->IntegerRange_lo <= crate::text::sdec_val(val)
            < m[key]->IntegerRange_hi) ==> crate::value::set_value_v(m, key, val) == Err::<
            ScopeV,
            ConfError,
        >(ConfError::ValidationError),
        !crate::text::is_sdec(val) ==> crate::value::set_value_v(m, key, val) == Err::<
            ScopeV,
            ConfError,
        >(ConfError::ValidationError),
{
}

// ---------------------------------------------------------------------------
// Line locality laws
// ---------------------------------------------------------------------------

/// An unset optional placeholder drops exactly its containing line: the
/// template from the next line on compiles as if the dropped line were
/// absent, so sibling lines are unaffected.
pub proof fn law_optional_drop(tmpl: Seq<Seq<char>>, i: int, m: ScopeV)
    requires
        0 <= i < tmpl.len(),
        !is_structural(trimmed(tmpl[i])),
        compile_line_v(trimmed(tmpl[i]), m) == Ok::<Option<Seq<char>>, ConfError>(None),
    ensures
        compile_from_v(tmpl, i, Some(m)) == compile_from_v(tmpl, i + 1, Some(m)),
{
    lemma_not_marker(trimmed(tmpl[i]));
}

/// A rendered content line contributes exactly itself, in front of what
/// the rest of the template produces.
pub proof fn law_content_line(tmpl: Seq<Seq<char>>, i: int, m: ScopeV, s: Seq<char>)
    requires
        0 <= i < tmpl.len(),
        !is_structural(trimmed(tmpl[i])),
        s.len() > 0,
        compile_line_v(trimmed(tmpl[i]), m) == Ok::<Option<Seq<char>>, ConfError>(Some(s)),
    ensures
        compile_from_v(tmpl, i, Some(m)) == match compile_from_v(tmpl, i + 1, Some(m)) {
            Ok(rest) => Ok::<(Seq<Seq<char>>, int), ConfError>((seq![s] + rest.0, rest.1)),
            Err(e) => Err(e),
        },
{
    lemma_not_marker(trimmed(tmpl[i]));
}

/// A non-structural line is neither marker.
proof fn lemma_not_marker(t: Seq<char>)
    requires
        !is_structural(t),
    ensures
        !is_open_marker(t),
        !is_close_marker(t),
{
    reveal_strlit("! for $");
    reveal_strlit("# for $");
    reveal_strlit("! end for");
    reveal_strlit("# end for");
    reveal_strlit("! end conf");
    reveal_strlit("# end conf");
    if is_open_marker(t) {
        assert(t.subrange(0, 7)[0] == t[0]);
    }
    if t.len() >= 9 && (t.subrange(0, 9) == "! end for"@ || t.subrange(0, 9) == "# end for"@) {
        assert(t.subrange(0, 9)[0] == t[0]);
    }
    if t.len() >= 10 && (t.subrange(0, 10) == "! end conf"@ || t.subrange(0, 10)
        == "# end conf"@) {
        assert(t.subrange(0, 10)[0] == t[0]);
    }
}

// ---------------------------------------------------------------------------
// Loop expansion law
// ---------------------------------------------------------------------------

/// The body outputs of a loop at line `i`, one per list element from `j`
/// on — the seed, element 0, is excluded by its callers.
pub open spec fn elem_outs_from(
    tmpl: Seq<Seq<char>>,
    i: int,
    items: Seq<ScopeV>,
    j: int,
) -> Seq<Seq<char>>
    decreases items.len() - j,
{
    if j < 0 || j >= items.len() {
        Seq::empty()
    } else {
        (match compile_from_v(tmpl, i + 1, Some(items[j])) {
            Ok(p) => p.0,
            Err(_) => Seq::empty(),
        }) + elem_outs_from(tmpl, i, items, j + 1)
    }
}

/// A loop over a list compiles its body once per element past the seed,
/// in append order, and never renders the seed: when the elements all
/// compile, the loop body's total output is the per-element outputs,
/// elements 1 on, concatenated in order.
pub proof fn law_loop_expansion(tmpl: Seq<Seq<char>>, i: int, items: Seq<ScopeV>, j: int)
    requires
        0 <= i < tmpl.len(),
        1 <= j,
        compile_elems_v(tmpl, i, items, j) is Ok,
    ensures
        forall|k: int| j <= k < items.len() ==> compile_from_v(
            tmpl,
            i + 1,
            Some(#[trigger] items[k]),
        ) is Ok,
        compile_elems_v(tmpl, i, items, j) == Ok::<Seq<Seq<char>>, ConfError>(
            elem_outs_from(tmpl, i, items, j),
        ),
    decreases items.len() - j,
{
    if j < items.len() {
        law_loop_expansion(tmpl, i, items, j + 1);
    }
}

/// At a loop-open line naming `nm`, what the whole compilation produces
/// is the expanded body followed by the rest behind the loop: the loop's
/// contribution is exactly `elem_outs_from` over elements 1 on.
pub proof fn law_loop_output(tmpl: Seq<Seq<char>>, i: int, m: ScopeV, nm: Seq<char>)
    requires
        0 <= i < tmpl.len(),
        is_open_marker(trimmed(tmpl[i])),
        open_name_of(trimmed(tmpl[i])) == Some(nm),
        m.contains_key(nm),
        m[nm] is List,
        compile_from_v(tmpl, i, Some(m)) is Ok,
    ensures
        ({
            let items = m[nm]->List_items;
            let body = elem_outs_from(tmpl, i, items, 1);
            match (compile_from_v(tmpl, i, Some(m)), compile_from_v(tmpl, i + 1, None)) {
                (Ok(whole), Ok(sync)) => {
                    let end = if sync.1 < i + 1 {
                        i + 1
                    } else if sync.1 > tmpl.len() {
                        tmpl.len() as int
                    } else {
                        sync.1
                    };
                    match compile_from_v(tmpl, end, Some(m)) {
                        Ok(rest) => whole.0 == body + rest.0 && whole.1 == rest.1,
                        Err(_) => false,
                    }
                },
                _ => false,
            }
        }),
{
    let t = trimmed(tmpl[i]);
    lemma_open_not_close(t);
    let items = m[nm]->List_items;
    law_loop_expansion(tmpl, i, items, 1);
}

// ---------------------------------------------------------------------------
// Output count law
// ---------------------------------------------------------------------------

/// Every value of the store is set: texts and numbers present, addresses
/// typed, and every list element recursively so.
pub open spec fn all_set_value(v: Value) -> bool
    decreases v,
{
    match v {
        Value::Simple { text, .. } => text is Some,
        Value::Selected { text, .. } => text is Some,
        Value::IntegerRange { val, .. } => val is Some,
        Value::Ip { addr, .. } => addr.ip_type != IPType::Unset,
        Value::Opaque { text, .. } => text is Some,
        Value::List { items } => all_set_maps(items@),
    }
}

pub open spec fn all_set_maps(ms: Seq<ValueMap>) -> bool
    decreases ms,
{
    if ms.len() == 0 {
        true
    } else {
        all_set_maps(ms.drop_last()) && all_set_map(ms.last())
    }
}

pub open spec fn all_set_entries(es: Seq<Entry>) -> bool
    decreases es,
{
    if es.len() == 0 {
        true
    } else {
        all_set_entries(es.drop_last()) && all_set_value(es.last().value)
    }
}

pub open spec fn all_set_map(m: ValueMap) -> bool
    decreases m,
{
    all_set_entries(m.entries@)
}

/// A content line with no token at all, once the optional-command lead
/// is stripped.
pub open spec fn is_blank_line(t: Seq<char>) -> bool {
    let s = strip_opt(t);
    let a0 = ws_end(s, 0);
    let a = if a0 < 0 { 0 } else if a0 > s.len() { s.len() as int } else { a0 };
    a >= s.len()
}

/// The line count compilation owes: one per non-blank content line, with
/// each loop body counted once per element past the seed. This is the
/// count "non-structural lines plus, per loop, iterations times body
/// lines", stated recursively so that nested loops are covered too.
pub open spec fn nlines_from(tmpl: Seq<Seq<char>>, i: int, scope: ScopeV) -> int
    decreases tmpl.len() - i, 1int, 0int,
{
    if i < 0 || i >= tmpl.len() {
        0
    } else {
        let t = trimmed(tmpl[i]);
        if is_close_marker(t) {
            0
        } else if is_open_marker(t) {
            match open_name_of(t) {
                None => 0,
                Some(nm) => {
                    let body = if scope.contains_key(nm) && scope[nm] is List {
                        nlines_elems(tmpl, i, scope[nm]->List_items, 1)
                    } else {
                        0
                    };
                    body + match compile_from_v(tmpl, i + 1, None) {
                        Ok(sync) => {
                            let end = if sync.1 < i + 1 {
                                i + 1
                            } else if sync.1 > tmpl.len() {
                                tmpl.len() as int
                            } else {
                                sync.1
                            };
                            nlines_from(tmpl, end, scope)
                        },
                        Err(_) => 0,
                    }
                },
            }
        } else if is_structural(t) {
            nlines_from(tmpl, i + 1, scope)
        } else {
            (if is_blank_line(t) {
                0int
            } else {
                1int
            }) + nlines_from(tmpl, i + 1, scope)
        }
    }
}

pub open spec fn nlines_elems(tmpl: Seq<Seq<char>>, i: int, items: Seq<ScopeV>, j: int) -> int
    decreases tmpl.len() - i, 0int, items.len() - j,
{
    if i < 0 || i >= tmpl.len() || j < 0 || j >= items.len() {
        0
    } else {
        nlines_from(tmpl, i + 1, items[j]) + nlines_elems(tmpl, i, items, j + 1)
    }
}

/// Looking a key up in an entry sequence's model finds a concrete entry.
proof fn lemma_entries_lookup(es: Seq<Entry>, k: Seq<char>)
    requires
        entries_v(es).contains_key(k),
    ensures
        exists|idx: int|
            0 <= idx < es.len() && (#[trigger] es[idx]).name@ == k && value_v(es[idx].value)
                == entries_v(es)[k],
    decreases es,
{
    if es.len() > 0 {
        if es.last().name@ == k {
            assert(es[es.len() - 1].name@ == k && value_v(es[es.len() - 1].value)
                == entries_v(es)[k]);
        } else {
            lemma_entries_lookup(es.drop_last(), k);
            let idx = choose|idx: int|
                0 <= idx < es.drop_last().len() && (#[trigger] es.drop_last()[idx]).name@ == k
                    && value_v(es.drop_last()[idx].value) == entries_v(es.drop_last())[k];
            assert(es[idx].name@ == k && value_v(es[idx].value) == entries_v(es)[k]);
        }
    }
}

proof fn lemma_all_set_entries_index(es: Seq<Entry>, idx: int)
    requires
        all_set_entries(es),
        0 <= idx < es.len(),
    ensures
        all_set_value(es[idx].value),
    decreases es,
{
    if idx < es.len() - 1 {
        lemma_all_set_entries_index(es.drop_last(), idx);
    }
}

proof fn lemma_all_set_maps_index(ms: Seq<ValueMap>, idx: int)
    requires
        all_set_maps(ms),
        0 <= idx < ms.len(),
    ensures
        all_set_map(ms[idx]),
    decreases ms,
{
    if idx < ms.len() - 1 {
        lemma_all_set_maps_index(ms.drop_last(), idx);
    }
}

/// With every value set, no token drops its line, and a rendered token
/// is never empty.
proof fn lemma_token_no_drop(w: Seq<char>, vm: ValueMap)
    requires
        all_set_map(vm),
    ensures
        match token_out_v(w, vm@) {
            Ok(None) => false,
            Ok(Some(t)) => t.len() >= 1,
            Err(_) => true,
        },
{
    let word = trim_q(w);
    if word.len() > 0 && (word[0] == '$' || word[0] == '?') {
        let parts = parts_of(word);
        if parts.len() > 0 {
            let name = name_of(parts[0]);
            if vm@.contains_key(name) {
                lemma_entries_lookup(vm.entries@, name);
                let idx = choose|idx: int|
                    0 <= idx < vm.entries@.len() && (#[trigger] vm.entries@[idx]).name@ == name
                        && value_v(vm.entries@[idx].value) == entries_v(vm.entries@)[name];
                lemma_all_set_entries_index(vm.entries@, idx);
            }
        }
    }
}

/// With every value set, a compiled line is kept, and it is empty exactly
/// when the line holds no token.
proof fn lemma_line_no_drop(s: Seq<char>, i: int, vm: ValueMap)
    requires
        all_set_map(vm),
        0 <= i,
    ensures
        match line_out_v(s, i, vm@) {
            Ok(None) => false,
            Ok(Some(out)) => out.len() > 0 <==> ({
                let a0 = ws_end(s, i);
                let a = if a0 < i { i } else if a0 > s.len() { s.len() as int } else { a0 };
                i < s.len() && a < s.len()
            }),
            Err(_) => true,
        },
    decreases s.len() - i,
{
    if i < s.len() {
        let a0 = ws_end(s, i);
        let a = if a0 < i { i } else if a0 > s.len() { s.len() as int } else { a0 };
        if a < s.len() {
            let b0 = tok_end(s, a);
            let b = if b0 < a + 1 { a + 1 } else if b0 > s.len() { s.len() as int } else { b0 };
            lemma_token_no_drop(s.subrange(a, b), vm);
            lemma_line_no_drop(s, b, vm);
        }
    }
}

/// The compiled output holds exactly the owed number of lines: one per
/// non-blank content line, loop bodies once per element past the seed.
/// This needs every value set: an unset optional placeholder would drop
/// a line, an unset required one would stop compilation.
pub proof fn law_output_count(tmpl: Seq<Seq<char>>, i: int, vm: ValueMap)
    requires
        all_set_map(vm),
        compile_from_v(tmpl, i, Some(vm@)) is Ok,
    ensures
        match compile_from_v(tmpl, i, Some(vm@)) {
            Ok(p) => p.0.len() == nlines_from(tmpl, i, vm@),
            Err(_) => true,
        },
    decreases tmpl.len() - i, 1int, 0int,
{
    if 0 <= i < tmpl.len() {
        let t = trimmed(tmpl[i]);
        if is_close_marker(t) {
        } else if is_open_marker(t) {
            match open_name_of(t) {
                None => {},
                Some(nm) => {
                    let m = vm@;
                    assert(m.contains_key(nm) && m[nm] is List) by {
                        if !(m.contains_key(nm) && m[nm] is List) {
                            assert(compile_from_v(tmpl, i, Some(m)) is Err);
                        }
                    }
                    let items = m[nm]->List_items;
                    lemma_entries_lookup(vm.entries@, nm);
                    let idx = choose|idx: int|
                        0 <= idx < vm.entries@.len() && (#[trigger] vm.entries@[idx]).name@ == nm
                            && value_v(vm.entries@[idx].value) == entries_v(vm.entries@)[nm];
                    lemma_all_set_entries_index(vm.entries@, idx);
                    let ev = vm.entries@[idx].value;
                    match ev {
                        Value::List { items: ivec } => {
                            assert(maps_v(ivec@) == items);
                            law_count_elems(tmpl, i, ivec@, 1);
                            match compile_from_v(tmpl, i + 1, None) {
                                Ok(sync) => {
                                    let end = if sync.1 < i + 1 {
                                        i + 1
                                    } else if sync.1 > tmpl.len() {
                                        tmpl.len() as int
                                    } else {
                                        sync.1
                                    };
                                    law_output_count(tmpl, end, vm);
                                },
                                Err(_) => {},
                            }
                        },
                        _ => {
                            assert(false);
                        },
                    }
                },
            }
        } else if is_structural(t) {
            law_output_count(tmpl, i + 1, vm);
        } else {
            lemma_line_no_drop(strip_opt(t), 0, vm);
            match compile_line_v(t, vm@) {
                Ok(Some(_)) => {
                    law_output_count(tmpl, i + 1, vm);
                },
                _ => {},
            }
        }
    }
}

proof fn law_count_elems(tmpl: Seq<Seq<char>>, i: int, ivec: Seq<ValueMap>, j: int)
    requires
        0 <= i < tmpl.len(),
        all_set_maps(ivec),
        compile_elems_v(tmpl, i, maps_v(ivec), j) is Ok,
    ensures
        match compile_elems_v(tmpl, i, maps_v(ivec), j) {
            Ok(outs) => outs.len() == nlines_elems(tmpl, i, maps_v(ivec), j),
            Err(_) => true,
        },
    decreases tmpl.len() - i, 0int, ivec.len() - j,
{
    lemma_maps_v_index(ivec);
    if 0 <= j < ivec.len() {
        lemma_all_set_maps_index(ivec, j);
        law_output_count(tmpl, i + 1, ivec[j]);
        law_count_elems(tmpl, i, ivec, j + 1);
    }
}

/// The two marker shapes exclude one another.
proof fn lemma_open_not_close(t: Seq<char>)
    requires
        is_open_marker(t),
    ensures
        !is_close_marker(t),
{
    reveal_strlit("! for $");
    reveal_strlit("# for $");
    reveal_strlit("! end for");
    reveal_strlit("# end for");
    reveal_strlit("! end conf");
    reveal_strlit("# end conf");
    if t.len() >= 9 && (t.subrange(0, 9) == "! end for"@ || t.subrange(0, 9) == "# end for"@) {
        assert(t.subrange(0, 9)[2] == t[2]);
        assert(t.subrange(0, 7)[2] == t[2]);
    }
    if t.len() >= 10 && (t.subrange(0, 10) == "! end conf"@ || t.subrange(0, 10)
        == "# end conf"@) {
        assert(t.subrange(0, 10)[2] == t[2]);
        assert(t.subrange(0, 7)[2] == t[2]);
    }
}

} // verus!
