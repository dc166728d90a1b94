use vstd::prelude::*;

use crate::error::ConfError;
use crate::ip::{spec_ipv4_fmt, spec_subnet_mask, IPType, IPv4};
use crate::text::{
    chars_eq_str, chars_starts_str, chars_to_string, dd_end, dd_split_from, dec_limit, dec_str_i,
    ends_q, find_dd, find_sep, i64_to_dec, is_sdec, read_sdec, sdec_val, seg_end, skip_ws_x,
    split_from, split_on_from, starts_q, string_chars, subvec, tok_end, tok_end_x, trim_of,
    trim_q, trim_q_of, trimmed, views_of, ws_end,
};
use crate::value::{
    entries_v, map_get_clone, map_put, maps_v, value_v, ScopeV, ValV, Value, ValueMap,
};

verus! {

broadcast use vstd::std_specs::vec::group_vec_axioms;

// ---------------------------------------------------------------------------
// Line shapes
// ---------------------------------------------------------------------------

/// A structural line: comment or marker.
pub open spec fn is_structural(t: Seq<char>) -> bool {
    t.len() > 0 && (t[0] == '!' || t[0] == '#')
}

/// A loop-open marker: "! for $name" or "# for $name".
pub open spec fn is_open_marker(t: Seq<char>) -> bool {
    t.len() >= 7 && (t.subrange(0, 7) == "! for $"@ || t.subrange(0, 7) == "# for $"@)
}

/// The name behind a loop-open marker: its first blank-separated word.
pub open spec fn open_name_of(t: Seq<char>) -> Option<Seq<char>> {
    let rest = t.skip(7);
    let a0 = ws_end(rest, 0);
    let a = if a0 < 0 { 0 } else if a0 > rest.len() { rest.len() as int } else { a0 };
    if a >= rest.len() {
        None
    } else {
        let b0 = tok_end(rest, a);
        let b = if b0 < a { a } else if b0 > rest.len() { rest.len() as int } else { b0 };
        Some(rest.subrange(a, b))
    }
}

/// A loop-close marker: "end for" or "end conf" behind either comment lead.
pub open spec fn is_close_marker(t: Seq<char>) -> bool {
    ||| (t.len() >= 9 && (t.subrange(0, 9) == "! end for"@ || t.subrange(0, 9) == "# end for"@))
    ||| (t.len() >= 10 && (t.subrange(0, 10) == "! end conf"@ || t.subrange(0, 10)
        == "# end conf"@))
}

/// The optional-command lead "?\" is stripped and otherwise ignored.
pub open spec fn strip_opt(t: Seq<char>) -> Seq<char> {
    if t.len() >= 2 && t[0] == '?' && t[1] == '\\' {
        t.skip(2)
    } else {
        t
    }
}

fn is_structural_x(t: &Vec<char>) -> (r: bool)
    ensures
        r == is_structural(t@),
{
    t.len() > 0 && (t[0] == '!' || t[0] == '#')
}

fn is_open_marker_x(t: &Vec<char>) -> (r: bool)
    ensures
        r == is_open_marker(t@),
{
    proof {
        reveal_strlit("! for $");
        reveal_strlit("# for $");
    }
    chars_starts_str(t, "! for $") || chars_starts_str(t, "# for $")
}

fn is_close_marker_x(t: &Vec<char>) -> (r: bool)
    ensures
        r == is_close_marker(t@),
{
    proof {
        reveal_strlit("! end for");
        reveal_strlit("# end for");
        reveal_strlit("! end conf");
        reveal_strlit("# end conf");
    }
    chars_starts_str(t, "! end for") || chars_starts_str(t, "# end for") || chars_starts_str(
        t,
        "! end conf",
    ) || chars_starts_str(t, "# end conf")
}

fn open_name_x(t: &Vec<char>) -> (r: Option<Vec<char>>)
    requires
        is_open_marker(t@),
    ensures
        match r {
            Some(v) => open_name_of(t@) == Some(v@),
            None => open_name_of(t@) is None,
        },
{
    proof {
        reveal_strlit("! for $");
    }
    let rest = subvec(t, 7, t.len());
    proof {
        assert(rest@ =~= t@.skip(7));
    }
    let a = skip_ws_x(&rest, 0);
    if a >= rest.len() {
        return None;
    }
    let b = tok_end_x(&rest, a);
    Some(subvec(&rest, a, b))
}

fn strip_opt_x(t: &Vec<char>) -> (r: Vec<char>)
    ensures
        r@ == strip_opt(t@),
{
    if t.len() >= 2 && t[0] == '?' && t[1] == '\\' {
        let r = subvec(t, 2, t.len());
        proof {
            assert(r@ =~= t@.skip(2));
        }
        r
    } else {
        subvec(t, 0, t.len())
    }
}

// ---------------------------------------------------------------------------
// Placeholder tokens
// ---------------------------------------------------------------------------

/// The characters that delimit a placeholder's pieces.
pub open spec fn is_delim(c: char) -> bool {
    c == '$' || c == '?' || c == '{' || c == '}'
}

/// First delimiter position at or after `i`, else the length.
pub open spec fn delim_end(s: Seq<char>, i: int) -> int
    decreases s.len() - i,
{
    if i >= s.len() {
        s.len() as int
    } else if is_delim(s[i]) {
        i
    } else {
        delim_end(s, i + 1)
    }
}

/// The pieces of a placeholder word, cut at every delimiter.
pub open spec fn raw_parts_from(s: Seq<char>, i: int) -> Seq<Seq<char>>
    decreases s.len() - i,
{
    if i > s.len() || i < 0 {
        Seq::empty()
    } else {
        let e0 = delim_end(s, i);
        let e = if e0 < i { i } else if e0 > s.len() { s.len() as int } else { e0 };
        if e >= s.len() {
            seq![s.subrange(i, s.len() as int)]
        } else {
            seq![s.subrange(i, e)] + raw_parts_from(s, e + 1)
        }
    }
}

/// The same, with the empty pieces dropped.
pub open spec fn nonempty_of(ss: Seq<Seq<char>>) -> Seq<Seq<char>>
    decreases ss,
{
    if ss.len() == 0 {
        Seq::empty()
    } else {
        nonempty_of(ss.drop_last()) + if ss.last().len() > 0 {
            seq![ss.last()]
        } else {
            Seq::empty()
        }
    }
}

/// The pieces of a placeholder word: name part, then any annotation.
pub open spec fn parts_of(word: Seq<char>) -> Seq<Seq<char>> {
    nonempty_of(raw_parts_from(word, 0))
}

/// The parameter name: everything before the first sub-field separator.
pub open spec fn name_of(p: Seq<char>) -> Seq<char> {
    let e0 = seg_end(p, 0, '-');
    let e = if e0 < 0 { 0 } else if e0 > p.len() { p.len() as int } else { e0 };
    p.subrange(0, e)
}

pub open spec fn first_nonempty(ss: Seq<Seq<char>>, i: int) -> Option<Seq<char>>
    decreases ss.len() - i,
{
    if i < 0 || i >= ss.len() {
        None
    } else if ss[i].len() > 0 {
        Some(ss[i])
    } else {
        first_nonempty(ss, i + 1)
    }
}

/// The sub-field selector: the first non-empty piece after the name.
pub open spec fn subfield_of(p: Seq<char>) -> Option<Seq<char>> {
    first_nonempty(split_from(p, 0, '-'), 1)
}

fn find_delim(s: &Vec<char>, i: usize) -> (r: usize)
    requires
        i <= s@.len(),
    ensures
        r == delim_end(s@, i as int),
        i <= r <= s@.len(),
    decreases s@.len() - i,
{
    if i >= s.len() {
        s.len()
    } else if s[i] == '$' || s[i] == '?' || s[i] == '{' || s[i] == '}' {
        i
    } else {
        find_delim(s, i + 1)
    }
}

fn raw_parts(s: &Vec<char>, i: usize) -> (r: Vec<Vec<char>>)
    requires
        i <= s@.len(),
    ensures
        views_of(r@) == raw_parts_from(s@, i as int),
    decreases s@.len() - i,
{
    let e = find_delim(s, i);
    let seg = subvec(s, i, e);
    if e >= s.len() {
        let mut r: Vec<Vec<char>> = Vec::new();
        r.push(seg);
        proof {
            assert(views_of(r@) =~= raw_parts_from(s@, i as int));
        }
        r
    } else {
        let rest = raw_parts(s, e + 1);
        let mut r: Vec<Vec<char>> = Vec::new();
        r.push(seg);
        let mut k: usize = 0;
        while k < rest.len()
            invariant
                k <= rest@.len(),
                r@.len() == k + 1,
                r@[0]@ == s@.subrange(i as int, delim_end(s@, i as int)),
                forall|j: int| 0 <= j < k ==> r@[j + 1]@ == rest@[j]@,
            decreases rest@.len() - k,
        {
            let seg2 = subvec(&rest[k], 0, rest[k].len());
            proof {
                assert(seg2@ =~= rest@[k as int]@);
            }
            r.push(seg2);
            k += 1;
        }
        proof {
            assert(forall|j: int| 0 <= j < rest@.len() ==> views_of(rest@)[j] == rest@[j]@);
            assert(views_of(r@) =~= raw_parts_from(s@, i as int));
        }
        r
    }
}

fn nonempty(ss: Vec<Vec<char>>) -> (r: Vec<Vec<char>>)
    ensures
        views_of(r@) == nonempty_of(views_of(ss@)),
{
    let mut r: Vec<Vec<char>> = Vec::new();
    let mut k: usize = 0;
    proof {
        assert(views_of(ss@).subrange(0, 0) =~= Seq::<Seq<char>>::empty());
        assert(views_of(r@) =~= nonempty_of(views_of(ss@).subrange(0, 0)));
    }
    while k < ss.len()
        invariant
            k <= ss@.len(),
            views_of(r@) == nonempty_of(views_of(ss@).subrange(0, k as int)),
        decreases ss@.len() - k,
    {
        let ghost pre = views_of(ss@).subrange(0, k as int);
        let ghost pre2 = views_of(ss@).subrange(0, k as int + 1);
        proof {
            assert(pre2.drop_last() =~= pre);
            assert(pre2.last() == ss@[k as int]@);
        }
        if ss[k].len() > 0 {
            let seg = subvec(&ss[k], 0, ss[k].len());
            proof {
                assert(seg@ =~= ss@[k as int]@);
            }
            let ghost old_r = r@;
            r.push(seg);
            proof {
                assert(views_of(r@) =~= views_of(old_r) + seq![ss@[k as int]@]);
            }
        }
        k += 1;
        proof {
            assert(views_of(r@) =~= nonempty_of(views_of(ss@).subrange(0, k as int)));
        }
    }
    proof {
        assert(views_of(ss@).subrange(0, ss@.len() as int) =~= views_of(ss@));
    }
    r
}

fn name_of_x(p: &Vec<char>) -> (r: Vec<char>)
    ensures
        r@ == name_of(p@),
{
    let e = find_sep(p, 0, '-');
    subvec(p, 0, e)
}

fn subfield_x(p: &Vec<char>) -> (r: Option<Vec<char>>)
    ensures
        match r {
            Some(v) => subfield_of(p@) == Some(v@),
            None => subfield_of(p@) is None,
        },
{
    let segs = split_on_from(p, 0, '-');
    let ghost sv = split_from(p@, 0, '-');
    let mut k: usize = 1;
    proof {
        assert(views_of(segs@).len() == segs@.len());
    }
    if segs.len() <= 1 {
        return None;
    }
    while k < segs.len()
        invariant
            1 <= k <= segs@.len(),
            sv == split_from(p@, 0, '-'),
            views_of(segs@) == sv,
            first_nonempty(sv, 1) == first_nonempty(sv, k as int),
        decreases segs@.len() - k,
    {
        proof {
            assert(views_of(segs@)[k as int] == segs@[k as int]@);
        }
        if segs[k].len() > 0 {
            let v = subvec(&segs[k], 0, segs[k].len());
            proof {
                assert(v@ =~= segs@[k as int]@);
            }
            return Some(v);
        }
        k += 1;
    }
    None
}

// ---------------------------------------------------------------------------
// Schema extraction
// ---------------------------------------------------------------------------

/// The unset address value a "\ip" annotation declares.
pub open spec fn unset_ip() -> IPv4 {
    IPv4 { ip: 0, mask: 0, super_mask: 0, ip_type: IPType::Unset }
}

/// What one token contributes to the schema: nothing unless it starts
/// with a sigil; else a parameter of the annotated kind, unset.
pub open spec fn token_schema_v(w: Seq<char>, acc: ScopeV) -> Result<ScopeV, ConfError> {
    let word = trim_q(w);
    if !(word.len() > 0 && (word[0] == '$' || word[0] == '?')) {
        Ok(acc)
    } else {
        let optional = word[0] == '?';
        let parts = parts_of(word);
        if parts.len() == 0 {
            Err(ConfError::ParseError)
        } else {
            let name = name_of(parts[0]);
            if parts.len() == 1 {
                Ok(acc.insert(name, ValV::Simple { text: None, optional }))
            } else {
                let ann = parts[1];
                if ann.len() > 0 && ann[0] == '\\' {
                    if ann == "\\ip"@ || ann == "\\ipslash"@ {
                        Ok(acc.insert(name, ValV::Ip { addr: unset_ip(), optional }))
                    } else if ann == "\\interface"@ {
                        Ok(acc.insert(name, ValV::Opaque { text: None, optional }))
                    } else if ann == "\\mac"@ {
                        Ok(acc.insert(name, ValV::Simple { text: None, optional }))
                    } else {
                        Err(ConfError::ParseError)
                    }
                } else if dd_end(ann, 0) < ann.len() {
                    let dd = dd_split_from(ann, 0);
                    if dd.len() < 2 {
                        Err(ConfError::ParseError)
                    } else if is_sdec(dd[0]) && -dec_limit() < sdec_val(dd[0]) < dec_limit()
                        && is_sdec(dd[1]) && -dec_limit() < sdec_val(dd[1]) < dec_limit() {
                        Ok(
                            acc.insert(
                                name,
                                ValV::IntegerRange {
                                    val: None,
                                    lo: sdec_val(dd[0]),
                                    hi: sdec_val(dd[1]),
                                    optional,
                                },
                            ),
                        )
                    } else {
                        Err(ConfError::ParseError)
                    }
                } else {
                    Ok(
                        acc.insert(
                            name,
                            ValV::Selected {
                                text: None,
                                allowed: split_from(ann, 0, ','),
                                optional,
                            },
                        ),
                    )
                }
            }
        }
    }
}

/// The schema contributions of one content line, token by token.
pub open spec fn line_schema_from(s: Seq<char>, i: int, acc: ScopeV) -> Result<ScopeV, ConfError>
    decreases s.len() - i,
{
    if i < 0 || i >= s.len() {
        Ok(acc)
    } else {
        let a0 = ws_end(s, i);
        let a = if a0 < i { i } else if a0 > s.len() { s.len() as int } else { a0 };
        if a >= s.len() {
            Ok(acc)
        } else {
            let b0 = tok_end(s, a);
            let b = if b0 < a + 1 { a + 1 } else if b0 > s.len() { s.len() as int } else { b0 };
            match token_schema_v(s.subrange(a, b), acc) {
                Err(e) => Err(e),
                Ok(acc2) => line_schema_from(s, b, acc2),
            }
        }
    }
}

/// Schema extraction from line `i` on, until a close marker: content lines
/// contribute parameters; a loop-open marker registers a list whose seed
/// is the schema of its body.
pub open spec fn schema_from(tmpl: Seq<Seq<char>>, i: int, acc: ScopeV) -> Result<
    (ScopeV, int),
    ConfError,
>
    decreases tmpl.len() - i,
{
    if i < 0 || i >= tmpl.len() {
        Ok((acc, tmpl.len() as int))
    } else {
        let t = trimmed(tmpl[i]);
        if is_close_marker(t) {
            Ok((acc, i + 1))
        } else if is_open_marker(t) {
            match open_name_of(t) {
                None => Err(ConfError::ParseError),
                Some(nm) => match schema_from(tmpl, i + 1, Map::empty()) {
                    Err(e) => Err(e),
                    Ok((inner, end0)) => {
                        let end = if end0 < i + 1 {
                            i + 1
                        } else if end0 > tmpl.len() {
                            tmpl.len() as int
                        } else {
                            end0
                        };
                        schema_from(
                            tmpl,
                            end,
                            acc.insert(nm, ValV::List { items: seq![inner] }),
                        )
                    },
                },
            }
        } else if is_structural(t) {
            schema_from(tmpl, i + 1, acc)
        } else {
            match line_schema_from(strip_opt(t), 0, acc) {
                Err(e) => Err(e),
                Ok(acc2) => schema_from(tmpl, i + 1, acc2),
            }
        }
    }
}

fn token_schema(w: &Vec<char>, acc: &mut ValueMap) -> (r: Result<(), ConfError>)
    ensures
        match r {
            Ok(()) => token_schema_v(w@, old(acc)@) == Ok::<ScopeV, ConfError>(final(acc)@),
            Err(e) => token_schema_v(w@, old(acc)@) == Err::<ScopeV, ConfError>(e),
        },
{
    let word = trim_q_of(w);
    if word.len() == 0 {
        return Ok(());
    }
    let c0 = word[0];
    if c0 != '$' && c0 != '?' {
        return Ok(());
    }
    let optional = c0 == '?';
    let rp = raw_parts(&word, 0);
    let parts = nonempty(rp);
    proof {
        assert(views_of(parts@).len() == parts@.len());
    }
    if parts.len() == 0 {
        return Err(ConfError::ParseError);
    }
    proof {
        assert(views_of(parts@)[0] == parts@[0]@);
    }
    let name_v = name_of_x(&parts[0]);
    let name_s = chars_to_string(&name_v);
    if parts.len() == 1 {
        map_put(acc, name_s.as_str(), Value::Simple { text: None, optional });
        return Ok(());
    }
    proof {
        assert(views_of(parts@)[1] == parts@[1]@);
    }
    let ann = &parts[1];
    if ann.len() > 0 && ann[0] == '\\' {
        if chars_eq_str(ann, "\\ip") || chars_eq_str(ann, "\\ipslash") {
            map_put(
                acc,
                name_s.as_str(),
                Value::Ip {
                    addr: IPv4 { ip: 0, mask: 0, super_mask: 0, ip_type: IPType::Unset },
                    optional,
                },
            );
            Ok(())
        } else if chars_eq_str(ann, "\\interface") {
            map_put(acc, name_s.as_str(), Value::Opaque { text: None, optional });
            Ok(())
        } else if chars_eq_str(ann, "\\mac") {
            map_put(acc, name_s.as_str(), Value::Simple { text: None, optional });
            Ok(())
        } else {
            Err(ConfError::ParseError)
        }
    } else {
        let ddpos = find_dd(ann, 0);
        if ddpos < ann.len() {
            let dd = dd_split(ann);
            proof {
                assert(views_of(dd@).len() == dd@.len());
            }
            if dd.len() < 2 {
                return Err(ConfError::ParseError);
            }
            proof {
                assert(views_of(dd@)[0] == dd@[0]@);
                assert(views_of(dd@)[1] == dd@[1]@);
            }
            let lo = match read_sdec(&dd[0]) {
                Some(v) => v,
                None => {
                    return Err(ConfError::ParseError);
                },
            };
            let hi = match read_sdec(&dd[1]) {
                Some(v) => v,
                None => {
                    return Err(ConfError::ParseError);
                },
            };
            map_put(
                acc,
                name_s.as_str(),
                Value::IntegerRange { val: None, lo, hi, optional },
            );
            Ok(())
        } else {
            let alts = split_on_from(ann, 0, ',');
            let mut allowed: Vec<String> = Vec::new();
            let mut k: usize = 0;
            while k < alts.len()
                invariant
                    k <= alts@.len(),
                    allowed@.len() == k,
                    forall|j: int| 0 <= j < k ==> (#[trigger] allowed@[j])@ == alts@[j]@,
                decreases alts@.len() - k,
            {
                allowed.push(chars_to_string(&alts[k]));
                k += 1;
            }
            proof {
                assert(allowed.deep_view() =~= views_of(alts@));
            }
            map_put(
                acc,
                name_s.as_str(),
                Value::Selected { text: None, allowed, optional },
            );
            Ok(())
        }
    }
}

/// Cuts an annotation at every "..".
fn dd_split(s: &Vec<char>) -> (r: Vec<Vec<char>>)
    ensures
        views_of(r@) == dd_split_from(s@, 0),
{
    dd_split_go(s, 0)
}

fn dd_split_go(s: &Vec<char>, i: usize) -> (r: Vec<Vec<char>>)
    requires
        i <= s@.len(),
    ensures
        views_of(r@) == dd_split_from(s@, i as int),
    decreases s@.len() - i,
{
    let e = find_dd(s, i);
    if s.len() - e < 2 {
        let seg = subvec(s, i, s.len());
        let mut r: Vec<Vec<char>> = Vec::new();
        r.push(seg);
        proof {
            assert(views_of(r@) =~= dd_split_from(s@, i as int));
        }
        r
    } else {
        let seg = subvec(s, i, e);
        let rest = dd_split_go(s, e + 2);
        let mut r: Vec<Vec<char>> = Vec::new();
        r.push(seg);
        let mut k: usize = 0;
        while k < rest.len()
            invariant
                k <= rest@.len(),
                r@.len() == k + 1,
                r@[0]@ == s@.subrange(i as int, dd_end(s@, i as int)),
                forall|j: int| 0 <= j < k ==> r@[j + 1]@ == rest@[j]@,
            decreases rest@.len() - k,
        {
            let seg2 = subvec(&rest[k], 0, rest[k].len());
            proof {
                assert(seg2@ =~= rest@[k as int]@);
            }
            r.push(seg2);
            k += 1;
        }
        proof {
            assert(forall|j: int| 0 <= j < rest@.len() ==> views_of(rest@)[j] == rest@[j]@);
            assert(views_of(r@) =~= dd_split_from(s@, i as int));
        }
        r
    }
}

fn line_schema(s: &Vec<char>, i: usize, acc: &mut ValueMap) -> (r: Result<(), ConfError>)
    requires
        i <= s@.len(),
    ensures
        match r {
            Ok(()) => line_schema_from(s@, i as int, old(acc)@) == Ok::<ScopeV, ConfError>(
                final(acc)@,
            ),
            Err(e) => line_schema_from(s@, i as int, old(acc)@) == Err::<ScopeV, ConfError>(e),
        },
    decreases s@.len() - i,
{
    if i >= s.len() {
        return Ok(());
    }
    let a = skip_ws_x(s, i);
    if a >= s.len() {
        return Ok(());
    }
    let b = tok_end_x(s, a);
    proof {
        crate::text::lemma_ws_end(s@, i as int);
        assert(!crate::text::is_ws(s@[a as int]));
        assert(tok_end(s@, a as int) == tok_end(s@, a as int + 1));
        crate::text::lemma_tok_end(s@, a as int + 1);
        assert(tok_end(s@, a as int) >= a + 1);
    }
    let w = subvec(s, a, b);
    match token_schema(&w, acc) {
        Err(e) => Err(e),
        Ok(()) => line_schema(s, b, acc),
    }
}

/// Walks raw template lines, building the schema; mirrors `schema_from`.
pub fn parse_pattern(tmpl: &Vec<Vec<char>>, i: usize, acc: &mut ValueMap) -> (r: Result<
    usize,
    ConfError,
>)
    requires
        i <= tmpl@.len(),
    ensures
        match r {
            Ok(end) => schema_from(views_of(tmpl@), i as int, old(acc)@) == Ok::<
                (ScopeV, int),
                ConfError,
            >((final(acc)@, end as int)) && i <= end <= tmpl@.len(),
            Err(e) => schema_from(views_of(tmpl@), i as int, old(acc)@) == Err::<
                (ScopeV, int),
                ConfError,
            >(e),
        },
    decreases tmpl@.len() - i,
{
    if i >= tmpl.len() {
        return Ok(tmpl.len());
    }
    proof {
        assert(views_of(tmpl@)[i as int] == tmpl@[i as int]@);
    }
    let t = trim_of(&tmpl[i]);
    if is_close_marker_x(&t) {
        return Ok(i + 1);
    }
    if is_open_marker_x(&t) {
        let nm = match open_name_x(&t) {
            None => {
                return Err(ConfError::ParseError);
            },
            Some(v) => v,
        };
        let mut inner = ValueMap { entries: Vec::new() };
        proof {
            assert(inner@ =~= Map::<Seq<char>, ValV>::empty());
        }
        let end = match parse_pattern(tmpl, i + 1, &mut inner) {
            Err(e) => {
                return Err(e);
            },
            Ok(end) => end,
        };
        let nm_s = chars_to_string(&nm);
        let mut items: Vec<ValueMap> = Vec::new();
        items.push(inner);
        proof {
            assert(items@.drop_last() =~= Seq::<ValueMap>::empty());
            assert(items@.drop_last() == Seq::<ValueMap>::empty());
            assert(maps_v(Seq::<ValueMap>::empty()) == Seq::<ScopeV>::empty());
            assert(maps_v(items@) == Seq::<ScopeV>::empty().push(
                entries_v(items@.last().entries@),
            ));
            assert(maps_v(items@) =~= seq![items@[0]@]);
        }
        map_put(acc, nm_s.as_str(), Value::List { items });
        parse_pattern(tmpl, end, acc)
    } else if is_structural_x(&t) {
        parse_pattern(tmpl, i + 1, acc)
    } else {
        let st = strip_opt_x(&t);
        match line_schema(&st, 0, acc) {
            Err(e) => Err(e),
            Ok(()) => parse_pattern(tmpl, i + 1, acc),
        }
    }
}

// ---------------------------------------------------------------------------
// Compilation: placeholder substitution
// ---------------------------------------------------------------------------

/// One stored text rendered into a token, quotes restored: nothing set and
/// optional drops the line; nothing set and required is fatal.
pub open spec fn render_text_v(
    text: Option<Seq<char>>,
    optional: bool,
    oq: Seq<char>,
    cq: Seq<char>,
) -> Result<Option<Seq<char>>, ConfError> {
    match text {
        None => if optional {
            Ok(None)
        } else {
            Err(ConfError::MissingValue)
        },
        Some(s) => Ok(Some(oq + s + cq + seq![' '])),
    }
}

/// What one token of a content line compiles to: `Ok(None)` discards the
/// whole line (an unset optional placeholder); otherwise the rendered text.
pub open spec fn token_out_v(w: Seq<char>, scope: ScopeV) -> Result<
    Option<Seq<char>>,
    ConfError,
> {
    let word = trim_q(w);
    let oq: Seq<char> = if starts_q(w) {
        seq!['"']
    } else {
        Seq::empty()
    };
    let cq: Seq<char> = if ends_q(w) {
        seq!['"']
    } else {
        Seq::empty()
    };
    if word.len() > 0 && (word[0] == '$' || word[0] == '?') {
        let parts = parts_of(word);
        if parts.len() == 0 {
            Err(ConfError::ParseError)
        } else {
            let name = name_of(parts[0]);
            let sub = subfield_of(parts[0]);
            if !scope.contains_key(name) {
                Err(ConfError::KeyError)
            } else {
                match scope[name] {
                    ValV::Simple { text, optional } => render_text_v(text, optional, oq, cq),
                    ValV::Selected { text, allowed: _, optional } => render_text_v(
                        text,
                        optional,
                        oq,
                        cq,
                    ),
                    ValV::Opaque { text, optional } => render_text_v(text, optional, oq, cq),
                    ValV::IntegerRange { val, lo: _, hi: _, optional } => match val {
                        None => if optional {
                            Ok(None)
                        } else {
                            Err(ConfError::MissingValue)
                        },
                        Some(n) => Ok(Some(oq + dec_str_i(n) + cq + seq![' '])),
                    },
                    ValV::Ip { addr, optional } => if addr.ip_type == IPType::Unset {
                        if optional {
                            Ok(None)
                        } else {
                            Err(ConfError::MissingValue)
                        }
                    } else {
                        match sub {
                            Some(sf) => if sf == "mask"@ {
                                Ok(
                                    Some(
                                        oq + spec_ipv4_fmt(spec_subnet_mask(addr), true) + cq
                                            + seq![' '],
                                    ),
                                )
                            } else {
                                Err(ConfError::ParseError)
                            },
                            None => {
                                let prefixed = parts.len() >= 2 && parts[1] == "\\ipslash"@;
                                Ok(Some(oq + spec_ipv4_fmt(addr, !prefixed) + cq + seq![' ']))
                            },
                        }
                    },
                    ValV::List { items: _ } => Err(ConfError::ValidationError),
                }
            }
        }
    } else if word.len() >= 2 && word[0] == '\\' && word[1] == '$' {
        Ok(Some(oq + word.skip(1) + cq + seq![' ']))
    } else {
        Ok(Some(oq + word + cq + seq![' ']))
    }
}

/// A content line compiled token by token from position `i`.
pub open spec fn line_out_v(s: Seq<char>, i: int, scope: ScopeV) -> Result<
    Option<Seq<char>>,
    ConfError,
>
    decreases s.len() - i,
{
    if i < 0 || i >= s.len() {
        Ok(Some(Seq::empty()))
    } else {
        let a0 = ws_end(s, i);
        let a = if a0 < i { i } else if a0 > s.len() { s.len() as int } else { a0 };
        if a >= s.len() {
            Ok(Some(Seq::empty()))
        } else {
            let b0 = tok_end(s, a);
            let b = if b0 < a + 1 { a + 1 } else if b0 > s.len() { s.len() as int } else { b0 };
            match token_out_v(s.subrange(a, b), scope) {
                Err(e) => Err(e),
                Ok(None) => Ok(None),
                Ok(Some(t)) => match line_out_v(s, b, scope) {
                    Err(e) => Err(e),
                    Ok(None) => Ok(None),
                    Ok(Some(rest)) => Ok(Some(t + rest)),
                },
            }
        }
    }
}

/// A whole content line: the optional-command lead stripped, then the
/// tokens in order.
pub open spec fn compile_line_v(t: Seq<char>, scope: ScopeV) -> Result<
    Option<Seq<char>>,
    ConfError,
> {
    line_out_v(strip_opt(t), 0, scope)
}

/// The scope an executable compilation pass carries.
pub open spec fn opt_scope_v(scope: Option<&ValueMap>) -> Option<ScopeV> {
    match scope {
        Some(m) => Some(m@),
        None => None,
    }
}

/// Compilation from line `i` on, until a close marker. Structural lines
/// vanish; a loop-open replays its body once per list element past the
/// seed; a content line contributes its rendering, or nothing when blank
/// or dropped. Returns the lines produced and the cursor past the close.
pub open spec fn compile_from_v(
    tmpl: Seq<Seq<char>>,
    i: int,
    scope: Option<ScopeV>,
) -> Result<(Seq<Seq<char>>, int), ConfError>
    decreases tmpl.len() - i, 1int, 0int,
{
    if i < 0 || i >= tmpl.len() {
        Ok((Seq::empty(), tmpl.len() as int))
    } else {
        let t = trimmed(tmpl[i]);
        if is_close_marker(t) {
            Ok((Seq::empty(), i + 1))
        } else if is_open_marker(t) {
            match open_name_of(t) {
                None => Err(ConfError::ParseError),
                Some(nm) => {
                    let body = match scope {
                        Some(m) => if !m.contains_key(nm) {
                            Err(ConfError::KeyError)
                        } else {
                            match m[nm] {
                                ValV::List { items } => compile_elems_v(tmpl, i, items, 1),
                                _ => Err(ConfError::ValidationError),
                            }
                        },
                        None => Ok(Seq::empty()),
                    };
                    match body {
                        Err(e) => Err(e),
                        Ok(outs) => match compile_from_v(tmpl, i + 1, None) {
                            Err(e) => Err(e),
                            Ok(sync) => {
                                let end0 = sync.1;
                                let end = if end0 < i + 1 {
                                    i + 1
                                } else if end0 > tmpl.len() {
                                    tmpl.len() as int
                                } else {
                                    end0
                                };
                                match compile_from_v(tmpl, end, scope) {
                                    Err(e) => Err(e),
                                    Ok(rest) => Ok((outs + rest.0, rest.1)),
                                }
                            },
                        },
                    }
                },
            }
        } else if is_structural(t) {
            compile_from_v(tmpl, i + 1, scope)
        } else {
            match scope {
                None => compile_from_v(tmpl, i + 1, None),
                Some(m) => match compile_line_v(t, m) {
                    Err(e) => Err(e),
                    Ok(None) => compile_from_v(tmpl, i + 1, scope),
                    Ok(Some(s)) => match compile_from_v(tmpl, i + 1, scope) {
                        Err(e) => Err(e),
                        Ok(rest) => Ok(
                            (
                                (if s.len() > 0 {
                                    seq![s]
                                } else {
                                    Seq::empty()
                                }) + rest.0,
                                rest.1,
                            ),
                        ),
                    },
                },
            }
        }
    }
}

/// The loop body compiled once per element from `j` on, seed excluded,
/// outputs concatenated in element order.
pub open spec fn compile_elems_v(
    tmpl: Seq<Seq<char>>,
    i: int,
    items: Seq<ScopeV>,
    j: int,
) -> Result<Seq<Seq<char>>, ConfError>
    decreases tmpl.len() - i, 0int, items.len() - j,
{
    if i < 0 || i >= tmpl.len() || j < 0 || j >= items.len() {
        Ok(Seq::empty())
    } else {
        match compile_from_v(tmpl, i + 1, Some(items[j])) {
            Err(e) => Err(e),
            Ok(out) => match compile_elems_v(tmpl, i, items, j + 1) {
                Err(e) => Err(e),
                Ok(rest) => Ok(out.0 + rest),
            },
        }
    }
}

/// Restores a token's surrounding quotes and trailing blank.
fn wrap_token(sq: bool, eq: bool, body: Vec<char>) -> (r: Vec<char>)
    ensures
        r@ == (if sq {
            seq!['"']
        } else {
            Seq::<char>::empty()
        }) + body@ + (if eq {
            seq!['"']
        } else {
            Seq::<char>::empty()
        }) + seq![' '],
{
    let mut r: Vec<char> = Vec::new();
    if sq {
        r.push('"');
    }
    let mut b = body;
    r.append(&mut b);
    if eq {
        r.push('"');
    }
    r.push(' ');
    proof {
        assert(r@ =~= (if sq {
            seq!['"']
        } else {
            Seq::<char>::empty()
        }) + body@ + (if eq {
            seq!['"']
        } else {
            Seq::<char>::empty()
        }) + seq![' ']);
    }
    r
}

fn token_out(w: &Vec<char>, scope: &ValueMap) -> (r: Result<Option<Vec<char>>, ConfError>)
    ensures
        match r {
            Ok(Some(v)) => token_out_v(w@, scope@) == Ok::<Option<Seq<char>>, ConfError>(
                Some(v@),
            ),
            Ok(None) => token_out_v(w@, scope@) == Ok::<Option<Seq<char>>, ConfError>(None),
            Err(e) => token_out_v(w@, scope@) == Err::<Option<Seq<char>>, ConfError>(e),
        },
{
    let word = trim_q_of(w);
    let sq = w.len() > 0 && w[0] == '"';
    let eq = w.len() > 0 && w[w.len() - 1] == '"';
    if word.len() > 0 && (word[0] == '$' || word[0] == '?') {
        let rp = raw_parts(&word, 0);
        let parts = nonempty(rp);
        proof {
            assert(views_of(parts@).len() == parts@.len());
        }
        if parts.len() == 0 {
            return Err(ConfError::ParseError);
        }
        proof {
            assert(views_of(parts@)[0] == parts@[0]@);
        }
        let name_v = name_of_x(&parts[0]);
        let name_s = chars_to_string(&name_v);
        let got = match map_get_clone(scope, name_s.as_str()) {
            None => {
                return Err(ConfError::KeyError);
            },
            Some(v) => v,
        };
        match got {
            Value::Simple { text, optional } | Value::Opaque { text, optional } => match text {
                None => if optional {
                    Ok(None)
                } else {
                    Err(ConfError::MissingValue)
                },
                Some(s) => {
                    let body = string_chars(s.as_str());
                    Ok(Some(wrap_token(sq, eq, body)))
                },
            },
            Value::Selected { text, allowed: _, optional } => match text {
                None => if optional {
                    Ok(None)
                } else {
                    Err(ConfError::MissingValue)
                },
                Some(s) => {
                    let body = string_chars(s.as_str());
                    Ok(Some(wrap_token(sq, eq, body)))
                },
            },
            Value::IntegerRange { val, lo: _, hi: _, optional } => match val {
                None => if optional {
                    Ok(None)
                } else {
                    Err(ConfError::MissingValue)
                },
                Some(n) => {
                    let body = i64_to_dec(n);
                    Ok(Some(wrap_token(sq, eq, body)))
                },
            },
            Value::Ip { addr, optional } => {
                if addr.ip_type == IPType::Unset {
                    if optional {
                        Ok(None)
                    } else {
                        Err(ConfError::MissingValue)
                    }
                } else {
                    match subfield_x(&parts[0]) {
                        Some(sf) => {
                            if chars_eq_str(&sf, "mask") {
                                let body = addr.subnet_mask().fmt_chars(true);
                                Ok(Some(wrap_token(sq, eq, body)))
                            } else {
                                Err(ConfError::ParseError)
                            }
                        },
                        None => {
                            let prefixed = parts.len() >= 2 && chars_eq_str(
                                &parts[1],
                                "\\ipslash",
                            );
                            proof {
                                if parts@.len() >= 2 {
                                    assert(views_of(parts@)[1] == parts@[1]@);
                                }
                            }
                            let body = addr.fmt_chars(!prefixed);
                            Ok(Some(wrap_token(sq, eq, body)))
                        },
                    }
                }
            },
            Value::List { items: _ } => Err(ConfError::ValidationError),
        }
    } else if word.len() >= 2 && word[0] == '\\' && word[1] == '$' {
        let rest = subvec(&word, 1, word.len());
        proof {
            assert(rest@ =~= word@.skip(1));
        }
        Ok(Some(wrap_token(sq, eq, rest)))
    } else {
        let body = subvec(&word, 0, word.len());
        proof {
            assert(body@ =~= word@);
        }
        Ok(Some(wrap_token(sq, eq, body)))
    }
}

fn line_out(s: &Vec<char>, i: usize, scope: &ValueMap) -> (r: Result<
    Option<Vec<char>>,
    ConfError,
>)
    requires
        i <= s@.len(),
    ensures
        match r {
            Ok(Some(v)) => line_out_v(s@, i as int, scope@) == Ok::<Option<Seq<char>>, ConfError>(
                Some(v@),
            ),
            Ok(None) => line_out_v(s@, i as int, scope@) == Ok::<Option<Seq<char>>, ConfError>(
                None,
            ),
            Err(e) => line_out_v(s@, i as int, scope@) == Err::<Option<Seq<char>>, ConfError>(e),
        },
    decreases s@.len() - i,
{
    if i >= s.len() {
        return Ok(Some(Vec::new()));
    }
    let a = skip_ws_x(s, i);
    if a >= s.len() {
        return Ok(Some(Vec::new()));
    }
    let b = tok_end_x(s, a);
    proof {
        crate::text::lemma_ws_end(s@, i as int);
        assert(!crate::text::is_ws(s@[a as int]));
        assert(tok_end(s@, a as int) == tok_end(s@, a as int + 1));
        crate::text::lemma_tok_end(s@, a as int + 1);
        assert(tok_end(s@, a as int) >= a + 1);
    }
    let w = subvec(s, a, b);
    match token_out(&w, scope) {
        Err(e) => Err(e),
        Ok(None) => Ok(None),
        Ok(Some(t)) => match line_out(s, b, scope) {
            Err(e) => Err(e),
            Ok(None) => Ok(None),
            Ok(Some(rest)) => {
                let mut out = t;
                let mut rest = rest;
                out.append(&mut rest);
                Ok(Some(out))
            },
        },
    }
}

/// Walks raw template lines against a scope; mirrors `compile_from_v`.
pub fn compile_pattern(tmpl: &Vec<Vec<char>>, i: usize, scope: Option<&ValueMap>) -> (r: Result<
    (Vec<Vec<char>>, usize),
    ConfError,
>)
    requires
        i <= tmpl@.len(),
    ensures
        match r {
            Ok(p) => compile_from_v(views_of(tmpl@), i as int, opt_scope_v(scope)) == Ok::<
                (Seq<Seq<char>>, int),
                ConfError,
            >((views_of(p.0@), p.1 as int)) && i <= p.1 <= tmpl@.len(),
            Err(e) => compile_from_v(views_of(tmpl@), i as int, opt_scope_v(scope)) == Err::<
                (Seq<Seq<char>>, int),
                ConfError,
            >(e),
        },
    decreases tmpl@.len() - i, 1int, 0int,
{
    if i >= tmpl.len() {
        let empty: Vec<Vec<char>> = Vec::new();
        proof {
            assert(views_of(empty@) =~= Seq::<Seq<char>>::empty());
        }
        return Ok((empty, tmpl.len()));
    }
    proof {
        assert(views_of(tmpl@)[i as int] == tmpl@[i as int]@);
    }
    let t = trim_of(&tmpl[i]);
    if is_close_marker_x(&t) {
        let empty: Vec<Vec<char>> = Vec::new();
        proof {
            assert(views_of(empty@) =~= Seq::<Seq<char>>::empty());
        }
        return Ok((empty, i + 1));
    }
    if is_open_marker_x(&t) {
        let nm = match open_name_x(&t) {
            None => {
                return Err(ConfError::ParseError);
            },
            Some(v) => v,
        };
        let nm_s = chars_to_string(&nm);
        let mut outs: Vec<Vec<char>> = Vec::new();
        match scope {
            Some(m) => {
                let got = match map_get_clone(m, nm_s.as_str()) {
                    None => {
                        return Err(ConfError::KeyError);
                    },
                    Some(v) => v,
                };
                match got {
                    Value::List { items } => {
                        match compile_elems(tmpl, i, &items, 1) {
                            Err(e) => {
                                return Err(e);
                            },
                            Ok(o) => {
                                outs = o;
                            },
                        }
                    },
                    _ => {
                        return Err(ConfError::ValidationError);
                    },
                }
            },
            None => {
                proof {
                    assert(views_of(outs@) =~= Seq::<Seq<char>>::empty());
                }
            },
        }
        let end = match compile_pattern(tmpl, i + 1, None) {
            Err(e) => {
                return Err(e);
            },
            Ok(p) => p.1,
        };
        match compile_pattern(tmpl, end, scope) {
            Err(e) => Err(e),
            Ok(p) => {
                let (rest, fin) = p;
                let mut rest = rest;
                let ghost outs0 = outs@;
                let ghost rest0 = rest@;
                outs.append(&mut rest);
                proof {
                    assert(views_of(outs@) =~= views_of(outs0) + views_of(rest0));
                }
                Ok((outs, fin))
            },
        }
    } else if is_structural_x(&t) {
        compile_pattern(tmpl, i + 1, scope)
    } else {
        match scope {
            None => compile_pattern(tmpl, i + 1, None),
            Some(m) => {
                let st = strip_opt_x(&t);
                match line_out(&st, 0, m) {
                    Err(e) => Err(e),
                    Ok(None) => compile_pattern(tmpl, i + 1, scope),
                    Ok(Some(s)) => match compile_pattern(tmpl, i + 1, scope) {
                        Err(e) => Err(e),
                        Ok(p) => {
                            let (rest, fin) = p;
                            let ghost sv = s@;
                            let mut outs: Vec<Vec<char>> = Vec::new();
                            if s.len() > 0 {
                                outs.push(s);
                            }
                            let mut rest = rest;
                            let ghost outs0 = outs@;
                            let ghost rest0 = rest@;
                            outs.append(&mut rest);
                            proof {
                                assert(views_of(outs@) =~= views_of(outs0) + views_of(rest0));
                                assert(views_of(outs0) =~= (if sv.len() > 0 {
                                    seq![sv]
                                } else {
                                    Seq::<Seq<char>>::empty()
                                }));
                            }
                            Ok((outs, fin))
                        },
                    },
                }
            },
        }
    }
}

fn compile_elems(tmpl: &Vec<Vec<char>>, i: usize, items: &Vec<ValueMap>, j: usize) -> (r: Result<
    Vec<Vec<char>>,
    ConfError,
>)
    requires
        i < tmpl@.len(),
    ensures
        match r {
            Ok(outs) => compile_elems_v(views_of(tmpl@), i as int, maps_v(items@), j as int)
                == Ok::<Seq<Seq<char>>, ConfError>(views_of(outs@)),
            Err(e) => compile_elems_v(views_of(tmpl@), i as int, maps_v(items@), j as int)
                == Err::<Seq<Seq<char>>, ConfError>(e),
        },
    decreases tmpl@.len() - i, 0int, items@.len() - j,
{
    let n = tmpl.len();
    proof {
        assert(n == tmpl@.len());
        crate::value::lemma_maps_v_index(items@);
    }
    if j >= items.len() {
        let empty: Vec<Vec<char>> = Vec::new();
        proof {
            assert(views_of(empty@) =~= Seq::<Seq<char>>::empty());
        }
        return Ok(empty);
    }
    match compile_pattern(tmpl, i + 1, Some(&items[j])) {
        Err(e) => Err(e),
        Ok(p) => {
            let (out, _end) = p;
            match compile_elems(tmpl, i, items, j + 1) {
                Err(e) => Err(e),
                Ok(rest) => {
                    let mut out = out;
                    let mut rest = rest;
                    let ghost out0 = out@;
                    let ghost rest0 = rest@;
                    out.append(&mut rest);
                    proof {
                        assert(views_of(out@) =~= views_of(out0) + views_of(rest0));
                    }
                    Ok(out)
                },
            }
        },
    }
}

// ---------------------------------------------------------------------------
// The template with its value store
// ---------------------------------------------------------------------------

/// The contents of a sequence of strings.
pub open spec fn strings_v(ss: Seq<String>) -> Seq<Seq<char>> {
    Seq::new(ss.len(), |i: int| ss[i]@)
}

fn explode_lines(lines: &Vec<String>) -> (r: Vec<Vec<char>>)
    ensures
        views_of(r@) == strings_v(lines@),
{
    let mut r: Vec<Vec<char>> = Vec::new();
    let mut i: usize = 0;
    while i < lines.len()
        invariant
            i <= lines@.len(),
            r@.len() == i,
            forall|j: int| 0 <= j < i ==> (#[trigger] r@[j])@ == lines@[j]@,
        decreases lines@.len() - i,
    {
        r.push(string_chars(lines[i].as_str()));
        i += 1;
    }
    proof {
        assert(views_of(r@) =~= strings_v(lines@));
    }
    r
}

fn implode_lines(vs: &Vec<Vec<char>>) -> (r: Vec<String>)
    ensures
        strings_v(r@) == views_of(vs@),
{
    let mut r: Vec<String> = Vec::new();
    let mut i: usize = 0;
    while i < vs.len()
        invariant
            i <= vs@.len(),
            r@.len() == i,
            forall|j: int| 0 <= j < i ==> (#[trigger] r@[j])@ == vs@[j]@,
        decreases vs@.len() - i,
    {
        r.push(chars_to_string(&vs[i]));
        i += 1;
    }
    proof {
        assert(strings_v(r@) =~= views_of(vs@));
    }
    r
}

/// A parsed template beside its value store. `parse` builds both; the
/// builder methods mutate the store; `compile` consumes the pair.
pub struct Conf {
    vals: ValueMap,
    conf: Vec<String>,
}

impl Conf {
    /// The template's raw lines.
    pub closed spec fn lines(&self) -> Seq<Seq<char>> {
        strings_v(self.conf@)
    }

    /// The value store's model.
    pub closed spec fn store(&self) -> ScopeV {
        self.vals@
    }

    /// Extracts the schema of `lines` and pairs it with the lines.
    pub fn parse(lines: Vec<String>) -> (r: Result<Conf, ConfError>)
        ensures
            match r {
                Ok(c) => {
                    &&& c.lines() == strings_v(lines@)
                    &&& match schema_from(strings_v(lines@), 0, Map::empty()) {
                        Ok(pr) => c.store() == pr.0,
                        Err(_) => false,
                    }
                },
                Err(e) => schema_from(strings_v(lines@), 0, Map::empty()) == Err::<
                    (ScopeV, int),
                    ConfError,
                >(e),
            },
    {
        let tm = explode_lines(&lines);
        let mut vals = ValueMap { entries: Vec::new() };
        proof {
            assert(vals@ =~= Map::<Seq<char>, ValV>::empty());
        }
        match parse_pattern(&tm, 0, &mut vals) {
            Err(e) => Err(e),
            Ok(_end) => Ok(Conf { vals, conf: lines }),
        }
    }

    /// Sets one value through its kind's validator; see `set_value_v`.
    pub fn set(&mut self, key: &str, value: &str) -> (r: Result<(), ConfError>)
        ensures
            final(self).lines() == old(self).lines(),
            match r {
                Ok(()) => crate::value::set_value_v(old(self).store(), key@, value@) == Ok::<
                    ScopeV,
                    ConfError,
                >(final(self).store()),
                Err(e) => crate::value::set_value_v(old(self).store(), key@, value@) == Err::<
                    ScopeV,
                    ConfError,
                >(e) && final(self).store() == old(self).store(),
            },
    {
        crate::value::set_value(&mut self.vals, key, value)
    }

    /// Selects the single member of a one-member `Selected` set; any
    /// other target fails with `ValidationError`.
    pub fn set_present(&mut self, key: &str) -> (r: Result<(), ConfError>)
        ensures
            final(self).lines() == old(self).lines(),
            match r {
                Ok(()) => crate::value::set_present_v(old(self).store(), key@) == Ok::<
                    ScopeV,
                    ConfError,
                >(final(self).store()),
                Err(e) => crate::value::set_present_v(old(self).store(), key@) == Err::<
                    ScopeV,
                    ConfError,
                >(e) && final(self).store() == old(self).store(),
            },
    {
        crate::value::set_present(&mut self.vals, key)
    }

    /// Appends one copy of the seed element to the named list.
    pub fn add_list(&mut self, key: &str) -> (r: Result<(), ConfError>)
        ensures
            final(self).lines() == old(self).lines(),
            match r {
                Ok(()) => crate::value::seed_push_v(old(self).store(), key@) == Ok::<
                    ScopeV,
                    ConfError,
                >(final(self).store()),
                Err(e) => crate::value::seed_push_v(old(self).store(), key@) == Err::<
                    ScopeV,
                    ConfError,
                >(e) && final(self).store() == old(self).store(),
            },
    {
        crate::value::add_list_one(&mut self.vals, key)
    }

    /// Appends `num` copies of the seed element to the named list.
    pub fn add_list_count(&mut self, key: &str, num: usize) -> (r: Result<(), ConfError>)
        ensures
            final(self).lines() == old(self).lines(),
            match r {
                Ok(()) => crate::value::seed_push_n_v(old(self).store(), key@, num as int)
                    == Ok::<ScopeV, ConfError>(final(self).store()),
                Err(e) => crate::value::seed_push_n_v(old(self).store(), key@, num as int)
                    == Err::<ScopeV, ConfError>(e) && final(self).store() == old(self).store(),
            },
    {
        crate::value::add_list_n(&mut self.vals, key, num)
    }

    /// Applies `set` inside a nested list element named by the path.
    pub fn set_list_item(&mut self, keys: &[(&str, usize)], key: &str, value: &str) -> (r: Result<
        (),
        ConfError,
    >)
        ensures
            final(self).lines() == old(self).lines(),
            match r {
                Ok(()) => crate::value::set_path_v(
                    old(self).store(),
                    crate::value::path_strs_v(keys@),
                    0,
                    key@,
                    value@,
                ) == Ok::<ScopeV, ConfError>(final(self).store()),
                Err(e) => crate::value::set_path_v(
                    old(self).store(),
                    crate::value::path_strs_v(keys@),
                    0,
                    key@,
                    value@,
                ) == Err::<ScopeV, ConfError>(e) && final(self).store() == old(self).store(),
            },
    {
        crate::value::set_path(&mut self.vals, keys, 0, key, value)
    }

    /// Copies the seed, applies the pairs to the copy, appends it.
    pub fn add_list_vec(&mut self, key: &str, vals: &Vec<(&str, &str)>) -> (r: Result<
        (),
        ConfError,
    >)
        ensures
            final(self).lines() == old(self).lines(),
            match r {
                Ok(()) => crate::value::add_list_vec_v(
                    old(self).store(),
                    key@,
                    crate::value::pair_strs_v(vals@),
                ) == Ok::<ScopeV, ConfError>(final(self).store()),
                Err(e) => crate::value::add_list_vec_v(
                    old(self).store(),
                    key@,
                    crate::value::pair_strs_v(vals@),
                ) == Err::<ScopeV, ConfError>(e) && final(self).store() == old(self).store(),
            },
    {
        crate::value::add_list_pairs(&mut self.vals, key, vals)
    }

    /// Compiles the template against the store; see `compile_from_v`.
    pub fn compile(self) -> (r: Result<Vec<String>, ConfError>)
        ensures
            match r {
                Ok(outs) => match compile_from_v(self.lines(), 0, Some(self.store())) {
                    Ok(pr) => strings_v(outs@) == pr.0,
                    Err(_) => false,
                },
                Err(e) => compile_from_v(self.lines(), 0, Some(self.store())) == Err::<
                    (Seq<Seq<char>>, int),
                    ConfError,
                >(e),
            },
    {
        let tm = explode_lines(&self.conf);
        match compile_pattern(&tm, 0, Some(&self.vals)) {
            Err(e) => Err(e),
            Ok(p) => Ok(implode_lines(&p.0)),
        }
    }
}

} // verus!
