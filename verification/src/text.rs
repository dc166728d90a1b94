use vstd::prelude::*;

verus! {

// ---------------------------------------------------------------------------
// Character classes
// ---------------------------------------------------------------------------

/// Whitespace as the tokenizer understands it: blanks inside a line.
pub open spec fn is_ws(c: char) -> bool {
    c == ' ' || c == '\t' || c == '\r'
}

pub open spec fn is_digit_c(c: char) -> bool {
    48 <= c as u32 <= 57
}

pub open spec fn digit_val(c: char) -> int {
    c as u32 - 48
}

pub open spec fn digit_char(d: int) -> char {
    if d == 0 { '0' }
    else if d == 1 { '1' }
    else if d == 2 { '2' }
    else if d == 3 { '3' }
    else if d == 4 { '4' }
    else if d == 5 { '5' }
    else if d == 6 { '6' }
    else if d == 7 { '7' }
    else if d == 8 { '8' }
    else { '9' }
}

pub fn is_ws_x(c: char) -> (r: bool)
    ensures
        r == is_ws(c),
{
    c == ' ' || c == '\t' || c == '\r'
}

pub fn is_digit_x(c: char) -> (r: bool)
    ensures
        r == is_digit_c(c),
{
    let u = c as u32;
    48 <= u && u <= 57
}

pub fn digit_char_x(d: u64) -> (r: char)
    requires
        d < 10,
    ensures
        r == digit_char(d as int),
{
    if d == 0 { '0' }
    else if d == 1 { '1' }
    else if d == 2 { '2' }
    else if d == 3 { '3' }
    else if d == 4 { '4' }
    else if d == 5 { '5' }
    else if d == 6 { '6' }
    else if d == 7 { '7' }
    else if d == 8 { '8' }
    else { '9' }
}

// ---------------------------------------------------------------------------
// Decimal numbers: value of a digit string, digit string of a value
// ---------------------------------------------------------------------------

/// Value of a digit string read in base ten (left to right).
pub open spec fn dec_val(s: Seq<char>) -> int
    decreases s.len(),
{
    if s.len() == 0 {
        0
    } else {
        dec_val(s.drop_last()) * 10 + digit_val(s.last())
    }
}

/// A non-empty, all-digit string.
pub open spec fn is_dec(s: Seq<char>) -> bool {
    s.len() > 0 && forall|i: int| 0 <= i < s.len() ==> is_digit_c(s[i])
}

/// A signed decimal: an optional leading minus, then digits.
pub open spec fn is_sdec(s: Seq<char>) -> bool {
    if s.len() > 0 && s[0] == '-' {
        is_dec(s.skip(1))
    } else {
        is_dec(s)
    }
}

pub open spec fn sdec_val(s: Seq<char>) -> int {
    if s.len() > 0 && s[0] == '-' {
        -dec_val(s.skip(1))
    } else {
        dec_val(s)
    }
}

/// Decimal rendering of a non-negative integer, no leading zeros.
pub open spec fn dec_str(n: int) -> Seq<char>
    decreases n,
{
    if n < 10 {
        seq![digit_char(n)]
    } else {
        dec_str(n / 10) + seq![digit_char(n % 10)]
    }
}

/// Decimal rendering of a signed integer.
pub open spec fn dec_str_i(v: int) -> Seq<char> {
    if v < 0 {
        seq!['-'] + dec_str(-v)
    } else {
        dec_str(v)
    }
}

pub fn u64_to_dec(n: u64) -> (r: Vec<char>)
    ensures
        r@ == dec_str(n as int),
    decreases n,
{
    if n < 10 {
        let c = digit_char_x(n);
        let mut v: Vec<char> = Vec::new();
        v.push(c);
        proof {
            assert(v@ =~= dec_str(n as int));
        }
        v
    } else {
        let mut v = u64_to_dec(n / 10);
        let c = digit_char_x(n % 10);
        v.push(c);
        proof {
            assert(v@ =~= dec_str(n as int));
        }
        v
    }
}

pub fn i64_to_dec(v: i64) -> (r: Vec<char>)
    ensures
        r@ == dec_str_i(v as int),
{
    if v < 0 {
        // magnitude without overflowing on the least value
        let mag: u64 = ((-(v + 1)) as u64) + 1;
        assert(mag as int == -(v as int));
        let digits = u64_to_dec(mag);
        let mut r: Vec<char> = Vec::new();
        r.push('-');
        let mut k: usize = 0;
        while k < digits.len()
            invariant
                k <= digits.len(),
                r@ =~= seq!['-'] + digits@.subrange(0, k as int),
            decreases digits.len() - k,
        {
            r.push(digits[k]);
            k += 1;
            proof {
                assert(r@ =~= seq!['-'] + digits@.subrange(0, k as int));
            }
        }
        proof {
            assert(digits@.subrange(0, digits@.len() as int) =~= digits@);
            assert(r@ =~= dec_str_i(v as int));
        }
        r
    } else {
        let r = u64_to_dec(v as u64);
        r
    }
}

// ---------------------------------------------------------------------------
// Strings and character vectors
// ---------------------------------------------------------------------------

/// Relies on String::push: appends the given character at the end
/// of the string, changing nothing else.
#[verifier::external_body]
pub fn push_char(s: &mut String, c: char)
    ensures
        final(s)@ == old(s)@.push(c),
{
    s.push(c);
}

pub fn chars_to_string(v: &Vec<char>) -> (r: String)
    ensures
        r@ == v@,
{
    let mut r = String::new();
    let mut i: usize = 0;
    while i < v.len()
        invariant
            i <= v.len(),
            r@ =~= v@.subrange(0, i as int),
        decreases v.len() - i,
    {
        push_char(&mut r, v[i]);
        i += 1;
        proof {
            assert(r@ =~= v@.subrange(0, i as int));
        }
    }
    proof {
        assert(v@.subrange(0, v@.len() as int) =~= v@);
    }
    r
}

pub fn string_chars(s: &str) -> (r: Vec<char>)
    ensures
        r@ == s@,
{
    let n = s.unicode_len();
    let mut r: Vec<char> = Vec::new();
    let mut i: usize = 0;
    while i < n
        invariant
            i <= n,
            n == s@.len(),
            r@ =~= s@.subrange(0, i as int),
        decreases n - i,
    {
        r.push(s.get_char(i));
        i += 1;
        proof {
            assert(r@ =~= s@.subrange(0, i as int));
        }
    }
    proof {
        assert(s@.subrange(0, s@.len() as int) =~= s@);
    }
    r
}

/// Compares a character vector with a string slice, by contents.
pub fn chars_eq_str(v: &Vec<char>, s: &str) -> (r: bool)
    ensures
        r == (v@ == s@),
{
    let n = s.unicode_len();
    if v.len() != n {
        return false;
    }
    let mut i: usize = 0;
    while i < n
        invariant
            i <= n,
            n == s@.len(),
            v@.len() == n,
            forall|j: int| 0 <= j < i ==> v@[j] == s@[j],
        decreases n - i,
    {
        if v[i] != s.get_char(i) {
            return false;
        }
        i += 1;
    }
    proof {
        assert(v@ =~= s@);
    }
    true
}

/// Does the vector start with the given string?
pub fn chars_starts_str(v: &Vec<char>, s: &str) -> (r: bool)
    ensures
        r == (v@.len() >= s@.len() && v@.subrange(0, s@.len() as int) == s@),
{
    let n = s.unicode_len();
    if v.len() < n {
        return false;
    }
    let mut i: usize = 0;
    while i < n
        invariant
            i <= n,
            n == s@.len(),
            v@.len() >= n,
            forall|j: int| 0 <= j < i ==> v@[j] == s@[j],
        decreases n - i,
    {
        if v[i] != s.get_char(i) {
            proof {
                assert(v@.subrange(0, s@.len() as int)[i as int] == v@[i as int]);
            }
            return false;
        }
        i += 1;
    }
    proof {
        assert(v@.subrange(0, s@.len() as int) =~= s@);
    }
    true
}

/// Copy of the characters in `[lo, hi)`.
pub fn subvec(s: &Vec<char>, lo: usize, hi: usize) -> (r: Vec<char>)
    requires
        lo <= hi <= s@.len(),
    ensures
        r@ == s@.subrange(lo as int, hi as int),
{
    let mut r: Vec<char> = Vec::new();
    let mut i: usize = lo;
    while i < hi
        invariant
            lo <= i <= hi <= s@.len(),
            r@ =~= s@.subrange(lo as int, i as int),
        decreases hi - i,
    {
        r.push(s[i]);
        i += 1;
        proof {
            assert(r@ =~= s@.subrange(lo as int, i as int));
        }
    }
    r
}

// ---------------------------------------------------------------------------
// Scanning: separators, whitespace, tokens
// ---------------------------------------------------------------------------

/// First position at or after `i` holding `sep`, else the length.
pub open spec fn seg_end(s: Seq<char>, i: int, sep: char) -> int
    decreases s.len() - i,
{
    if i >= s.len() {
        s.len() as int
    } else if s[i] == sep {
        i
    } else {
        seg_end(s, i + 1, sep)
    }
}

/// The segments of `s` from `i` on, cut at every `sep`.
pub open spec fn split_from(s: Seq<char>, i: int, sep: char) -> Seq<Seq<char>>
    decreases s.len() - i,
{
    if i > s.len() || i < 0 {
        Seq::empty()
    } else {
        let e0 = seg_end(s, i, sep);
        let e = if e0 < i { i } else if e0 > s.len() { s.len() as int } else { e0 };
        if e >= s.len() {
            seq![s.subrange(i, s.len() as int)]
        } else {
            seq![s.subrange(i, e)] + split_from(s, e + 1, sep)
        }
    }
}

pub fn find_sep(s: &Vec<char>, i: usize, sep: char) -> (r: usize)
    requires
        i <= s@.len(),
    ensures
        r == seg_end(s@, i as int, sep),
        i <= r <= s@.len(),
    decreases s@.len() - i,
{
    if i >= s.len() {
        s.len()
    } else if s[i] == sep {
        i
    } else {
        find_sep(s, i + 1, sep)
    }
}

/// The contents of a vector of character vectors.
pub open spec fn views_of(r: Seq<Vec<char>>) -> Seq<Seq<char>> {
    Seq::new(r.len(), |i: int| r[i]@)
}

pub fn split_on_from(s: &Vec<char>, i: usize, sep: char) -> (r: Vec<Vec<char>>)
    requires
        i <= s@.len(),
    ensures
        views_of(r@) == split_from(s@, i as int, sep),
    decreases s@.len() - i,
{
    let e = find_sep(s, i, sep);
    let seg = subvec(s, i, e);
    if e >= s.len() {
        let mut r: Vec<Vec<char>> = Vec::new();
        r.push(seg);
        proof {
            assert(views_of(r@) =~= split_from(s@, i as int, sep));
        }
        r
    } else {
        let rest = split_on_from(s, e + 1, sep);
        let mut r: Vec<Vec<char>> = Vec::new();
        r.push(seg);
        let mut k: usize = 0;
        while k < rest.len()
            invariant
                k <= rest@.len(),
                r@.len() == k + 1,
                r@[0]@ == s@.subrange(i as int, seg_end(s@, i as int, sep)),
                forall|j: int| 0 <= j < k ==> r@[j + 1]@ == rest@[j]@,
            decreases rest@.len() - k,
        {
            let seg2 = subvec(&rest[k], 0, rest[k].len());
            proof {
                assert(seg2@ =~= rest@[k as int]@);
            }
            r.push(seg2);
            k += 1;
        }
        proof {
            assert(forall|j: int| 0 <= j < rest@.len() ==> views_of(rest@)[j] == rest@[j]@);
            assert(views_of(r@) =~= split_from(s@, i as int, sep));
        }
        r
    }
}

/// First position at or after `i` where ".." begins, else the length.
pub open spec fn dd_end(s: Seq<char>, i: int) -> int
    decreases s.len() - i,
{
    if i + 2 > s.len() {
        s.len() as int
    } else if s[i] == '.' && s[i + 1] == '.' {
        i
    } else {
        dd_end(s, i + 1)
    }
}

/// The segments of `s` from `i` on, cut at every "..".
pub open spec fn dd_split_from(s: Seq<char>, i: int) -> Seq<Seq<char>>
    decreases s.len() - i,
{
    if i > s.len() || i < 0 {
        Seq::empty()
    } else {
        let e0 = dd_end(s, i);
        let e = if e0 < i { i } else if e0 > s.len() { s.len() as int } else { e0 };
        if e + 2 > s.len() {
            seq![s.subrange(i, s.len() as int)]
        } else {
            seq![s.subrange(i, e)] + dd_split_from(s, e + 2)
        }
    }
}

pub fn find_dd(s: &Vec<char>, i: usize) -> (r: usize)
    requires
        i <= s@.len(),
    ensures
        r == dd_end(s@, i as int),
        i <= r <= s@.len(),
    decreases s@.len() - i,
{
    if s.len() - i < 2 {
        s.len()
    } else if s[i] == '.' && s[i + 1] == '.' {
        i
    } else {
        find_dd(s, i + 1)
    }
}

/// First non-whitespace position at or after `i`, else the length.
pub open spec fn ws_end(s: Seq<char>, i: int) -> int
    decreases s.len() - i,
{
    if i >= s.len() {
        s.len() as int
    } else if is_ws(s[i]) {
        ws_end(s, i + 1)
    } else {
        i
    }
}

pub proof fn lemma_ws_end(s: Seq<char>, i: int)
    requires
        0 <= i <= s.len(),
    ensures
        i <= ws_end(s, i) <= s.len(),
        ws_end(s, i) < s.len() ==> !is_ws(s[ws_end(s, i)]),
    decreases s.len() - i,
{
    if i < s.len() && is_ws(s[i]) {
        lemma_ws_end(s, i + 1);
    }
}

/// First whitespace position at or after `i`, else the length.
pub open spec fn tok_end(s: Seq<char>, i: int) -> int
    decreases s.len() - i,
{
    if i >= s.len() {
        s.len() as int
    } else if is_ws(s[i]) {
        i
    } else {
        tok_end(s, i + 1)
    }
}

pub proof fn lemma_tok_end(s: Seq<char>, i: int)
    requires
        0 <= i <= s.len(),
    ensures
        i <= tok_end(s, i) <= s.len(),
    decreases s.len() - i,
{
    if i < s.len() && !is_ws(s[i]) {
        lemma_tok_end(s, i + 1);
    }
}

pub fn skip_ws_x(s: &Vec<char>, i: usize) -> (r: usize)
    requires
        i <= s@.len(),
    ensures
        r == ws_end(s@, i as int),
        i <= r <= s@.len(),
    decreases s@.len() - i,
{
    if i >= s.len() {
        s.len()
    } else if is_ws_x(s[i]) {
        skip_ws_x(s, i + 1)
    } else {
        i
    }
}

pub fn tok_end_x(s: &Vec<char>, i: usize) -> (r: usize)
    requires
        i <= s@.len(),
    ensures
        r == tok_end(s@, i as int),
        i <= r <= s@.len(),
    decreases s@.len() - i,
{
    if i >= s.len() {
        s.len()
    } else if is_ws_x(s[i]) {
        i
    } else {
        tok_end_x(s, i + 1)
    }
}

// ---------------------------------------------------------------------------
// Trimming
// ---------------------------------------------------------------------------

/// Length of `s` with trailing whitespace removed.
pub open spec fn trim_end_idx(s: Seq<char>) -> int
    decreases s.len(),
{
    if s.len() == 0 {
        0
    } else if is_ws(s.last()) {
        trim_end_idx(s.drop_last())
    } else {
        s.len() as int
    }
}

pub proof fn lemma_trim_end_idx(s: Seq<char>)
    ensures
        0 <= trim_end_idx(s) <= s.len(),
    decreases s.len(),
{
    if s.len() > 0 && is_ws(s.last()) {
        lemma_trim_end_idx(s.drop_last());
    }
}

/// `s` with leading and trailing whitespace removed.
pub open spec fn trimmed(s: Seq<char>) -> Seq<char> {
    let b0 = trim_end_idx(s);
    let b = if b0 < 0 { 0 } else if b0 > s.len() { s.len() as int } else { b0 };
    let t = s.subrange(0, b);
    let a0 = ws_end(t, 0);
    let a = if a0 < 0 { 0 } else if a0 > t.len() { t.len() as int } else { a0 };
    t.subrange(a, t.len() as int)
}

pub fn trim_of(s: &Vec<char>) -> (r: Vec<char>)
    ensures
        r@ == trimmed(s@),
{
    let mut b: usize = s.len();
    proof {
        assert(s@.subrange(0, b as int) =~= s@);
    }
    while b > 0 && is_ws_x(s[b - 1])
        invariant
            b <= s@.len(),
            trim_end_idx(s@) == trim_end_idx(s@.subrange(0, b as int)),
        decreases b,
    {
        proof {
            assert(s@.subrange(0, b as int).last() == s@[b - 1]);
            assert(s@.subrange(0, b as int).drop_last() =~= s@.subrange(0, b as int - 1));
        }
        b -= 1;
    }
    proof {
        lemma_trim_end_idx(s@);
        if b > 0 {
            assert(s@.subrange(0, b as int).last() == s@[b - 1]);
        }
        assert(trim_end_idx(s@.subrange(0, b as int)) == b as int);
    }
    let t = subvec(s, 0, b);
    let a = skip_ws_x(&t, 0);
    let r = subvec(&t, a, t.len());
    r
}

// ---------------------------------------------------------------------------
// Quote handling
// ---------------------------------------------------------------------------

pub open spec fn starts_q(w: Seq<char>) -> bool {
    w.len() > 0 && w[0] == '"'
}

pub open spec fn ends_q(w: Seq<char>) -> bool {
    w.len() > 0 && w.last() == '"'
}

/// `w` with every leading and trailing quote character removed.
pub open spec fn trim_q(w: Seq<char>) -> Seq<char>
    decreases w.len(),
{
    if w.len() > 0 && w[0] == '"' {
        trim_q(w.skip(1))
    } else if w.len() > 0 && w.last() == '"' {
        trim_q(w.drop_last())
    } else {
        w
    }
}

pub fn trim_q_of(s: &Vec<char>) -> (r: Vec<char>)
    ensures
        r@ == trim_q(s@),
{
    let mut lo: usize = 0;
    let mut hi: usize = s.len();
    proof {
        assert(s@.subrange(0, s@.len() as int) =~= s@);
    }
    while lo < hi && s[lo] == '"'
        invariant
            lo <= hi <= s@.len(),
            trim_q(s@) == trim_q(s@.subrange(lo as int, hi as int)),
        decreases hi - lo,
    {
        proof {
            let seg = s@.subrange(lo as int, hi as int);
            assert(seg[0] == s@[lo as int]);
            assert(seg.skip(1) =~= s@.subrange(lo as int + 1, hi as int));
        }
        lo += 1;
    }
    while lo < hi && s[hi - 1] == '"'
        invariant
            lo <= hi <= s@.len(),
            trim_q(s@) == trim_q(s@.subrange(lo as int, hi as int)),
            lo < hi ==> s@[lo as int] != '"',
        decreases hi,
    {
        proof {
            let seg = s@.subrange(lo as int, hi as int);
            assert(seg.last() == s@[hi - 1]);
            assert(seg.drop_last() =~= s@.subrange(lo as int, hi as int - 1));
        }
        hi -= 1;
    }
    let r = subvec(s, lo, hi);
    proof {
        let seg = s@.subrange(lo as int, hi as int);
        if lo < hi {
            assert(seg[0] == s@[lo as int]);
            assert(seg.last() == s@[hi - 1]);
        }
        assert(trim_q(seg) == seg);
    }
    r
}

// ---------------------------------------------------------------------------
// Bounded decimal reading
// ---------------------------------------------------------------------------

/// Reading threshold: digit strings are read exactly below this value.
pub open spec fn dec_limit() -> int {
    1000000000000000000
}

/// Reads the digits of `s[from..to)`. `None` unless the segment is a
/// non-empty run of digits; a value at or above the threshold is reported
/// as the threshold-capped result.
pub fn read_dec(s: &Vec<char>, from: usize, to: usize) -> (r: Option<u64>)
    requires
        from <= to <= s@.len(),
    ensures
        match r {
            Some(a) => {
                &&& is_dec(s@.subrange(from as int, to as int))
                &&& if dec_val(s@.subrange(from as int, to as int)) < dec_limit() {
                    a as int == dec_val(s@.subrange(from as int, to as int))
                } else {
                    a as int >= dec_limit()
                }
            },
            None => !is_dec(s@.subrange(from as int, to as int)),
        },
{
    if from == to {
        return None;
    }
    let ghost seg = s@.subrange(from as int, to as int);
    let mut acc: u64 = 0;
    let mut i: usize = from;
    while i < to
        invariant
            from <= i <= to <= s@.len(),
            seg == s@.subrange(from as int, to as int),
            forall|j: int| from <= j < i ==> is_digit_c(s@[j]),
            ({
                let pre = s@.subrange(from as int, i as int);
                &&& (dec_val(pre) < dec_limit() ==> acc as int == dec_val(pre))
                &&& (dec_val(pre) >= dec_limit() ==> acc as int >= dec_limit())
                &&& acc as int <= dec_val(pre)
            }),
        decreases to - i,
    {
        let c = s[i];
        if !is_digit_x(c) {
            proof {
                assert(seg[i - from] == s@[i as int]);
            }
            return None;
        }
        let d: u64 = (c as u32 as u64) - 48;
        proof {
            let pre = s@.subrange(from as int, i as int);
            let pre2 = s@.subrange(from as int, i as int + 1);
            assert(pre2.drop_last() =~= pre);
            assert(pre2.last() == s@[i as int]);
            assert(dec_val(pre2) == dec_val(pre) * 10 + digit_val(s@[i as int]));
            assert(dec_val(pre) >= acc >= 0);
        }
        if acc < 1000000000000000000u64 {
            acc = acc * 10 + d;
        }
        i += 1;
    }
    proof {
        assert(s@.subrange(from as int, i as int) == seg);
        assert(forall|j: int| 0 <= j < seg.len() ==> seg[j] == s@[from + j]);
    }
    Some(acc)
}

/// Reads a whole signed decimal. `Some` exactly when the text is a signed
/// digit run whose value lies strictly within the reading threshold.
pub fn read_sdec(s: &Vec<char>) -> (r: Option<i64>)
    ensures
        match r {
            Some(v) => {
                &&& is_sdec(s@)
                &&& -dec_limit() < sdec_val(s@) < dec_limit()
                &&& v as int == sdec_val(s@)
            },
            None => !(is_sdec(s@) && -dec_limit() < sdec_val(s@) < dec_limit()),
        },
{
    let neg = s.len() > 0 && s[0] == '-';
    let from: usize = if neg { 1 } else { 0 };
    let a = match read_dec(s, from, s.len()) {
        Some(a) => a,
        None => {
            proof {
                if neg {
                    assert(s@.subrange(1, s@.len() as int) =~= s@.skip(1));
                } else {
                    assert(s@.subrange(0, s@.len() as int) =~= s@);
                }
            }
            return None;
        },
    };
    proof {
        if neg {
            assert(s@.subrange(1, s@.len() as int) =~= s@.skip(1));
        } else {
            assert(s@.subrange(0, s@.len() as int) =~= s@);
        }
    }
    if a >= 1000000000000000000u64 {
        return None;
    }
    if neg {
        Some(-(a as i64))
    } else {
        Some(a as i64)
    }
}

} // verus!

