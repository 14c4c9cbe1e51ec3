use vstd::prelude::*;

use crate::text::{chars_to_string, push_all, push_spaces, spaces};

verus! {

broadcast use vstd::std_specs::vec::axiom_vec_index_decreases;

/// A JSON value. Numbers carry their literal source text, so no
/// floating-point representation is ever needed, and a serialized body
/// keeps a numeric override exactly as written (`1.5e3` stays `1.5e3`);
/// strings carry decoded text.
#[derive(Debug)]
pub enum JsonVal {
    Null,
    Bool(bool),
    Num(String),
    Str(String),
    Arr(Vec<JsonVal>),
    Obj(Vec<(String, JsonVal)>),
}

/// The mathematical model of a `JsonVal`: the same tree over sequences.
pub enum JsonData {
    Null,
    Bool(bool),
    Num(Seq<char>),
    Str(Seq<char>),
    Arr(Seq<JsonData>),
    Obj(Seq<(Seq<char>, JsonData)>),
}

pub open spec fn jmodel(v: JsonVal) -> JsonData
    decreases v, 0int,
{
    match v {
        JsonVal::Null => JsonData::Null,
        JsonVal::Bool(b) => JsonData::Bool(b),
        JsonVal::Num(s) => JsonData::Num(s@),
        JsonVal::Str(s) => JsonData::Str(s@),
        JsonVal::Arr(es) => JsonData::Arr(lmodel(es@, es@.len() as int)),
        JsonVal::Obj(es) => JsonData::Obj(emodel(es@, es@.len() as int)),
    }
}

pub open spec fn lmodel(es: Seq<JsonVal>, n: int) -> Seq<JsonData>
    decreases es, n,
{
    if n <= 0 || n > es.len() {
        Seq::empty()
    } else {
        lmodel(es, n - 1).push(jmodel(es[n - 1]))
    }
}

pub open spec fn emodel(es: Seq<(String, JsonVal)>, n: int) -> Seq<(Seq<char>, JsonData)>
    decreases es, n,
{
    if n <= 0 || n > es.len() {
        Seq::empty()
    } else {
        emodel(es, n - 1).push((es[n - 1].0@, jmodel(es[n - 1].1)))
    }
}

pub proof fn lemma_lmodel(es: Seq<JsonVal>, n: int)
    requires
        0 <= n <= es.len(),
    ensures
        lmodel(es, n).len() == n,
        forall|j: int| 0 <= j < n ==> lmodel(es, n)[j] == jmodel(es[j]),
    decreases n,
{
    if n > 0 {
        lemma_lmodel(es, n - 1);
    }
}

pub proof fn lemma_emodel(es: Seq<(String, JsonVal)>, n: int)
    requires
        0 <= n <= es.len(),
    ensures
        emodel(es, n).len() == n,
        forall|j: int| 0 <= j < n ==> emodel(es, n)[j] == (es[j].0@, jmodel(es[j].1)),
    decreases n,
{
    if n > 0 {
        lemma_emodel(es, n - 1);
    }
}

// ---------------------------------------------------------------------------
// Compact (single-line) rendering, as a canonical JSON text.
// ---------------------------------------------------------------------------

pub open spec fn hex_digit(n: nat) -> char {
    if n == 0 { '0' } else if n == 1 { '1' } else if n == 2 { '2' } else if n == 3 { '3' }
    else if n == 4 { '4' } else if n == 5 { '5' } else if n == 6 { '6' } else if n == 7 { '7' }
    else if n == 8 { '8' } else if n == 9 { '9' } else if n == 10 { 'a' } else if n == 11 { 'b' }
    else if n == 12 { 'c' } else if n == 13 { 'd' } else if n == 14 { 'e' } else { 'f' }
}

/// How one character appears inside a JSON string literal.
pub open spec fn esc_char(c: char) -> Seq<char> {
    if c == '"' { seq!['\\', '"'] }
    else if c == '\\' { seq!['\\', '\\'] }
    else if c == '\u{8}' { seq!['\\', 'b'] }
    else if c == '\t' { seq!['\\', 't'] }
    else if c == '\n' { seq!['\\', 'n'] }
    else if c == '\u{c}' { seq!['\\', 'f'] }
    else if c == '\r' { seq!['\\', 'r'] }
    else if (c as u32) < 32 {
        seq!['\\', 'u', '0', '0', hex_digit(((c as u32) / 16) as nat), hex_digit(
            ((c as u32) % 16) as nat,
        )]
    } else {
        seq![c]
    }
}

pub open spec fn esc_prefix(s: Seq<char>, n: int) -> Seq<char>
    decreases n,
{
    if n <= 0 || n > s.len() {
        Seq::empty()
    } else {
        esc_prefix(s, n - 1) + esc_char(s[n - 1])
    }
}

/// The body of the JSON string literal for text `s`.
pub open spec fn esc(s: Seq<char>) -> Seq<char> {
    esc_prefix(s, s.len() as int)
}

pub open spec fn quoted(s: Seq<char>) -> Seq<char> {
    seq!['"'] + esc(s) + seq!['"']
}

/// The compact JSON text of a value: no spaces, keys and items in order.
pub open spec fn json_min(v: JsonData) -> Seq<char>
    decreases v, 0int,
{
    match v {
        JsonData::Null => seq!['n', 'u', 'l', 'l'],
        JsonData::Bool(b) => if b {
            seq!['t', 'r', 'u', 'e']
        } else {
            seq!['f', 'a', 'l', 's', 'e']
        },
        JsonData::Num(s) => s,
        JsonData::Str(s) => quoted(s),
        JsonData::Arr(es) => seq!['['] + min_items(es, es.len() as int) + seq![']'],
        JsonData::Obj(es) => seq!['{'] + min_entries(es, es.len() as int) + seq!['}'],
    }
}

pub open spec fn min_items(es: Seq<JsonData>, n: int) -> Seq<char>
    decreases es, n,
{
    if n <= 0 || n > es.len() {
        Seq::empty()
    } else if n == 1 {
        json_min(es[0])
    } else {
        min_items(es, n - 1) + seq![','] + json_min(es[n - 1])
    }
}

pub open spec fn min_entries(es: Seq<(Seq<char>, JsonData)>, n: int) -> Seq<char>
    decreases es, n,
{
    if n <= 0 || n > es.len() {
        Seq::empty()
    } else if n == 1 {
        quoted(es[0].0) + seq![':'] + json_min(es[0].1)
    } else {
        min_entries(es, n - 1) + seq![','] + quoted(es[n - 1].0) + seq![':'] + json_min(es[n - 1].1)
    }
}

// ---------------------------------------------------------------------------
// Pretty (indented, multi-line) rendering, two spaces per depth level.
// ---------------------------------------------------------------------------

pub open spec fn nl_indent(d: nat) -> Seq<char> {
    seq!['\n'] + spaces(2 * d)
}

pub open spec fn json_pretty(v: JsonData, d: nat) -> Seq<char>
    decreases v, 1int,
{
    match v {
        JsonData::Arr(es) => if es.len() == 0 {
            seq!['[', ']']
        } else {
            seq!['['] + pretty_items(es, es.len() as int, d) + nl_indent(d) + seq![']']
        },
        JsonData::Obj(es) => if es.len() == 0 {
            seq!['{', '}']
        } else {
            seq!['{'] + pretty_entries(es, es.len() as int, d) + nl_indent(d) + seq!['}']
        },
        _ => json_min(v),
    }
}

pub open spec fn pretty_items(es: Seq<JsonData>, n: int, d: nat) -> Seq<char>
    decreases es, n,
{
    if n <= 0 || n > es.len() {
        Seq::empty()
    } else if n == 1 {
        nl_indent(d + 1) + json_pretty(es[0], d + 1)
    } else {
        pretty_items(es, n - 1, d) + seq![','] + nl_indent(d + 1) + json_pretty(es[n - 1], d + 1)
    }
}

pub open spec fn pretty_entries(es: Seq<(Seq<char>, JsonData)>, n: int, d: nat) -> Seq<char>
    decreases es, n,
{
    if n <= 0 || n > es.len() {
        Seq::empty()
    } else if n == 1 {
        nl_indent(d + 1) + quoted(es[0].0) + seq![':', ' '] + json_pretty(es[0].1, d + 1)
    } else {
        pretty_entries(es, n - 1, d) + seq![','] + nl_indent(d + 1) + quoted(es[n - 1].0)
            + seq![':', ' '] + json_pretty(es[n - 1].1, d + 1)
    }
}

// ---------------------------------------------------------------------------
// Object operations: first-match lookup, last-write-wins assignment.
// ---------------------------------------------------------------------------

/// The first index at or after `j` whose key is `k`, or the length if none.
pub open spec fn obj_first_from(es: Seq<(Seq<char>, JsonData)>, k: Seq<char>, j: int) -> int
    decreases es.len() - j,
{
    if j < 0 || j >= es.len() {
        es.len() as int
    } else if es[j].0 == k {
        j
    } else {
        obj_first_from(es, k, j + 1)
    }
}

pub open spec fn obj_get(es: Seq<(Seq<char>, JsonData)>, k: Seq<char>) -> Option<JsonData> {
    let i = obj_first_from(es, k, 0);
    if i < es.len() {
        Some(es[i].1)
    } else {
        None
    }
}

/// Map assignment: replace the first entry named `k` in place, else append.
pub open spec fn obj_set(es: Seq<(Seq<char>, JsonData)>, k: Seq<char>, v: JsonData) -> Seq<
    (Seq<char>, JsonData),
> {
    let i = obj_first_from(es, k, 0);
    if i < es.len() {
        es.update(i, (k, v))
    } else {
        es.push((k, v))
    }
}

pub proof fn lemma_obj_first_bounds(es: Seq<(Seq<char>, JsonData)>, k: Seq<char>, j: int)
    requires
        0 <= j <= es.len(),
    ensures
        j <= obj_first_from(es, k, j) <= es.len(),
        obj_first_from(es, k, j) < es.len() ==> es[obj_first_from(es, k, j)].0 == k,
        forall|m: int| j <= m < obj_first_from(es, k, j) ==> es[m].0 != k,
    decreases es.len() - j,
{
    if j < es.len() && es[j].0 != k {
        lemma_obj_first_bounds(es, k, j + 1);
    }
}

pub open spec fn pair_views(s: Seq<(String, String)>) -> Seq<(Seq<char>, Seq<char>)> {
    s.map_values(|p: (String, String)| (p.0@, p.1@))
}

/// Applies the first `n` `(key, value)` overrides to an object-shaped value
/// in order, each value read as a JSON scalar; a non-object base is returned
/// unchanged.
pub open spec fn apply_pairs(base: JsonData, ps: Seq<(Seq<char>, Seq<char>)>, n: int) -> JsonData
    decreases n,
{
    if n <= 0 || n > ps.len() {
        base
    } else {
        let prev = apply_pairs(base, ps, n - 1);
        match prev {
            JsonData::Obj(es) => JsonData::Obj(obj_set(es, ps[n - 1].0, scalar_of(ps[n - 1].1))),
            _ => prev,
        }
    }
}

pub proof fn lemma_apply_pairs_obj(b: JsonData, ps: Seq<(Seq<char>, Seq<char>)>, n: int)
    requires
        b is Obj,
    ensures
        apply_pairs(b, ps, n) is Obj,
    decreases n,
{
    if n > 0 && n <= ps.len() {
        lemma_apply_pairs_obj(b, ps, n - 1);
    }
}

pub proof fn lemma_obj_first_extend(
    es: Seq<(Seq<char>, JsonData)>,
    e: (Seq<char>, JsonData),
    k: Seq<char>,
    j: int,
)
    requires
        0 <= j <= es.len(),
    ensures
        obj_first_from(es.push(e), k, j) == if obj_first_from(es, k, j) < es.len() {
            obj_first_from(es, k, j)
        } else if e.0 == k {
            es.len() as int
        } else {
            es.len() + 1int
        },
    decreases es.len() - j,
{
    if j < es.len() {
        assert(es.push(e)[j] == es[j]);
        if es[j].0 == k {
        } else {
            lemma_obj_first_extend(es, e, k, j + 1);
        }
    } else {
        assert(es.push(e)[j] == e);
        if e.0 == k {
            assert(obj_first_from(es.push(e), k, j) == j);
        } else {
            assert(obj_first_from(es.push(e), k, j + 1) == es.len() + 1int);
        }
        assert(obj_first_from(es, k, j) == es.len() as int);
    }
}

pub proof fn lemma_obj_first_update(
    es: Seq<(Seq<char>, JsonData)>,
    i: int,
    v: JsonData,
    k: Seq<char>,
    j: int,
)
    requires
        0 <= i < es.len(),
        0 <= j <= es.len(),
    ensures
        obj_first_from(es.update(i, (es[i].0, v)), k, j) == obj_first_from(es, k, j),
    decreases es.len() - j,
{
    if j < es.len() {
        assert(es.update(i, (es[i].0, v))[j].0 == es[j].0);
        if es[j].0 == k {
        } else {
            lemma_obj_first_update(es, i, v, k, j + 1);
        }
    }
}

/// Map assignment then lookup: the assigned key reads back the assigned
/// value, and every other key reads what it read before.
#[verifier::rlimit(60)]
pub proof fn lemma_obj_set_get(es: Seq<(Seq<char>, JsonData)>, k2: Seq<char>, v: JsonData, k: Seq<
    char,
>)
    ensures
        obj_get(obj_set(es, k2, v), k) == if k == k2 {
            Some(v)
        } else {
            obj_get(es, k)
        },
{
    lemma_obj_first_bounds(es, k2, 0);
    let i = obj_first_from(es, k2, 0);
    if i < es.len() {
        let es2 = es.update(i, (k2, v));
        assert(es2 =~= es.update(i, (es[i].0, v)));
        lemma_obj_first_update(es, i, v, k, 0);
        lemma_obj_first_bounds(es2, k, 0);
        lemma_obj_first_bounds(es, k, 0);
        if k == k2 {
            assert(obj_first_from(es, k, 0) == i);
        }
    } else {
        lemma_obj_first_extend(es, (k2, v), k, 0);
        lemma_obj_first_bounds(es, k, 0);
    }
}

/// The index of the last of the first `n` pairs whose key is `k`, or `-1`.
pub open spec fn last_of(ps: Seq<(Seq<char>, Seq<char>)>, k: Seq<char>, n: int) -> int
    decreases n,
{
    if n <= 0 || n > ps.len() {
        -1
    } else if ps[n - 1].0 == k {
        n - 1
    } else {
        last_of(ps, k, n - 1)
    }
}

/// Last write wins: after applying the first `n` overrides to an object,
/// each key reads the value of its last override, and a key no override
/// names reads what the base object held.
pub proof fn lemma_apply_pairs_get(
    base: JsonData,
    ps: Seq<(Seq<char>, Seq<char>)>,
    n: int,
    k: Seq<char>,
)
    requires
        base is Obj,
        0 <= n <= ps.len(),
    ensures
        apply_pairs(base, ps, n) is Obj,
        obj_get(apply_pairs(base, ps, n)->Obj_0, k) == if last_of(ps, k, n) >= 0 {
            Some(scalar_of(ps[last_of(ps, k, n)].1))
        } else {
            obj_get(base->Obj_0, k)
        },
    decreases n,
{
    lemma_apply_pairs_obj(base, ps, n);
    if n > 0 {
        lemma_apply_pairs_get(base, ps, n - 1, k);
        lemma_obj_set_get(apply_pairs(base, ps, n - 1)->Obj_0, ps[n - 1].0, scalar_of(ps[n - 1].1), k);
    }
}

// ---------------------------------------------------------------------------
// Scalar detection for override values.
// ---------------------------------------------------------------------------

pub open spec fn is_digit(c: char) -> bool {
    '0' <= c && c <= '9'
}

/// The first index at or after `i` that does not hold an ASCII digit.
pub open spec fn digits_end(s: Seq<char>, i: int) -> int
    decreases s.len() - i,
{
    if 0 <= i < s.len() && is_digit(s[i]) {
        digits_end(s, i + 1)
    } else {
        i
    }
}

/// The JSON number grammar: optional sign, integer part without leading
/// zeros, optional fraction, optional exponent.
pub open spec fn is_json_number(s: Seq<char>) -> bool {
    let n = s.len() as int;
    let i0: int = if n > 0 && s[0] == '-' { 1 } else { 0 };
    let i1 = digits_end(s, i0);
    (i1 > i0) && (s[i0] != '0' || i1 == i0 + 1) && {
        let i2: int = if i1 < n && s[i1] == '.' {
            let f = digits_end(s, i1 + 1);
            if f > i1 + 1 { f } else { -1 }
        } else {
            i1
        };
        i2 >= 0 && {
            let i3: int = if i2 < n && (s[i2] == 'e' || s[i2] == 'E') {
                let j: int = if i2 + 1 < n && (s[i2 + 1] == '+' || s[i2 + 1] == '-') {
                    i2 + 2
                } else {
                    i2 + 1
                };
                let g = digits_end(s, j);
                if g > j { g } else { -1 }
            } else {
                i2
            };
            i3 == n
        }
    }
}

/// How an override value text reads as a JSON scalar: the literals `null`,
/// `true` and `false`, then numbers, then plain text.
pub open spec fn scalar_of(s: Seq<char>) -> JsonData {
    if s == seq!['n', 'u', 'l', 'l'] {
        JsonData::Null
    } else if s == seq!['t', 'r', 'u', 'e'] {
        JsonData::Bool(true)
    } else if s == seq!['f', 'a', 'l', 's', 'e'] {
        JsonData::Bool(false)
    } else if is_json_number(s) {
        JsonData::Num(s)
    } else {
        JsonData::Str(s)
    }
}

fn exec_digits_end(s: &Vec<char>, from: usize) -> (r: usize)
    requires
        from <= s@.len(),
    ensures
        r == digits_end(s@, from as int),
        from <= r <= s@.len(),
{
    let n = s.len();
    let mut i = from;
    while i < n && '0' <= s[i] && s[i] <= '9'
        invariant
            from <= i <= n,
            n == s@.len(),
            digits_end(s@, from as int) == digits_end(s@, i as int),
        decreases n - i,
    {
        i = i + 1;
    }
    i
}

/// Whether `s` is a well-formed JSON number literal.
pub fn is_number_text(s: &Vec<char>) -> (r: bool)
    ensures
        r == is_json_number(s@),
{
    let n = s.len();
    let i0: usize = if n > 0 && s[0] == '-' { 1 } else { 0 };
    let i1 = exec_digits_end(s, i0);
    if i1 == i0 {
        return false;
    }
    if s[i0] == '0' && i1 != i0 + 1 {
        return false;
    }
    let i2: usize = if i1 < n && s[i1] == '.' {
        let f = exec_digits_end(s, i1 + 1);
        if f > i1 + 1 {
            f
        } else {
            return false;
        }
    } else {
        i1
    };
    let i3: usize = if i2 < n && (s[i2] == 'e' || s[i2] == 'E') {
        let j: usize = if i2 + 1 < n && (s[i2 + 1] == '+' || s[i2 + 1] == '-') {
            i2 + 2
        } else {
            i2 + 1
        };
        let g = exec_digits_end(s, j);
        if g > j {
            g
        } else {
            return false;
        }
    } else {
        i2
    };
    i3 == n
}

/// Reads an override value as a JSON scalar, falling back to plain text.
pub fn parse_scalar(s: &Vec<char>) -> (r: JsonVal)
    ensures
        jmodel(r) == scalar_of(s@),
{
    if s.len() == 4 && s[0] == 'n' && s[1] == 'u' && s[2] == 'l' && s[3] == 'l' {
        proof {
            assert(s@ =~= seq!['n', 'u', 'l', 'l']);
        }
        JsonVal::Null
    } else if s.len() == 4 && s[0] == 't' && s[1] == 'r' && s[2] == 'u' && s[3] == 'e' {
        proof {
            assert(s@ =~= seq!['t', 'r', 'u', 'e']);
        }
        JsonVal::Bool(true)
    } else if s.len() == 5 && s[0] == 'f' && s[1] == 'a' && s[2] == 'l' && s[3] == 's' && s[4]
        == 'e' {
        proof {
            assert(s@ =~= seq!['f', 'a', 'l', 's', 'e']);
        }
        JsonVal::Bool(false)
    } else if is_number_text(s) {
        JsonVal::Num(chars_to_string(s))
    } else {
        JsonVal::Str(chars_to_string(s))
    }
}

// ---------------------------------------------------------------------------
// Executable rendering.
// ---------------------------------------------------------------------------

/// Appends the JSON string-literal body of `s` to `out`.
pub fn push_escaped(out: &mut Vec<char>, s: &Vec<char>)
    ensures
        final(out)@ == old(out)@ + esc(s@),
{
    let n = s.len();
    let mut i: usize = 0;
    while i < n
        invariant
            i <= n,
            n == s@.len(),
            out@ =~= old(out)@ + esc_prefix(s@, i as int),
        decreases n - i,
    {
        let c = s[i];
        if c == '"' {
            out.push('\\');
            out.push('"');
        } else if c == '\\' {
            out.push('\\');
            out.push('\\');
        } else if c == '\u{8}' {
            out.push('\\');
            out.push('b');
        } else if c == '\t' {
            out.push('\\');
            out.push('t');
        } else if c == '\n' {
            out.push('\\');
            out.push('n');
        } else if c == '\u{c}' {
            out.push('\\');
            out.push('f');
        } else if c == '\r' {
            out.push('\\');
            out.push('r');
        } else if (c as u32) < 32 {
            out.push('\\');
            out.push('u');
            out.push('0');
            out.push('0');
            let hi = (c as u32) / 16;
            let lo = (c as u32) % 16;
            let hic: char = if hi == 0 { '0' } else { '1' };
            let loc: char = match lo {
                0 => '0', 1 => '1', 2 => '2', 3 => '3', 4 => '4', 5 => '5', 6 => '6', 7 => '7',
                8 => '8', 9 => '9', 10 => 'a', 11 => 'b', 12 => 'c', 13 => 'd', 14 => 'e',
                _ => 'f',
            };
            out.push(hic);
            out.push(loc);
        } else {
            out.push(c);
        }
        i = i + 1;
        proof {
            assert(out@ =~= old(out)@ + esc_prefix(s@, i as int));
        }
    }
}

fn push_quoted(out: &mut Vec<char>, s: &String)
    ensures
        final(out)@ == old(out)@ + quoted(s@),
{
    out.push('"');
    let cs = crate::text::chars_of(s.as_str());
    push_escaped(out, &cs);
    out.push('"');
    proof {
        assert(out@ =~= old(out)@ + quoted(s@));
    }
}

/// Appends the compact JSON text of `v` to `out`.
#[verifier::loop_isolation(false)]
#[verifier::rlimit(100)]
pub fn push_json_min(v: &JsonVal, out: &mut Vec<char>)
    ensures
        final(out)@ == old(out)@ + json_min(jmodel(*v)),
    decreases *v, 0int,
{
    match v {
        JsonVal::Null => {
            out.push('n');
            out.push('u');
            out.push('l');
            out.push('l');
            proof {
                assert(out@ =~= old(out)@ + json_min(jmodel(*v)));
            }
        },
        JsonVal::Bool(b) => {
            if *b {
                out.push('t');
                out.push('r');
                out.push('u');
                out.push('e');
            } else {
                out.push('f');
                out.push('a');
                out.push('l');
                out.push('s');
                out.push('e');
            }
            proof {
                assert(out@ =~= old(out)@ + json_min(jmodel(*v)));
            }
        },
        JsonVal::Num(s) => {
            let cs = crate::text::chars_of(s.as_str());
            push_all(out, &cs);
        },
        JsonVal::Str(s) => {
            push_quoted(out, s);
        },
        JsonVal::Arr(es) => {
            out.push('[');
            let n = es.len();
            proof {
                lemma_lmodel(es@, n as int);
            }
            let ghost m = lmodel(es@, n as int);
            let mut i: usize = 0;
            while i < n
                invariant
                    i <= n,
                    n == es@.len(),
                    m == lmodel(es@, n as int),
                    m.len() == n,
                    forall|j: int| 0 <= j < n ==> m[j] == jmodel(es@[j]),
                    out@ =~= old(out)@ + seq!['['] + min_items(m, i as int),
                decreases n - i,
            {
                if i > 0 {
                    out.push(',');
                }
                proof {
                    vstd::std_specs::vec::axiom_vec_index_decreases(*es, i as int);
                    assert(*es == (*v)->Arr_0);
                    assert(decreases_to!(*v => (*v)->Arr_0));
                    assert(decreases_to!(*es => (*es)[i as int]));
                }
                push_json_min(&es[i], out);
                i = i + 1;
                proof {
                    assert(out@ =~= old(out)@ + seq!['['] + min_items(m, i as int));
                }
            }
            out.push(']');
            proof {
                assert(out@ =~= old(out)@ + json_min(jmodel(*v)));
            }
        },
        JsonVal::Obj(es) => {
            out.push('{');
            let n = es.len();
            proof {
                lemma_emodel(es@, n as int);
            }
            let ghost m = emodel(es@, n as int);
            let mut i: usize = 0;
            while i < n
                invariant
                    i <= n,
                    n == es@.len(),
                    m == emodel(es@, n as int),
                    m.len() == n,
                    forall|j: int| 0 <= j < n ==> m[j] == (es@[j].0@, jmodel(es@[j].1)),
                    out@ =~= old(out)@ + seq!['{'] + min_entries(m, i as int),
                decreases n - i,
            {
                if i > 0 {
                    out.push(',');
                }
                push_quoted(out, &es[i].0);
                out.push(':');
                proof {
                    vstd::std_specs::vec::axiom_vec_index_decreases(*es, i as int);
                    assert(*es == (*v)->Obj_0);
                    assert(decreases_to!(*v => (*v)->Obj_0));
                    assert(decreases_to!(*es => (*es)[i as int]));
                    assert(decreases_to!((*es)[i as int] => (*es)[i as int].1));
                }
                push_json_min(&es[i].1, out);
                i = i + 1;
                proof {
                    assert(out@ =~= old(out)@ + seq!['{'] + min_entries(m, i as int));
                }
            }
            out.push('}');
            proof {
                assert(out@ =~= old(out)@ + json_min(jmodel(*v)));
            }
        },
    }
}

/// Appends the pretty JSON text of `v`, at the depth whose two-space
/// indentation is `ind`, to `out`.
#[verifier::loop_isolation(false)]
#[verifier::rlimit(100)]
pub fn push_json_pretty(v: &JsonVal, ind: &Vec<char>, Ghost(d): Ghost<nat>, out: &mut Vec<char>)
    requires
        ind@ == spaces(2 * d),
    ensures
        final(out)@ == old(out)@ + json_pretty(jmodel(*v), d),
    decreases *v, 1int,
{
    match v {
        JsonVal::Arr(es) => {
            let n = es.len();
            if n == 0 {
                out.push('[');
                out.push(']');
                proof {
                    assert(out@ =~= old(out)@ + json_pretty(jmodel(*v), d));
                }
            } else {
                out.push('[');
                proof {
                    lemma_lmodel(es@, n as int);
                }
                let ghost m = lmodel(es@, n as int);
                let mut ind2: Vec<char> = Vec::new();
                push_all(&mut ind2, ind);
                ind2.push(' ');
                ind2.push(' ');
                proof {
                    assert(spaces(2 * (d + 1)) =~= spaces(2 * d + 1) + seq![' ']);
                    assert(spaces(2 * d + 1) =~= spaces(2 * d) + seq![' ']);
                    assert(ind2@ =~= spaces(2 * (d + 1)));
                }
                let mut i: usize = 0;
                while i < n
                    invariant
                        i <= n,
                        n == es@.len(),
                        ind2@ == spaces(2 * (d + 1)),
                        m == lmodel(es@, n as int),
                        m.len() == n,
                        forall|j: int| 0 <= j < n ==> m[j] == jmodel(es@[j]),
                        out@ =~= old(out)@ + seq!['['] + pretty_items(m, i as int, d),
                    decreases n - i,
                {
                    if i > 0 {
                        out.push(',');
                    }
                    out.push('\n');
                    push_all(out, &ind2);
                    proof {
                        assert(decreases_to!(*v => *es));
                        assert(decreases_to!(*es => (*es)[i as int]));
                    }
                    push_json_pretty(&es[i], &ind2, Ghost(d + 1), out);
                    i = i + 1;
                    proof {
                        assert(out@ =~= old(out)@ + seq!['['] + pretty_items(m, i as int, d));
                    }
                }
                out.push('\n');
                push_all(out, ind);
                out.push(']');
                proof {
                    assert(out@ =~= old(out)@ + json_pretty(jmodel(*v), d));
                }
            }
        },
        JsonVal::Obj(es) => {
            let n = es.len();
            if n == 0 {
                out.push('{');
                out.push('}');
                proof {
                    assert(out@ =~= old(out)@ + json_pretty(jmodel(*v), d));
                }
            } else {
                out.push('{');
                proof {
                    lemma_emodel(es@, n as int);
                }
                let ghost m = emodel(es@, n as int);
                let mut ind2: Vec<char> = Vec::new();
                push_all(&mut ind2, ind);
                ind2.push(' ');
                ind2.push(' ');
                proof {
                    assert(spaces(2 * (d + 1)) =~= spaces(2 * d + 1) + seq![' ']);
                    assert(spaces(2 * d + 1) =~= spaces(2 * d) + seq![' ']);
                    assert(ind2@ =~= spaces(2 * (d + 1)));
                }
                let mut i: usize = 0;
                while i < n
                    invariant
                        i <= n,
                        n == es@.len(),
                        ind2@ == spaces(2 * (d + 1)),
                        m == emodel(es@, n as int),
                        m.len() == n,
                        forall|j: int| 0 <= j < n ==> m[j] == (es@[j].0@, jmodel(es@[j].1)),
                        out@ =~= old(out)@ + seq!['{'] + pretty_entries(m, i as int, d),
                    decreases n - i,
                {
                    if i > 0 {
                        out.push(',');
                    }
                    out.push('\n');
                    push_all(out, &ind2);
                    push_quoted(out, &es[i].0);
                    out.push(':');
                    out.push(' ');
                    proof {
                        assert(decreases_to!(*v => *es));
                        assert(decreases_to!(*es => (*es)[i as int]));
                        assert(decreases_to!((*es)[i as int] => (*es)[i as int].1));
                    }
                    push_json_pretty(&es[i].1, &ind2, Ghost(d + 1), out);
                    i = i + 1;
                    proof {
                        assert(out@ =~= old(out)@ + seq!['{'] + pretty_entries(m, i as int, d));
                    }
                }
                out.push('\n');
                push_all(out, ind);
                out.push('}');
                proof {
                    assert(out@ =~= old(out)@ + json_pretty(jmodel(*v), d));
                }
            }
        },
        _ => {
            push_json_min(v, out);
        },
    }
}

/// The compact JSON text of `v`.
pub fn to_json_min(v: &JsonVal) -> (r: String)
    ensures
        r@ == json_min(jmodel(*v)),
{
    let mut out: Vec<char> = Vec::new();
    push_json_min(v, &mut out);
    chars_to_string(&out)
}

/// The pretty JSON text of `v`.
pub fn to_json_pretty(v: &JsonVal) -> (r: String)
    ensures
        r@ == json_pretty(jmodel(*v), 0),
{
    let mut out: Vec<char> = Vec::new();
    let ind: Vec<char> = Vec::new();
    proof {
        assert(ind@ =~= spaces(0));
    }
    push_json_pretty(v, &ind, Ghost(0nat), &mut out);
    chars_to_string(&out)
}

// ---------------------------------------------------------------------------
// Executable object assignment and deep copy.
// ---------------------------------------------------------------------------

/// Deep copy with a known model.
#[verifier::loop_isolation(false)]
pub fn clone_val(v: &JsonVal) -> (r: JsonVal)
    ensures
        jmodel(r) == jmodel(*v),
    decreases *v, 0int,
{
    match v {
        JsonVal::Null => JsonVal::Null,
        JsonVal::Bool(b) => JsonVal::Bool(*b),
        JsonVal::Num(s) => JsonVal::Num(s.clone()),
        JsonVal::Str(s) => JsonVal::Str(s.clone()),
        JsonVal::Arr(es) => {
            let n = es.len();
            let mut out: Vec<JsonVal> = Vec::new();
            proof {
                lemma_lmodel(es@, n as int);
            }
            let mut i: usize = 0;
            while i < n
                invariant
                    i <= n,
                    n == es@.len(),
                    out@.len() == i,
                    forall|j: int| 0 <= j < n ==> lmodel(es@, n as int)[j] == jmodel(es@[j]),
                    lmodel(es@, n as int).len() == n,
                    forall|j: int| 0 <= j < i ==> jmodel(out@[j]) == jmodel(es@[j]),
                decreases n - i,
            {
                proof {
                    vstd::std_specs::vec::axiom_vec_index_decreases(*es, i as int);
                    assert(*es == (*v)->Arr_0);
                    assert(decreases_to!(*v => (*v)->Arr_0));
                    assert(decreases_to!(*es => (*es)[i as int]));
                }
                let c = clone_val(&es[i]);
                out.push(c);
                i = i + 1;
            }
            proof {
                lemma_lmodel(out@, n as int);
                assert(lmodel(out@, n as int) =~= lmodel(es@, n as int));
            }
            JsonVal::Arr(out)
        },
        JsonVal::Obj(es) => {
            let n = es.len();
            let mut out: Vec<(String, JsonVal)> = Vec::new();
            proof {
                lemma_emodel(es@, n as int);
            }
            let mut i: usize = 0;
            while i < n
                invariant
                    i <= n,
                    n == es@.len(),
                    out@.len() == i,
                    forall|j: int| 0 <= j < n ==> emodel(es@, n as int)[j] == (
                        es@[j].0@,
                        jmodel(es@[j].1),
                    ),
                    emodel(es@, n as int).len() == n,
                    forall|j: int| 0 <= j < i ==> out@[j].0@ == es@[j].0@ && jmodel(out@[j].1)
                        == jmodel(es@[j].1),
                decreases n - i,
            {
                let k = es[i].0.clone();
                proof {
                    vstd::std_specs::vec::axiom_vec_index_decreases(*es, i as int);
                    assert(*es == (*v)->Obj_0);
                    assert(decreases_to!(*v => (*v)->Obj_0));
                    assert(decreases_to!(*es => (*es)[i as int]));
                    assert(decreases_to!((*es)[i as int] => (*es)[i as int].1));
                }
                let c = clone_val(&es[i].1);
                out.push((k, c));
                i = i + 1;
            }
            proof {
                lemma_emodel(out@, n as int);
                assert(emodel(out@, n as int) =~= emodel(es@, n as int));
            }
            JsonVal::Obj(out)
        },
    }
}

/// Assigns `k := v` into the entry list, replacing the first entry with that
/// key in place, else appending.
#[verifier::loop_isolation(false)]
pub fn entries_set(es: Vec<(String, JsonVal)>, k: &String, v: JsonVal) -> (r: Vec<
    (String, JsonVal),
>)
    ensures
        emodel(r@, r@.len() as int) == obj_set(
            emodel(es@, es@.len() as int),
            k@,
            jmodel(v),
        ),
{
    let mut es = es;
    let ghost vg = jmodel(v);
    let ghost m = emodel(es@, es@.len() as int);
    proof {
        lemma_emodel(es@, es@.len() as int);
        lemma_obj_first_bounds(m, k@, 0);
    }
    let n = es.len();
    let mut i: usize = 0;
    while i < n
        invariant
            i <= n,
            n == es@.len(),
            m == emodel(es@, es@.len() as int),
            m.len() == n,
            forall|j: int| 0 <= j < n ==> m[j] == (es@[j].0@, jmodel(es@[j].1)),
            forall|j: int| 0 <= j < i ==> m[j].0 != k@,
            obj_first_from(m, k@, 0) == obj_first_from(m, k@, i as int),
        decreases n - i,
    {
        if es[i].0 == *k {
            let kk = k.clone();
            es.set(i, (kk, v));
            proof {
                lemma_emodel(es@, es@.len() as int);
                assert(obj_first_from(m, k@, i as int) == i);
                assert(emodel(es@, es@.len() as int) =~= obj_set(m, k@, vg));
            }
            return es;
        }
        i = i + 1;
    }
    let kk = k.clone();
    let ghost vg = jmodel(v);
    es.push((kk, v));
    proof {
        assert(obj_first_from(m, k@, n as int) == n);
        lemma_emodel(es@, es@.len() as int);
        assert(emodel(es@, es@.len() as int) =~= obj_set(m, k@, vg));
    }
    es
}

} // verus!
