use vstd::prelude::*;

use crate::ExtraArgs;
use crate::XdiffError;
use crate::json::{
    JsonData, JsonVal, apply_pairs, clone_val, jmodel, pair_views, to_json_min, json_min,
};
use crate::text::{chars_of, chars_to_string, exec_lower_char, lower, subvec, vec_eq_str};

verus! {

// ---------------------------------------------------------------------------
// Header maps: ordered (name, value) lists, names matched case-insensitively.
// ---------------------------------------------------------------------------

pub open spec fn hviews(hs: Seq<(String, String)>) -> Seq<(Seq<char>, Seq<char>)> {
    hs.map_values(|p: (String, String)| (p.0@, p.1@))
}

/// The first index at or after `j` whose name lowercases to `lk`, or the
/// length if none.
pub open spec fn hname_first(hs: Seq<(Seq<char>, Seq<char>)>, lk: Seq<char>, j: int) -> int
    decreases hs.len() - j,
{
    if 0 <= j < hs.len() {
        if lower(hs[j].0) == lk {
            j
        } else {
            hname_first(hs, lk, j + 1)
        }
    } else {
        hs.len() as int
    }
}

/// Replaces the value of the first header with this name in place, keeping
/// every other entry and the order; appends the lowercased name when absent.
pub open spec fn header_set(
    hs: Seq<(Seq<char>, Seq<char>)>,
    k: Seq<char>,
    v: Seq<char>,
) -> Seq<(Seq<char>, Seq<char>)> {
    let i = hname_first(hs, lower(k), 0);
    if i < hs.len() {
        hs.update(i, (hs[i].0, v))
    } else {
        hs.push((lower(k), v))
    }
}

pub open spec fn is_hname_char(c: char) -> bool {
    ('a' <= c && c <= 'z') || ('A' <= c && c <= 'Z') || ('0' <= c && c <= '9') || c == '!'
        || c == '#' || c == '$' || c == '%' || c == '&' || c == '\'' || c == '*' || c == '+'
        || c == '-' || c == '.' || c == '^' || c == '_' || c == '`' || c == '|' || c == '~'
}

pub open spec fn is_hval_char(c: char) -> bool {
    c == '\t' || ((c as u32) >= 32 && (c as u32) != 127)
}

pub open spec fn valid_hname(s: Seq<char>) -> bool {
    s.len() > 0 && forall|i: int| 0 <= i < s.len() ==> is_hname_char(#[trigger] s[i])
}

pub open spec fn valid_hval(s: Seq<char>) -> bool {
    forall|i: int| 0 <= i < s.len() ==> is_hval_char(#[trigger] s[i])
}

/// Applies the first `n` header overrides in order; `None` when an override
/// holds an invalid header name or value.
pub open spec fn apply_headers(
    hs: Seq<(Seq<char>, Seq<char>)>,
    ovs: Seq<(Seq<char>, Seq<char>)>,
    n: int,
) -> Option<Seq<(Seq<char>, Seq<char>)>>
    decreases n,
{
    if n <= 0 || n > ovs.len() {
        Some(hs)
    } else {
        match apply_headers(hs, ovs, n - 1) {
            Option::None => Option::None,
            Option::Some(h) => if valid_hname(ovs[n - 1].0) && valid_hval(ovs[n - 1].1) {
                Some(header_set(h, ovs[n - 1].0, ovs[n - 1].1))
            } else {
                Option::None
            },
        }
    }
}

pub proof fn lemma_hname_first_extend(
    hs: Seq<(Seq<char>, Seq<char>)>,
    e: (Seq<char>, Seq<char>),
    k: Seq<char>,
    j: int,
)
    requires
        0 <= j <= hs.len(),
    ensures
        hname_first(hs.push(e), k, j) == if hname_first(hs, k, j) < hs.len() {
            hname_first(hs, k, j)
        } else if lower(e.0) == k {
            hs.len() as int
        } else {
            hs.len() + 1int
        },
    decreases hs.len() - j,
{
    if j < hs.len() {
        assert(hs.push(e)[j] == hs[j]);
        if lower(hs[j].0) == k {
        } else {
            lemma_hname_first_extend(hs, e, k, j + 1);
        }
    } else {
        assert(hs.push(e)[j] == e);
        if lower(e.0) == k {
            assert(hname_first(hs.push(e), k, j) == j);
        } else {
            assert(hname_first(hs.push(e), k, j + 1) == hs.len() + 1int);
            assert(hname_first(hs.push(e), k, j) == hs.len() + 1int);
        }
        assert(hname_first(hs, k, j) == hs.len() as int);
    }
}

/// `None` propagates through longer form encodings.
pub proof fn lemma_form_of_none(es: Seq<(Seq<char>, JsonData)>, n: int, n2: int)
    requires
        0 < n <= n2 <= es.len(),
        form_of(es, n) is None,
    ensures
        form_of(es, n2) is None,
    decreases n2 - n,
{
    if n < n2 {
        lemma_form_of_none(es, n + 1, n2);
    }
}

/// `None` propagates through longer header-override applications.
pub proof fn lemma_apply_headers_none(
    hs: Seq<(Seq<char>, Seq<char>)>,
    ovs: Seq<(Seq<char>, Seq<char>)>,
    n: int,
    n2: int,
)
    requires
        0 < n <= n2 <= ovs.len(),
        apply_headers(hs, ovs, n) is None,
    ensures
        apply_headers(hs, ovs, n2) is None,
    decreases n2 - n,
{
    if n < n2 {
        lemma_apply_headers_none(hs, ovs, n + 1, n2);
    }
}

/// Header overrides replace values in place and append new names at the
/// end: they never reorder untouched headers. After applying `n` overrides,
/// every original position keeps its name, and a header whose lowercased
/// name no override uses keeps its value.
pub proof fn lemma_apply_headers_preserves(
    hs: Seq<(Seq<char>, Seq<char>)>,
    ovs: Seq<(Seq<char>, Seq<char>)>,
    n: int,
)
    requires
        0 <= n <= ovs.len(),
        apply_headers(hs, ovs, n) is Some,
    ensures
        apply_headers(hs, ovs, n)->0.len() >= hs.len(),
        forall|i: int| 0 <= i < hs.len() ==> (#[trigger] apply_headers(hs, ovs, n)->0[i]).0
            == hs[i].0,
        forall|i: int| 0 <= i < hs.len() && (forall|m: int| 0 <= m < n ==> lower(
            (#[trigger] ovs[m]).0,
        ) != lower(hs[i].0)) ==> (#[trigger] apply_headers(hs, ovs, n)->0[i]).1 == hs[i].1,
    decreases n,
{
    if n > 0 {
        lemma_apply_headers_preserves(hs, ovs, n - 1);
        let h = apply_headers(hs, ovs, n - 1)->0;
        let k = ovs[n - 1].0;
        let i0 = lemma_hname_first_total(h, lower(k), 0);
        if i0 < h.len() {
            assert(apply_headers(hs, ovs, n)->0 =~= h.update(i0, (h[i0].0, ovs[n - 1].1)));
        } else {
            assert(apply_headers(hs, ovs, n)->0 =~= h.push((lower(k), ovs[n - 1].1)));
        }
    }
}

/// `hname_first` finds a match or runs off the end, and nothing before it
/// matches.
pub proof fn lemma_hname_first_total(hs: Seq<(Seq<char>, Seq<char>)>, lk: Seq<char>, j: int) -> (i:
    int)
    requires
        0 <= j <= hs.len(),
    ensures
        i == hname_first(hs, lk, j),
        j <= i <= hs.len(),
        i < hs.len() ==> lower(hs[i].0) == lk,
        forall|m: int| j <= m < i ==> lower((#[trigger] hs[m]).0) != lk,
    decreases hs.len() - j,
{
    if j < hs.len() && lower(hs[j].0) != lk {
        lemma_hname_first_total(hs, lk, j + 1);
    }
    hname_first(hs, lk, j)
}

/// The content-type default is applied exactly when no header names
/// content-type, case-insensitively; an existing header is left alone.
pub proof fn lemma_content_type_default(hs: Seq<(Seq<char>, Seq<char>)>)
    ensures
        has_content_type(with_content_type(hs)),
        has_content_type(hs) ==> with_content_type(hs) == hs,
        !has_content_type(hs) ==> with_content_type(hs) == hs.push((ct_name(), json_ct())),
{
    if !has_content_type(hs) {
        lemma_hname_first_extend_ct(hs);
    }
}

proof fn lemma_hname_first_extend_ct(hs: Seq<(Seq<char>, Seq<char>)>)
    requires
        !has_content_type(hs),
    ensures
        has_content_type(hs.push((ct_name(), json_ct()))),
{
    lemma_hname_first_extend(hs, (ct_name(), json_ct()), ct_name(), 0);
    assert(lower(ct_name()) =~= ct_name());
}

pub open spec fn ct_name() -> Seq<char> {
    seq!['c', 'o', 'n', 't', 'e', 'n', 't', '-', 't', 'y', 'p', 'e']
}

pub open spec fn has_content_type(hs: Seq<(Seq<char>, Seq<char>)>) -> bool {
    hname_first(hs, ct_name(), 0) < hs.len()
}

pub open spec fn json_ct() -> Seq<char> {
    seq!['a', 'p', 'p', 'l', 'i', 'c', 'a', 't', 'i', 'o', 'n', '/', 'j', 's', 'o', 'n']
}

/// Appends a default `content-type: application/json` header when no header
/// names content-type, case-insensitively; otherwise leaves the map alone.
pub open spec fn with_content_type(hs: Seq<(Seq<char>, Seq<char>)>) -> Seq<(Seq<char>, Seq<char>)> {
    if has_content_type(hs) {
        hs
    } else {
        hs.push((ct_name(), json_ct()))
    }
}

/// The first index at or after `j` holding `';'`, or the length if none.
pub open spec fn semi_pos(s: Seq<char>, j: int) -> int
    decreases s.len() - j,
{
    if 0 <= j < s.len() {
        if s[j] == ';' {
            j
        } else {
            semi_pos(s, j + 1)
        }
    } else {
        s.len() as int
    }
}

/// The negotiated content type: the content-type value up to any `';'`.
pub open spec fn negotiated(hs: Seq<(Seq<char>, Seq<char>)>) -> Seq<char> {
    let v = hs[hname_first(hs, ct_name(), 0)].1;
    v.subrange(0, semi_pos(v, 0))
}

/// The serialization strategy a negotiated content type selects.
#[derive(Clone, Copy, Debug, PartialEq, Eq, Structural)]
pub enum BodyFormat {
    Json,
    Form,
    Unsupported,
}

pub open spec fn strategy_of(ct: Seq<char>) -> BodyFormat {
    if ct == "application/json"@ {
        BodyFormat::Json
    } else if ct == "application/x-www-form-urlencoded"@ || ct == "multipart/form-data"@ {
        BodyFormat::Form
    } else {
        BodyFormat::Unsupported
    }
}

// ---------------------------------------------------------------------------
// Form encoding of a flat JSON object.
// ---------------------------------------------------------------------------

/// The UTF-8 bytes of one character.
pub open spec fn utf8_of(c: char) -> Seq<u8> {
    let u = c as int;
    if u < 0x80 {
        seq![u as u8]
    } else if u < 0x800 {
        seq![(0xC0 + u / 64) as u8, (0x80 + u % 64) as u8]
    } else if u < 0x10000 {
        seq![(0xE0 + u / 4096) as u8, (0x80 + (u / 64) % 64) as u8, (0x80 + u % 64) as u8]
    } else {
        seq![
            (0xF0 + u / 262144) as u8,
            (0x80 + (u / 4096) % 64) as u8,
            (0x80 + (u / 64) % 64) as u8,
            (0x80 + u % 64) as u8,
        ]
    }
}

pub open spec fn is_form_safe(b: u8) -> bool {
    (97 <= b && b <= 122) || (65 <= b && b <= 90) || (48 <= b && b <= 57) || b == 42
        || b == 45 || b == 46 || b == 95
}

pub open spec fn hex_up(n: nat) -> char {
    if n == 0 { '0' } else if n == 1 { '1' } else if n == 2 { '2' } else if n == 3 { '3' }
    else if n == 4 { '4' } else if n == 5 { '5' } else if n == 6 { '6' } else if n == 7 { '7' }
    else if n == 8 { '8' } else if n == 9 { '9' } else if n == 10 { 'A' } else if n == 11 { 'B' }
    else if n == 12 { 'C' } else if n == 13 { 'D' } else if n == 14 { 'E' } else { 'F' }
}

/// How one byte appears in `application/x-www-form-urlencoded` text: safe
/// bytes stand for themselves, space becomes `'+'`, the rest `%XX`.
pub open spec fn form_esc_byte(b: u8) -> Seq<char> {
    if is_form_safe(b) {
        seq![b as char]
    } else if b == 32 {
        seq!['+']
    } else {
        seq!['%', hex_up((b / 16) as nat), hex_up((b % 16) as nat)]
    }
}

pub open spec fn fe_bytes(bs: Seq<u8>, n: int) -> Seq<char>
    decreases n,
{
    if n <= 0 || n > bs.len() {
        Seq::empty()
    } else {
        fe_bytes(bs, n - 1) + form_esc_byte(bs[n - 1])
    }
}

pub open spec fn form_esc_char(c: char) -> Seq<char> {
    fe_bytes(utf8_of(c), utf8_of(c).len() as int)
}

pub open spec fn form_esc_prefix(s: Seq<char>, n: int) -> Seq<char>
    decreases n,
{
    if n <= 0 || n > s.len() {
        Seq::empty()
    } else {
        form_esc_prefix(s, n - 1) + form_esc_char(s[n - 1])
    }
}

/// The form-encoded rendering of text `s`.
pub open spec fn form_esc(s: Seq<char>) -> Seq<char> {
    form_esc_prefix(s, s.len() as int)
}

/// The form-encoded text of one scalar value; `None` for values the format
/// cannot carry (null, arrays, objects).
pub open spec fn scalar_form_text(d: JsonData) -> Option<Seq<char>> {
    match d {
        JsonData::Str(s) => Some(form_esc(s)),
        JsonData::Num(s) => Some(form_esc(s)),
        JsonData::Bool(b) => if b {
            Some(seq!['t', 'r', 'u', 'e'])
        } else {
            Some(seq!['f', 'a', 'l', 's', 'e'])
        },
        _ => Option::None,
    }
}

/// The form encoding of the first `n` object entries, `&`-joined.
pub open spec fn form_of(es: Seq<(Seq<char>, JsonData)>, n: int) -> Option<Seq<char>>
    decreases n,
{
    if n <= 0 || n > es.len() {
        Some(Seq::empty())
    } else {
        match (form_of(es, n - 1), scalar_form_text(es[n - 1].1)) {
            (Option::Some(prev), Option::Some(t)) => {
                let entry = form_esc(es[n - 1].0) + seq!['='] + t;
                if n == 1 {
                    Some(entry)
                } else {
                    Some(prev + seq!['&'] + entry)
                }
            },
            _ => Option::None,
        }
    }
}

// ---------------------------------------------------------------------------
// The request descriptor and its resolution.
// ---------------------------------------------------------------------------

/// A declarative description of one HTTP call.
pub struct RequestProfile {
    pub method: String,
    pub url: String,
    pub params: Option<JsonVal>,
    pub headers: Vec<(String, String)>,
    pub body: Option<JsonVal>,
}

/// The message a failing structural check carries: it names the offending
/// field, `params` being checked first.
pub open spec fn valiadte_msg(p: RequestProfile) -> Seq<char> {
    if !(match p.params {
        Option::Some(v) => jmodel(v) is Obj,
        Option::None => true,
    }) {
        "params must be an object"@
    } else {
        "body must be an object"@
    }
}

/// The structural invariant checked at load time: `params` and `body`, when
/// present, are JSON objects.
pub open spec fn profile_ok(p: RequestProfile) -> bool {
    (match p.params {
        Option::Some(v) => jmodel(v) is Obj,
        Option::None => true,
    }) && (match p.body {
        Option::Some(v) => jmodel(v) is Obj,
        Option::None => true,
    })
}

/// The model of an optional object: the value itself, or the empty object.
pub open spec fn or_empty(v: Option<JsonVal>) -> JsonData {
    match v {
        Option::Some(x) => jmodel(x),
        Option::None => JsonData::Obj(Seq::empty()),
    }
}

/// What resolving a descriptor against an override set yields.
pub enum GenOut {
    BadHeader,
    BadContentType,
    BadForm,
    Done(Seq<(Seq<char>, Seq<char>)>, JsonData, Seq<char>),
}

/// The resolution pipeline: header overrides, content-type default, query
/// and body overrides, then body serialization by the negotiated strategy.
pub open spec fn generate_model(p: RequestProfile, args: ExtraArgs) -> GenOut {
    match apply_headers(hviews(p.headers@), pair_views(args.headers@), args.headers@.len() as int) {
        Option::None => GenOut::BadHeader,
        Option::Some(h1) => {
            let h2 = with_content_type(h1);
            let q = apply_pairs(or_empty(p.params), pair_views(args.query@), args.query@.len() as int);
            let b = apply_pairs(or_empty(p.body), pair_views(args.body@), args.body@.len() as int);
            match strategy_of(negotiated(h2)) {
                BodyFormat::Json => GenOut::Done(h2, q, json_min(b)),
                BodyFormat::Form => {
                    match b {
                        JsonData::Obj(es) => match form_of(es, es.len() as int) {
                            Option::Some(t) => GenOut::Done(h2, q, t),
                            Option::None => GenOut::BadForm,
                        },
                        _ => GenOut::BadForm,
                    }
                },
                BodyFormat::Unsupported => GenOut::BadContentType,
            }
        },
    }
}

fn exec_is_hname_char(c: char) -> (r: bool)
    ensures
        r == is_hname_char(c),
{
    ('a' <= c && c <= 'z') || ('A' <= c && c <= 'Z') || ('0' <= c && c <= '9') || c == '!'
        || c == '#' || c == '$' || c == '%' || c == '&' || c == '\'' || c == '*' || c == '+'
        || c == '-' || c == '.' || c == '^' || c == '_' || c == '`' || c == '|' || c == '~'
}

fn exec_is_hval_char(c: char) -> (r: bool)
    ensures
        r == is_hval_char(c),
{
    c == '\t' || ((c as u32) >= 32 && (c as u32) != 127)
}

#[verifier::loop_isolation(false)]
fn check_hname(s: &String) -> (r: bool)
    ensures
        r == valid_hname(s@),
{
    let cs = chars_of(s.as_str());
    let n = cs.len();
    if n == 0 {
        return false;
    }
    let mut i: usize = 0;
    while i < n
        invariant
            i <= n,
            forall|j: int| 0 <= j < i ==> is_hname_char(#[trigger] s@[j]),
        decreases n - i,
    {
        if !exec_is_hname_char(cs[i]) {
            return false;
        }
        i = i + 1;
    }
    true
}

#[verifier::loop_isolation(false)]
fn check_hval(s: &String) -> (r: bool)
    ensures
        r == valid_hval(s@),
{
    let cs = chars_of(s.as_str());
    let n = cs.len();
    let mut i: usize = 0;
    while i < n
        invariant
            i <= n,
            forall|j: int| 0 <= j < i ==> is_hval_char(#[trigger] s@[j]),
        decreases n - i,
    {
        if !exec_is_hval_char(cs[i]) {
            return false;
        }
        i = i + 1;
    }
    true
}

/// The lowercased characters of `s`.
#[verifier::loop_isolation(false)]
fn lower_chars(s: &String) -> (r: Vec<char>)
    ensures
        r@ == lower(s@),
{
    let cs = chars_of(s.as_str());
    let n = cs.len();
    let mut out: Vec<char> = Vec::new();
    let mut i: usize = 0;
    while i < n
        invariant
            i <= n,
            out@.len() == i,
            forall|j: int| 0 <= j < i ==> out@[j] == crate::text::lower_char(s@[j]),
        decreases n - i,
    {
        out.push(exec_lower_char(cs[i]));
        i = i + 1;
    }
    proof {
        assert(out@ =~= lower(s@));
    }
    out
}

fn chars_eq(a: &Vec<char>, b: &Vec<char>) -> (r: bool)
    ensures
        r == (a@ == b@),
{
    let na = a.len();
    if na != b.len() {
        proof {
            assert(a@ != b@) by {
                if a@ == b@ {
                    assert(a@.len() == b@.len());
                }
            }
        }
        return false;
    }
    let mut i: usize = 0;
    while i < na
        invariant
            na == a@.len() == b@.len(),
            i <= na,
            forall|j: int| 0 <= j < i ==> a@[j] == b@[j],
        decreases na - i,
    {
        if a[i] != b[i] {
            return false;
        }
        i = i + 1;
    }
    proof {
        assert(a@ =~= b@);
    }
    true
}

/// Header-map assignment: replace the first case-insensitive match in place,
/// else append the lowercased name.
#[verifier::loop_isolation(false)]
fn exec_header_set(hs: Vec<(String, String)>, k: &String, v: &String) -> (r: Vec<(String, String)>)
    ensures
        hviews(r@) == header_set(hviews(hs@), k@, v@),
{
    let mut hs = hs;
    let ghost m = hviews(hs@);
    let lk = lower_chars(k);
    let n = hs.len();
    let mut i: usize = 0;
    while i < n
        invariant
            i <= n,
            n == hs@.len(),
            m == hviews(hs@),
            m.len() == n,
            lk@ == lower(k@),
            forall|j: int| 0 <= j < i ==> lower(m[j].0) != lower(k@),
            hname_first(m, lower(k@), 0) == hname_first(m, lower(k@), i as int),
        decreases n - i,
    {
        let ln = lower_chars(&hs[i].0);
        if chars_eq(&ln, &lk) {
            let name = hs[i].0.clone();
            hs.set(i, (name, v.clone()));
            proof {
                assert(hname_first(m, lower(k@), i as int) == i);
                assert(hviews(hs@) =~= header_set(m, k@, v@));
            }
            return hs;
        }
        i = i + 1;
    }
    let lks = chars_to_string(&lk);
    hs.push((lks, v.clone()));
    proof {
        assert(hname_first(m, lower(k@), n as int) == n);
        assert(hviews(hs@) =~= header_set(m, k@, v@));
    }
    hs
}

/// A copy of a header list with the same model.
#[verifier::loop_isolation(false)]
fn clone_pairs(hs: &Vec<(String, String)>) -> (r: Vec<(String, String)>)
    ensures
        hviews(r@) == hviews(hs@),
        r@.len() == hs@.len(),
{
    let n = hs.len();
    let mut out: Vec<(String, String)> = Vec::new();
    let mut i: usize = 0;
    while i < n
        invariant
            i <= n,
            out@.len() == i,
            forall|j: int| 0 <= j < i ==> out@[j].0@ == hs@[j].0@ && out@[j].1@ == hs@[j].1@,
        decreases n - i,
    {
        let k = hs[i].0.clone();
        let v = hs[i].1.clone();
        out.push((k, v));
        i = i + 1;
    }
    proof {
        assert(hviews(out@) =~= hviews(hs@));
    }
    out
}

/// Appends the default content-type header when none is present.
#[verifier::loop_isolation(false)]
fn exec_with_content_type(hs: Vec<(String, String)>) -> (r: Vec<(String, String)>)
    ensures
        hviews(r@) == with_content_type(hviews(hs@)),
        has_content_type(hviews(r@)),
{
    let mut hs = hs;
    let ghost m = hviews(hs@);
    let ctv = chars_of("content-type");
    proof {
        reveal_strlit("content-type");
        assert(ctv@ =~= ct_name());
    }
    let n = hs.len();
    let mut i: usize = 0;
    while i < n
        invariant
            i <= n,
            n == hs@.len(),
            m == hviews(hs@),
            m.len() == n,
            ctv@ == ct_name(),
            hname_first(m, ct_name(), 0) == hname_first(m, ct_name(), i as int),
        decreases n - i,
    {
        let ln = lower_chars(&hs[i].0);
        if chars_eq(&ln, &ctv) {
            proof {
                assert(hname_first(m, ct_name(), i as int) == i);
                assert(has_content_type(m));
            }
            return hs;
        }
        i = i + 1;
    }
    proof {
        assert(hname_first(m, ct_name(), n as int) == n);
        assert(!has_content_type(m));
    }
    let name = String::from_str("content-type");
    let value = String::from_str("application/json");
    proof {
        reveal_strlit("application/json");
        assert(name@ =~= ct_name());
        assert(value@ =~= json_ct());
    }
    hs.push((name, value));
    proof {
        assert(hviews(hs@) =~= with_content_type(m));
        lemma_hname_first_extend(m, (ct_name(), json_ct()), ct_name(), 0);
        assert(lower(ct_name()) =~= ct_name());
        assert(has_content_type(hviews(hs@)));
    }
    hs
}

/// Whether some header names content-type, case-insensitively.
#[verifier::loop_isolation(false)]
pub(crate) fn exec_has_content_type(hs: &Vec<(String, String)>) -> (r: bool)
    ensures
        r == has_content_type(hviews(hs@)),
{
    let ghost m = hviews(hs@);
    let ctv = chars_of("content-type");
    proof {
        reveal_strlit("content-type");
        assert(ctv@ =~= ct_name());
    }
    let n = hs.len();
    let mut i: usize = 0;
    while i < n
        invariant
            i <= n,
            n == hs@.len(),
            m == hviews(hs@),
            m.len() == n,
            ctv@ == ct_name(),
            hname_first(m, ct_name(), 0) == hname_first(m, ct_name(), i as int),
        decreases n - i,
    {
        let ln = lower_chars(&hs[i].0);
        if chars_eq(&ln, &ctv) {
            proof {
                assert(hname_first(m, ct_name(), i as int) == i);
            }
            return true;
        }
        i = i + 1;
    }
    proof {
        assert(hname_first(m, ct_name(), n as int) == n);
    }
    false
}

/// The negotiated content type of a header map known to hold one.
#[verifier::loop_isolation(false)]
pub(crate) fn exec_negotiated(hs: &Vec<(String, String)>) -> (r: Vec<char>)
    requires
        has_content_type(hviews(hs@)),
    ensures
        r@ == negotiated(hviews(hs@)),
{
    let ghost m = hviews(hs@);
    let ctv = chars_of("content-type");
    proof {
        reveal_strlit("content-type");
        assert(ctv@ =~= ct_name());
    }
    let n = hs.len();
    let mut i: usize = 0;
    loop
        invariant
            i <= n,
            n == hs@.len(),
            m == hviews(hs@),
            m.len() == n,
            ctv@ == ct_name(),
            has_content_type(m),
            hname_first(m, ct_name(), 0) == hname_first(m, ct_name(), i as int),
        decreases n - i,
    {
        if i >= n {
            proof {
                assert(hname_first(m, ct_name(), n as int) == n);
                assert(false);
            }
            return Vec::new();
        }
        let ln = lower_chars(&hs[i].0);
        if chars_eq(&ln, &ctv) {
            proof {
                assert(hname_first(m, ct_name(), i as int) == i);
            }
            let v = chars_of(hs[i].1.as_str());
            let vn = v.len();
            let mut p: usize = 0;
            while p < vn && v[p] != ';'
                invariant
                    p <= vn,
                    vn == v@.len(),
                    semi_pos(v@, 0) == semi_pos(v@, p as int),
                decreases vn - p,
            {
                p = p + 1;
            }
            let cut = subvec(&v, 0, p);
            proof {
                assert(semi_pos(v@, p as int) == p);
                assert(cut@ =~= negotiated(m));
            }
            return cut;
        }
        i = i + 1;
    }
}

/// Applies the first `n` scalar overrides to an object-shaped value.
#[verifier::loop_isolation(false)]
fn exec_apply_pairs(base: JsonVal, ps: &Vec<(String, String)>) -> (r: JsonVal)
    requires
        jmodel(base) is Obj,
    ensures
        jmodel(r) == apply_pairs(jmodel(base), pair_views(ps@), ps@.len() as int),
{
    let ghost b0 = jmodel(base);
    match base {
        JsonVal::Obj(entries) => {
            let mut entries = entries;
            proof {
                crate::json::lemma_emodel(entries@, entries@.len() as int);
            }
            let n = ps.len();
            let mut i: usize = 0;
            while i < n
                invariant
                    i <= n,
                    n == ps@.len(),
                    JsonData::Obj(emodel_full(entries@)) == apply_pairs(
                        b0,
                        pair_views(ps@),
                        i as int,
                    ),
                decreases n - i,
            {
                let vcs = chars_of(ps[i].1.as_str());
                let sv = crate::json::parse_scalar(&vcs);
                entries = crate::json::entries_set(entries, &ps[i].0, sv);
                i = i + 1;
            }
            JsonVal::Obj(entries)
        },
        other => {
            proof {
                assert(false);
            }
            other
        },
    }
}

/// The full entry model of an object's entry list.
pub open spec fn emodel_full(es: Seq<(String, JsonVal)>) -> Seq<(Seq<char>, JsonData)> {
    crate::json::emodel(es, es.len() as int)
}

fn push_form_byte(out: &mut Vec<char>, b: u8)
    ensures
        final(out)@ == old(out)@ + form_esc_byte(b),
{
    if (97 <= b && b <= 122) || (65 <= b && b <= 90) || (48 <= b && b <= 57) || b == 42
        || b == 45 || b == 46 || b == 95 {
        out.push(b as char);
    } else if b == 32 {
        out.push('+');
    } else {
        out.push('%');
        let hi = b / 16;
        let lo = b % 16;
        let hic: char = match hi {
            0 => '0', 1 => '1', 2 => '2', 3 => '3', 4 => '4', 5 => '5', 6 => '6', 7 => '7',
            8 => '8', 9 => '9', 10 => 'A', 11 => 'B', 12 => 'C', 13 => 'D', 14 => 'E', _ => 'F',
        };
        let loc: char = match lo {
            0 => '0', 1 => '1', 2 => '2', 3 => '3', 4 => '4', 5 => '5', 6 => '6', 7 => '7',
            8 => '8', 9 => '9', 10 => 'A', 11 => 'B', 12 => 'C', 13 => 'D', 14 => 'E', _ => 'F',
        };
        out.push(hic);
        out.push(loc);
    }
}

/// The UTF-8 bytes of one character.
fn utf8_bytes(c: char) -> (r: Vec<u8>)
    ensures
        r@ == utf8_of(c),
{
    let u = c as u32;
    let mut r: Vec<u8> = Vec::new();
    if u < 0x80 {
        r.push(u as u8);
    } else if u < 0x800 {
        r.push((0xC0 + u / 64) as u8);
        r.push((0x80 + u % 64) as u8);
    } else if u < 0x10000 {
        r.push((0xE0 + u / 4096) as u8);
        r.push((0x80 + (u / 64) % 64) as u8);
        r.push((0x80 + u % 64) as u8);
    } else {
        r.push((0xF0 + u / 262144) as u8);
        r.push((0x80 + (u / 4096) % 64) as u8);
        r.push((0x80 + (u / 64) % 64) as u8);
        r.push((0x80 + u % 64) as u8);
    }
    proof {
        assert(r@ =~= utf8_of(c));
    }
    r
}

/// Appends the form-encoded rendering of `s` to `out`.
#[verifier::loop_isolation(false)]
fn push_form_esc(out: &mut Vec<char>, s: &Vec<char>)
    ensures
        final(out)@ == old(out)@ + form_esc(s@),
{
    let n = s.len();
    let mut i: usize = 0;
    while i < n
        invariant
            i <= n,
            n == s@.len(),
            out@ =~= old(out)@ + form_esc_prefix(s@, i as int),
        decreases n - i,
    {
        let bs = utf8_bytes(s[i]);
        let bn = bs.len();
        let mut k: usize = 0;
        while k < bn
            invariant
                k <= bn,
                bn == bs@.len(),
                bs@ == utf8_of(s@[i as int]),
                i < n,
                out@ =~= old(out)@ + form_esc_prefix(s@, i as int) + fe_bytes(bs@, k as int),
            decreases bn - k,
        {
            push_form_byte(out, bs[k]);
            k = k + 1;
            proof {
                assert(out@ =~= old(out)@ + form_esc_prefix(s@, i as int) + fe_bytes(
                    bs@,
                    k as int,
                ));
            }
        }
        i = i + 1;
        proof {
            assert(out@ =~= old(out)@ + form_esc_prefix(s@, i as int));
        }
    }
}

/// The form-encoded text of an object's entries, or `None` when a value is
/// not a scalar the format can carry.
#[verifier::loop_isolation(false)]
#[verifier::rlimit(60)]
fn exec_form_of(es: &Vec<(String, JsonVal)>) -> (r: Option<Vec<char>>)
    ensures
        match form_of(emodel_full(es@), es@.len() as int) {
            Option::Some(t) => r is Some && r->0@ == t,
            Option::None => r is None,
        },
{
    let ghost m = emodel_full(es@);
    proof {
        crate::json::lemma_emodel(es@, es@.len() as int);
    }
    let mut out: Vec<char> = Vec::new();
    let n = es.len();
    let mut i: usize = 0;
    while i < n
        invariant
            i <= n,
            n == es@.len(),
            m == emodel_full(es@),
            m.len() == n,
            forall|j: int| 0 <= j < n ==> m[j] == (es@[j].0@, jmodel(es@[j].1)),
            form_of(m, i as int) is Some,
            out@ == form_of(m, i as int)->0,
        decreases n - i,
    {
        if i > 0 {
            out.push('&');
        }
        let kcs = chars_of(es[i].0.as_str());
        push_form_esc(&mut out, &kcs);
        out.push('=');
        match &es[i].1 {
            JsonVal::Str(s) => {
                let vcs = chars_of(s.as_str());
                push_form_esc(&mut out, &vcs);
            },
            JsonVal::Num(s) => {
                let vcs = chars_of(s.as_str());
                push_form_esc(&mut out, &vcs);
            },
            JsonVal::Bool(b) => {
                if *b {
                    out.push('t');
                    out.push('r');
                    out.push('u');
                    out.push('e');
                } else {
                    out.push('f');
                    out.push('a');
                    out.push('l');
                    out.push('s');
                    out.push('e');
                }
            },
            _ => {
                proof {
                    assert(form_of(m, i + 1) is None);
                    lemma_form_of_none(m, i + 1, n as int);
                }
                return Option::None;
            },
        }
        i = i + 1;
        proof {
            assert(out@ =~= form_of(m, i as int)->0);
        }
    }
    Some(out)
}

impl RequestProfile {
    pub fn new(
        method: String,
        url: String,
        params: Option<JsonVal>,
        headers: Vec<(String, String)>,
        body: Option<JsonVal>,
    ) -> (r: RequestProfile)
        ensures
            r.method == method && r.url == url && r.params == params && r.headers == headers
                && r.body == body,
    {
        RequestProfile { method, url, params, headers, body }
    }

    /// The load-time structural check: `params` and `body`, when present,
    /// must be JSON objects.
    pub fn valiadte(&self) -> (r: Result<(), XdiffError>)
        ensures
            r is Ok <==> profile_ok(*self),
            r is Err ==> r->Err_0 is Validation && r->Err_0->Validation_0@ == valiadte_msg(
                *self,
            ),
    {
        match &self.params {
            Option::Some(v) => {
                if !matches!(v, JsonVal::Obj(_)) {
                    return Err(XdiffError::Validation(String::from_str("params must be an object")));
                }
            },
            Option::None => {},
        }
        match &self.body {
            Option::Some(v) => {
                if !matches!(v, JsonVal::Obj(_)) {
                    return Err(XdiffError::Validation(String::from_str("body must be an object")));
                }
            },
            Option::None => {},
        }
        Ok(())
    }

    /// Resolves this descriptor against an override set: the final header
    /// map, the final query object, and the serialized body text.
    #[verifier::loop_isolation(false)]
    pub fn generate(&self, args: &ExtraArgs) -> (r: Result<
        (Vec<(String, String)>, JsonVal, String),
        XdiffError,
    >)
        requires
            profile_ok(*self),
        ensures
            match generate_model(*self, *args) {
                GenOut::BadHeader => r is Err && r->Err_0 is OverrideParse,
                GenOut::BadContentType => r is Err && r->Err_0 is UnsupportedContentType,
                GenOut::BadForm => r is Err && r->Err_0 is FormEncode,
                GenOut::Done(h, q, b) => r is Ok && hviews(r->Ok_0.0@) == h && jmodel(r->Ok_0.1)
                    == q && r->Ok_0.2@ == b,
            },
    {
        let ghost hs0 = hviews(self.headers@);
        let ghost ovh = pair_views(args.headers@);
        let mut headers = clone_pairs(&self.headers);
        let hn = args.headers.len();
        let mut i: usize = 0;
        while i < hn
            invariant
                i <= hn,
                hn == args.headers@.len(),
                apply_headers(hs0, ovh, i as int) is Some,
                hviews(headers@) == apply_headers(hs0, ovh, i as int)->0,
            decreases hn - i,
        {
            let kr = &args.headers[i].0;
            let vr = &args.headers[i].1;
            if !check_hname(kr) || !check_hval(vr) {
                proof {
                    assert(apply_headers(hs0, ovh, i + 1) is None);
                    lemma_apply_headers_none(hs0, ovh, i + 1, hn as int);
                }
                return Err(XdiffError::OverrideParse(String::from_str("invalid header override")));
            }
            headers = exec_header_set(headers, kr, vr);
            i = i + 1;
        }
        let headers = exec_with_content_type(headers);

        let qbase = match &self.params {
            Option::Some(v) => crate::json::clone_val(v),
            Option::None => JsonVal::Obj(Vec::new()),
        };
        proof {
            assert(jmodel(qbase) == or_empty(self.params)) by {
                if self.params is None {
                    assert(crate::json::emodel(Seq::<(String, JsonVal)>::empty(), 0)
                        =~= Seq::<(Seq<char>, JsonData)>::empty());
                }
            }
        }
        let query = exec_apply_pairs(qbase, &args.query);

        let bbase = match &self.body {
            Option::Some(v) => crate::json::clone_val(v),
            Option::None => JsonVal::Obj(Vec::new()),
        };
        proof {
            assert(jmodel(bbase) == or_empty(self.body)) by {
                if self.body is None {
                    assert(crate::json::emodel(Seq::<(String, JsonVal)>::empty(), 0)
                        =~= Seq::<(Seq<char>, JsonData)>::empty());
                }
            }
        }
        let body = exec_apply_pairs(bbase, &args.body);

        let ct = exec_negotiated(&headers);
        if vec_eq_str(&ct, "application/json") {
            let text = to_json_min(&body);
            return Ok((headers, query, text));
        }
        if vec_eq_str(&ct, "application/x-www-form-urlencoded") || vec_eq_str(
            &ct,
            "multipart/form-data",
        ) {
            match &body {
                JsonVal::Obj(es) => {
                    proof {
                        crate::json::lemma_emodel(es@, es@.len() as int);
                    }
                    match exec_form_of(es) {
                        Option::Some(t) => {
                            let text = chars_to_string(&t);
                            return Ok((headers, query, text));
                        },
                        Option::None => {
                            return Err(XdiffError::FormEncode(String::from_str(
                                "body value cannot be form-encoded",
                            )));
                        },
                    }
                },
                _ => {
                    proof {
                        crate::json::lemma_apply_pairs_obj(
                            or_empty(self.body),
                            pair_views(args.body@),
                            args.body@.len() as int,
                        );
                        assert(false);
                    }
                    return Err(XdiffError::FormEncode(String::from_str(
                        "body must be an object for form encoding",
                    )));
                },
            }
        }
        Err(XdiffError::UnsupportedContentType(String::from_str("unsupported content-type")))
    }
}

} // verus!
