use vstd::prelude::*;

use crate::XdiffError;
use crate::json::{
    JsonData, JsonVal, emodel, jmodel, json_pretty, lemma_emodel, push_json_pretty, quoted,
};
use crate::req::{has_content_type, hviews, negotiated, strategy_of, BodyFormat};
use crate::text::{chars_of, chars_to_string, push_all, push_str_chars, spaces};

verus! {

/// The response-normalization rules: header lines whose value appears in
/// `skip_headers` are dropped, and `skip_body` keys are removed from a JSON
/// object body.
pub struct ResponseProfile {
    pub skip_headers: Vec<String>,
    pub skip_body: Vec<String>,
}

impl ResponseProfile {
    pub fn new(skip_headers: Vec<String>, skip_body: Vec<String>) -> (r: ResponseProfile)
        ensures
            r.skip_headers == skip_headers,
            r.skip_body == skip_body,
    {
        ResponseProfile { skip_headers, skip_body }
    }
}

impl Default for ResponseProfile {
    fn default() -> (r: ResponseProfile)
        ensures
            r.skip_headers@.len() == 0,
            r.skip_body@.len() == 0,
    {
        ResponseProfile { skip_headers: Vec::new(), skip_body: Vec::new() }
    }
}

/// Whether `s` equals one of the texts in `xs`.
pub open spec fn in_list(xs: Seq<String>, s: Seq<char>) -> bool {
    exists|j: int| 0 <= j < xs.len() && xs[j]@ == s
}

/// The header block of the first `n` response headers: one `name: "value"`
/// line per header, in order, except those whose value is skipped.
pub open spec fn headers_block(
    hs: Seq<(Seq<char>, Seq<char>)>,
    skips: Seq<String>,
    n: int,
) -> Seq<char>
    decreases n,
{
    if n <= 0 || n > hs.len() {
        Seq::empty()
    } else {
        headers_block(hs, skips, n - 1) + if in_list(skips, hs[n - 1].1) {
            Seq::empty()
        } else {
            hs[n - 1].0 + seq![':', ' '] + quoted(hs[n - 1].1) + seq!['\n']
        }
    }
}

/// The headers whose value no skip entry matches, in their original order.
pub open spec fn kept_headers(hs: Seq<(Seq<char>, Seq<char>)>, skips: Seq<String>) -> Seq<
    (Seq<char>, Seq<char>),
> {
    hs.filter(|h: (Seq<char>, Seq<char>)| !in_list(skips, h.1))
}

proof fn lemma_headers_block_same_prefix(
    h1: Seq<(Seq<char>, Seq<char>)>,
    h2: Seq<(Seq<char>, Seq<char>)>,
    skips: Seq<String>,
    n: int,
)
    requires
        0 <= n <= h1.len(),
        n <= h2.len(),
        forall|j: int| 0 <= j < n ==> h1[j] == h2[j],
    ensures
        headers_block(h1, skips, n) == headers_block(h2, skips, n),
    decreases n,
{
    if n > 0 {
        lemma_headers_block_same_prefix(h1, h2, skips, n - 1);
    }
}

/// The header block drops exactly the lines whose value matches a skip
/// entry, and never reorders the rest: the block of the first `n` headers
/// under the skip rules is the block of exactly the kept headers, in their
/// original order, under no rules at all.
pub proof fn lemma_headers_block_filters(
    hs: Seq<(Seq<char>, Seq<char>)>,
    skips: Seq<String>,
    n: int,
)
    requires
        0 <= n <= hs.len(),
    ensures
        headers_block(hs, skips, n) == headers_block(
            kept_headers(hs.subrange(0, n), skips),
            Seq::empty(),
            kept_headers(hs.subrange(0, n), skips).len() as int,
        ),
    decreases n,
{
    reveal(Seq::filter);
    if n > 0 {
        lemma_headers_block_filters(hs, skips, n - 1);
        let pre = hs.subrange(0, n);
        let pre1 = hs.subrange(0, n - 1);
        assert(pre.drop_last() =~= pre1);
        assert(pre.last() == hs[n - 1]);
        let f = kept_headers(pre, skips);
        let f1 = kept_headers(pre1, skips);
        if in_list(skips, hs[n - 1].1) {
            assert(f =~= f1);
        } else {
            assert(f =~= f1.push(hs[n - 1]));
            lemma_headers_block_same_prefix(f1, f, Seq::empty(), f1.len() as int);
            assert(f[f1.len() as int] == hs[n - 1]);
            assert(headers_block(f, Seq::empty(), f.len() as int) == headers_block(
                f,
                Seq::empty(),
                f1.len() as int,
            ) + hs[n - 1].0 + seq![':', ' '] + quoted(hs[n - 1].1) + seq!['\n']);
        }
    }
}

/// The object with the listed top-level keys removed; other values are
/// untouched, nested structure included.
pub open spec fn strip_keys(d: JsonData, skips: Seq<String>) -> JsonData {
    match d {
        JsonData::Obj(es) => JsonData::Obj(
            es.filter(|e: (Seq<char>, JsonData)| !in_list(skips, e.0)),
        ),
        _ => d,
    }
}

/// What the parse of a body text yields, when the text is valid JSON.
/// The result is a function of the text alone.
pub uninterp spec fn json_parsed_of(s: Seq<char>) -> Option<JsonData>;

/// The parsed-document type of the JSON crate, declared so that the
/// conversion below can mention it; the library never looks inside it.
#[verifier::external_type_specification]
#[verifier::external_body]
pub struct ExSerdeValue(serde_json::Value);

/// Relies on `serde_json::from_str::<serde_json::Value>`: the parse of a
/// text depends on the text alone, succeeds exactly on valid JSON, and
/// yields the document's value tree; object keys in a map are unique.
#[verifier::external_body]
fn json_parse(text: &str) -> (r: Option<JsonVal>)
    ensures
        r is Some <==> json_parsed_of(text@) is Some,
        r is Some ==> jmodel(r->0) == json_parsed_of(text@)->0,
{
    let v: serde_json::Value = match serde_json::from_str(text) {
        Ok(v) => v,
        Err(_) => return None,
    };
    Some(from_serde(&v))
}

/// Relies on `serde_json::Value`'s accessors: rebuilds the parsed tree as
/// the library's own value type, numbers kept as their rendered text.
#[verifier::external_body]
fn from_serde(v: &serde_json::Value) -> JsonVal {
    match v {
        serde_json::Value::Null => JsonVal::Null,
        serde_json::Value::Bool(b) => JsonVal::Bool(*b),
        serde_json::Value::Number(n) => JsonVal::Num(n.to_string()),
        serde_json::Value::String(s) => JsonVal::Str(s.clone()),
        serde_json::Value::Array(es) => JsonVal::Arr(es.iter().map(from_serde).collect()),
        serde_json::Value::Object(es) => JsonVal::Obj(es.iter().map(|(k, x)| (k.clone(), from_serde(x))).collect()),
    }
}

/// Removes the listed top-level keys from an object value and renders what
/// remains as pretty JSON; non-objects are rendered unchanged.
#[verifier::loop_isolation(false)]
pub fn filter_json_val(v: JsonVal, skip: &Vec<String>) -> (r: String)
    ensures
        r@ == json_pretty(strip_keys(jmodel(v), skip@), 0),
{
    let ghost m0 = jmodel(v);
    let filtered: JsonVal = match v {
        JsonVal::Obj(es) => {
            let n = es.len();
            proof {
                lemma_emodel(es@, n as int);
            }
            let ghost m = emodel(es@, n as int);
            let mut out: Vec<(String, JsonVal)> = Vec::new();
            proof {
                reveal(Seq::filter);
                assert(emodel(out@, 0) =~= Seq::<(Seq<char>, JsonData)>::empty());
                assert(m.subrange(0, 0).filter(
                    |e: (Seq<char>, JsonData)| !in_list(skip@, e.0),
                ) =~= Seq::<(Seq<char>, JsonData)>::empty());
            }
            let mut i: usize = 0;
            while i < n
                invariant
                    i <= n,
                    n == es@.len(),
                    m == emodel(es@, n as int),
                    m.len() == n,
                    forall|j: int| 0 <= j < n ==> m[j] == (es@[j].0@, jmodel(es@[j].1)),
                    emodel(out@, out@.len() as int) =~= m.subrange(0, i as int).filter(
                        |e: (Seq<char>, JsonData)| !in_list(skip@, e.0),
                    ),
                decreases n - i,
            {
                let mut hit = false;
                let sn = skip.len();
                let mut j: usize = 0;
                while j < sn
                    invariant
                        j <= sn,
                        sn == skip@.len(),
                        i < n,
                        hit == exists|t: int| 0 <= t < j && skip@[t]@ == es@[i as int].0@,
                    decreases sn - j,
                {
                    if skip[j] == es[i].0 {
                        hit = true;
                    }
                    j = j + 1;
                }
                proof {
                    assert(hit == in_list(skip@, es@[i as int].0@));
                }
                if !hit {
                    let k = es[i].0.clone();
                    let x = crate::json::clone_val(&es[i].1);
                    let ghost old_out = out@;
                    out.push((k, x));
                    proof {
                        lemma_emodel(out@, out@.len() as int);
                        lemma_emodel(old_out, old_out.len() as int);
                        assert(emodel(out@, out@.len() as int) =~= emodel(
                            old_out,
                            old_out.len() as int,
                        ).push((es@[i as int].0@, jmodel(es@[i as int].1))));
                    }
                }
                i = i + 1;
                proof {
                    reveal(Seq::filter);
                    assert(m.subrange(0, i as int).drop_last() =~= m.subrange(0, i - 1));
                    assert(m.subrange(0, i as int).last() == m[i - 1]);
                    assert(emodel(out@, out@.len() as int) =~= m.subrange(0, i as int).filter(
                        |e: (Seq<char>, JsonData)| !in_list(skip@, e.0),
                    ));
                }
            }
            proof {
                assert(m.subrange(0, n as int) =~= m);
            }
            JsonVal::Obj(out)
        },
        other => other,
    };
    proof {
        assert(jmodel(filtered) == strip_keys(m0, skip@));
    }
    crate::json::to_json_pretty(&filtered)
}

/// The canonical text of one normalized response: the status line, the kept
/// header lines, a blank separator, then the body.
pub open spec fn normalized_text(
    version: Seq<char>,
    status: Seq<char>,
    hs: Seq<(Seq<char>, Seq<char>)>,
    body: Seq<char>,
    skips_h: Seq<String>,
    skips_b: Seq<String>,
) -> Option<Seq<char>> {
    let head = version + seq![' '] + status + seq!['\n'] + headers_block(hs, skips_h, hs.len() as int)
        + seq!['\n'];
    if has_content_type(hs) && strategy_of(negotiated(hs)) is Json {
        match json_parsed_of(body) {
            Option::Some(d) => Some(head + json_pretty(strip_keys(d, skips_b), 0) + seq!['\n']),
            Option::None => Option::None,
        }
    } else {
        Some(head + body + seq!['\n'])
    }
}

/// Renders a raw response — status line, headers in original order, body —
/// to normalized text under the given rules: header lines whose value is
/// listed are dropped; a JSON body loses the listed top-level keys and is
/// pretty-printed; other bodies pass through. A declared JSON body that does
/// not parse is a body-parse error.
#[verifier::loop_isolation(false)]
pub fn normalize_response(
    version: &str,
    status: &str,
    headers: &Vec<(String, String)>,
    body: &str,
    profile: &ResponseProfile,
) -> (r: Result<String, XdiffError>)
    ensures
        match normalized_text(
            version@,
            status@,
            hviews(headers@),
            body@,
            profile.skip_headers@,
            profile.skip_body@,
        ) {
            Option::Some(t) => r is Ok && r->Ok_0@ == t,
            Option::None => r is Err && r->Err_0 is BodyParse,
        },
{
    let ghost m = hviews(headers@);
    let mut out: Vec<char> = Vec::new();
    push_str_chars(&mut out, version);
    out.push(' ');
    push_str_chars(&mut out, status);
    out.push('\n');
    let n = headers.len();
    let mut i: usize = 0;
    while i < n
        invariant
            i <= n,
            n == headers@.len(),
            m == hviews(headers@),
            m.len() == n,
            out@ =~= version@ + seq![' '] + status@ + seq!['\n'] + headers_block(
                m,
                profile.skip_headers@,
                i as int,
            ),
        decreases n - i,
    {
        let mut hit = false;
        let sn = profile.skip_headers.len();
        let mut j: usize = 0;
        while j < sn
            invariant
                j <= sn,
                sn == profile.skip_headers@.len(),
                i < n,
                hit == exists|t: int|
                    0 <= t < j && profile.skip_headers@[t]@ == headers@[i as int].1@,
            decreases sn - j,
        {
            if profile.skip_headers[j] == headers[i].1 {
                hit = true;
            }
            j = j + 1;
        }
        proof {
            assert(hit == in_list(profile.skip_headers@, m[i as int].1));
        }
        if !hit {
            push_str_chars(&mut out, headers[i].0.as_str());
            out.push(':');
            out.push(' ');
            out.push('"');
            let vcs = chars_of(headers[i].1.as_str());
            crate::json::push_escaped(&mut out, &vcs);
            out.push('"');
            out.push('\n');
        }
        i = i + 1;
        proof {
            assert(out@ =~= version@ + seq![' '] + status@ + seq!['\n'] + headers_block(
                m,
                profile.skip_headers@,
                i as int,
            ));
        }
    }
    out.push('\n');

    let is_json = content_type_is_json(headers);
    if is_json {
        match json_parse(body) {
            Option::Some(v) => {
                let t = filter_json_val(v, &profile.skip_body);
                push_str_chars(&mut out, t.as_str());
                out.push('\n');
                Ok(chars_to_string(&out))
            },
            Option::None => Err(XdiffError::BodyParse(String::from_str(
                "response body is not valid JSON",
            ))),
        }
    } else {
        push_str_chars(&mut out, body);
        out.push('\n');
        Ok(chars_to_string(&out))
    }
}

/// Whether the response's own content-type selects the JSON strategy.
fn content_type_is_json(headers: &Vec<(String, String)>) -> (r: bool)
    ensures
        r == (has_content_type(hviews(headers@)) && strategy_of(negotiated(hviews(headers@)))
            is Json),
{
    let ghost m = hviews(headers@);
    if !crate::req::exec_has_content_type(headers) {
        return false;
    }
    let ct = crate::req::exec_negotiated(headers);
    crate::text::vec_eq_str(&ct, "application/json")
}

} // verus!
