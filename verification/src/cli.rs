use vstd::prelude::*;

use crate::ExtraArgs;
use crate::XdiffError;
use crate::text::{chars_of, chars_to_string, subvec, trim_vec, trimmed};

verus! {

/// The category an override token belongs to, chosen by the key's first
/// character: `%` header, `@` body, a letter query.
#[derive(Clone, Copy, Debug, PartialEq, Eq, Structural)]
pub enum KeyValType {
    Query,
    Header,
    Body,
}

/// One parsed `key=value` override token.
#[derive(Clone, Debug)]
pub struct KeyVal {
    pub key_type: KeyValType,
    pub key: String,
    pub value: String,
}

/// Arguments of one comparison run: the profile name, the override tokens,
/// and the configuration document's path.
pub struct RunArgs {
    pub profile: String,
    pub extra_params: Vec<KeyVal>,
    pub config: Option<String>,
}

pub enum Action {
    Run(RunArgs),
    Parse,
}

pub struct Args {
    pub action: Action,
}

/// The first index at or after `j` holding `'='`, or the length if none.
pub open spec fn eq_pos(s: Seq<char>, j: int) -> int
    decreases s.len() - j,
{
    if 0 <= j < s.len() {
        if s[j] == '=' {
            j
        } else {
            eq_pos(s, j + 1)
        }
    } else {
        s.len() as int
    }
}

pub open spec fn is_ascii_alpha(c: char) -> bool {
    ('a' <= c && c <= 'z') || ('A' <= c && c <= 'Z')
}

/// How a `key=value` token reads: the key is the trimmed text before the
/// first `'='` and selects the category by its first character; the value is
/// the trimmed remainder. `None` is a parse error.
pub open spec fn spec_parse_key_val(s: Seq<char>) -> Option<(KeyValType, Seq<char>, Seq<char>)> {
    let p = eq_pos(s, 0);
    if p >= s.len() {
        None
    } else {
        let key = trimmed(s.subrange(0, p));
        let value = trimmed(s.subrange(p + 1, s.len() as int));
        if key.len() == 0 {
            None
        } else if key[0] == '%' {
            Some((KeyValType::Header, key.drop_first(), value))
        } else if key[0] == '@' {
            Some((KeyValType::Body, key.drop_first(), value))
        } else if is_ascii_alpha(key[0]) {
            Some((KeyValType::Query, key, value))
        } else {
            None
        }
    }
}

/// Parses one `key=value` override token.
#[verifier::loop_isolation(false)]
pub fn parse_key_val(s: &str) -> (r: Result<KeyVal, XdiffError>)
    ensures
        r is Ok <==> spec_parse_key_val(s@) is Some,
        r is Ok ==> {
            let (t, k, v) = spec_parse_key_val(s@)->Some_0;
            r->Ok_0.key_type == t && r->Ok_0.key@ == k && r->Ok_0.value@ == v
        },
{
    let cs = chars_of(s);
    let n = cs.len();
    let mut p: usize = 0;
    while p < n && cs[p] != '='
        invariant
            p <= n,
            n == s@.len(),
            eq_pos(s@, 0) == eq_pos(s@, p as int),
        decreases n - p,
    {
        p = p + 1;
    }
    if p >= n {
        return Err(XdiffError::OverrideParse(String::from_str("invalid key value pair")));
    }
    let keyv = subvec(&cs, 0, p);
    let key = trim_vec(&keyv);
    let valv = subvec(&cs, p + 1, n);
    let value = trim_vec(&valv);
    if key.len() == 0 {
        return Err(XdiffError::OverrideParse(String::from_str("invalid key value pair")));
    }
    let c0 = key[0];
    if c0 == '%' {
        let rest = subvec(&key, 1, key.len());
        proof {
            assert(rest@ =~= trimmed(s@.subrange(0, p as int)).drop_first());
        }
        Ok(KeyVal {
            key_type: KeyValType::Header,
            key: chars_to_string(&rest),
            value: chars_to_string(&value),
        })
    } else if c0 == '@' {
        let rest = subvec(&key, 1, key.len());
        proof {
            assert(rest@ =~= trimmed(s@.subrange(0, p as int)).drop_first());
        }
        Ok(KeyVal {
            key_type: KeyValType::Body,
            key: chars_to_string(&rest),
            value: chars_to_string(&value),
        })
    } else if ('a' <= c0 && c0 <= 'z') || ('A' <= c0 && c0 <= 'Z') {
        Ok(KeyVal {
            key_type: KeyValType::Query,
            key: chars_to_string(&key),
            value: chars_to_string(&value),
        })
    } else {
        Err(XdiffError::OverrideParse(String::from_str("invalid key value pair")))
    }
}

/// The `(key, value)` pairs of the first `n` tokens whose category is `t`,
/// in order.
pub open spec fn sel(kvs: Seq<KeyVal>, t: KeyValType, n: int) -> Seq<(String, String)>
    decreases n,
{
    if n <= 0 || n > kvs.len() {
        Seq::empty()
    } else if kvs[n - 1].key_type == t {
        sel(kvs, t, n - 1).push((kvs[n - 1].key, kvs[n - 1].value))
    } else {
        sel(kvs, t, n - 1)
    }
}

impl ExtraArgs {
    /// Partitions parsed override tokens into the three override lists,
    /// keeping each category's original order.
    #[verifier::loop_isolation(false)]
    pub fn from(value: Vec<KeyVal>) -> (r: ExtraArgs)
        ensures
            r.headers@ == sel(value@, KeyValType::Header, value@.len() as int),
            r.query@ == sel(value@, KeyValType::Query, value@.len() as int),
            r.body@ == sel(value@, KeyValType::Body, value@.len() as int),
    {
        let mut headers: Vec<(String, String)> = Vec::new();
        let mut query: Vec<(String, String)> = Vec::new();
        let mut body: Vec<(String, String)> = Vec::new();
        let n = value.len();
        let mut i: usize = 0;
        while i < n
            invariant
                i <= n,
                n == value@.len(),
                headers@ == sel(value@, KeyValType::Header, i as int),
                query@ == sel(value@, KeyValType::Query, i as int),
                body@ == sel(value@, KeyValType::Body, i as int),
            decreases n - i,
        {
            let k = value[i].key.clone();
            let v = value[i].value.clone();
            match value[i].key_type {
                KeyValType::Header => headers.push((k, v)),
                KeyValType::Query => query.push((k, v)),
                KeyValType::Body => body.push((k, v)),
            }
            i = i + 1;
        }
        ExtraArgs { headers, query, body }
    }
}

} // verus!
