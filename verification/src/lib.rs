use vstd::prelude::*;

mod text;
mod json;
mod cli;
mod req;
mod res;
mod diffcore;
mod config;

pub use cli::{Action, Args, KeyVal, KeyValType, RunArgs, parse_key_val};
pub use config::{DiffConfig, DiffProfile};
pub use diffcore::diff_text;
pub use json::{parse_scalar, to_json_min, to_json_pretty, JsonVal};
pub use req::RequestProfile;
pub use res::{filter_json_val, normalize_response, ResponseProfile};

verus! {

/// Caller-supplied overrides, already categorized by origin:
/// headers, query parameters, and body fields, each in the order given.
pub struct ExtraArgs {
    pub headers: Vec<(String, String)>,
    pub query: Vec<(String, String)>,
    pub body: Vec<(String, String)>,
}

impl ExtraArgs {
    pub fn new() -> (r: ExtraArgs)
        ensures
            r.headers@ =~= Seq::<(String, String)>::empty(),
            r.query@ =~= Seq::<(String, String)>::empty(),
            r.body@ =~= Seq::<(String, String)>::empty(),
    {
        ExtraArgs { headers: Vec::new(), query: Vec::new(), body: Vec::new() }
    }
}

/// The error taxonomy of the comparison pipeline. `Transport` is produced
/// only by the unverified network layer around the library.
#[derive(Debug)]
pub enum XdiffError {
    Validation(String),
    OverrideParse(String),
    UnsupportedContentType(String),
    FormEncode(String),
    BodyParse(String),
    Transport(String),
}

} // verus!
