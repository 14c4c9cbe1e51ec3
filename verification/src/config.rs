use vstd::prelude::*;

use crate::XdiffError;
use crate::req::{profile_ok, valiadte_msg, RequestProfile};
use crate::res::ResponseProfile;
use crate::text::{chars_of, chars_to_string, push_str_chars, str_eq};

verus! {

/// One named comparison: two request descriptors and the shared
/// response-normalization rules.
pub struct DiffProfile {
    pub req1: RequestProfile,
    pub req2: RequestProfile,
    pub res: ResponseProfile,
}

impl DiffProfile {
    pub fn new(req1: RequestProfile, req2: RequestProfile, res: ResponseProfile) -> (r:
        DiffProfile)
        ensures
            r.req1 == req1 && r.req2 == req2 && r.res == res,
    {
        DiffProfile { req1, req2, res }
    }

    /// Both descriptors pass the load-time structural check.
    pub fn validate(&self) -> (r: Result<(), XdiffError>)
        ensures
            r is Ok <==> profile_ok(self.req1) && profile_ok(self.req2),
            r is Err ==> r->Err_0 is Validation && r->Err_0->Validation_0@ == profile_msg(
                *self,
            ),
    {
        match self.req1.valiadte() {
            Ok(()) => {},
            Err(e) => {
                return Err(prefix_validation("req1: ", e));
            },
        }
        match self.req2.valiadte() {
            Ok(()) => {},
            Err(e) => {
                return Err(prefix_validation("req2: ", e));
            },
        }
        Ok(())
    }
}

/// The message a failing profile carries: which request failed, then which
/// field.
pub open spec fn profile_msg(p: DiffProfile) -> Seq<char> {
    if !profile_ok(p.req1) {
        "req1: "@ + valiadte_msg(p.req1)
    } else {
        "req2: "@ + valiadte_msg(p.req2)
    }
}

/// Attaches context to a validation error's message.
fn prefix_validation(prefix: &str, e: XdiffError) -> (r: XdiffError)
    requires
        e is Validation,
    ensures
        r is Validation,
        r->Validation_0@ == prefix@ + e->Validation_0@,
{
    match e {
        XdiffError::Validation(m) => {
            let mut v = chars_of(prefix);
            push_str_chars(&mut v, m.as_str());
            XdiffError::Validation(chars_to_string(&v))
        },
        other => {
            proof {
                assert(false);
            }
            other
        },
    }
}

/// The whole configuration document: comparison profiles by name, in the
/// order given.
pub struct DiffConfig {
    pub profiles: Vec<(String, DiffProfile)>,
}

/// The first index at or after `j` whose profile name is `name`, or the
/// length if none.
pub open spec fn profile_first(ps: Seq<(String, DiffProfile)>, name: Seq<char>, j: int) -> int
    decreases ps.len() - j,
{
    if 0 <= j < ps.len() {
        if ps[j].0@ == name {
            j
        } else {
            profile_first(ps, name, j + 1)
        }
    } else {
        ps.len() as int
    }
}

impl DiffConfig {
    pub fn new(profiles: Vec<(String, DiffProfile)>) -> (r: DiffConfig)
        ensures
            r.profiles == profiles,
    {
        DiffConfig { profiles }
    }

    /// The first profile under this name, if any.
    #[verifier::loop_isolation(false)]
    pub fn get_profile(&self, name: &str) -> (r: Option<&DiffProfile>)
        ensures
            r is Some <==> profile_first(self.profiles@, name@, 0) < self.profiles@.len(),
            r is Some ==> *r->0 == self.profiles@[profile_first(self.profiles@, name@, 0)].1,
    {
        let n = self.profiles.len();
        let mut i: usize = 0;
        while i < n
            invariant
                i <= n,
                n == self.profiles@.len(),
                profile_first(self.profiles@, name@, 0) == profile_first(
                    self.profiles@,
                    name@,
                    i as int,
                ),
            decreases n - i,
        {
            if str_eq(self.profiles[i].0.as_str(), name) {
                proof {
                    assert(profile_first(self.profiles@, name@, i as int) == i);
                }
                return Some(&self.profiles[i].1);
            }
            i = i + 1;
        }
        proof {
            assert(profile_first(self.profiles@, name@, n as int) == n);
        }
        None
    }

    /// Every profile of the document passes the structural check; a failure
    /// names the profile and, through it, the request and the field.
    #[verifier::loop_isolation(false)]
    pub fn validate(&self) -> (r: Result<(), XdiffError>)
        ensures
            r is Ok <==> forall|i: int| 0 <= i < self.profiles@.len() ==> profile_ok(
                (#[trigger] self.profiles@[i]).1.req1,
            ) && profile_ok(self.profiles@[i].1.req2),
            r is Err ==> {
                let i = first_bad(self.profiles@, 0);
                &&& i < self.profiles@.len()
                &&& r->Err_0 is Validation
                &&& r->Err_0->Validation_0@ == "failed to validate profile: "@
                    + self.profiles@[i].0@ + ": "@ + profile_msg(self.profiles@[i].1)
            },
    {
        let n = self.profiles.len();
        let mut i: usize = 0;
        while i < n
            invariant
                i <= n,
                n == self.profiles@.len(),
                first_bad(self.profiles@, 0) == first_bad(self.profiles@, i as int),
                forall|j: int| 0 <= j < i ==> profile_ok((#[trigger] self.profiles@[j]).1.req1)
                    && profile_ok(self.profiles@[j].1.req2),
            decreases n - i,
        {
            match self.profiles[i].1.validate() {
                Ok(()) => {},
                Err(e) => {
                    proof {
                        assert(first_bad(self.profiles@, i as int) == i);
                    }
                    let mut v = chars_of("failed to validate profile: ");
                    push_str_chars(&mut v, self.profiles[i].0.as_str());
                    push_str_chars(&mut v, ": ");
                    match e {
                        XdiffError::Validation(m) => {
                            push_str_chars(&mut v, m.as_str());
                            return Err(XdiffError::Validation(chars_to_string(&v)));
                        },
                        other => {
                            proof {
                                assert(false);
                            }
                            return Err(other);
                        },
                    }
                },
            }
            i = i + 1;
        }
        proof {
            assert(first_bad(self.profiles@, n as int) == n);
        }
        Ok(())
    }
}

/// Whether a profile fails the structural check.
pub open spec fn bad_profile(p: DiffProfile) -> bool {
    !profile_ok(p.req1) || !profile_ok(p.req2)
}

/// The first index at or after `j` holding a failing profile, or the length
/// if none.
pub open spec fn first_bad(ps: Seq<(String, DiffProfile)>, j: int) -> int
    decreases ps.len() - j,
{
    if 0 <= j < ps.len() {
        if bad_profile(ps[j].1) {
            j
        } else {
            first_bad(ps, j + 1)
        }
    } else {
        ps.len() as int
    }
}

} // verus!
