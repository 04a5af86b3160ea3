//! Users: the model of a platform user and the parsing of a user lookup
//! response.

use vstd::prelude::*;
use vstd::string::*;
use crate::json::Json;
use crate::text::{i64_to_string, spec_i64_dec};

verus! {

/// A platform user, with the fields the lookup requests.
#[derive(Debug, PartialEq)]
pub struct VkUser {
    pub id: i64,
    pub screen_name: String,
    pub first_name: String,
    pub last_name: String,
}

impl Clone for VkUser {
    fn clone(&self) -> (r: Self)
        ensures
            r == *self,
    {
        VkUser {
            id: self.id,
            screen_name: self.screen_name.clone(),
            first_name: self.first_name.clone(),
            last_name: self.last_name.clone(),
        }
    }
}

/// The lookup response was well-shaped but the user object malformed.
#[derive(Debug, PartialEq, Eq)]
pub struct UserParseError;

/// Whether a user object carries every required field.
pub open spec fn spec_user_parseable(j: Json) -> bool {
    &&& j.spec_get("id"@) matches Some(v) && v.spec_as_i64() is Some
    &&& j.spec_get("screen_name"@) matches Some(s) && s.spec_as_str() is Some
    &&& j.spec_get("first_name"@) matches Some(s) && s.spec_as_str() is Some
    &&& j.spec_get("last_name"@) matches Some(s) && s.spec_as_str() is Some
}

/// Parses one user object.
pub fn parse_user(j: &Json) -> (r: Option<VkUser>)
    ensures
        r is Some <==> spec_user_parseable(*j),
        r matches Some(u) ==> {
            &&& j.spec_get("id"@)->0.spec_as_i64() == Some(u.id)
            &&& Some(u.screen_name) == j.spec_get("screen_name"@)->0.spec_as_str()
            &&& Some(u.first_name) == j.spec_get("first_name"@)->0.spec_as_str()
            &&& Some(u.last_name) == j.spec_get("last_name"@)->0.spec_as_str()
        },
{
    let id: i64 = match j.get("id") {
        Some(v) => match v.as_i64() {
            Some(x) => x,
            None => {
                return None;
            },
        },
        None => {
            return None;
        },
    };
    let screen_name: String = match j.get("screen_name") {
        Some(v) => match v.as_str() {
            Some(s) => s.clone(),
            None => {
                return None;
            },
        },
        None => {
            return None;
        },
    };
    let first_name: String = match j.get("first_name") {
        Some(v) => match v.as_str() {
            Some(s) => s.clone(),
            None => {
                return None;
            },
        },
        None => {
            return None;
        },
    };
    let last_name: String = match j.get("last_name") {
        Some(v) => match v.as_str() {
            Some(s) => s.clone(),
            None => {
                return None;
            },
        },
        None => {
            return None;
        },
    };
    Some(VkUser { id, screen_name, first_name, last_name })
}

/// Parses a user-lookup response: a `response` array holding exactly one
/// well-formed user is that user; any other shape means no such user; a
/// single malformed user object is an error.
pub fn parse_user_response(resp: &Json) -> (r: Result<Option<VkUser>, UserParseError>)
    ensures
        ({
            let arr = match resp.spec_get("response"@) {
                Some(a) => a.spec_as_arr(),
                None => None,
            };
            match arr {
                Some(users) => if users.len() == 1 {
                    if spec_user_parseable(users[0]) {
                        r matches Ok(Some(u)) && {
                            &&& users[0].spec_get("id"@)->0.spec_as_i64() == Some(u.id)
                            &&& Some(u.screen_name) == users[0].spec_get(
                                "screen_name"@,
                            )->0.spec_as_str()
                            &&& Some(u.first_name) == users[0].spec_get(
                                "first_name"@,
                            )->0.spec_as_str()
                            &&& Some(u.last_name) == users[0].spec_get(
                                "last_name"@,
                            )->0.spec_as_str()
                        }
                    } else {
                        r == Err::<Option<VkUser>, UserParseError>(UserParseError)
                    }
                } else {
                    r == Ok::<Option<VkUser>, UserParseError>(None)
                },
                None => r == Ok::<Option<VkUser>, UserParseError>(None),
            }
        }),
{
    match resp.get("response") {
        Some(a) => match a.as_arr() {
            Some(users) => {
                if users.len() == 1 {
                    match parse_user(&users[0]) {
                        Some(u) => Ok(Some(u)),
                        None => Err(UserParseError),
                    }
                } else {
                    Ok(None)
                }
            },
            None => Ok(None),
        },
        None => Ok(None),
    }
}

/// The user-lookup boundary: implemented by the API caller at the network
/// edge.
pub trait VkUsersApi {
    /// Looks up a user by screen name; `None` when the platform knows no
    /// such user.
    fn get_user(&self, screen_name: &str) -> Result<Option<VkUser>, String>;
}

/// The one-line rendering of a user: "First Last (@screen_name, id N)".
pub open spec fn spec_describe(u: VkUser) -> Seq<char> {
    u.first_name@ + " "@ + u.last_name@ + " (@"@ + u.screen_name@ + ", id "@ + spec_i64_dec(
        u.id as int,
    ) + ")"@
}

impl VkUser {
    /// The user shown as "First Last (@screen_name, id N)".
    pub fn describe(&self) -> (r: String)
        ensures
            r@ == spec_describe(*self),
    {
        let mut s = String::new();
        s.append(self.first_name.as_str());
        s.append(" ");
        s.append(self.last_name.as_str());
        s.append(" (@");
        s.append(self.screen_name.as_str());
        s.append(", id ");
        let id_s = i64_to_string(self.id);
        s.append(id_s.as_str());
        s.append(")");
        proof {
            assert(s@ =~= self.first_name@ + " "@ + self.last_name@ + " (@"@ + self.screen_name@
                + ", id "@ + spec_i64_dec(self.id as int) + ")"@);
        }
        s
    }
}

} // verus!
