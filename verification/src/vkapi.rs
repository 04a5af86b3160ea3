//! The platform-facing models: messages, long-poll event handling, users,
//! photos, and the request-building helpers shared by the callers.

use vstd::prelude::*;
use vstd::string::*;
use crate::json::Json;
use crate::text::{spec_u64_dec, u64_to_string};

pub mod long_poll;
pub mod messages;
pub mod photos;
pub mod types;
pub mod users;

verus! {

/// Why a community lookup cannot identify the bot's community.
#[derive(Debug, PartialEq, Eq)]
pub enum CommunityError {
    /// The bot is linked to none or to several communities.
    NotSingle,
    /// The community object carries no numeric `id`.
    MissingId,
    /// The community object carries no `name` string.
    MissingName,
}

/// Builds one API request: the method's address and the query extended with
/// the protocol version and the access token.
pub fn api_request<'a>(method: &str, query: &Vec<(&'a str, &'a str)>, token: &'a str) -> (r: (
    String,
    Vec<(&'a str, &'a str)>,
))
    ensures
        r.0@ == "https://api.vk.com/method/"@ + method@,
        r.1@.len() == query@.len() + 2,
        forall|i: int| 0 <= i < query@.len() ==> r.1@[i] == query@[i],
        r.1@[query@.len() as int].0@ == "v"@,
        r.1@[query@.len() as int].1@ == "5.103"@,
        r.1@[query@.len() as int + 1].0@ == "access_token"@,
        r.1@[query@.len() as int + 1].1 == token,
{
    let mut url = String::new();
    url.append("https://api.vk.com/method/");
    url.append(method);
    let n = query.len();
    let mut q: Vec<(&'a str, &'a str)> = Vec::new();
    let mut i: usize = 0;
    while i < n
        invariant
            n == query@.len(),
            0 <= i <= n,
            q@.len() == i,
            forall|k: int| 0 <= k < i ==> q@[k] == query@[k],
        decreases n - i,
    {
        q.push(query[i]);
        i = i + 1;
    }
    q.push(("v", "5.103"));
    q.push(("access_token", token));
    proof {
        assert(url@ =~= "https://api.vk.com/method/"@ + method@);
    }
    (url, q)
}

/// Relies on str::from_utf8: a returned slice views exactly the given
/// bytes, so its characters encode back to them.
#[verifier::external_body]
fn utf8_str(source: &[u8]) -> (r: Option<&str>)
    ensures
        r matches Some(s) ==> vstd::utf8::encode_utf8(s@) == source@,
{
    std::str::from_utf8(source).ok()
}

/// The deserialization diagnostic: the error, the request address and the
/// response body shown as `body`.
pub open spec fn spec_json_error(url: Seq<char>, error: Seq<char>, body: Seq<char>) -> Seq<char> {
    "Unable to deserialize response: "@ + error + "\nRequest URL: "@ + url + "\nResponse body: "@
        + body
}

/// Describes an undeserializable response: the error, the request address
/// and the body — decoded when it is text, marked otherwise.
pub fn json_error(url: &str, source: &[u8], error: &str) -> (r: String)
    ensures
        (exists|body: Seq<char>|
            vstd::utf8::encode_utf8(body) == source@ && r@ == spec_json_error(
                url@,
                error@,
                body,
            )) || r@ == spec_json_error(url@, error@, "*invalid utf8*"@),
{
    let mut s = String::new();
    s.append("Unable to deserialize response: ");
    s.append(error);
    s.append("\nRequest URL: ");
    s.append(url);
    s.append("\nResponse body: ");
    let decoded = utf8_str(source);
    match decoded {
        Some(body) => {
            s.append(body);
            proof {
                assert(s@ =~= spec_json_error(url@, error@, body@));
            }
        },
        None => {
            s.append("*invalid utf8*");
            proof {
                assert(s@ =~= spec_json_error(url@, error@, "*invalid utf8*"@));
            }
        },
    }
    s
}

/// Parses the community-lookup response: exactly one community, identified
/// by its numeric id (rendered in decimal) and its name.
pub fn parse_community_response(j: &Json) -> (r: Result<(String, String), CommunityError>)
    ensures
        ({
            match j.spec_as_arr() {
                Some(comms) => if comms.len() == 1 {
                    let id = match comms[0].spec_get("id"@) {
                        Some(v) => v.spec_as_u64(),
                        None => None,
                    };
                    let name = match comms[0].spec_get("name"@) {
                        Some(v) => v.spec_as_str(),
                        None => None,
                    };
                    match id {
                        Some(idv) => match name {
                            Some(nm) => r matches Ok(p) && p.0@ == spec_u64_dec(idv as int) && p.1
                                == nm,
                            None => r == Err::<(String, String), CommunityError>(
                                CommunityError::MissingName,
                            ),
                        },
                        None => r == Err::<(String, String), CommunityError>(
                            CommunityError::MissingId,
                        ),
                    }
                } else {
                    r == Err::<(String, String), CommunityError>(CommunityError::NotSingle)
                },
                None => r == Err::<(String, String), CommunityError>(CommunityError::NotSingle),
            }
        }),
{
    match j.as_arr() {
        Some(comms) => {
            if comms.len() == 1 {
                let id: u64 = match comms[0].get("id") {
                    Some(v) => match v.as_u64() {
                        Some(x) => x,
                        None => {
                            return Err(CommunityError::MissingId);
                        },
                    },
                    None => {
                        return Err(CommunityError::MissingId);
                    },
                };
                let name: String = match comms[0].get("name") {
                    Some(v) => match v.as_str() {
                        Some(s) => s.clone(),
                        None => {
                            return Err(CommunityError::MissingName);
                        },
                    },
                    None => {
                        return Err(CommunityError::MissingName);
                    },
                };
                Ok((u64_to_string(id), name))
            } else {
                Err(CommunityError::NotSingle)
            }
        },
        None => Err(CommunityError::NotSingle),
    }
}

} // verus!
