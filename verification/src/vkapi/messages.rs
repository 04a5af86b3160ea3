//! Outbound messages: the model of a queued reply and the check on the
//! delivery response.

use vstd::prelude::*;
use crate::json::Json;

verus! {

/// A reply queued for delivery: the recipient, the text, and an optional
/// attachment reference.
#[derive(Debug, PartialEq)]
pub struct VkOutboundMessage {
    pub peer_id: i64,
    pub text: String,
    pub attachment: Option<String>,
}

/// The delivery boundary: implemented by the API caller at the network
/// edge; fire-and-forget from a behavior's perspective.
pub trait VkMessagesApi {
    /// Sends `text` (and an optional attachment reference) to `peer_id`.
    fn send(&self, peer_id: i64, text: &str, attachment: Option<&str>) -> Result<(), String>;
}

/// Whether a messages-send response reports success: any `error` key means
/// the delivery failed.
pub fn send_response_ok(resp: &Json) -> (r: bool)
    ensures
        r == (resp.spec_get("error"@) is None),
{
    match resp.get("error") {
        Some(_) => false,
        None => true,
    }
}

} // verus!
