//! Photos: the upload-response models, the multipart body the upload posts,
//! and the media reference built from a saved photo.

use vstd::prelude::*;
use vstd::string::*;
use crate::json::Json;
use crate::text::{i64_to_string, spec_i64_dec};
use crate::vkapi::types::VkPhoto;

verus! {

/// The media-fetch and upload boundary: implemented by the API caller at
/// the network edge.
pub trait VkPhotosApi {
    /// Fetches the raw bytes of a photo's chosen rendition.
    fn download_photo(&self, photo: &VkPhoto) -> Result<Vec<u8>, String>;

    /// Uploads image bytes (with their file extension) for a peer's
    /// messages and returns the media reference to attach to a reply.
    fn upload_message_photo(&self, peer_id: i64, photo: &Vec<u8>, ext: &str) -> Result<
        String,
        String,
    >;
}

/// What the upload server returns for a posted photo.
#[derive(Debug, PartialEq)]
pub struct VkPhotoUploadResponse {
    pub server: i64,
    pub photo: String,
    pub hash: String,
}

/// Whether an upload response carries its three required fields.
pub open spec fn spec_upload_response_parseable(j: Json) -> bool {
    &&& j.spec_get("server"@) matches Some(v) && v.spec_as_i64() is Some
    &&& j.spec_get("photo"@) matches Some(s) && s.spec_as_str() is Some
    &&& j.spec_get("hash"@) matches Some(s) && s.spec_as_str() is Some
}

/// Parses the upload server's response: `server`, `photo` and `hash`, each
/// required.
pub fn parse_upload_response(j: &Json) -> (r: Option<VkPhotoUploadResponse>)
    ensures
        r is Some <==> spec_upload_response_parseable(*j),
        r matches Some(u) ==> {
            &&& j.spec_get("server"@)->0.spec_as_i64() == Some(u.server)
            &&& Some(u.photo) == j.spec_get("photo"@)->0.spec_as_str()
            &&& Some(u.hash) == j.spec_get("hash"@)->0.spec_as_str()
        },
{
    let server: i64 = match j.get("server") {
        Some(v) => match v.as_i64() {
            Some(x) => x,
            None => {
                return None;
            },
        },
        None => {
            return None;
        },
    };
    let photo: String = match j.get("photo") {
        Some(v) => match v.as_str() {
            Some(s) => s.clone(),
            None => {
                return None;
            },
        },
        None => {
            return None;
        },
    };
    let hash: String = match j.get("hash") {
        Some(v) => match v.as_str() {
            Some(s) => s.clone(),
            None => {
                return None;
            },
        },
        None => {
            return None;
        },
    };
    Some(VkPhotoUploadResponse { server, photo, hash })
}

/// Parses the upload-server address out of its envelope.
pub fn parse_upload_url(j: &Json) -> (r: Option<String>)
    ensures
        ({
            match j.spec_get("upload_url"@) {
                Some(u) => match u.spec_as_str() {
                    Some(s) => r == Some(s),
                    None => r is None,
                },
                None => r is None,
            }
        }),
{
    match j.get("upload_url") {
        Some(u) => match u.as_str() {
            Some(s) => Some(s.clone()),
            None => None,
        },
        None => None,
    }
}

/// Parses the saved-photo response: an array of exactly one media object
/// with its owner and id, rendered as the `photoOWNER_ID` reference.
pub fn parse_saved_photo(j: &Json) -> (r: Option<String>)
    ensures
        ({
            match j.spec_as_arr() {
                Some(media) => if media.len() == 1 {
                    let id = match media[0].spec_get("id"@) {
                        Some(v) => v.spec_as_i64(),
                        None => None,
                    };
                    let owner = match media[0].spec_get("owner_id"@) {
                        Some(v) => v.spec_as_i64(),
                        None => None,
                    };
                    match id {
                        Some(i) => match owner {
                            Some(o) => r matches Some(s) && s@ == "photo"@ + spec_i64_dec(o as int)
                                + "_"@ + spec_i64_dec(i as int),
                            None => r is None,
                        },
                        None => r is None,
                    }
                } else {
                    r is None
                },
                None => r is None,
            }
        }),
{
    match j.as_arr() {
        Some(media) => {
            if media.len() == 1 {
                let id: i64 = match media[0].get("id") {
                    Some(v) => match v.as_i64() {
                        Some(x) => x,
                        None => {
                            return None;
                        },
                    },
                    None => {
                        return None;
                    },
                };
                let owner: i64 = match media[0].get("owner_id") {
                    Some(v) => match v.as_i64() {
                        Some(x) => x,
                        None => {
                            return None;
                        },
                    },
                    None => {
                        return None;
                    },
                };
                let mut s = String::new();
                s.append("photo");
                let o_s = i64_to_string(owner);
                s.append(o_s.as_str());
                s.append("_");
                let i_s = i64_to_string(id);
                s.append(i_s.as_str());
                proof {
                    assert(s@ =~= "photo"@ + spec_i64_dec(owner as int) + "_"@ + spec_i64_dec(
                        id as int,
                    ));
                }
                Some(s)
            } else {
                None
            }
        },
        None => None,
    }
}

/// The fixed boundary the multipart upload uses.
pub open spec fn spec_boundary_bytes() -> Seq<u8> {
    "----------------------------ImbotMultipartBoundary".spec_bytes()
}

/// The multipart/form-data body of a file upload: one part under
/// `field_name`, its filename carrying the extension the platform requires,
/// followed by the raw bytes.
pub open spec fn spec_multipart_body(field: Seq<u8>, ext: Seq<u8>, data: Seq<u8>) -> Seq<u8> {
    "--".spec_bytes() + spec_boundary_bytes()
        + "\r\nContent-Disposition: form-data; name=\"".spec_bytes() + field
        + "\"; filename=\"file.".spec_bytes() + ext + "\"\r\n\r\n".spec_bytes() + data
        + "\r\n--".spec_bytes() + spec_boundary_bytes() + "--".spec_bytes()
}

/// The boundary, for the Content-Type header.
pub fn multipart_boundary() -> (r: &'static str)
    ensures
        r.spec_bytes() == spec_boundary_bytes(),
{
    "----------------------------ImbotMultipartBoundary"
}

/// Builds the multipart body for one file part.
pub fn build_multipart_body(field_name: &str, data: &Vec<u8>, data_ext: &str) -> (r: Vec<u8>)
    ensures
        r@ == spec_multipart_body(field_name.spec_bytes(), data_ext.spec_bytes(), data@),
{
    let mut out: Vec<u8> = Vec::new();
    out.extend_from_slice("--".as_bytes());
    out.extend_from_slice("----------------------------ImbotMultipartBoundary".as_bytes());
    out.extend_from_slice("\r\nContent-Disposition: form-data; name=\"".as_bytes());
    out.extend_from_slice(field_name.as_bytes());
    out.extend_from_slice("\"; filename=\"file.".as_bytes());
    out.extend_from_slice(data_ext.as_bytes());
    out.extend_from_slice("\"\r\n\r\n".as_bytes());
    out.extend_from_slice(data.as_slice());
    out.extend_from_slice("\r\n--".as_bytes());
    out.extend_from_slice("----------------------------ImbotMultipartBoundary".as_bytes());
    out.extend_from_slice("--".as_bytes());
    proof {
        assert(out@ =~= spec_multipart_body(field_name.spec_bytes(), data_ext.spec_bytes(), data@));
    }
    out
}

} // verus!
