//! Perceptual-image matching: an opaque fixed-configuration hasher turns
//! JPEG bytes into a fingerprint, and two fingerprints match when their
//! Hamming distance stays within a small tolerance.

use vstd::prelude::*;

verus! {

/// Base tolerance for fingerprint matching, in differing bits.
pub const HAMMING_TOLERANCE: u64 = 7;

/// Longest fingerprint for which a Hamming distance always fits in `u64`.
pub const MAX_FINGERPRINT_LEN: u64 = u64::MAX / 8;

/// Number of set bits in a byte.
pub open spec fn spec_popcount8(x: u8) -> int {
    ((x >> 0u8) & 1) + ((x >> 1u8) & 1) + ((x >> 2u8) & 1) + ((x >> 3u8) & 1) + ((x >> 4u8) & 1) + (
    (x >> 5u8) & 1) + ((x >> 6u8) & 1) + ((x >> 7u8) & 1)
}

/// Hamming distance of two byte strings: the number of bit positions at
/// which they differ (meaningful for equal lengths).
pub open spec fn spec_hamming(a: Seq<u8>, b: Seq<u8>) -> int
    decreases a.len(),
{
    if a.len() == 0 || b.len() == 0 {
        0
    } else {
        spec_popcount8(a[0] ^ b[0]) + spec_hamming(a.drop_first(), b.drop_first())
    }
}

/// Relies on hamming::distance: returns the number of bit positions at which
/// the two byte strings differ. It panics on unequal lengths, so those are
/// excluded, as are lengths whose worst-case distance overflows `u64`.
#[verifier::external_body]
fn hamming_distance(a: &[u8], b: &[u8]) -> (r: u64)
    requires
        a@.len() == b@.len(),
        a@.len() <= MAX_FINGERPRINT_LEN,
    ensures
        r == spec_hamming(a@, b@),
{
    hamming::distance(a, b)
}

/// The fingerprint the fixed-configuration perceptual hasher computes from a
/// JPEG image; a function of the image bytes alone.
pub uninterp spec fn spec_fingerprint(image: Seq<u8>) -> Seq<u8>;

/// Two fingerprints match at tolerance `tol`: equal length and Hamming
/// distance at most `tol`.
pub open spec fn spec_matches(expected: Seq<u8>, candidate: Seq<u8>, tol: int) -> bool {
    expected.len() == candidate.len() && spec_hamming(expected, candidate) <= tol
}

/// Wraps the perceptual hasher at its fixed configuration. The grid size and
/// algorithm are a versioned constant: changing them would invalidate every
/// stored reference fingerprint.
pub struct ImageMatcher {}

impl ImageMatcher {
    pub fn new() -> (r: Self) {
        ImageMatcher {  }
    }

    /// Relies on image::load_from_memory_with_format and
    /// img_hash::Hasher::hash_image: decodes the bytes as a JPEG raster and
    /// computes the perceptual hash; the result depends on the image bytes
    /// alone, the configuration being fixed. `None` when decoding fails.
    #[verifier::external_body]
    pub fn hash(&self, vk_image: &[u8]) -> (r: Option<Vec<u8>>)
        ensures
            r matches Some(h) ==> h@ == spec_fingerprint(vk_image@),
    {
        let hasher = img_hash::HasherConfig::new()
            .hash_alg(img_hash::HashAlg::DoubleGradient)
            .hash_size(15, 15)
            .preproc_dct()
            .to_hasher();
        match image::load_from_memory_with_format(vk_image, image::ImageFormat::Jpeg) {
            Ok(img) => Some(hasher.hash_image(&img).as_bytes().to_vec()),
            Err(_) => None,
        }
    }

    /// Whether `hash` matches the reference fingerprint `expected`, with the
    /// base tolerance raised by `tolerance_inc_hack`.
    pub fn matches(expected: &[u8], hash: &[u8], tolerance_inc_hack: u64) -> (r: bool)
        requires
            expected@.len() <= MAX_FINGERPRINT_LEN,
            tolerance_inc_hack <= u64::MAX - HAMMING_TOLERANCE,
        ensures
            r == spec_matches(expected@, hash@, HAMMING_TOLERANCE + tolerance_inc_hack),
    {
        if expected.len() != hash.len() {
            return false;
        }
        let dist = hamming_distance(expected, hash);
        dist <= HAMMING_TOLERANCE + tolerance_inc_hack
    }
}

} // verus!
