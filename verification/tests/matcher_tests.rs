use std::io::Cursor;

use salmon::img_match::ImageMatcher;

fn jpeg_bytes<F: Fn(u32, u32) -> [u8; 3]>(pixel: F) -> Vec<u8> {
    let img = image::RgbImage::from_fn(64, 64, |x, y| image::Rgb(pixel(x, y)));
    let mut buf: Vec<u8> = Vec::new();
    image::DynamicImage::ImageRgb8(img)
        .write_to(&mut Cursor::new(&mut buf), image::ImageOutputFormat::Jpeg(90))
        .unwrap();
    buf
}

#[test]
fn hashing_a_jpeg_yields_a_stable_fingerprint() {
    let matcher = ImageMatcher::new();
    let gradient = jpeg_bytes(|x, y| [(x * 4) as u8, (y * 4) as u8, 0]);
    let h1 = matcher.hash(&gradient).unwrap();
    let h2 = matcher.hash(&gradient).unwrap();
    assert_eq!(h1, h2);
    assert!(!h1.is_empty());
    // the fingerprint is a hash, not the image itself
    assert!(h1.len() < gradient.len());
    // an identical rendition matches itself at distance zero
    assert!(ImageMatcher::matches(&h1, &h2, 0));
}

#[test]
fn undecodable_bytes_hash_to_nothing() {
    let matcher = ImageMatcher::new();
    assert_eq!(matcher.hash(b"not a jpeg at all"), None);
}

#[test]
fn unlike_images_sit_far_apart() {
    let matcher = ImageMatcher::new();
    let gradient = jpeg_bytes(|x, y| [(x * 4) as u8, (y * 4) as u8, 0]);
    let checker = jpeg_bytes(|x, y| {
        if (x / 8 + y / 8) % 2 == 0 {
            [255, 255, 255]
        } else {
            [0, 0, 0]
        }
    });
    let hg = matcher.hash(&gradient).unwrap();
    let hc = matcher.hash(&checker).unwrap();
    assert_eq!(hg.len(), hc.len());
    assert!(!ImageMatcher::matches(&hg, &hc, 0));
}
