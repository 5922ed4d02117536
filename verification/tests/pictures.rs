use martian_dedup::message::{largest_photo, PhotoDims};
use martian_dedup::picture::{decode_photo, hash_bytes_value, hash_img, PhotoError};

#[test]
fn hash_bytes_read_big_endian() {
    assert_eq!(hash_bytes_value(&[0, 0, 0, 0, 1]), 0x100_0000);
    assert_eq!(hash_bytes_value(&[0x12, 0x34, 0x56, 0x78, 0x9a]), 0x1234_5678_9a00_0000);
    assert_eq!(hash_bytes_value(&[0xff, 0xff, 0xff, 0xff, 0xff]), -0x100_0000);
    assert_eq!(hash_bytes_value(&[0x80, 0, 0, 0, 0]), i64::MIN);
}

#[test]
fn hash_bytes_match_from_be_bytes() {
    let h = [0xde, 0xad, 0xbe, 0xef, 0x01];
    let mut buf = [0u8; 8];
    buf[..5].copy_from_slice(&h);
    assert_eq!(hash_bytes_value(&h), i64::from_be_bytes(buf));
}

#[test]
fn distinct_hashes_distinct_values() {
    assert_ne!(hash_bytes_value(&[1, 0, 0, 0, 0]), hash_bytes_value(&[0, 1, 0, 0, 0]));
}

#[test]
fn hashes_of_pictures() {
    let black = image::DynamicImage::new_rgb8(64, 64);
    let mut stripes = image::RgbImage::new(64, 64);
    for (x, _y, p) in stripes.enumerate_pixels_mut() {
        let v = if (x / 8) % 2 == 0 { 255 } else { 0 };
        *p = image::Rgb([v, v, v]);
    }
    let stripes = image::DynamicImage::ImageRgb8(stripes);
    let a = hash_img(&black);
    let b = hash_img(&stripes);
    assert_eq!(a % 0x100_0000, 0);
    assert_eq!(b % 0x100_0000, 0);
    assert_eq!(a, hash_img(&black));
    assert_ne!(a, b);
}

#[test]
fn undecodable_photo() {
    match decode_photo(b"definitely not a picture") {
        Err(PhotoError::Undecodable(_)) => {}
        Ok(_) => panic!("decoded"),
    }
}

#[test]
fn decodable_photo() {
    let img = image::DynamicImage::new_rgb8(4, 3);
    let mut bytes = std::io::Cursor::new(Vec::new());
    img.write_to(&mut bytes, image::ImageOutputFormat::Png).unwrap();
    let back = decode_photo(bytes.get_ref()).ok().unwrap();
    assert_eq!((back.width(), back.height()), (4, 3));
}

#[test]
fn largest_photo_size() {
    let d = |width, height| PhotoDims { width, height };
    assert_eq!(largest_photo(&vec![]), None);
    assert_eq!(largest_photo(&vec![d(90, 90), d(320, 320), d(800, 800), d(100, 100)]), Some(2));
    // ties go to the last one, as `max_by_key` does
    assert_eq!(largest_photo(&vec![d(10, 40), d(20, 20), d(40, 10), d(5, 5)]), Some(2));
}

#[test]
fn configured_hash_has_five_bytes() {
    let hasher = image_hasher::HasherConfig::new()
        .hash_alg(image_hasher::HashAlg::DoubleGradient)
        .preproc_dct()
        .to_hasher();
    for (w, h) in [(1, 1), (64, 64), (300, 17)] {
        let img = image::DynamicImage::new_rgb8(w, h);
        assert_eq!(hasher.hash_image(&img).as_bytes().len(), 5);
    }
}

#[test]
fn stored_hash_matches_original_layout() {
    let img = image::DynamicImage::new_luma8(32, 32);
    let hasher = image_hasher::HasherConfig::new()
        .hash_alg(image_hasher::HashAlg::DoubleGradient)
        .preproc_dct()
        .to_hasher();
    let mut buf = [0u8; 8];
    buf[..5].copy_from_slice(hasher.hash_image(&img).as_bytes());
    assert_eq!(hash_img(&img), i64::from_be_bytes(buf));
}

#[test]
fn too_short_to_be_a_photo() {
    assert!(decode_photo(b"").is_err());
    assert!(decode_photo(b"B").is_err());
}
