//! Pictures: decoding, perceptual hashing, and the integer under which a
//! hash is stored.

use vstd::prelude::*;

verus! {

/// A decoded picture of the `image` crate.
#[verifier::external_type_specification]
#[verifier::external_body]
pub struct ExDynamicImage(image::DynamicImage);

/// The error of the `image` crate when a picture cannot be decoded.
#[verifier::external_type_specification]
#[verifier::external_body]
pub struct ExImageError(image::ImageError);

/// Whether `image::load_from_memory` decodes `bytes` into a picture.
pub uninterp spec fn image_decodes(bytes: Seq<u8>) -> bool;

/// Decodes a picture with `image::load_from_memory`, believed to succeed
/// exactly where `image_decodes` says. Its source first guesses the format
/// from the leading bytes and refuses what starts with none of its
/// signatures, the shortest of which (`BM`, `P1` to `P7`) have two bytes: so
/// fewer than two bytes never decode. Nothing is claimed of the picture or
/// of the error: for JPEG the decoder (`jpeg-decoder`) runs an SSSE3 inverse
/// DCT and colour conversion where the CPU offers them at run time and its
/// portable code elsewhere, so the pixels made of the same bytes are not
/// shown to be the same on every machine.
#[verifier::external_body]
fn load_from_memory(bytes: &[u8]) -> (r: Result<image::DynamicImage, image::ImageError>)
    ensures
        (r is Ok) == image_decodes(bytes@),
        bytes@.len() < 2 ==> r is Err,
{
    image::load_from_memory(bytes)
}

/// Why a photo could not be hashed.
pub enum PhotoError {
    /// The downloaded bytes are not a picture that can be decoded.
    Undecodable(image::ImageError),
}

/// Decodes the bytes of a downloaded photo: it succeeds exactly where
/// `image::load_from_memory` decodes them, and never on fewer than two bytes.
pub fn decode_photo(bytes: &[u8]) -> (r: Result<image::DynamicImage, PhotoError>)
    ensures
        (r is Ok) == image_decodes(bytes@),
        bytes@.len() < 2 ==> r is Err,
{
    match load_from_memory(bytes) {
        Ok(img) => Ok(img),
        Err(e) => Err(PhotoError::Undecodable(e)),
    }
}

/// Hashes a picture with `image_hasher`, configured as the bot does: the
/// double gradient algorithm after DCT preprocessing, at the default size of
/// 8 x 8. For that configuration the source resizes to 5 x 5 values and
/// compares 20 horizontal and 20 vertical neighbours: the hash has 40 bits,
/// which is 5 bytes. Only that length is claimed; the bits are not: the DCT
/// runs on 10 values a row and a column, a length that `rustdct` plans
/// through `rustfft`'s `FftPlanner::new`, which picks AVX, SSE or portable
/// code by what the CPU offers at run time, and the hash bits compare the
/// resulting floats, so the same picture is not shown to hash alike on
/// every machine.
#[verifier::external_body]
fn perceptual_hash(photo: &image::DynamicImage) -> (r: Vec<u8>)
    ensures
        r.len() == 5,
{
    let hasher = image_hasher::HasherConfig::new().hash_alg(
        image_hasher::HashAlg::DoubleGradient,
    ).preproc_dct().to_hasher();
    hasher.hash_image(photo).as_bytes().to_vec()
}

/// The unsigned integer that bytes spell in big-endian order.
pub open spec fn be_unsigned(b: Seq<u8>) -> int
    decreases b.len(),
{
    if b.len() == 0 {
        0
    } else {
        be_unsigned(b.drop_last()) * 256 + b.last()
    }
}

/// The `i64` that eight bytes spell in big-endian two's complement, as
/// `i64::from_be_bytes` reads them.
pub open spec fn be_i64(b: Seq<u8>) -> int {
    let u = be_unsigned(b);
    if u >= 0x8000_0000_0000_0000 {
        u - 0x1_0000_0000_0000_0000
    } else {
        u
    }
}

/// The integer under which a 5-byte hash is stored: its bytes followed by
/// three zero bytes, read as a big-endian `i64`.
pub open spec fn hash_value(h: Seq<u8>) -> int {
    be_i64(h + seq![0u8, 0u8, 0u8])
}

/// The integer under which the 5-byte hash `hash` is stored.
pub fn hash_bytes_value(hash: &[u8]) -> (r: i64)
    requires
        hash@.len() == 5,
    ensures
        r == hash_value(hash@),
{
    let b0 = hash[0];
    let b1 = hash[1];
    let b2 = hash[2];
    let b3 = hash[3];
    let b4 = hash[4];
    let hi: i64 = if b0 >= 128 {
        b0 as i64 - 256
    } else {
        b0 as i64
    };
    let r: i64 = hi * 0x100_0000_0000_0000 + (b1 as i64) * 0x1_0000_0000_0000 + (b2 as i64)
        * 0x100_0000_0000 + (b3 as i64) * 0x1_0000_0000 + (b4 as i64) * 0x100_0000;
    proof {
        lemma_hash_value_expanded(hash@);
    }
    r
}

/// The integer under which a photo's perceptual hash is stored. The hash
/// itself comes from `image_hasher` and may differ between machines (see
/// `perceptual_hash`); what is claimed is that the result is the stored form
/// of the 5-byte hash computed here, exactly as `hash_bytes_value` turns it.
pub fn hash_img(photo: &image::DynamicImage) -> (r: i64)
    ensures
        exists|h: Seq<u8>| h.len() == 5 && r == hash_value(h),
{
    let hash = perceptual_hash(photo);
    let r = hash_bytes_value(hash.as_slice());
    assert(hash@.len() == 5 && r == hash_value(hash@));
    r
}

proof fn lemma_hash_value_expanded(h: Seq<u8>)
    requires
        h.len() == 5,
    ensures
        be_unsigned(h + seq![0u8, 0u8, 0u8]) == h[0] * 0x100_0000_0000_0000 + h[1]
            * 0x1_0000_0000_0000 + h[2] * 0x100_0000_0000 + h[3] * 0x1_0000_0000 + h[4]
            * 0x100_0000,
{
    let full = h + seq![0u8, 0u8, 0u8];
    reveal_with_fuel(be_unsigned, 9);
    assert(full.drop_last().drop_last().drop_last() =~= h);
    assert(h.drop_last() =~= seq![h[0], h[1], h[2], h[3]]);
    assert(h.drop_last().drop_last() =~= seq![h[0], h[1], h[2]]);
    assert(h.drop_last().drop_last().drop_last() =~= seq![h[0], h[1]]);
    assert(h.drop_last().drop_last().drop_last().drop_last() =~= seq![h[0]]);
    assert(seq![h[0]].drop_last() =~= Seq::<u8>::empty());
}

/// Different hashes are stored under different integers, so looking a
/// picture up by its stored hash finds exactly the pictures with that hash.
pub proof fn lemma_hash_value_injective(a: Seq<u8>, b: Seq<u8>)
    requires
        a.len() == 5,
        b.len() == 5,
        hash_value(a) == hash_value(b),
    ensures
        a == b,
{
    lemma_hash_value_expanded(a);
    lemma_hash_value_expanded(b);
    let (a0, a1, a2, a3, a4) = (a[0], a[1], a[2], a[3], a[4]);
    let (b0, b1, b2, b3, b4) = (b[0], b[1], b[2], b[3], b[4]);
    assert(a0 == b0 && a1 == b1 && a2 == b2 && a3 == b3 && a4 == b4) by (nonlinear_arith)
        requires
            (if a0 >= 128 {
                a0 * 0x100_0000_0000_0000 + a1 * 0x1_0000_0000_0000 + a2 * 0x100_0000_0000 + a3
                    * 0x1_0000_0000 + a4 * 0x100_0000 - 0x1_0000_0000_0000_0000
            } else {
                a0 * 0x100_0000_0000_0000 + a1 * 0x1_0000_0000_0000 + a2 * 0x100_0000_0000 + a3
                    * 0x1_0000_0000 + a4 * 0x100_0000
            }) == (if b0 >= 128 {
                b0 * 0x100_0000_0000_0000 + b1 * 0x1_0000_0000_0000 + b2 * 0x100_0000_0000 + b3
                    * 0x1_0000_0000 + b4 * 0x100_0000 - 0x1_0000_0000_0000_0000
            } else {
                b0 * 0x100_0000_0000_0000 + b1 * 0x1_0000_0000_0000 + b2 * 0x100_0000_0000 + b3
                    * 0x1_0000_0000 + b4 * 0x100_0000
            }),
    ;
    assert(a =~= b);
}

/// A stored hash never uses its lowest three bytes.
pub proof fn lemma_hash_value_low_bytes_zero(h: Seq<u8>)
    requires
        h.len() == 5,
    ensures
        hash_value(h) % 0x100_0000 == 0,
{
    lemma_hash_value_expanded(h);
    let u = h[0] * 0x100_0000_0000_0000 + h[1] * 0x1_0000_0000_0000 + h[2] * 0x100_0000_0000 + h[3]
        * 0x1_0000_0000 + h[4] * 0x100_0000;
    let q = h[0] * 0x1_0000_0000 + h[1] * 0x100_0000 + h[2] * 0x1_0000 + h[3] * 0x100 + h[4];
    assert(u == q * 0x100_0000);
    assert((q * 0x100_0000) % 0x100_0000 == 0) by (nonlinear_arith);
    assert(((q - 0x100_0000_0000) * 0x100_0000) % 0x100_0000 == 0) by (nonlinear_arith);
    assert(u - 0x1_0000_0000_0000_0000 == (q - 0x100_0000_0000) * 0x100_0000);
}

} // verus!
