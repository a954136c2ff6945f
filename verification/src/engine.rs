//! The fingerprint engine: from the bytes of an image file to its fingerprint.

use vstd::prelude::*;
use crate::fingerprint::{bits_of, bytes_for, hamming, lemma_hamming_self, Fingerprint};

verus! {

/// Largest number of bits a hash grid may have.
pub const MAX_HASH_BITS: u32 = 0xFFFF_FFF8;

/// Why the bytes of a file hold no image that can be hashed.
#[derive(Clone, Copy, Debug, PartialEq, Eq, Structural)]
pub enum DecodeFailure {
    /// The bytes are not a well-formed image of a known format.
    Malformed,
    /// The format, or a feature of it, has no decoder here.
    Unsupported,
    /// Decoding needs more memory than the decoder allows.
    TooLarge,
    /// The image data ends too early.
    Truncated,
    /// The decoder refused the image for another reason.
    Rejected,
}

/// Why a candidate file gave no fingerprint.
#[derive(Clone, Copy, Debug, PartialEq, Eq, Structural)]
pub enum DecodeError {
    /// The file could not be read.
    Unreadable,
    /// The file was read and holds no image that can be hashed.
    Undecodable(DecodeFailure),
}

/// The grid of a gradient hash: `width` comparisons in each of `height` rows.
#[derive(Clone, Copy, Debug)]
pub struct HashConfig {
    width: u32,
    height: u32,
}

/// Whether a grid of this size can be hashed.
pub open spec fn valid_grid(width: u32, height: u32) -> bool {
    1 <= width && 1 <= height && width * height <= MAX_HASH_BITS
}

impl HashConfig {
    #[verifier::type_invariant]
    spec fn grid_is_valid(self) -> bool {
        valid_grid(self.width, self.height)
    }

    /// Width of the grid.
    pub closed spec fn grid_width(&self) -> u32 {
        self.width
    }

    /// Height of the grid.
    pub closed spec fn grid_height(&self) -> u32 {
        self.height
    }

    /// Bits in a fingerprint made with this grid.
    pub open spec fn bits(&self) -> nat {
        (self.grid_width() * self.grid_height()) as nat
    }

    /// A grid of `width` by `height` bits; `None` when a side is zero or the
    /// grid has more than `MAX_HASH_BITS` bits.
    pub fn new(width: u32, height: u32) -> (r: Option<HashConfig>)
        ensures
            r is Some <==> valid_grid(width, height),
            r matches Some(c) ==> c.grid_width() == width && c.grid_height() == height,
    {
        assert(width * height <= 0xFFFF_FFFF * 0xFFFF_FFFF) by (nonlinear_arith)
            requires
                width <= 0xFFFF_FFFF,
                height <= 0xFFFF_FFFF,
        ;
        if width >= 1 && height >= 1 && width as u64 * height as u64 <= MAX_HASH_BITS as u64 {
            Some(HashConfig { width, height })
        } else {
            None
        }
    }

    /// Width of the grid.
    pub fn width(&self) -> (r: u32)
        ensures
            r == self.grid_width(),
    {
        self.width
    }

    /// Height of the grid.
    pub fn height(&self) -> (r: u32)
        ensures
            r == self.grid_height(),
    {
        self.height
    }

    /// Bits in a fingerprint made with this grid.
    pub fn bit_len(&self) -> (r: u32)
        ensures
            r == self.bits(),
            1 <= r <= MAX_HASH_BITS,
    {
        proof {
            use_type_invariant(self);
            assert(1 <= self.width * self.height) by (nonlinear_arith)
                requires
                    1 <= self.width,
                    1 <= self.height,
            ;
        }
        self.width * self.height
    }
}

impl Default for HashConfig {
    /// The grid of 12 by 12 bits.
    fn default() -> (r: HashConfig)
        ensures
            r.grid_width() == 12,
            r.grid_height() == 12,
    {
        HashConfig { width: 12, height: 12 }
    }
}

/// The error type of the `image` crate, carried from the decoder to
/// `failure_kind` and not looked into.
#[verifier::external_type_specification]
#[verifier::external_body]
pub struct ExImageError(image::ImageError);

/// The bytes of the gradient hash that `image_hasher` gives, on a grid of
/// `width` by `height`, to the image that `image` decodes from `bytes`;
/// `None` where `image` decodes none.
pub uninterp spec fn gradient_hash(bytes: Seq<u8>, width: u32, height: u32) -> Option<Seq<u8>>;

/// Decodes `bytes` with `image::load_from_memory` and hashes the image with
/// `image_hasher::Hasher::hash_image`, set to the `Gradient` algorithm and a
/// hash size of `width` by `height`. Trusted: an image is decoded or not, and
/// hashed to these bytes, by the file's bytes and the grid alone; the hash has
/// one bit per grid cell, packed eight to a byte.
#[verifier::external_body]
fn decode_and_hash(bytes: &[u8], width: u32, height: u32) -> (r: Result<
    Vec<u8>,
    image::ImageError,
>)
    requires
        valid_grid(width, height),
    ensures
        r is Ok <==> gradient_hash(bytes@, width, height) is Some,
        r matches Ok(v) ==> gradient_hash(bytes@, width, height) == Some(v@) && v@.len()
            == bytes_for((width * height) as nat),
{
    let decoded = image::load_from_memory(bytes)?;
    let hasher = image_hasher::HasherConfig::new()
        .hash_alg(image_hasher::HashAlg::Gradient)
        .hash_size(width, height)
        .to_hasher();
    Ok(hasher.hash_image(&decoded).as_bytes().to_vec())
}

/// Tells the variants of `image::ImageError` apart.
#[verifier::external_body]
fn failure_kind(error: &image::ImageError) -> DecodeFailure {
    match error {
        image::ImageError::Decoding(_) => DecodeFailure::Malformed,
        image::ImageError::Unsupported(_) => DecodeFailure::Unsupported,
        image::ImageError::Limits(_) => DecodeFailure::TooLarge,
        image::ImageError::IoError(_) => DecodeFailure::Truncated,
        image::ImageError::Encoding(_) => DecodeFailure::Rejected,
        image::ImageError::Parameter(_) => DecodeFailure::Rejected,
    }
}

/// The fingerprint of the image held in `bytes`, where there is one.
pub open spec fn image_fingerprint(bytes: Seq<u8>, width: u32, height: u32) -> Option<Seq<bool>> {
    match gradient_hash(bytes, width, height) {
        Some(hash) => Some(bits_of(hash, (width * height) as nat)),
        None => None,
    }
}

/// Fingerprints the image held in `bytes`.
///
/// The fingerprint has one bit for each cell of the grid, whatever the size of
/// the image. Bytes that hold no decodable image give an error and no
/// fingerprint.
pub fn hash_image(config: &HashConfig, bytes: &[u8]) -> (r: Result<Fingerprint, DecodeError>)
    ensures
        r is Ok <==> image_fingerprint(bytes@, config.grid_width(), config.grid_height()) is Some,
        r matches Ok(f) ==> Some(f@) == image_fingerprint(
            bytes@,
            config.grid_width(),
            config.grid_height(),
        ) && Some(f.bytes()) == gradient_hash(bytes@, config.grid_width(), config.grid_height())
            && f@.len() == config.bits(),
        r matches Err(e) ==> e is Undecodable,
{
    proof {
        use_type_invariant(config);
    }
    match decode_and_hash(bytes, config.width, config.height) {
        Ok(hash) => Ok(Fingerprint::from_exact_bytes(config.width * config.height, hash)),
        Err(error) => Err(DecodeError::Undecodable(failure_kind(&error))),
    }
}

/// Fingerprints a candidate file from what reading it gave: its bytes, or
/// `None` where it could not be read.
pub fn hash_file(config: &HashConfig, contents: Option<&[u8]>) -> (r: Result<
    Fingerprint,
    DecodeError,
>)
    ensures
        r is Ok <==> contents is Some && image_fingerprint(
            contents->0@,
            config.grid_width(),
            config.grid_height(),
        ) is Some,
        r matches Ok(f) ==> Some(f@) == image_fingerprint(
            contents->0@,
            config.grid_width(),
            config.grid_height(),
        ) && f@.len() == config.bits(),
        r == Err::<Fingerprint, DecodeError>(DecodeError::Unreadable) <==> contents is None,
{
    match contents {
        Some(bytes) => hash_image(config, bytes),
        None => Err(DecodeError::Unreadable),
    }
}

/// Byte-identical image files have fingerprints at Hamming distance zero.
pub proof fn lemma_identical_images_at_distance_zero(
    a: Seq<u8>,
    b: Seq<u8>,
    width: u32,
    height: u32,
)
    requires
        a == b,
        image_fingerprint(a, width, height) is Some,
    ensures
        image_fingerprint(b, width, height) is Some,
        hamming(image_fingerprint(a, width, height)->0, image_fingerprint(b, width, height)->0)
            == 0,
{
    lemma_hamming_self(image_fingerprint(a, width, height)->0);
}

/// Every fingerprint of a grid has one bit for each of its cells.
pub proof fn lemma_fingerprint_width(bytes: Seq<u8>, width: u32, height: u32)
    requires
        image_fingerprint(bytes, width, height) is Some,
    ensures
        image_fingerprint(bytes, width, height)->0.len() == width * height,
{
}

} // verus!
