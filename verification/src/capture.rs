//! What the clipboard capture computes from copied content: content hashes,
//! new image file names, PNG encoding of raw bitmaps, text previews of files,
//! and the decisions about what to record and what to analyse further.
use vstd::prelude::*;
use crate::text::{chars_of, string_from_chars, extend_chars, extend_str};
use crate::paths::{has_extension_in, image_extensions, text_extensions, is_image_file, is_text_file};

verus! {

/// Name for the SHA-256 digest of `data`.
pub uninterp spec fn sha256(data: Seq<u8>) -> Seq<u8>;

/// `sha2::Sha256::digest`: the SHA-256 digest of `data`, 32 bytes long.
#[verifier::external_body]
fn sha256_digest(data: &[u8]) -> (d: Vec<u8>)
    ensures
        d@ == sha256(data@),
        d@.len() == 32,
{
    <sha2::Sha256 as sha2::Digest>::digest(data).to_vec()
}

/// The lower-case hexadecimal digit for `n < 16`.
pub open spec fn hex_digit(n: nat) -> char {
    if n < 10 {
        ((n + 48) as u32) as char
    } else {
        ((n + 87) as u32) as char
    }
}

/// `data` in lower-case hexadecimal, two digits per byte, high nibble first.
pub open spec fn hex_lower(data: Seq<u8>) -> Seq<char>
    decreases data.len(),
{
    if data.len() == 0 {
        seq![]
    } else {
        hex_lower(data.drop_last()) + seq![hex_digit((data.last() / 16) as nat), hex_digit((data.last() % 16) as nat)]
    }
}

/// `hex::encode`: `data` in lower-case hexadecimal, two digits per byte.
#[verifier::external_body]
fn hex_encode(data: &[u8]) -> (s: String)
    ensures
        s@ == hex_lower(data@),
{
    hex::encode(data)
}

proof fn lemma_hex_len(data: Seq<u8>)
    ensures
        hex_lower(data).len() == 2 * data.len(),
    decreases data.len(),
{
    if data.len() > 0 {
        lemma_hex_len(data.drop_last());
    }
}

/// The hash under which content is recorded: its SHA-256 digest in lower-case hex.
pub open spec fn content_hash(data: Seq<u8>) -> Seq<char> {
    hex_lower(sha256(data))
}

/// The hash that identifies copied content (text, a path, or image bytes):
/// the SHA-256 digest in lower-case hexadecimal, 64 characters.
pub fn calculate_hash(data: &[u8]) -> (h: String)
    ensures
        h@ == content_hash(data@),
        h@.len() == 64,
{
    let d = sha256_digest(data);
    proof {
        lemma_hex_len(d@);
    }
    hex_encode(d.as_slice())
}

/// Whether `c` is a lower-case hexadecimal digit.
pub open spec fn is_lower_hex(c: char) -> bool {
    (48 <= (c as u32) && (c as u32) <= 57) || (97 <= (c as u32) && (c as u32) <= 102)
}

/// Whether `s` is a random (version 4) UUID in hyphenated lower-case form.
pub open spec fn is_uuid_v4_text(s: Seq<char>) -> bool {
    &&& s.len() == 36
    &&& forall|i: int|
        0 <= i < 36 ==> if i == 8 || i == 13 || i == 18 || i == 23 {
            #[trigger] s[i] == '-'
        } else {
            is_lower_hex(s[i])
        }
    &&& s[14] == '4'
    &&& (s[19] == '8' || s[19] == '9' || s[19] == 'a' || s[19] == 'b')
}

/// `uuid::Uuid::new_v4().to_string()`: a fresh random UUID, hyphenated, in
/// lower case, with the version digit 4 and an RFC variant digit.  Which UUID
/// comes back is left open.
#[verifier::external_body]
fn random_uuid_text() -> (s: String)
    ensures
        is_uuid_v4_text(s@),
{
    uuid::Uuid::new_v4().to_string()
}

/// The file name under which a captured image with identifier `uuid` is saved.
pub fn image_file_name(uuid: &str) -> (name: String)
    ensures
        name@ == uuid@ + ".png"@,
{
    let mut v = chars_of(uuid);
    extend_str(&mut v, ".png");
    string_from_chars(v.as_slice())
}

/// A fresh file name for a captured image: a random UUID followed by `.png`.
pub fn new_image_file_name() -> (name: String)
    ensures
        exists|u: Seq<char>| is_uuid_v4_text(u) && name@ == u + ".png"@,
{
    let u = random_uuid_text();
    image_file_name(u.as_str())
}

/// A decoded image as plain values: its dimensions, its pixel layout
/// (channels per pixel and bytes per pixel) and its pixel bytes, row by row.
pub struct DecodedImage {
    pub width: u32,
    pub height: u32,
    pub channels: u8,
    pub bytes_per_pixel: u8,
    pub pixels: Vec<u8>,
}

/// The plain form of a decoded image.
pub open spec fn decoded_view(d: DecodedImage) -> (u32, u32, u8, u8, Seq<u8>) {
    (d.width, d.height, d.channels, d.bytes_per_pixel, d.pixels@)
}

/// Name for what `image::load_from_memory` makes of `bytes` (format guessed
/// from the content, default limits): the decoded image's width, height,
/// channels per pixel, bytes per pixel and pixel bytes, or nothing when the
/// bytes do not decode.
pub uninterp spec fn decoded_image(bytes: Seq<u8>) -> Option<(u32, u32, u8, u8, Seq<u8>)>;

/// `image::load_from_memory`: decodes image bytes, guessing the format from
/// their content, and hands the image out as plain values (`width`,
/// `height`, the colour type's `channel_count` and `bytes_per_pixel`, and
/// `as_bytes`); `None` where decoding fails.
#[verifier::external_body]
pub(crate) fn decode_image(bytes: &[u8]) -> (img: Option<DecodedImage>)
    ensures
        match img {
            Some(d) => decoded_image(bytes@) == Some(decoded_view(d)),
            None => decoded_image(bytes@) is None,
        },
{
    match image::load_from_memory(bytes) {
        Ok(img) => Some(DecodedImage {
            width: img.width(),
            height: img.height(),
            channels: img.color().channel_count(),
            bytes_per_pixel: img.color().bytes_per_pixel(),
            pixels: img.as_bytes().to_vec(),
        }),
        Err(_) => None,
    }
}

/// Whether a `width` by `height` RGBA bitmap fits in `len` bytes, with the
/// byte count `4 * width * height` computed (factor by factor) without overflow.
pub open spec fn rgba_fits(width: u32, height: u32, len: nat) -> bool {
    4 * width <= usize::MAX && 4 * width * height <= usize::MAX && 4 * width * height <= len
}

/// The eight bytes every PNG file begins with.
pub open spec fn png_signature() -> Seq<u8> {
    seq![137u8, 80u8, 78u8, 71u8, 13u8, 10u8, 26u8, 10u8]
}

/// Name for the PNG file `image`'s PNG encoder writes for a `width` by
/// `height` image of 8-bit RGBA `pixels` (default compression and filter).
pub uninterp spec fn png_rgba8(width: u32, height: u32, pixels: Seq<u8>) -> Seq<u8>;

/// `image::codecs::png::PngEncoder::write_image` for 8-bit RGBA pixels, into
/// memory (the encoder `DynamicImage::write_to` runs for an RGBA image in PNG
/// format).  The encoder asserts that the buffer holds exactly `4 * width *
/// height` bytes; it refuses a zero width or height and, writing into memory,
/// fails on nothing else.  Its output, a function of the dimensions and the
/// pixels, starts with the PNG signature.
#[verifier::external_body]
fn encode_rgba_png(width: u32, height: u32, pixels: &[u8]) -> (png: Option<Vec<u8>>)
    requires
        pixels@.len() == 4 * width * height,
    ensures
        png is Some <==> (width > 0 && height > 0),
        png matches Some(b) ==> b@ == png_rgba8(width, height, pixels@),
        png matches Some(b) ==> b@.len() >= 8 && b@.subrange(0, 8) == png_signature(),
{
    let mut out: Vec<u8> = Vec::new();
    let encoder = image::codecs::png::PngEncoder::new(&mut out);
    match image::ImageEncoder::write_image(encoder, pixels, width, height, image::ExtendedColorType::Rgba8) {
        Ok(()) => Some(out),
        Err(_) => None,
    }
}

/// Encodes a raw RGBA clipboard bitmap as PNG, its dimensions cut to 32 bits.
/// There is no PNG when the bitmap holds fewer bytes than those dimensions
/// need (`ImageBuffer::from_raw` refuses it) or when a dimension is zero (the
/// PNG encoder refuses it); otherwise the PNG comes back.  A bitmap with more
/// bytes than its dimensions need is not accepted: the encoder would panic.
pub fn rgba_to_png(width: usize, height: usize, bytes: Vec<u8>) -> (png: Option<Vec<u8>>)
    requires
        rgba_fits(width as u32, height as u32, bytes@.len()) ==> bytes@.len() == 4 * (width as u32) * (
        height as u32),
    ensures
        png is Some <==> (rgba_fits(width as u32, height as u32, bytes@.len()) && width as u32 > 0
            && height as u32 > 0),
        png matches Some(b) ==> b@ == png_rgba8(width as u32, height as u32, bytes@),
        png matches Some(b) ==> b@.len() >= 8 && b@.subrange(0, 8) == png_signature(),
{
    let w = width as u32;
    let h = height as u32;
    let needed = match 4usize.checked_mul(w as usize) {
        Some(n) => n.checked_mul(h as usize),
        None => None,
    };
    match needed {
        Some(n) => {
            assert(n == 4 * w * h) by (nonlinear_arith)
                requires
                    n == (4 * w) * h,
            ;
            if n <= bytes.len() {
                encode_rgba_png(w, h, bytes.as_slice())
            } else {
                None
            }
        },
        None => {
            proof {
                if 4 * w <= usize::MAX {
                    assert(4 * w * h == (4 * w) * h) by (nonlinear_arith);
                }
            }
            None
        },
    }
}

/// Name for the text `String::from_utf8_lossy` gives for `bytes`.
pub uninterp spec fn utf8_lossy(bytes: Seq<u8>) -> Seq<char>;

/// Whether all bytes are ASCII.
pub open spec fn all_ascii(bytes: Seq<u8>) -> bool {
    forall|i: int| 0 <= i < bytes.len() ==> #[trigger] bytes[i] < 128
}

/// `String::from_utf8_lossy`: the bytes read as UTF-8 with each invalid
/// sequence replaced by U+FFFD.  Empty bytes give empty text and only empty
/// bytes do; ASCII bytes are read one character each.
#[verifier::external_body]
fn utf8_lossy_string(bytes: &[u8]) -> (s: String)
    ensures
        s@ == utf8_lossy(bytes@),
        s@.len() == 0 <==> bytes@.len() == 0,
        all_ascii(bytes@) ==> s@ == bytes@.map_values(|b: u8| (b as u32) as char),
{
    String::from_utf8_lossy(bytes).into_owned()
}

/// How many leading bytes of a file are read for its preview (256 KiB).
pub const PREVIEW_LIMIT: usize = 262144;

/// How many leading bytes are searched for a NUL that marks a binary file.
pub const BINARY_PROBE_LEN: usize = 1024;

/// Whether the first `BINARY_PROBE_LEN` bytes hold a NUL byte.
pub open spec fn looks_binary(bytes: Seq<u8>) -> bool {
    exists|i: int| 0 <= i < bytes.len() && i < BINARY_PROBE_LEN && bytes[i] == 0
}

/// The preview of a text file from its leading bytes: none for a file that
/// looks binary or is empty, else the bytes read as (lossy) UTF-8.
pub open spec fn spec_text_preview(bytes: Seq<u8>) -> Option<Seq<char>> {
    if looks_binary(bytes) || bytes.len() == 0 {
        None
    } else {
        Some(utf8_lossy(bytes))
    }
}

/// Builds the preview of a text file from the bytes read from its start.
pub fn text_preview(bytes: &[u8]) -> (p: Option<String>)
    ensures
        match p {
            Some(s) => spec_text_preview(bytes@) == Some(s@),
            None => spec_text_preview(bytes@) is None,
        },
{
    let check = if bytes.len() < BINARY_PROBE_LEN { bytes.len() } else { BINARY_PROBE_LEN };
    let mut i: usize = 0;
    while i < check
        invariant
            i <= check,
            check <= bytes@.len(),
            check <= BINARY_PROBE_LEN,
            forall|j: int| 0 <= j < i ==> bytes@[j] != 0,
        decreases check - i,
    {
        if bytes[i] == 0 {
            return None;
        }
        i += 1;
    }
    let text = utf8_lossy_string(bytes);
    if bytes.len() == 0 {
        None
    } else {
        Some(text)
    }
}


/// Only a NUL byte marks a file as binary: non-empty bytes without a zero byte
/// among the first 1024 get their lossy UTF-8 text as preview (tabs, line
/// feeds and every other byte included), bytes with a zero byte there get no
/// preview, and neither do empty bytes.
pub proof fn law_preview_unless_nul(bytes: Seq<u8>)
    ensures
        (bytes.len() > 0 && forall|i: int| 0 <= i < bytes.len() && i < 1024 ==> #[trigger] bytes[i] != 0u8)
            ==> spec_text_preview(bytes) == Some(utf8_lossy(bytes)),
        (exists|i: int| 0 <= i < bytes.len() && i < 1024 && #[trigger] bytes[i] == 0u8)
            ==> spec_text_preview(bytes) is None,
        bytes.len() == 0 ==> spec_text_preview(bytes) is None,
{
}
} // verus!
