//! Encoding a captured frame as the PNG data URL the picker window displays.

use vstd::prelude::*;
use image::ImageEncoder;

verus! {

#[verifier::external_type_specification]
#[verifier::external_body]
pub struct ExImageError(image::ImageError);

/// The PNG file that `image`'s PNG encoder (default compression and filter)
/// writes for an RGBA8 frame, or `None` where it reports an error.
pub uninterp spec fn png_rgba8_encoding(rgba: Seq<u8>, width: u32, height: u32) -> Option<Seq<u8>>;

/// Calls `image::codecs::png::PngEncoder::write_image` on an RGBA8 frame.
///
/// Claimed: the encoder's output (or its failure) is a function of the pixels
/// and the dimensions alone, named `png_rgba8_encoding`; a zero width or
/// height is refused (the `png` crate rejects them when writing the header);
/// any other frame is encoded, since writing into a `Vec` cannot fail, an RGBA8
/// frame passes the colour and buffer-size checks, and the image data is cut
/// into chunks below the chunk limit; the output is a `Vec`, so no longer
/// than `isize::MAX`. The encoder panics when the buffer is not
/// `width * height * 4` bytes long, hence `requires`.
#[verifier::external_body]
fn png_encode_rgba8(rgba: &[u8], width: u32, height: u32) -> (res: Result<Vec<u8>, image::ImageError>)
    requires
        rgba@.len() == width * height * 4,
    ensures
        res is Ok <==> png_rgba8_encoding(rgba@, width, height) is Some,
        res matches Ok(png) ==> png@ == png_rgba8_encoding(rgba@, width, height)->0,
        res matches Ok(png) ==> png@.len() <= isize::MAX,
        width == 0 || height == 0 ==> res is Err,
        width > 0 && height > 0 ==> res is Ok,
{
    let mut png: Vec<u8> = Vec::new();
    match image::codecs::png::PngEncoder::new(&mut png).write_image(
        rgba,
        width,
        height,
        image::ExtendedColorType::Rgba8,
    ) {
        Ok(()) => Ok(png),
        Err(e) => Err(e),
    }
}

/// Calls `to_string` (its `Display`) on an `image::ImageError`.
///
/// Nothing is claimed of the text: it is the crate's own wording of the error.
#[verifier::external_body]
fn image_error_text(e: &image::ImageError) -> String {
    e.to_string()
}

/// The character of a base64 digit in the standard alphabet (RFC 4648).
pub open spec fn base64_char(v: int) -> char {
    if v < 26 {
        (v + 65) as char
    } else if v < 52 {
        (v + 71) as char
    } else if v < 62 {
        (v - 4) as char
    } else if v == 62 {
        '+'
    } else {
        '/'
    }
}

/// Standard base64 (RFC 4648, section 4) with `=` padding.
pub open spec fn base64_text(b: Seq<u8>) -> Seq<char>
    decreases b.len(),
{
    if b.len() == 0 {
        Seq::empty()
    } else if b.len() == 1 {
        seq![base64_char(b[0] as int / 4), base64_char((b[0] as int % 4) * 16), '=', '=']
    } else if b.len() == 2 {
        seq![
            base64_char(b[0] as int / 4),
            base64_char((b[0] as int % 4) * 16 + b[1] as int / 16),
            base64_char((b[1] as int % 16) * 4),
            '=',
        ]
    } else {
        seq![
            base64_char(b[0] as int / 4),
            base64_char((b[0] as int % 4) * 16 + b[1] as int / 16),
            base64_char((b[1] as int % 16) * 4 + b[2] as int / 64),
            base64_char(b[2] as int % 64),
        ] + base64_text(b.skip(3))
    }
}

/// Calls `base64::Engine::encode` with `base64::engine::general_purpose::STANDARD`.
///
/// Claimed: the result is the standard base64 text of the bytes with `=`
/// padding, as the crate documents for this engine. The crate panics when the
/// encoded length overflows `usize`, hence `requires`.
#[verifier::external_body]
fn base64_standard(bytes: &[u8]) -> (s: String)
    requires
        bytes@.len() / 3 * 4 + 4 <= usize::MAX,
    ensures
        s@ == base64_text(bytes@),
{
    base64::Engine::encode(&base64::engine::general_purpose::STANDARD, bytes)
}

/// `data:image/png;base64,` followed by the base64 text of the PNG file.
pub open spec fn png_data_url(png: Seq<u8>) -> Seq<char> {
    "data:image/png;base64,"@ + base64_text(png)
}

/// The data URL of a PNG file.
pub fn capture_data_url(png: &[u8]) -> (url: String)
    requires
        png@.len() <= isize::MAX,
    ensures
        url@ == png_data_url(png@),
{
    let mut url = String::from_str("data:image/png;base64,");
    let encoded = base64_standard(png);
    url.append(encoded.as_str());
    url
}

/// The prefix of the message shown when a frame cannot be encoded.
pub open spec fn encode_error_prefix() -> Seq<char> {
    "无法编码取色画面："@
}

/// Encodes an RGBA8 frame as a PNG data URL for the picker window.
pub fn encode_capture_image(rgba: &[u8], width: u32, height: u32) -> (res: Result<String, String>)
    requires
        rgba@.len() == width * height * 4,
    ensures
        res is Ok <==> png_rgba8_encoding(rgba@, width, height) is Some,
        res matches Ok(url) ==> url@ == png_data_url(
            png_rgba8_encoding(rgba@, width, height)->0,
        ),
        res matches Err(msg) ==> msg@.len() >= encode_error_prefix().len() && msg@.subrange(
            0,
            encode_error_prefix().len() as int,
        ) == encode_error_prefix(),
        res is Ok <==> width > 0 && height > 0,
{
    match png_encode_rgba8(rgba, width, height) {
        Ok(png) => Ok(capture_data_url(png.as_slice())),
        Err(e) => {
            let mut msg = String::from_str("无法编码取色画面：");
            let ghost prefix = msg@;
            msg.append(image_error_text(&e).as_str());
            assert(msg@.subrange(0, prefix.len() as int) =~= prefix);
            Err(msg)
        },
    }
}

} // verus!
