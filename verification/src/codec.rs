//! Decoding and encoding, both done by the `image` crate.
//!
//! Nothing is known here of what a decoder or an encoder computes: a decoded
//! image is carried from the one to the other unread. What the `image` crate
//! returns is given names, and what is fixed here is how its calls follow
//! one another and what the caller sees of each result: contents are decoded
//! as the format whose signature they begin with, a failure carries the
//! message of the call that failed, and a format without an encoder fails
//! before any encoder is asked.

use crate::error::{ConvertError, ErrorKind, ErrorView};
use crate::format::ImageFormat;
use image::ImageFormat as SourceFormat;
use image::{DynamicImage, ImageError};
use vstd::prelude::*;
use vstd::string::*;

verus! {

/// A decoded image of the `image` crate. Its pixels are not looked at.
#[verifier::external_type_specification]
#[verifier::external_body]
pub struct ExDynamicImage(image::DynamicImage);

/// The error type of the `image` crate.
#[verifier::external_type_specification]
#[verifier::external_body]
pub struct ExImageError(image::ImageError);

/// The image formats that the `image` crate tells apart. Which one a value
/// is, is not looked at.
#[verifier::external_type_specification]
#[verifier::external_body]
pub struct ExSourceFormat(SourceFormat);

/// The format whose signature `contents` begins with, or the error for
/// contents that begin with none: what `image::guess_format` returns.
pub uninterp spec fn signature_of(contents: Seq<u8>) -> Result<SourceFormat, ImageError>;

/// The image that `contents` holds when read as `format`, or the error for
/// contents that are no such image: what `image::load_from_memory_with_format`
/// returns.
pub uninterp spec fn decoded_as(contents: Seq<u8>, format: SourceFormat) -> Result<
    DynamicImage,
    ImageError,
>;

/// Whether the samples of `image` fill its buffer exactly: the buffer holds
/// width times height pixels and nothing beyond them. The images that
/// `image::load_from_memory_with_format` returns are so.
pub uninterp spec fn packed(image: DynamicImage) -> bool;

/// The bytes of `image` as lossless WebP, or the error for an image that
/// cannot be encoded so: what `image::DynamicImage::write_to` writes for the
/// WebP format.
pub uninterp spec fn webp_of(image: DynamicImage) -> Result<Seq<u8>, ImageError>;

/// The message of an error of the `image` crate: what `to_string` returns
/// for it.
pub uninterp spec fn error_message(error: ImageError) -> Seq<char>;

/// Calls `image::guess_format`, which holds the leading bytes of `contents`
/// against a fixed table of signatures and reads nothing else. It claims that
/// the result is `signature_of` of the contents.
#[verifier::external_body]
fn guess_format(contents: &[u8]) -> (guessed: Result<SourceFormat, ImageError>)
    ensures
        guessed == signature_of(contents@),
{
    image::guess_format(contents)
}

/// Calls `image::load_from_memory_with_format`, which decodes `contents` with
/// the decoder of `format` and reads nothing but these two. It claims that
/// the result is `decoded_as` of them, and that an image which is returned
/// is packed: its buffer is made at the length that its size asks for.
#[verifier::external_body]
fn load_image(contents: &[u8], format: SourceFormat) -> (loaded: Result<DynamicImage, ImageError>)
    ensures
        loaded == decoded_as(contents@, format),
        loaded is Ok ==> packed(loaded->Ok_0),
{
    image::load_from_memory_with_format(contents, format)
}

/// Calls `image::DynamicImage::write_to` with the WebP format on a buffer in
/// memory and hands back the buffer. The encoder panics on an image whose
/// buffer is longer than its size asks for, so the image must be packed. It
/// claims that the bytes, or else the error, are `webp_of` of the image.
#[verifier::external_body]
fn write_webp(image: &DynamicImage) -> (written: Result<Vec<u8>, ImageError>)
    requires
        packed(*image),
    ensures
        match written {
            Ok(data) => webp_of(*image) == Ok::<Seq<u8>, ImageError>(data@),
            Err(error) => webp_of(*image) == Err::<Seq<u8>, ImageError>(error),
        },
{
    let mut buffer = std::io::Cursor::new(Vec::new());
    image.write_to(&mut buffer, image::ImageFormat::WebP)?;
    Ok(buffer.into_inner())
}

/// Calls `to_string` on an error of the `image` crate. It claims that the
/// text is `error_message` of the error.
#[verifier::external_body]
fn error_text(error: &ImageError) -> (text: String)
    ensures
        text@ == error_message(*error),
{
    error.to_string()
}

/// Whether `contents` begins with the signature of an image format.
pub open spec fn has_signature(contents: Seq<u8>) -> bool {
    signature_of(contents) is Ok
}

/// The cause given when the target format has no encoder.
pub open spec fn unsupported_format_cause() -> Seq<char> {
    "Unsupported image format"@
}

/// The failure to decode the file at `path` that `error` stands for: it
/// carries the message of the error.
pub open spec fn decode_failure(path: Seq<char>, error: ImageError) -> ErrorView {
    ErrorView { kind: ErrorKind::Decode, path, cause: error_message(error) }
}

/// The failure to encode the image of the file at `path` that `error`
/// stands for: it carries the message of the error.
pub open spec fn encode_failure(path: Seq<char>, error: ImageError) -> ErrorView {
    ErrorView { kind: ErrorKind::Encode, path, cause: error_message(error) }
}

/// What decoding the file at `path` comes to. Contents that begin with no
/// signature fail with the error of the guess. Others are read as the format
/// of their signature, and give the image or fail with the error of the
/// decoder.
pub open spec fn decoding(path: Seq<char>, contents: Seq<u8>) -> Result<DynamicImage, ErrorView> {
    match signature_of(contents) {
        Err(error) => Err(decode_failure(path, error)),
        Ok(format) => match decoded_as(contents, format) {
            Ok(image) => Ok(image),
            Err(error) => Err(decode_failure(path, error)),
        },
    }
}

/// What encoding `image`, decoded from the file at `path`, comes to. A
/// format without an encoder fails as unsupported, whatever the image. WebP
/// gives the bytes of the encoder or fails with its error.
pub open spec fn encoding(path: Seq<char>, image: DynamicImage, format: ImageFormat) -> Result<
    Seq<u8>,
    ErrorView,
> {
    if !format.spec_has_encoder() {
        Err(ErrorView { kind: ErrorKind::Encode, path, cause: unsupported_format_cause() })
    } else {
        match webp_of(image) {
            Ok(data) => Ok(data),
            Err(error) => Err(encode_failure(path, error)),
        }
    }
}

/// What the caller of `decode` sees for each result of the decoder: the
/// image as it came, or a `Decode` failure on `path` with the message of the
/// error.
pub fn decode_outcome(path: &str, loaded: Result<DynamicImage, ImageError>) -> (decoded: Result<
    DynamicImage,
    ConvertError,
>)
    ensures
        match loaded {
            Ok(image) => decoded == Ok::<DynamicImage, ConvertError>(image),
            Err(error) => decoded is Err && decoded->Err_0@ == decode_failure(path@, error),
        },
{
    match loaded {
        Ok(image) => Ok(image),
        Err(error) => Err(ConvertError::new(ErrorKind::Decode, path, error_text(&error))),
    }
}

/// What the caller of `encode` sees for each result of the encoder: the
/// bytes as they came, or an `Encode` failure on `path` with the message of
/// the error.
pub fn encode_outcome(path: &str, written: Result<Vec<u8>, ImageError>) -> (encoded: Result<
    Vec<u8>,
    ConvertError,
>)
    ensures
        match written {
            Ok(data) => encoded == Ok::<Vec<u8>, ConvertError>(data),
            Err(error) => encoded is Err && encoded->Err_0@ == encode_failure(path@, error),
        },
{
    match written {
        Ok(data) => Ok(data),
        Err(error) => Err(ConvertError::new(ErrorKind::Encode, path, error_text(&error))),
    }
}

/// Decodes the contents of the file at `path`. The format is told from the
/// signature that the contents begin with, and not from the name: contents
/// without a signature are not decoded, and those with one are decoded as an
/// image of that format, if they are one. The only failure is a `Decode`
/// failure on `path`, with the message of the call that failed. An image
/// that is returned is packed, and so fit to be encoded.
pub fn decode(path: &str, contents: &[u8]) -> (decoded: Result<DynamicImage, ConvertError>)
    ensures
        match decoded {
            Ok(image) => decoding(path@, contents@) == Ok::<DynamicImage, ErrorView>(image),
            Err(error) => decoding(path@, contents@) == Err::<DynamicImage, ErrorView>(error@),
        },
        decoded is Ok ==> packed(decoded->Ok_0),
{
    match guess_format(contents) {
        Ok(format) => decode_outcome(path, load_image(contents, format)),
        Err(error) => decode_outcome(path, Err(error)),
    }
}

/// Encodes `image`, decoded from the file at `path`, in the target format.
/// A format without an encoder always fails, with the same failure, and no
/// encoder is asked. WebP gives what the encoder gives. The only failure is
/// an `Encode` failure on `path`. Where an encoder is asked the image must be
/// packed, as every image is that `decode` returns.
pub fn encode(path: &str, image: &DynamicImage, format: &ImageFormat) -> (encoded: Result<
    Vec<u8>,
    ConvertError,
>)
    requires
        format.spec_has_encoder() ==> packed(*image),
    ensures
        match encoded {
            Ok(data) => encoding(path@, *image, *format) == Ok::<Seq<u8>, ErrorView>(data@),
            Err(error) => encoding(path@, *image, *format) == Err::<Seq<u8>, ErrorView>(error@),
        },
{
    match format {
        ImageFormat::Webp => encode_outcome(path, write_webp(image)),
        ImageFormat::Avif => Err(
            ConvertError::new(
                ErrorKind::Encode,
                path,
                String::from_str("Unsupported image format"),
            ),
        ),
    }
}

} // verus!
