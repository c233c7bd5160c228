//! The conversion of one file: from the bytes that were read to the bytes
//! that are to be written, and the path to write them to.

use crate::codec::{
    decode, decoding, encode, encoding, has_signature, unsupported_format_cause,
};
use crate::error::{ConvertError, ErrorKind, ErrorView};
use crate::format::ImageFormat;
use crate::path::{optional_view, resolve, resolved_path};
use vstd::prelude::*;
use vstd::string::*;

verus! {

/// One file to convert: where it lies, where the result goes, and the format
/// to convert it into.
#[derive(Clone, Debug, PartialEq, Eq)]
pub struct ConversionRequest {
    pub input_path: String,
    pub output_directory: Option<String>,
    pub target_format: ImageFormat,
}

/// A request, with its paths as sequences of characters.
pub struct RequestView {
    pub input_path: Seq<char>,
    pub output_directory: Option<Seq<char>>,
    pub target_format: ImageFormat,
}

impl View for ConversionRequest {
    type V = RequestView;

    open spec fn view(&self) -> RequestView {
        RequestView {
            input_path: self.input_path@,
            output_directory: optional_view(self.output_directory),
            target_format: self.target_format,
        }
    }
}

impl RequestView {
    /// The path that the converted file is written to.
    pub open spec fn output_path(self) -> Seq<char> {
        resolved_path(
            self.input_path,
            self.output_directory,
            self.target_format.spec_extension(),
        )
    }
}

/// How the conversion of one file ended: with the path that was written to,
/// or with the failure.
pub type ConversionOutcome = Result<String, ConvertError>;

/// A converted file that has yet to be written: its path and its bytes.
#[derive(Clone, Debug, PartialEq, Eq)]
pub struct Converted {
    pub output_path: String,
    pub data: Vec<u8>,
}

/// A converted file, with its path as a sequence of characters.
pub struct ConvertedView {
    pub output_path: Seq<char>,
    pub data: Seq<u8>,
}

impl View for Converted {
    type V = ConvertedView;

    open spec fn view(&self) -> ConvertedView {
        ConvertedView { output_path: self.output_path@, data: self.data@ }
    }
}

/// What the conversion of the file of `request`, whose bytes are
/// `contents`, comes to. The contents are decoded first, and bytes that are
/// no image fail as such whatever the target format is. The image is then
/// encoded in the target format, and a failure of that step is passed on. On
/// success the bytes of the encoder go to the output path of the request.
pub open spec fn conversion(request: RequestView, contents: Seq<u8>) -> Result<
    ConvertedView,
    ErrorView,
> {
    match decoding(request.input_path, contents) {
        Err(error) => Err(error),
        Ok(image) => match encoding(request.input_path, image, request.target_format) {
            Err(error) => Err(error),
            Ok(data) => Ok(ConvertedView { output_path: request.output_path(), data }),
        },
    }
}

/// A conversion succeeds on just the contents that begin with a signature
/// and decode as an image which the target format can encode. Every failure
/// is on the input path. It is a `Decode` failure where decoding fails, and
/// else an `Encode` failure: that of a format without an encoder, with its
/// own cause, or that of the encoder.
pub proof fn lemma_conversion_steps(request: RequestView, contents: Seq<u8>)
    ensures
        conversion(request, contents) is Ok ==> has_signature(contents)
            && request.target_format.spec_has_encoder(),
        conversion(request, contents) is Ok ==> conversion(request, contents)->Ok_0.output_path
            == request.output_path(),
        conversion(request, contents) is Err ==> conversion(request, contents)->Err_0.path
            == request.input_path,
        decoding(request.input_path, contents) is Err ==> conversion(request, contents)
            == Err::<ConvertedView, ErrorView>(decoding(request.input_path, contents)->Err_0)
            && conversion(request, contents)->Err_0.kind == ErrorKind::Decode,
        decoding(request.input_path, contents) is Ok && conversion(request, contents) is Err
            ==> conversion(request, contents)->Err_0.kind == ErrorKind::Encode,
        decoding(request.input_path, contents) is Ok
            && !request.target_format.spec_has_encoder() ==> conversion(request, contents)
            is Err && conversion(request, contents)->Err_0.cause == unsupported_format_cause(),
{
}

impl ConversionRequest {
    /// The request to convert the file at `input_path`.
    pub fn new(input_path: &str, output_directory: &Option<String>, target_format: ImageFormat) -> (request:
        ConversionRequest)
        ensures
            request@ == (RequestView {
                input_path: input_path@,
                output_directory: optional_view(*output_directory),
                target_format,
            }),
    {
        let output_directory = match output_directory {
            None => None,
            Some(dir) => Some(dir.clone()),
        };
        ConversionRequest { input_path: String::from_str(input_path), output_directory, target_format }
    }

    /// The path that the converted file is written to.
    pub fn output_path(&self) -> (path: String)
        ensures
            path@ == self@.output_path(),
    {
        resolve(self.input_path.as_str(), &self.output_directory, &self.target_format)
    }
}

/// The first step of a conversion, once the read was tried: the bytes of
/// the input, or an `Open` failure on its path with the cause given.
pub fn open_outcome(input_path: &str, read: Result<Vec<u8>, String>) -> (contents: Result<
    Vec<u8>,
    ConvertError,
>)
    ensures
        match read {
            Ok(bytes) => contents == Ok::<Vec<u8>, ConvertError>(bytes),
            Err(cause) => contents is Err && contents->Err_0@.kind == ErrorKind::Open
                && contents->Err_0@.path == input_path@ && contents->Err_0@.cause == cause@,
        },
{
    match read {
        Ok(bytes) => Ok(bytes),
        Err(cause) => Err(ConvertError::new(ErrorKind::Open, input_path, cause)),
    }
}

/// The step after encoding, for each result of the encoder: the bytes
/// together with the path they go to, or the failure as it came.
pub fn converted_outcome(request: &ConversionRequest, encoded: Result<Vec<u8>, ConvertError>) -> (converted:
    Result<Converted, ConvertError>)
    ensures
        match encoded {
            Ok(data) => converted is Ok && converted->Ok_0@ == (ConvertedView {
                output_path: request@.output_path(),
                data: data@,
            }),
            Err(error) => converted == Err::<Converted, ConvertError>(error),
        },
{
    match encoded {
        Ok(data) => Ok(Converted { output_path: request.output_path(), data }),
        Err(error) => Err(error),
    }
}

/// Converts the file of `request`, whose bytes are `contents`: decodes
/// them, encodes the image in the target format, and names the path to write
/// to. The result is what `conversion` says: the bytes of the encoder and
/// the output path of the request, or the failure of the first step that
/// failed.
pub fn convert(request: &ConversionRequest, contents: &[u8]) -> (converted: Result<
    Converted,
    ConvertError,
>)
    ensures
        match converted {
            Ok(done) => conversion(request@, contents@) == Ok::<ConvertedView, ErrorView>(done@),
            Err(error) => conversion(request@, contents@) == Err::<ConvertedView, ErrorView>(
                error@,
            ),
        },
{
    match decode(request.input_path.as_str(), contents) {
        Err(error) => Err(error),
        Ok(image) => converted_outcome(
            request,
            encode(request.input_path.as_str(), &image, &request.target_format),
        ),
    }
}

/// The line that reports a file as written.
pub open spec fn spec_success_line(output_path: Seq<char>) -> Seq<char> {
    "Generated: "@ + output_path
}

/// The line that reports a file as written.
pub fn success_line(output_path: &str) -> (line: String)
    ensures
        line@ == spec_success_line(output_path@),
{
    let mut line = String::from_str("Generated: ");
    line.append(output_path);
    line
}

/// The outcome of a conversion once the write was tried: the path written
/// to, or a `Write` failure on that path with the cause given.
pub fn write_outcome(converted: Converted, written: Result<(), String>) -> (outcome:
    ConversionOutcome)
    ensures
        match written {
            Ok(_) => outcome == Ok::<String, ConvertError>(converted.output_path),
            Err(cause) => outcome is Err && outcome->Err_0@.kind == ErrorKind::Write
                && outcome->Err_0@.path == converted.output_path@ && outcome->Err_0@.cause
                == cause@,
        },
{
    match written {
        Ok(_) => Ok(converted.output_path),
        Err(cause) => Err(ConvertError::new(ErrorKind::Write, converted.output_path.as_str(), cause)),
    }
}

} // verus!
