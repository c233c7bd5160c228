use image_converter::codec::{decode, encode};
use image_converter::convert::{
    convert, open_outcome, success_line, write_outcome, ConversionRequest, Converted,
};
use image_converter::error::ErrorKind;
use image_converter::format::ImageFormat;
use std::io::Cursor;

fn sample_image(width: u32, height: u32) -> image::RgbaImage {
    let mut picture = image::RgbaImage::new(width, height);
    for (x, y, pixel) in picture.enumerate_pixels_mut() {
        *pixel = image::Rgba([(x * 40) as u8, (y * 60) as u8, 7, 255]);
    }
    picture
}

fn encoded_as(picture: &image::RgbaImage, format: image::ImageFormat) -> Vec<u8> {
    let mut buffer = Cursor::new(Vec::new());
    image::DynamicImage::ImageRgba8(picture.clone()).write_to(&mut buffer, format).unwrap();
    buffer.into_inner()
}

#[test]
fn request_keeps_what_it_was_made_of() {
    let out = Some(String::from("out"));
    let request = ConversionRequest::new("root/a/img.png", &out, ImageFormat::Webp);
    assert_eq!(request.input_path, "root/a/img.png");
    assert_eq!(request.output_directory, Some(String::from("out")));
    assert_eq!(request.target_format, ImageFormat::Webp);
    let request = ConversionRequest::new("img.png", &None, ImageFormat::Avif);
    assert_eq!(request.output_directory, None);
    assert_eq!(request.target_format, ImageFormat::Avif);
}

#[test]
fn request_names_its_output_path() {
    let out = Some(String::from("out"));
    let request = ConversionRequest::new("root/a/b/img.png", &out, ImageFormat::Webp);
    assert_eq!(request.output_path(), "out/img.webp");
    let request = ConversionRequest::new("root/a/img.png", &None, ImageFormat::Webp);
    assert_eq!(request.output_path(), "root/a/img.webp");
}

#[test]
fn convert_turns_png_into_webp_without_loss() {
    let picture = sample_image(5, 3);
    let contents = encoded_as(&picture, image::ImageFormat::Png);
    let request = ConversionRequest::new("root/a/img.png", &None, ImageFormat::Webp);
    let converted = convert(&request, &contents).unwrap();
    assert_eq!(converted.output_path, "root/a/img.webp");
    assert_ne!(converted.data, contents);
    assert_eq!(image::guess_format(&converted.data).unwrap(), image::ImageFormat::WebP);
    let back = image::load_from_memory(&converted.data).unwrap().to_rgba8();
    assert_eq!(back, picture);
}

#[test]
fn convert_tells_the_format_from_the_contents() {
    let picture = sample_image(4, 4);
    let contents = encoded_as(&picture, image::ImageFormat::Bmp);
    let out = Some(String::from("out"));
    let request = ConversionRequest::new("misnamed.png", &out, ImageFormat::Webp);
    let converted = convert(&request, &contents).unwrap();
    assert_eq!(converted.output_path, "out/misnamed.webp");
    let back = image::load_from_memory(&converted.data).unwrap().to_rgba8();
    assert_eq!(back, picture);
}

#[test]
fn convert_reads_every_format_that_is_accepted() {
    let picture = sample_image(3, 2);
    let formats = [
        image::ImageFormat::Png,
        image::ImageFormat::Gif,
        image::ImageFormat::Bmp,
        image::ImageFormat::Tiff,
    ];
    for format in formats {
        let contents = encoded_as(&picture, format);
        let request = ConversionRequest::new("a/picture", &None, ImageFormat::Webp);
        let converted = convert(&request, &contents).unwrap();
        let back = image::load_from_memory(&converted.data).unwrap().to_rgba8();
        assert_eq!(back, picture);
    }
    let contents = encoded_as(&picture, image::ImageFormat::Jpeg);
    let request = ConversionRequest::new("a/picture.jpg", &None, ImageFormat::Webp);
    let converted = convert(&request, &contents).unwrap();
    let back = image::load_from_memory(&converted.data).unwrap();
    assert_eq!((back.width(), back.height()), (3, 2));
}

#[test]
fn convert_fails_to_decode_what_is_no_image() {
    let request = ConversionRequest::new("root/broken.png", &None, ImageFormat::Webp);
    let error = convert(&request, b"this is no image at all").unwrap_err();
    assert_eq!(error.kind, ErrorKind::Decode);
    assert_eq!(error.path, "root/broken.png");
    assert!(!error.cause.is_empty());
    assert!(error.message().starts_with("Failed to decode image: "));
    let error = convert(&request, b"").unwrap_err();
    assert_eq!(error.kind, ErrorKind::Decode);
}

#[test]
fn convert_fails_to_decode_a_truncated_image() {
    let picture = sample_image(16, 16);
    let mut contents = encoded_as(&picture, image::ImageFormat::Png);
    contents.truncate(contents.len() / 2);
    let request = ConversionRequest::new("cut.png", &None, ImageFormat::Webp);
    let error = convert(&request, &contents).unwrap_err();
    assert_eq!(error.kind, ErrorKind::Decode);
    assert_eq!(error.path, "cut.png");
}

#[test]
fn convert_into_a_format_without_encoder_fails_to_encode() {
    let contents = encoded_as(&sample_image(2, 2), image::ImageFormat::Png);
    let request = ConversionRequest::new("a/img.png", &None, ImageFormat::Avif);
    let error = convert(&request, &contents).unwrap_err();
    assert_eq!(error.kind, ErrorKind::Encode);
    assert_eq!(error.path, "a/img.png");
    assert_eq!(error.cause, "Unsupported image format");
    assert_eq!(error.message(), "Failed to encode image: Unsupported image format");
}

#[test]
fn decoding_fails_before_the_missing_encoder_is_noticed() {
    let request = ConversionRequest::new("a/img.png", &None, ImageFormat::Avif);
    let error = convert(&request, b"garbage").unwrap_err();
    assert_eq!(error.kind, ErrorKind::Decode);
}

#[test]
fn decode_gives_the_picture_that_was_encoded() {
    let picture = sample_image(6, 2);
    let contents = encoded_as(&picture, image::ImageFormat::Png);
    let decoded = decode("a.png", &contents).unwrap();
    assert_eq!(decoded.to_rgba8(), picture);
    let error = decode("a.png", &contents[..10]).unwrap_err();
    assert_eq!(error.kind, ErrorKind::Decode);
    assert_eq!(error.path, "a.png");
}

#[test]
fn encode_writes_webp_or_fails_for_avif() {
    let picture = sample_image(6, 2);
    let decoded = decode("a.png", &encoded_as(&picture, image::ImageFormat::Png)).unwrap();
    let data = encode("a.png", &decoded, &ImageFormat::Webp).unwrap();
    assert_eq!(&data[0..4], b"RIFF");
    assert_eq!(&data[8..12], b"WEBP");
    assert_eq!(image::load_from_memory(&data).unwrap().to_rgba8(), picture);
    let error = encode("a.png", &decoded, &ImageFormat::Avif).unwrap_err();
    assert_eq!(error.kind, ErrorKind::Encode);
    assert_eq!(error.cause, "Unsupported image format");
}

#[test]
fn encode_fails_on_an_image_that_is_too_wide() {
    let wide = encoded_as(&sample_image(16385, 1), image::ImageFormat::Png);
    let decoded = decode("wide.png", &wide).unwrap();
    assert_eq!((decoded.width(), decoded.height()), (16385, 1));
    let error = encode("wide.png", &decoded, &ImageFormat::Webp).unwrap_err();
    assert_eq!(error.kind, ErrorKind::Encode);
    assert_eq!(error.path, "wide.png");
    assert!(error.message().starts_with("Failed to encode image: "));
    let widest = encoded_as(&sample_image(16384, 1), image::ImageFormat::Png);
    let decoded = decode("widest.png", &widest).unwrap();
    assert!(encode("widest.png", &decoded, &ImageFormat::Webp).is_ok());
}

#[test]
fn convert_fails_to_encode_what_webp_cannot_hold() {
    let tall = encoded_as(&sample_image(1, 16385), image::ImageFormat::Png);
    let request = ConversionRequest::new("tall.png", &None, ImageFormat::Webp);
    let error = convert(&request, &tall).unwrap_err();
    assert_eq!(error.kind, ErrorKind::Encode);
    assert_eq!(error.path, "tall.png");
    assert_ne!(error.cause, "Unsupported image format");
}

#[test]
fn open_outcome_hands_the_bytes_on_or_names_the_failure() {
    assert_eq!(open_outcome("a.png", Ok(vec![1, 2, 3])), Ok(vec![1, 2, 3]));
    let error = open_outcome("a.png", Err(String::from("permission denied"))).unwrap_err();
    assert_eq!(error.kind, ErrorKind::Open);
    assert_eq!(error.path, "a.png");
    assert_eq!(error.cause, "permission denied");
    assert_eq!(error.message(), "Failed to open image: permission denied");
}

#[test]
fn write_outcome_reports_the_path_or_names_the_failure() {
    let converted = Converted { output_path: String::from("out/a.webp"), data: vec![9, 9] };
    assert_eq!(write_outcome(converted.clone(), Ok(())), Ok(String::from("out/a.webp")));
    let error = write_outcome(converted, Err(String::from("disk full"))).unwrap_err();
    assert_eq!(error.kind, ErrorKind::Write);
    assert_eq!(error.path, "out/a.webp");
    assert_eq!(error.cause, "disk full");
    assert_eq!(error.message(), "Failed to write image file: disk full");
}

#[test]
fn success_line_names_the_file_written() {
    assert_eq!(success_line("out/a.webp"), "Generated: out/a.webp");
    assert_eq!(success_line(""), "Generated: ");
}

#[test]
fn contents_without_a_signature_are_not_decoded() {
    let error = decode("plain.png", b"plain text under the name of a picture").unwrap_err();
    assert_eq!(error.kind, ErrorKind::Decode);
    assert_eq!(error.path, "plain.png");
    assert!(!error.cause.is_empty());
    let error = decode("empty.png", b"").unwrap_err();
    assert_eq!(error.kind, ErrorKind::Decode);
    assert_eq!(error.path, "empty.png");
}

#[test]
fn a_signature_alone_is_no_image() {
    let picture = sample_image(4, 4);
    let contents = encoded_as(&picture, image::ImageFormat::Png);
    assert_eq!(image::guess_format(&contents[..8]).unwrap(), image::ImageFormat::Png);
    let error = decode("cut.png", &contents[..8]).unwrap_err();
    assert_eq!(error.kind, ErrorKind::Decode);
    assert_eq!(error.path, "cut.png");
    let mut spoiled = contents.clone();
    spoiled[0] = 0;
    let error = decode("spoiled.png", &spoiled).unwrap_err();
    assert_eq!(error.kind, ErrorKind::Decode);
    assert_eq!(decode("whole.png", &contents).unwrap().to_rgba8(), picture);
}

#[test]
fn a_decode_failure_carries_the_message_of_the_call_that_failed() {
    let plain = b"plain text under the name of a picture";
    let expected = image::guess_format(plain).unwrap_err().to_string();
    let error = decode("plain.png", plain).unwrap_err();
    assert_eq!(error.cause, expected);
    assert_eq!(error.message(), format!("Failed to decode image: {}", expected));

    let mut cut = encoded_as(&sample_image(16, 16), image::ImageFormat::Png);
    cut.truncate(cut.len() / 2);
    let expected = image::load_from_memory_with_format(&cut, image::ImageFormat::Png)
        .unwrap_err()
        .to_string();
    let request = ConversionRequest::new("cut.png", &None, ImageFormat::Webp);
    let error = convert(&request, &cut).unwrap_err();
    assert_eq!(error.kind, ErrorKind::Decode);
    assert_eq!(error.cause, expected);
    assert!(!expected.is_empty());
}

#[test]
fn an_encode_failure_carries_the_message_of_the_encoder() {
    let wide = encoded_as(&sample_image(16385, 1), image::ImageFormat::Png);
    let decoded = decode("wide.png", &wide).unwrap();
    let expected = decoded
        .write_to(&mut Cursor::new(Vec::new()), image::ImageFormat::WebP)
        .unwrap_err()
        .to_string();
    let error = encode("wide.png", &decoded, &ImageFormat::Webp).unwrap_err();
    assert_eq!(error.kind, ErrorKind::Encode);
    assert_eq!(error.cause, expected);
    assert!(!expected.is_empty());
    assert_ne!(expected, "Unsupported image format");
    let request = ConversionRequest::new("wide.png", &None, ImageFormat::Webp);
    assert_eq!(convert(&request, &wide).unwrap_err().cause, expected);
}

#[test]
fn convert_hands_on_the_bytes_of_the_encoder() {
    let picture = sample_image(7, 5);
    let contents = encoded_as(&picture, image::ImageFormat::Png);
    let expected = encoded_as(&picture, image::ImageFormat::WebP);
    let request = ConversionRequest::new("a/img.png", &None, ImageFormat::Webp);
    let converted = convert(&request, &contents).unwrap();
    assert_eq!(converted.data, expected);
    assert!(!converted.data.is_empty());
    let decoded = decode("a/img.png", &contents).unwrap();
    assert_eq!(encode("a/img.png", &decoded, &ImageFormat::Webp).unwrap(), expected);
}

#[test]
fn contents_are_decoded_as_the_format_of_their_signature() {
    let picture = sample_image(3, 3);
    let contents = encoded_as(&picture, image::ImageFormat::Gif);
    let format = image::guess_format(&contents).unwrap();
    assert_eq!(format, image::ImageFormat::Gif);
    let expected = image::load_from_memory_with_format(&contents, format).unwrap();
    assert_eq!(decode("named.png", &contents).unwrap(), expected);
}
