use proxydeck::error::PipelineError;
use proxydeck::image::decode_artwork;
use ril::Image;
use ril::ImageFormat;
use ril::Rgb;

fn png_bytes(width: u32, height: u32) -> Vec<u8> {
    let img: Image<Rgb> = Image::new(width, height, Rgb::new(12, 34, 56));
    let mut buf: Vec<u8> = Vec::new();
    img.encode(ImageFormat::Png, &mut buf).unwrap();
    buf
}

#[test]
fn artwork_decodes_to_its_dimensions() {
    let bytes = png_bytes(488, 680);
    let card = decode_artwork("001".to_string(), "Sol Ring".to_string(), &bytes).unwrap();
    assert_eq!(card.prefix, "001");
    assert_eq!(card.name, "Sol Ring");
    assert_eq!(card.dimensions(), (488, 680));
}

#[test]
fn loaded_card_knows_its_file_name() {
    let bytes = png_bytes(16, 16);
    let card = decode_artwork("004".to_string(), "Springleaf Drum".to_string(), &bytes).unwrap();
    assert_eq!(card.sanitized_name(), "004_springleaf_drum.png");
}

#[test]
fn junk_bytes_are_a_decode_error_naming_the_card() {
    let junk: Vec<u8> = vec![1, 2, 3, 4, 5];
    match decode_artwork("001".to_string(), "Sol Ring".to_string(), &junk) {
        Err(PipelineError::Decode { name }) => assert_eq!(name, "Sol Ring"),
        _ => panic!("expected a decode error"),
    }
}

#[test]
fn truncated_png_is_a_decode_error() {
    let mut bytes = png_bytes(32, 32);
    bytes.truncate(bytes.len() / 2);
    match decode_artwork("002".to_string(), "Swamp".to_string(), &bytes) {
        Err(PipelineError::Decode { name }) => assert_eq!(name, "Swamp"),
        _ => panic!("expected a decode error"),
    }
}
