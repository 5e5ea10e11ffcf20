use toolsc3k::error::Error;
use toolsc3k::image::{Image, ImageType};

const DATA_0: [u8; 27] = [
    0xFF, 0x00, 0x00,
    0x00, 0xFF, 0x00,
    0x00, 0x00, 0xFF,
    0x00, 0x00, 0x00,
    0xFF, 0xFF, 0xFF,
    0xFF, 0xFF, 0x00,
    0x00, 0xFF, 0xFF,
    0xFF, 0x00, 0xFF,
    0x12, 0x34, 0x56,
];
const DATA_0_WIDTH: usize = 3;
const DATA_0_HEIGHT: usize = DATA_0_WIDTH;

const DATA_0_R5G6B5: [u8; 18] = [
    0b000_00000, 0b11111_000,
    0b111_00000, 0b00000_111,
    0b000_11111, 0b00000_000,
    0, 0,
    0xFF, 0xFF,
    0b111_00000, 0b11111_111,
    0b111_11111, 0b00000_111,
    0b000_11111, 0b11111_000,
    0b101_01010, 0b00010_001,
];

const DATA_0_G1R5G5B5: [u8; 18] = [
    0b000_00000, 0b0_11111_00,
    0b111_00000, 0b1_00000_11,
    0b000_11111, 0b0_00000_00,
    0, 0,
    0xFF, 0xFF,
    0b111_00000, 0b1_11111_11,
    0b111_11111, 0b1_00000_11,
    0b000_11111, 0b0_11111_00,
    0b110_01010, 0b1_00010_00,
];

const DATA_0_CONVERSION_LOSS: [u8; 27] = [
    0xFF, 0x00, 0x00,
    0x00, 0xFF, 0x00,
    0x00, 0x00, 0xFF,
    0x00, 0x00, 0x00,
    0xFF, 0xFF, 0xFF,
    0xFF, 0xFF, 0x00,
    0x00, 0xFF, 0xFF,
    0xFF, 0x00, 0xFF,
    0x10, 0x34, 0x52,
];

#[test]
fn to_game_format() {
    let image = Image::from_rgb8(&DATA_0, DATA_0_WIDTH, DATA_0_HEIGHT, ImageType::R5G6B5).unwrap();

    assert_eq!(image.width(), DATA_0_WIDTH);
    assert_eq!(image.height(), DATA_0_HEIGHT);
    assert_eq!(image.into_inner(), DATA_0_R5G6B5);

    let image =
        Image::from_rgb8(&DATA_0, DATA_0_WIDTH, DATA_0_HEIGHT, ImageType::G1R5G5B5).unwrap();

    assert_eq!(image.width(), DATA_0_WIDTH);
    assert_eq!(image.height(), DATA_0_HEIGHT);
    assert_eq!(image.into_inner(), DATA_0_G1R5G5B5);
}

#[test]
fn from_game_format() {
    let image =
        Image::new(ImageType::R5G6B5, DATA_0_WIDTH, DATA_0_HEIGHT, DATA_0_R5G6B5.to_vec())
            .unwrap();
    assert_eq!(image.width(), DATA_0_WIDTH);
    assert_eq!(image.height(), DATA_0_HEIGHT);
    assert_eq!(&image.to_rgb8(), &DATA_0_CONVERSION_LOSS);

    let image =
        Image::new(ImageType::G1R5G5B5, DATA_0_WIDTH, DATA_0_HEIGHT, DATA_0_G1R5G5B5.to_vec())
            .unwrap();
    assert_eq!(image.width(), DATA_0_WIDTH);
    assert_eq!(image.height(), DATA_0_HEIGHT);
    assert_eq!(&image.to_rgb8(), &DATA_0_CONVERSION_LOSS);
}

#[test]
fn convert() {
    let image = Image::new(ImageType::R5G6B5, DATA_0_WIDTH, DATA_0_HEIGHT, DATA_0_R5G6B5.to_vec())
        .unwrap()
        .convert_to(ImageType::R5G6B5);
    assert_eq!(image.into_inner(), &DATA_0_R5G6B5);

    let image = Image::new(ImageType::R5G6B5, DATA_0_WIDTH, DATA_0_HEIGHT, DATA_0_R5G6B5.to_vec())
        .unwrap()
        .convert_to(ImageType::G1R5G5B5);
    assert_eq!(image.into_inner(), &DATA_0_G1R5G5B5);

    let image =
        Image::new(ImageType::G1R5G5B5, DATA_0_WIDTH, DATA_0_HEIGHT, DATA_0_G1R5G5B5.to_vec())
            .unwrap()
            .convert_to(ImageType::R5G6B5);
    assert_eq!(image.into_inner(), &DATA_0_R5G6B5);
}

#[test]
fn image_new_size_mismatch() {
    let err = Image::new(ImageType::R5G6B5, 2, 2, vec![0u8; 7]).unwrap_err();
    assert_eq!(err, Error::InvalidImageSize { width: 2, height: 2, len: 7 });
}

#[test]
fn image_from_rgb8_bad_length() {
    let err = Image::from_rgb8(&[1, 2, 3, 4], 1, 1, ImageType::R5G6B5).unwrap_err();
    assert_eq!(err, Error::InvalidPixelData { len: 4 });

    let err = Image::from_rgb8(&[1, 2, 3], 2, 1, ImageType::R5G6B5).unwrap_err();
    assert_eq!(err, Error::InvalidImageSize { width: 2, height: 1, len: 3 });
}

#[test]
fn image_type_game_values() {
    assert_eq!(ImageType::G1R5G5B5.as_game_value(), 0x05);
    assert_eq!(ImageType::R5G6B5.as_game_value(), 0x07);
    assert_eq!(ImageType::from_game_value(0x05).unwrap(), ImageType::G1R5G5B5);
    assert_eq!(ImageType::from_game_value(0x07).unwrap(), ImageType::R5G6B5);
    assert_eq!(
        ImageType::from_game_value(9).unwrap_err(),
        Error::UnsupportedImageType { value: 9 }
    );
}
