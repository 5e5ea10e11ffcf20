//! The game's packed 16-bit pixel formats and their conversion to and from
//! 24-bit RGB buffers. Pixels are stored two bytes each, low byte first.
use vstd::prelude::*;

use crate::error::Error;

verus! {

#[derive(Debug, Clone, Copy, PartialEq, Eq, Structural)]
pub enum ImageType {
    G1R5G5B5,
    R5G6B5,
}

/// The value the game uses to name each pixel format.
pub open spec fn image_type_game_value(t: ImageType) -> u32 {
    match t {
        ImageType::G1R5G5B5 => 0x05,
        ImageType::R5G6B5 => 0x07,
    }
}

/// One 24-bit pixel packed into 16 bits. For `G1R5G5B5` the top bit carries
/// the green channel's third-lowest bit, then five bits each of red, green
/// and blue; for `R5G6B5` five bits of red, six of green, five of blue.
pub open spec fn pack_pixel(t: ImageType, r: u8, g: u8, b: u8) -> u16 {
    match t {
        ImageType::G1R5G5B5 => ((g / 4) % 2 * 0x8000 + (r / 8) * 0x400 + (g / 8) * 0x20 + b
            / 8) as u16,
        ImageType::R5G6B5 => ((r / 8) * 0x800 + (g / 4) * 0x20 + b / 8) as u16,
    }
}

/// One packed pixel widened back to 24-bit RGB, each channel rescaled to the
/// full 0–255 range.
pub open spec fn unpack_pixel(t: ImageType, c: u16) -> (u8, u8, u8) {
    match t {
        ImageType::G1R5G5B5 => (
            ((c / 0x400) % 32 * 255 / 31) as u8,
            (((c / 32) % 32 * 2 + c / 0x8000) * 255 / 63) as u8,
            (c % 32 * 255 / 31) as u8,
        ),
        ImageType::R5G6B5 => (
            (c / 0x800 * 255 / 31) as u8,
            ((c / 32) % 64 * 255 / 63) as u8,
            (c % 32 * 255 / 31) as u8,
        ),
    }
}

/// The 16-bit pixel stored at pixel index `i`, low byte first.
pub open spec fn color_at(data: Seq<u8>, i: int) -> u16 {
    (data[2 * i] + data[2 * i + 1] * 0x100) as u16
}

#[derive(Debug)]
pub struct Image {
    image_type: ImageType,
    data: Vec<u8>,
    width: usize,
    height: usize,
}

impl Image {
    /// Which packed format the pixel data is in.
    pub closed spec fn spec_image_type(&self) -> ImageType {
        self.image_type
    }

    /// The packed pixel bytes.
    pub closed spec fn spec_data(&self) -> Seq<u8> {
        self.data@
    }

    /// The image's width in pixels.
    pub closed spec fn spec_width(&self) -> usize {
        self.width
    }

    /// The image's height in pixels.
    pub closed spec fn spec_height(&self) -> usize {
        self.height
    }

    /// Every image holds exactly two bytes per pixel.
    #[verifier::type_invariant]
    closed spec fn type_inv(self) -> bool {
        self.data@.len() == self.width * self.height * 2
    }

    /// Wraps packed pixel data whose length matches the dimensions, and
    /// rejects any other length.
    pub fn new(image_type: ImageType, width: usize, height: usize, data: Vec<u8>) -> (r: Result<
        Image,
        Error,
    >)
        requires
            width * height * 2 <= usize::MAX,
        ensures
            (match r {
                Ok(img) => data@.len() == width * height * 2 && img.spec_image_type() == image_type
                    && img.spec_data() == data@ && img.spec_width() == width && img.spec_height()
                    == height,
                Err(e) => data@.len() != width * height * 2 && e == (Error::InvalidImageSize {
                    width,
                    height,
                    len: data@.len() as usize,
                }),
            }),
    {
        if data.len() != width * height * 2 {
            return Err(Error::InvalidImageSize { width, height, len: data.len() });
        }
        Ok(Image { image_type, data, width, height })
    }

    /// Packs a 24-bit RGB buffer into the given format. The buffer must hold
    /// whole pixels and exactly as many as the dimensions say.
    pub fn from_rgb8(raw: &[u8], width: usize, height: usize, image_type: ImageType) -> (r: Result<
        Image,
        Error,
    >)
        requires
            width * height <= usize::MAX,
        ensures
            (match r {
                Ok(img) => raw@.len() % 3 == 0 && width * height * 3 == raw@.len()
                    && img.spec_image_type() == image_type && img.spec_width() == width
                    && img.spec_height() == height && img.spec_data().len() == width * height * 2
                    && (forall|i: int|
                    0 <= i < width * height ==> color_at(img.spec_data(), i) == pack_pixel(
                        image_type,
                        raw@[3 * i],
                        raw@[3 * i + 1],
                        raw@[3 * i + 2],
                    )),
                Err(e) => (raw@.len() % 3 != 0 && e == (Error::InvalidPixelData {
                    len: raw@.len() as usize,
                })) || (raw@.len() % 3 == 0 && width * height != raw@.len() / 3 && e == (
                Error::InvalidImageSize { width, height, len: raw@.len() as usize })),
            }),
    {
        if raw.len() % 3 != 0 {
            return Err(Error::InvalidPixelData { len: raw.len() });
        }
        let px_count = raw.len() / 3;
        if width * height != px_count {
            return Err(Error::InvalidImageSize { width, height, len: raw.len() });
        }

        let mut buffer: Vec<u8> = Vec::new();
        let mut i: usize = 0;
        while i < px_count
            invariant
                i <= px_count,
                3 * px_count == raw@.len(),
                3 * px_count <= usize::MAX,
                buffer@.len() == 2 * i,
                forall|k: int|
                    0 <= k < i ==> color_at(buffer@, k) == pack_pixel(
                        image_type,
                        raw@[3 * k],
                        raw@[3 * k + 1],
                        raw@[3 * k + 2],
                    ),
            decreases px_count - i,
        {
            let r = raw[i * 3];
            let g = raw[i * 3 + 1];
            let b = raw[i * 3 + 2];

            let v: u16 = match image_type {
                ImageType::G1R5G5B5 => {
                    ((g / 4) % 2) as u16 * 0x8000 + (r / 8) as u16 * 0x400 + (g / 8) as u16 * 0x20
                        + (b / 8) as u16
                },
                ImageType::R5G6B5 => {
                    (r / 8) as u16 * 0x800 + (g / 4) as u16 * 0x20 + (b / 8) as u16
                },
            };
            let ghost b0 = buffer@;
            buffer.push((v % 0x100) as u8);
            buffer.push((v / 0x100) as u8);
            i += 1;
            proof {
                assert(v == pack_pixel(image_type, raw@[3 * (i - 1)], raw@[3 * (i - 1) + 1], raw@[3
                    * (i - 1) + 2]));
                assert(color_at(buffer@, i - 1) == v);
                assert forall|k: int| 0 <= k < i - 1 implies color_at(buffer@, k) == pack_pixel(
                    image_type,
                    raw@[3 * k],
                    raw@[3 * k + 1],
                    raw@[3 * k + 2],
                ) by {
                    assert(color_at(b0, k) == pack_pixel(
                        image_type,
                        raw@[3 * k],
                        raw@[3 * k + 1],
                        raw@[3 * k + 2],
                    ));
                    assert(buffer@[2 * k] == b0[2 * k]);
                    assert(buffer@[2 * k + 1] == b0[2 * k + 1]);
                }
            }
        }

        Ok(Image { image_type, data: buffer, width, height })
    }

    /// Which packed format the pixels are in.
    pub fn image_type(&self) -> (r: ImageType)
        ensures
            r == self.spec_image_type(),
    {
        self.image_type
    }

    /// Gives up the image and hands back its packed pixel bytes.
    pub fn into_inner(self) -> (r: Vec<u8>)
        ensures
            r@ == self.spec_data(),
    {
        self.data
    }

    /// The width in pixels.
    pub fn width(&self) -> (r: usize)
        ensures
            r == self.spec_width(),
    {
        self.width
    }

    /// The height in pixels.
    pub fn height(&self) -> (r: usize)
        ensures
            r == self.spec_height(),
    {
        self.height
    }

    /// Widens every packed pixel back to 24-bit RGB, three bytes per pixel in
    /// the same order.
    pub fn to_rgb8(&self) -> (r: Vec<u8>)
        ensures
            r@.len() == self.spec_width() * self.spec_height() * 3,
            forall|i: int|
                0 <= i < self.spec_width() * self.spec_height() ==> r@[3 * i] == unpack_pixel(
                    self.spec_image_type(),
                    color_at(self.spec_data(), i),
                ).0 && r@[3 * i + 1] == unpack_pixel(
                    self.spec_image_type(),
                    color_at(self.spec_data(), i),
                ).1 && r@[3 * i + 2] == unpack_pixel(
                    self.spec_image_type(),
                    color_at(self.spec_data(), i),
                ).2,
    {
        proof {
            use_type_invariant(self);
        }
        let len_half = self.data.len() / 2;
        let mut buffer: Vec<u8> = Vec::new();
        let mut i: usize = 0;
        while i < len_half
            invariant
                i <= len_half,
                2 * len_half == self.spec_data().len(),
                2 * len_half <= usize::MAX,
                buffer@.len() == 3 * i,
                forall|k: int|
                    0 <= k < i ==> buffer@[3 * k] == unpack_pixel(
                        self.spec_image_type(),
                        color_at(self.spec_data(), k),
                    ).0 && buffer@[3 * k + 1] == unpack_pixel(
                        self.spec_image_type(),
                        color_at(self.spec_data(), k),
                    ).1 && buffer@[3 * k + 2] == unpack_pixel(
                        self.spec_image_type(),
                        color_at(self.spec_data(), k),
                    ).2,
            decreases len_half - i,
        {
            let color: u16 = self.data[i * 2] as u16 + self.data[i * 2 + 1] as u16 * 0x100;
            let (r, g, b): (u8, u8, u8) = match self.image_type {
                ImageType::G1R5G5B5 => (
                    ((color / 0x400) % 32 * 255 / 31) as u8,
                    (((color / 32) % 32 * 2 + color / 0x8000) * 255 / 63) as u8,
                    (color % 32 * 255 / 31) as u8,
                ),
                ImageType::R5G6B5 => (
                    (color / 0x800 * 255 / 31) as u8,
                    ((color / 32) % 64 * 255 / 63) as u8,
                    (color % 32 * 255 / 31) as u8,
                ),
            };
            buffer.push(r);
            buffer.push(g);
            buffer.push(b);
            i += 1;
            assert(color == color_at(self.spec_data(), i - 1));
        }
        buffer
    }

    /// Re-packs the image into the given format, by way of 24-bit RGB. An
    /// image already in that format comes back unchanged; rescaling rounds
    /// down, so a changed format may lose the low bits of each channel.
    pub fn convert_to(self, image_type: ImageType) -> (r: Image)
        ensures
            r.spec_image_type() == image_type,
            r.spec_width() == self.spec_width(),
            r.spec_height() == self.spec_height(),
            image_type == self.spec_image_type() ==> r == self,
            image_type != self.spec_image_type() ==> forall|i: int|
                0 <= i < self.spec_width() * self.spec_height() ==> color_at(r.spec_data(), i)
                    == pack_pixel(
                    image_type,
                    unpack_pixel(self.spec_image_type(), color_at(self.spec_data(), i)).0,
                    unpack_pixel(self.spec_image_type(), color_at(self.spec_data(), i)).1,
                    unpack_pixel(self.spec_image_type(), color_at(self.spec_data(), i)).2,
                ),
    {
        proof {
            use_type_invariant(&self);
        }
        let dlen = self.data.len();
        assert(self.spec_width() * self.spec_height() <= dlen);
        if self.image_type == image_type {
            return self;
        }
        let rgb = self.to_rgb8();
        let converted = Image::from_rgb8(&rgb, self.width, self.height, image_type);
        converted.unwrap()
    }
}

impl ImageType {
    /// The value the game stores for this format.
    pub fn as_game_value(self) -> (r: u32)
        ensures
            r == image_type_game_value(self),
    {
        match self {
            ImageType::G1R5G5B5 => 0x05,
            ImageType::R5G6B5 => 0x07,
        }
    }

    /// The format a stored game value names; any other value is unsupported.
    pub fn from_game_value(v: u32) -> (r: Result<ImageType, Error>)
        ensures
            (match r {
                Ok(t) => image_type_game_value(t) == v,
                Err(e) => v != 0x05 && v != 0x07 && e == (Error::UnsupportedImageType { value: v }),
            }),
    {
        match v {
            0x05 => Ok(ImageType::G1R5G5B5),
            0x07 => Ok(ImageType::R5G6B5),
            _ => Err(Error::UnsupportedImageType { value: v }),
        }
    }
}

} // verus!
