//! The pixel buffer and the transforms that work pixel by pixel: grayscale,
//! channel split and merge, threshold.
//!
//! Every transform has a model, a spec function over [`ImageView`] named
//! after it, and returns an image whose view is the model's value.

use vstd::prelude::*;

use crate::error::ConfigFault;
use crate::error::ImageError;
use crate::error::StateFault;

verus! {

/// How many bytes a pixel holds and what they mean.
#[derive(Clone, Copy, Debug, PartialEq, Eq, Structural)]
pub enum ColorType {
    /// One byte per pixel.
    Gray,
    /// Three bytes per pixel: red, green, blue.
    Color,
}

/// Selects one byte of a pixel.
#[derive(Clone, Copy, Debug, PartialEq, Eq, Structural)]
pub enum Channel {
    /// The one byte of a gray pixel.
    Gray,
    /// The first byte of a colour pixel.
    R,
    /// The second byte of a colour pixel.
    G,
    /// The third byte of a colour pixel.
    B,
}

/// The layout of a decoded raster with `samples` samples per pixel of `bits`
/// bits each, if this library can hold it.
pub open spec fn layout_of_spec(samples: u8, bits: u8) -> Result<ColorType, ImageError> {
    if bits == 8 && samples == 1 {
        Ok(ColorType::Gray)
    } else if bits == 8 && samples == 3 {
        Ok(ColorType::Color)
    } else {
        Err(ImageError::UnsupportedFormatError)
    }
}

/// Accepts a decoded raster's format: 8 bits per sample with one sample per
/// pixel is a gray image, with three a colour image. Anything else fails with
/// `UnsupportedFormatError`.
pub fn layout_of(samples: u8, bits: u8) -> (r: Result<ColorType, ImageError>)
    ensures
        r == layout_of_spec(samples, bits),
{
    if bits == 8 && samples == 1 {
        Ok(ColorType::Gray)
    } else if bits == 8 && samples == 3 {
        Ok(ColorType::Color)
    } else {
        Err(ImageError::UnsupportedFormatError)
    }
}

/// Bytes per pixel of a layout.
pub open spec fn channels(color_type: ColorType) -> nat {
    match color_type {
        ColorType::Gray => 1,
        ColorType::Color => 3,
    }
}

/// A raster image: `height` rows of `width` pixels, stored row by row, each
/// pixel as `channels(color_type)` consecutive bytes.
#[derive(Clone, Debug, PartialEq, Eq)]
pub struct Image {
    /// Pixels per row.
    pub width: u32,
    /// Number of rows.
    pub height: u32,
    /// The layout of a pixel.
    pub color_type: ColorType,
    /// The bytes of all pixels, `width * height * channels` of them.
    pub data: Vec<u8>,
}

/// The mathematical content of an [`Image`].
pub struct ImageView {
    /// Pixels per row.
    pub width: nat,
    /// Number of rows.
    pub height: nat,
    /// The layout of a pixel.
    pub color_type: ColorType,
    /// The bytes of all pixels.
    pub data: Seq<u8>,
}

impl ImageView {
    /// Bytes per pixel.
    pub open spec fn channels(self) -> nat {
        channels(self.color_type)
    }

    /// Number of pixels.
    pub open spec fn pixels(self) -> nat {
        self.width * self.height
    }

    /// The buffer holds exactly the bytes of `width * height` pixels.
    pub open spec fn wf(self) -> bool {
        self.data.len() == self.width * self.height * self.channels()
    }

    /// Where the first byte of pixel `(x, y)` lies in `data`.
    pub open spec fn offset(self, x: int, y: int) -> int {
        (y * self.width + x) * self.channels()
    }
}

impl View for Image {
    type V = ImageView;

    open spec fn view(&self) -> ImageView {
        ImageView {
            width: self.width as nat,
            height: self.height as nat,
            color_type: self.color_type,
            data: self.data@,
        }
    }
}

impl Image {
    /// What [`Image::new`] returns.
    pub open spec fn new_spec(
        width: u32,
        height: u32,
        color_type: ColorType,
        data: Seq<u8>,
    ) -> Result<ImageView, ImageError> {
        let v = ImageView { width: width as nat, height: height as nat, color_type, data };
        if v.wf() {
            Ok(v)
        } else {
            Err(ImageError::ConfigError(ConfigFault::DataLength))
        }
    }

    /// Builds an image from its parts. Fails with `ConfigError(DataLength)`
    /// exactly when `data` does not hold `width * height` pixels of the layout.
    pub fn new(width: u32, height: u32, color_type: ColorType, data: Vec<u8>) -> (r: Result<
        Image,
        ImageError,
    >)
        ensures
            view_of(r) == Image::new_spec(width, height, color_type, data@),
    {
        let img = Image { width, height, color_type, data };
        if img.is_valid() {
            Ok(img)
        } else {
            Err(ImageError::ConfigError(ConfigFault::DataLength))
        }
    }

    /// Whether the buffer holds exactly the bytes of `width * height` pixels.
    pub fn is_valid(&self) -> (b: bool)
        ensures
            b == self@.wf(),
    {
        let per_pixel: u128 = self.get_pixl_width() as u128;
        let w: u128 = self.width as u128;
        let h: u128 = self.height as u128;
        assert(w * h <= 0xFFFF_FFFF * 0xFFFF_FFFF) by (nonlinear_arith)
            requires
                0 <= w <= 0xFFFF_FFFF,
                0 <= h <= 0xFFFF_FFFF,
        ;
        let expected: u128 = w * h * per_pixel;
        self.data.len() as u128 == expected
    }

    /// Bytes per pixel: 1 for a gray image, 3 for a colour image.
    pub fn get_pixl_width(&self) -> (n: usize)
        ensures
            n == self@.channels(),
    {
        match self.color_type {
            ColorType::Gray => 1,
            ColorType::Color => 3,
        }
    }

    /// Width and height, in pixels.
    pub fn shape(&self) -> (s: (u32, u32))
        ensures
            s.0 == self@.width,
            s.1 == self@.height,
    {
        (self.width, self.height)
    }

    /// Where the first byte of pixel `(x, y)` lies in `data`, or `None` when
    /// the coordinate is outside the image.
    pub fn pixel_offset(&self, x: u32, y: u32) -> (r: Option<usize>)
        requires
            self@.wf(),
        ensures
            match r {
                Some(first) => x < self@.width && y < self@.height && first == self@.offset(
                    x as int,
                    y as int,
                ) && first + self@.channels() <= self@.data.len(),
                None => x >= self@.width || y >= self@.height,
            },
    {
        if x < self.width && y < self.height {
            let per_pixel: usize = self.get_pixl_width();
            proof {
                lemma_pixel_index(self.width as int, self.height as int, x as int, y as int);
                lemma_pixel_in_buffer(self@, y as int * self.width as int + x as int);
                assert(self@.data.len() == self.data.len());
            }
            let pixel: usize = y as usize * self.width as usize + x as usize;
            Some(pixel * per_pixel)
        } else {
            None
        }
    }
}

/// The position of a colour channel inside a pixel.
pub open spec fn channel_index(channel: Channel) -> int {
    match channel {
        Channel::R => 0,
        Channel::G => 1,
        Channel::B => 2,
        Channel::Gray => 0,
    }
}

/// Channel `k` of a colour image as a gray image of the same shape.
pub open spec fn plane(v: ImageView, k: int) -> ImageView {
    ImageView {
        width: v.width,
        height: v.height,
        color_type: ColorType::Gray,
        data: Seq::new(v.pixels(), |p: int| v.data[3 * p + k]),
    }
}

/// A colour image in which every channel but `k` is zero.
pub open spec fn isolated(v: ImageView, k: int) -> ImageView {
    ImageView {
        width: v.width,
        height: v.height,
        color_type: ColorType::Color,
        data: Seq::new(
            v.data.len(),
            |j: int|
                if j % 3 == k {
                    v.data[j]
                } else {
                    0u8
                },
        ),
    }
}

/// What [`get_channel`] returns.
pub open spec fn get_channel_spec(v: ImageView, channel: Channel, in_color: bool) -> Result<
    ImageView,
    ImageError,
> {
    if v.color_type != ColorType::Color {
        Err(ImageError::StateError(StateFault::NotColor))
    } else if channel == Channel::Gray {
        Err(ImageError::StateError(StateFault::NoSuchChannel))
    } else if in_color {
        Ok(isolated(v, channel_index(channel)))
    } else {
        Ok(plane(v, channel_index(channel)))
    }
}

/// Takes one channel out of a colour image.
///
/// With `in_color` the result is a colour image of the same shape whose other
/// two channels are zero; without it, a gray image that holds the channel's
/// bytes. Fails with `StateError(NotColor)` on an image that is not a colour
/// image, and with `StateError(NoSuchChannel)` when a colour image is asked
/// for `Channel::Gray`.
pub fn get_channel(image: &Image, channel: Channel, in_color: bool) -> (r: Result<
    Image,
    ImageError,
>)
    requires
        image@.wf(),
    ensures
        view_of(r) == get_channel_spec(image@, channel, in_color),
        r is Ok ==> r.unwrap()@.wf(),
{
    match image.color_type {
        ColorType::Color => {
            let pixel_index: usize = match channel {
                Channel::R => 0,
                Channel::G => 1,
                Channel::B => 2,
                Channel::Gray => {
                    return Err(ImageError::StateError(StateFault::NoSuchChannel));
                },
            };
            let len: usize = image.data.len();
            let mut channel_image: Vec<u8> = Vec::new();
            proof {
                lemma_buffer_len(image@);
            }
            if in_color {
                let mut j: usize = 0;
                while j < len
                    invariant
                        len == image.data@.len(),
                        pixel_index < 3,
                        j <= len,
                        channel_image@.len() == j,
                        forall|m: int|
                            0 <= m < j ==> channel_image@[m] == if m % 3 == pixel_index {
                                image.data@[m]
                            } else {
                                0u8
                            },
                    decreases len - j,
                {
                    if j % 3 == pixel_index {
                        channel_image.push(image.data[j]);
                    } else {
                        channel_image.push(0);
                    }
                    j += 1;
                }
                assert(channel_image@ =~= isolated(image@, pixel_index as int).data);
                proof {
                    lemma_buffer_len(isolated(image@, pixel_index as int));
                }
                Ok(
                    Image {
                        width: image.width,
                        height: image.height,
                        color_type: ColorType::Color,
                        data: channel_image,
                    },
                )
            } else {
                let pixels: usize = len / 3;
                let mut p: usize = 0;
                while p < pixels
                    invariant
                        len == image.data@.len(),
                        pixels == len / 3,
                        pixel_index < 3,
                        p <= pixels,
                        channel_image@.len() == p,
                        forall|m: int|
                            0 <= m < p ==> channel_image@[m] == image.data@[3 * m + pixel_index],
                    decreases pixels - p,
                {
                    channel_image.push(image.data[3 * p + pixel_index]);
                    p += 1;
                }
                assert(channel_image@ =~= plane(image@, pixel_index as int).data);
                proof {
                    lemma_buffer_len(plane(image@, pixel_index as int));
                }
                Ok(
                    Image {
                        width: image.width,
                        height: image.height,
                        color_type: ColorType::Gray,
                        data: channel_image,
                    },
                )
            }
        },
        ColorType::Gray => Err(ImageError::StateError(StateFault::NotColor)),
    }
}

/// Three gray planes woven into one colour image: pixel `p` of the result
/// holds byte `p` of `red`, of `green` and of `blue`, in this order.
pub open spec fn interleaved(red: ImageView, green: ImageView, blue: ImageView) -> ImageView {
    ImageView {
        width: red.width,
        height: red.height,
        color_type: ColorType::Color,
        data: Seq::new(
            3 * red.data.len(),
            |j: int|
                if j % 3 == 0 {
                    red.data[j / 3]
                } else if j % 3 == 1 {
                    green.data[j / 3]
                } else {
                    blue.data[j / 3]
                },
        ),
    }
}

/// What [`create_image_from_channels`] returns.
pub open spec fn create_image_from_channels_spec(
    red: ImageView,
    green: ImageView,
    blue: ImageView,
) -> Result<ImageView, ImageError> {
    if red.color_type != ColorType::Gray {
        Err(ImageError::StateError(StateFault::PlaneNotGray(Channel::R)))
    } else if green.color_type != ColorType::Gray {
        Err(ImageError::StateError(StateFault::PlaneNotGray(Channel::G)))
    } else if blue.color_type != ColorType::Gray {
        Err(ImageError::StateError(StateFault::PlaneNotGray(Channel::B)))
    } else if green.width != red.width || green.height != red.height {
        Err(ImageError::StateError(StateFault::PlaneShape(Channel::G)))
    } else if blue.width != red.width || blue.height != red.height {
        Err(ImageError::StateError(StateFault::PlaneShape(Channel::B)))
    } else {
        Ok(interleaved(red, green, blue))
    }
}

/// Weaves three gray planes of one shape into a colour image, channel order
/// red, green, blue.
///
/// Fails with `StateError(PlaneNotGray(c))` for the first of red, green, blue
/// that is not a gray image; if all are gray, with `StateError(PlaneShape(c))`
/// for the first of green, blue whose width or height differs from red's.
pub fn create_image_from_channels(red: &Image, green: &Image, blue: &Image) -> (r: Result<
    Image,
    ImageError,
>)
    requires
        red@.wf(),
        green@.wf(),
        blue@.wf(),
    ensures
        view_of(r) == create_image_from_channels_spec(red@, green@, blue@),
        r is Ok ==> r.unwrap()@.wf(),
{
    match red.color_type {
        ColorType::Gray => {},
        ColorType::Color => {
            return Err(ImageError::StateError(StateFault::PlaneNotGray(Channel::R)));
        },
    }
    match green.color_type {
        ColorType::Gray => {},
        ColorType::Color => {
            return Err(ImageError::StateError(StateFault::PlaneNotGray(Channel::G)));
        },
    }
    match blue.color_type {
        ColorType::Gray => {},
        ColorType::Color => {
            return Err(ImageError::StateError(StateFault::PlaneNotGray(Channel::B)));
        },
    }
    if green.width != red.width || green.height != red.height {
        return Err(ImageError::StateError(StateFault::PlaneShape(Channel::G)));
    }
    if blue.width != red.width || blue.height != red.height {
        return Err(ImageError::StateError(StateFault::PlaneShape(Channel::B)));
    }
    proof {
        lemma_buffer_len(red@);
        lemma_buffer_len(green@);
        lemma_buffer_len(blue@);
    }
    let pixels: usize = red.data.len();
    let mut image_data: Vec<u8> = Vec::new();
    let mut p: usize = 0;
    while p < pixels
        invariant
            pixels == red.data@.len(),
            pixels == green.data@.len(),
            pixels == blue.data@.len(),
            p <= pixels,
            image_data@.len() == 3 * p,
            forall|m: int|
                0 <= m < p ==> image_data@[3 * m] == red.data@[m] && image_data@[3 * m + 1]
                    == green.data@[m] && image_data@[3 * m + 2] == blue.data@[m],
        decreases pixels - p,
    {
        image_data.push(red.data[p]);
        image_data.push(green.data[p]);
        image_data.push(blue.data[p]);
        p += 1;
    }
    proof {
        let woven = interleaved(red@, green@, blue@);
        assert forall|j: int| 0 <= j < woven.data.len() implies image_data@[j] == woven.data[j] by {
            let m = j / 3;
            assert(j == 3 * m + j % 3);
        }
        assert(image_data@ =~= woven.data);
        lemma_buffer_len(woven);
    }
    Ok(Image { width: red.width, height: red.height, color_type: ColorType::Color, data: image_data })
}

/// The gray level of a colour pixel: the mean of its three bytes, rounded
/// down.
pub open spec fn gray_level(r: u8, g: u8, b: u8) -> u8 {
    ((r + g + b) / 3) as u8
}

/// The gray image of a colour image: one byte per pixel, its gray level.
pub open spec fn grayscale(v: ImageView) -> ImageView {
    ImageView {
        width: v.width,
        height: v.height,
        color_type: ColorType::Gray,
        data: Seq::new(
            v.pixels(),
            |p: int| gray_level(v.data[3 * p], v.data[3 * p + 1], v.data[3 * p + 2]),
        ),
    }
}

/// What [`to_gray`] returns.
pub open spec fn to_gray_spec(v: ImageView) -> Result<ImageView, ImageError> {
    if v.color_type == ColorType::Gray {
        Err(ImageError::StateError(StateFault::AlreadyGray))
    } else {
        Ok(grayscale(v))
    }
}

/// Converts a colour image to a gray image of the same shape, each pixel the
/// mean of its red, green and blue bytes, rounded down. Fails with
/// `StateError(AlreadyGray)` on a gray image.
pub fn to_gray(image: &Image) -> (r: Result<Image, ImageError>)
    requires
        image@.wf(),
    ensures
        view_of(r) == to_gray_spec(image@),
        r is Ok ==> r.unwrap()@.wf(),
{
    match image.color_type {
        ColorType::Gray => Err(ImageError::StateError(StateFault::AlreadyGray)),
        ColorType::Color => {
            proof {
                lemma_buffer_len(image@);
            }
            let len: usize = image.data.len();
            let pixels: usize = len / 3;
            let mut gray_img: Vec<u8> = Vec::new();
            let mut p: usize = 0;
            while p < pixels
                invariant
                    len == image.data@.len(),
                    len == 3 * pixels,
                    p <= pixels,
                    gray_img@.len() == p,
                    forall|m: int|
                        0 <= m < p ==> gray_img@[m] == gray_level(
                            image.data@[3 * m],
                            image.data@[3 * m + 1],
                            image.data@[3 * m + 2],
                        ),
                decreases pixels - p,
            {
                let sum: u16 = image.data[3 * p] as u16 + image.data[3 * p + 1] as u16
                    + image.data[3 * p + 2] as u16;
                gray_img.push((sum / 3) as u8);
                p += 1;
            }
            proof {
                assert(gray_img@ =~= grayscale(image@).data);
                lemma_buffer_len(grayscale(image@));
            }
            Ok(
                Image {
                    width: image.width,
                    height: image.height,
                    color_type: ColorType::Gray,
                    data: gray_img,
                },
            )
        },
    }
}

/// Black or white: 255 for a byte at or above the threshold, else 0.
pub open spec fn threshold_level(value: u8, threshold: u8) -> u8 {
    if value >= threshold {
        255
    } else {
        0
    }
}

/// The black-and-white image of `v`: every byte of its gray image (of `v`
/// itself, if it is gray) is set to 255 if it is at or above the threshold,
/// else to 0.
pub open spec fn binarized(v: ImageView, threshold: u8) -> ImageView {
    let gray = if v.color_type == ColorType::Color {
        grayscale(v)
    } else {
        v
    };
    ImageView {
        width: gray.width,
        height: gray.height,
        color_type: ColorType::Gray,
        data: Seq::new(gray.data.len(), |j: int| threshold_level(gray.data[j], threshold)),
    }
}

/// Turns an image into a black-and-white gray image: a colour image is
/// converted to gray first, then every byte becomes 255 if it is at or above
/// `threshold`, else 0. Never fails.
pub fn binarize(image: &Image, threshold: u8) -> (r: Result<Image, ImageError>)
    requires
        image@.wf(),
    ensures
        view_of(r) == Ok::<ImageView, ImageError>(binarized(image@, threshold)),
        r is Ok ==> r.unwrap()@.wf(),
{
    match image.color_type {
        ColorType::Color => {
            match to_gray(image) {
                Ok(gray) => {
                    let levels = threshold_bytes(&gray.data, threshold);
                    proof {
                        assert(levels@ =~= binarized(image@, threshold).data);
                        lemma_buffer_len(gray@);
                        lemma_buffer_len(binarized(image@, threshold));
                    }
                    Ok(
                        Image {
                            width: image.width,
                            height: image.height,
                            color_type: ColorType::Gray,
                            data: levels,
                        },
                    )
                },
                Err(e) => Err(e),
            }
        },
        ColorType::Gray => {
            let levels = threshold_bytes(&image.data, threshold);
            proof {
                assert(levels@ =~= binarized(image@, threshold).data);
                lemma_buffer_len(image@);
                lemma_buffer_len(binarized(image@, threshold));
            }
            Ok(
                Image {
                    width: image.width,
                    height: image.height,
                    color_type: ColorType::Gray,
                    data: levels,
                },
            )
        },
    }
}

/// Applies the threshold to every byte.
fn threshold_bytes(data: &Vec<u8>, threshold: u8) -> (levels: Vec<u8>)
    ensures
        levels@.len() == data@.len(),
        forall|j: int|
            0 <= j < data@.len() ==> levels@[j] == threshold_level(data@[j], threshold),
{
    let len: usize = data.len();
    let mut levels: Vec<u8> = Vec::new();
    let mut j: usize = 0;
    while j < len
        invariant
            len == data@.len(),
            j <= len,
            levels@.len() == j,
            forall|m: int| 0 <= m < j ==> levels@[m] == threshold_level(data@[m], threshold),
        decreases len - j,
    {
        if data[j] >= threshold {
            levels.push(255);
        } else {
            levels.push(0);
        }
        j += 1;
    }
    levels
}

/// The view of what an operation returned.
pub open spec fn view_of(r: Result<Image, ImageError>) -> Result<ImageView, ImageError> {
    match r {
        Ok(img) => Ok(img@),
        Err(e) => Err(e),
    }
}

/// A coordinate inside the image names a pixel of it.
pub proof fn lemma_pixel_index(width: int, height: int, x: int, y: int)
    requires
        0 <= x < width,
        0 <= y < height,
    ensures
        0 <= y * width + x < width * height,
        0 <= y * width <= y * width + x,
        (y * width + x) % width == x,
        (y * width + x) / width == y,
{
    assert(0 <= y * width && y * width + width <= width * height) by (nonlinear_arith)
        requires
            0 <= y < height,
            0 < width,
    ;
    vstd::arithmetic::div_mod::lemma_fundamental_div_mod_converse(y * width + x, width, y, x);
}

/// The buffer of a well-formed image is one or three times its pixel count.
pub proof fn lemma_buffer_len(v: ImageView)
    ensures
        v.color_type == ColorType::Gray ==> (v.wf() <==> v.data.len() == v.pixels()),
        v.color_type == ColorType::Color ==> (v.wf() <==> v.data.len() == 3 * v.pixels()),
{
    let n = v.pixels() as int;
    let c = v.channels() as int;
    assert(c == 1 ==> n * c == n) by (nonlinear_arith);
    assert(c == 3 ==> n * c == 3 * n) by (nonlinear_arith);
}

/// The bytes of pixel `p` lie inside the buffer of a well-formed image.
pub proof fn lemma_pixel_in_buffer(v: ImageView, p: int)
    requires
        v.wf(),
        0 <= p < v.pixels(),
    ensures
        0 <= p * v.channels(),
        p * v.channels() + v.channels() <= v.data.len(),
        v.pixels() <= v.data.len(),
{
    let c = v.channels() as int;
    let n = v.pixels() as int;
    assert(0 <= p * c && p * c + c <= n * c && n <= n * c) by (nonlinear_arith)
        requires
            0 <= p < n,
            0 < c,
    ;
}

/// Channel `c` of pixel `i` is byte `i * channels + c` of the buffer, and no
/// other pixel and channel share that byte.
pub proof fn lemma_byte_of_pixel(v: ImageView, i: int, c: int)
    requires
        v.wf(),
        0 <= i < v.pixels(),
        0 <= c < v.channels(),
    ensures
        0 <= i * v.channels() + c < v.data.len(),
        (i * v.channels() + c) / (v.channels() as int) == i,
        (i * v.channels() + c) % (v.channels() as int) == c,
{
    lemma_pixel_in_buffer(v, i);
    vstd::arithmetic::div_mod::lemma_fundamental_div_mod_converse(
        i * v.channels() + c,
        v.channels() as int,
        i,
        c,
    );
}

/// Byte `k` of the buffer is channel `k % channels` of pixel `k / channels`.
pub proof fn lemma_pixel_of_byte(v: ImageView, k: int)
    requires
        v.wf(),
        0 <= k < v.data.len(),
    ensures
        0 <= k / (v.channels() as int) < v.pixels(),
        0 <= k % (v.channels() as int) < v.channels(),
        k == (k / (v.channels() as int)) * v.channels() + k % (v.channels() as int),
{
    let per_pixel = v.channels() as int;
    let i = k / per_pixel;
    let c = k % per_pixel;
    vstd::arithmetic::div_mod::lemma_fundamental_div_mod(k, per_pixel);
    assert(per_pixel * i == i * per_pixel) by (nonlinear_arith);
    assert(0 <= i < v.pixels()) by (nonlinear_arith)
        requires
            0 <= k < v.pixels() * per_pixel,
            k == i * per_pixel + c,
            0 <= c < per_pixel,
    ;
}

/// Grayscale conversion succeeds at most once in a row: on a colour image it
/// gives a well-formed gray image of the same shape, and on that image it
/// fails with `StateError(AlreadyGray)`.
pub proof fn lemma_gray_only_once(v: ImageView)
    requires
        v.wf(),
        v.color_type == ColorType::Color,
    ensures
        to_gray_spec(v) is Ok,
        to_gray_spec(v).unwrap().wf(),
        to_gray_spec(v).unwrap().width == v.width,
        to_gray_spec(v).unwrap().height == v.height,
        to_gray_spec(to_gray_spec(v).unwrap()) == Err::<ImageView, ImageError>(
            ImageError::StateError(StateFault::AlreadyGray),
        ),
{
    lemma_buffer_len(grayscale(v));
}

/// Splitting a colour image into its red, green and blue planes and weaving
/// the three planes together again gives the image back, byte for byte.
pub proof fn lemma_channels_round_trip(v: ImageView)
    requires
        v.wf(),
        v.color_type == ColorType::Color,
    ensures
        get_channel_spec(v, Channel::R, false) is Ok,
        get_channel_spec(v, Channel::G, false) is Ok,
        get_channel_spec(v, Channel::B, false) is Ok,
        create_image_from_channels_spec(
            get_channel_spec(v, Channel::R, false).unwrap(),
            get_channel_spec(v, Channel::G, false).unwrap(),
            get_channel_spec(v, Channel::B, false).unwrap(),
        ) == Ok::<ImageView, ImageError>(v),
{
    lemma_buffer_len(v);
    let woven = interleaved(plane(v, 0), plane(v, 1), plane(v, 2));
    assert forall|j: int| 0 <= j < v.data.len() implies woven.data[j] == v.data[j] by {
        assert(j == 3 * (j / 3) + j % 3);
    }
    assert(woven.data =~= v.data);
}

} // verus!
