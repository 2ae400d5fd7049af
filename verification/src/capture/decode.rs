//! Turning what a device or a file holds into pixels.

use nokhwa::pixel_format::RgbFormat;
use nokhwa::utils::Resolution;
use vstd::prelude::*;

use crate::capture::formats::FrameFormat;

verus! {

/// A number held within a byte.
pub open spec fn clamped(value: int) -> u8 {
    if value < 0 {
        0
    } else if value > 255 {
        255
    } else {
        value as u8
    }
}

/// One channel, red, green or blue, of a pixel given as luma and the two chroma
/// values.
pub open spec fn mixed(y: u8, u: u8, v: u8, channel: int) -> u8 {
    let luma = 298 * (y - 16) + 128;
    if channel == 0 {
        clamped((luma + 409 * (v - 128)) / 256)
    } else if channel == 1 {
        clamped((luma - 100 * (u - 128) - 208 * (v - 128)) / 256)
    } else {
        clamped((luma + 516 * (u - 128)) / 256)
    }
}

/// A frame as a device handed it over.
#[derive(Debug, Clone)]
pub struct Grabbed {
    pub width: u32,
    pub height: u32,
    pub format: FrameFormat,
    pub bytes: Vec<u8>,
}

impl Grabbed {
    /// How many bytes the frame has once it is decoded.
    pub open spec fn size(&self) -> int {
        self.width * self.height * 3
    }

    /// Whether the frame can be handed to the decoder at all.
    ///
    /// A compressed stream that is broken unwinds through the decoder instead of
    /// being refused, so none is. A raw frame of the wrong size and an empty
    /// two-plane frame would panic, and two of the formats count the bytes of a
    /// frame in 32 bits.
    pub open spec fn decodable(&self) -> bool {
        &&& self.size() <= usize::MAX
        &&& 3 * self.bytes@.len() <= usize::MAX
        &&& match self.format {
            FrameFormat::Mjpeg => false,
            FrameFormat::Yuyv | FrameFormat::Gray => true,
            FrameFormat::RawRgb => self.bytes@.len() == self.size(),
            FrameFormat::RawBgr => self.size() <= u32::MAX,
            FrameFormat::Nv12 => self.size() <= u32::MAX && !(self.width == 0 && self.height % 2
                == 0 && self.bytes@.len() == 0),
        }
    }

    /// Whether the frame can be handed to the decoder at all.
    pub fn is_decodable(&self) -> (decodable: bool)
        ensures
            decodable == self.decodable(),
    {
        proof {
            let (width, height) = (self.width as int, self.height as int);
            assert(0 <= width * height <= 0xffff_ffff * 0xffff_ffff) by (nonlinear_arith)
                requires
                    0 <= width <= 0xffff_ffff,
                    0 <= height <= 0xffff_ffff,
            ;
        }
        let size: u128 = self.width as u128 * self.height as u128 * 3;
        let length: u128 = self.bytes.len() as u128;
        if size > usize::MAX as u128 || 3 * length > usize::MAX as u128 {
            return false;
        }
        match self.format {
            FrameFormat::Mjpeg => false,
            FrameFormat::Yuyv | FrameFormat::Gray => true,
            FrameFormat::RawRgb => length == size,
            FrameFormat::RawBgr => size <= u32::MAX as u128,
            FrameFormat::Nv12 => size <= u32::MAX as u128 && !(self.width == 0 && self.height % 2
                == 0 && length == 0),
        }
    }

    /// Whether there are as many bytes as a frame of this size takes. Formats
    /// that share chroma between rows, and one that does not, want even sides.
    pub open spec fn fits(&self) -> bool {
        let even = self.width % 2 == 0 && self.height % 2 == 0;
        match self.format {
            FrameFormat::Mjpeg => false,
            FrameFormat::Yuyv => self.bytes@.len() % 4 == 0 && self.bytes@.len() / 4 * 6
                == self.size(),
            FrameFormat::Gray => self.bytes@.len() * 3 == self.size(),
            FrameFormat::RawRgb => true,
            FrameFormat::RawBgr => even && self.bytes@.len() == self.size(),
            FrameFormat::Nv12 => even && self.bytes@.len() == self.size() / 2,
        }
    }

    /// The byte at one place of the decoded frame.
    pub open spec fn decoded_at(&self, at: int) -> u8 {
        let (pixel, channel) = (at / 3, at % 3);
        match self.format {
            FrameFormat::Gray => self.bytes@[pixel],
            FrameFormat::RawBgr => self.bytes@[3 * pixel + 2 - channel],
            FrameFormat::Yuyv => {
                let block = pixel / 2 * 4;
                let y = self.bytes@[block + 2 * (pixel % 2)];
                mixed(y, self.bytes@[block + 1], self.bytes@[block + 3], channel)
            },
            FrameFormat::Nv12 => {
                let (row, column) = (pixel / self.width as int, pixel % self.width as int);
                let chroma = self.width * self.height + row / 2 * self.width + column / 2 * 2;
                mixed(self.bytes@[pixel], self.bytes@[chroma], self.bytes@[chroma + 1], channel)
            },
            _ => self.bytes@[at],
        }
    }

    /// The decoded frame.
    pub open spec fn decoded(&self) -> Seq<u8> {
        Seq::new(self.size() as nat, |at: int| self.decoded_at(at))
    }
}

/// A decoded frame has three bytes for every pixel and no others, so it can be
/// turned.
pub proof fn a_decoded_frame_has_every_pixel(grabbed: Grabbed)
    ensures
        grabbed.decoded().len() == grabbed.width * grabbed.height * 3,
{
    let (width, height) = (grabbed.width as int, grabbed.height as int);
    assert(width * height * 3 >= 0) by (nonlinear_arith)
        requires
            width >= 0,
            height >= 0,
    ;
}

/// A frame of red, green and blue is left as it is, and one the other way round
/// is that frame with each pixel reversed.
pub proof fn plain_frames_keep_their_pixels(grabbed: Grabbed, pixel: int, channel: int)
    requires
        0 <= pixel < grabbed.width * grabbed.height,
        0 <= channel < 3,
    ensures
        grabbed.format == FrameFormat::RawRgb ==> grabbed.decoded()[3 * pixel + channel]
            == grabbed.bytes@[3 * pixel + channel],
        grabbed.format == FrameFormat::RawBgr ==> grabbed.decoded()[3 * pixel + channel]
            == grabbed.bytes@[3 * pixel + 2 - channel],
        grabbed.format == FrameFormat::Gray ==> grabbed.decoded()[3 * pixel + channel]
            == grabbed.bytes@[pixel],
{
    let at = 3 * pixel + channel;
    assert(0 <= at < grabbed.size());
    assert(at / 3 == pixel && at % 3 == channel);
}

/// What the decoder says of a frame it refuses.
pub uninterp spec fn decode_failure(
    format: FrameFormat,
    width: u32,
    height: u32,
    length: nat,
) -> Seq<char>;

/// `nokhwa::Buffer::decode_image_to_buffer` with `RgbFormat`: fills a buffer of
/// the decoded size exactly when the frame has as many bytes as its format takes.
/// Plain formats are copied, channel by channel where they are ordered otherwise;
/// formats of luma and chroma go through the integer approximation of the video
/// standard. What it says of a frame it refuses depends on the format and the
/// sizes alone.
#[verifier::external_body]
fn decode_image_to_buffer(grabbed: &Grabbed, rgb: &mut Vec<u8>) -> (outcome: Result<(), String>)
    requires
        grabbed.decodable(),
        old(rgb)@.len() == grabbed.size(),
    ensures
        (outcome is Ok) == grabbed.fits(),
        outcome is Ok ==> final(rgb)@ == grabbed.decoded(),
        outcome matches Err(text) ==> text@ == decode_failure(
            grabbed.format,
            grabbed.width,
            grabbed.height,
            grabbed.bytes@.len(),
        ),
{
    let format = match grabbed.format {
        FrameFormat::Mjpeg => nokhwa::utils::FrameFormat::MJPEG,
        FrameFormat::Nv12 => nokhwa::utils::FrameFormat::NV12,
        FrameFormat::Yuyv => nokhwa::utils::FrameFormat::YUYV,
        FrameFormat::RawRgb => nokhwa::utils::FrameFormat::RAWRGB,
        FrameFormat::RawBgr => nokhwa::utils::FrameFormat::RAWBGR,
        FrameFormat::Gray => nokhwa::utils::FrameFormat::GRAY,
    };
    let resolution = Resolution::new(grabbed.width, grabbed.height);
    let buffer = nokhwa::Buffer::new(resolution, &grabbed.bytes, format);
    buffer.decode_image_to_buffer::<RgbFormat>(rgb).map_err(|err| err.to_string())
}

/// The pixels of a frame a device handed over.
pub fn decode_frame(grabbed: &Grabbed) -> (rgb: Result<Vec<u8>, String>)
    requires
        grabbed.decodable(),
    ensures
        (rgb is Ok) == grabbed.fits(),
        rgb matches Ok(pixels) ==> pixels@ == grabbed.decoded(),
        rgb matches Err(text) ==> text@ == "failed to decode a frame: "@ + decode_failure(
            grabbed.format,
            grabbed.width,
            grabbed.height,
            grabbed.bytes@.len(),
        ),
{
    let (width, height): (usize, usize) = (grabbed.width as usize, grabbed.height as usize);
    proof {
        assert(width * height <= width * height * 3) by (nonlinear_arith);
    }
    let mut pixels: Vec<u8> = vec![0u8; width * height * 3];
    match decode_image_to_buffer(grabbed, &mut pixels) {
        Ok(()) => Ok(pixels),
        Err(cause) => {
            let mut text: String = "failed to decode a frame: ".to_owned();
            text.append(cause.as_str());
            Err(text)
        },
    }
}

/// An image read from a file.
#[derive(Debug, Clone)]
pub struct Decoded {
    pub width: u32,
    pub height: u32,
    pub rgb: Vec<u8>,
}

/// Whether a file is named as a PNG image: something, a dot and the three letters,
/// in capitals or not. What comes before the dot is part of the file's own name on
/// every platform.
pub open spec fn named_png(path: Seq<char>) -> bool {
    let n = path.len();
    &&& n >= 5
    &&& path[n - 5] != '/' && path[n - 5] != '\\' && path[n - 5] != ':'
    &&& path[n - 4] == '.'
    &&& (path[n - 3] == 'p' || path[n - 3] == 'P')
    &&& (path[n - 2] == 'n' || path[n - 2] == 'N')
    &&& (path[n - 1] == 'g' || path[n - 1] == 'G')
}

/// Whether a file is named as a PNG image.
pub fn is_named_png(path: &String) -> (named: bool)
    ensures
        named == named_png(path@),
{
    let name: &str = path.as_str();
    let n: usize = name.unicode_len();
    if n < 5 {
        return false;
    }
    let before: char = name.get_char(n - 5);
    let dot: char = name.get_char(n - 4);
    let (a, b, c): (char, char, char) = (
        name.get_char(n - 3),
        name.get_char(n - 2),
        name.get_char(n - 1),
    );
    before != '/' && before != '\\' && before != ':' && dot == '.' && (a == 'p' || a == 'P') && (b
        == 'n' || b == 'N') && (c == 'g' || c == 'G')
}

/// Whether the mark of a palette stands at this place of a file.
pub open spec fn palette_at(bytes: Seq<u8>, at: int) -> bool {
    &&& 4 <= at && at + 4 <= bytes.len()
    &&& bytes[at] == 0x50
    &&& bytes[at + 1] == 0x4c
    &&& bytes[at + 2] == 0x54
    &&& bytes[at + 3] == 0x45
}

/// The length that stands before a mark.
pub open spec fn length_before(bytes: Seq<u8>, at: int) -> int {
    bytes[at - 4] * 0x100_0000 + bytes[at - 3] * 0x1_0000 + bytes[at - 2] * 0x100 + bytes[at - 1]
}

/// Whether every palette of a PNG image ends with a whole colour of three bytes.
pub open spec fn whole_palettes(bytes: Seq<u8>) -> bool {
    forall|at: int| #[trigger] palette_at(bytes, at) ==> length_before(bytes, at) % 3 == 0
}

/// Whether every palette of a PNG image ends with a whole colour of three bytes.
pub fn has_whole_palettes(bytes: &Vec<u8>) -> (whole: bool)
    ensures
        whole == whole_palettes(bytes@),
{
    if bytes.len() < 8 {
        return true;
    }
    let mut at: usize = 4;
    while at <= bytes.len() - 4
        invariant
            bytes.len() >= 8,
            4 <= at <= bytes.len() - 3,
            forall|k: int| k < at && #[trigger] palette_at(bytes@, k) ==> length_before(
                bytes@,
                k,
            ) % 3 == 0,
        decreases bytes.len() - at,
    {
        if bytes[at] == 0x50 && bytes[at + 1] == 0x4c && bytes[at + 2] == 0x54 && bytes[at + 3]
            == 0x45 {
            let length: u32 = bytes[at - 4] as u32 * 0x100_0000 + bytes[at - 3] as u32 * 0x1_0000
                + bytes[at - 2] as u32 * 0x100 + bytes[at - 1] as u32;
            if length % 3 != 0 {
                assert(palette_at(bytes@, at as int));
                return false;
            }
        }
        at = at + 1;
    }
    true
}

/// What the content of a PNG file decodes to: its width, its height and its
/// pixels, or what is wrong with it.
pub uninterp spec fn decoded_png(bytes: Seq<u8>) -> Result<(u32, u32, Seq<u8>), Seq<char>>;

/// `image::load_from_memory_with_format` with `ImageFormat::Png`: the image, turned
/// into three bytes to a pixel, or what is wrong with the content. An image has
/// three bytes for every pixel and no others. A palette that breaks off within a
/// colour would panic, so none is handed over.
#[verifier::external_body]
pub(crate) fn decode_png(bytes: &Vec<u8>) -> (still: Result<Decoded, String>)
    requires
        whole_palettes(bytes@),
    ensures
        match still {
            Ok(image) => decoded_png(bytes@) == Ok::<(u32, u32, Seq<u8>), Seq<char>>(
                (image.width, image.height, image.rgb@),
            ),
            Err(cause) => decoded_png(bytes@) == Err::<(u32, u32, Seq<u8>), Seq<char>>(cause@),
        },
        still matches Ok(image) ==> image.rgb@.len() == image.width * image.height * 3,
{
    let image = image::load_from_memory_with_format(bytes, image::ImageFormat::Png)
        .map_err(|err| err.to_string())?;
    let pixels = image.to_rgb8();
    let (width, height) = pixels.dimensions();
    Ok(Decoded { width, height, rgb: pixels.into_raw() })
}

/// A colour is the nearest level below what the weights of the standard for video give,
/// held within a byte.
pub proof fn colours_are_mixed_by_the_weights_of_video(y: u8, u: u8, v: u8)
    ensures
        ({
            let red = 298 * (y - 16) + 409 * (v - 128) + 128;
            let green = 298 * (y - 16) - 100 * (u - 128) - 208 * (v - 128) + 128;
            let blue = 298 * (y - 16) + 516 * (u - 128) + 128;
            let level = |exact: int, byte: u8|
                {
                    &&& exact < 256 ==> byte == 0
                    &&& exact >= 255 * 256 ==> byte == 255
                    &&& 0 <= exact < 256 * 256 ==> byte * 256 <= exact < (byte + 1) * 256
                };
            &&& level(red, mixed(y, u, v, 0))
            &&& level(green, mixed(y, u, v, 1))
            &&& level(blue, mixed(y, u, v, 2))
        }),
{
}

/// Where a frame carries two pixels in four bytes, each pixel has its own brightness
/// and shares its colour with its neighbour.
pub proof fn two_pixels_share_a_colour(grabbed: Grabbed, pair: int, channel: int)
    requires
        grabbed.format == FrameFormat::Yuyv,
        0 <= pair,
        2 * pair + 1 < grabbed.width * grabbed.height,
        0 <= channel < 3,
    ensures
        ({
            let bytes = grabbed.bytes@;
            let (u, v) = (bytes[4 * pair + 1], bytes[4 * pair + 3]);
            &&& grabbed.decoded()[6 * pair + channel] == mixed(bytes[4 * pair], u, v, channel)
            &&& grabbed.decoded()[6 * pair + 3 + channel] == mixed(
                bytes[4 * pair + 2],
                u,
                v,
                channel,
            )
        }),
{
    assert((6 * pair + channel) / 3 == 2 * pair && (6 * pair + channel) % 3 == channel);
    assert((6 * pair + 3 + channel) / 3 == 2 * pair + 1);
    assert((6 * pair + 3 + channel) % 3 == channel);
    assert((2 * pair) / 2 * 4 == 4 * pair && (2 * pair) % 2 == 0);
    assert((2 * pair + 1) / 2 * 4 == 4 * pair && (2 * pair + 1) % 2 == 1);
    assert(grabbed.size() == 3 * (grabbed.width * grabbed.height)) by (nonlinear_arith)
        requires
            grabbed.size() == grabbed.width * grabbed.height * 3,
    ;
}

/// Where a frame carries its colours after its brightness, every pixel has its own
/// brightness and shares its colour with the other three of its square.
pub proof fn four_pixels_share_a_colour(grabbed: Grabbed, x: int, y: int, channel: int)
    requires
        grabbed.format == FrameFormat::Nv12,
        0 <= x < grabbed.width,
        0 <= y < grabbed.height,
        0 <= channel < 3,
    ensures
        ({
            let bytes = grabbed.bytes@;
            let (w, h) = (grabbed.width as int, grabbed.height as int);
            let colour = w * h + y / 2 * w + x / 2 * 2;
            grabbed.decoded()[(y * w + x) * 3 + channel] == mixed(
                bytes[y * w + x],
                bytes[colour],
                bytes[colour + 1],
                channel,
            )
        }),
{
    let (w, h) = (grabbed.width as int, grabbed.height as int);
    let pixel = y * w + x;
    let at = pixel * 3 + channel;
    assert(0 <= pixel < w * h) by (nonlinear_arith)
        requires
            pixel == y * w + x,
            0 <= x < w,
            0 <= y < h,
    ;
    assert(at / 3 == pixel && at % 3 == channel);
    vstd::arithmetic::div_mod::lemma_fundamental_div_mod_converse(pixel, w, y, x);
    assert(0 <= at < grabbed.size()) by (nonlinear_arith)
        requires
            grabbed.size() == w * h * 3,
            at == pixel * 3 + channel,
            0 <= pixel < w * h,
            0 <= channel < 3,
    ;
}

/// A frame fits that has as many bytes as its pixels take: one for grey, three in plain
/// colour, two where pairs share a colour and one and a half where squares do, and then
/// only where every pixel is in a whole pair or square.
pub proof fn a_frame_fits_by_its_bytes(grabbed: Grabbed)
    ensures
        ({
            let (n, pixels) = (grabbed.bytes@.len() as int, grabbed.width * grabbed.height);
            let even = grabbed.width % 2 == 0 && grabbed.height % 2 == 0;
            match grabbed.format {
                FrameFormat::Gray => grabbed.fits() <==> n == pixels,
                FrameFormat::Yuyv => grabbed.fits() <==> n == 2 * pixels && n % 4 == 0,
                FrameFormat::RawBgr => grabbed.fits() <==> n == 3 * pixels && even,
                FrameFormat::Nv12 => grabbed.fits() <==> n == pixels * 3 / 2 && even,
                FrameFormat::RawRgb => grabbed.fits(),
                FrameFormat::Mjpeg => !grabbed.fits(),
            }
        }),
{
    let pixels = grabbed.width * grabbed.height;
    assert(grabbed.size() == 3 * pixels) by (nonlinear_arith)
        requires
            grabbed.size() == grabbed.width * grabbed.height * 3,
            pixels == grabbed.width * grabbed.height,
    ;
}

/// A path names a still if it ends in the extension, in letters of either size, after a
/// name that is not empty.
pub proof fn a_still_is_named_by_its_extension(stem: Seq<char>, p: char, n: char, g: char)
    requires
        stem.len() > 0,
        stem.last() != '/' && stem.last() != '\\' && stem.last() != ':',
    ensures
        named_png(stem.push('.').push(p).push(n).push(g)) <==> (p == 'p' || p == 'P') && (n == 'n'
            || n == 'N') && (g == 'g' || g == 'G'),
        !named_png(seq!['.', p, n, g]),
        !named_png(stem.push('/').push('.').push(p).push(n).push(g)),
{
    let path = stem.push('.').push(p).push(n).push(g);
    assert(path[path.len() - 5] == stem.last());
}

/// The length before a palette is read from its four bytes, the highest first, so that it
/// is whole colours exactly if the four add up to such.
pub proof fn a_palette_is_whole_colours(bytes: Seq<u8>, at: int)
    requires
        4 <= at <= bytes.len(),
    ensures
        length_before(bytes, at) == ((bytes[at - 4] * 256 + bytes[at - 3]) * 256 + bytes[at - 2])
            * 256 + bytes[at - 1],
        length_before(bytes, at) % 3 == (bytes[at - 4] + bytes[at - 3] + bytes[at - 2] + bytes[at
            - 1]) % 3,
        whole_palettes(bytes) && at + 4 <= bytes.len() && bytes.subrange(at, at + 4) == seq![
            0x50u8, 0x4c, 0x54, 0x45,
        ] ==> length_before(bytes, at) % 3 == 0,
{
    let tag = seq![0x50u8, 0x4c, 0x54, 0x45];
    if at + 4 <= bytes.len() && bytes.subrange(at, at + 4) == tag {
        let piece = bytes.subrange(at, at + 4);
        assert(piece[0] == 0x50 && piece[1] == 0x4c && piece[2] == 0x54 && piece[3] == 0x45);
        assert(palette_at(bytes, at));
    }
}

} // verus!
