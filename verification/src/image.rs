//! Decoded images: raw samples are normalised to rounded colours, the distinct colours
//! are counted, and every colour gets its palette index.

use crate::color::{luminance_index, RGB};
use crate::palette::{
    enumerate_color_numbers, lemma_ascending_distinct, rgbs_to_color_number, strictly_ascending,
    ColorSet, Palette,
};
use vstd::prelude::*;

verus! {

/// The largest number of distinct colours that a tile set can show.
pub const GB_MAX_COLOR_COUNT: usize = 4;

/// How the samples of one pixel lie in a raw buffer.
#[derive(Copy, Clone, Debug, PartialEq, Eq, Structural)]
pub enum ColorType {
    /// One sample: the grey level.
    Grayscale,
    /// Three samples: red, green, blue.
    RGB,
    /// One sample: a position in a colour table. Not supported.
    Indexed,
    /// Two samples: the grey level, then alpha.
    GrayscaleAlpha,
    /// Four samples: red, green, blue, then alpha.
    RGBA,
}

impl ColorType {
    /// The number of bytes that one pixel takes, or `None` for a layout that is not
    /// supported.
    pub open spec fn channels(self) -> Option<nat> {
        match self {
            ColorType::Grayscale => Some(1),
            ColorType::RGB => Some(3),
            ColorType::Indexed => None,
            ColorType::GrayscaleAlpha => Some(2),
            ColorType::RGBA => Some(4),
        }
    }

    /// The number of bytes that one pixel takes, or `None` for a layout that is not
    /// supported.
    pub fn samples(&self) -> (res: Option<usize>)
        ensures
            match res {
                Some(n) => self.channels() == Some(n as nat),
                None => self.channels() is None,
            },
    {
        match self {
            ColorType::Grayscale => Some(1),
            ColorType::RGB => Some(3),
            ColorType::Indexed => None,
            ColorType::GrayscaleAlpha => Some(2),
            ColorType::RGBA => Some(4),
        }
    }
}

/// What a decoder reports of an image: its size in pixels and the layout of its samples.
#[derive(Copy, Clone, Debug, PartialEq, Eq, Structural)]
pub struct ImageInfo {
    pub width: u32,
    pub height: u32,
    pub color_type: ColorType,
}

impl ImageInfo {
    /// Whether `buf` holds exactly one pixel of this layout for each pixel of the image.
    /// Of a layout that is not supported nothing is asked.
    pub open spec fn describes(self, buf: Seq<u8>) -> bool {
        match self.color_type.channels() {
            Some(n) => buf.len() == self.width * self.height * n,
            None => true,
        }
    }

    /// Whether `buf` holds exactly one pixel of this layout for each pixel of the image.
    pub fn matches_buffer(&self, buf: &Vec<u8>) -> (res: bool)
        ensures
            res == self.describes(buf@),
    {
        match self.color_type.samples() {
            Some(n) => {
                assert(self.width * self.height <= 0xFFFF_FFFF * 0xFFFF_FFFF) by (nonlinear_arith)
                    requires
                        self.width <= 0xFFFF_FFFF,
                        self.height <= 0xFFFF_FFFF,
                ;
                let pixels: u128 = (self.width as u128) * (self.height as u128);
                assert(pixels * n <= 0xFFFF_FFFF * 0xFFFF_FFFF * 4) by (nonlinear_arith)
                    requires
                        0 <= pixels <= 0xFFFF_FFFF * 0xFFFF_FFFF,
                        0 <= n <= 4,
                ;
                let wanted: u128 = pixels * (n as u128);
                buf.len() as u128 == wanted
            },
            None => true,
        }
    }
}

/// Why an image could not be turned into colours and palette indices.
#[derive(Debug)]
pub enum ImageReadError {
    /// The layout of the samples is not supported.
    UnsupportedColorType(ColorType),
    /// A fifth distinct colour was met: `colors` holds the five colours seen so far, in
    /// ascending order, and `position` is the pixel that brought the fifth.
    TooManyColors { colors: Vec<RGB>, position: usize },
}

/// How colours get their palette index, and whether more than four distinct colours
/// are refused.
#[derive(Copy, Clone, Debug, PartialEq, Eq, Structural)]
pub enum QuantizationPolicy {
    /// The index follows from the sum of the channels; any number of distinct colours
    /// is accepted, and colours may share an index.
    Luminance,
    /// The index follows from the sum of the channels; a fifth distinct colour is
    /// refused.
    StrictLuminance,
    /// The distinct colours are numbered in ascending order; a fifth distinct colour
    /// is refused.
    Enumeration,
}

impl QuantizationPolicy {
    /// Whether the policy refuses a fifth distinct colour.
    pub open spec fn has_budget(self) -> bool {
        self != QuantizationPolicy::Luminance
    }
}

/// The colour of pixel `i` before rounding, read from a buffer of the given layout.
pub open spec fn raw_pixel(color_type: ColorType, buf: Seq<u8>, i: int) -> RGB {
    match color_type {
        ColorType::Grayscale => RGB { r: buf[i], g: buf[i], b: buf[i] },
        ColorType::GrayscaleAlpha => RGB { r: buf[2 * i], g: buf[2 * i], b: buf[2 * i] },
        ColorType::RGB => RGB { r: buf[3 * i], g: buf[3 * i + 1], b: buf[3 * i + 2] },
        ColorType::RGBA => RGB { r: buf[4 * i], g: buf[4 * i + 1], b: buf[4 * i + 2] },
        ColorType::Indexed => RGB { r: 0, g: 0, b: 0 },
    }
}

/// The pixel buffer of a raw buffer: one rounded colour for each pixel, in the order
/// of the buffer, alpha dropped and grey levels spread over the three channels.
pub open spec fn normalized(color_type: ColorType, buf: Seq<u8>) -> Seq<RGB> {
    match color_type.channels() {
        Some(n) => Seq::new(buf.len() / n, |i: int| raw_pixel(color_type, buf, i).rounded()),
        None => Seq::empty(),
    }
}

/// Turns the raw samples of a decoded image into rounded colours, one per pixel.
///
/// The buffer must hold whole pixels. A layout that is not supported is refused with
/// [`ImageReadError::UnsupportedColorType`], whatever the buffer holds.
pub fn read_image_data(info: &ImageInfo, image_buf: Vec<u8>) -> (res: Result<
    Vec<RGB>,
    ImageReadError,
>)
    requires
        info.color_type.channels() matches Some(n) ==> image_buf@.len() % n == 0,
    ensures
        match res {
            Ok(image_data) => info.color_type.channels() is Some && image_data@ == normalized(
                info.color_type,
                image_buf@,
            ),
            Err(ImageReadError::UnsupportedColorType(t)) => info.color_type.channels() is None && t
                == info.color_type,
            Err(_) => false,
        },
{
    let (step, green, blue): (usize, usize, usize) = match info.color_type {
        ColorType::RGB => (3, 1, 2),
        ColorType::RGBA => (4, 1, 2),
        ColorType::Grayscale => (1, 0, 0),
        ColorType::GrayscaleAlpha => (2, 0, 0),
        color_type => {
            return Err(ImageReadError::UnsupportedColorType(color_type));
        },
    };
    let ghost pixels = normalized(info.color_type, image_buf@);
    let mut image_data: Vec<RGB> = Vec::new();
    let mut at: usize = 0;
    while at < image_buf.len()
        invariant
            info.color_type.channels() == Some(step as nat),
            1 <= step <= 4,
            green < step,
            blue < step,
            info.color_type == ColorType::RGB || info.color_type == ColorType::RGBA ==> green == 1
                && blue == 2,
            info.color_type == ColorType::Grayscale || info.color_type
                == ColorType::GrayscaleAlpha ==> green == 0 && blue == 0,
            image_buf@.len() % (step as nat) == 0,
            at <= image_buf@.len(),
            at == step * image_data@.len(),
            pixels == normalized(info.color_type, image_buf@),
            image_data@ == pixels.subrange(0, image_data@.len() as int),
            image_data@.len() <= pixels.len(),
        decreases image_buf@.len() - at,
    {
        let ghost i = image_data@.len() as int;
        proof {
            lemma_whole_pixels(image_buf@.len() as int, step as int, i);
        }
        let rgb = RGB { r: image_buf[at], g: image_buf[at + green], b: image_buf[at + blue] };
        assert(rgb == raw_pixel(info.color_type, image_buf@, i));
        image_data.push(rgb.round());
        assert(image_data@ =~= pixels.subrange(0, i + 1));
        at += step;
    }
    proof {
        lemma_whole_pixels_end(image_buf@.len() as int, step as int, image_data@.len() as int);
        assert(image_data@ =~= pixels);
    }
    Ok(image_data)
}

/// In a buffer of whole pixels, a pixel that starts inside the buffer lies wholly in it
/// and is one of the `len / step` pixels.
proof fn lemma_whole_pixels(len: int, step: int, i: int)
    by (nonlinear_arith)
    requires
        1 <= step,
        0 <= i,
        len % step == 0,
        step * i < len,
    ensures
        step * i + step <= len,
        i < len / step,
{
}

/// A buffer of whole pixels that ends where pixel `i` would start holds `i` pixels.
proof fn lemma_whole_pixels_end(len: int, step: int, i: int)
    by (nonlinear_arith)
    requires
        1 <= step,
        0 <= i,
        step * i == len,
    ensures
        len / step == i,
{
}

/// Whether the pixel at `position` brings the fifth distinct colour of `pixels`.
pub open spec fn fifth_color_at(pixels: Seq<RGB>, position: int) -> bool {
    &&& 0 <= position < pixels.len()
    &&& pixels.take(position).to_set().len() <= 4
    &&& pixels.take(position + 1).to_set().len() == 5
}

/// The distinct colours of `pixels` in ascending order by `(r, g, b)`.
pub open spec fn distinct_ascending(pixels: Seq<RGB>) -> Seq<RGB> {
    choose|s: Seq<RGB>| strictly_ascending(s) && s.to_set() == pixels.to_set()
}

/// The colours of the first `i + 1` pixels are those of the first `i` and pixel `i`.
proof fn lemma_take_next(pixels: Seq<RGB>, i: int)
    requires
        0 <= i < pixels.len(),
    ensures
        pixels.take(i + 1).to_set() == pixels.take(i).to_set().insert(pixels[i]),
{
    let a = pixels.take(i + 1);
    let b = pixels.take(i);
    assert forall|c: RGB| a.to_set().contains(c) == b.to_set().insert(pixels[i]).contains(c) by {
        if a.contains(c) {
            let k = choose|k: int| 0 <= k < a.len() && a[k] == c;
            if k < i {
                assert(b[k] == c);
            }
        }
        if b.contains(c) {
            let k = choose|k: int| 0 <= k < b.len() && b[k] == c;
            assert(a[k] == c);
        }
        if c == pixels[i] {
            assert(a[i] == c);
        }
    }
    assert(a.to_set() =~= b.to_set().insert(pixels[i]));
}

/// The colours of a prefix are among the colours of the whole, so there are no more
/// of them.
proof fn lemma_prefix_colors(pixels: Seq<RGB>, i: int)
    requires
        0 <= i <= pixels.len(),
    ensures
        pixels.take(i).to_set().len() <= pixels.to_set().len(),
{
    let a = pixels.take(i);
    assert forall|c: RGB| a.to_set().contains(c) implies pixels.to_set().contains(c) by {
        let k = choose|k: int| 0 <= k < a.len() && a[k] == c;
        assert(pixels[k] == c);
    }
    vstd::seq_lib::seq_to_set_is_finite(pixels);
    vstd::set_lib::lemma_len_subset(a.to_set(), pixels.to_set());
}

/// Gathers the distinct colours of `image_data`, in ascending order.
///
/// With `budget` set, the scan stops at the pixel that brings a fifth distinct colour
/// and reports the five colours seen and that pixel's position; this happens exactly
/// when the image has more than four distinct colours.
pub fn collect_colors(image_data: &Vec<RGB>, budget: bool) -> (res: Result<
    ColorSet,
    ImageReadError,
>)
    ensures
        match res {
            Ok(unique_colors) => {
                &&& unique_colors.wf()
                &&& unique_colors@ == distinct_ascending(image_data@)
                &&& unique_colors@.to_set() == image_data@.to_set()
                &&& budget ==> image_data@.to_set().len() <= GB_MAX_COLOR_COUNT
            },
            Err(ImageReadError::TooManyColors { colors, position }) => {
                &&& budget
                &&& image_data@.to_set().len() > GB_MAX_COLOR_COUNT
                &&& fifth_color_at(image_data@, position as int)
                &&& colors@ == distinct_ascending(image_data@.take(position + 1))
                &&& colors@.len() == 5
            },
            Err(_) => false,
        },
{
    let mut unique_colors = ColorSet::new();
    let mut i: usize = 0;
    assert(image_data@.take(0) =~= Seq::<RGB>::empty());
    assert(unique_colors@.to_set() =~= image_data@.take(0).to_set());
    while i < image_data.len()
        invariant
            i <= image_data@.len(),
            unique_colors.wf(),
            unique_colors@.to_set() == image_data@.take(i as int).to_set(),
            budget ==> unique_colors@.len() <= GB_MAX_COLOR_COUNT,
        decreases image_data@.len() - i,
    {
        let ghost seen = unique_colors@;
        unique_colors.insert(image_data[i]);
        proof {
            lemma_take_next(image_data@, i as int);
            lemma_ascending_distinct(seen);
            lemma_ascending_distinct(unique_colors@);
        }
        if budget && unique_colors.len() > GB_MAX_COLOR_COUNT {
            let colors = unique_colors.to_vec();
            proof {
                lemma_prefix_colors(image_data@, i + 1);
                lemma_distinct_ascending(image_data@.take(i + 1), colors@);
            }
            return Err(ImageReadError::TooManyColors { colors, position: i });
        }
        i += 1;
    }
    proof {
        assert(image_data@.take(i as int) =~= image_data@);
        lemma_ascending_distinct(unique_colors@);
        lemma_distinct_ascending(image_data@, unique_colors@);
    }
    Ok(unique_colors)
}

/// A sequence in strictly ascending order that holds the colours of `pixels` is the
/// sequence of their distinct colours in ascending order: there is no other.
pub proof fn lemma_distinct_ascending(pixels: Seq<RGB>, s: Seq<RGB>)
    requires
        strictly_ascending(s),
        s.to_set() == pixels.to_set(),
    ensures
        s == distinct_ascending(pixels),
{
    let d = distinct_ascending(pixels);
    crate::palette::lemma_ascending_unique(s, d);
}

/// Whether `palette` holds exactly the colours of `pixels`, each with the index that
/// `policy` gives it.
pub open spec fn assigns(policy: QuantizationPolicy, pixels: Seq<RGB>, palette: Map<RGB, u8>) -> bool {
    &&& palette.dom() == pixels.to_set()
    &&& match policy {
        QuantizationPolicy::Enumeration => forall|i: int|
            0 <= i < distinct_ascending(pixels).len() ==> #[trigger] palette[distinct_ascending(
                pixels,
            )[i]] == i,
        _ => forall|c: RGB|
            palette.contains_key(c) ==> #[trigger] palette[c] == luminance_index(c.channel_sum()),
    }
}

/// An image ready for packing: its pixels as rounded colours, row by row, and the
/// palette index of every colour among them.
pub struct DecodedImage {
    pub input_filename: String,
    pub info: ImageInfo,
    pub image_data: Vec<RGB>,
    pub color_numbers: Palette,
}

impl DecodedImage {
    /// The invariant of the type: there is one colour for each pixel of the image, and
    /// the palette holds every colour that occurs.
    pub open spec fn wf(&self) -> bool {
        &&& self.image_data@.len() == self.info.width * self.info.height
        &&& self.color_numbers.wf()
        &&& self.color_numbers@.dom() == self.image_data@.to_set()
    }

    /// The palette index of `pixel`, which must be a colour of the image.
    pub fn lookup_color(&self, pixel: &RGB) -> (res: u8)
        requires
            self.color_numbers.wf(),
            self.color_numbers@.contains_key(*pixel),
        ensures
            res == self.color_numbers@[*pixel],
            res <= 3,
    {
        proof {
            self.color_numbers.lemma_wf();
        }
        self.color_numbers.lookup(pixel).unwrap()
    }
}

/// A buffer that holds `pixels` pixels of `step` bytes each holds whole pixels, and
/// `pixels` of them.
proof fn lemma_buffer_pixels(len: int, pixels: int, step: int)
    by (nonlinear_arith)
    requires
        1 <= step,
        0 <= pixels,
        len == pixels * step,
    ensures
        len % step == 0,
        len / step == pixels,
{
}

/// Builds the image that the packer works on from what a decoder hands over: the
/// samples are normalised to rounded colours, the distinct colours are gathered, and
/// each gets its palette index under `policy`.
///
/// A layout that is not supported is refused. Under a policy with a colour budget an
/// image of more than four distinct colours is refused at the pixel that brings the
/// fifth. Every other image is accepted.
pub fn decode_image(
    image_input: &str,
    info: ImageInfo,
    image_buf: Vec<u8>,
    policy: QuantizationPolicy,
) -> (res: Result<DecodedImage, ImageReadError>)
    requires
        info.describes(image_buf@),
    ensures
        match res {
            Ok(decoded) => {
                &&& info.color_type.channels() is Some
                &&& decoded.wf()
                &&& decoded.input_filename@ == image_input@
                &&& decoded.info == info
                &&& decoded.image_data@ == normalized(info.color_type, image_buf@)
                &&& assigns(policy, decoded.image_data@, decoded.color_numbers@)
                &&& policy.has_budget() ==> decoded.image_data@.to_set().len()
                    <= GB_MAX_COLOR_COUNT
            },
            Err(ImageReadError::UnsupportedColorType(t)) => info.color_type.channels() is None && t
                == info.color_type,
            Err(ImageReadError::TooManyColors { colors, position }) => {
                let pixels = normalized(info.color_type, image_buf@);
                &&& info.color_type.channels() is Some
                &&& policy.has_budget()
                &&& pixels.to_set().len() > GB_MAX_COLOR_COUNT
                &&& fifth_color_at(pixels, position as int)
                &&& colors@ == distinct_ascending(pixels.take(position + 1))
            },
        },
{
    proof {
        if let Some(n) = info.color_type.channels() {
            lemma_buffer_pixels(
                image_buf@.len() as int,
                info.width * info.height,
                n as int,
            );
        }
    }
    let image_data = match read_image_data(&info, image_buf) {
        Ok(image_data) => image_data,
        Err(e) => {
            return Err(e);
        },
    };
    let budget = match policy {
        QuantizationPolicy::Luminance => false,
        _ => true,
    };
    let unique_colors = match collect_colors(&image_data, budget) {
        Ok(unique_colors) => unique_colors,
        Err(e) => {
            return Err(e);
        },
    };
    proof {
        lemma_ascending_distinct(unique_colors@);
    }
    let color_numbers = match policy {
        QuantizationPolicy::Enumeration => enumerate_color_numbers(&unique_colors),
        _ => rgbs_to_color_number(&unique_colors),
    };
    Ok(DecodedImage { input_filename: image_input.to_owned(), info, image_data, color_numbers })
}

} // verus!
