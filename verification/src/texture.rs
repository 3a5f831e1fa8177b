//! Block textures: 16 by 16 RGBA rasters and what is derived from them.

use vstd::prelude::*;

verus! {

/// Width and height of a block texture.
pub const TEXTURE_SIZE: usize = 16;

/// Number of pixels of a block texture.
pub const TEXTURE_PIXELS: usize = 256;

/// One pixel with an alpha channel.
#[derive(Debug, Clone, Copy, PartialEq, Eq, Structural)]
pub struct Rgba {
    pub r: u8,
    pub g: u8,
    pub b: u8,
    pub a: u8,
}

/// One opaque colour.
#[derive(Debug, Clone, Copy, PartialEq, Eq, Structural)]
pub struct Rgb {
    pub r: u8,
    pub g: u8,
    pub b: u8,
}

/// A signed offset for each colour channel.
#[derive(Debug, Clone, Copy, PartialEq, Eq, Structural)]
pub struct Tint {
    pub r: i16,
    pub g: i16,
    pub b: i16,
}

/// `value` limited to the range from `min` to `max`.
pub open spec fn clamped(value: int, min: int, max: int) -> int {
    if value > max {
        max
    } else if value < min {
        min
    } else {
        value
    }
}

/// Limits `value` to the range from `min` to `max`.
pub fn clamp(value: i16, min: i16, max: i16) -> (r: i16)
    ensures
        r == clamped(value as int, min as int, max as int),
{
    if value > max {
        max
    } else if value < min {
        min
    } else {
        value
    }
}

/// A channel after a tint offset has been added, limited to 0..=255.
pub open spec fn tinted_channel(value: u8, offset: i16) -> u8 {
    clamped(value + offset, 0, 255) as u8
}

/// A pixel after a tint has been added to its colour channels; alpha stays.
pub open spec fn tinted_pixel(p: Rgba, tint: Tint) -> Rgba {
    Rgba {
        r: tinted_channel(p.r, tint.r),
        g: tinted_channel(p.g, tint.g),
        b: tinted_channel(p.b, tint.b),
        a: p.a,
    }
}

/// All pixels tinted.
pub open spec fn tinted(pixels: Seq<Rgba>, tint: Tint) -> Seq<Rgba> {
    Seq::new(pixels.len(), |i: int| tinted_pixel(pixels[i], tint))
}

/// Number of pixels among the first `n` whose alpha is not zero.
pub open spec fn visible_count(pixels: Seq<Rgba>, n: int) -> int
    decreases n,
{
    if n <= 0 {
        0
    } else {
        visible_count(pixels, n - 1) + if pixels[n - 1].a != 0 {
            1int
        } else {
            0int
        }
    }
}

/// Channel 0, 1 or 2 of a pixel: red, green or blue.
pub open spec fn channel(p: Rgba, c: int) -> int {
    if c == 0 {
        p.r as int
    } else if c == 1 {
        p.g as int
    } else {
        p.b as int
    }
}

/// Sum of channel `c` over the pixels among the first `n` whose alpha is not
/// zero.
pub open spec fn visible_sum(pixels: Seq<Rgba>, c: int, n: int) -> int
    decreases n,
{
    if n <= 0 {
        0
    } else {
        visible_sum(pixels, c, n - 1) + if pixels[n - 1].a != 0 {
            channel(pixels[n - 1], c)
        } else {
            0
        }
    }
}

/// The mean colour of the pixels whose alpha is not zero, each channel
/// rounded down; black where there is no such pixel.
pub open spec fn average_color(pixels: Seq<Rgba>) -> Rgb {
    let n = visible_count(pixels, pixels.len() as int);
    if n == 0 {
        Rgb { r: 0, g: 0, b: 0 }
    } else {
        Rgb {
            r: (visible_sum(pixels, 0, pixels.len() as int) / n) as u8,
            g: (visible_sum(pixels, 1, pixels.len() as int) / n) as u8,
            b: (visible_sum(pixels, 2, pixels.len() as int) / n) as u8,
        }
    }
}

/// Some pixel is not fully opaque.
pub open spec fn has_transparency(pixels: Seq<Rgba>) -> bool {
    exists|i: int| 0 <= i < pixels.len() && (#[trigger] pixels[i]).a != 255
}

/// The sums stay within what the count allows.
pub proof fn lemma_visible_bounds(pixels: Seq<Rgba>, c: int, n: int)
    requires
        0 <= n <= pixels.len(),
    ensures
        0 <= visible_count(pixels, n) <= n,
        0 <= visible_sum(pixels, c, n) <= 255 * visible_count(pixels, n),
    decreases n,
{
    if n > 0 {
        lemma_visible_bounds(pixels, c, n - 1);
    }
}

/// A 16 by 16 RGBA raster, row by row.
#[derive(Debug, Clone, PartialEq, Eq)]
pub struct Texture {
    pixels: Vec<Rgba>,
}

impl View for Texture {
    type V = Seq<Rgba>;

    closed spec fn view(&self) -> Seq<Rgba> {
        self.pixels@
    }
}

impl Texture {
    /// A texture has 256 pixels.
    pub open spec fn wf(&self) -> bool {
        self@.len() == 256
    }

    /// A texture of the given 256 pixels, row by row; `None` for another
    /// number of pixels.
    pub fn from_pixels(pixels: Vec<Rgba>) -> (r: Option<Texture>)
        ensures
            r is Some <==> pixels@.len() == 256,
            r matches Some(t) ==> t@ == pixels@ && t.wf(),
    {
        if pixels.len() == TEXTURE_PIXELS {
            Some(Texture { pixels })
        } else {
            None
        }
    }

    /// The pixel in column `x` of row `y`.
    pub fn get_pixel(&self, x: usize, y: usize) -> (p: Rgba)
        requires
            self.wf(),
            x < 16,
            y < 16,
        ensures
            p == self@[y * 16 + x],
    {
        self.pixels[y * TEXTURE_SIZE + x]
    }
}

/// The mean colour of the pixels of `img` whose alpha is not zero.
pub fn image_avg(img: &Texture) -> (avg: Rgb)
    requires
        img.wf(),
    ensures
        avg == average_color(img@),
{
    let mut r: u32 = 0;
    let mut g: u32 = 0;
    let mut b: u32 = 0;
    let mut n: u32 = 0;
    let mut i: usize = 0;
    while i < TEXTURE_PIXELS
        invariant
            i <= 256,
            img@.len() == 256,
            n == visible_count(img@, i as int),
            r == visible_sum(img@, 0, i as int),
            g == visible_sum(img@, 1, i as int),
            b == visible_sum(img@, 2, i as int),
            n <= i,
            r <= 255 * n,
            g <= 255 * n,
            b <= 255 * n,
        decreases 256 - i,
    {
        let pixel = img.pixels[i];
        if pixel.a != 0 {
            r += pixel.r as u32;
            g += pixel.g as u32;
            b += pixel.b as u32;
            n += 1;
        }
        i += 1;
    }
    if n == 0 {
        Rgb { r: 0, g: 0, b: 0 }
    } else {
        assert(r / n <= 255 && g / n <= 255 && b / n <= 255) by (nonlinear_arith)
            requires
                n > 0,
                r <= 255 * n,
                g <= 255 * n,
                b <= 255 * n,
        ;
        Rgb { r: (r / n) as u8, g: (g / n) as u8, b: (b / n) as u8 }
    }
}

/// Adds a tint offset to one channel, limited to 0..=255.
fn tint_channel(value: u8, offset: i16) -> (r: u8)
    ensures
        r == tinted_channel(value, offset),
{
    let sum: i32 = value as i32 + offset as i32;
    if sum > 255 {
        255
    } else {
        clamp(sum as i16, 0, 255) as u8
    }
}

/// Adds the tint to the colour channels of every pixel of `img`, limiting
/// each to 0..=255. Alpha stays as it is.
pub fn taint_image(img: &mut Texture, taint: Tint)
    requires
        old(img).wf(),
    ensures
        final(img).wf(),
        final(img)@ == tinted(old(img)@, taint),
{
    let mut i: usize = 0;
    while i < TEXTURE_PIXELS
        invariant
            i <= 256,
            img@.len() == 256,
            forall|k: int| 0 <= k < i ==> #[trigger] img@[k] == tinted_pixel(old(img)@[k], taint),
            forall|k: int| i <= k < 256 ==> #[trigger] img@[k] == old(img)@[k],
        decreases 256 - i,
    {
        let pixel = img.pixels[i];
        img.pixels[i] = Rgba {
            r: tint_channel(pixel.r, taint.r),
            g: tint_channel(pixel.g, taint.g),
            b: tint_channel(pixel.b, taint.b),
            a: pixel.a,
        };
        i += 1;
    }
    assert(img@ =~= tinted(old(img)@, taint));
}

/// Whether some pixel of `img` is not fully opaque.
pub fn is_transparent(img: &Texture) -> (r: bool)
    requires
        img.wf(),
    ensures
        r == has_transparency(img@),
{
    let mut i: usize = 0;
    while i < TEXTURE_PIXELS
        invariant
            i <= 256,
            img@.len() == 256,
            forall|k: int| 0 <= k < i ==> (#[trigger] img@[k]).a == 255,
        decreases 256 - i,
    {
        if img.pixels[i].a != 255 {
            return true;
        }
        i += 1;
    }
    false
}

/// A texture with what rendering needs to know of it.
#[derive(Debug, Clone, PartialEq, Eq)]
pub struct TextureRecord {
    /// The pixels.
    pub image: Texture,
    /// Whether some pixel is not fully opaque.
    pub transparent: bool,
    /// The mean colour of the visible pixels.
    pub average_color: Rgb,
}

/// The mathematical value of a texture record.
pub struct RecordValue {
    pub image: Seq<Rgba>,
    pub transparent: bool,
    pub average_color: Rgb,
}

impl View for TextureRecord {
    type V = RecordValue;

    open spec fn view(&self) -> RecordValue {
        RecordValue {
            image: self.image@,
            transparent: self.transparent,
            average_color: self.average_color,
        }
    }
}

/// The record of a raster of 256 pixels, after an optional tint.
pub open spec fn record_of(pixels: Seq<Rgba>, tint: Option<Tint>) -> RecordValue {
    let image = match tint {
        Some(t) => tinted(pixels, t),
        None => pixels,
    };
    RecordValue { image, transparent: has_transparency(image), average_color: average_color(image) }
}

/// Tints a texture where a tint is given, and derives its record.
pub fn make_record(texture: Texture, tint: Option<Tint>) -> (record: TextureRecord)
    requires
        texture.wf(),
    ensures
        record@ == record_of(texture@, tint),
        record.image.wf(),
{
    let mut texture = texture;
    // The color must be tainted for blocks like leaves, grass and water
    if let Some(taint) = tint {
        taint_image(&mut texture, taint);
    }
    let avg = image_avg(&texture);
    let transparent = is_transparent(&texture);
    TextureRecord { image: texture, transparent, average_color: avg }
}

} // verus!
