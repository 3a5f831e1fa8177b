//! The resource tree held in memory: blockstate and model documents and
//! texture files, each under the name by which the others refer to it.

use crate::texture::{Rgba, Texture};
use vstd::hash_map::StringHashMap;
use vstd::prelude::*;

verus! {

/// The mathematical value of a resource pack.
pub struct ResourcesValue {
    /// Blockstate documents by block stem.
    pub blockstates: Map<Seq<char>, Seq<char>>,
    /// Model documents by model name.
    pub models: Map<Seq<char>, Seq<char>>,
    /// Texture files by texture name.
    pub textures: Map<Seq<char>, Seq<u8>>,
}

/// The files of a resource tree.
pub struct ResourcePack {
    blockstates: StringHashMap<String>,
    models: StringHashMap<String>,
    textures: StringHashMap<Vec<u8>>,
}

impl View for ResourcePack {
    type V = ResourcesValue;

    closed spec fn view(&self) -> ResourcesValue {
        ResourcesValue {
            blockstates: Map::new(
                |k: Seq<char>| self.blockstates@.contains_key(k),
                |k: Seq<char>| self.blockstates@[k]@,
            ),
            models: Map::new(
                |k: Seq<char>| self.models@.contains_key(k),
                |k: Seq<char>| self.models@[k]@,
            ),
            textures: Map::new(
                |k: Seq<char>| self.textures@.contains_key(k),
                |k: Seq<char>| self.textures@[k]@,
            ),
        }
    }
}

impl ResourcePack {
    /// A pack without files.
    pub fn new() -> (pack: ResourcePack)
        ensures
            pack@.blockstates == Map::<Seq<char>, Seq<char>>::empty(),
            pack@.models == Map::<Seq<char>, Seq<char>>::empty(),
            pack@.textures == Map::<Seq<char>, Seq<u8>>::empty(),
    {
        let pack = ResourcePack {
            blockstates: StringHashMap::new(),
            models: StringHashMap::new(),
            textures: StringHashMap::new(),
        };
        assert(pack@.blockstates =~= Map::<Seq<char>, Seq<char>>::empty());
        assert(pack@.models =~= Map::<Seq<char>, Seq<char>>::empty());
        assert(pack@.textures =~= Map::<Seq<char>, Seq<u8>>::empty());
        pack
    }

    /// Stores the blockstate document of the block with the given stem.
    pub fn add_blockstate(&mut self, stem: String, text: String)
        ensures
            final(self)@.blockstates == old(self)@.blockstates.insert(stem@, text@),
            final(self)@.models == old(self)@.models,
            final(self)@.textures == old(self)@.textures,
    {
        let ghost before = self@;
        self.blockstates.insert(stem, text);
        assert(self@.blockstates =~= before.blockstates.insert(stem@, text@));
        assert(self@.models =~= before.models);
        assert(self@.textures =~= before.textures);
    }

    /// Stores the model document of the given name.
    pub fn add_model(&mut self, name: String, text: String)
        ensures
            final(self)@.models == old(self)@.models.insert(name@, text@),
            final(self)@.blockstates == old(self)@.blockstates,
            final(self)@.textures == old(self)@.textures,
    {
        let ghost before = self@;
        self.models.insert(name, text);
        assert(self@.models =~= before.models.insert(name@, text@));
        assert(self@.blockstates =~= before.blockstates);
        assert(self@.textures =~= before.textures);
    }

    /// Stores the texture file of the given name.
    pub fn add_texture(&mut self, name: String, file: Vec<u8>)
        ensures
            final(self)@.textures == old(self)@.textures.insert(name@, file@),
            final(self)@.blockstates == old(self)@.blockstates,
            final(self)@.models == old(self)@.models,
    {
        let ghost before = self@;
        self.textures.insert(name, file);
        assert(self@.textures =~= before.textures.insert(name@, file@));
        assert(self@.blockstates =~= before.blockstates);
        assert(self@.models =~= before.models);
    }

    /// The blockstate document of the block with the given stem.
    pub fn blockstate(&self, stem: &str) -> (r: Option<&str>)
        ensures
            r is Some <==> self@.blockstates.contains_key(stem@),
            r matches Some(text) ==> text@ == self@.blockstates[stem@],
    {
        match self.blockstates.get(stem) {
            Some(text) => Some(text.as_str()),
            None => None,
        }
    }

    /// The model document of the given name.
    pub fn model(&self, name: &str) -> (r: Option<&str>)
        ensures
            r is Some <==> self@.models.contains_key(name@),
            r matches Some(text) ==> text@ == self@.models[name@],
    {
        match self.models.get(name) {
            Some(text) => Some(text.as_str()),
            None => None,
        }
    }

    /// The texture file of the given name.
    pub fn texture(&self, name: &str) -> (r: Option<&Vec<u8>>)
        ensures
            r is Some <==> self@.textures.contains_key(name@),
            r matches Some(file) ==> file@ == self@.textures[name@],
    {
        self.textures.get(name)
    }
}

/// A decoded image: its size, the number of channels that the file stores
/// for each pixel, and its pixels as 8-bit RGBA, row by row.
pub struct DecodedImage {
    pub width: u32,
    pub height: u32,
    pub channels: u8,
    pub rgba: Vec<u8>,
}

/// The mathematical value of a decoded image.
pub struct ImageValue {
    pub width: u32,
    pub height: u32,
    pub channels: u8,
    pub rgba: Seq<u8>,
}

impl View for DecodedImage {
    type V = ImageValue;

    open spec fn view(&self) -> ImageValue {
        ImageValue {
            width: self.width,
            height: self.height,
            channels: self.channels,
            rgba: self.rgba@,
        }
    }
}

/// What `image::load_from_memory` makes of an image file: its width and
/// height, the channel count of its colour type, and the raw buffer of its
/// conversion to 8-bit RGBA; `None` where the crate reports an error.
pub uninterp spec fn decoded_image(file: Seq<u8>) -> Option<ImageValue>;

/// The value of an optional decoded image.
pub open spec fn optional_image(r: Option<DecodedImage>) -> Option<ImageValue> {
    match r {
        Some(image) => Some(image@),
        None => None,
    }
}

/// `image::load_from_memory`, with the image's size, channel count and RGBA
/// buffer taken out. The contract names the outcome; it says nothing of what
/// the pixels are.
#[verifier::external_body]
fn decode_image(file: &[u8]) -> (r: Option<DecodedImage>)
    ensures
        optional_image(r) == decoded_image(file@),
{
    match image::load_from_memory(file) {
        Ok(img) => Some(
            DecodedImage {
                width: img.width(),
                height: img.height(),
                channels: img.color().channel_count(),
                rgba: img.to_rgba8().into_raw(),
            },
        ),
        Err(_) => None,
    }
}

/// Whether a decoded image can serve as a block texture: four channels, at
/// least 16 by 16 pixels, and four bytes for each pixel.
pub open spec fn usable(image: ImageValue) -> bool {
    &&& image.channels == 4
    &&& image.width >= 16
    &&& image.height >= 16
    &&& image.rgba.len() == image.width * image.height * 4
}

/// The pixel in column `x` of row `y` of a decoded image.
pub open spec fn image_pixel(image: ImageValue, x: int, y: int) -> Rgba {
    let at = (y * image.width + x) * 4;
    Rgba { r: image.rgba[at], g: image.rgba[at + 1], b: image.rgba[at + 2], a: image.rgba[at + 3] }
}

/// The top-left 16 by 16 pixels of a decoded image, row by row.
pub open spec fn cropped(image: ImageValue) -> Seq<Rgba> {
    Seq::new(256, |i: int| image_pixel(image, i % 16, i / 16))
}

/// The block texture that a decoded image gives.
pub open spec fn texture_of_image(image: Option<ImageValue>) -> Option<Seq<Rgba>> {
    match image {
        Some(image) => if usable(image) {
            Some(cropped(image))
        } else {
            None
        },
        None => None,
    }
}

/// Crops a decoded image to its top-left 16 by 16 pixels, which strips the
/// later frames of an animated texture.
pub fn crop_texture(image: &DecodedImage) -> (r: Option<Texture>)
    ensures
        match texture_of_image(Some(image@)) {
            Some(pixels) => r matches Some(t) && t@ == pixels && t.wf(),
            None => r is None,
        },
{
    if image.channels != 4 || image.width < 16 || image.height < 16 {
        return None;
    }
    let width: u64 = image.width as u64;
    let height: u64 = image.height as u64;
    assert(width * height <= 0xffff_ffff * 0xffff_ffff) by (nonlinear_arith)
        requires
            0 <= width <= 0xffff_ffff,
            0 <= height <= 0xffff_ffff,
    ;
    let count: u64 = width * height;
    assert(count == image.width * image.height);
    let length: usize = image.rgba.len();
    if count > 0x3fff_ffff_ffff_ffff {
        assert(image.width * image.height * 4 > usize::MAX);
        return None;
    }
    if (length as u64) != count * 4 {
        return None;
    }
    let mut pixels: Vec<Rgba> = Vec::new();
    let mut i: usize = 0;
    while i < 256
        invariant
            i <= 256,
            usable(image@),
            width == image.width,
            height == image.height,
            image.rgba@.len() == width * height * 4,
            image.rgba@.len() <= usize::MAX,
            pixels@.len() == i,
            forall|k: int|
                0 <= k < i ==> #[trigger] pixels@[k] == image_pixel(image@, k % 16, k / 16),
        decreases 256 - i,
    {
        let x: u64 = (i % 16) as u64;
        let y: u64 = (i / 16) as u64;
        assert(0 <= y * width <= 15 * width && (y * width + x) * 4 + 3 < width * height * 4)
            by (nonlinear_arith)
            requires
                0 <= x < 16,
                0 <= y < 16,
                width >= 16,
                height >= 16,
        ;
        let at: usize = ((y * width + x) * 4) as usize;
        assert(at == ((i / 16) * image@.width + i % 16) * 4);
        pixels.push(
            Rgba {
                r: image.rgba[at],
                g: image.rgba[at + 1],
                b: image.rgba[at + 2],
                a: image.rgba[at + 3],
            },
        );
        i += 1;
    }
    assert(pixels@ =~= cropped(image@));
    Texture::from_pixels(pixels)
}

/// Decodes a texture file and crops it to a block texture.
pub fn load_image(file: &[u8]) -> (r: Option<Texture>)
    ensures
        match texture_of_image(decoded_image(file@)) {
            Some(pixels) => r matches Some(t) && t@ == pixels && t.wf(),
            None => r is None,
        },
{
    match decode_image(file) {
        Some(image) => crop_texture(&image),
        None => None,
    }
}

} // verus!
