//! The top-down renderer: one colour or one texture tile for each column of a
//! region.

use crate::loader::{resolved, LoaderValue, TextureLoader};
use crate::palette::PaletteValue;
use crate::map::{graphic_properties_of, name_of, region_entry, Region, RegionValue};
use crate::raster::{RgbImage, RgbaImage};
use crate::resources::ResourcesValue;
use crate::texture::{RecordValue, Rgb, Rgba, Texture, Tint};
use vstd::hash_set::StringHashSet;
use vstd::prelude::*;

verus! {

/// Number of columns along each side of a region.
pub const REGION_BLOCKS: usize = 512;

/// Number of blocks that a column is high.
pub const COLUMN_HEIGHT: usize = 256;

/// Number of texels along each side of the textured rendering of a region.
pub const REGION_TEXELS: usize = 8192;

/// A set of block names.
pub struct BlockSet {
    names: StringHashSet,
}

impl View for BlockSet {
    type V = Set<Seq<char>>;

    closed spec fn view(&self) -> Set<Seq<char>> {
        self.names@
    }
}

impl BlockSet {
    /// The empty set.
    pub fn new() -> (set: BlockSet)
        ensures
            set@ == Set::<Seq<char>>::empty(),
    {
        BlockSet { names: StringHashSet::new() }
    }

    /// Adds a name.
    pub fn insert(&mut self, name: String)
        ensures
            final(self)@ == old(self)@.insert(name@),
    {
        self.names.insert(name);
    }

    /// Whether the set holds a name.
    pub fn contains(&self, name: &str) -> (r: bool)
        ensures
            r == self@.contains(name@),
    {
        self.names.contains(name)
    }
}

/// What a rendering depends on.
pub struct Scene {
    /// The blocks.
    pub region: RegionValue,
    /// The names of the blocks that are looked through.
    pub ignore: Set<Seq<char>>,
    /// The tint of each tinted block.
    pub tints: Map<Seq<char>, Tint>,
    /// The resource tree.
    pub resources: ResourcesValue,
}

/// The scene of a region as a source of appearances sees it.
pub open spec fn scene_of<A: Appearances>(
    region: RegionValue,
    ignore: Set<Seq<char>>,
    textures: &A,
) -> Scene {
    Scene { region, ignore, tints: textures.tints(), resources: textures.resources() }
}

/// How block (x, y, z) looks from above: nothing where the block is ignored
/// or its appearance cannot be resolved.
pub open spec fn appearance(s: Scene, x: int, y: int, z: int) -> Option<RecordValue> {
    let entry = region_entry(s.region, x, y, z);
    if s.ignore.contains(name_of(entry)) {
        None
    } else {
        resolved(s.resources, s.tints, name_of(entry), graphic_properties_of(entry))
    }
}

/// The appearance of the highest block below height `top` of column (x, z)
/// that has one.
pub open spec fn first_visible(s: Scene, x: int, z: int, top: int) -> Option<RecordValue>
    decreases top,
{
    if top <= 0 {
        None
    } else {
        match appearance(s, x, top - 1, z) {
            Some(record) => Some(record),
            None => first_visible(s, x, z, top - 1),
        }
    }
}

/// The colour of column (x, z): the average colour of its highest visible
/// block, black where there is none.
pub open spec fn column_color(s: Scene, x: int, z: int) -> Rgb {
    match first_visible(s, x, z, 256) {
        Some(record) => record.average_color,
        None => Rgb { r: 0, g: 0, b: 0 },
    }
}

/// A texel laid over another: the texel below shows only where the one above
/// has no alpha at all.
pub open spec fn overlay_texel(above: Rgba, below: Rgba) -> Rgba {
    if above.a == 0 {
        below
    } else {
        above
    }
}

/// Texel (dx, dy) of column (x, z) once the visible blocks below height `top`
/// have been laid under `above`, from the top down to the first opaque one.
pub open spec fn layered(s: Scene, x: int, z: int, top: int, above: Rgba, dx: int, dy: int) -> Rgba
    decreases top,
{
    if top <= 0 {
        above
    } else {
        match appearance(s, x, top - 1, z) {
            None => layered(s, x, z, top - 1, above, dx, dy),
            Some(record) => {
                let texel = overlay_texel(above, record.image[dy * 16 + dx]);
                if record.transparent {
                    layered(s, x, z, top - 1, texel, dx, dy)
                } else {
                    texel
                }
            },
        }
    }
}

/// Transparent black, the texel of an empty raster.
pub open spec fn clear() -> Rgba {
    Rgba { r: 0, g: 0, b: 0, a: 0 }
}

/// Texel (px, py) of the textured rendering of a region.
pub open spec fn texel_color(s: Scene, px: int, py: int) -> Rgba {
    layered(s, px / 16, py / 16, 256, clear(), px % 16, py % 16)
}

/// The cache `after` holds all that `before` held.
pub open spec fn grown(before: LoaderValue, after: LoaderValue) -> bool {
    &&& after.resources == before.resources
    &&& after.tints == before.tints
    &&& before.textures.len() <= after.textures.len()
    &&& forall|h: int|
        0 <= h < before.textures.len() ==> #[trigger] after.textures[h] == before.textures[h]
    &&& forall|k: (Seq<char>, Seq<char>)| #[trigger]
        before.lookup.contains_key(k) ==> after.lookup.contains_key(k) && after.lookup[k]
            == before.lookup[k]
}

/// Two sources of appearances over the same tints and resources render a
/// region alike, whatever each of them has stored.
pub proof fn lemma_rendering_ignores_cache<A: Appearances, B: Appearances>(
    region: RegionValue,
    ignore: Set<Seq<char>>,
    first: &A,
    second: &B,
)
    requires
        first.tints() == second.tints(),
        first.resources() == second.resources(),
    ensures
        forall|x: int, z: int|
            column_color(scene_of(region, ignore, first), x, z) == column_color(
                scene_of(region, ignore, second),
                x,
                z,
            ),
        forall|px: int, py: int|
            texel_color(scene_of(region, ignore, first), px, py) == texel_color(
                scene_of(region, ignore, second),
                px,
                py,
            ),
{
    assert(scene_of(region, ignore, first) == scene_of(region, ignore, second));
}

/// Two pixel renderings of one scene are the same byte for byte.
pub proof fn lemma_pixel_renderings_agree(scene: Scene, first: RgbImage, second: RgbImage)
    requires
        first.wf() && first.spec_width() == 512 && first.spec_height() == 512,
        second.wf() && second.spec_width() == 512 && second.spec_height() == 512,
        forall|x: int, z: int|
            0 <= x < 512 && 0 <= z < 512 ==> #[trigger] first.pixel(x, z) == column_color(
                scene,
                x,
                z,
            ),
        forall|x: int, z: int|
            0 <= x < 512 && 0 <= z < 512 ==> #[trigger] second.pixel(x, z) == column_color(
                scene,
                x,
                z,
            ),
    ensures
        first.bytes() == second.bytes(),
{
    crate::raster::lemma_rgb_bytes(first, second);
}

/// Two textured renderings of one scene are the same byte for byte.
pub proof fn lemma_textured_renderings_agree(scene: Scene, first: RgbaImage, second: RgbaImage)
    requires
        first.wf() && first.spec_width() == 8192 && first.spec_height() == 8192,
        second.wf() && second.spec_width() == 8192 && second.spec_height() == 8192,
        forall|px: int, py: int|
            0 <= px < 8192 && 0 <= py < 8192 ==> #[trigger] first.pixel(px, py) == texel_color(
                scene,
                px,
                py,
            ),
        forall|px: int, py: int|
            0 <= px < 8192 && 0 <= py < 8192 ==> #[trigger] second.pixel(px, py) == texel_color(
                scene,
                px,
                py,
            ),
    ensures
        first.bytes() == second.bytes(),
{
    crate::raster::lemma_rgba_bytes(first, second);
}

/// A channel scaled by `height` in 255ths.
pub open spec fn shaded(value: u8, height: u8) -> u8 {
    if value * height / 255 > 255 {
        255u8
    } else {
        (value * height / 255) as u8
    }
}

/// Scales each channel of a colour by `height` in 255ths.
pub fn tint_height(avg: &mut Rgb, height: u8)
    ensures
        final(avg).r == shaded(old(avg).r, height),
        final(avg).g == shaded(old(avg).g, height),
        final(avg).b == shaded(old(avg).b, height),
{
    avg.r = shade(avg.r, height);
    avg.g = shade(avg.g, height);
    avg.b = shade(avg.b, height);
}

/// Scales a channel by `height` in 255ths.
fn shade(value: u8, height: u8) -> (r: u8)
    ensures
        r == shaded(value, height),
{
    assert(value * height <= 255 * 255) by (nonlinear_arith)
        requires
            0 <= value <= 255,
            0 <= height <= 255,
    ;
    let scaled: u32 = value as u32 * height as u32 / 255;
    if scaled > 255 {
        255
    } else {
        scaled as u8
    }
}

/// Lays `top` under what `bottom` holds in the 16 by 16 texels from (x, y)
/// on: a texel of `top` shows only where `bottom` has no alpha at all.
pub fn overlay(bottom: &mut RgbaImage, top: &Texture, x: usize, y: usize)
    requires
        old(bottom).wf(),
        top.wf(),
        x + 16 <= old(bottom).spec_width(),
        y + 16 <= old(bottom).spec_height(),
    ensures
        final(bottom).wf(),
        final(bottom).spec_width() == old(bottom).spec_width(),
        final(bottom).spec_height() == old(bottom).spec_height(),
        forall|i: int, j: int|
            0 <= i < old(bottom).spec_width() && 0 <= j < old(bottom).spec_height()
                ==> #[trigger] final(bottom).pixel(i, j) == if x <= i < x + 16 && y <= j < y + 16 {
                overlay_texel(old(bottom).pixel(i, j), top@[(j - y) * 16 + (i - x)])
            } else {
                old(bottom).pixel(i, j)
            },
{
    let mut dy: usize = 0;
    while dy < 16
        invariant
            dy <= 16,
            top.wf(),
            bottom.wf(),
            bottom.spec_width() == old(bottom).spec_width(),
            bottom.spec_height() == old(bottom).spec_height(),
            x + 16 <= bottom.spec_width(),
            y + 16 <= bottom.spec_height(),
            forall|i: int, j: int|
                0 <= i < bottom.spec_width() && 0 <= j < bottom.spec_height() ==> #[trigger] bottom.pixel(
                    i,
                    j,
                ) == if x <= i < x + 16 && y <= j < y + dy {
                    overlay_texel(old(bottom).pixel(i, j), top@[(j - y) * 16 + (i - x)])
                } else {
                    old(bottom).pixel(i, j)
                },
        decreases 16 - dy,
    {
        let mut dx: usize = 0;
        while dx < 16
            invariant
                dx <= 16,
                dy < 16,
                top.wf(),
                bottom.wf(),
                bottom.spec_width() == old(bottom).spec_width(),
                bottom.spec_height() == old(bottom).spec_height(),
                x + 16 <= bottom.spec_width(),
                y + 16 <= bottom.spec_height(),
                forall|i: int, j: int|
                    0 <= i < bottom.spec_width() && 0 <= j < bottom.spec_height() ==> #[trigger] bottom.pixel(
                        i,
                        j,
                    ) == if x <= i < x + 16 && (y <= j < y + dy || (j == y + dy && i < x + dx)) {
                        overlay_texel(old(bottom).pixel(i, j), top@[(j - y) * 16 + (i - x)])
                    } else {
                        old(bottom).pixel(i, j)
                    },
            decreases 16 - dx,
        {
            let top_pixel = top.get_pixel(dx, dy);
            let bottom_pixel = bottom.get_pixel(x + dx, y + dy);
            // Only paint if this pixel is invisible
            if bottom_pixel.a == 0 {
                bottom.put_pixel(x + dx, y + dy, top_pixel);
            }
            dx += 1;
        }
        dy += 1;
    }
}

/// The average colour of an appearance.
pub open spec fn average_of(record: Option<RecordValue>) -> Option<Rgb> {
    match record {
        Some(r) => Some(r.average_color),
        None => None,
    }
}

/// Whether an appearance is transparent.
pub open spec fn transparency_of(record: Option<RecordValue>) -> Option<bool> {
    match record {
        Some(r) => Some(r.transparent),
        None => None,
    }
}

/// Texel (i, j) of a raster after an appearance has been laid under the
/// 16 by 16 texels from (x, y) on: nothing changes where there is no
/// appearance or outside those texels.
pub open spec fn laid_under(
    before: Rgba,
    record: Option<RecordValue>,
    x: int,
    y: int,
    i: int,
    j: int,
) -> Rgba {
    match record {
        Some(r) => if x <= i < x + 16 && y <= j < y + 16 {
            overlay_texel(before, r.image[(j - y) * 16 + (i - x)])
        } else {
            before
        },
        None => before,
    }
}

/// A source of block appearances: for a block name and its graphic
/// properties, what `resolved` says of them over the source's tints and
/// resources.
pub trait Appearances: Sized {
    /// The tint of each tinted block.
    spec fn tints(&self) -> Map<Seq<char>, Tint>;

    /// The resource tree.
    spec fn resources(&self) -> ResourcesValue;

    /// The source's invariant.
    spec fn ready(&self) -> bool;

    /// The source holds all that `before` held.
    spec fn keeps(&self, before: &Self) -> bool;

    /// A source holds what it holds.
    proof fn lemma_keeps_itself(&self)
        ensures
            self.keeps(self),
    ;

    /// Holding what an earlier state held carries over.
    proof fn lemma_keeps_on(&self, middle: &Self, before: &Self)
        requires
            middle.keeps(before),
            self.keeps(middle),
        ensures
            self.keeps(before),
    ;

    /// The average colour of a block's appearance.
    fn average_color(&mut self, name: &str, properties: &str) -> (r: Option<Rgb>)
        requires
            old(self).ready(),
        ensures
            final(self).ready(),
            final(self).keeps(old(self)),
            final(self).tints() == old(self).tints(),
            final(self).resources() == old(self).resources(),
            r == average_of(resolved(old(self).resources(), old(self).tints(), name@, properties@)),
    ;

    /// Lays the texture of a block's appearance under what `img` holds in
    /// the 16 by 16 texels from (x, y) on, and tells whether the texture is
    /// transparent.
    fn lay_under(
        &mut self,
        name: &str,
        properties: &str,
        img: &mut RgbaImage,
        x: usize,
        y: usize,
    ) -> (r: Option<bool>)
        requires
            old(self).ready(),
            old(img).wf(),
            x + 16 <= old(img).spec_width(),
            y + 16 <= old(img).spec_height(),
        ensures
            final(self).ready(),
            final(self).keeps(old(self)),
            final(self).tints() == old(self).tints(),
            final(self).resources() == old(self).resources(),
            final(img).wf(),
            final(img).spec_width() == old(img).spec_width(),
            final(img).spec_height() == old(img).spec_height(),
            r == transparency_of(
                resolved(old(self).resources(), old(self).tints(), name@, properties@),
            ),
            forall|i: int, j: int|
                0 <= i < old(img).spec_width() && 0 <= j < old(img).spec_height()
                    ==> #[trigger] final(img).pixel(i, j) == laid_under(
                    old(img).pixel(i, j),
                    resolved(old(self).resources(), old(self).tints(), name@, properties@),
                    x as int,
                    y as int,
                    i,
                    j,
                ),
    ;
}

/// The appearance cache serves the renderer and stores what it resolves.
impl Appearances for TextureLoader {
    open spec fn tints(&self) -> Map<Seq<char>, Tint> {
        self@.tints
    }

    open spec fn resources(&self) -> ResourcesValue {
        self@.resources
    }

    open spec fn ready(&self) -> bool {
        self.wf()
    }

    open spec fn keeps(&self, before: &Self) -> bool {
        grown(before@, self@)
    }

    proof fn lemma_keeps_itself(&self) {
    }

    proof fn lemma_keeps_on(&self, middle: &Self, before: &Self) {
    }

    fn average_color(&mut self, name: &str, properties: &str) -> (r: Option<Rgb>) {
        let index = match self.index(name, properties) {
            Some(index) => Some(index),
            None => self.load(name, properties),
        };
        match index {
            Some(index) => Some(self.get_texture(index).average_color),
            None => None,
        }
    }

    fn lay_under(
        &mut self,
        name: &str,
        properties: &str,
        img: &mut RgbaImage,
        x: usize,
        y: usize,
    ) -> (r: Option<bool>) {
        let index = match self.index(name, properties) {
            Some(index) => Some(index),
            None => self.load(name, properties),
        };
        match index {
            Some(index) => {
                let record = self.get_texture(index);
                overlay(img, &record.image, x, y);
                Some(record.transparent)
            },
            None => None,
        }
    }
}

/// A view of an appearance cache that many renderers can share: it reads
/// what the cache holds and resolves what the cache lacks, each time anew
/// and without storing it.
pub struct SharedLoader<'a> {
    loader: &'a TextureLoader,
}

impl<'a> SharedLoader<'a> {
    /// The cache behind the view.
    pub closed spec fn cache(&self) -> &TextureLoader {
        self.loader
    }

    /// A shared view of `loader`.
    pub fn new(loader: &'a TextureLoader) -> (shared: SharedLoader<'a>)
        requires
            loader.wf(),
        ensures
            shared.cache() == loader,
            shared.ready(),
    {
        SharedLoader { loader }
    }
}

impl<'a> Appearances for SharedLoader<'a> {
    open spec fn tints(&self) -> Map<Seq<char>, Tint> {
        self.cache()@.tints
    }

    open spec fn resources(&self) -> ResourcesValue {
        self.cache()@.resources
    }

    open spec fn ready(&self) -> bool {
        self.cache().wf()
    }

    open spec fn keeps(&self, before: &Self) -> bool {
        self.cache() == before.cache()
    }

    proof fn lemma_keeps_itself(&self) {
    }

    proof fn lemma_keeps_on(&self, middle: &Self, before: &Self) {
    }

    fn average_color(&mut self, name: &str, properties: &str) -> (r: Option<Rgb>) {
        match self.loader.cached(name, properties) {
            Some(Some(index)) => Some(self.loader.get_texture(index).average_color),
            Some(None) => None,
            None => match self.loader.resolve(name, properties) {
                Some(record) => Some(record.average_color),
                None => None,
            },
        }
    }

    fn lay_under(
        &mut self,
        name: &str,
        properties: &str,
        img: &mut RgbaImage,
        x: usize,
        y: usize,
    ) -> (r: Option<bool>) {
        match self.loader.cached(name, properties) {
            Some(Some(index)) => {
                let record = self.loader.get_texture(index);
                overlay(img, &record.image, x, y);
                Some(record.transparent)
            },
            Some(None) => None,
            None => match self.loader.resolve(name, properties) {
                Some(record) => {
                    overlay(img, &record.image, x, y);
                    Some(record.transparent)
                },
                None => None,
            },
        }
    }
}

/// The colour of column (x, z) of a region: the average colour of the
/// column's highest visible block, black where the column has none.
pub fn render_column<A: Appearances>(
    region: &Region,
    ignore: &BlockSet,
    textures: &mut A,
    x: usize,
    z: usize,
) -> (color: Rgb)
    requires
        region.wf(),
        old(textures).ready(),
        x < 512,
        z < 512,
    ensures
        final(textures).ready(),
        final(textures).keeps(old(textures)),
        final(textures).tints() == old(textures).tints(),
        final(textures).resources() == old(textures).resources(),
        color == column_color(scene_of(region@, ignore@, old(textures)), x as int, z as int),
{
    let ghost scene = scene_of(region@, ignore@, textures);
    let ghost start = *textures;
    proof {
        textures.lemma_keeps_itself();
    }
    let mut y: usize = COLUMN_HEIGHT;
    while y > 0
        invariant
            y <= 256,
            region.wf(),
            textures.ready(),
            x < 512,
            z < 512,
            textures.keeps(&start),
            start == *old(textures),
            scene == scene_of(region@, ignore@, &start),
            scene == scene_of(region@, ignore@, textures),
            first_visible(scene, x as int, z as int, 256) == first_visible(
                scene,
                x as int,
                z as int,
                y as int,
            ),
        decreases y,
    {
        y -= 1;
        let candidate = region.get_block(x, y, z);
        if !ignore.contains(candidate) {
            let properties = region.get_gprop(x, y, z);
            let ghost before = *textures;
            let found = textures.average_color(candidate, properties);
            proof {
                textures.lemma_keeps_on(&before, &start);
            }
            if let Some(color) = found {
                return color;
            }
        }
    }
    Rgb { r: 0, g: 0, b: 0 }
}

/// Renders a region with one pixel for each column: the average colour of
/// the column's highest visible block, black where the column has none.
///
/// The raster depends on the region, the ignored names, the tints and the
/// resources alone: what the source of appearances has stored makes no
/// difference to it.
pub fn image_chunk<A: Appearances>(region: &Region, ignore: &BlockSet, textures: &mut A) -> (img:
    RgbImage)
    requires
        region.wf(),
        old(textures).ready(),
    ensures
        final(textures).ready(),
        final(textures).keeps(old(textures)),
        final(textures).tints() == old(textures).tints(),
        final(textures).resources() == old(textures).resources(),
        img.wf(),
        img.spec_width() == 512,
        img.spec_height() == 512,
        forall|x: int, z: int|
            0 <= x < 512 && 0 <= z < 512 ==> #[trigger] img.pixel(x, z) == column_color(
                scene_of(region@, ignore@, old(textures)),
                x,
                z,
            ),
{
    let ghost scene = scene_of(region@, ignore@, textures);
    let ghost start = *textures;
    proof {
        textures.lemma_keeps_itself();
    }
    let mut img = RgbImage::new(REGION_BLOCKS, REGION_BLOCKS);
    let mut z_block: usize = 0;
    while z_block < REGION_BLOCKS
        invariant
            z_block <= 512,
            region.wf(),
            textures.ready(),
            textures.keeps(&start),
            start == *old(textures),
            scene == scene_of(region@, ignore@, &start),
            scene == scene_of(region@, ignore@, textures),
            img.wf(),
            img.spec_width() == 512,
            img.spec_height() == 512,
            forall|x: int, z: int|
                0 <= x < 512 && 0 <= z < z_block ==> #[trigger] img.pixel(x, z) == column_color(
                    scene,
                    x,
                    z,
                ),
        decreases 512 - z_block,
    {
        let mut x_block: usize = 0;
        while x_block < REGION_BLOCKS
            invariant
                x_block <= 512,
                z_block < 512,
                region.wf(),
                textures.ready(),
                textures.keeps(&start),
                start == *old(textures),
                scene == scene_of(region@, ignore@, &start),
            scene == scene_of(region@, ignore@, &start),
            start == *old(textures),
            scene == scene_of(region@, ignore@, &start),
                scene == scene_of(region@, ignore@, textures),
                img.wf(),
                img.spec_width() == 512,
                img.spec_height() == 512,
                forall|x: int, z: int|
                    0 <= x < 512 && (0 <= z < z_block || (z == z_block && x < x_block))
                        ==> #[trigger] img.pixel(x, z) == column_color(scene, x, z),
            decreases 512 - x_block,
        {
            let ghost before = *textures;
            let color = render_column(region, ignore, textures, x_block, z_block);
            proof {
                textures.lemma_keeps_on(&before, &start);
            }
            img.put_pixel(x_block, z_block, color);
            x_block += 1;
        }
        z_block += 1;
    }
    img
}

/// Lays the visible blocks of column (x, z) into the column's tile of `img`,
/// which must be clear, from the top down to the first opaque one.
pub fn render_column_textures<A: Appearances>(
    img: &mut RgbaImage,
    region: &Region,
    ignore: &BlockSet,
    textures: &mut A,
    x: usize,
    z: usize,
)
    requires
        region.wf(),
        old(textures).ready(),
        old(img).wf(),
        old(img).spec_width() == 8192,
        old(img).spec_height() == 8192,
        x < 512,
        z < 512,
        forall|dx: int, dy: int|
            0 <= dx < 16 && 0 <= dy < 16 ==> #[trigger] old(img).pixel(x * 16 + dx, z * 16 + dy)
                == clear(),
    ensures
        final(textures).ready(),
        final(textures).keeps(old(textures)),
        final(textures).tints() == old(textures).tints(),
        final(textures).resources() == old(textures).resources(),
        final(img).wf(),
        final(img).spec_width() == 8192,
        final(img).spec_height() == 8192,
        forall|i: int, j: int|
            0 <= i < 8192 && 0 <= j < 8192 ==> #[trigger] final(img).pixel(i, j) == if i / 16 == x
                && j / 16 == z {
                texel_color(scene_of(region@, ignore@, old(textures)), i, j)
            } else {
                old(img).pixel(i, j)
            },
{
    let ghost scene = scene_of(region@, ignore@, textures);
    let ghost start = *textures;
    proof {
        textures.lemma_keeps_itself();
    }
    let mut y: usize = COLUMN_HEIGHT;
    let mut done: bool = false;
    while y > 0 && !done
        invariant
            y <= 256,
            region.wf(),
            textures.ready(),
            img.wf(),
            img.spec_width() == 8192,
            img.spec_height() == 8192,
            x < 512,
            z < 512,
            textures.keeps(&start),
            start == *old(textures),
            scene == scene_of(region@, ignore@, &start),
            scene == scene_of(region@, ignore@, textures),
            forall|i: int, j: int|
                0 <= i < 8192 && 0 <= j < 8192 && !(i / 16 == x && j / 16 == z) ==> #[trigger] img.pixel(
                    i,
                    j,
                ) == old(img).pixel(i, j),
            forall|dx: int, dy: int|
                0 <= dx < 16 && 0 <= dy < 16 ==> layered(
                    scene,
                    x as int,
                    z as int,
                    256,
                    clear(),
                    dx,
                    dy,
                ) == if done {
                    #[trigger] img.pixel(x * 16 + dx, z * 16 + dy)
                } else {
                    layered(
                        scene,
                        x as int,
                        z as int,
                        y as int,
                        img.pixel(x * 16 + dx, z * 16 + dy),
                        dx,
                        dy,
                    )
                },
        decreases y + if done { 0int } else { 1int },
    {
        y -= 1;
        let candidate = region.get_block(x, y, z);
        if !ignore.contains(candidate) {
            let properties = region.get_gprop(x, y, z);
            let ghost before = *textures;
            let ghost below = *img;
            let ghost record = appearance(scene, x as int, y as int, z as int);
            let laid = textures.lay_under(candidate, properties, img, x * 16, z * 16);
            proof {
                textures.lemma_keeps_on(&before, &start);
                assert forall|dx: int, dy: int| 0 <= dx < 16 && 0 <= dy < 16 implies #[trigger] img.pixel(
                    x * 16 + dx,
                    z * 16 + dy,
                ) == laid_under(
                    below.pixel(x * 16 + dx, z * 16 + dy),
                    record,
                    x * 16,
                    z * 16,
                    x * 16 + dx,
                    z * 16 + dy,
                ) by {}
                assert forall|i: int, j: int|
                    0 <= i < 8192 && 0 <= j < 8192 && !(i / 16 == x && j / 16 == z) implies #[trigger] img.pixel(
                    i,
                    j,
                ) == below.pixel(i, j) by {}
            }
            // If this block is transparent, find the lower blocks
            if let Some(transparent) = laid {
                if !transparent {
                    done = true;
                }
            }
        }
    }
    proof {
        assert forall|i: int, j: int| 0 <= i < 8192 && 0 <= j < 8192 && i / 16 == x && j / 16
            == z implies #[trigger] img.pixel(i, j) == texel_color(scene, i, j) by {
            let dx = i % 16;
            let dy = j % 16;
            assert(i == x * 16 + dx && j == z * 16 + dy);
            assert(img.pixel(x * 16 + dx, z * 16 + dy) == layered(
                scene,
                x as int,
                z as int,
                256,
                clear(),
                dx,
                dy,
            ));
        }
    }
}

/// Renders a region with a 16 by 16 tile for each column: the texture of
/// the column's highest visible block, with the blocks below showing where a
/// transparent block has no alpha at all.
///
/// The raster depends on the region, the ignored names, the tints and the
/// resources alone: what the source of appearances has stored makes no
/// difference to it.
pub fn image_chunk_textures<A: Appearances>(
    region: &Region,
    ignore: &BlockSet,
    textures: &mut A,
) -> (img: RgbaImage)
    requires
        region.wf(),
        old(textures).ready(),
    ensures
        final(textures).ready(),
        final(textures).keeps(old(textures)),
        final(textures).tints() == old(textures).tints(),
        final(textures).resources() == old(textures).resources(),
        img.wf(),
        img.spec_width() == 8192,
        img.spec_height() == 8192,
        forall|px: int, py: int|
            0 <= px < 8192 && 0 <= py < 8192 ==> #[trigger] img.pixel(px, py) == texel_color(
                scene_of(region@, ignore@, old(textures)),
                px,
                py,
            ),
{
    let ghost scene = scene_of(region@, ignore@, textures);
    let ghost start = *textures;
    proof {
        textures.lemma_keeps_itself();
    }
    let mut img = RgbaImage::new(REGION_TEXELS, REGION_TEXELS);
    let mut x: usize = 0;
    while x < REGION_BLOCKS
        invariant
            x <= 512,
            region.wf(),
            textures.ready(),
            textures.keeps(&start),
            start == *old(textures),
            scene == scene_of(region@, ignore@, &start),
            scene == scene_of(region@, ignore@, textures),
            img.wf(),
            img.spec_width() == 8192,
            img.spec_height() == 8192,
            forall|px: int, py: int|
                0 <= px < 8192 && 0 <= py < 8192 ==> #[trigger] img.pixel(px, py) == if px / 16
                    < x {
                    texel_color(scene, px, py)
                } else {
                    clear()
                },
        decreases 512 - x,
    {
        let mut z: usize = 0;
        while z < REGION_BLOCKS
            invariant
                z <= 512,
                x < 512,
                region.wf(),
                textures.ready(),
                textures.keeps(&start),
                start == *old(textures),
                scene == scene_of(region@, ignore@, &start),
            scene == scene_of(region@, ignore@, &start),
            start == *old(textures),
            scene == scene_of(region@, ignore@, &start),
                scene == scene_of(region@, ignore@, textures),
                img.wf(),
                img.spec_width() == 8192,
                img.spec_height() == 8192,
                forall|px: int, py: int|
                    0 <= px < 8192 && 0 <= py < 8192 ==> #[trigger] img.pixel(px, py) == if px / 16
                        < x || (px / 16 == x && py / 16 < z) {
                        texel_color(scene, px, py)
                    } else {
                        clear()
                    },
            decreases 512 - z,
        {
            let ghost before = *textures;
            render_column_textures(&mut img, region, ignore, textures, x, z);
            proof {
                textures.lemma_keeps_on(&before, &start);
            }
            z += 1;
        }
        x += 1;
    }
    img
}


/// The key of a palette entry is in the cache, unless the entry's block is
/// ignored.
pub open spec fn key_stored(l: LoaderValue, ignore: Set<Seq<char>>, entry: Option<PaletteValue>) -> bool {
    !ignore.contains(name_of(entry)) ==> l.lookup.contains_key(
        (name_of(entry), graphic_properties_of(entry)),
    )
}

/// The keys of the first `n` palette entries are in the cache.
pub open spec fn palette_stored(
    l: LoaderValue,
    ignore: Set<Seq<char>>,
    palette: Seq<PaletteValue>,
    n: int,
) -> bool {
    forall|k: int| 0 <= k < n ==> key_stored(l, ignore, Some(#[trigger] palette[k]))
}

/// The keys of the palettes of the first `n` sections are in the cache.
pub open spec fn sections_stored(
    l: LoaderValue,
    ignore: Set<Seq<char>>,
    chunk: crate::map::ChunkValue,
    n: int,
) -> bool {
    forall|j: int|
        0 <= j < n && (#[trigger] chunk[j]) is Some ==> palette_stored(
            l,
            ignore,
            chunk[j]->0.palette,
            chunk[j]->0.palette.len() as int,
        )
}

/// The keys of the palettes of the first `n` chunks are in the cache.
pub open spec fn chunks_stored(
    l: LoaderValue,
    ignore: Set<Seq<char>>,
    region: RegionValue,
    n: int,
) -> bool {
    forall|i: int|
        0 <= i < n && (#[trigger] region[i]) is Some ==> sections_stored(l, ignore, region[i]->0, 16)
}

/// The cache holds the key of every block of the region that is not ignored,
/// so that rendering the region resolves nothing anew.
pub open spec fn covers(region: RegionValue, ignore: Set<Seq<char>>, l: LoaderValue) -> bool {
    forall|x: int, y: int, z: int|
        0 <= x < 512 && 0 <= y < 256 && 0 <= z < 512 ==> key_stored(
            l,
            ignore,
            #[trigger] region_entry(region, x, y, z),
        )
}

/// What is stored stays stored while the cache grows.
proof fn lemma_stored_grows(
    before: LoaderValue,
    after: LoaderValue,
    ignore: Set<Seq<char>>,
    region: RegionValue,
    chunk: crate::map::ChunkValue,
    palette: Seq<PaletteValue>,
    chunks: int,
    sections: int,
    entries: int,
)
    requires
        grown(before, after),
    ensures
        key_stored(before, ignore, None) ==> key_stored(after, ignore, None),
        palette_stored(before, ignore, palette, entries) ==> palette_stored(
            after,
            ignore,
            palette,
            entries,
        ),
        sections_stored(before, ignore, chunk, sections) ==> sections_stored(
            after,
            ignore,
            chunk,
            sections,
        ),
        chunks_stored(before, ignore, region, chunks) ==> chunks_stored(
            after,
            ignore,
            region,
            chunks,
        ),
{
    assert forall|p: Seq<PaletteValue>, n: int| palette_stored(before, ignore, p, n) implies palette_stored(
        after,
        ignore,
        p,
        n,
    ) by {
        assert forall|k: int| 0 <= k < n implies key_stored(after, ignore, Some(#[trigger] p[k])) by {
            assert(key_stored(before, ignore, Some(p[k])));
        }
    }
    assert forall|c: crate::map::ChunkValue, n: int| sections_stored(before, ignore, c, n) implies sections_stored(
        after,
        ignore,
        c,
        n,
    ) by {
        assert forall|j: int| 0 <= j < n && (#[trigger] c[j]) is Some implies palette_stored(
            after,
            ignore,
            c[j]->0.palette,
            c[j]->0.palette.len() as int,
        ) by {
            assert(palette_stored(before, ignore, c[j]->0.palette, c[j]->0.palette.len() as int));
        }
    }
    if chunks_stored(before, ignore, region, chunks) {
        assert forall|i: int| 0 <= i < chunks && (#[trigger] region[i]) is Some implies sections_stored(
            after,
            ignore,
            region[i]->0,
            16,
        ) by {
            assert(sections_stored(before, ignore, region[i]->0, 16));
        }
    }
}

/// A cache that holds the keys of all palettes of a region, and the key of
/// the block that is reported where nothing is stored, covers the region.
proof fn lemma_stored_covers(l: LoaderValue, ignore: Set<Seq<char>>, region: RegionValue)
    requires
        crate::map::region_well_formed(region),
        chunks_stored(l, ignore, region, 1024),
        key_stored(l, ignore, None),
    ensures
        covers(region, ignore, l),
{
    assert forall|x: int, y: int, z: int| 0 <= x < 512 && 0 <= y < 256 && 0 <= z < 512 implies key_stored(
        l,
        ignore,
        #[trigger] region_entry(region, x, y, z),
    ) by {
        let i = crate::map::chunk_index(x, z);
        if region[i] is Some {
            let chunk = region[i]->0;
            assert(sections_stored(l, ignore, chunk, 16));
            let j = y / 16;
            if chunk[j] is Some {
                let section = chunk[j]->0;
                assert(palette_stored(l, ignore, section.palette, section.palette.len() as int));
                let at = crate::map::section_index(x % 16, y % 16, z % 16);
                assert(0 <= at < 4096);
                let position = section.indices[at];
                assert(position < section.palette.len());
                assert(key_stored(l, ignore, Some(section.palette[position as int])));
            }
        }
    }
}

/// Resolves and stores the key of every block of a region that is not
/// ignored, so that renderers that share the cache find all they ask for.
pub fn preload(region: &Region, ignore: &BlockSet, textures: &mut TextureLoader)
    requires
        region.wf(),
        old(textures).wf(),
    ensures
        final(textures).wf(),
        grown(old(textures)@, final(textures)@),
        covers(region@, ignore@, final(textures)@),
{
    let ghost start = textures@;
    proof {
        reveal_strlit("");
        assert(""@ =~= Seq::<char>::empty());
    }
    // the block that is reported where no chunk or section is stored
    if !ignore.contains("minecraft:air") {
        let _ = textures.load("minecraft:air", "");
    }
    let mut i: usize = 0;
    while i < 1024
        invariant
            i <= 1024,
            region.wf(),
            textures.wf(),
            grown(start, textures@),
            key_stored(textures@, ignore@, None),
            chunks_stored(textures@, ignore@, region@, i as int),
        decreases 1024 - i,
    {
        if let Some(chunk) = region.chunk(i) {
            let mut j: usize = 0;
            while j < 16
                invariant
                    j <= 16,
                    i < 1024,
                    region.wf(),
                    chunk.wf(),
                    region@[i as int] == Some(chunk@),
                    textures.wf(),
                    grown(start, textures@),
                    key_stored(textures@, ignore@, None),
                    chunks_stored(textures@, ignore@, region@, i as int),
                    sections_stored(textures@, ignore@, chunk@, j as int),
                decreases 16 - j,
            {
                if let Some(section) = chunk.section(j) {
                    let palette = section.palette();
                    let ghost values = section@.palette;
                    let mut k: usize = 0;
                    while k < palette.len()
                        invariant
                            k <= palette@.len(),
                            j < 16,
                            i < 1024,
                            crate::map::palette_values(palette@) == values,
                            chunk@[j as int] == Some(section@),
                            section@.palette == values,
                            textures.wf(),
                            grown(start, textures@),
                            key_stored(textures@, ignore@, None),
                            chunks_stored(textures@, ignore@, region@, i as int),
                            sections_stored(textures@, ignore@, chunk@, j as int),
                            palette_stored(textures@, ignore@, values, k as int),
                        decreases palette@.len() - k,
                    {
                        let entry = &palette[k];
                        assert(values[k as int] == entry@);
                        let ghost before = textures@;
                        if !ignore.contains(entry.name.as_str()) {
                            let _ = textures.load(
                                entry.name.as_str(),
                                entry.graphic_properties.as_str(),
                            );
                        }
                        proof {
                            lemma_stored_grows(
                                before,
                                textures@,
                                ignore@,
                                region@,
                                chunk@,
                                values,
                                i as int,
                                j as int,
                                k as int,
                            );
                            assert(key_stored(textures@, ignore@, Some(values[k as int])));
                        }
                        k += 1;
                    }
                }
                j += 1;
            }
        }
        i += 1;
    }
    proof {
        lemma_stored_covers(textures@, ignore@, region@);
    }
}

} // verus!
