//! The appearance cache: from a block name and its graphic properties to a
//! texture, resolved once through the blockstate and model documents.

use crate::json::{json_document, json_member, json_text, parse_json, Json, JsonValue};
use crate::resources::{decoded_image, load_image, texture_of_image, ResourcePack, ResourcesValue};
use crate::table::{Key, KeyTable, TableValue};
use crate::text::str_eq;
use crate::texture::{make_record, record_of, RecordValue, TextureRecord, Tint};
use vstd::hash_map::StringHashMap;
use vstd::prelude::*;

verus! {

/// The file stem of a block: its name without the namespace `minecraft:`.
/// A name outside that namespace has none.
pub open spec fn block_stem(name: Seq<char>) -> Option<Seq<char>> {
    if name.len() >= 10 && name.take(10) == "minecraft:"@ {
        Some(name.skip(10))
    } else {
        None
    }
}

/// The variant that is rendered: the variant itself, or the first of a list
/// of alternatives.
pub open spec fn chosen_variant(variant: JsonValue) -> Option<JsonValue> {
    match variant {
        JsonValue::Array(choices) => if choices.len() > 0 {
            Some(choices[0])
        } else {
            None
        },
        single => Some(single),
    }
}

/// The model that a blockstate document names for a variant key: the `model`
/// string of the chosen variant among `variants`.
pub open spec fn variant_model_of(doc: JsonValue, properties: Seq<char>) -> Option<Seq<char>> {
    match json_member(doc, "variants"@) {
        None => None,
        Some(variants) => match json_member(variants, properties) {
            None => None,
            Some(variant) => match chosen_variant(variant) {
                None => None,
                Some(chosen) => match json_member(chosen, "model"@) {
                    None => None,
                    Some(model) => json_text(model),
                },
            },
        },
    }
}

/// The texture that a model document names for the top of a block: the
/// first that is present of `top`, `all` and `particle` among `textures`.
pub open spec fn model_texture_of(doc: JsonValue) -> Option<Seq<char>> {
    match json_member(doc, "textures"@) {
        None => None,
        Some(textures) => if json_member(textures, "top"@) is Some {
            json_text(json_member(textures, "top"@)->0)
        } else if json_member(textures, "all"@) is Some {
            json_text(json_member(textures, "all"@)->0)
        } else if json_member(textures, "particle"@) is Some {
            json_text(json_member(textures, "particle"@)->0)
        } else {
            None
        },
    }
}

/// The characters of an optional string.
pub open spec fn optional_text(r: Option<String>) -> Option<Seq<char>> {
    match r {
        Some(s) => Some(s@),
        None => None,
    }
}

/// The model name of a block variant.
pub open spec fn model_name(res: ResourcesValue, name: Seq<char>, properties: Seq<char>) -> Option<
    Seq<char>,
> {
    match block_stem(name) {
        None => None,
        Some(stem) => if !res.blockstates.contains_key(stem) {
            None
        } else {
            match json_document(res.blockstates[stem]) {
                None => None,
                Some(doc) => variant_model_of(doc, properties),
            }
        },
    }
}

/// The texture name of a model.
pub open spec fn texture_name(res: ResourcesValue, model: Seq<char>) -> Option<Seq<char>> {
    if !res.models.contains_key(model) {
        None
    } else {
        match json_document(res.models[model]) {
            None => None,
            Some(doc) => model_texture_of(doc),
        }
    }
}

/// The appearance of a block variant: the record of the texture that its
/// model names, tinted where the block has a tint. `None` where a document
/// or the texture is missing or cannot be read.
pub open spec fn resolved(
    res: ResourcesValue,
    tints: Map<Seq<char>, Tint>,
    name: Seq<char>,
    properties: Seq<char>,
) -> Option<RecordValue> {
    match model_name(res, name, properties) {
        None => None,
        Some(model) => match texture_name(res, model) {
            None => None,
            Some(texture) => if !res.textures.contains_key(texture) {
                None
            } else {
                match texture_of_image(decoded_image(res.textures[texture])) {
                    None => None,
                    Some(pixels) => Some(
                        record_of(
                            pixels,
                            if tints.contains_key(name) {
                                Some(tints[name])
                            } else {
                                None
                            },
                        ),
                    ),
                }
            },
        },
    }
}

/// The file stem of a block name.
pub fn stem_of(name: &str) -> (r: Option<&str>)
    ensures
        match block_stem(name@) {
            Some(stem) => r matches Some(s) && s@ == stem,
            None => r is None,
        },
{
    let length: usize = name.unicode_len();
    if length < 10 {
        return None;
    }
    assert(name@.subrange(0, 10) =~= name@.take(10));
    assert(name@.subrange(10, length as int) =~= name@.skip(10));
    if str_eq(name.substring_char(0, 10), "minecraft:") {
        Some(name.substring_char(10, length))
    } else {
        None
    }
}

/// The model that a blockstate document names for a variant key.
pub fn variant_model(doc: &Json, properties: &str) -> (r: Option<String>)
    ensures
        optional_text(r) == variant_model_of(doc@, properties@),
{
    let variants = match doc.get("variants") {
        Some(variants) => variants,
        None => {
            return None;
        },
    };
    let variant = match variants.get(properties) {
        Some(variant) => variant,
        None => {
            return None;
        },
    };
    // Some blocks have different models for the same variant, which the game
    // chooses at random. The first one is taken here.
    let chosen = match variant.as_array() {
        Some(choices) => {
            if choices.len() == 0 {
                return None;
            }
            &choices[0]
        },
        None => variant,
    };
    match chosen.get("model") {
        Some(model) => match model.as_str() {
            Some(text) => Some(String::from_str(text)),
            None => None,
        },
        None => None,
    }
}

/// The texture that a model document names for the top of a block.
pub fn model_texture(doc: &Json) -> (r: Option<String>)
    ensures
        optional_text(r) == model_texture_of(doc@),
{
    let textures = match doc.get("textures") {
        Some(textures) => textures,
        None => {
            return None;
        },
    };
    // top, all, or particle are the textures most often seen from above
    let reference = if let Some(top) = textures.get("top") {
        top
    } else if let Some(all) = textures.get("all") {
        all
    } else if let Some(particle) = textures.get("particle") {
        particle
    } else {
        return None;
    };
    match reference.as_str() {
        Some(text) => Some(String::from_str(text)),
        None => None,
    }
}

/// The model name of a block variant, read from the block's blockstate
/// document.
pub fn get_model(resources: &ResourcePack, name: &str, properties: &str) -> (r: Option<String>)
    ensures
        optional_text(r) == model_name(resources@, name@, properties@),
{
    let stem = match stem_of(name) {
        Some(stem) => stem,
        None => {
            return None;
        },
    };
    let text = match resources.blockstate(stem) {
        Some(text) => text,
        None => {
            return None;
        },
    };
    match parse_json(text) {
        Some(doc) => variant_model(&doc, properties),
        None => None,
    }
}

/// The texture name of a model, read from the model document.
pub fn get_texture(resources: &ResourcePack, model: &str) -> (r: Option<String>)
    ensures
        optional_text(r) == texture_name(resources@, model@),
{
    let text = match resources.model(model) {
        Some(text) => text,
        None => {
            return None;
        },
    };
    match parse_json(text) {
        Some(doc) => model_texture(&doc),
        None => None,
    }
}

/// The tints that result from recording the pairs one after the other.
pub open spec fn tint_map(pairs: Seq<(Seq<char>, Tint)>) -> Map<Seq<char>, Tint>
    decreases pairs.len(),
{
    if pairs.len() == 0 {
        Map::empty()
    } else {
        tint_map(pairs.drop_last()).insert(pairs.last().0, pairs.last().1)
    }
}

/// The (name, tint) pairs of a vector of pairs.
pub open spec fn tint_pairs(pairs: Seq<(String, Tint)>) -> Seq<(Seq<char>, Tint)> {
    Seq::new(pairs.len(), |i: int| (pairs[i].0@, pairs[i].1))
}

/// The mathematical value of a texture loader.
pub struct LoaderValue {
    /// The records, each at its handle.
    pub textures: Seq<RecordValue>,
    /// For every key that was asked for, its handle, or `None` where the key
    /// cannot be resolved.
    pub lookup: TableValue,
    /// The tint of each tinted block.
    pub tints: Map<Seq<char>, Tint>,
    /// The resource tree.
    pub resources: ResourcesValue,
}

/// Key `k` is stored with handle `h`.
pub open spec fn owns(l: LoaderValue, k: Key, h: int) -> bool {
    l.lookup.contains_key(k) && l.lookup[k] == Some(h as usize)
}

/// Some key is stored with handle `h`.
pub open spec fn has_owner(l: LoaderValue, h: int) -> bool {
    exists|k: Key| #[trigger] owns(l, k, h)
}

/// What is stored under a key is what the key resolves to.
pub open spec fn faithful(l: LoaderValue, k: Key) -> bool {
    match l.lookup[k] {
        None => resolved(l.resources, l.tints, k.0, k.1) is None,
        Some(h) => h < l.textures.len() && resolved(l.resources, l.tints, k.0, k.1) == Some(
            l.textures[h as int],
        ),
    }
}

/// The cache is a memo of `resolved`: every stored key is faithful, every
/// record belongs to exactly one key, and every image has 256 pixels.
pub open spec fn consistent(l: LoaderValue) -> bool {
    &&& forall|k: Key| #[trigger] l.lookup.contains_key(k) ==> faithful(l, k)
    &&& forall|h: int| 0 <= h < l.textures.len() ==> #[trigger] has_owner(l, h)
    &&& forall|k1: Key, k2: Key, h: int| #[trigger]
        owns(l, k1, h) && #[trigger] owns(l, k2, h) ==> k1 == k2
    &&& forall|h: int| 0 <= h < l.textures.len() ==> (#[trigger] l.textures[h]).image.len() == 256
}

/// The handle that is stored for a key; `None` for a key that is not stored
/// or cannot be resolved.
pub open spec fn cached_handle(l: LoaderValue, k: Key) -> Option<usize> {
    if l.lookup.contains_key(k) {
        l.lookup[k]
    } else {
        None
    }
}

/// What a load of `key` with result `r` makes of a cache.
///
/// The result is the handle of what the key resolves to. A key that the
/// cache holds leaves the cache as it is; another one is stored, and where it
/// resolves, its record is appended under the next handle.
pub open spec fn load_step(before: LoaderValue, after: LoaderValue, key: Key, r: Option<usize>) -> bool {
    let appearance = resolved(before.resources, before.tints, key.0, key.1);
    &&& after.resources == before.resources
    &&& after.tints == before.tints
    &&& r is Some <==> appearance is Some
    &&& r matches Some(h) ==> h < after.textures.len() && Some(after.textures[h as int])
        == appearance
    &&& if before.lookup.contains_key(key) {
        after == before && r == before.lookup[key]
    } else {
        &&& after.lookup == before.lookup.insert(key, r)
        &&& after.textures == (match r {
            Some(h) => before.textures.push(appearance->0),
            None => before.textures,
        })
        &&& r matches Some(h) ==> h == before.textures.len()
    }
}

/// Loading a key again changes nothing and gives the same handle: over any
/// number of loads, a key has at most one record appended for it.
pub proof fn lemma_load_again(
    before: LoaderValue,
    middle: LoaderValue,
    after: LoaderValue,
    key: Key,
    first: Option<usize>,
    second: Option<usize>,
)
    requires
        load_step(before, middle, key, first),
        load_step(middle, after, key, second),
    ensures
        after == middle,
        second == first,
        after.textures.len() <= before.textures.len() + 1,
{
}

/// In a consistent cache no key owns two records and no record has two keys:
/// there are exactly as many records as keys with a handle.
pub proof fn lemma_one_record_per_key(l: LoaderValue, k1: Key, k2: Key)
    requires
        consistent(l),
        l.lookup.contains_key(k1),
        l.lookup.contains_key(k2),
        l.lookup[k1] is Some,
        l.lookup[k2] is Some,
    ensures
        l.lookup[k1]->0 < l.textures.len(),
        (l.lookup[k1] == l.lookup[k2]) <==> k1 == k2,
{
    assert(faithful(l, k1));
    if l.lookup[k1] == l.lookup[k2] {
        assert(owns(l, k1, l.lookup[k1]->0 as int));
        assert(owns(l, k2, l.lookup[k1]->0 as int));
    }
}

/// The values of a sequence of records.
pub open spec fn record_values(records: Seq<TextureRecord>) -> Seq<RecordValue> {
    Seq::new(records.len(), |i: int| records[i]@)
}

/// The appearance cache.
pub struct TextureLoader {
    // The textures with their transparency and their average colour
    textures: Vec<TextureRecord>,
    // (block name, graphic properties) -> texture index
    textures_map: KeyTable,
    // Blocks which have a white and gray texture that needs to be painted
    biome_blocks: StringHashMap<Tint>,
    resources: ResourcePack,
}

impl View for TextureLoader {
    type V = LoaderValue;

    closed spec fn view(&self) -> LoaderValue {
        LoaderValue {
            textures: record_values(self.textures@),
            lookup: self.textures_map@,
            tints: self.biome_blocks@,
            resources: self.resources@,
        }
    }
}

impl TextureLoader {
    /// The loader's invariant.
    pub closed spec fn wf(&self) -> bool {
        self.textures_map.wf() && consistent(self@)
    }

    /// What the invariant says of the loader's value.
    pub proof fn lemma_wf(&self)
        requires
            self.wf(),
        ensures
            consistent(self@),
    {
    }

    /// An empty cache over the given tints and resources. Where a block occurs
    /// more than once among the tints, its last tint stands.
    pub fn new(biome_blocks: Vec<(String, Tint)>, resources: ResourcePack) -> (loader: TextureLoader)
        ensures
            loader.wf(),
            loader@.textures == Seq::<RecordValue>::empty(),
            loader@.lookup == TableValue::empty(),
            loader@.tints == tint_map(tint_pairs(biome_blocks@)),
            loader@.resources == resources@,
    {
        let mut tints: StringHashMap<Tint> = StringHashMap::new();
        let mut i: usize = 0;
        assert(tint_pairs(biome_blocks@).take(0) =~= Seq::empty());
        while i < biome_blocks.len()
            invariant
                i <= biome_blocks@.len(),
                tints@ == tint_map(tint_pairs(biome_blocks@).take(i as int)),
            decreases biome_blocks@.len() - i,
        {
            proof {
                let after = tint_pairs(biome_blocks@).take(i + 1);
                assert(after.drop_last() =~= tint_pairs(biome_blocks@).take(i as int));
            }
            tints.insert(biome_blocks[i].0.clone(), biome_blocks[i].1);
            i += 1;
        }
        assert(tint_pairs(biome_blocks@).take(biome_blocks@.len() as int) =~= tint_pairs(
            biome_blocks@,
        ));
        let loader = TextureLoader {
            textures: Vec::new(),
            textures_map: KeyTable::new(),
            biome_blocks: tints,
            resources,
        };
        assert(loader@.textures =~= Seq::<RecordValue>::empty());
        loader
    }

    /// The record of a handle.
    pub fn get_texture(&self, index: usize) -> (record: &TextureRecord)
        requires
            self.wf(),
            index < self@.textures.len(),
        ensures
            record@ == self@.textures[index as int],
            record.image.wf(),
    {
        assert(self@.textures[index as int] == self.textures@[index as int]@);
        &self.textures[index]
    }

    /// The handle that the cache holds for a key, without resolving anything.
    pub fn index(&self, name: &str, properties: &str) -> (r: Option<usize>)
        requires
            self.wf(),
        ensures
            r == cached_handle(self@, (name@, properties@)),
            r matches Some(h) ==> h < self@.textures.len() && resolved(
                self@.resources,
                self@.tints,
                name@,
                properties@,
            ) == Some(self@.textures[h as int]),
    {
        match self.textures_map.get(name, properties) {
            Some(handle) => {
                assert(faithful(self@, (name@, properties@)));
                handle
            },
            None => None,
        }
    }

    /// What the cache holds for a key: its handle, `Some(None)` for a key that
    /// is known not to resolve, `None` for a key that was never asked for.
    pub fn cached(&self, name: &str, properties: &str) -> (r: Option<Option<usize>>)
        requires
            self.wf(),
        ensures
            r == if self@.lookup.contains_key((name@, properties@)) {
                Some(self@.lookup[(name@, properties@)])
            } else {
                None
            },
            r matches Some(stored) ==> faithful(self@, (name@, properties@)),
    {
        self.textures_map.get(name, properties)
    }

    /// Resolves a key through the resource tree, without storing anything.
    pub fn resolve(&self, name: &str, properties: &str) -> (r: Option<TextureRecord>)
        ensures
            match resolved(self@.resources, self@.tints, name@, properties@) {
                Some(value) => r matches Some(record) && record@ == value && record.image.wf(),
                None => r is None,
            },
    {
        let model = match get_model(&self.resources, name, properties) {
            Some(model) => model,
            None => {
                return None;
            },
        };
        let texture = match get_texture(&self.resources, model.as_str()) {
            Some(texture) => texture,
            None => {
                return None;
            },
        };
        let file = match self.resources.texture(texture.as_str()) {
            Some(file) => file,
            None => {
                return None;
            },
        };
        let image = match load_image(file.as_slice()) {
            Some(image) => image,
            None => {
                return None;
            },
        };
        // Sometimes the tint is hardcoded in the game, so the only way to
        // reproduce it is to define it ourselves
        let tint: Option<Tint> = match self.biome_blocks.get(name) {
            Some(tint) => Some(*tint),
            None => None,
        };
        Some(make_record(image, tint))
    }

    /// The handle of a key. A key that the cache does not hold yet is
    /// resolved and stored, with its record or as unresolvable.
    pub fn load(&mut self, name: &str, properties: &str) -> (r: Option<usize>)
        requires
            old(self).wf(),
        ensures
            final(self).wf(),
            load_step(old(self)@, final(self)@, (name@, properties@), r),
    {
        let ghost key: Key = (name@, properties@);
        let ghost before = self@;
        // Check if the texture was already loaded
        if let Some(index) = self.textures_map.get(name, properties) {
            assert(faithful(self@, key));
            return index;
        }
        // Try to load the texture
        match self.resolve(name, properties) {
            Some(record) => {
                let handle: usize = self.textures.len();
                assert(record_values(self.textures@.push(record)) =~= record_values(
                    self.textures@,
                ).push(record@));
                self.textures.push(record);
                self.textures_map.insert(name, properties, Some(handle));
                proof {
                    let after = self@;
                    assert forall|k: Key| #[trigger] after.lookup.contains_key(k) implies faithful(
                        after,
                        k,
                    ) by {
                        if k != key {
                            assert(before.lookup.contains_key(k));
                            assert(faithful(before, k));
                        }
                    }
                    assert forall|h: int| 0 <= h < after.textures.len() implies #[trigger] has_owner(
                        after,
                        h,
                    ) by {
                        if h < before.textures.len() {
                            assert(has_owner(before, h));
                            let k = choose|k: Key| #[trigger] owns(before, k, h);
                            assert(owns(after, k, h));
                        } else {
                            assert(owns(after, key, h));
                        }
                    }
                    assert forall|k1: Key, k2: Key, h: int| #[trigger]
                        owns(after, k1, h) && #[trigger] owns(after, k2, h) implies k1 == k2 by {
                        if k1 != key {
                            assert(owns(before, k1, h));
                            assert(faithful(before, k1));
                        }
                        if k2 != key {
                            assert(owns(before, k2, h));
                            assert(faithful(before, k2));
                        }
                    }
                }
                Some(handle)
            },
            None => {
                // The texture cannot be loaded: flag it as unloadable for the
                // future
                self.textures_map.insert(name, properties, None);
                proof {
                    let after = self@;
                    assert forall|k: Key| #[trigger] after.lookup.contains_key(k) implies faithful(
                        after,
                        k,
                    ) by {
                        if k != key {
                            assert(before.lookup.contains_key(k));
                            assert(faithful(before, k));
                        }
                    }
                    assert forall|h: int| 0 <= h < after.textures.len() implies #[trigger] has_owner(
                        after,
                        h,
                    ) by {
                        assert(has_owner(before, h));
                        let k = choose|k: Key| #[trigger] owns(before, k, h);
                        assert(owns(after, k, h));
                    }
                    assert forall|k1: Key, k2: Key, h: int| #[trigger]
                        owns(after, k1, h) && #[trigger] owns(after, k2, h) implies k1 == k2 by {
                        assert(owns(before, k1, h));
                        assert(owns(before, k2, h));
                    }
                }
                None
            },
        }
    }
}

} // verus!
