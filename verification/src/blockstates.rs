//! The graphic-property index, built from the blockstate documents.

use crate::json::{
    field_values, json_document, json_member, parse_json, Fields, Json, JsonValue,
};
use crate::palette::{slot_map, slot_pairs, GraphicPropertyIndex, IndexValue};
use crate::text::{split, split_at, texts};
use vstd::prelude::*;

verus! {

/// The property key of one `key=value` part of a variant key: what stands
/// before the first equals sign.
pub open spec fn property_key(part: Seq<char>) -> Seq<char> {
    split_at(part, '=')[0]
}

/// The (key, position) pairs of the first `n` parts of a variant key. A part
/// without a key records nothing.
pub open spec fn key_slots(parts: Seq<Seq<char>>, n: int) -> Seq<(Seq<char>, usize)>
    decreases n,
{
    if n <= 0 {
        Seq::empty()
    } else {
        let key = property_key(parts[n - 1]);
        if key.len() > 0 {
            key_slots(parts, n - 1).push((key, (n - 1) as usize))
        } else {
            key_slots(parts, n - 1)
        }
    }
}

/// The (key, position) pairs of a variant key such as
/// `facing=north,waterlogged=true`.
pub open spec fn variant_slots(variant: Seq<char>) -> Seq<(Seq<char>, usize)> {
    key_slots(split_at(variant, ','), split_at(variant, ',').len() as int)
}

/// The (key, position) pairs of the first `n` variant keys of a `variants`
/// object, in the order of the object's members.
pub open spec fn variants_slots(fields: Fields, n: int) -> Seq<(Seq<char>, usize)>
    decreases n,
{
    if n <= 0 {
        Seq::empty()
    } else {
        variants_slots(fields, n - 1) + variant_slots(fields[n - 1].0)
    }
}

/// The (key, position) pairs that a blockstate document records: those of
/// its `variants`, which must be an object where it is present.
pub open spec fn block_order(doc: JsonValue) -> Option<Seq<(Seq<char>, usize)>> {
    match json_member(doc, "variants"@) {
        None => Some(Seq::empty()),
        Some(JsonValue::Object(fields)) => Some(variants_slots(fields, fields.len() as int)),
        Some(_) => None,
    }
}

/// The block name of a blockstate file stem.
pub open spec fn block_name(stem: Seq<char>) -> Seq<char> {
    "minecraft:"@ + stem
}

/// Why the blockstate documents give no index; each error names the position
/// of the file in the list.
#[derive(Debug, Clone, Copy, PartialEq, Eq, Structural)]
pub enum PropsError {
    /// The file is not a JSON document.
    InvalidJson(usize),
    /// The `variants` member of the document is no object.
    InvalidVariants(usize),
}

/// The index that the first `n` blockstate files, each a stem and a text,
/// give; the first file that fails decides the error.
pub open spec fn graphic_props(files: Seq<(Seq<char>, Seq<char>)>, n: int) -> Result<
    IndexValue,
    PropsError,
>
    decreases n,
{
    if n <= 0 {
        Ok(Map::empty())
    } else {
        match graphic_props(files, n - 1) {
            Err(e) => Err(e),
            Ok(index) => match json_document(files[n - 1].1) {
                None => Err(PropsError::InvalidJson((n - 1) as usize)),
                Some(doc) => match block_order(doc) {
                    None => Err(PropsError::InvalidVariants((n - 1) as usize)),
                    Some(order) => Ok(index.insert(block_name(files[n - 1].0), slot_map(order))),
                },
            },
        }
    }
}

/// The (stem, text) pairs of a vector of files.
pub open spec fn file_texts(files: Seq<(String, String)>) -> Seq<(Seq<char>, Seq<char>)> {
    Seq::new(files.len(), |i: int| (files[i].0@, files[i].1@))
}

/// Once the first `n` files fail, the whole list fails in the same way.
proof fn lemma_props_error(files: Seq<(Seq<char>, Seq<char>)>, n: int)
    requires
        0 <= n <= files.len(),
        graphic_props(files, n) is Err,
    ensures
        graphic_props(files, files.len() as int) == graphic_props(files, n),
    decreases files.len() - n,
{
    if n < files.len() {
        lemma_props_error(files, n + 1);
    }
}

/// Appends the (key, position) pairs of a variant key to `order`.
pub fn variant_order(variant: &str, order: &mut Vec<(String, usize)>)
    ensures
        slot_pairs(final(order)@) == slot_pairs(old(order)@) + variant_slots(variant@),
{
    // Separate each property-value pair
    let propvalues = split(variant, ',');
    let ghost parts = split_at(variant@, ',');
    let ghost start = slot_pairs(order@);
    let mut i: usize = 0;
    assert(slot_pairs(order@) =~= start + key_slots(parts, 0));
    while i < propvalues.len()
        invariant
            i <= propvalues@.len(),
            texts(propvalues@) == parts,
            slot_pairs(order@) == start + key_slots(parts, i as int),
        decreases propvalues@.len() - i,
    {
        // Get the property
        let pieces = split(propvalues[i].as_str(), '=');
        assert(parts[i as int] == propvalues@[i as int]@);
        assert(texts(pieces@)[0] == pieces@[0]@);
        let prop = &pieces[0];
        if prop.as_str().unicode_len() > 0 {
            let pair = (prop.clone(), i);
            assert(slot_pairs(order@.push(pair)) =~= slot_pairs(order@).push((pair.0@, i)));
            assert((start + key_slots(parts, i as int)).push((pair.0@, i)) =~= start + key_slots(
                parts,
                i as int,
            ).push((pair.0@, i)));
            order.push(pair);
        }
        i += 1;
    }
}

/// The (key, position) pairs that a blockstate document records, or `None`
/// where its `variants` member is no object.
pub fn block_slots(doc: &Json) -> (r: Option<Vec<(String, usize)>>)
    ensures
        match block_order(doc@) {
            Some(order) => r matches Some(pairs) && slot_pairs(pairs@) == order,
            None => r is None,
        },
{
    let mut used_variants: Vec<(String, usize)> = Vec::new();
    assert(slot_pairs(used_variants@) =~= Seq::empty());
    if let Some(variants) = doc.get("variants") {
        let variants = match variants.as_object() {
            Some(variants) => variants,
            None => {
                return None;
            },
        };
        let ghost fields = field_values(variants@);
        // The keys are the graphical properties used for each variant
        // in the format `prop1=value1,prop2=value,prop3=... etc`
        let mut k: usize = 0;
        while k < variants.len()
            invariant
                k <= variants@.len(),
                fields == field_values(variants@),
                slot_pairs(used_variants@) == variants_slots(fields, k as int),
            decreases variants@.len() - k,
        {
            variant_order(variants[k].0.as_str(), &mut used_variants);
            k += 1;
        }
    }
    Some(used_variants)
}

/// Builds the graphic-property index from the blockstate files, each given
/// by its file stem and its text.
pub fn load_graphic_props(files: &Vec<(String, String)>) -> (r: Result<
    GraphicPropertyIndex,
    PropsError,
>)
    ensures
        match graphic_props(file_texts(files@), files@.len() as int) {
            Ok(value) => r matches Ok(index) && index@ == value,
            Err(e) => r == Err::<GraphicPropertyIndex, PropsError>(e),
        },
{
    let mut graphic_set = GraphicPropertyIndex::new();
    let mut n: usize = 0;
    while n < files.len()
        invariant
            n <= files@.len(),
            graphic_props(file_texts(files@), n as int) == Ok::<IndexValue, PropsError>(
                graphic_set@,
            ),
        decreases files@.len() - n,
    {
        // Append the namespace to the file stem
        let mut name = String::from_str("minecraft:");
        name.append(files[n].0.as_str());
        assert(file_texts(files@)[n as int] == (files@[n as int].0@, files@[n as int].1@));
        let json = match parse_json(files[n].1.as_str()) {
            Some(json) => json,
            None => {
                proof {
                    lemma_props_error(file_texts(files@), n + 1);
                }
                return Err(PropsError::InvalidJson(n));
            },
        };
        let used_variants = match block_slots(&json) {
            Some(pairs) => pairs,
            None => {
                proof {
                    lemma_props_error(file_texts(files@), n + 1);
                }
                return Err(PropsError::InvalidVariants(n));
            },
        };
        graphic_set.insert(name, &used_variants);
        n += 1;
    }
    Ok(graphic_set)
}

} // verus!
