//! Palette entries and the canonical ordering of graphic properties.

use crate::nbt::{member, Members, Tag, TagValue};
use crate::text::{comma_joined, join_with_commas, key_value, make_key_value, texts};
use vstd::hash_map::StringHashMap;
use vstd::prelude::*;

verus! {

/// For one block: the slot of each property key in the block's variant keys.
pub type SlotMap = Map<Seq<char>, usize>;

/// For each block name, its slot map.
pub type IndexValue = Map<Seq<char>, SlotMap>;

/// The slot map that results from recording the pairs one after the other.
pub open spec fn slot_map(pairs: Seq<(Seq<char>, usize)>) -> SlotMap
    decreases pairs.len(),
{
    if pairs.len() == 0 {
        Map::empty()
    } else {
        slot_map(pairs.drop_last()).insert(pairs.last().0, pairs.last().1)
    }
}

/// The (key, slot) pairs of a vector of pairs.
pub open spec fn slot_pairs(pairs: Seq<(String, usize)>) -> Seq<(Seq<char>, usize)> {
    Seq::new(pairs.len(), |i: int| (pairs[i].0@, pairs[i].1))
}

/// The canonical ordering of graphic properties: for every known block, the
/// position that each of its property keys takes in the block's variant keys.
pub struct GraphicPropertyIndex {
    blocks: StringHashMap<StringHashMap<usize>>,
}

impl View for GraphicPropertyIndex {
    type V = IndexValue;

    closed spec fn view(&self) -> IndexValue {
        Map::new(
            |name: Seq<char>| self.blocks@.contains_key(name),
            |name: Seq<char>| self.blocks@[name]@,
        )
    }
}

impl GraphicPropertyIndex {
    /// An index that knows no block.
    pub fn new() -> (index: GraphicPropertyIndex)
        ensures
            index@ == IndexValue::empty(),
    {
        let index = GraphicPropertyIndex { blocks: StringHashMap::new() };
        assert(index@ =~= IndexValue::empty());
        index
    }

    /// Records the ordering of `block`, replacing an earlier one. Where a key
    /// occurs more than once in `order`, its last slot stands.
    pub fn insert(&mut self, block: String, order: &Vec<(String, usize)>)
        ensures
            final(self)@ == old(self)@.insert(block@, slot_map(slot_pairs(order@))),
    {
        let mut slots: StringHashMap<usize> = StringHashMap::new();
        let mut i: usize = 0;
        assert(slot_pairs(order@).take(0) =~= Seq::empty());
        while i < order.len()
            invariant
                i <= order@.len(),
                slots@ == slot_map(slot_pairs(order@).take(i as int)),
            decreases order@.len() - i,
        {
            proof {
                let after = slot_pairs(order@).take(i + 1);
                assert(after.drop_last() =~= slot_pairs(order@).take(i as int));
            }
            slots.insert(order[i].0.clone(), order[i].1);
            i += 1;
        }
        assert(slot_pairs(order@).take(order@.len() as int) =~= slot_pairs(order@));
        let ghost before = self@;
        self.blocks.insert(block, slots);
        assert(self@ =~= before.insert(block@, slot_map(slot_pairs(order@))));
    }

    /// Whether the index knows `block`.
    pub fn contains(&self, block: &str) -> (known: bool)
        ensures
            known == self@.contains_key(block@),
    {
        self.blocks.contains_key(block)
    }

    /// The slot map of `block`, when the index knows it.
    pub(crate) fn order_of(&self, block: &str) -> (r: Option<&StringHashMap<usize>>)
        ensures
            r is Some <==> self@.contains_key(block@),
            r matches Some(order) ==> order@ == self@[block@],
    {
        self.blocks.get(block)
    }
}

/// One palette entry of a section.
#[derive(Debug, Clone, PartialEq, Eq)]
pub struct PaletteEntry {
    /// The namespaced block name.
    pub name: String,
    /// All `key=value` pairs of the block, joined by commas.
    pub properties: String,
    /// The `key=value` pairs of the graphic properties, each at its canonical
    /// slot, joined by commas.
    pub graphic_properties: String,
}

/// The mathematical value of a palette entry.
pub struct PaletteValue {
    pub name: Seq<char>,
    pub properties: Seq<char>,
    pub graphic_properties: Seq<char>,
}

impl View for PaletteEntry {
    type V = PaletteValue;

    open spec fn view(&self) -> PaletteValue {
        PaletteValue {
            name: self.name@,
            properties: self.properties@,
            graphic_properties: self.graphic_properties@,
        }
    }
}

/// Why a section could not be decoded.
#[derive(Debug, Clone, PartialEq, Eq)]
pub enum SectionError {
    /// A field is missing or of the wrong kind, or the packed block states do
    /// not hold 4096 entries of at most 32 bits.
    Malformed,
    /// The largest index is not the last palette position.
    PaletteMismatch,
    /// The palette names a block that the graphic-property index does not
    /// know.
    UnknownBlock(String),
    /// The index assigns a property key of this block a slot beyond the
    /// block's number of keys.
    BadSlot(String),
}

/// The mathematical value of a `SectionError`.
pub enum SectionFault {
    Malformed,
    PaletteMismatch,
    UnknownBlock(Seq<char>),
    BadSlot(Seq<char>),
}

impl View for SectionError {
    type V = SectionFault;

    open spec fn view(&self) -> SectionFault {
        match self {
            SectionError::Malformed => SectionFault::Malformed,
            SectionError::PaletteMismatch => SectionFault::PaletteMismatch,
            SectionError::UnknownBlock(name) => SectionFault::UnknownBlock(name@),
            SectionError::BadSlot(name) => SectionFault::BadSlot(name@),
        }
    }
}

impl SectionError {
    /// Whether the error stems from the configuration rather than from the
    /// section's data, so that skipping the section would hide it.
    pub open spec fn spec_is_fatal(&self) -> bool {
        self is UnknownBlock || self is BadSlot
    }

    /// Whether the error stems from the configuration rather than from the
    /// section's data, so that skipping the section would hide it.
    #[verifier::when_used_as_spec(spec_is_fatal)]
    pub fn is_fatal(&self) -> (fatal: bool)
        ensures
            fatal == self.spec_is_fatal(),
    {
        match self {
            SectionError::UnknownBlock(_) => true,
            SectionError::BadSlot(_) => true,
            _ => false,
        }
    }
}

/// Every property value is a string.
pub open spec fn all_strings(props: Members) -> bool {
    forall|i: int| 0 <= i < props.len() ==> (#[trigger] props[i]).1 is String
}

/// The `key=value` text of every property, in order.
pub open spec fn property_texts(props: Members) -> Seq<Seq<char>> {
    Seq::new(props.len(), |i: int| key_value(props[i].0, props[i].1->String_0))
}

/// Every property key that the ordering knows has a slot below the number of
/// keys of the ordering.
pub open spec fn slots_in_range(props: Members, order: SlotMap) -> bool {
    forall|i: int|
        0 <= i < props.len() && order.contains_key((#[trigger] props[i]).0) ==> order[props[i].0]
            < order.len()
}

/// One (at first empty) text per slot of the ordering, after the first `upto`
/// properties have been put at the slot of their key.
pub open spec fn filled_slots(props: Members, order: SlotMap, upto: int) -> Seq<Seq<char>>
    decreases upto,
{
    if upto <= 0 {
        Seq::new(order.len(), |i: int| Seq::empty())
    } else {
        let before = filled_slots(props, order, upto - 1);
        let prop = props[upto - 1];
        if order.contains_key(prop.0) {
            before.update(order[prop.0] as int, key_value(prop.0, prop.1->String_0))
        } else {
            before
        }
    }
}

/// The palette entry that a block description normalises to.
///
/// The description is a compound with a string `Name` and, optionally, a
/// compound `Properties` of strings. The block must be known to the index,
/// and the index must give each of its keys a slot below their number.
pub open spec fn palette_entry_of(block: TagValue, index: IndexValue) -> Result<
    PaletteValue,
    SectionFault,
> {
    if block is Compound && member(block->Compound_0, "Name"@) is Some && member(
        block->Compound_0,
        "Name"@,
    )->0 is String {
        let name = member(block->Compound_0, "Name"@)->0->String_0;
        let props = member(block->Compound_0, "Properties"@);
        if !index.contains_key(name) {
            Err(SectionFault::UnknownBlock(name))
        } else if props is None {
            Ok(
                PaletteValue {
                    name,
                    properties: Seq::empty(),
                    graphic_properties: comma_joined(filled_slots(Seq::empty(), index[name], 0)),
                },
            )
        } else if !(props->0 is Compound) || !all_strings(props->0->Compound_0) {
            Err(SectionFault::Malformed)
        } else if !slots_in_range(props->0->Compound_0, index[name]) {
            Err(SectionFault::BadSlot(name))
        } else {
            Ok(
                PaletteValue {
                    name,
                    properties: comma_joined(property_texts(props->0->Compound_0)),
                    graphic_properties: comma_joined(
                        filled_slots(
                            props->0->Compound_0,
                            index[name],
                            props->0->Compound_0.len() as int,
                        ),
                    ),
                },
            )
        }
    } else {
        Err(SectionFault::Malformed)
    }
}

/// Where a block description is accepted, the index knows the block and gives
/// each of the block's property keys that it knows a slot below the number of
/// the block's keys.
pub proof fn lemma_accepted_slots(block: TagValue, index: IndexValue)
    requires
        palette_entry_of(block, index) is Ok,
    ensures
        block is Compound,
        member(block->Compound_0, "Name"@) is Some,
        member(block->Compound_0, "Name"@)->0 is String,
        index.contains_key(palette_entry_of(block, index)->Ok_0.name),
        member(block->Compound_0, "Properties"@) matches Some(props) ==> props is Compound
            && slots_in_range(
            props->Compound_0,
            index[palette_entry_of(block, index)->Ok_0.name],
        ),
{
}

/// `r` is the executable form of `expected`.
pub open spec fn entry_result(
    r: Result<PaletteEntry, SectionError>,
    expected: Result<PaletteValue, SectionFault>,
) -> bool {
    match expected {
        Ok(value) => r matches Ok(entry) && entry@ == value,
        Err(fault) => r matches Err(e) && e@ == fault,
    }
}

/// Normalises one block description of a palette.
#[verifier::loop_isolation(false)]
pub fn palette_entry(block: &Tag, graphic_set: &GraphicPropertyIndex) -> (r: Result<
    PaletteEntry,
    SectionError,
>)
    ensures
        entry_result(r, palette_entry_of(block@, graphic_set@)),
{
    let members = match block.as_compound() {
        Some(c) => c,
        None => {
            return Err(SectionError::Malformed);
        },
    };
    let name: &str = match members.get("Name") {
        Some(tag) => match tag.as_string() {
            Some(s) => s,
            None => {
                return Err(SectionError::Malformed);
            },
        },
        None => {
            return Err(SectionError::Malformed);
        },
    };
    let order = match graphic_set.order_of(name) {
        Some(o) => o,
        None => {
            return Err(SectionError::UnknownBlock(String::from_str(name)));
        },
    };
    let slot_count: usize = order.len();
    let mut slots: Vec<String> = Vec::new();
    let mut k: usize = 0;
    while k < slot_count
        invariant
            k <= slot_count,
            slots@.len() == k,
            forall|i: int| 0 <= i < k ==> (#[trigger] slots@[i])@ == Seq::<char>::empty(),
        decreases slot_count - k,
    {
        slots.push(String::new());
        k += 1;
    }
    let mut pairs: Vec<String> = Vec::new();
    assert(texts(slots@) =~= filled_slots(Seq::empty(), order@, 0));
    match members.get("Properties") {
        None => {},
        Some(props_tag) => {
            let props = match props_tag.as_compound() {
                Some(c) => c,
                None => {
                    return Err(SectionError::Malformed);
                },
            };
            let count: usize = props.len();
            let mut i: usize = 0;
            while i < count
                invariant
                    i <= count,
                    count == props@.len(),
                    pairs@.len() == i,
                    forall|j: int| 0 <= j < i ==> (#[trigger] props@[j]).1 is String,
                    forall|j: int|
                        0 <= j < i ==> (#[trigger] pairs@[j])@ == property_texts(props@)[j],
                decreases count - i,
            {
                let value: &str = match props.tag_at(i).as_string() {
                    Some(s) => s,
                    None => {
                        return Err(SectionError::Malformed);
                    },
                };
                pairs.push(make_key_value(props.name_at(i), value));
                i += 1;
            }
            assert(texts(pairs@) =~= property_texts(props@));
            let mut i: usize = 0;
            while i < count
                invariant
                    i <= count,
                    count == props@.len(),
                    pairs@.len() == count,
                    slot_count == order@.len(),
                    slots@.len() == slot_count,
                    texts(pairs@) == property_texts(props@),
                    forall|j: int|
                        0 <= j < i && order@.contains_key((#[trigger] props@[j]).0) ==> order@[props@[j].0]
                            < order@.len(),
                    texts(slots@) == filled_slots(props@, order@, i as int),
                decreases count - i,
            {
                match order.get(props.name_at(i)) {
                    None => {},
                    Some(slot) => {
                        if *slot >= slot_count {
                            return Err(SectionError::BadSlot(String::from_str(name)));
                        }
                        let text = pairs[i].clone();
                        assert(text@ == texts(pairs@)[i as int]);
                        assert(texts(slots@.update(*slot as int, text)) =~= texts(slots@).update(
                            *slot as int,
                            text@,
                        ));
                        slots[*slot] = text;
                    },
                }
                i += 1;
            }
        },
    }
    let properties = join_with_commas(&pairs);
    let graphic_properties = join_with_commas(&slots);
    proof {
        if member(members@, "Properties"@) is None {
            assert(texts(pairs@) =~= Seq::<Seq<char>>::empty());
        }
    }
    Ok(PaletteEntry { name: String::from_str(name), properties, graphic_properties })
}

} // verus!
