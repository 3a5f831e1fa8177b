//! Sections, chunks and regions: the block data of one region file.

use crate::bits::{le_stream, unpack_indices, unpackable, unpacked};
use crate::nbt::{lemma_list_view, member, tag_values, Compound, Members, TagValue};
use crate::palette::{
    palette_entry, palette_entry_of, GraphicPropertyIndex, IndexValue, PaletteEntry, PaletteValue,
    SectionError, SectionFault,
};
use vstd::prelude::*;

verus! {

/// How many blocks a section is high.
pub const SECTION_SIZE: usize = 16;

/// How many blocks a chunk is long and deep.
pub const CHUNK_SIZE: usize = 16;

/// How many chunks a region is long and deep.
pub const REGION_SIZE: usize = 32;

/// How many sections a chunk stacks.
pub const CHUNK_SECTIONS: usize = 16;

/// Name reported where no block is stored.
pub open spec fn empty_block() -> Seq<char> {
    "minecraft:air"@
}

/// The mathematical value of a section: its palette and, for each of its
/// blocks, a palette position.
pub struct SectionValue {
    pub palette: Seq<PaletteValue>,
    pub indices: Seq<nat>,
}

/// The largest of `indices` is the last position of a palette of
/// `palette_len` entries.
pub open spec fn tight(palette_len: int, indices: Seq<nat>) -> bool {
    &&& forall|i: int| 0 <= i < indices.len() ==> (#[trigger] indices[i]) < palette_len
    &&& exists|i: int| 0 <= i < indices.len() && (#[trigger] indices[i]) == palette_len - 1
}

/// A section is either empty or holds 4096 indices that use its palette up to
/// the last entry.
pub open spec fn well_formed(s: SectionValue) -> bool {
    ||| s.palette.len() == 0 && s.indices.len() == 0
    ||| s.indices.len() == 4096 && tight(s.palette.len() as int, s.indices)
}

/// Position of block (x, y, z) in the index array of a section.
pub open spec fn section_index(x: int, y: int, z: int) -> int {
    y * 256 + z * 16 + x
}

/// The palette entry of block (x, y, z) of a section.
pub open spec fn section_entry(s: SectionValue, x: int, y: int, z: int) -> PaletteValue {
    s.palette[s.indices[section_index(x, y, z)] as int]
}

/// Every index of a well-formed section lies inside its palette.
pub proof fn lemma_indices_inside_palette(s: SectionValue)
    requires
        well_formed(s),
    ensures
        forall|i: int| 0 <= i < s.indices.len() ==> (#[trigger] s.indices[i]) < s.palette.len(),
{
}

/// The palette entries that a list of block descriptions normalises to; the
/// first description that fails decides the error.
pub open spec fn palette_of(blocks: Seq<TagValue>, index: IndexValue) -> Result<
    Seq<PaletteValue>,
    SectionFault,
>
    decreases blocks.len(),
{
    if blocks.len() == 0 {
        Ok(Seq::empty())
    } else {
        match palette_of(blocks.drop_last(), index) {
            Err(e) => Err(e),
            Ok(entries) => match palette_entry_of(blocks.last(), index) {
                Err(e) => Err(e),
                Ok(entry) => Ok(entries.push(entry)),
            },
        }
    }
}

/// Where a palette is accepted, each of its block descriptions is, and gives
/// the entry at its position.
pub proof fn lemma_palette_entries(blocks: Seq<TagValue>, index: IndexValue, i: int)
    requires
        palette_of(blocks, index) is Ok,
        0 <= i < blocks.len(),
    ensures
        palette_of(blocks, index)->Ok_0.len() == blocks.len(),
        palette_entry_of(blocks[i], index) == Ok::<PaletteValue, SectionFault>(
            palette_of(blocks, index)->Ok_0[i],
        ),
    decreases blocks.len(),
{
    lemma_palette_length(blocks, index);
    if i < blocks.len() - 1 {
        lemma_palette_length(blocks.drop_last(), index);
        lemma_palette_entries(blocks.drop_last(), index, i);
    } else {
        lemma_palette_length(blocks.drop_last(), index);
    }
}

/// An accepted palette has one entry for each block description.
pub proof fn lemma_palette_length(blocks: Seq<TagValue>, index: IndexValue)
    requires
        palette_of(blocks, index) is Ok,
    ensures
        palette_of(blocks, index)->Ok_0.len() == blocks.len(),
    decreases blocks.len(),
{
    if blocks.len() > 0 {
        lemma_palette_length(blocks.drop_last(), index);
    }
}

/// The vertical position of a section: its `Y` member, which must be a byte.
pub open spec fn section_y(section: Members) -> Option<i8> {
    match member(section, "Y"@) {
        Some(TagValue::Byte(y)) => Some(y),
        _ => None,
    }
}

/// The packed block states of a section: its `BlockStates` member, which must
/// be a long array that can be unpacked.
pub open spec fn section_states(section: Members) -> Option<Seq<i64>> {
    match member(section, "BlockStates"@) {
        Some(TagValue::LongArray(words)) => if unpackable(words) {
            Some(words)
        } else {
            None
        },
        _ => None,
    }
}

/// The section that a section compound describes, with its vertical position.
///
/// Without a `Palette` the section is empty. With one, the palette is
/// normalised entry by entry, the indices are unpacked from `BlockStates`,
/// and the largest index must be the last palette position.
pub open spec fn section_of(section: Members, index: IndexValue) -> Result<
    (SectionValue, i8),
    SectionFault,
> {
    match member(section, "Palette"@) {
        None => match section_y(section) {
            Some(y) => Ok((SectionValue { palette: Seq::empty(), indices: Seq::empty() }, y)),
            None => Err(SectionFault::Malformed),
        },
        Some(TagValue::List(blocks)) => match palette_of(blocks, index) {
            Err(e) => Err(e),
            Ok(palette) => match section_states(section) {
                None => Err(SectionFault::Malformed),
                Some(words) => if !tight(palette.len() as int, unpacked(le_stream(words))) {
                    Err(SectionFault::PaletteMismatch)
                } else {
                    match section_y(section) {
                        Some(y) => Ok(
                            (SectionValue { palette, indices: unpacked(le_stream(words)) }, y),
                        ),
                        None => Err(SectionFault::Malformed),
                    }
                },
            },
        },
        Some(_) => Err(SectionFault::Malformed),
    }
}

/// The values of a sequence of palette entries.
pub open spec fn palette_values(entries: Seq<PaletteEntry>) -> Seq<PaletteValue> {
    Seq::new(entries.len(), |i: int| entries[i]@)
}

/// A 16×16×16 cube of blocks: a palette and one palette position per block.
#[derive(Debug)]
pub struct ChunkSection {
    palette: Vec<PaletteEntry>,
    indices: Vec<usize>,
}

impl View for ChunkSection {
    type V = SectionValue;

    closed spec fn view(&self) -> SectionValue {
        SectionValue {
            palette: palette_values(self.palette@),
            indices: Seq::new(self.indices@.len(), |i: int| self.indices@[i] as nat),
        }
    }
}

impl ChunkSection {
    /// The section's invariant.
    pub open spec fn wf(&self) -> bool {
        well_formed(self@)
    }

    /// Decodes a section compound. Returns the section and its vertical
    /// position.
    #[verifier::loop_isolation(false)]
    pub fn new(section: &Compound, graphic_set: &GraphicPropertyIndex) -> (r: Result<
        (ChunkSection, i8),
        SectionError,
    >)
        ensures
            match section_of(section@, graphic_set@) {
                Ok((value, y)) => r matches Ok((s, found)) && s@ == value && found == y && s.wf(),
                Err(fault) => r matches Err(e) && e@ == fault,
            },
    {
        let mut palette: Vec<PaletteEntry> = Vec::new();
        let mut indices: Vec<usize> = Vec::new();
        match section.get("Palette") {
            None => {},
            Some(palette_tag) => {
                let blocks = match palette_tag.as_list() {
                    Some(list) => list,
                    None => {
                        return Err(SectionError::Malformed);
                    },
                };
                proof {
                    lemma_list_view(*blocks);
                    assert(tag_values(blocks@).take(0) =~= Seq::empty());
                    assert(palette_values(palette@) =~= Seq::empty());
                }
                let mut i: usize = 0;
                while i < blocks.len()
                    invariant
                        i <= blocks@.len(),
                        palette_of(tag_values(blocks@).take(i as int), graphic_set@) == Ok::<
                            Seq<PaletteValue>,
                            SectionFault,
                        >(palette_values(palette@)),
                    decreases blocks@.len() - i,
                {
                    proof {
                        let after = tag_values(blocks@).take(i + 1);
                        assert(after.drop_last() =~= tag_values(blocks@).take(i as int));
                        assert(after.last() == blocks@[i as int]@);
                    }
                    match palette_entry(&blocks[i], graphic_set) {
                        Err(e) => {
                            proof {
                                lemma_palette_error(
                                    tag_values(blocks@),
                                    graphic_set@,
                                    i + 1,
                                );
                            }
                            return Err(e);
                        },
                        Ok(entry) => {
                            assert(palette_values(palette@.push(entry)) =~= palette_values(
                                palette@,
                            ).push(entry@));
                            palette.push(entry);
                        },
                    }
                    i += 1;
                }
                assert(tag_values(blocks@).take(blocks@.len() as int) =~= tag_values(blocks@));
                let words = match section.get("BlockStates") {
                    Some(tag) => match tag.as_i64_vec() {
                        Some(words) => words,
                        None => {
                            return Err(SectionError::Malformed);
                        },
                    },
                    None => {
                        return Err(SectionError::Malformed);
                    },
                };
                indices = match unpack_indices(words) {
                    Some(indices) => indices,
                    None => {
                        return Err(SectionError::Malformed);
                    },
                };
                let ghost unpacked_value = unpacked(le_stream(words@));
                assert(Seq::new(indices@.len(), |i: int| indices@[i] as nat) =~= unpacked_value);
                if !is_tight(palette.len(), &indices) {
                    return Err(SectionError::PaletteMismatch);
                }
            },
        }
        let y: i8 = match section.get("Y") {
            Some(tag) => match tag.as_i8() {
                Some(y) => *y,
                None => {
                    return Err(SectionError::Malformed);
                },
            },
            None => {
                return Err(SectionError::Malformed);
            },
        };
        let result = ChunkSection { palette, indices };
        proof {
            if member(section@, "Palette"@) is None {
                assert(result@.palette =~= Seq::empty());
                assert(result@.indices =~= Seq::empty());
            }
        }
        Ok((result, y))
    }

    /// Whether the section holds no blocks.
    pub fn is_empty(&self) -> (empty: bool)
        ensures
            empty == (self@.palette.len() == 0),
    {
        self.palette.len() == 0
    }

    /// The palette.
    pub fn palette(&self) -> (palette: &Vec<PaletteEntry>)
        ensures
            palette_values(palette@) == self@.palette,
    {
        &self.palette
    }

    /// Position of block (x, y, z) in the index array.
    pub fn get_index(&self, x: usize, y: usize, z: usize) -> (i: usize)
        requires
            x < 16,
            y < 16,
            z < 16,
        ensures
            i == section_index(x as int, y as int, z as int),
            i < 4096,
    {
        y * CHUNK_SIZE * CHUNK_SIZE + z * CHUNK_SIZE + x
    }

    /// The palette entry of block (x, y, z).
    fn entry(&self, x: usize, y: usize, z: usize) -> (entry: &PaletteEntry)
        requires
            self.wf(),
            self@.palette.len() > 0,
            x < 16,
            y < 16,
            z < 16,
        ensures
            entry@ == section_entry(self@, x as int, y as int, z as int),
    {
        let i = self.get_index(x, y, z);
        assert(self@.indices[i as int] == self.indices@[i as int]);
        let position: usize = self.indices[i];
        assert(self@.palette[position as int] == self.palette@[position as int]@);
        &self.palette[position]
    }

    /// Name of block (x, y, z).
    pub fn get_block(&self, x: usize, y: usize, z: usize) -> (name: &str)
        requires
            self.wf(),
            self@.palette.len() > 0,
            x < 16,
            y < 16,
            z < 16,
        ensures
            name@ == section_entry(self@, x as int, y as int, z as int).name,
    {
        self.entry(x, y, z).name.as_str()
    }

    /// All properties of block (x, y, z).
    pub fn get_prop(&self, x: usize, y: usize, z: usize) -> (properties: &str)
        requires
            self.wf(),
            self@.palette.len() > 0,
            x < 16,
            y < 16,
            z < 16,
        ensures
            properties@ == section_entry(self@, x as int, y as int, z as int).properties,
    {
        self.entry(x, y, z).properties.as_str()
    }

    /// Graphic properties of block (x, y, z).
    pub fn get_gprop(&self, x: usize, y: usize, z: usize) -> (properties: &str)
        requires
            self.wf(),
            self@.palette.len() > 0,
            x < 16,
            y < 16,
            z < 16,
        ensures
            properties@ == section_entry(self@, x as int, y as int, z as int).graphic_properties,
    {
        self.entry(x, y, z).graphic_properties.as_str()
    }
}

/// Once a prefix of the descriptions fails, the whole list fails in the same
/// way.
proof fn lemma_palette_error(blocks: Seq<TagValue>, index: IndexValue, n: int)
    requires
        0 <= n <= blocks.len(),
        palette_of(blocks.take(n), index) is Err,
    ensures
        palette_of(blocks, index) == palette_of(blocks.take(n), index),
    decreases blocks.len() - n,
{
    if n < blocks.len() {
        assert(blocks.take(n + 1).drop_last() =~= blocks.take(n));
        lemma_palette_error(blocks, index, n + 1);
    } else {
        assert(blocks.take(n) =~= blocks);
    }
}

/// Whether the largest index is the last position of a palette of
/// `palette_len` entries.
fn is_tight(palette_len: usize, indices: &Vec<usize>) -> (r: bool)
    ensures
        r == tight(palette_len as int, Seq::new(indices@.len(), |i: int| indices@[i] as nat)),
{
    let ghost values = Seq::new(indices@.len(), |i: int| indices@[i] as nat);
    let mut found: bool = false;
    let mut i: usize = 0;
    while i < indices.len()
        invariant
            i <= indices@.len(),
            values == Seq::new(indices@.len(), |i: int| indices@[i] as nat),
            forall|k: int| 0 <= k < i ==> (#[trigger] values[k]) < palette_len,
            found <==> exists|k: int| 0 <= k < i && (#[trigger] values[k]) == palette_len - 1,
        decreases indices@.len() - i,
    {
        if indices[i] >= palette_len {
            assert(!(values[i as int] < palette_len));
            return false;
        }
        if indices[i] + 1 == palette_len {
            assert(values[i as int] == palette_len - 1);
            found = true;
        }
        i += 1;
    }
    found
}


/// The mathematical value of a chunk: its sections from the bottom up.
pub type ChunkValue = Seq<Option<SectionValue>>;

/// A chunk has 16 section slots, and every section it holds is well-formed
/// and not empty.
pub open spec fn chunk_well_formed(c: ChunkValue) -> bool {
    &&& c.len() == 16
    &&& forall|i: int|
        0 <= i < 16 && (#[trigger] c[i]) is Some ==> well_formed(c[i]->0) && c[i]->0.palette.len()
            > 0
}

/// The palette entry of block (x, y, z) of a chunk, if a section holds it.
pub open spec fn chunk_entry(c: ChunkValue, x: int, y: int, z: int) -> Option<PaletteValue> {
    match c[y / 16] {
        Some(s) => Some(section_entry(s, x, y % 16, z)),
        None => None,
    }
}

/// The block name of a palette entry; air where there is none.
pub open spec fn name_of(entry: Option<PaletteValue>) -> Seq<char> {
    match entry {
        Some(e) => e.name,
        None => empty_block(),
    }
}

/// The properties of a palette entry; empty where there is none.
pub open spec fn properties_of(entry: Option<PaletteValue>) -> Seq<char> {
    match entry {
        Some(e) => e.properties,
        None => Seq::empty(),
    }
}

/// The graphic properties of a palette entry; empty where there is none.
pub open spec fn graphic_properties_of(entry: Option<PaletteValue>) -> Seq<char> {
    match entry {
        Some(e) => e.graphic_properties,
        None => Seq::empty(),
    }
}

/// The chunk after one more section compound has been taken in.
///
/// A section is kept at its vertical position when that lies in 0..16 and the
/// section has a palette. A tag that is no compound, a section that cannot be
/// decoded, and a section outside that range are passed over; an error of the
/// configuration is not.
pub open spec fn with_section(c: ChunkValue, tag: TagValue, index: IndexValue) -> Result<
    ChunkValue,
    SectionFault,
> {
    if !(tag is Compound) {
        Ok(c)
    } else {
        match section_of(tag->Compound_0, index) {
            Ok((s, y)) => if 0 <= y < 16 && s.palette.len() > 0 {
                Ok(c.update(y as int, Some(s)))
            } else {
                Ok(c)
            },
            Err(fault) => if fault is UnknownBlock || fault is BadSlot {
                Err(fault)
            } else {
                Ok(c)
            },
        }
    }
}

/// The chunk that a list of section compounds describes.
pub open spec fn sections_of(tags: Seq<TagValue>, index: IndexValue) -> Result<
    ChunkValue,
    SectionFault,
>
    decreases tags.len(),
{
    if tags.len() == 0 {
        Ok(Seq::new(16, |i: int| None))
    } else {
        match sections_of(tags.drop_last(), index) {
            Err(e) => Err(e),
            Ok(c) => with_section(c, tags.last(), index),
        }
    }
}

/// The chunk that a chunk compound describes: its `Sections` member must be a
/// list.
pub open spec fn chunk_of(level: Members, index: IndexValue) -> Result<ChunkValue, SectionFault> {
    match member(level, "Sections"@) {
        Some(TagValue::List(tags)) => sections_of(tags, index),
        _ => Err(SectionFault::Malformed),
    }
}

/// Once a prefix of the section list fails, the whole list fails in the same
/// way.
proof fn lemma_sections_error(tags: Seq<TagValue>, index: IndexValue, n: int)
    requires
        0 <= n <= tags.len(),
        sections_of(tags.take(n), index) is Err,
    ensures
        sections_of(tags, index) == sections_of(tags.take(n), index),
    decreases tags.len() - n,
{
    if n < tags.len() {
        assert(tags.take(n + 1).drop_last() =~= tags.take(n));
        lemma_sections_error(tags, index, n + 1);
    } else {
        assert(tags.take(n) =~= tags);
    }
}

/// The values of a sequence of optional sections.
pub open spec fn section_values(sections: Seq<Option<ChunkSection>>) -> ChunkValue {
    Seq::new(
        sections.len(),
        |i: int|
            match sections[i] {
                Some(s) => Some(s@),
                None => None,
            },
    )
}

/// A column of 16 stacked sections, 16 by 16 blocks wide.
#[derive(Debug)]
pub struct Chunk {
    sections: Vec<Option<ChunkSection>>,
}

impl View for Chunk {
    type V = ChunkValue;

    closed spec fn view(&self) -> ChunkValue {
        section_values(self.sections@)
    }
}

impl Chunk {
    /// The chunk's invariant.
    pub open spec fn wf(&self) -> bool {
        chunk_well_formed(self@)
    }

    /// Decodes a chunk compound.
    #[verifier::loop_isolation(false)]
    pub fn new(chunk_nbt: &Compound, graphic_set: &GraphicPropertyIndex) -> (r: Result<
        Chunk,
        SectionError,
    >)
        ensures
            match chunk_of(chunk_nbt@, graphic_set@) {
                Ok(value) => r matches Ok(chunk) && chunk@ == value && chunk.wf(),
                Err(fault) => r matches Err(e) && e@ == fault,
            },
    {
        let sections_nbt = match chunk_nbt.get("Sections") {
            Some(tag) => match tag.as_list() {
                Some(list) => list,
                None => {
                    return Err(SectionError::Malformed);
                },
            },
            None => {
                return Err(SectionError::Malformed);
            },
        };
        let mut sections: Vec<Option<ChunkSection>> = Vec::new();
        let mut k: usize = 0;
        while k < CHUNK_SECTIONS
            invariant
                k <= 16,
                sections@.len() == k,
                forall|i: int| 0 <= i < k ==> (#[trigger] sections@[i]) is None,
            decreases 16 - k,
        {
            sections.push(None);
            k += 1;
        }
        proof {
            lemma_list_view(*sections_nbt);
            assert(tag_values(sections_nbt@).take(0) =~= Seq::empty());
            assert(section_values(sections@) =~= Seq::new(16, |i: int| None));
        }
        let mut i: usize = 0;
        while i < sections_nbt.len()
            invariant
                i <= sections_nbt@.len(),
                sections@.len() == 16,
                chunk_well_formed(section_values(sections@)),
                sections_of(tag_values(sections_nbt@).take(i as int), graphic_set@) == Ok::<
                    ChunkValue,
                    SectionFault,
                >(section_values(sections@)),
            decreases sections_nbt@.len() - i,
        {
            proof {
                let after = tag_values(sections_nbt@).take(i + 1);
                assert(after.drop_last() =~= tag_values(sections_nbt@).take(i as int));
                assert(after.last() == sections_nbt@[i as int]@);
            }
            match sections_nbt[i].as_compound() {
                None => {},
                Some(section_nbt) => {
                    match ChunkSection::new(section_nbt, graphic_set) {
                        Ok((section, y)) => {
                            // Some chunks carry a section at -1, which is
                            // completely empty.
                            if 0 <= y && y < 16 && !section.is_empty() {
                                assert(section_values(sections@.update(y as int, Some(section)))
                                    =~= section_values(sections@).update(
                                    y as int,
                                    Some(section@),
                                ));
                                sections[y as usize] = Some(section);
                            }
                        },
                        Err(e) => {
                            if e.is_fatal() {
                                proof {
                                    lemma_sections_error(
                                        tag_values(sections_nbt@),
                                        graphic_set@,
                                        i + 1,
                                    );
                                }
                                return Err(e);
                            }
                        },
                    }
                },
            }
            i += 1;
        }
        assert(tag_values(sections_nbt@).take(sections_nbt@.len() as int) =~= tag_values(
            sections_nbt@,
        ));
        Ok(Chunk { sections })
    }

    /// The section at vertical position `index`, if the chunk holds one.
    pub fn section(&self, index: usize) -> (r: Option<&ChunkSection>)
        requires
            self.wf(),
            index < 16,
        ensures
            match r {
                Some(s) => self@[index as int] == Some(s@) && s.wf() && s@.palette.len() > 0,
                None => self@[index as int] is None,
            },
    {
        assert(self@[index as int] == section_values(self.sections@)[index as int]);
        match &self.sections[index] {
            Some(section) => Some(section),
            None => None,
        }
    }

    /// The palette entry of block (x, y, z), if a section holds it.
    fn entry(&self, x: usize, y: usize, z: usize) -> (entry: Option<&PaletteEntry>)
        requires
            self.wf(),
            x < 16,
            y < 256,
            z < 16,
        ensures
            match entry {
                Some(e) => chunk_entry(self@, x as int, y as int, z as int) == Some(e@),
                None => chunk_entry(self@, x as int, y as int, z as int) is None,
            },
    {
        let index: usize = y / SECTION_SIZE;
        assert(self@[index as int] == section_values(self.sections@)[index as int]);
        if let Some(section) = &self.sections[index] {
            Some(section.entry(x, y % SECTION_SIZE, z))
        } else {
            None
        }
    }

    /// Name of block (x, y, z); air where no section is stored.
    pub fn get_block(&self, x: usize, y: usize, z: usize) -> (name: &str)
        requires
            self.wf(),
            x < 16,
            y < 256,
            z < 16,
        ensures
            name@ == name_of(chunk_entry(self@, x as int, y as int, z as int)),
    {
        match self.entry(x, y, z) {
            Some(entry) => entry.name.as_str(),
            None => "minecraft:air",
        }
    }

    /// All properties of block (x, y, z); empty where no section is stored.
    pub fn get_prop(&self, x: usize, y: usize, z: usize) -> (properties: &str)
        requires
            self.wf(),
            x < 16,
            y < 256,
            z < 16,
        ensures
            properties@ == properties_of(chunk_entry(self@, x as int, y as int, z as int)),
    {
        proof {
            reveal_strlit("");
            assert(""@ =~= Seq::<char>::empty());
        }
        match self.entry(x, y, z) {
            Some(entry) => entry.properties.as_str(),
            None => "",
        }
    }

    /// Graphic properties of block (x, y, z); empty where no section is
    /// stored.
    pub fn get_gprop(&self, x: usize, y: usize, z: usize) -> (properties: &str)
        requires
            self.wf(),
            x < 16,
            y < 256,
            z < 16,
        ensures
            properties@ == graphic_properties_of(
                chunk_entry(self@, x as int, y as int, z as int),
            ),
    {
        proof {
            reveal_strlit("");
            assert(""@ =~= Seq::<char>::empty());
        }
        match self.entry(x, y, z) {
            Some(entry) => entry.graphic_properties.as_str(),
            None => "",
        }
    }
}

/// The mathematical value of a region: its chunks row by row.
pub type RegionValue = Seq<Option<ChunkValue>>;

/// A region has 1024 chunk slots, and every chunk it holds is well-formed.
pub open spec fn region_well_formed(r: RegionValue) -> bool {
    &&& r.len() == 1024
    &&& forall|i: int| 0 <= i < 1024 && (#[trigger] r[i]) is Some ==> chunk_well_formed(r[i]->0)
}

/// Position of the chunk that holds column (x, z) of a region.
pub open spec fn chunk_index(x: int, z: int) -> int {
    (z / 16) * 32 + x / 16
}

/// The palette entry of block (x, y, z) of a region, if a section holds it.
pub open spec fn region_entry(r: RegionValue, x: int, y: int, z: int) -> Option<PaletteValue> {
    match r[chunk_index(x, z)] {
        Some(c) => chunk_entry(c, x % 16, y, z % 16),
        None => None,
    }
}

/// The values of a sequence of optional chunks.
pub open spec fn chunk_values(chunks: Seq<Option<Chunk>>) -> RegionValue {
    Seq::new(
        chunks.len(),
        |i: int|
            match chunks[i] {
                Some(c) => Some(c@),
                None => None,
            },
    )
}

/// The 32 by 32 chunks of one region file.
pub struct Region {
    // There are 32x32 chunks in each region
    chunks: Vec<Option<Chunk>>,
}

impl View for Region {
    type V = RegionValue;

    closed spec fn view(&self) -> RegionValue {
        chunk_values(self.chunks@)
    }
}

impl Region {
    /// The region's invariant.
    pub open spec fn wf(&self) -> bool {
        region_well_formed(self@)
    }

    /// A region of the given 1024 chunks, row by row.
    pub fn new(chunks: Vec<Option<Chunk>>) -> (region: Region)
        requires
            region_well_formed(chunk_values(chunks@)),
        ensures
            region@ == chunk_values(chunks@),
            region.wf(),
    {
        Region { chunks }
    }

    /// A region without chunks.
    pub fn new_empty() -> (region: Region)
        ensures
            region@ == Seq::new(1024, |i: int| None::<ChunkValue>),
            region.wf(),
    {
        let mut chunks: Vec<Option<Chunk>> = Vec::new();
        let mut k: usize = 0;
        while k < REGION_SIZE * REGION_SIZE
            invariant
                k <= 1024,
                chunks@.len() == k,
                forall|i: int| 0 <= i < k ==> (#[trigger] chunks@[i]) is None,
            decreases 1024 - k,
        {
            chunks.push(None);
            k += 1;
        }
        assert(chunk_values(chunks@) =~= Seq::new(1024, |i: int| None::<ChunkValue>));
        Region { chunks }
    }

    /// Position of the chunk that holds column (x, z).
    pub fn get_index(&self, x: usize, z: usize) -> (i: usize)
        requires
            x < 512,
            z < 512,
        ensures
            i == chunk_index(x as int, z as int),
            i < 1024,
    {
        (z / CHUNK_SIZE) * REGION_SIZE + (x / CHUNK_SIZE)
    }

    /// The chunk at position `index`, if the region holds one.
    pub fn chunk(&self, index: usize) -> (r: Option<&Chunk>)
        requires
            self.wf(),
            index < 1024,
        ensures
            match r {
                Some(c) => self@[index as int] == Some(c@) && c.wf(),
                None => self@[index as int] is None,
            },
    {
        assert(self@[index as int] == chunk_values(self.chunks@)[index as int]);
        match &self.chunks[index] {
            Some(chunk) => Some(chunk),
            None => None,
        }
    }

    /// The palette entry of block (x, y, z), if a section holds it.
    fn entry(&self, x: usize, y: usize, z: usize) -> (entry: Option<&PaletteEntry>)
        requires
            self.wf(),
            x < 512,
            y < 256,
            z < 512,
        ensures
            match entry {
                Some(e) => region_entry(self@, x as int, y as int, z as int) == Some(e@),
                None => region_entry(self@, x as int, y as int, z as int) is None,
            },
    {
        let index = self.get_index(x, z);
        assert(self@[index as int] == chunk_values(self.chunks@)[index as int]);
        if let Some(chunk) = &self.chunks[index] {
            chunk.entry(x % CHUNK_SIZE, y, z % CHUNK_SIZE)
        } else {
            None
        }
    }

    /// Name of block (x, y, z); air where no chunk or section is stored.
    pub fn get_block(&self, x: usize, y: usize, z: usize) -> (name: &str)
        requires
            self.wf(),
            x < 512,
            y < 256,
            z < 512,
        ensures
            name@ == name_of(region_entry(self@, x as int, y as int, z as int)),
    {
        match self.entry(x, y, z) {
            Some(entry) => entry.name.as_str(),
            None => "minecraft:air",
        }
    }

    /// All properties of block (x, y, z); empty where nothing is stored.
    pub fn get_prop(&self, x: usize, y: usize, z: usize) -> (properties: &str)
        requires
            self.wf(),
            x < 512,
            y < 256,
            z < 512,
        ensures
            properties@ == properties_of(region_entry(self@, x as int, y as int, z as int)),
    {
        proof {
            reveal_strlit("");
            assert(""@ =~= Seq::<char>::empty());
        }
        match self.entry(x, y, z) {
            Some(entry) => entry.properties.as_str(),
            None => "",
        }
    }

    /// Graphic properties of block (x, y, z); empty where nothing is stored.
    pub fn get_gprop(&self, x: usize, y: usize, z: usize) -> (properties: &str)
        requires
            self.wf(),
            x < 512,
            y < 256,
            z < 512,
        ensures
            properties@ == graphic_properties_of(
                region_entry(self@, x as int, y as int, z as int),
            ),
    {
        proof {
            reveal_strlit("");
            assert(""@ =~= Seq::<char>::empty());
        }
        match self.entry(x, y, z) {
            Some(entry) => entry.graphic_properties.as_str(),
            None => "",
        }
    }
}

} // verus!
