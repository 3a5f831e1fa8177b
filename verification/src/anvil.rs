//! The region file: sector index, chunk payloads and their decompression.

use crate::bytes::{be_u24, be_u32, read_be_u24, read_be_u32};
use crate::map::{chunk_of, chunk_values, chunk_well_formed, Chunk, ChunkValue, Region, RegionValue};
use crate::nbt::{available, document_at, field, member, Members, NBTParser, TagValue};
use crate::palette::{GraphicPropertyIndex, IndexValue, SectionError, SectionFault};
use flate2::read::{GzDecoder, ZlibDecoder};
use std::io::Read;
use vstd::prelude::*;
use vstd::slice::slice_subrange;

verus! {

/// Bytes per sector of a region file.
pub const SECTOR_SIZE: u64 = 4096;

/// Number of chunk slots in the index of a region file.
pub const SLOTS: usize = 1024;

/// Why a region file or one of its chunks could not be read.
#[derive(Debug, Clone, Copy, PartialEq, Eq, Structural)]
pub enum RegionError {
    /// The file ends before the index or the chunk payload does.
    Truncated,
    /// The payload names a compression other than gzip (1) and zlib (2).
    UnknownCompression(u8),
    /// The payload could not be decompressed.
    Corrupt,
}

/// What `flate2::read::GzDecoder` reads from a reader over `data`: the
/// decompressed bytes, or `None` where it reports an error.
pub uninterp spec fn gzip_inflated(data: Seq<u8>) -> Option<Seq<u8>>;

/// What `flate2::read::ZlibDecoder` reads from a reader over `data`: the
/// decompressed bytes, or `None` where it reports an error.
pub uninterp spec fn zlib_inflated(data: Seq<u8>) -> Option<Seq<u8>>;

/// The bytes of an optional vector.
pub open spec fn optional_bytes(v: Option<Vec<u8>>) -> Option<Seq<u8>> {
    match v {
        Some(bytes) => Some(bytes@),
        None => None,
    }
}

/// Reads a `flate2::read::GzDecoder` over `data` to its end. The contract
/// names the outcome; it says nothing of what the bytes are.
#[verifier::external_body]
fn inflate_gzip(data: &[u8]) -> (r: Option<Vec<u8>>)
    ensures
        optional_bytes(r) == gzip_inflated(data@),
{
    let mut out = Vec::new();
    match GzDecoder::new(data).read_to_end(&mut out) {
        Ok(_) => Some(out),
        Err(_) => None,
    }
}

/// Reads a `flate2::read::ZlibDecoder` over `data` to its end. The contract
/// names the outcome; it says nothing of what the bytes are.
#[verifier::external_body]
fn inflate_zlib(data: &[u8]) -> (r: Option<Vec<u8>>)
    ensures
        optional_bytes(r) == zlib_inflated(data@),
{
    let mut out = Vec::new();
    match ZlibDecoder::new(data).read_to_end(&mut out) {
        Ok(_) => Some(out),
        Err(_) => None,
    }
}

/// Slot `i` of the index: a 24-bit big-endian sector offset and a sector
/// count.
pub open spec fn header_slot(file: Seq<u8>, i: int) -> (u32, u8) {
    (be_u24(field(file, 4 * i, 3)) as u32, file[4 * i + 3])
}

/// The decompressed payload of a compressed chunk body of the given kind.
pub open spec fn inflated(kind: u8, body: Seq<u8>) -> Result<Seq<u8>, RegionError> {
    if kind == 1 {
        match gzip_inflated(body) {
            Some(bytes) => Ok(bytes),
            None => Err(RegionError::Corrupt),
        }
    } else if kind == 2 {
        match zlib_inflated(body) {
            Some(bytes) => Ok(bytes),
            None => Err(RegionError::Corrupt),
        }
    } else {
        Err(RegionError::UnknownCompression(kind))
    }
}

/// Length field of the chunk payload that starts at byte `start`: the number
/// of bytes that follow the field.
pub open spec fn payload_length(file: Seq<u8>, start: int) -> int {
    be_u32(field(file, start, 4))
}

/// The payload at sector `offset` lies within the file: its length field,
/// and the bytes that the length field announces, of which the compression
/// byte is the first.
pub open spec fn payload_fits(file: Seq<u8>, offset: int) -> bool {
    let start = offset * 4096;
    available(file, start, 5) && payload_length(file, start) >= 1 && available(
        file,
        start + 4,
        payload_length(file, start),
    )
}

/// The decompressed chunk at sector `offset`.
///
/// The payload is a big-endian `u32` length, one compression byte, and
/// `length - 1` compressed bytes.
pub open spec fn chunk_payload(file: Seq<u8>, offset: int) -> Result<Seq<u8>, RegionError> {
    let start = offset * 4096;
    if !payload_fits(file, offset) {
        Err(RegionError::Truncated)
    } else {
        inflated(file[start + 4], field(file, start + 5, payload_length(file, start) - 1))
    }
}

/// Decompresses a chunk body of the given compression kind.
pub fn inflate(kind: u8, body: &[u8]) -> (r: Result<Vec<u8>, RegionError>)
    ensures
        match inflated(kind, body@) {
            Ok(bytes) => r matches Ok(found) && found@ == bytes,
            Err(e) => r == Err::<Vec<u8>, RegionError>(e),
        },
{
    match kind {
        1 => match inflate_gzip(body) {
            Some(bytes) => Ok(bytes),
            None => Err(RegionError::Corrupt),
        },
        2 => match inflate_zlib(body) {
            Some(bytes) => Ok(bytes),
            None => Err(RegionError::Corrupt),
        },
        _ => Err(RegionError::UnknownCompression(kind)),
    }
}

/// A region file held in memory.
pub struct RegionFile {
    bytes: Vec<u8>,
}

impl View for RegionFile {
    type V = Seq<u8>;

    closed spec fn view(&self) -> Seq<u8> {
        self.bytes@
    }
}

impl RegionFile {
    /// A region file of the given contents.
    pub fn new(bytes: Vec<u8>) -> (file: RegionFile)
        ensures
            file@ == bytes@,
    {
        RegionFile { bytes }
    }

    /// The 1024 slots of the index, each a sector offset and a sector count,
    /// in the order in which the file lists them.
    pub fn read_header(&self) -> (r: Result<Vec<(u32, u8)>, RegionError>)
        ensures
            match r {
                Ok(slots) => self@.len() >= 4096 && slots@.len() == 1024 && forall|i: int|
                    0 <= i < 1024 ==> #[trigger] slots@[i] == header_slot(self@, i),
                Err(e) => self@.len() < 4096 && e == RegionError::Truncated,
            },
    {
        if self.bytes.len() < 4096 {
            return Err(RegionError::Truncated);
        }
        let mut chunks: Vec<(u32, u8)> = Vec::new();
        let mut i: usize = 0;
        while i < SLOTS
            invariant
                i <= 1024,
                self.bytes@.len() >= 4096,
                chunks@.len() == i,
                forall|k: int| 0 <= k < i ==> #[trigger] chunks@[k] == header_slot(self@, k),
            decreases 1024 - i,
        {
            // Format: [3byte offset, 1byte sector size]
            let offset = read_be_u24(slice_subrange(self.bytes.as_slice(), 4 * i, 4 * i + 3));
            let size: u8 = self.bytes[4 * i + 3];
            chunks.push((offset, size));
            i += 1;
        }
        Ok(chunks)
    }

    /// The decompressed chunk whose payload starts at sector `offset`.
    ///
    /// `size`, the sector count of the slot, is not needed to find the
    /// payload: its own length field says how many bytes belong to it.
    pub fn read_chunk(&self, offset: u32, size: u8) -> (r: Result<Vec<u8>, RegionError>)
        ensures
            match chunk_payload(self@, offset as int) {
                Ok(bytes) => r matches Ok(found) && found@ == bytes,
                Err(e) => r == Err::<Vec<u8>, RegionError>(e),
            },
    {
        let total: u64 = self.bytes.len() as u64;
        let start: u64 = (offset as u64) * SECTOR_SIZE;
        if start > total || total - start < 5 {
            return Err(RegionError::Truncated);
        }
        let start: usize = start as usize;
        let header = slice_subrange(self.bytes.as_slice(), start, start + 5);
        assert(header@.subrange(0, 4) =~= field(self@, start as int, 4));
        let length: u32 = read_be_u32(slice_subrange(header, 0, 4));
        let compression_type: u8 = header[4];
        if length == 0 || (length as u64) > total - (start as u64) - 4 {
            return Err(RegionError::Truncated);
        }
        let body = slice_subrange(
            self.bytes.as_slice(),
            start + 5,
            start + 4 + (length as usize),
        );
        inflate(compression_type, body)
    }
}

/// The compound that describes the chunk inside a chunk document: the
/// `Level` member of the document's unnamed root member.
pub open spec fn level_of(nbt: Seq<u8>) -> Option<Members> {
    match document_at(nbt, 0) {
        Ok((TagValue::Compound(root), _)) => match member(root, ""@) {
            Some(TagValue::Compound(inner)) => match member(inner, "Level"@) {
                Some(TagValue::Compound(level)) => Some(level),
                _ => None,
            },
            _ => None,
        },
        _ => None,
    }
}

/// The chunk that a decompressed chunk document holds.
///
/// A document that cannot be parsed or does not describe a chunk gives no
/// chunk; an error of the configuration is handed on.
pub open spec fn chunk_from_nbt(nbt: Seq<u8>, index: IndexValue) -> Result<
    Option<ChunkValue>,
    SectionFault,
> {
    match level_of(nbt) {
        None => Ok(None),
        Some(level) => match chunk_of(level, index) {
            Ok(chunk) => Ok(Some(chunk)),
            Err(fault) => if fault is UnknownBlock || fault is BadSlot {
                Err(fault)
            } else {
                Ok(None)
            },
        },
    }
}

/// The chunk of one slot of the index. A slot with a zero offset or a zero
/// sector count is empty, and a payload that cannot be read gives no chunk.
pub open spec fn chunk_of_slot(file: Seq<u8>, slot: (u32, u8), index: IndexValue) -> Result<
    Option<ChunkValue>,
    SectionFault,
> {
    if slot.0 == 0 || slot.1 == 0 {
        Ok(None)
    } else {
        match chunk_payload(file, slot.0 as int) {
            Err(_) => Ok(None),
            Ok(nbt) => chunk_from_nbt(nbt, index),
        }
    }
}

/// The chunks of the first `n` slots of a region file; the first error of
/// the configuration decides.
pub open spec fn chunks_of_file(file: Seq<u8>, index: IndexValue, n: int) -> Result<
    RegionValue,
    SectionFault,
>
    decreases n,
{
    if n <= 0 {
        Ok(Seq::empty())
    } else {
        match chunks_of_file(file, index, n - 1) {
            Err(fault) => Err(fault),
            Ok(chunks) => match chunk_of_slot(file, header_slot(file, n - 1), index) {
                Err(fault) => Err(fault),
                Ok(chunk) => Ok(chunks.push(chunk)),
            },
        }
    }
}

/// Why a region could not be loaded.
#[derive(Debug, Clone, PartialEq, Eq)]
pub enum LoadError {
    /// The file is too short to hold the index.
    Truncated,
    /// The world does not fit the configuration.
    Configuration(SectionError),
}

/// The region that a region file holds.
pub open spec fn region_of_file(file: Seq<u8>, index: IndexValue) -> Result<
    RegionValue,
    Option<SectionFault>,
> {
    if file.len() < 4096 {
        Err(None)
    } else {
        match chunks_of_file(file, index, 1024) {
            Ok(chunks) => Ok(chunks),
            Err(fault) => Err(Some(fault)),
        }
    }
}

/// Decodes the chunk of a decompressed chunk document.
pub fn decode_chunk(nbt: Vec<u8>, graphic_set: &GraphicPropertyIndex) -> (r: Result<
    Option<Chunk>,
    SectionError,
>)
    ensures
        match chunk_from_nbt(nbt@, graphic_set@) {
            Ok(Some(value)) => r matches Ok(Some(chunk)) && chunk@ == value && chunk.wf(),
            Ok(None) => r matches Ok(None),
            Err(fault) => r matches Err(e) && e@ == fault,
        },
{
    let mut parser = NBTParser::new(nbt);
    let tags = match parser.read_compound() {
        Ok(tags) => tags,
        Err(_) => {
            return Ok(None);
        },
    };
    let root = match tags.as_compound() {
        Some(root) => root,
        None => {
            return Ok(None);
        },
    };
    let inner = match root.get("") {
        Some(tag) => match tag.as_compound() {
            Some(inner) => inner,
            None => {
                return Ok(None);
            },
        },
        None => {
            return Ok(None);
        },
    };
    let level = match inner.get("Level") {
        Some(tag) => match tag.as_compound() {
            Some(level) => level,
            None => {
                return Ok(None);
            },
        },
        None => {
            return Ok(None);
        },
    };
    match Chunk::new(level, graphic_set) {
        Ok(chunk) => Ok(Some(chunk)),
        Err(e) => if e.is_fatal() {
            Err(e)
        } else {
            Ok(None)
        },
    }
}

impl Region {
    /// Decodes the region that the contents of a region file describe.
    ///
    /// A chunk whose payload cannot be read, decompressed or decoded is left
    /// out of the region.
    pub fn from_file(contents: Vec<u8>, graphic_set: &GraphicPropertyIndex) -> (r: Result<
        Region,
        LoadError,
    >)
        ensures
            match region_of_file(contents@, graphic_set@) {
                Ok(value) => r matches Ok(region) && region@ == value && region.wf(),
                Err(None) => r matches Err(LoadError::Truncated),
                Err(Some(fault)) => r matches Err(LoadError::Configuration(e)) && e@ == fault,
            },
    {
        let region_nbt = RegionFile::new(contents);
        let chunks_nbt = match region_nbt.read_header() {
            Ok(slots) => slots,
            Err(_) => {
                return Err(LoadError::Truncated);
            },
        };
        let mut chunks: Vec<Option<Chunk>> = Vec::new();
        let mut i: usize = 0;
        assert(chunk_values(chunks@) =~= Seq::empty());
        while i < chunks_nbt.len()
            invariant
                i <= 1024,
                region_nbt@ == contents@,
                contents@.len() >= 4096,
                chunks_nbt@.len() == 1024,
                forall|k: int|
                    0 <= k < 1024 ==> #[trigger] chunks_nbt@[k] == header_slot(contents@, k),
                chunks@.len() == i,
                forall|k: int|
                    0 <= k < i && (#[trigger] chunks@[k]) is Some ==> chunks@[k]->0.wf(),
                chunks_of_file(contents@, graphic_set@, i as int) == Ok::<
                    RegionValue,
                    SectionFault,
                >(chunk_values(chunks@)),
            decreases 1024 - i,
        {
            let (offset, size) = chunks_nbt[i];
            let chunk: Option<Chunk> = if offset != 0 && size != 0 {
                match region_nbt.read_chunk(offset, size) {
                    Ok(nbt) => match decode_chunk(nbt, graphic_set) {
                        Ok(chunk) => chunk,
                        Err(e) => {
                            proof {
                                lemma_chunks_error(contents@, graphic_set@, i + 1);
                            }
                            return Err(LoadError::Configuration(e));
                        },
                    },
                    Err(_) => None,
                }
            } else {
                None
            };
            assert(chunk_values(chunks@.push(chunk)) =~= chunk_values(chunks@).push(
                match chunk {
                    Some(c) => Some(c@),
                    None => None,
                },
            ));
            chunks.push(chunk);
            i += 1;
        }
        assert forall|k: int| 0 <= k < 1024 && (#[trigger] chunk_values(chunks@)[k]) is Some implies chunk_well_formed(
            chunk_values(chunks@)[k]->0,
        ) by {
            assert(chunks@[k] is Some);
        }
        Ok(Region::new(chunks))
    }
}

/// Once the first `n` slots fail, the whole file fails in the same way.
proof fn lemma_chunks_error(file: Seq<u8>, index: IndexValue, n: int)
    requires
        0 <= n <= 1024,
        chunks_of_file(file, index, n) is Err,
    ensures
        chunks_of_file(file, index, 1024) == chunks_of_file(file, index, n),
    decreases 1024 - n,
{
    if n < 1024 {
        lemma_chunks_error(file, index, n + 1);
    }
}

} // verus!
