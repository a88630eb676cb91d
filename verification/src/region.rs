//! Region files: the sector table and the chunk loader.
//!
//! A region buffer starts with a fixed 8 KiB header of 1024 four-byte sector
//! entries, one per `(x mod 32, z mod 32)` pair: a 3-byte big-endian offset
//! in 4096-byte sectors and a 1-byte sector count.  The entry `(0, 0)` is
//! the sentinel for an absent chunk — absence is a valid state, never an
//! error.  A present chunk's payload is a 4-byte big-endian length, one
//! compression-type byte, and `length - 1` bytes of compressed tag-tree
//! data.

use vstd::prelude::*;

use crate::block::Block;
use crate::chunk::Chunk;
use crate::error::AnvilError;
use crate::tag::{inflate, inflate_of, parse_compound, parsed_tag_of, tag_stream_check, tag_stream_ok, Tag};

verus! {

/// Byte offset of the sector-table entry for chunk `(cx, cz)`.
pub open spec fn spec_header_offset(cx: u32, cz: u32) -> int {
    4 * ((cx as int) % 32 + ((cz as int) % 32) * 32)
}

/// Whether the buffer is long enough to hold that entry.
pub open spec fn header_in_bounds(data: Seq<u8>, cx: u32, cz: u32) -> bool {
    spec_header_offset(cx, cz) + 4 <= data.len()
}

/// Sector offset of the entry: its first three bytes, big-endian.
pub open spec fn spec_sector_offset(data: Seq<u8>, cx: u32, cz: u32) -> int {
    let b = spec_header_offset(cx, cz);
    (data[b] as int) * 0x10000 + (data[b + 1] as int) * 0x100 + (data[b + 2] as int)
}

/// Sector count of the entry: its fourth byte.
pub open spec fn spec_sector_count(data: Seq<u8>, cx: u32, cz: u32) -> int {
    data[spec_header_offset(cx, cz) + 3] as int
}

/// The sentinel entry `(0, 0)`: no chunk is stored at this slot.
pub open spec fn entry_absent(data: Seq<u8>, cx: u32, cz: u32) -> bool {
    spec_sector_offset(data, cx, cz) == 0 && spec_sector_count(data, cx, cz) == 0
}

/// Big-endian 32-bit length prefix at byte `start`.
pub open spec fn spec_payload_len(data: Seq<u8>, start: int) -> int {
    (data[start] as int) * 0x1000000 + (data[start + 1] as int) * 0x10000 + (data[start
        + 2] as int) * 0x100 + (data[start + 3] as int)
}

/// Structural outcome of locating and slicing a chunk's compressed payload:
/// the payload bytes, `None` for an absent or raw-stored chunk, or the
/// structural error met first.
pub open spec fn spec_chunk_stage(data: Seq<u8>, cx: u32, cz: u32) -> Result<
    Option<Seq<u8>>,
    AnvilError,
> {
    if !header_in_bounds(data, cx, cz) {
        Err(AnvilError::OutOfBounds)
    } else if entry_absent(data, cx, cz) {
        Ok(None)
    } else {
        let start = spec_sector_offset(data, cx, cz) * 4096;
        if start + 5 > data.len() {
            Err(AnvilError::Truncated)
        } else {
            let len = spec_payload_len(data, start);
            let comp = data[start + 4];
            if comp == 1 {
                Ok(None)
            } else if comp != 2 {
                Err(AnvilError::UnsupportedCompression)
            } else if len < 1 || start + 5 + (len - 1) > data.len() {
                Err(AnvilError::Truncated)
            } else {
                Ok(Some(data.subrange(start + 5, start + 5 + (len - 1))))
            }
        }
    }
}

/// Whether inflated bytes begin with a well-formed document header: the
/// compound type id, then the 16-bit length of the root's name, then the
/// name itself, all inside the buffer.
pub open spec fn doc_framed(doc: Seq<u8>) -> bool {
    &&& doc.len() >= 3
    &&& doc[0] == 0x0a
    &&& 3 + name_len_of(doc) <= doc.len()
}

/// The 16-bit length of the root's name in an inflated document.
pub open spec fn name_len_of(doc: Seq<u8>) -> int {
    (doc[1] as int) * 0x100 + (doc[2] as int)
}

/// The compound payload of an inflated document: everything after the
/// document header.
pub open spec fn doc_body(doc: Seq<u8>) -> Seq<u8> {
    doc.subrange(3 + name_len_of(doc), doc.len() as int)
}

/// What the payload bytes decide: the decoded tag tree, or the error met
/// first.  A stream that does not inflate is `Decompression`; a malformed
/// document header, a tag stream the safety scan rejects, and a stream the
/// outside parser rejects are `MalformedTag`.
pub open spec fn spec_payload_tag(payload: Seq<u8>) -> Result<Tag, AnvilError> {
    match inflate_of(payload) {
        None => Err(AnvilError::Decompression),
        Some(doc) => if !doc_framed(doc) {
            Err(AnvilError::MalformedTag)
        } else if !tag_stream_ok(doc_body(doc)) {
            Err(AnvilError::MalformedTag)
        } else {
            match parsed_tag_of(doc_body(doc)) {
                Some(t) => Ok(t),
                None => Err(AnvilError::MalformedTag),
            }
        },
    }
}

/// An absent chunk — sector entry `(0, 0)` — always reads as `Ok(None)`:
/// absence is a valid state of sparse storage, never an error.
pub proof fn lemma_absent_entry_reads_none(data: Seq<u8>, cx: u32, cz: u32)
    requires
        header_in_bounds(data, cx, cz),
        entry_absent(data, cx, cz),
    ensures
        spec_chunk_stage(data, cx, cz) == Ok::<Option<Seq<u8>>, AnvilError>(None),
{
}

/// Low-level storage of a region file's contents.
pub struct Region {
    /// The whole region buffer.
    pub data: Vec<u8>,
    /// The name of the file that the region was derived from.
    pub filename: String,
}

impl View for Region {
    type V = Seq<u8>;

    open spec fn view(&self) -> Seq<u8> {
        self.data@
    }
}

impl Region {
    /// Returns a region over an in-memory buffer.
    pub fn new(data: Vec<u8>, filename: String) -> (r: Region)
        ensures
            r@ == data@,
            r.filename == filename,
    {
        Region { data, filename }
    }

    /// Returns the byte offset of the sector-table entry for a chunk.
    pub fn header_offset(&self, chunk_x: u32, chunk_z: u32) -> (r: u32)
        ensures
            r == spec_header_offset(chunk_x, chunk_z),
    {
        4 * (chunk_x % 32 + chunk_z % 32 * 32)
    }

    /// Returns the sector offset and sector count stored for a chunk, or
    /// `OutOfBounds` when the buffer ends before the entry.
    pub fn chunk_location(&self, chunk_x: u32, chunk_z: u32) -> (r: Result<(u32, u32), AnvilError>)
        ensures
            header_in_bounds(self@, chunk_x, chunk_z) ==> r == Ok::<(u32, u32), AnvilError>(
                (
                    spec_sector_offset(self@, chunk_x, chunk_z) as u32,
                    spec_sector_count(self@, chunk_x, chunk_z) as u32,
                ),
            ),
            !header_in_bounds(self@, chunk_x, chunk_z) ==> r == Err::<(u32, u32), AnvilError>(
                AnvilError::OutOfBounds,
            ),
    {
        let b: usize = self.header_offset(chunk_x, chunk_z) as usize;
        if b + 4 > self.data.len() {
            return Err(AnvilError::OutOfBounds);
        }
        let temp: [u8; 3] = [self.data[b], self.data[b + 1], self.data[b + 2]];
        let off: u32 = from_be_3_bytes(temp);
        let sectors: u8 = self.data[b + 3];
        Ok((off, sectors as u32))
    }

    /// Returns the decoded tag tree of the chunk stored at `(chunk_x,
    /// chunk_z)`, `None` when the sector entry is the absent sentinel or the
    /// chunk is stored raw, or the structural error met first.
    ///
    /// The payload bytes pass through the outside inflater and — after the
    /// verified safety scan — the outside tag parser; both steps are
    /// functions of the bytes, so the returned tree is pinned exactly.
    pub fn chunk_data(&self, chunk_x: u32, chunk_z: u32) -> (r: Result<Option<Tag>, AnvilError>)
        ensures
            match spec_chunk_stage(self@, chunk_x, chunk_z) {
                Err(e) => r == Err::<Option<Tag>, AnvilError>(e),
                Ok(None) => r == Ok::<Option<Tag>, AnvilError>(None),
                Ok(Some(payload)) => match spec_payload_tag(payload) {
                    Ok(t) => r == Ok::<Option<Tag>, AnvilError>(Some(t)),
                    Err(e) => r == Err::<Option<Tag>, AnvilError>(e),
                },
            },
    {
        let (off, count) = match self.chunk_location(chunk_x, chunk_z) {
            Ok(p) => p,
            Err(e) => {
                return Err(e);
            },
        };
        if off == 0 && count == 0 {
            return Ok(None);
        }
        let start64: u64 = (off as u64) * 4096;
        if start64 + 5 > self.data.len() as u64 {
            return Err(AnvilError::Truncated);
        }
        let start: usize = start64 as usize;
        let length: u32 = (self.data[start] as u32) * 0x1000000 + (self.data[start + 1] as u32)
            * 0x10000 + (self.data[start + 2] as u32) * 0x100 + (self.data[start + 3] as u32);
        let comp: u8 = self.data[start + 4];
        if comp == 1 {
            return Ok(None);
        }
        if comp != 2 {
            return Err(AnvilError::UnsupportedCompression);
        }
        if length < 1 {
            return Err(AnvilError::Truncated);
        }
        let payload_len: usize = (length - 1) as usize;
        if (start as u64) + 5 + (payload_len as u64) > self.data.len() as u64 {
            return Err(AnvilError::Truncated);
        }
        let dlen: usize = self.data.len();
        let mut payload: Vec<u8> = Vec::new();
        let mut k: usize = 0;
        while k < payload_len
            invariant
                k <= payload_len,
                dlen == self.data@.len(),
                start + 5 + payload_len <= dlen,
                payload@ == self.data@.subrange(start as int + 5, start as int + 5 + k as int),
            decreases payload_len - k,
        {
            payload.push(self.data[start + 5 + k]);
            proof {
                assert(payload@ =~= self.data@.subrange(
                    start as int + 5,
                    start as int + 5 + k as int + 1,
                ));
            }
            k = k + 1;
        }
        let inflated: Vec<u8> = match inflate(&payload) {
            Some(v) => v,
            None => {
                return Err(AnvilError::Decompression);
            },
        };
        // the document header: the compound type id, then the 16-bit length
        // of the root's name, then the name itself
        if inflated.len() < 3 {
            return Err(AnvilError::MalformedTag);
        }
        if inflated[0] != 0x0a {
            return Err(AnvilError::MalformedTag);
        }
        let name_len: usize = (inflated[1] as usize) * 0x100 + (inflated[2] as usize);
        if name_len > inflated.len() - 3 {
            return Err(AnvilError::MalformedTag);
        }
        let mut rest: Vec<u8> = Vec::new();
        let mut m: usize = 3 + name_len;
        while m < inflated.len()
            invariant
                3 + name_len <= m <= inflated@.len(),
                name_len == name_len_of(inflated@),
                rest@ == inflated@.subrange(3 + name_len as int, m as int),
            decreases inflated@.len() - m,
        {
            rest.push(inflated[m]);
            proof {
                assert(rest@ =~= inflated@.subrange(3 + name_len as int, m as int + 1));
            }
            m = m + 1;
        }
        proof {
            assert(rest@ =~= doc_body(inflated@));
        }
        if !tag_stream_check(&rest) {
            return Err(AnvilError::MalformedTag);
        }
        match parse_compound(&rest) {
            Some(t) => Ok(Some(t)),
            None => Err(AnvilError::MalformedTag),
        }
    }

    /// Returns the chunk stored at `(chunk_x, chunk_z)`; a region holds a
    /// 32 x 32 grid of chunks, and an absent chunk is `None`, not an error.
    pub fn get_chunk(&self, chunk_x: u32, chunk_z: u32) -> (r: Result<Option<Chunk>, AnvilError>)
        ensures
            match spec_chunk_stage(self@, chunk_x, chunk_z) {
                Err(e) => r == Err::<Option<Chunk>, AnvilError>(e),
                Ok(None) => r == Ok::<Option<Chunk>, AnvilError>(None),
                Ok(Some(payload)) => match spec_payload_tag(payload) {
                    Ok(t) => r == Ok::<Option<Chunk>, AnvilError>(
                        Some(Chunk { data: t, x: (chunk_x % 32) as u32, z: (chunk_z % 32) as u32 }),
                    ),
                    Err(e) => r == Err::<Option<Chunk>, AnvilError>(e),
                },
            },
    {
        Chunk::from_region(self, chunk_x, chunk_z)
    }

    /// Returns the block at region-relative coordinates, translating them to
    /// a chunk by division and remainder by 32; an absent chunk is `None`,
    /// and a present chunk answers with its own block query.
    pub fn get_block(&self, x: i32, y: i32, z: i32) -> (r: Result<Option<Block>, AnvilError>)
        ensures
            (x < 0 || z < 0 || x >= 1024 || z >= 1024) ==> r == Err::<Option<Block>, AnvilError>(
                AnvilError::OutOfRange,
            ),
            (0 <= x < 1024 && 0 <= z < 1024) ==> match spec_chunk_stage(
                self@,
                (x / 32) as u32,
                (z / 32) as u32,
            ) {
                Err(e) => r == Err::<Option<Block>, AnvilError>(e),
                Ok(None) => r == Ok::<Option<Block>, AnvilError>(None),
                Ok(Some(payload)) => match spec_payload_tag(payload) {
                    Err(e) => r == Err::<Option<Block>, AnvilError>(e),
                    Ok(t) => match crate::chunk::spec_get_block(
                        t,
                        (x / 32) as u32,
                        (z / 32) as u32,
                        x % 32,
                        y,
                        z % 32,
                    ) {
                        Ok(bm) => r matches Ok(Some(b)) && b@ == bm,
                        Err(e) => r == Err::<Option<Block>, AnvilError>(e),
                    },
                },
            },
    {
        if x < 0 || z < 0 || x >= 1024 || z >= 1024 {
            return Err(AnvilError::OutOfRange);
        }
        match self.get_chunk((x / 32) as u32, (z / 32) as u32) {
            Err(e) => Err(e),
            Ok(None) => Ok(None),
            Ok(Some(c)) => match c.get_block(x % 32, y, z % 32) {
                Ok(b) => Ok(Some(b)),
                Err(e) => Err(e),
            },
        }
    }
}

/// Returns the unsigned value of three big-endian bytes.
pub fn from_be_3_bytes(bytes: [u8; 3]) -> (r: u32)
    ensures
        r == (bytes[0] as int) * 0x10000 + (bytes[1] as int) * 0x100 + (bytes[2] as int),
{
    (bytes[0] as u32) * 0x10000 + (bytes[1] as u32) * 0x100 + (bytes[2] as u32)
}

} // verus!
