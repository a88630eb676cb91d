//! Chunks: vertical columns of the world, decoded on demand.
//!
//! A chunk owns its decoded tag tree and its region-relative coordinates.
//! Every query walks the tree anew with checked matches: a tag of the wrong
//! type, a missing required entry, a duplicate section or an index past a
//! palette surfaces as a typed error, never as a panic.  Legitimately
//! absent data resolves to documented defaults: an air block, the default
//! biome, or an unavailable heightmap.

use vstd::prelude::*;
use vstd::string::*;

use crate::block::{props_view, split_name, spec_palette_name, Block, BlockModel};
use crate::error::AnvilError;
use crate::packing::{
    aligned_field, aligned_in_range, bit_len, bit_length, block_state_width, hm_kept,
    lemma_bit_len_le, packed_field, spec_block_state_width, stream_field, stream_in_range,
    unpack_heightmap,
};
use crate::region::{spec_chunk_stage, spec_payload_tag, Region};
use crate::tag::{compound_get, compound_lookup, Tag};

verus! {

/// A decoded chunk: its tag tree and its region-relative coordinates.
pub struct Chunk {
    /// The chunk's whole decoded tag tree.
    pub data: Tag,
    /// The chunk's x coordinate within its region.
    pub x: u32,
    /// The chunk's z coordinate within its region.
    pub z: u32,
}

/// Entry `key` of the root compound.
pub open spec fn spec_root_entry(root: Tag, key: Seq<char>) -> Result<Tag, AnvilError> {
    match root {
        Tag::Compound(ps) => match compound_lookup(ps@, key) {
            Some(t) => Ok(t),
            None => Err(AnvilError::MissingTag),
        },
        _ => Err(AnvilError::WrongTag),
    }
}

/// The chunk's generation status: its `Status` string entry.
pub open spec fn spec_status(root: Tag) -> Result<Seq<char>, AnvilError> {
    match spec_root_entry(root, "Status"@) {
        Ok(Tag::String(s)) => Ok(s@),
        Ok(_) => Err(AnvilError::WrongTag),
        Err(e) => Err(e),
    }
}

/// The chunk's last update tick: its `LastUpdate` long entry.
pub open spec fn spec_last_update(root: Tag) -> Result<i64, AnvilError> {
    match spec_root_entry(root, "LastUpdate"@) {
        Ok(Tag::Long(l)) => Ok(l),
        Ok(_) => Err(AnvilError::WrongTag),
        Err(e) => Err(e),
    }
}

/// Altitude index of a section: its `Y` byte entry.
pub open spec fn spec_section_y(t: Tag) -> Result<i8, AnvilError> {
    match t {
        Tag::Compound(ps) => match compound_lookup(ps@, "Y"@) {
            Some(Tag::Byte(b)) => Ok(b),
            Some(_) => Err(AnvilError::WrongTag),
            None => Err(AnvilError::MissingTag),
        },
        _ => Err(AnvilError::WrongTag),
    }
}

/// Every element of the section list carries a readable altitude index.
pub open spec fn sections_wf(l: Seq<Tag>) -> bool {
    forall|k: int| 0 <= k < l.len() ==> (#[trigger] spec_section_y(l[k])) is Ok
}

/// Error of the first malformed element at or after `i`.
pub open spec fn first_bad_section(l: Seq<Tag>, i: int) -> AnvilError
    decreases l.len() - i,
{
    if i < 0 || i >= l.len() {
        AnvilError::WrongTag
    } else if spec_section_y(l[i]) is Err {
        spec_section_y(l[i])->Err_0
    } else {
        first_bad_section(l, i + 1)
    }
}

/// How many elements at or after `i` carry altitude index `y`.
pub open spec fn count_y(l: Seq<Tag>, y: i8, i: int) -> nat
    decreases l.len() - i,
{
    if i < 0 || i >= l.len() {
        0
    } else {
        (if spec_section_y(l[i]) == Ok::<i8, AnvilError>(y) {
            1nat
        } else {
            0nat
        }) + count_y(l, y, i + 1)
    }
}

/// The first element at or after `i` carrying altitude index `y`.
pub open spec fn find_y(l: Seq<Tag>, y: i8, i: int) -> Tag
    recommends
        count_y(l, y, i) >= 1,
    decreases l.len() - i,
{
    if i < 0 || i >= l.len() {
        Tag::Other
    } else if spec_section_y(l[i]) == Ok::<i8, AnvilError>(y) {
        l[i]
    } else {
        find_y(l, y, i + 1)
    }
}

/// The chunk's section list: its `sections` list entry.
pub open spec fn spec_sections(root: Tag) -> Result<Seq<Tag>, AnvilError> {
    match spec_root_entry(root, "sections"@) {
        Ok(Tag::List(l)) => Ok(l@),
        Ok(_) => Err(AnvilError::WrongTag),
        Err(e) => Err(e),
    }
}

/// Outcome of looking a section up by altitude index: the unique matching
/// section, `None` when no section matches, or an error for an index
/// outside `[-4, 19]`, a malformed list, or a duplicated index.
pub open spec fn spec_get_section(root: Tag, y: i8) -> Result<Option<Tag>, AnvilError> {
    if y < -4 || y > 19 {
        Err(AnvilError::OutOfRange)
    } else {
        match spec_sections(root) {
            Ok(l) => if !sections_wf(l) {
                Err(first_bad_section(l, 0))
            } else if count_y(l, y, 0) == 0 {
                Ok(None)
            } else if count_y(l, y, 0) == 1 {
                Ok(Some(find_y(l, y, 0)))
            } else {
                Err(AnvilError::DuplicateSection)
            },
            Err(e) => Err(e),
        }
    }
}

/// In a section whose biome `data` array is absent, the palette's sole
/// string entry names the biome of every one of the section's cells.
pub proof fn lemma_uniform_biome(sec: Tag, sp: Seq<(String, Tag)>, bp: Seq<(String, Tag)>, name: Seq<char>, c: nat)
    requires
        ({
            &&& sec matches Tag::Compound(spv)
            &&& spv@ == sp
        }),
        ({
            &&& compound_lookup(sp, "biomes"@) matches Some(b)
            &&& b matches Tag::Compound(bpv)
            &&& bpv@ == bp
        }),
        ({
            &&& compound_lookup(bp, "palette"@) matches Some(p)
            &&& p matches Tag::List(palv)
            &&& palv@.len() >= 1
            &&& palv@[0] matches Tag::String(s)
            &&& s@ == name
        }),
        compound_lookup(bp, "data"@) is None,
    ensures
        spec_biome(sec, c) == Ok::<Seq<char>, AnvilError>(name),
{
}

/// A query at an altitude whose section is absent yields the air identity,
/// with the world coordinates set and no properties.
pub proof fn lemma_absent_section_is_air(root: Tag, cx: u32, cz: u32, x: i32, y: i32, z: i32)
    requires
        cx < 32,
        cz < 32,
        0 <= x <= 15,
        0 <= z <= 15,
        -64 <= y <= 319,
        spec_get_section(root, ((y + 64) / 16 - 4) as i8) == Ok::<Option<Tag>, AnvilError>(None),
    ensures
        spec_get_block(root, cx, cz, x, y, z) == Ok::<BlockModel, AnvilError>(
            air_model(Some(((cx as int) * 32 + x, y as int, (cz as int) * 32 + z)), None),
        ),
{
}

/// The block-state path extracts every voxel's palette index at the width
/// the palette's length dictates: the bit length of the largest index,
/// never below the format's 4-bit minimum.
pub proof fn lemma_block_state_width_rule(
    sec: Tag,
    bs: Seq<(String, Tag)>,
    pal: Seq<Tag>,
    da: Seq<i64>,
    v: nat,
    coords: Option<(int, int, int)>,
    bname: Seq<char>,
)
    requires
        ({
            &&& sec matches Tag::Compound(sp)
            &&& compound_lookup(sp@, "block_states"@) matches Some(b)
            &&& b matches Tag::Compound(bsv)
            &&& bsv@ == bs
        }),
        ({
            &&& compound_lookup(bs, "palette"@) matches Some(p)
            &&& p matches Tag::List(palv)
            &&& palv@ == pal
            &&& pal.len() >= 1
        }),
        ({
            &&& compound_lookup(bs, "data"@) matches Some(d)
            &&& d matches Tag::LongArray(dav)
            &&& dav@ == da
        }),
        aligned_in_range(da.len(), spec_block_state_width(pal.len() as nat), v),
        aligned_field(da, spec_block_state_width(pal.len() as nat), v) < pal.len(),
    ensures
        spec_block_state_width(pal.len() as nat) == (if bit_len((pal.len() - 1) as nat) < 4 {
            4nat
        } else {
            bit_len((pal.len() - 1) as nat)
        }),
        spec_block_in_section(sec, v, coords, bname) == spec_block_from_entry(
            pal[aligned_field(da, spec_block_state_width(pal.len() as nat), v) as int],
            coords,
            bname,
        ),
{
}

/// Decoding inverts packing at the query: in a section whose data array
/// decodes to per-voxel indices — as the array `pack_fields` builds does,
/// by its contract — every voxel resolves to the palette entry its index
/// names.
pub proof fn lemma_packed_section_round_trip(
    sec: Tag,
    bs: Seq<(String, Tag)>,
    pal: Seq<Tag>,
    da: Seq<i64>,
    idx: Seq<u64>,
    v: nat,
    coords: Option<(int, int, int)>,
    bname: Seq<char>,
)
    requires
        ({
            &&& sec matches Tag::Compound(sp)
            &&& compound_lookup(sp@, "block_states"@) matches Some(b)
            &&& b matches Tag::Compound(bsv)
            &&& bsv@ == bs
        }),
        ({
            &&& compound_lookup(bs, "palette"@) matches Some(p)
            &&& p matches Tag::List(palv)
            &&& palv@ == pal
            &&& pal.len() >= 1
        }),
        ({
            &&& compound_lookup(bs, "data"@) matches Some(d)
            &&& d matches Tag::LongArray(dav)
            &&& dav@ == da
        }),
        idx.len() == 4096,
        v < 4096,
        forall|i: int| 0 <= i < 4096 ==> (#[trigger] idx[i]) < pal.len(),
        forall|i: nat|
            i < 4096 ==> #[trigger] aligned_field(
                da,
                spec_block_state_width(pal.len() as nat),
                i,
            ) == idx[i as int],
        aligned_in_range(da.len(), spec_block_state_width(pal.len() as nat), v),
    ensures
        spec_block_in_section(sec, v, coords, bname) == spec_block_from_entry(
            pal[idx[v as int] as int],
            coords,
            bname,
        ),
{
}

/// A palette entry by index: its string content, or `OutOfRange` past the
/// palette's end, or `WrongTag` for a non-string entry.
pub open spec fn spec_biome_entry(pal: Seq<Tag>, i: int) -> Result<Seq<char>, AnvilError> {
    if 0 <= i < pal.len() {
        match pal[i] {
            Tag::String(s) => Ok(s@),
            _ => Err(AnvilError::WrongTag),
        }
    } else {
        Err(AnvilError::OutOfRange)
    }
}

/// Biome name of cell `c` of a section: the palette entry selected by the
/// packed bitstream, or entry 0 when the `data` array is absent (a uniform
/// section) or the palette needs zero bits.
pub open spec fn spec_biome(sec: Tag, c: nat) -> Result<Seq<char>, AnvilError> {
    match sec {
        Tag::Compound(sp) => match compound_lookup(sp@, "biomes"@) {
            Some(Tag::Compound(bp)) => match compound_lookup(bp@, "palette"@) {
                Some(Tag::List(pal)) => match compound_lookup(bp@, "data"@) {
                    None => spec_biome_entry(pal@, 0),
                    Some(Tag::LongArray(da)) => {
                        if pal@.len() == 0 {
                            Err(AnvilError::OutOfRange)
                        } else {
                            let w = bit_len((pal@.len() - 1) as nat);
                            if w == 0 {
                                spec_biome_entry(pal@, 0)
                            } else if !stream_in_range(da@.len(), w, c) {
                                Err(AnvilError::Truncated)
                            } else if stream_field(da@, w, c) < pal@.len() {
                                spec_biome_entry(pal@, stream_field(da@, w, c) as int)
                            } else {
                                Err(AnvilError::OutOfRange)
                            }
                        }
                    },
                    Some(_) => Err(AnvilError::WrongTag),
                },
                Some(_) => Err(AnvilError::WrongTag),
                None => Err(AnvilError::MissingTag),
            },
            Some(_) => Err(AnvilError::WrongTag),
            None => Err(AnvilError::MissingTag),
        },
        _ => Err(AnvilError::WrongTag),
    }
}

/// Every value of a property compound is a string.
pub open spec fn props_all_strings(pp: Seq<(String, Tag)>) -> bool {
    forall|k: int| 0 <= k < pp.len() ==> (#[trigger] pp[k].1) is String
}

/// The property pairs of a property compound, in stored order.
pub open spec fn spec_prop_list(pp: Seq<(String, Tag)>) -> Seq<(Seq<char>, Seq<char>)> {
    pp.map_values(
        |p: (String, Tag)|
            (
                p.0@,
                match p.1 {
                    Tag::String(s) => s@,
                    _ => Seq::<char>::empty(),
                },
            ),
    )
}

/// The properties of a palette entry: `None` when the entry carries no
/// `Properties` compound, its pairs otherwise.
pub open spec fn spec_props(e: Tag) -> Result<Option<Seq<(Seq<char>, Seq<char>)>>, AnvilError> {
    match e {
        Tag::Compound(ps) => match compound_lookup(ps@, "Properties"@) {
            None => Ok(None),
            Some(Tag::Compound(pp)) => if props_all_strings(pp@) {
                Ok(Some(spec_prop_list(pp@)))
            } else {
                Err(AnvilError::WrongTag)
            },
            Some(_) => Err(AnvilError::WrongTag),
        },
        _ => Err(AnvilError::WrongTag),
    }
}

/// The sentinel air identity.
pub open spec fn air_model(coords: Option<(int, int, int)>, biome: Option<Seq<char>>) -> BlockModel {
    BlockModel {
        namespace: "minecraft"@,
        id: "air"@,
        coords,
        properties: None,
        biome,
    }
}

/// Identity resolved from one palette entry: its properties, then its name
/// split on the first colon.
pub open spec fn spec_block_from_entry(
    e: Tag,
    coords: Option<(int, int, int)>,
    bname: Seq<char>,
) -> Result<BlockModel, AnvilError> {
    match spec_props(e) {
        Err(err) => Err(err),
        Ok(props) => match spec_palette_name(e) {
            Err(err) => Err(err),
            Ok(nm) => match split_name(nm) {
                None => Err(AnvilError::MalformedName),
                Some(parts) => Ok(
                    BlockModel {
                        namespace: parts.0,
                        id: parts.1,
                        coords,
                        properties: props,
                        biome: Some(bname),
                    },
                ),
            },
        },
    }
}

/// Identity of voxel `v` within a section: air when the section carries no
/// `block_states` group, the sole uniform entry when the `data` array is
/// absent, or the palette entry selected by the word-aligned packed field.
pub open spec fn spec_block_in_section(
    sec: Tag,
    v: nat,
    coords: Option<(int, int, int)>,
    bname: Seq<char>,
) -> Result<BlockModel, AnvilError> {
    match sec {
        Tag::Compound(sp) => match compound_lookup(sp@, "block_states"@) {
            None => Ok(air_model(coords, Some(bname))),
            Some(Tag::Compound(bs)) => match compound_lookup(bs@, "palette"@) {
                Some(Tag::List(pal)) => if pal@.len() == 0 {
                    Err(AnvilError::OutOfRange)
                } else {
                    match compound_lookup(bs@, "data"@) {
                        None => spec_block_from_entry(pal@[0], coords, bname),
                        Some(Tag::LongArray(da)) => {
                            let w = spec_block_state_width(pal@.len() as nat);
                            if !aligned_in_range(da@.len(), w, v) {
                                Err(AnvilError::Truncated)
                            } else if aligned_field(da@, w, v) < pal@.len() {
                                spec_block_from_entry(
                                    pal@[aligned_field(da@, w, v) as int],
                                    coords,
                                    bname,
                                )
                            } else {
                                Err(AnvilError::OutOfRange)
                            }
                        },
                        Some(_) => Err(AnvilError::WrongTag),
                    }
                },
                Some(_) => Err(AnvilError::WrongTag),
                None => Err(AnvilError::MissingTag),
            },
            Some(_) => Err(AnvilError::WrongTag),
        },
        _ => Err(AnvilError::WrongTag),
    }
}

/// Identity of the block at local `(x, y, z)` of a chunk: the whole decode,
/// from section lookup through biome and palette resolution.
pub open spec fn spec_get_block(root: Tag, cx: u32, cz: u32, x: i32, y: i32, z: i32) -> Result<
    BlockModel,
    AnvilError,
> {
    if cx >= 32 || cz >= 32 || x < 0 || x > 15 || z < 0 || z > 15 || y < -64 || y > 319 {
        Err(AnvilError::OutOfRange)
    } else {
        let sy = ((y + 64) / 16 - 4) as i8;
        let coords = Some(((cx as int) * 32 + x, y as int, (cz as int) * 32 + z));
        match spec_get_section(root, sy) {
            Err(e) => Err(e),
            Ok(None) => Ok(air_model(coords, None)),
            Ok(Some(sec)) => {
                let ly = (y + 64) % 16;
                let cell = ((ly / 4) * 16 + (z / 4) * 4 + x / 4) as nat;
                match spec_biome(sec, cell) {
                    Err(e) => Err(e),
                    Ok(bn) => spec_block_in_section(sec, (ly * 256 + z * 16 + x) as nat, coords, bn),
                }
            },
        }
    }
}

/// Biome name at world altitude `y` of a chunk, sampled at the section's
/// first cell column: the default biome when the section is absent.
pub open spec fn spec_get_biome(root: Tag, y: i32) -> Result<Seq<char>, AnvilError> {
    if y < -64 || y > 319 {
        Err(AnvilError::OutOfRange)
    } else {
        let sy = ((y + 64) / 16 - 4) as i8;
        match spec_get_section(root, sy) {
            Err(e) => Err(e),
            Ok(None) => Ok("minecraft:plains"@),
            Ok(Some(sec)) => spec_biome(sec, ((((y + 64) % 16) / 4) * 16) as nat),
        }
    }
}

/// The long-array of the requested surface map.
pub open spec fn spec_heightmap_words(root: Tag, ignore_water: bool) -> Result<Seq<i64>, AnvilError> {
    match spec_root_entry(root, "Heightmaps"@) {
        Ok(Tag::Compound(hm)) => match compound_lookup(
            hm@,
            if ignore_water {
                "OCEAN_FLOOR"@
            } else {
                "WORLD_SURFACE"@
            },
        ) {
            Some(Tag::LongArray(la)) => Ok(la@),
            Some(_) => Err(AnvilError::WrongTag),
            None => Err(AnvilError::MissingTag),
        },
        Ok(_) => Err(AnvilError::WrongTag),
        Err(e) => Err(e),
    }
}

/// Returns the palette entry at `i` as a string.
fn biome_entry(pal: &Vec<Tag>, i: usize) -> (r: Result<String, AnvilError>)
    ensures
        match r {
            Ok(s) => spec_biome_entry(pal@, i as int) == Ok::<Seq<char>, AnvilError>(s@),
            Err(e) => spec_biome_entry(pal@, i as int) == Err::<Seq<char>, AnvilError>(e),
        },
{
    if i < pal.len() {
        match &pal[i] {
            Tag::String(s) => Ok(s.clone()),
            _ => Err(AnvilError::WrongTag),
        }
    } else {
        Err(AnvilError::OutOfRange)
    }
}

/// Resolves the biome name of cell `c` of a section.
fn biome_of_section(sec: &Tag, c: usize) -> (r: Result<String, AnvilError>)
    requires
        c < 64,
    ensures
        match r {
            Ok(s) => spec_biome(*sec, c as nat) == Ok::<Seq<char>, AnvilError>(s@),
            Err(e) => spec_biome(*sec, c as nat) == Err::<Seq<char>, AnvilError>(e),
        },
{
    let bkey: String = String::from_str("biomes");
    let pkey: String = String::from_str("palette");
    let dkey: String = String::from_str("data");
    let bp: &Vec<(String, Tag)> = match sec {
        Tag::Compound(sp) => match compound_get(sp, &bkey) {
            Some(t) => match t {
                Tag::Compound(b) => b,
                _ => {
                    return Err(AnvilError::WrongTag);
                },
            },
            None => {
                return Err(AnvilError::MissingTag);
            },
        },
        _ => {
            return Err(AnvilError::WrongTag);
        },
    };
    let pal: &Vec<Tag> = match compound_get(bp, &pkey) {
        Some(t) => match t {
            Tag::List(l) => l,
            _ => {
                return Err(AnvilError::WrongTag);
            },
        },
        None => {
            return Err(AnvilError::MissingTag);
        },
    };
    match compound_get(bp, &dkey) {
        None => biome_entry(pal, 0),
        Some(t) => match t {
            Tag::LongArray(da) => {
                if pal.len() == 0 {
                    return Err(AnvilError::OutOfRange);
                }
                proof {
                    vstd::arithmetic::power2::lemma2_to64_rest();
                    lemma_bit_len_le((pal@.len() - 1) as nat, 64);
                }
                let w: u32 = bit_length(pal.len() - 1);
                if w == 0 {
                    biome_entry(pal, 0)
                } else {
                    proof {
                        assert((w as nat) * (c as nat) + (w as nat) <= usize::MAX)
                            by (nonlinear_arith)
                            requires
                                w <= 64,
                                c < 64,
                        ;
                    }
                    match packed_field(da, w, true, c) {
                        Err(e) => Err(e),
                        Ok(idx) => {
                            if idx < pal.len() as u64 {
                                biome_entry(pal, idx as usize)
                            } else {
                                Err(AnvilError::OutOfRange)
                            }
                        },
                    }
                }
            },
            _ => Err(AnvilError::WrongTag),
        },
    }
}

/// Collects the property pairs of a palette entry.
fn collect_props(entry: &Tag) -> (r: Result<Option<Vec<(String, String)>>, AnvilError>)
    ensures
        match r {
            Ok(Some(v)) => spec_props(*entry) == Ok::<
                Option<Seq<(Seq<char>, Seq<char>)>>,
                AnvilError,
            >(Some(props_view(v@))),
            Ok(None) => spec_props(*entry) == Ok::<
                Option<Seq<(Seq<char>, Seq<char>)>>,
                AnvilError,
            >(None),
            Err(e) => spec_props(*entry) == Err::<
                Option<Seq<(Seq<char>, Seq<char>)>>,
                AnvilError,
            >(e),
        },
{
    let key: String = String::from_str("Properties");
    let pp: &Vec<(String, Tag)> = match entry {
        Tag::Compound(ps) => match compound_get(ps, &key) {
            None => {
                return Ok(None);
            },
            Some(t) => match t {
                Tag::Compound(m) => m,
                _ => {
                    return Err(AnvilError::WrongTag);
                },
            },
        },
        _ => {
            return Err(AnvilError::WrongTag);
        },
    };
    let mut out: Vec<(String, String)> = Vec::new();
    let mut k: usize = 0;
    while k < pp.len()
        invariant
            spec_props(*entry) == (if props_all_strings(pp@) {
                Ok::<Option<Seq<(Seq<char>, Seq<char>)>>, AnvilError>(Some(spec_prop_list(pp@)))
            } else {
                Err::<Option<Seq<(Seq<char>, Seq<char>)>>, AnvilError>(AnvilError::WrongTag)
            }),
            k <= pp@.len(),
            out@.len() == k,
            forall|m: int| 0 <= m < k ==> (#[trigger] pp@[m].1) is String,
            forall|m: int|
                0 <= m < k ==> (#[trigger] out@[m]).0@ == pp@[m].0@ && out@[m].1@ == spec_prop_list(
                    pp@,
                )[m].1,
        decreases pp@.len() - k,
    {
        let p = &pp[k];
        match &p.1 {
            Tag::String(s) => {
                out.push((p.0.clone(), s.clone()));
            },
            _ => {
                proof {
                    assert(!(pp@[k as int].1 is String));
                    assert(!props_all_strings(pp@));
                }
                return Err(AnvilError::WrongTag);
            },
        }
        k = k + 1;
    }
    proof {
        assert(props_all_strings(pp@));
        assert(props_view(out@) =~= spec_prop_list(pp@));
    }
    Ok(Some(out))
}

/// Resolves the identity of voxel `v` within a section.
fn block_in_section(sec: &Tag, v: usize, coords: (i32, i32, i32), bname: String) -> (r: Result<
    Block,
    AnvilError,
>)
    requires
        v < 4096,
    ensures
        ({
            let m = spec_block_in_section(
                *sec,
                v as nat,
                Some((coords.0 as int, coords.1 as int, coords.2 as int)),
                bname@,
            );
            match r {
                Ok(b) => m == Ok::<BlockModel, AnvilError>(b@),
                Err(e) => m == Err::<BlockModel, AnvilError>(e),
            }
        }),
{
    let bskey: String = String::from_str("block_states");
    let pkey: String = String::from_str("palette");
    let dkey: String = String::from_str("data");
    let sp: &Vec<(String, Tag)> = match sec {
        Tag::Compound(sp) => sp,
        _ => {
            return Err(AnvilError::WrongTag);
        },
    };
    let bs: &Vec<(String, Tag)> = match compound_get(sp, &bskey) {
        None => {
            return Ok(
                Block {
                    namespace: String::from_str("minecraft"),
                    id: String::from_str("air"),
                    coords: Some(coords),
                    properties: None,
                    biome: Some(bname),
                },
            );
        },
        Some(t) => match t {
            Tag::Compound(b) => b,
            _ => {
                return Err(AnvilError::WrongTag);
            },
        },
    };
    let pal: &Vec<Tag> = match compound_get(bs, &pkey) {
        Some(t) => match t {
            Tag::List(l) => l,
            _ => {
                return Err(AnvilError::WrongTag);
            },
        },
        None => {
            return Err(AnvilError::MissingTag);
        },
    };
    if pal.len() == 0 {
        return Err(AnvilError::OutOfRange);
    }
    let entry: &Tag = match compound_get(bs, &dkey) {
        None => &pal[0],
        Some(t) => match t {
            Tag::LongArray(da) => {
                let w: u32 = block_state_width(pal.len());
                match packed_field(da, w, false, v) {
                    Err(e) => {
                        return Err(e);
                    },
                    Ok(idx) => {
                        if idx < pal.len() as u64 {
                            &pal[idx as usize]
                        } else {
                            return Err(AnvilError::OutOfRange);
                        }
                    },
                }
            },
            _ => {
                return Err(AnvilError::WrongTag);
            },
        },
    };
    let props: Option<Vec<(String, String)>> = match collect_props(entry) {
        Ok(p) => p,
        Err(e) => {
            return Err(e);
        },
    };
    Block::from_palette(entry, Some(coords), props, Some(bname))
}

impl Chunk {
    /// Returns the section of the chunk carrying altitude index `y`, or
    /// `None` when the chunk stores no such section.
    ///
    /// The whole list is scanned: an element without a readable altitude
    /// index is an error, and so is a duplicated index — the format
    /// guarantees uniqueness, so a duplicate marks corruption and is not
    /// silently resolved in favour of the first match.
    pub fn get_section<'a>(&'a self, y: i8) -> (r: Result<Option<&'a Tag>, AnvilError>)
        ensures
            match r {
                Ok(Some(t)) => spec_get_section(self.data, y) == Ok::<Option<Tag>, AnvilError>(
                    Some(*t),
                ),
                Ok(None) => spec_get_section(self.data, y) == Ok::<Option<Tag>, AnvilError>(None),
                Err(e) => spec_get_section(self.data, y) == Err::<Option<Tag>, AnvilError>(e),
            },
    {
        if y < -4 || y > 19 {
            return Err(AnvilError::OutOfRange);
        }
        let skey: String = String::from_str("sections");
        let ykey: String = String::from_str("Y");
        let list: &Vec<Tag> = match &self.data {
            Tag::Compound(ps) => match compound_get(ps, &skey) {
                Some(t) => match t {
                    Tag::List(l) => l,
                    _ => {
                        return Err(AnvilError::WrongTag);
                    },
                },
                None => {
                    return Err(AnvilError::MissingTag);
                },
            },
            _ => {
                return Err(AnvilError::WrongTag);
            },
        };
        let mut found: Option<&Tag> = None;
        let mut dup: bool = false;
        let ghost mut pc: nat = 0;
        let mut k: usize = 0;
        while k < list.len()
            invariant
                -4 <= y <= 19,
                ykey@ == "Y"@,
                spec_sections(self.data) == Ok::<Seq<Tag>, AnvilError>(list@),
                k <= list@.len(),
                forall|m: int| 0 <= m < k ==> (#[trigger] spec_section_y(list@[m])) is Ok,
                count_y(list@, y, 0) == pc + count_y(list@, y, k as int),
                first_bad_section(list@, 0) == first_bad_section(list@, k as int),
                match found {
                    None => pc == 0,
                    Some(t) => pc >= 1 && *t == find_y(list@, y, 0),
                },
                pc == 0 ==> find_y(list@, y, 0) == find_y(list@, y, k as int),
                dup <==> pc >= 2,
            decreases list@.len() - k,
        {
            let sec = &list[k];
            let sy: i8 = match sec {
                Tag::Compound(sp) => match compound_get(sp, &ykey) {
                    Some(t) => match t {
                        Tag::Byte(b) => *b,
                        _ => {
                            proof {
                                assert(!sections_wf(list@));
                            }
                            return Err(AnvilError::WrongTag);
                        },
                    },
                    None => {
                        proof {
                            assert(!sections_wf(list@));
                        }
                        return Err(AnvilError::MissingTag);
                    },
                },
                _ => {
                    proof {
                        assert(!sections_wf(list@));
                    }
                    return Err(AnvilError::WrongTag);
                },
            };
            proof {
                assert(spec_section_y(list@[k as int]) == Ok::<i8, AnvilError>(sy));
                assert(count_y(list@, y, k as int) == (if spec_section_y(list@[k as int])
                    == Ok::<i8, AnvilError>(y) {
                    1nat
                } else {
                    0nat
                }) + count_y(list@, y, k as int + 1));
            }
            if sy == y {
                if found.is_some() {
                    dup = true;
                } else {
                    found = Some(sec);
                }
                proof {
                    pc = pc + 1;
                }
            }
            k = k + 1;
        }
        if dup {
            return Err(AnvilError::DuplicateSection);
        }
        match found {
            Some(t) => Ok(Some(t)),
            None => Ok(None),
        }
    }

    /// Returns the chunk stored at `(chunk_x, chunk_z)` of a region, or
    /// `None` when the sector entry is the absent sentinel or the chunk is
    /// stored raw.  The chunk's coordinates are region-relative: the
    /// caller's are reduced mod 32, matching the slot the sector table
    /// looked up.
    pub fn from_region(region: &Region, chunk_x: u32, chunk_z: u32) -> (r: Result<
        Option<Chunk>,
        AnvilError,
    >)
        ensures
            match spec_chunk_stage(region@, chunk_x, chunk_z) {
                Err(e) => r == Err::<Option<Chunk>, AnvilError>(e),
                Ok(None) => r == Ok::<Option<Chunk>, AnvilError>(None),
                Ok(Some(payload)) => match spec_payload_tag(payload) {
                    Ok(t) => r == Ok::<Option<Chunk>, AnvilError>(
                        Some(Chunk { data: t, x: (chunk_x % 32) as u32, z: (chunk_z % 32) as u32 }),
                    ),
                    Err(e) => r == Err::<Option<Chunk>, AnvilError>(e),
                },
            },
    {
        match region.chunk_data(chunk_x, chunk_z) {
            Ok(Some(data)) => Ok(Some(Chunk { data, x: chunk_x % 32, z: chunk_z % 32 })),
            Ok(None) => Ok(None),
            Err(e) => Err(e),
        }
    }

    /// Returns the chunk's generation status; `full` marks a completely
    /// generated chunk.
    pub fn get_status(&self) -> (r: Result<String, AnvilError>)
        ensures
            match r {
                Ok(s) => spec_status(self.data) == Ok::<Seq<char>, AnvilError>(s@),
                Err(e) => spec_status(self.data) == Err::<Seq<char>, AnvilError>(e),
            },
    {
        let key: String = String::from_str("Status");
        match &self.data {
            Tag::Compound(ps) => match compound_get(ps, &key) {
                Some(t) => match t {
                    Tag::String(s) => Ok(s.clone()),
                    _ => Err(AnvilError::WrongTag),
                },
                None => Err(AnvilError::MissingTag),
            },
            _ => Err(AnvilError::WrongTag),
        }
    }

    /// Returns the block at local coordinates `(x, z)` in `[0, 15]` and
    /// world altitude `y` in `[-64, 319]`.
    ///
    /// A coordinate outside those ranges is `OutOfRange`; an absent section
    /// resolves to the air identity with the world coordinates set and no
    /// properties.
    pub fn get_block(&self, x: i32, y: i32, z: i32) -> (r: Result<Block, AnvilError>)
        ensures
            match r {
                Ok(b) => spec_get_block(self.data, self.x, self.z, x, y, z) == Ok::<
                    BlockModel,
                    AnvilError,
                >(b@),
                Err(e) => spec_get_block(self.data, self.x, self.z, x, y, z) == Err::<
                    BlockModel,
                    AnvilError,
                >(e),
            },
    {
        if self.x >= 32 || self.z >= 32 || x < 0 || x > 15 || z < 0 || z > 15 || y < -64 || y
            > 319 {
            return Err(AnvilError::OutOfRange);
        }
        let sy: i8 = ((y + 64) / 16 - 4) as i8;
        let wx: i32 = self.x as i32 * 32 + x;
        let wz: i32 = self.z as i32 * 32 + z;
        let sec: &Tag = match self.get_section(sy) {
            Err(e) => {
                return Err(e);
            },
            Ok(None) => {
                return Ok(
                    Block {
                        namespace: String::from_str("minecraft"),
                        id: String::from_str("air"),
                        coords: Some((wx, y, wz)),
                        properties: None,
                        biome: None,
                    },
                );
            },
            Ok(Some(t)) => t,
        };
        let ly: i32 = (y + 64) % 16;
        let cell: usize = ((ly / 4) * 16 + (z / 4) * 4 + x / 4) as usize;
        let bname: String = match biome_of_section(sec, cell) {
            Ok(s) => s,
            Err(e) => {
                return Err(e);
            },
        };
        let v: usize = (ly * 256 + z * 16 + x) as usize;
        block_in_section(sec, v, (wx, y, wz), bname)
    }

    /// Returns the biome name at world altitude `y`, sampled at the
    /// section's first cell column; an absent section resolves to the
    /// default biome.
    pub fn get_biome(&self, y: i32) -> (r: Result<String, AnvilError>)
        ensures
            match r {
                Ok(s) => spec_get_biome(self.data, y) == Ok::<Seq<char>, AnvilError>(s@),
                Err(e) => spec_get_biome(self.data, y) == Err::<Seq<char>, AnvilError>(e),
            },
    {
        if y < -64 || y > 319 {
            return Err(AnvilError::OutOfRange);
        }
        let sy: i8 = ((y + 64) / 16 - 4) as i8;
        match self.get_section(sy) {
            Err(e) => Err(e),
            Ok(None) => Ok(String::from_str("minecraft:plains")),
            Ok(Some(sec)) => biome_of_section(sec, ((((y + 64) % 16) / 4) * 16) as usize),
        }
    }

    /// Returns the chunk's surface heightmap — ignoring water columns when
    /// `ignore_water` is set — or `None` for a chunk that is not fully
    /// generated.
    pub fn get_heightmap(&self, ignore_water: bool) -> (r: Result<Option<Vec<i32>>, AnvilError>)
        ensures
            match spec_status(self.data) {
                Err(e) => r == Err::<Option<Vec<i32>>, AnvilError>(e),
                Ok(st) => {
                    if st != "full"@ {
                        r == Ok::<Option<Vec<i32>>, AnvilError>(None)
                    } else {
                        match spec_heightmap_words(self.data, ignore_water) {
                            Err(e) => r == Err::<Option<Vec<i32>>, AnvilError>(e),
                            Ok(wrds) => {
                                if wrds.len() * 7 <= usize::MAX {
                                    match r {
                                        Ok(Some(h)) => h@.len() == hm_kept(wrds, wrds.len() * 7)
                                            && forall|k: int|
                                            0 <= k < h@.len() ==> h@[k] == aligned_field(
                                                wrds,
                                                9,
                                                k as nat,
                                            ) - 65,
                                        _ => false,
                                    }
                                } else {
                                    r == Err::<Option<Vec<i32>>, AnvilError>(AnvilError::Truncated)
                                }
                            },
                        }
                    }
                },
            },
    {
        let status: String = match self.get_status() {
            Ok(s) => s,
            Err(e) => {
                return Err(e);
            },
        };
        let full: String = String::from_str("full");
        if !(status == full) {
            return Ok(None);
        }
        let hkey: String = String::from_str("Heightmaps");
        let mkey: String = if ignore_water {
            String::from_str("OCEAN_FLOOR")
        } else {
            String::from_str("WORLD_SURFACE")
        };
        let hm: &Vec<(String, Tag)> = match &self.data {
            Tag::Compound(ps) => match compound_get(ps, &hkey) {
                Some(t) => match t {
                    Tag::Compound(m) => m,
                    _ => {
                        return Err(AnvilError::WrongTag);
                    },
                },
                None => {
                    return Err(AnvilError::MissingTag);
                },
            },
            _ => {
                return Err(AnvilError::WrongTag);
            },
        };
        let words: &Vec<i64> = match compound_get(hm, &mkey) {
            Some(t) => match t {
                Tag::LongArray(la) => la,
                _ => {
                    return Err(AnvilError::WrongTag);
                },
            },
            None => {
                return Err(AnvilError::MissingTag);
            },
        };
        match unpack_heightmap(words) {
            Ok(h) => Ok(Some(h)),
            Err(e) => Err(e),
        }
    }

    /// Returns the tick at which the chunk last updated.
    pub fn get_last_update(&self) -> (r: Result<i64, AnvilError>)
        ensures
            match r {
                Ok(l) => spec_last_update(self.data) == Ok::<i64, AnvilError>(l),
                Err(e) => spec_last_update(self.data) == Err::<i64, AnvilError>(e),
            },
    {
        let key: String = String::from_str("LastUpdate");
        match &self.data {
            Tag::Compound(ps) => match compound_get(ps, &key) {
                Some(t) => match t {
                    Tag::Long(l) => Ok(*l),
                    _ => Err(AnvilError::WrongTag),
                },
                None => Err(AnvilError::MissingTag),
            },
            _ => Err(AnvilError::WrongTag),
        }
    }
}

} // verus!
