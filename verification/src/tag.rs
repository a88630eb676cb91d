//! The decoded tag tree, and the trusted boundary to the outside parser.
//!
//! A chunk payload inflates to a binary tag document: a tree of named, typed
//! values.  The decoder walks that tree with plain, verified code, so the
//! tree is held in the crate's own [`Tag`] type.  Producing a `Tag` from
//! bytes is the work of two outside collaborators — a zlib inflater and the
//! tag parser — each behind a small trusted wrapper.  The parser trusts its
//! input's length fields, so a verified scan of the tag stream
//! ([`tag_stream_check`]) stands in front of it and refuses the byte
//! patterns that could make it panic or recurse without bound.

use vstd::prelude::*;

verus! {

/// One node of a decoded tag tree.
///
/// Entries whose payload the decoder never reads (floating-point scalars and
/// byte arrays) are carried as [`Tag::Other`], so that their presence is
/// still visible to a tree walk.
#[derive(Debug)]
pub enum Tag {
    Byte(i8),
    Short(i16),
    Int(i32),
    Long(i64),
    String(String),
    IntArray(Vec<i32>),
    LongArray(Vec<i64>),
    List(Vec<Tag>),
    Compound(Vec<(String, Tag)>),
    /// A float, double or byte-array entry: present, but never read.
    Other,
}

/// First entry named `key` at or after position `i`, if any.
pub open spec fn compound_lookup_from(pairs: Seq<(String, Tag)>, key: Seq<char>, i: int) -> Option<
    Tag,
>
    recommends
        0 <= i <= pairs.len(),
    decreases pairs.len() - i,
{
    if i < 0 || i >= pairs.len() {
        None
    } else if pairs[i].0@ == key {
        Some(pairs[i].1)
    } else {
        compound_lookup_from(pairs, key, i + 1)
    }
}

/// First entry of a compound's pair list named `key`, if any.
pub open spec fn compound_lookup(pairs: Seq<(String, Tag)>, key: Seq<char>) -> Option<Tag> {
    compound_lookup_from(pairs, key, 0)
}

/// Returns a borrow of the first entry named `key`, scanning in order.
pub fn compound_get<'a>(pairs: &'a Vec<(String, Tag)>, key: &String) -> (r: Option<&'a Tag>)
    ensures
        match r {
            Some(t) => compound_lookup(pairs@, key@) == Some(*t),
            None => compound_lookup(pairs@, key@) is None,
        },
{
    let mut i: usize = 0;
    while i < pairs.len()
        invariant
            i <= pairs@.len(),
            compound_lookup(pairs@, key@) == compound_lookup_from(pairs@, key@, i as int),
        decreases pairs@.len() - i,
    {
        let p = &pairs[i];
        if p.0 == *key {
            return Some(&p.1);
        }
        i = i + 1;
    }
    None
}

#[verifier::external_type_specification]
#[verifier::external_body]
pub struct ExNbtValue(nbt::Value);

/// Converts a parsed outside tag into the crate's own tree, one variant at a
/// time; list and compound children are converted recursively, and compound
/// entries keep the order in which the outside map hands them out.
#[verifier::external_body]
fn tag_of_value(v: nbt::Value) -> Tag {
    match v {
        nbt::Value::Byte(x) => Tag::Byte(x),
        nbt::Value::Short(x) => Tag::Short(x),
        nbt::Value::Int(x) => Tag::Int(x),
        nbt::Value::Long(x) => Tag::Long(x),
        nbt::Value::String(x) => Tag::String(x),
        nbt::Value::IntArray(x) => Tag::IntArray(x),
        nbt::Value::LongArray(x) => Tag::LongArray(x),
        nbt::Value::List(x) => Tag::List(x.into_iter().map(tag_of_value).collect()),
        nbt::Value::Compound(x) => Tag::Compound(
            x.into_iter().map(|p| (p.0, tag_of_value(p.1))).collect(),
        ),
        _ => Tag::Other,
    }
}

/// What zlib inflation yields for a byte sequence: the inflated bytes, or
/// nothing for a malformed stream.  Inflation is a function of the bytes
/// alone, so the result carries a name; no short statement could pin the
/// format down further.
pub uninterp spec fn inflate_of(bytes: Seq<u8>) -> Option<Seq<u8>>;

/// Relies on flate2's `ZlibDecoder`: inflates a zlib stream, or reports
/// `None` on malformed input.  Nothing is promised of the output bytes
/// beyond their name; callers treat them as an untrusted payload and check
/// every read.
#[verifier::external_body]
pub(crate) fn inflate(bytes: &Vec<u8>) -> (r: Option<Vec<u8>>)
    ensures
        match r {
            Some(v) => inflate_of(bytes@) == Some(v@),
            None => inflate_of(bytes@) is None,
        },
{
    let mut out: Vec<u8> = Vec::new();
    let mut dec = flate2::read::ZlibDecoder::new(bytes.as_slice());
    match std::io::Read::read_to_end(&mut dec, &mut out) {
        Ok(_) => Some(out),
        Err(_) => None,
    }
}

/// Deepest container nesting the decoder accepts.  The outside parser
/// recurses once per nesting level, so the bound keeps its stack shallow;
/// real region data nests far less.
pub const MAX_TAG_DEPTH: u32 = 64;

/// Big-endian 16-bit value at `pos`.
pub open spec fn be_u16_at(doc: Seq<u8>, pos: int) -> int {
    (doc[pos] as int) * 0x100 + (doc[pos + 1] as int)
}

/// Big-endian 32-bit value at `pos`.
pub open spec fn be_u32_at(doc: Seq<u8>, pos: int) -> int {
    (doc[pos] as int) * 0x100_0000 + (doc[pos + 1] as int) * 0x1_0000 + (doc[pos
        + 2] as int) * 0x100 + (doc[pos + 3] as int)
}

/// End position of an array payload at `pos`: a 32-bit count whose sign bit
/// is clear, then that many `elem_size`-byte entries, all inside `doc`.
pub open spec fn spec_scan_array(doc: Seq<u8>, pos: int, elem_size: int) -> Option<int> {
    if pos + 4 <= doc.len() {
        let n = be_u32_at(doc, pos);
        if n < 0x8000_0000 && pos + 4 + n * elem_size <= doc.len() {
            Some(pos + 4 + n * elem_size)
        } else {
            None
        }
    } else {
        None
    }
}

/// End position of one tag payload of kind `id` at `pos`, or `None` when
/// the bytes are not a safely parsable payload.  `fuel` only bounds the
/// recursion; it is chosen generously from the document's length.
pub open spec fn spec_scan_value(doc: Seq<u8>, pos: int, id: u8, depth: int, fuel: nat) -> Option<
    int,
>
    decreases fuel,
{
    if id == 1 {
        if pos + 1 <= doc.len() {
            Some(pos + 1)
        } else {
            None
        }
    } else if id == 2 {
        if pos + 2 <= doc.len() {
            Some(pos + 2)
        } else {
            None
        }
    } else if id == 3 || id == 5 {
        if pos + 4 <= doc.len() {
            Some(pos + 4)
        } else {
            None
        }
    } else if id == 4 || id == 6 {
        if pos + 8 <= doc.len() {
            Some(pos + 8)
        } else {
            None
        }
    } else if id == 7 {
        spec_scan_array(doc, pos, 1)
    } else if id == 8 {
        if pos + 2 <= doc.len() && pos + 2 + be_u16_at(doc, pos) <= doc.len() {
            Some(pos + 2 + be_u16_at(doc, pos))
        } else {
            None
        }
    } else if id == 9 {
        if pos + 5 <= doc.len() {
            let elem = doc[pos];
            let n = be_u32_at(doc, pos + 1);
            if n >= 0x8000_0000 {
                None
            } else if n == 0 {
                Some(pos + 5)
            } else if elem == 0 || depth <= 0 || fuel == 0 {
                None
            } else {
                spec_scan_list(doc, pos + 5, elem, n, depth - 1, (fuel - 1) as nat)
            }
        } else {
            None
        }
    } else if id == 0x0a {
        if depth <= 0 || fuel == 0 {
            None
        } else {
            spec_scan_compound(doc, pos, depth - 1, (fuel - 1) as nat)
        }
    } else if id == 0x0b {
        spec_scan_array(doc, pos, 4)
    } else if id == 0x0c {
        spec_scan_array(doc, pos, 8)
    } else {
        None
    }
}

/// End position of `n` consecutive payloads of kind `elem` starting at
/// `pos`.
pub open spec fn spec_scan_list(
    doc: Seq<u8>,
    pos: int,
    elem: u8,
    n: int,
    depth: int,
    fuel: nat,
) -> Option<int>
    decreases fuel,
{
    if n <= 0 {
        Some(pos)
    } else if fuel == 0 {
        None
    } else {
        match spec_scan_value(doc, pos, elem, depth, (fuel - 1) as nat) {
            None => None,
            Some(e) => spec_scan_list(doc, e, elem, n - 1, depth, (fuel - 1) as nat),
        }
    }
}

/// End position of a compound payload at `pos`: named entries up to and
/// including the end tag.
pub open spec fn spec_scan_compound(doc: Seq<u8>, pos: int, depth: int, fuel: nat) -> Option<int>
    decreases fuel,
{
    if pos + 1 > doc.len() {
        None
    } else if doc[pos] == 0 {
        Some(pos + 1)
    } else if fuel == 0 {
        None
    } else if pos + 3 <= doc.len() {
        let nl = be_u16_at(doc, pos + 1);
        if pos + 3 + nl <= doc.len() {
            match spec_scan_value(doc, pos + 3 + nl, doc[pos], depth, (fuel - 1) as nat) {
                None => None,
                Some(e) => spec_scan_compound(doc, e, depth, (fuel - 1) as nat),
            }
        } else {
            None
        }
    } else {
        None
    }
}

/// Whether `doc` is a compound payload that the outside parser can be
/// handed safely: every length field is non-negative and lies inside the
/// buffer, and containers nest at most [`MAX_TAG_DEPTH`] deep.  The fuel
/// bound never bites on data the other checks admit.
pub open spec fn tag_stream_ok(doc: Seq<u8>) -> bool {
    &&& doc.len() <= (usize::MAX - 16) / 4
    &&& spec_scan_compound(doc, 0, MAX_TAG_DEPTH as int, (4 * doc.len() + 16) as nat) is Some
}

/// Reads a big-endian 32-bit value.
fn be_u32(doc: &Vec<u8>, pos: usize) -> (r: u32)
    requires
        pos + 4 <= doc@.len(),
        doc@.len() <= (usize::MAX - 16) / 4,
    ensures
        r == be_u32_at(doc@, pos as int),
{
    (doc[pos] as u32) * 0x100_0000 + (doc[pos + 1] as u32) * 0x1_0000 + (doc[pos + 2] as u32)
        * 0x100 + (doc[pos + 3] as u32)
}

/// Checks an array payload.
fn scan_array(doc: &Vec<u8>, pos: usize, elem_size: u32) -> (r: Option<usize>)
    requires
        1 <= elem_size <= 8,
        doc@.len() <= (usize::MAX - 16) / 4,
    ensures
        match r {
            Some(e) => spec_scan_array(doc@, pos as int, elem_size as int) == Some(e as int),
            None => spec_scan_array(doc@, pos as int, elem_size as int) is None,
        },
{
    if (pos as u128) + 4 > doc.len() as u128 {
        return None;
    }
    let n: u32 = be_u32(doc, pos);
    if n >= 0x8000_0000 {
        return None;
    }
    proof {
        assert((n as int) * (elem_size as int) <= 0x10_0000_0000) by (nonlinear_arith)
            requires
                n < 0x8000_0000,
                elem_size <= 8,
        ;
    }
    let end: u128 = (pos as u128) + 4 + (n as u128) * (elem_size as u128);
    if end <= doc.len() as u128 {
        Some(end as usize)
    } else {
        None
    }
}

/// Checks one tag payload; list elements are walked by a loop, containers
/// by recursion, which `depth` caps.
fn scan_value(doc: &Vec<u8>, pos: usize, id: u8, depth: u32, fuel: usize) -> (r: Option<usize>)
    requires
        doc@.len() <= (usize::MAX - 16) / 4,
    ensures
        match r {
            Some(e) => spec_scan_value(doc@, pos as int, id, depth as int, fuel as nat) == Some(
                e as int,
            ),
            None => spec_scan_value(doc@, pos as int, id, depth as int, fuel as nat) is None,
        },
    decreases fuel,
{
    let dlen: u128 = doc.len() as u128;
    if id == 1 {
        if (pos as u128) + 1 <= dlen {
            Some(pos + 1)
        } else {
            None
        }
    } else if id == 2 {
        if (pos as u128) + 2 <= dlen {
            Some(pos + 2)
        } else {
            None
        }
    } else if id == 3 || id == 5 {
        if (pos as u128) + 4 <= dlen {
            Some(pos + 4)
        } else {
            None
        }
    } else if id == 4 || id == 6 {
        if (pos as u128) + 8 <= dlen {
            Some(pos + 8)
        } else {
            None
        }
    } else if id == 7 {
        scan_array(doc, pos, 1)
    } else if id == 8 {
        if (pos as u128) + 2 > dlen {
            return None;
        }
        let n: usize = (doc[pos] as usize) * 0x100 + (doc[pos + 1] as usize);
        if (pos as u128) + 2 + (n as u128) <= dlen {
            Some(pos + 2 + n)
        } else {
            None
        }
    } else if id == 9 {
        if (pos as u128) + 5 > dlen {
            return None;
        }
        let elem: u8 = doc[pos];
        let n: u32 = be_u32(doc, pos + 1);
        if n >= 0x8000_0000 {
            return None;
        }
        if n == 0 {
            return Some(pos + 5);
        }
        if elem == 0 || depth == 0 || fuel == 0 {
            return None;
        }
        let mut p: usize = pos + 5;
        let mut rem: u32 = n;
        let mut f: usize = fuel - 1;
        loop
            invariant
                doc@.len() <= (usize::MAX - 16) / 4,
                id == 9u8,
                rem >= 1,
                depth >= 1,
                f < fuel,
                spec_scan_value(doc@, pos as int, 9u8, depth as int, fuel as nat)
                    == spec_scan_list(
                    doc@,
                    p as int,
                    elem,
                    rem as int,
                    depth as int - 1,
                    f as nat,
                ),
            decreases f,
        {
            if f == 0 {
                proof {
                    assert(spec_scan_list(
                        doc@,
                        p as int,
                        elem,
                        rem as int,
                        depth as int - 1,
                        f as nat,
                    ) is None);
                }
                return None;
            }
            match scan_value(doc, p, elem, depth - 1, f - 1) {
                None => {
                    proof {
                        assert(spec_scan_list(
                            doc@,
                            p as int,
                            elem,
                            rem as int,
                            depth as int - 1,
                            f as nat,
                        ) is None);
                    }
                    return None;
                },
                Some(e) => {
                    proof {
                        assert(spec_scan_list(
                            doc@,
                            p as int,
                            elem,
                            rem as int,
                            depth as int - 1,
                            f as nat,
                        ) == spec_scan_list(
                            doc@,
                            e as int,
                            elem,
                            rem as int - 1,
                            depth as int - 1,
                            (f - 1) as nat,
                        ));
                    }
                    p = e;
                },
            }
            rem = rem - 1;
            f = f - 1;
            if rem == 0 {
                proof {
                    assert(spec_scan_list(
                        doc@,
                        p as int,
                        elem,
                        0int,
                        depth as int - 1,
                        f as nat,
                    ) == Some(p as int));
                }
                return Some(p);
            }
        }
    } else if id == 0x0a {
        if depth == 0 || fuel == 0 {
            None
        } else {
            scan_compound(doc, pos, depth - 1, fuel - 1)
        }
    } else if id == 0x0b {
        scan_array(doc, pos, 4)
    } else if id == 0x0c {
        scan_array(doc, pos, 8)
    } else {
        None
    }
}

/// Checks a compound payload: named entries up to the end tag, each entry's
/// value checked by `scan_value`.
fn scan_compound(doc: &Vec<u8>, pos: usize, depth: u32, fuel: usize) -> (r: Option<usize>)
    requires
        doc@.len() <= (usize::MAX - 16) / 4,
    ensures
        match r {
            Some(e) => spec_scan_compound(doc@, pos as int, depth as int, fuel as nat) == Some(
                e as int,
            ),
            None => spec_scan_compound(doc@, pos as int, depth as int, fuel as nat) is None,
        },
    decreases fuel,
{
    let mut p: usize = pos;
    let mut f: usize = fuel;
    loop
        invariant
            doc@.len() <= (usize::MAX - 16) / 4,
            f <= fuel,
            spec_scan_compound(doc@, pos as int, depth as int, fuel as nat) == spec_scan_compound(
                doc@,
                p as int,
                depth as int,
                f as nat,
            ),
        decreases f,
    {
        if (p as u128) + 1 > doc.len() as u128 {
            return None;
        }
        if doc[p] == 0 {
            return Some(p + 1);
        }
        if f == 0 {
            return None;
        }
        if (p as u128) + 3 > doc.len() as u128 {
            return None;
        }
        let nl: usize = (doc[p + 1] as usize) * 0x100 + (doc[p + 2] as usize);
        if (p as u128) + 3 + (nl as u128) > doc.len() as u128 {
            return None;
        }
        let id: u8 = doc[p];
        match scan_value(doc, p + 3 + nl, id, depth, f - 1) {
            None => {
                proof {
                    assert(spec_scan_compound(doc@, p as int, depth as int, f as nat) is None);
                }
                return None;
            },
            Some(e) => {
                proof {
                    assert(spec_scan_compound(doc@, p as int, depth as int, f as nat)
                        == spec_scan_compound(doc@, e as int, depth as int, (f - 1) as nat));
                }
                p = e;
            },
        }
        f = f - 1;
    }
}

/// Checks that a compound payload is safe to hand to the outside parser.
pub fn tag_stream_check(doc: &Vec<u8>) -> (r: bool)
    ensures
        r == tag_stream_ok(doc@),
{
    if doc.len() > (usize::MAX - 16) / 4 {
        return false;
    }
    let fuel: usize = 4 * doc.len() + 16;
    scan_compound(doc, 0, MAX_TAG_DEPTH, fuel).is_some()
}

/// The tag tree the outside parser yields for the entries of a compound
/// payload, or nothing when it rejects the bytes.  The parser fills an
/// order-preserving map, so the whole tree — entry order included — is a
/// function of the bytes alone; no short statement could pin the format
/// down further.
pub uninterp spec fn parsed_tag_of(bytes: Seq<u8>) -> Option<Tag>;

/// Relies on `nbt::Value::from_reader` with the compound type id (`0x0a`):
/// parses the entries of a compound tag from binary bytes, or reports
/// `None` on malformed input.  The bytes must have passed the verified
/// scan: on arbitrary bytes the outside parser can panic — a negative
/// array length overflows its capacity computation — or recurse without
/// bound on deep nesting.
#[verifier::external_body]
pub(crate) fn parse_compound(bytes: &Vec<u8>) -> (r: Option<Tag>)
    requires
        tag_stream_ok(bytes@),
    ensures
        r == parsed_tag_of(bytes@),
{
    let mut rdr: &[u8] = bytes.as_slice();
    match nbt::Value::from_reader(0x0a, &mut rdr) {
        Ok(v) => Some(tag_of_value(v)),
        Err(_) => None,
    }
}

} // verus!
