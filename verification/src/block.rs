//! Block identities.
//!
//! A palette entry resolves to an immutable identity: a namespaced name,
//! optional world coordinates, optional property pairs and an optional biome
//! name.  The combined name `namespace:id` splits on the first colon; a
//! palette-sourced name without a colon is malformed and is rejected, while
//! [`Block::new`] keeps the historical convenience of duplicating a bare
//! namespace into the id slot.

use vstd::prelude::*;
use vstd::string::*;

use crate::error::AnvilError;
use crate::tag::{compound_lookup, compound_get, Tag};

verus! {

/// Position of the first colon at or after `i`, if any.
pub open spec fn first_colon(s: Seq<char>, i: int) -> Option<int>
    recommends
        0 <= i <= s.len(),
    decreases s.len() - i,
{
    if i < 0 || i >= s.len() {
        None
    } else if s[i] == ':' {
        Some(i)
    } else {
        first_colon(s, i + 1)
    }
}

/// The two halves of a combined name, split on the first colon: everything
/// before it, and everything after it (later colons stay in the second
/// half).
pub open spec fn split_name(s: Seq<char>) -> Option<(Seq<char>, Seq<char>)> {
    match first_colon(s, 0) {
        Some(c) => Some((s.subrange(0, c), s.subrange(c + 1, s.len() as int))),
        None => None,
    }
}

/// Name of the palette entry `t`: its `Name` string entry.
pub open spec fn spec_palette_name(t: Tag) -> Result<Seq<char>, AnvilError> {
    match t {
        Tag::Compound(ps) => match compound_lookup(ps@, "Name"@) {
            Some(Tag::String(s)) => Ok(s@),
            Some(_) => Err(AnvilError::WrongTag),
            None => Err(AnvilError::MissingTag),
        },
        _ => Err(AnvilError::WrongTag),
    }
}

/// The mathematical content of a [`Block`]: its fields as sequences and
/// unbounded integers.
#[verifier::ext_equal]
pub struct BlockModel {
    pub namespace: Seq<char>,
    pub id: Seq<char>,
    pub coords: Option<(int, int, int)>,
    pub properties: Option<Seq<(Seq<char>, Seq<char>)>>,
    pub biome: Option<Seq<char>>,
}

/// The pairs of a property list, as sequences of characters.
pub open spec fn props_view(ps: Seq<(String, String)>) -> Seq<(Seq<char>, Seq<char>)> {
    ps.map_values(|p: (String, String)| (p.0@, p.1@))
}

/// An immutable block identity.
pub struct Block {
    /// Namespace the identity lives in: `minecraft` for vanilla blocks, a
    /// mod's namespace otherwise.
    pub namespace: String,
    /// The identifier within the namespace, such as `stone`.
    pub id: String,
    /// The world coordinates of the block, `None` if not included.
    pub coords: Option<(i32, i32, i32)>,
    /// Property pairs of the palette entry, in stored order.
    pub properties: Option<Vec<(String, String)>>,
    /// The resolved biome name at the block's position, when known.
    pub biome: Option<String>,
}

impl View for Block {
    type V = BlockModel;

    open spec fn view(&self) -> BlockModel {
        BlockModel {
            namespace: self.namespace@,
            id: self.id@,
            coords: match self.coords {
                Some(c) => Some((c.0 as int, c.1 as int, c.2 as int)),
                None => None,
            },
            properties: match self.properties {
                Some(ps) => Some(props_view(ps@)),
                None => None,
            },
            biome: match self.biome {
                Some(b) => Some(b@),
                None => None,
            },
        }
    }
}

impl Block {
    /// Returns a block with the given namespace and id.
    ///
    /// A call without an id is the bare-namespace convenience: the namespace
    /// doubles as the id.  This constructor never parses; palette-sourced
    /// names go through [`Block::from_name`], which rejects a missing colon.
    pub fn new(
        namespace: String,
        block_id: Option<String>,
        coords: Option<(i32, i32, i32)>,
        properties: Option<Vec<(String, String)>>,
    ) -> (r: Block)
        ensures
            r.namespace == namespace,
            match block_id {
                Some(id) => r.id == id,
                None => r.id == namespace,
            },
            r.coords == coords,
            r.properties == properties,
            r.biome is None,
    {
        match block_id {
            Some(id) => Block { namespace, id, coords, properties, biome: None },
            None => Block {
                namespace: namespace.clone(),
                id: namespace,
                coords,
                properties,
                biome: None,
            },
        }
    }

    /// Returns the combined name, `namespace:id`.
    pub fn name(self) -> (r: String)
        ensures
            r@ == self.namespace@ + ":"@ + self.id@,
    {
        let mut n: String = self.namespace;
        n.append(":");
        n.append(self.id.as_str());
        n
    }

    /// Returns a block whose namespace and id come from splitting `name` on
    /// its first colon.  A name with no colon is rejected with
    /// `MalformedName`; it is never silently duplicated into both halves.
    pub fn from_name(
        name: String,
        coords: Option<(i32, i32, i32)>,
        properties: Option<Vec<(String, String)>>,
        biome: Option<String>,
    ) -> (r: Result<Block, AnvilError>)
        ensures
            (r is Ok) <==> (split_name(name@) is Some),
            r matches Ok(b) ==> {
                &&& Some((b.namespace@, b.id@)) == split_name(name@)
                &&& b.coords == coords
                &&& b.properties == properties
                &&& b.biome == biome
            },
            r matches Err(e) ==> e == AnvilError::MalformedName,
    {
        let n: usize = name.as_str().unicode_len();
        let mut i: usize = 0;
        while i < n
            invariant
                i <= n,
                n == name@.len(),
                first_colon(name@, 0) == first_colon(name@, i as int),
            decreases n - i,
        {
            if name.as_str().get_char(i) == ':' {
                let namespace: String = name.as_str().substring_char(0, i).to_owned();
                let id: String = name.as_str().substring_char(i + 1, n).to_owned();
                return Ok(Block { namespace, id, coords, properties, biome });
            }
            i = i + 1;
        }
        Err(AnvilError::MalformedName)
    }

    /// Returns a block resolved from a palette entry: a compound tag whose
    /// `Name` string entry carries the combined name.
    pub fn from_palette(
        tag: &Tag,
        coords: Option<(i32, i32, i32)>,
        properties: Option<Vec<(String, String)>>,
        biome: Option<String>,
    ) -> (r: Result<Block, AnvilError>)
        ensures
            match spec_palette_name(*tag) {
                Ok(nm) => {
                    &&& ((r is Ok) <==> (split_name(nm) is Some))
                    &&& (r matches Ok(b) ==> {
                        &&& Some((b.namespace@, b.id@)) == split_name(nm)
                        &&& b.coords == coords
                        &&& b.properties == properties
                        &&& b.biome == biome
                    })
                    &&& (r matches Err(e) ==> e == AnvilError::MalformedName)
                },
                Err(e) => r == Err::<Block, AnvilError>(e),
            },
    {
        let key: String = String::from_str("Name");
        match tag {
            Tag::Compound(ps) => match compound_get(ps, &key) {
                Some(t) => match t {
                    Tag::String(nm) => Block::from_name(nm.clone(), coords, properties, biome),
                    _ => Err(AnvilError::WrongTag),
                },
                None => Err(AnvilError::MissingTag),
            },
            _ => Err(AnvilError::WrongTag),
        }
    }
}

proof fn lemma_first_colon_at(s: Seq<char>, i: int, c: int)
    requires
        0 <= i <= c < s.len(),
        s[c] == ':',
        forall|j: int| i <= j < c ==> s[j] != ':',
    ensures
        first_colon(s, i) == Some(c),
    decreases c - i,
{
    if i < c {
        lemma_first_colon_at(s, i + 1, c);
    }
}

/// The combined name round-trips: splitting `namespace + ":" + id` on the
/// first colon recovers the namespace and the id exactly, for any namespace
/// free of colons — later colons inside `id` stay in the id.
pub proof fn lemma_name_round_trip(ns: Seq<char>, id: Seq<char>)
    requires
        forall|j: int| 0 <= j < ns.len() ==> ns[j] != ':',
    ensures
        split_name(ns + ":"@ + id) == Some((ns, id)),
{
    reveal_strlit(":");
    let s = ns + ":"@ + id;
    assert(s[ns.len() as int] == ':');
    lemma_first_colon_at(s, 0, ns.len() as int);
    assert(s.subrange(0, ns.len() as int) =~= ns);
    assert(s.subrange(ns.len() as int + 1, s.len() as int) =~= id);
}

} // verus!
