//! Fixed-width keys and namespace names for the ledger store.
//!
//! Every member entry is keyed by the 8-byte big-endian encoding of the
//! member's user id.  A guild's canonical-name namespace is named by the
//! 8-byte encoding of the guild id; its override namespace is named by a
//! 9-byte value: the byte `o` followed by the same 8 bytes.  The widths
//! differ, so the two kinds of namespace name can never collide, and both
//! encodings are injective, so namespaces of distinct guilds are distinct.

use vstd::prelude::*;

verus! {

/// Big-endian byte encoding of a 64-bit id, most significant byte first.
pub open spec fn be64(v: u64) -> Seq<u8> {
    seq![
        (v >> 56) as u8,
        (v >> 48) as u8,
        (v >> 40) as u8,
        (v >> 32) as u8,
        (v >> 24) as u8,
        (v >> 16) as u8,
        (v >> 8) as u8,
        v as u8,
    ]
}

/// The 64-bit id read back from 8 big-endian bytes.
pub open spec fn be64_decode(s: Seq<u8>) -> u64 {
    (((s[0] as u64) << 56) | ((s[1] as u64) << 48) | ((s[2] as u64) << 40)
        | ((s[3] as u64) << 32) | ((s[4] as u64) << 24) | ((s[5] as u64) << 16)
        | ((s[6] as u64) << 8) | (s[7] as u64)) as u64
}

/// Decoding inverts encoding, so an id survives a trip through the store.
pub proof fn lemma_be64_roundtrip(v: u64)
    ensures
        be64_decode(be64(v)) == v,
{
    assert((((((v >> 56) as u8) as u64) << 56) | ((((v >> 48) as u8) as u64) << 48)
        | ((((v >> 40) as u8) as u64) << 40) | ((((v >> 32) as u8) as u64) << 32)
        | ((((v >> 24) as u8) as u64) << 24) | ((((v >> 16) as u8) as u64) << 16)
        | ((((v >> 8) as u8) as u64) << 8) | ((v as u8) as u64)) as u64 == v) by (bit_vector);
}

/// Encoding inverts decoding on 8-byte keys, so a raw store key is the
/// encoding of exactly the id it decodes to.
pub proof fn lemma_be64_encode_decode(s: Seq<u8>)
    requires
        s.len() == 8,
    ensures
        be64(be64_decode(s)) == s,
{
    let b0 = s[0];
    let b1 = s[1];
    let b2 = s[2];
    let b3 = s[3];
    let b4 = s[4];
    let b5 = s[5];
    let b6 = s[6];
    let b7 = s[7];
    let v = be64_decode(s);
    assert(v == (((b0 as u64) << 56) | ((b1 as u64) << 48) | ((b2 as u64) << 40) | ((b3
        as u64) << 32) | ((b4 as u64) << 24) | ((b5 as u64) << 16) | ((b6 as u64) << 8) | (b7
        as u64)) as u64);
    assert((((((b0 as u64) << 56) | ((b1 as u64) << 48) | ((b2 as u64) << 40) | ((b3 as u64)
        << 32) | ((b4 as u64) << 24) | ((b5 as u64) << 16) | ((b6 as u64) << 8) | (b7 as u64))
        as u64 >> 56) as u8) == b0) by (bit_vector);
    assert((((((b0 as u64) << 56) | ((b1 as u64) << 48) | ((b2 as u64) << 40) | ((b3 as u64)
        << 32) | ((b4 as u64) << 24) | ((b5 as u64) << 16) | ((b6 as u64) << 8) | (b7 as u64))
        as u64 >> 48) as u8) == b1) by (bit_vector);
    assert((((((b0 as u64) << 56) | ((b1 as u64) << 48) | ((b2 as u64) << 40) | ((b3 as u64)
        << 32) | ((b4 as u64) << 24) | ((b5 as u64) << 16) | ((b6 as u64) << 8) | (b7 as u64))
        as u64 >> 40) as u8) == b2) by (bit_vector);
    assert((((((b0 as u64) << 56) | ((b1 as u64) << 48) | ((b2 as u64) << 40) | ((b3 as u64)
        << 32) | ((b4 as u64) << 24) | ((b5 as u64) << 16) | ((b6 as u64) << 8) | (b7 as u64))
        as u64 >> 32) as u8) == b3) by (bit_vector);
    assert((((((b0 as u64) << 56) | ((b1 as u64) << 48) | ((b2 as u64) << 40) | ((b3 as u64)
        << 32) | ((b4 as u64) << 24) | ((b5 as u64) << 16) | ((b6 as u64) << 8) | (b7 as u64))
        as u64 >> 24) as u8) == b4) by (bit_vector);
    assert((((((b0 as u64) << 56) | ((b1 as u64) << 48) | ((b2 as u64) << 40) | ((b3 as u64)
        << 32) | ((b4 as u64) << 24) | ((b5 as u64) << 16) | ((b6 as u64) << 8) | (b7 as u64))
        as u64 >> 16) as u8) == b5) by (bit_vector);
    assert((((((b0 as u64) << 56) | ((b1 as u64) << 48) | ((b2 as u64) << 40) | ((b3 as u64)
        << 32) | ((b4 as u64) << 24) | ((b5 as u64) << 16) | ((b6 as u64) << 8) | (b7 as u64))
        as u64 >> 8) as u8) == b6) by (bit_vector);
    assert((((((b0 as u64) << 56) | ((b1 as u64) << 48) | ((b2 as u64) << 40) | ((b3 as u64)
        << 32) | ((b4 as u64) << 24) | ((b5 as u64) << 16) | ((b6 as u64) << 8) | (b7 as u64))
        as u64 as u8) == b7)) by (bit_vector);
    assert(be64(v) =~= s);
}

/// Distinct ids get distinct keys.
pub proof fn lemma_be64_injective(a: u64, b: u64)
    ensures
        be64(a) == be64(b) ==> a == b,
{
    if be64(a) == be64(b) {
        lemma_be64_roundtrip(a);
        lemma_be64_roundtrip(b);
    }
}

/// The 8-byte big-endian key for an id.
pub fn u64_to_be_bytes(v: u64) -> (r: Vec<u8>)
    ensures
        r@ == be64(v),
{
    let mut r: Vec<u8> = Vec::new();
    r.push((v >> 56) as u8);
    r.push((v >> 48) as u8);
    r.push((v >> 40) as u8);
    r.push((v >> 32) as u8);
    r.push((v >> 24) as u8);
    r.push((v >> 16) as u8);
    r.push((v >> 8) as u8);
    r.push(v as u8);
    proof {
        assert(r@ =~= be64(v));
    }
    r
}

/// Reads an id back from an 8-byte key; any other width is malformed.
pub fn be_bytes_to_u64(b: &Vec<u8>) -> (r: Option<u64>)
    ensures
        b@.len() == 8 ==> r == Some(be64_decode(b@)),
        b@.len() != 8 ==> r is None,
{
    if b.len() != 8 {
        return None;
    }
    Some(
        ((b[0] as u64) << 56) | ((b[1] as u64) << 48) | ((b[2] as u64) << 40)
            | ((b[3] as u64) << 32) | ((b[4] as u64) << 24) | ((b[5] as u64) << 16)
            | ((b[6] as u64) << 8) | (b[7] as u64),
    )
}

/// A store key: a user or guild id, written as 8 big-endian bytes.
#[derive(Clone, Copy, Debug, PartialEq, Eq, Structural)]
pub struct DbKey {
    pub id: u64,
}

impl DbKey {
    /// The bytes this key occupies in the store.
    pub open spec fn spec_bytes(self) -> Seq<u8> {
        be64(self.id)
    }

    pub fn from_u64(id: u64) -> (r: DbKey)
        ensures
            r.id == id,
    {
        DbKey { id }
    }

    pub fn encoded(&self) -> (r: Vec<u8>)
        ensures
            r@ == self.spec_bytes(),
    {
        u64_to_be_bytes(self.id)
    }

    /// Reads a key back from raw store bytes; widths other than 8 are malformed.
    pub fn parse(bytes: &Vec<u8>) -> (r: Option<DbKey>)
        ensures
            bytes@.len() == 8 ==> r == Some(DbKey { id: be64_decode(bytes@) }),
            bytes@.len() != 8 ==> r is None,
    {
        match be_bytes_to_u64(bytes) {
            Some(id) => Some(DbKey { id }),
            None => None,
        }
    }
}

/// The marker byte that starts every override-namespace name.
pub const OVERRIDE_NAME_TAG: u8 = 111;

/// The name of a guild's canonical-name namespace: the bare 8-byte guild key.
pub open spec fn canonical_tree_name(guild_id: u64) -> Seq<u8> {
    be64(guild_id)
}

/// The name of a guild's override namespace: a tag byte, then the guild key.
pub open spec fn overrides_tree_name(guild_id: u64) -> Seq<u8> {
    seq![OVERRIDE_NAME_TAG] + be64(guild_id)
}

/// The 9-byte name of the namespace that tracks a guild's active overrides.
pub fn name_overrides_db_tree_name(guild_id: u64) -> (r: Vec<u8>)
    ensures
        r@ == overrides_tree_name(guild_id),
{
    let mut r: Vec<u8> = Vec::new();
    r.push(OVERRIDE_NAME_TAG);
    let mut key = u64_to_be_bytes(guild_id);
    r.append(&mut key);
    proof {
        assert(r@ =~= overrides_tree_name(guild_id));
    }
    r
}

/// A canonical namespace name can never be mistaken for an override
/// namespace name: the widths differ.
pub proof fn lemma_namespace_kinds_distinct(g1: u64, g2: u64)
    ensures
        canonical_tree_name(g1) != overrides_tree_name(g2),
{
    assert(canonical_tree_name(g1).len() == 8);
    assert(overrides_tree_name(g2).len() == 9);
}

/// Override namespaces of distinct guilds are distinct.
pub proof fn lemma_overrides_name_injective(g1: u64, g2: u64)
    ensures
        overrides_tree_name(g1) == overrides_tree_name(g2) ==> g1 == g2,
{
    if overrides_tree_name(g1) == overrides_tree_name(g2) {
        assert(overrides_tree_name(g1).subrange(1, 9) =~= be64(g1));
        assert(overrides_tree_name(g2).subrange(1, 9) =~= be64(g2));
        lemma_be64_injective(g1, g2);
    }
}

} // verus!
