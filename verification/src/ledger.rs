//! The per-guild override ledger.
//!
//! Each guild owns two namespaces in the store, reached through one
//! [`GuildLedger`] handle: the canonical-name namespace records the name a
//! member should fall back to, and the override namespace records the name
//! this system last imposed on a member.  Both map an 8-byte big-endian
//! user-id key to the UTF-8 bytes of a name.
//!
//! Every write that must be all-or-nothing goes through one sled batch.
//! Storage faults are soft: a read that fails reports the value as absent,
//! a write that fails reports [`StoreError`], and no operation panics.

use vstd::prelude::*;
use vstd::utf8::decode_utf8;
use vstd::utf8::encode_utf8;
use vstd::utf8::valid_utf8;
use vstd::utf8::encode_utf8_valid_utf8;
use vstd::utf8::encode_utf8_decode_utf8;

use crate::keys::DbKey;
use crate::keys::be64;
use crate::keys::be_bytes_to_u64;
use crate::keys::lemma_be64_encode_decode;
use crate::keys::lemma_be64_injective;
use crate::keys::lemma_be64_roundtrip;
use crate::keys::canonical_tree_name;
use crate::keys::name_overrides_db_tree_name;
use crate::keys::overrides_tree_name;
use crate::keys::u64_to_be_bytes;
use crate::store::apply_writes;
use crate::store::batch_insert;
use crate::store::batch_new;
use crate::store::batch_remove;
use crate::store::batch_writes;
use crate::store::bytes_to_string;
use crate::store::db_open_tree;
use crate::store::db_tree_set;
use crate::store::empty_writes;
use crate::store::tree_apply_batch;
use crate::store::tree_contents;
use crate::store::tree_entries;
use crate::store::tree_get;
use crate::store::tree_insert;
use crate::store::tree_remove;
use vstd::string::StrSliceExecFns;
use vstd::string::StringSliceAdditionalSpecFns;

verus! {

/// A storage fault.  Per the error design every such fault is soft: the
/// caller logs it and carries on with a possibly stale ledger.
#[derive(Clone, Copy, PartialEq, Eq, Structural, Debug)]
pub struct StoreError {}

/// An empty namespace map.
pub open spec fn empty_names() -> Map<Seq<u8>, Seq<u8>> {
    Map::empty()
}

/// The name a namespace map records for a user: present only if the user's
/// key is there and its bytes are valid UTF-8 (anything else is malformed
/// and treated as absent).
pub open spec fn spec_lookup_name(m: Map<Seq<u8>, Seq<u8>>, user_id: u64) -> Option<Seq<char>> {
    if m.contains_key(be64(user_id)) && valid_utf8(m[be64(user_id)]) {
        Some(decode_utf8(m[be64(user_id)]))
    } else {
        None
    }
}

/// The entry list of an exec batch, as (user id, name) pairs.
pub open spec fn entries_view(s: Seq<(u64, String)>) -> Seq<(u64, Seq<char>)> {
    s.map_values(|p: (u64, String)| (p.0, p.1@))
}

/// A namespace map after writing each entry in order: every entry sets its
/// user's key to its name's UTF-8 bytes, a later entry winning over an
/// earlier one for the same user.
pub open spec fn spec_stage(
    m: Map<Seq<u8>, Seq<u8>>,
    entries: Seq<(u64, Seq<char>)>,
) -> Map<Seq<u8>, Seq<u8>>
    decreases entries.len(),
{
    if entries.len() == 0 {
        m
    } else {
        spec_stage(m, entries.drop_last()).insert(
            be64(entries.last().0),
            encode_utf8(entries.last().1),
        )
    }
}

/// The namespace map holding exactly the given entries.
pub open spec fn spec_entries_map(entries: Seq<(u64, Seq<char>)>) -> Map<Seq<u8>, Seq<u8>> {
    spec_stage(empty_names(), entries)
}

/// The staged writes of a batch that sets each entry in order.
pub open spec fn stage_writes(
    base: Map<Seq<u8>, Option<Seq<u8>>>,
    entries: Seq<(u64, Seq<char>)>,
) -> Map<Seq<u8>, Option<Seq<u8>>>
    decreases entries.len(),
{
    if entries.len() == 0 {
        base
    } else {
        stage_writes(base, entries.drop_last()).insert(
            be64(entries.last().0),
            Some(encode_utf8(entries.last().1)),
        )
    }
}

/// The staged writes of a batch that deletes each key in the list.
pub open spec fn remove_writes(keys: Seq<Seq<u8>>) -> Map<Seq<u8>, Option<Seq<u8>>>
    decreases keys.len(),
{
    if keys.len() == 0 {
        empty_writes()
    } else {
        remove_writes(keys.drop_last()).insert(keys.last(), None)
    }
}

/// The key of each raw store entry.
pub open spec fn keys_view(raw: Seq<(Vec<u8>, Vec<u8>)>) -> Seq<Seq<u8>> {
    raw.map_values(|p: (Vec<u8>, Vec<u8>)| p.0@)
}

proof fn lemma_apply_writes_insert(
    m: Map<Seq<u8>, Seq<u8>>,
    w: Map<Seq<u8>, Option<Seq<u8>>>,
    k: Seq<u8>,
    v: Seq<u8>,
)
    ensures
        apply_writes(m, w.insert(k, Some(v))) == apply_writes(m, w).insert(k, v),
{
    assert(apply_writes(m, w.insert(k, Some(v))) =~= apply_writes(m, w).insert(k, v));
}

proof fn lemma_apply_writes_remove(
    m: Map<Seq<u8>, Seq<u8>>,
    w: Map<Seq<u8>, Option<Seq<u8>>>,
    k: Seq<u8>,
)
    ensures
        apply_writes(m, w.insert(k, None)) == apply_writes(m, w).remove(k),
{
    assert(apply_writes(m, w.insert(k, None)) =~= apply_writes(m, w).remove(k));
}

proof fn lemma_apply_writes_empty(m: Map<Seq<u8>, Seq<u8>>)
    ensures
        apply_writes(m, empty_writes()) == m,
{
    assert(apply_writes(m, empty_writes()) =~= m);
}

/// Applying staged inserts on top of other writes stages the entries onto
/// the result of the other writes.
proof fn lemma_apply_stage_writes(
    m: Map<Seq<u8>, Seq<u8>>,
    w: Map<Seq<u8>, Option<Seq<u8>>>,
    entries: Seq<(u64, Seq<char>)>,
)
    ensures
        apply_writes(m, stage_writes(w, entries)) == spec_stage(apply_writes(m, w), entries),
    decreases entries.len(),
{
    if entries.len() > 0 {
        lemma_apply_stage_writes(m, w, entries.drop_last());
        lemma_apply_writes_insert(
            m,
            stage_writes(w, entries.drop_last()),
            be64(entries.last().0),
            encode_utf8(entries.last().1),
        );
    }
}

/// Applying staged deletes removes exactly the listed keys.
proof fn lemma_apply_remove_writes(m: Map<Seq<u8>, Seq<u8>>, keys: Seq<Seq<u8>>)
    ensures
        apply_writes(m, remove_writes(keys)) == m.remove_keys(keys.to_set()),
    decreases keys.len(),
{
    if keys.len() == 0 {
        lemma_apply_writes_empty(m);
        assert(m.remove_keys(keys.to_set()) =~= m);
    } else {
        let dl = keys.drop_last();
        lemma_apply_remove_writes(m, dl);
        lemma_apply_writes_remove(m, remove_writes(dl), keys.last());
        assert forall|x: Seq<u8>| #[trigger] keys.to_set().contains(x) implies dl.to_set().contains(
            x,
        ) || x == keys.last() by {
            let i = choose|i: int| 0 <= i < keys.len() && keys[i] == x;
            if i < keys.len() - 1 {
                assert(dl[i] == x);
            }
        }
        assert forall|x: Seq<u8>| dl.to_set().contains(x) implies keys.to_set().contains(x) by {
            let i = choose|i: int| 0 <= i < dl.len() && dl[i] == x;
            assert(keys[i] == x);
        }
        assert(keys.to_set().contains(keys.last()));
        assert(m.remove_keys(dl.to_set()).remove(keys.last()) =~= m.remove_keys(keys.to_set()));
    }
}

/// Law: staging entries and then looking up a user whose last entry records
/// a name returns exactly that name, whatever the namespace held before.
pub proof fn lemma_stage_then_lookup(
    m: Map<Seq<u8>, Seq<u8>>,
    entries: Seq<(u64, Seq<char>)>,
    i: int,
)
    requires
        0 <= i < entries.len(),
        forall|j: int| i < j < entries.len() ==> (#[trigger] entries[j]).0 != entries[i].0,
    ensures
        spec_lookup_name(spec_stage(m, entries), entries[i].0) == Some(entries[i].1),
    decreases entries.len(),
{
    broadcast use encode_utf8_valid_utf8;
    broadcast use encode_utf8_decode_utf8;

    if i == entries.len() - 1 {
        lemma_be64_roundtrip(entries[i].0);
    } else {
        lemma_stage_then_lookup(m, entries.drop_last(), i);
        lemma_be64_injective(entries.last().0, entries[i].0);
    }
}

/// Law: staging entries leaves a user with no entry exactly as the
/// namespace had them before; over an empty namespace they stay absent.
pub proof fn lemma_stage_absent(m: Map<Seq<u8>, Seq<u8>>, entries: Seq<(u64, Seq<char>)>, u: u64)
    requires
        forall|j: int| 0 <= j < entries.len() ==> (#[trigger] entries[j]).0 != u,
    ensures
        spec_lookup_name(spec_stage(m, entries), u) == spec_lookup_name(m, u),
    decreases entries.len(),
{
    if entries.len() > 0 {
        lemma_stage_absent(m, entries.drop_last(), u);
        lemma_be64_injective(entries.last().0, u);
    }
}

/// Whether a decoded listing faithfully presents a namespace: every
/// listed pair is recorded under its user's key, every well-formed record
/// (8-byte key, UTF-8 value) is listed, and no user is listed twice.
pub open spec fn wf_entry_listing(m: Map<Seq<u8>, Seq<u8>>, es: Seq<(u64, Seq<char>)>) -> bool {
    &&& forall|p: int|
        0 <= p < es.len() ==> spec_lookup_name(m, (#[trigger] es[p]).0) == Some(es[p].1)
    &&& forall|k: Seq<u8>|
        #[trigger] m.contains_key(k) && k.len() == 8 && valid_utf8(m[k]) ==> exists|p: int|
            0 <= p < es.len() && be64(es[p].0) == k
    &&& forall|p: int, q: int| 0 <= p < q < es.len() ==> es[p].0 != es[q].0
}

/// Decodes a raw namespace dump: keeps each entry with an 8-byte key and
/// UTF-8 value, skipping malformed ones as absent.
fn decode_name_entries(
    raw: &Vec<(Vec<u8>, Vec<u8>)>,
    Ghost(m): Ghost<Map<Seq<u8>, Seq<u8>>>,
) -> (r: Vec<(u64, String)>)
    requires
        forall|i: int|
            0 <= i < raw@.len() ==> m.contains_key((#[trigger] raw@[i]).0@) && m[raw@[i].0@]
                == raw@[i].1@,
        forall|k: Seq<u8>|
            #[trigger] m.contains_key(k) ==> exists|i: int|
                0 <= i < raw@.len() && (#[trigger] raw@[i]).0@ == k,
        forall|i: int, j: int| 0 <= i < j < raw@.len() ==> raw@[i].0@ != raw@[j].0@,
    ensures
        wf_entry_listing(m, entries_view(r@)),
{
    let mut out: Vec<(u64, String)> = Vec::new();
    let mut i: usize = 0;
    while i < raw.len()
        invariant
            i <= raw.len(),
            forall|ii: int|
                0 <= ii < raw@.len() ==> m.contains_key((#[trigger] raw@[ii]).0@)
                    && m[raw@[ii].0@] == raw@[ii].1@,
            forall|ii: int, j: int| 0 <= ii < j < raw@.len() ==> raw@[ii].0@ != raw@[j].0@,
            forall|p: int|
                0 <= p < out@.len() ==> spec_lookup_name(m, (#[trigger] out@[p]).0) == Some(
                    out@[p].1@,
                ),
            forall|p: int| #![trigger out@[p]]
                0 <= p < out@.len() ==> exists|ri: int|
                    0 <= ri < i && (#[trigger] raw@[ri]).0@ == be64(out@[p].0),
            forall|ri: int|
                0 <= ri < i && (#[trigger] raw@[ri]).0@.len() == 8 && valid_utf8(raw@[ri].1@)
                    ==> exists|p: int|
                    0 <= p < out@.len() && be64((#[trigger] out@[p]).0) == raw@[ri].0@,
            forall|p: int, q: int| 0 <= p < q < out@.len() ==> out@[p].0 != out@[q].0,
        decreases raw.len() - i,
    {
        match be_bytes_to_u64(&raw[i].0) {
            None => {
                proof {
                    assert(raw@[i as int].0@.len() != 8);
                    assert forall|p: int| #![trigger out@[p]]
                        0 <= p < out@.len() implies exists|ri: int|
                        0 <= ri < i + 1 && (#[trigger] raw@[ri]).0@ == be64(out@[p].0) by {
                        let ri = choose|ri: int|
                            0 <= ri < i && (#[trigger] raw@[ri]).0@ == be64(out@[p].0);
                        assert(0 <= ri < i + 1 && raw@[ri].0@ == be64(out@[p].0));
                    }
                }
            },
            Some(id) => {
                match bytes_to_string(&raw[i].1) {
                    None => {
                        proof {
                            assert(!valid_utf8(raw@[i as int].1@));
                            assert forall|p: int| #![trigger out@[p]]
                                0 <= p < out@.len() implies exists|ri: int|
                                0 <= ri < i + 1 && (#[trigger] raw@[ri]).0@ == be64(
                                    out@[p].0,
                                ) by {
                                let ri = choose|ri: int|
                                    0 <= ri < i && (#[trigger] raw@[ri]).0@ == be64(out@[p].0);
                                assert(0 <= ri < i + 1 && raw@[ri].0@ == be64(out@[p].0));
                            }
                        }
                    },
                    Some(name) => {
                        let ghost out0 = out@;
                        proof {
                            lemma_be64_encode_decode(raw@[i as int].0@);
                            assert(be64(id) == raw@[i as int].0@);
                            assert forall|p: int| 0 <= p < out0.len() implies (
                            #[trigger] out0[p]).0 != id by {
                                if out0[p].0 == id {
                                    let ri = choose|ri: int|
                                        0 <= ri < i && (#[trigger] raw@[ri]).0@ == be64(
                                            out0[p].0,
                                        );
                                    assert(raw@[ri].0@ == raw@[i as int].0@);
                                }
                            }
                        }
                        out.push((id, name));
                        proof {
                            assert(out@ == out0.push((id, name)));
                            assert forall|p: int| #![trigger out@[p]]
                                0 <= p < out@.len() implies exists|ri: int|
                                0 <= ri < i + 1 && (#[trigger] raw@[ri]).0@ == be64(
                                    out@[p].0,
                                ) by {
                                if p < out0.len() {
                                    assert(out@[p] == out0[p]);
                                    let ri = choose|ri: int|
                                        0 <= ri < i && (#[trigger] raw@[ri]).0@ == be64(
                                            out0[p].0,
                                        );
                                    assert(0 <= ri < i + 1 && raw@[ri].0@ == be64(out@[p].0));
                                } else {
                                    assert(out@[p] == (id, name));
                                    assert(raw@[i as int].0@ == be64(out@[p].0));
                                }
                            }
                            assert forall|ri: int|
                                0 <= ri < i + 1 && (#[trigger] raw@[ri]).0@.len() == 8
                                    && valid_utf8(raw@[ri].1@) implies exists|p: int|
                                0 <= p < out@.len() && be64((#[trigger] out@[p]).0)
                                    == raw@[ri].0@ by {
                                if ri < i {
                                    let p = choose|p: int|
                                        0 <= p < out0.len() && be64((#[trigger] out0[p]).0)
                                            == raw@[ri].0@;
                                    assert(out@[p] == out0[p]);
                                    assert(be64(out@[p].0) == raw@[ri].0@);
                                } else {
                                    let p = out0.len() as int;
                                    assert(out@[p] == (id, name));
                                    assert(be64(out@[p].0) == raw@[ri].0@);
                                }
                            }
                        }
                    },
                }
            },
        }
        i = i + 1;
    }
    proof {
        assert forall|k: Seq<u8>|
            #[trigger] m.contains_key(k) && k.len() == 8 && valid_utf8(m[k]) implies exists|
        p: int|
            0 <= p < entries_view(out@).len() && be64(entries_view(out@)[p].0) == k by {
            let i = choose|i: int| 0 <= i < raw@.len() && (#[trigger] raw@[i]).0@ == k;
            assert(raw@[i].1@ == m[k]);
            let p = choose|p: int|
                0 <= p < out@.len() && be64((#[trigger] out@[p]).0) == raw@[i].0@;
            assert(entries_view(out@)[p].0 == out@[p].0);
        }
        assert forall|p: int| 0 <= p < entries_view(out@).len() implies spec_lookup_name(
            m,
            (#[trigger] entries_view(out@)[p]).0,
        ) == Some(entries_view(out@)[p].1) by {
            assert(entries_view(out@)[p] == (out@[p].0, out@[p].1@));
        }
        assert forall|p: int, q: int| 0 <= p < q < entries_view(out@).len() implies entries_view(
            out@,
        )[p].0 != entries_view(out@)[q].0 by {
            assert(entries_view(out@)[p].0 == out@[p].0);
            assert(entries_view(out@)[q].0 == out@[q].0);
        }
    }
    out
}

/// One ledger entry: the store key and value for a member's name.
pub fn to_ledger_entry(user_id: u64, display_name: &String) -> (r: (Vec<u8>, Vec<u8>))
    ensures
        r.0@ == be64(user_id),
        r.1@ == encode_utf8(display_name@),
{
    (u64_to_be_bytes(user_id), display_name.as_str().as_bytes_vec())
}

/// The batch that stages one name write per entry, in order.
pub fn make_name_batch(entries: &Vec<(u64, String)>) -> (r: sled::Batch)
    ensures
        batch_writes(r) == stage_writes(empty_writes(), entries_view(entries@)),
{
    let mut b = batch_new();
    for i in 0..entries.len()
        invariant
            batch_writes(b) == stage_writes(empty_writes(), entries_view(entries@.take(i as int))),
    {
        let (k, v) = to_ledger_entry(entries[i].0, &entries[i].1);
        batch_insert(&mut b, &k, &v);
        proof {
            let evs = entries_view(entries@.take(i + 1));
            assert(evs.drop_last() =~= entries_view(entries@.take(i as int)));
            assert(evs.last() == (entries@[i as int].0, entries@[i as int].1@));
        }
    }
    proof {
        assert(entries@.take(entries@.len() as int) =~= entries@);
    }
    b
}

/// The name recorded for a user in one store tree, decoded; a missing key,
/// malformed bytes, or a read fault all come back as absence.
pub fn get_name(tree: &sled::Tree, user_id: DbKey) -> (r: Option<String>)
    ensures
        r matches Some(s) ==> spec_lookup_name(tree_contents(*tree), user_id.id) == Some(s@),
        spec_lookup_name(tree_contents(*tree), user_id.id) is None ==> r is None,
{
    let key = user_id.encoded();
    match tree_get(tree, &key) {
        Err(_) => None,
        Ok(None) => None,
        Ok(Some(bytes)) => bytes_to_string(&bytes),
    }
}

/// One guild's ledger: its canonical-name namespace and its override
/// namespace, each reached through a single handle.
pub struct GuildLedger {
    guild_id: u64,
    names_tree: sled::Tree,
    over_tree: sled::Tree,
}

impl GuildLedger {
    /// The guild this ledger belongs to.
    pub closed spec fn guild(self) -> u64 {
        self.guild_id
    }

    /// The guild this ledger belongs to.
    pub fn guild_id(&self) -> (r: u64)
        ensures
            r == self.guild(),
    {
        self.guild_id
    }

    /// The canonical-name namespace: user key to canonical-name bytes.
    pub closed spec fn canonical(self) -> Map<Seq<u8>, Seq<u8>> {
        tree_contents(self.names_tree)
    }

    /// The override namespace: user key to the name this system imposed.
    pub closed spec fn overrides(self) -> Map<Seq<u8>, Seq<u8>> {
        tree_contents(self.over_tree)
    }

    /// Opens (creating if missing) the guild's two namespaces.  What they
    /// hold is whatever the store holds on disk.
    pub fn open(db: &mut sled::Db, guild_id: u64) -> (r: Result<GuildLedger, StoreError>)
        ensures
            r matches Ok(l) ==> l.guild() == guild_id && db_tree_set(*final(db)) == db_tree_set(
                *old(db),
            ).insert(canonical_tree_name(guild_id)).insert(overrides_tree_name(guild_id)),
            r is Err ==> db_tree_set(*final(db)) == db_tree_set(*old(db)) || db_tree_set(
                *final(db),
            ) == db_tree_set(*old(db)).insert(canonical_tree_name(guild_id)) || db_tree_set(
                *final(db),
            ) == db_tree_set(*old(db)).insert(canonical_tree_name(guild_id)).insert(
                overrides_tree_name(guild_id),
            ),
    {
        let names_name = u64_to_be_bytes(guild_id);
        let names_tree = match db_open_tree(db, &names_name) {
            Ok(t) => t,
            Err(_) => {
                return Err(StoreError {});
            },
        };
        let over_name = name_overrides_db_tree_name(guild_id);
        let over_tree = match db_open_tree(db, &over_name) {
            Ok(t) => t,
            Err(_) => {
                return Err(StoreError {});
            },
        };
        Ok(GuildLedger { guild_id, names_tree, over_tree })
    }

    /// The canonical name recorded for a member, if one is recorded,
    /// readable, and well formed.
    pub fn get_original(&self, user_id: u64) -> (r: Option<String>)
        ensures
            r matches Some(s) ==> spec_lookup_name(self.canonical(), user_id) == Some(s@),
            spec_lookup_name(self.canonical(), user_id) is None ==> r is None,
    {
        get_name(&self.names_tree, DbKey::from_u64(user_id))
    }

    /// The override name recorded for a member, if one is recorded,
    /// readable, and well formed.
    pub fn get_override(&self, user_id: u64) -> (r: Option<String>)
        ensures
            r matches Some(s) ==> spec_lookup_name(self.overrides(), user_id) == Some(s@),
            spec_lookup_name(self.overrides(), user_id) is None ==> r is None,
    {
        get_name(&self.over_tree, DbKey::from_u64(user_id))
    }

    /// Whether the member's live display name is one this system imposed:
    /// true only when the override namespace records exactly that name.
    pub fn has_overridden_name(&self, user_id: u64, display_name: &String) -> (r: bool)
        ensures
            r ==> spec_lookup_name(self.overrides(), user_id) == Some(display_name@),
            spec_lookup_name(self.overrides(), user_id) is None ==> !r,
    {
        match self.get_override(user_id) {
            Some(n) => n == *display_name,
            None => false,
        }
    }

    /// Atomically stages every entry into the canonical-name namespace:
    /// all of them land, or (on a storage fault) none need have landed.
    /// The override namespace is untouched either way.
    pub fn record_batch(&mut self, entries: &Vec<(u64, String)>) -> (r: Result<(), StoreError>)
        ensures
            final(self).guild() == old(self).guild(),
            final(self).overrides() == old(self).overrides(),
            r is Ok ==> final(self).canonical() == spec_stage(
                old(self).canonical(),
                entries_view(entries@),
            ),
    {
        let b = make_name_batch(entries);
        match tree_apply_batch(&mut self.names_tree, b) {
            Ok(()) => {
                proof {
                    lemma_apply_writes_empty(old(self).canonical());
                    lemma_apply_stage_writes(
                        old(self).canonical(),
                        empty_writes(),
                        entries_view(entries@),
                    );
                }
                Ok(())
            },
            Err(_) => Err(StoreError {}),
        }
    }

    /// Atomically replaces the whole override namespace with exactly the
    /// given entries — a destructive swap, not a merge.  The canonical
    /// namespace is untouched either way.
    pub fn clear_and_stage_overrides(&mut self, entries: &Vec<(u64, String)>) -> (r: Result<
        (),
        StoreError,
    >)
        ensures
            final(self).guild() == old(self).guild(),
            final(self).canonical() == old(self).canonical(),
            r is Ok ==> final(self).overrides() == spec_entries_map(entries_view(entries@)),
    {
        let existing = match tree_entries(&self.over_tree) {
            Ok(es) => es,
            Err(_) => {
                return Err(StoreError {});
            },
        };
        let mut b = batch_new();
        for i in 0..existing.len()
            invariant
                batch_writes(b) == remove_writes(keys_view(existing@.take(i as int))),
        {
            batch_remove(&mut b, &existing[i].0);
            proof {
                let kv = keys_view(existing@.take(i + 1));
                assert(kv.drop_last() =~= keys_view(existing@.take(i as int)));
                assert(kv.last() == existing@[i as int].0@);
            }
        }
        proof {
            assert(existing@.take(existing@.len() as int) =~= existing@);
        }
        for j in 0..entries.len()
            invariant
                batch_writes(b) == stage_writes(
                    remove_writes(keys_view(existing@)),
                    entries_view(entries@.take(j as int)),
                ),
        {
            let (k, v) = to_ledger_entry(entries[j].0, &entries[j].1);
            batch_insert(&mut b, &k, &v);
            proof {
                let evs = entries_view(entries@.take(j + 1));
                assert(evs.drop_last() =~= entries_view(entries@.take(j as int)));
                assert(evs.last() == (entries@[j as int].0, entries@[j as int].1@));
            }
        }
        proof {
            assert(entries@.take(entries@.len() as int) =~= entries@);
        }
        match tree_apply_batch(&mut self.over_tree, b) {
            Ok(()) => {
                proof {
                    let m = old(self).overrides();
                    let ks = keys_view(existing@);
                    lemma_apply_stage_writes(m, remove_writes(ks), entries_view(entries@));
                    lemma_apply_remove_writes(m, ks);
                    assert forall|x: Seq<u8>| m.contains_key(x) implies ks.to_set().contains(
                        x,
                    ) by {
                        let i = choose|i: int|
                            0 <= i < existing@.len() && existing@[i].0@ == x;
                        assert(ks[i] == x);
                    }
                    assert(m.remove_keys(ks.to_set()) =~= empty_names());
                }
                Ok(())
            },
            Err(_) => Err(StoreError {}),
        }
    }

    /// Deletes a member's entries from both namespaces, for departure or a
    /// finished restoration.
    pub fn remove_member(&mut self, user_id: u64) -> (r: Result<(), StoreError>)
        ensures
            final(self).guild() == old(self).guild(),
            r is Ok ==> final(self).overrides() == old(self).overrides().remove(be64(user_id))
                && final(self).canonical() == old(self).canonical().remove(be64(user_id)),
    {
        let key = u64_to_be_bytes(user_id);
        match tree_remove(&mut self.over_tree, &key) {
            Ok(()) => {},
            Err(_) => {
                return Err(StoreError {});
            },
        }
        match tree_remove(&mut self.names_tree, &key) {
            Ok(()) => Ok(()),
            Err(_) => Err(StoreError {}),
        }
    }

    /// Every well-formed canonical-name entry, decoded; a malformed key
    /// or value is skipped as absent, and a failed read reports the fault.
    pub fn canonical_entries(&self) -> (r: Result<Vec<(u64, String)>, StoreError>)
        ensures
            r matches Ok(es) ==> wf_entry_listing(self.canonical(), entries_view(es@)),
    {
        match tree_entries(&self.names_tree) {
            Ok(raw) => Ok(decode_name_entries(&raw, Ghost(tree_contents(self.names_tree)))),
            Err(_) => Err(StoreError {}),
        }
    }

    /// Every well-formed active-override entry, decoded; a malformed key
    /// or value is skipped as absent, and a failed read reports the fault.
    pub fn override_entries(&self) -> (r: Result<Vec<(u64, String)>, StoreError>)
        ensures
            r matches Ok(es) ==> wf_entry_listing(self.overrides(), entries_view(es@)),
    {
        match tree_entries(&self.over_tree) {
            Ok(raw) => Ok(decode_name_entries(&raw, Ghost(tree_contents(self.over_tree)))),
            Err(_) => Err(StoreError {}),
        }
    }

    /// The operator maintenance write: directly records one member's
    /// canonical name.
    pub fn set_canonical_name(&mut self, user_id: u64, name: &String) -> (r: Result<
        (),
        StoreError,
    >)
        ensures
            final(self).guild() == old(self).guild(),
            final(self).overrides() == old(self).overrides(),
            r is Ok ==> final(self).canonical() == old(self).canonical().insert(
                be64(user_id),
                encode_utf8(name@),
            ),
    {
        let (k, v) = to_ledger_entry(user_id, name);
        match tree_insert(&mut self.names_tree, &k, &v) {
            Ok(()) => Ok(()),
            Err(_) => Err(StoreError {}),
        }
    }

    /// Deletes only the member's override entry — used once an override has
    /// been examined by restoration, whatever the revert's outcome.
    pub fn remove_override(&mut self, user_id: u64) -> (r: Result<(), StoreError>)
        ensures
            final(self).guild() == old(self).guild(),
            final(self).canonical() == old(self).canonical(),
            r is Ok ==> final(self).overrides() == old(self).overrides().remove(be64(user_id)),
    {
        let key = u64_to_be_bytes(user_id);
        match tree_remove(&mut self.over_tree, &key) {
            Ok(()) => Ok(()),
            Err(_) => Err(StoreError {}),
        }
    }
}

} // verus!
