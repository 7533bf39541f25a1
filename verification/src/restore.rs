//! The restoration service: one-shot routines that undo bot-imposed
//! overrides, never looping.
//!
//! Full restore walks every guild namespace the store holds, issues a
//! rename back to every recorded canonical name, and then drops the
//! guild's override-tracking state.  Overridden-only restore examines
//! each active override entry against the member's live display name,
//! reverts to canonical only when the live name still equals the recorded
//! override (so a later human change is never clobbered), and retires
//! every examined entry whatever the revert's outcome.
//!
//! The caller performs the external calls: it fetches live names, issues
//! the returned rename commands with bounded fan-out, and treats each
//! failure as log-and-skip.
//!
//! A malformed override record (a key that is not 8 bytes wide, or a
//! value that is not UTF-8) is never listed, so the overridden-only run
//! never examines or retires it and it survives the run; only full
//! restore's teardown, which drops the whole namespace, cleans such
//! garbage out.

use vstd::prelude::*;
use vstd::utf8::valid_utf8;

use crate::assign::view_opt;
use crate::keys::OVERRIDE_NAME_TAG;
use crate::keys::be64;
use crate::keys::be_bytes_to_u64;
use crate::keys::canonical_tree_name;
use crate::keys::lemma_be64_encode_decode;
use crate::keys::lemma_be64_injective;
use crate::keys::lemma_be64_roundtrip;
use crate::keys::name_overrides_db_tree_name;
use crate::keys::overrides_tree_name;
use crate::ledger::GuildLedger;
use crate::ledger::StoreError;
use crate::ledger::empty_names;
use crate::ledger::entries_view;
use crate::ledger::spec_lookup_name;
use crate::ledger::wf_entry_listing;
use crate::store::db_drop_tree;
use crate::store::db_tree_names;
use crate::store::db_tree_set;
use crate::keys::be64_decode;

verus! {

/// A rename the restoration service asks the platform to perform.
pub struct RenameCmd {
    /// The guild in which to rename.
    pub guild_id: u64,
    /// The member to rename.
    pub user_id: u64,
    /// The name to set.
    pub name: String,
}

/// Whether a raw tree name has the shape of an override namespace name.
pub open spec fn is_overrides_name(s: Seq<u8>) -> bool {
    s.len() == 9 && s[0] == OVERRIDE_NAME_TAG
}

/// Reads a guild id back from a canonical namespace name; every 8-byte
/// name is one.
pub fn parse_canonical_name(name: &Vec<u8>) -> (r: Option<u64>)
    ensures
        match r {
            Some(g) => name@ == canonical_tree_name(g),
            None => forall|g: u64| name@ != canonical_tree_name(g),
        },
{
    match be_bytes_to_u64(name) {
        Some(g) => {
            proof {
                lemma_be64_encode_decode(name@);
            }
            Some(g)
        },
        None => {
            proof {
                assert forall|g: u64| name@ != canonical_tree_name(g) by {
                    assert(canonical_tree_name(g).len() == 8);
                }
            }
            None
        },
    }
}

/// Reads a guild id back from an override namespace name: nine bytes, the
/// tag byte first, then the guild key.
pub fn parse_overrides_name(name: &Vec<u8>) -> (r: Option<u64>)
    ensures
        match r {
            Some(g) => name@ == overrides_tree_name(g),
            None => forall|g: u64| name@ != overrides_tree_name(g),
        },
{
    if name.len() != 9 || name[0] != OVERRIDE_NAME_TAG {
        proof {
            assert forall|g: u64| name@ != overrides_tree_name(g) by {
                assert(overrides_tree_name(g).len() == 9);
                assert(overrides_tree_name(g)[0] == OVERRIDE_NAME_TAG);
            }
        }
        return None;
    }
    let mut suffix: Vec<u8> = Vec::new();
    suffix.push(name[1]);
    suffix.push(name[2]);
    suffix.push(name[3]);
    suffix.push(name[4]);
    suffix.push(name[5]);
    suffix.push(name[6]);
    suffix.push(name[7]);
    suffix.push(name[8]);
    proof {
        assert(suffix@ =~= name@.subrange(1, 9));
    }
    match be_bytes_to_u64(&suffix) {
        Some(g) => {
            proof {
                lemma_be64_encode_decode(suffix@);
                assert(name@ =~= overrides_tree_name(g));
            }
            Some(g)
        },
        None => {
            proof {
                assert(false);
            }
            None
        },
    }
}

/// The byte sequence of each raw tree name.
pub open spec fn names_view(names: Seq<Vec<u8>>) -> Seq<Seq<u8>> {
    names.map_values(|v: Vec<u8>| v@)
}

/// The guilds whose canonical namespace a name list mentions, in list
/// order: every 8-byte name is one guild's canonical namespace name.
pub open spec fn spec_canonical_guilds(names: Seq<Seq<u8>>) -> Seq<u64>
    decreases names.len(),
{
    if names.len() == 0 {
        Seq::empty()
    } else {
        let rest = spec_canonical_guilds(names.drop_last());
        if names.last().len() == 8 {
            rest.push(crate::keys::be64_decode(names.last()))
        } else {
            rest
        }
    }
}

/// The guilds whose override namespace a name list mentions, in list
/// order: every 9-byte name starting with the tag byte is one.
pub open spec fn spec_override_guilds(names: Seq<Seq<u8>>) -> Seq<u64>
    decreases names.len(),
{
    if names.len() == 0 {
        Seq::empty()
    } else {
        let rest = spec_override_guilds(names.drop_last());
        if is_overrides_name(names.last()) {
            rest.push(crate::keys::be64_decode(names.last().subrange(1, 9)))
        } else {
            rest
        }
    }
}

/// Splits raw store tree names into guild canonical namespaces and guild
/// override namespaces, by id; any other name (such as the store's
/// default tree) is left alone.
pub fn classify_tree_names(names: &Vec<Vec<u8>>) -> (r: (Vec<u64>, Vec<u64>))
    ensures
        r.0@ == spec_canonical_guilds(names_view(names@)),
        r.1@ == spec_override_guilds(names_view(names@)),
{
    let mut guilds: Vec<u64> = Vec::new();
    let mut over_guilds: Vec<u64> = Vec::new();
    let mut j: usize = 0;
    while j < names.len()
        invariant
            j <= names.len(),
            guilds@ == spec_canonical_guilds(names_view(names@.take(j as int))),
            over_guilds@ == spec_override_guilds(names_view(names@.take(j as int))),
        decreases names.len() - j,
    {
        match parse_canonical_name(&names[j]) {
            Some(g) => {
                proof {
                    lemma_be64_roundtrip(g);
                }
                guilds.push(g);
            },
            None => {
                match parse_overrides_name(&names[j]) {
                    Some(g) => {
                        proof {
                            assert(names@[j as int]@.subrange(1, 9) =~= be64(g));
                            lemma_be64_roundtrip(g);
                        }
                        over_guilds.push(g);
                    },
                    None => {
                        proof {
                            assert(names@[j as int]@.len() != 8) by {
                                if names@[j as int]@.len() == 8 {
                                    let g = crate::keys::be64_decode(names@[j as int]@);
                                    lemma_be64_encode_decode(names@[j as int]@);
                                    assert(names@[j as int]@ == canonical_tree_name(g));
                                }
                            }
                            assert(!is_overrides_name(names@[j as int]@)) by {
                                if is_overrides_name(names@[j as int]@) {
                                    let s = names@[j as int]@.subrange(1, 9);
                                    let g = crate::keys::be64_decode(s);
                                    lemma_be64_encode_decode(s);
                                    assert(names@[j as int]@ =~= overrides_tree_name(g));
                                }
                            }
                        }
                    },
                }
            },
        }
        proof {
            let nv1 = names_view(names@.take(j + 1));
            assert(nv1.drop_last() =~= names_view(names@.take(j as int)));
            assert(nv1.last() == names@[j as int]@);
        }
        j = j + 1;
    }
    proof {
        assert(names@.take(names@.len() as int) =~= names@);
    }
    (guilds, over_guilds)
}

/// Every listed canonical guild comes from a listed 8-byte name.
proof fn lemma_canonical_guilds_sound(names: Seq<Seq<u8>>)
    ensures
        forall|p: int|
            0 <= p < spec_canonical_guilds(names).len() ==> names.contains(
                canonical_tree_name(#[trigger] spec_canonical_guilds(names)[p]),
            ),
    decreases names.len(),
{
    if names.len() > 0 {
        let s = spec_canonical_guilds(names);
        let rest = spec_canonical_guilds(names.drop_last());
        lemma_canonical_guilds_sound(names.drop_last());
        assert forall|p: int| 0 <= p < s.len() implies names.contains(
            canonical_tree_name(#[trigger] s[p]),
        ) by {
            if p < rest.len() {
                assert(s[p] == rest[p]);
                let j = choose|j: int|
                    0 <= j < names.drop_last().len() && names.drop_last()[j]
                        == canonical_tree_name(rest[p]);
                assert(names[j] == canonical_tree_name(s[p]));
            } else {
                lemma_be64_encode_decode(names.last());
                assert(canonical_tree_name(s[p]) == names.last());
                assert(names[names.len() - 1] == canonical_tree_name(s[p]));
            }
        }
    }
}

/// Every listed override guild comes from a listed tagged 9-byte name.
proof fn lemma_override_guilds_sound(names: Seq<Seq<u8>>)
    ensures
        forall|p: int|
            0 <= p < spec_override_guilds(names).len() ==> names.contains(
                overrides_tree_name(#[trigger] spec_override_guilds(names)[p]),
            ),
    decreases names.len(),
{
    if names.len() > 0 {
        let s = spec_override_guilds(names);
        let rest = spec_override_guilds(names.drop_last());
        lemma_override_guilds_sound(names.drop_last());
        assert forall|p: int| 0 <= p < s.len() implies names.contains(
            overrides_tree_name(#[trigger] s[p]),
        ) by {
            if p < rest.len() {
                assert(s[p] == rest[p]);
                let j = choose|j: int|
                    0 <= j < names.drop_last().len() && names.drop_last()[j]
                        == overrides_tree_name(rest[p]);
                assert(names[j] == overrides_tree_name(s[p]));
            } else {
                let suffix = names.last().subrange(1, 9);
                lemma_be64_encode_decode(suffix);
                assert(overrides_tree_name(s[p]) =~= names.last());
                assert(names[names.len() - 1] == overrides_tree_name(s[p]));
            }
        }
    }
}

/// Every listed 8-byte name contributes its guild to the canonical list.
proof fn lemma_canonical_guilds_complete(names: Seq<Seq<u8>>, j: int)
    requires
        0 <= j < names.len(),
        names[j].len() == 8,
    ensures
        spec_canonical_guilds(names).contains(be64_decode(names[j])),
    decreases names.len(),
{
    let s = spec_canonical_guilds(names);
    if j == names.len() - 1 {
        assert(s[s.len() - 1] == be64_decode(names.last()));
    } else {
        assert(names.drop_last()[j] == names[j]);
        lemma_canonical_guilds_complete(names.drop_last(), j);
        let rest = spec_canonical_guilds(names.drop_last());
        let p = choose|p: int| 0 <= p < rest.len() && rest[p] == be64_decode(names[j]);
        assert(s[p] == rest[p]);
    }
}

/// Every listed override-shaped name contributes its guild to the list.
proof fn lemma_override_guilds_complete(names: Seq<Seq<u8>>, j: int)
    requires
        0 <= j < names.len(),
        is_overrides_name(names[j]),
    ensures
        spec_override_guilds(names).contains(be64_decode(names[j].subrange(1, 9))),
    decreases names.len(),
{
    let s = spec_override_guilds(names);
    if j == names.len() - 1 {
        assert(s[s.len() - 1] == be64_decode(names.last().subrange(1, 9)));
    } else {
        assert(names.drop_last()[j] == names[j]);
        lemma_override_guilds_complete(names.drop_last(), j);
        let rest = spec_override_guilds(names.drop_last());
        let p = choose|p: int|
            0 <= p < rest.len() && rest[p] == be64_decode(names[j].subrange(1, 9));
        assert(s[p] == rest[p]);
    }
}

/// Distinct names yield distinct canonical guilds.
proof fn lemma_canonical_guilds_distinct(names: Seq<Seq<u8>>)
    requires
        forall|i: int, j: int| 0 <= i < j < names.len() ==> names[i] != names[j],
    ensures
        forall|p: int, q: int|
            0 <= p < q < spec_canonical_guilds(names).len() ==> spec_canonical_guilds(names)[p]
                != spec_canonical_guilds(names)[q],
    decreases names.len(),
{
    if names.len() > 0 {
        let s = spec_canonical_guilds(names);
        let rest = spec_canonical_guilds(names.drop_last());
        assert forall|i: int, j: int|
            0 <= i < j < names.drop_last().len() implies names.drop_last()[i]
            != names.drop_last()[j] by {
            assert(names.drop_last()[i] == names[i] && names.drop_last()[j] == names[j]);
        }
        lemma_canonical_guilds_distinct(names.drop_last());
        lemma_canonical_guilds_sound(names.drop_last());
        assert forall|p: int, q: int| 0 <= p < q < s.len() implies s[p] != s[q] by {
            if q == s.len() - 1 && s.len() > rest.len() {
                if s[p] == s[q] {
                    assert(rest[p] == be64_decode(names.last()));
                    lemma_be64_encode_decode(names.last());
                    assert(canonical_tree_name(rest[p]) == names.last());
                    let j = choose|j: int|
                        0 <= j < names.drop_last().len() && names.drop_last()[j]
                            == canonical_tree_name(rest[p]);
                    assert(names[j] == names[names.len() - 1]);
                }
            } else {
                assert(s[p] == rest[p] && s[q] == rest[q]);
            }
        }
    }
}

/// Distinct names yield distinct override guilds.
proof fn lemma_override_guilds_distinct(names: Seq<Seq<u8>>)
    requires
        forall|i: int, j: int| 0 <= i < j < names.len() ==> names[i] != names[j],
    ensures
        forall|p: int, q: int|
            0 <= p < q < spec_override_guilds(names).len() ==> spec_override_guilds(names)[p]
                != spec_override_guilds(names)[q],
    decreases names.len(),
{
    if names.len() > 0 {
        let s = spec_override_guilds(names);
        let rest = spec_override_guilds(names.drop_last());
        assert forall|i: int, j: int|
            0 <= i < j < names.drop_last().len() implies names.drop_last()[i]
            != names.drop_last()[j] by {
            assert(names.drop_last()[i] == names[i] && names.drop_last()[j] == names[j]);
        }
        lemma_override_guilds_distinct(names.drop_last());
        lemma_override_guilds_sound(names.drop_last());
        assert forall|p: int, q: int| 0 <= p < q < s.len() implies s[p] != s[q] by {
            if q == s.len() - 1 && s.len() > rest.len() {
                if s[p] == s[q] {
                    assert(rest[p] == be64_decode(names.last().subrange(1, 9)));
                    let suffix = names.last().subrange(1, 9);
                    lemma_be64_encode_decode(suffix);
                    assert(overrides_tree_name(rest[p]) =~= names.last());
                    let j = choose|j: int|
                        0 <= j < names.drop_last().len() && names.drop_last()[j]
                            == overrides_tree_name(rest[p]);
                    assert(names[j] == names[names.len() - 1]);
                }
            } else {
                assert(s[p] == rest[p] && s[q] == rest[q]);
            }
        }
    }
}

/// The guild namespaces the store holds right now: a guild is listed in
/// the first component exactly when its canonical namespace exists, and
/// in the second exactly when its override namespace exists; neither list
/// repeats a guild.
pub fn list_store_namespaces(db: &sled::Db) -> (r: (Vec<u64>, Vec<u64>))
    ensures
        forall|p: int| #![trigger r.0@[p]]
            0 <= p < r.0@.len() ==> db_tree_set(*db).contains(canonical_tree_name(r.0@[p])),
        forall|g: u64|
            db_tree_set(*db).contains(#[trigger] canonical_tree_name(g)) ==> exists|p: int|
                0 <= p < r.0@.len() && #[trigger] r.0@[p] == g,
        forall|p: int| #![trigger r.1@[p]]
            0 <= p < r.1@.len() ==> db_tree_set(*db).contains(overrides_tree_name(r.1@[p])),
        forall|g: u64|
            db_tree_set(*db).contains(#[trigger] overrides_tree_name(g)) ==> exists|p: int|
                0 <= p < r.1@.len() && #[trigger] r.1@[p] == g,
        forall|p: int, q: int| 0 <= p < q < r.0@.len() ==> r.0@[p] != r.0@[q],
        forall|p: int, q: int| 0 <= p < q < r.1@.len() ==> r.1@[p] != r.1@[q],
{
    let names = db_tree_names(db);
    let r = classify_tree_names(&names);
    proof {
        let nv = names_view(names@);
        assert forall|i: int, j: int| 0 <= i < j < nv.len() implies nv[i] != nv[j] by {
            assert(nv[i] == names@[i]@ && nv[j] == names@[j]@);
        }
        lemma_canonical_guilds_sound(nv);
        lemma_override_guilds_sound(nv);
        lemma_canonical_guilds_distinct(nv);
        lemma_override_guilds_distinct(nv);
        assert forall|p: int| 0 <= p < r.0@.len() implies db_tree_set(*db).contains(
            canonical_tree_name(#[trigger] r.0@[p]),
        ) by {
            let j = choose|j: int| 0 <= j < nv.len() && nv[j] == canonical_tree_name(r.0@[p]);
            assert(names@[j]@ == canonical_tree_name(r.0@[p]));
        }
        assert forall|p: int| 0 <= p < r.1@.len() implies db_tree_set(*db).contains(
            overrides_tree_name(#[trigger] r.1@[p]),
        ) by {
            let j = choose|j: int| 0 <= j < nv.len() && nv[j] == overrides_tree_name(r.1@[p]);
            assert(names@[j]@ == overrides_tree_name(r.1@[p]));
        }
        assert forall|g: u64|
            db_tree_set(*db).contains(#[trigger] canonical_tree_name(g)) implies exists|p: int|
            0 <= p < r.0@.len() && #[trigger] r.0@[p] == g by {
            let i = choose|i: int|
                0 <= i < names@.len() && #[trigger] names@[i]@ == canonical_tree_name(g);
            assert(nv[i] == canonical_tree_name(g));
            assert(nv[i].len() == 8);
            lemma_canonical_guilds_complete(nv, i);
            lemma_be64_roundtrip(g);
            let p = choose|p: int| 0 <= p < r.0@.len() && r.0@[p] == be64_decode(nv[i]);
            assert(r.0@[p] == g);
        }
        assert forall|g: u64|
            db_tree_set(*db).contains(#[trigger] overrides_tree_name(g)) implies exists|p: int|
            0 <= p < r.1@.len() && #[trigger] r.1@[p] == g by {
            let i = choose|i: int|
                0 <= i < names@.len() && #[trigger] names@[i]@ == overrides_tree_name(g);
            assert(nv[i] == overrides_tree_name(g));
            assert(is_overrides_name(nv[i]));
            lemma_override_guilds_complete(nv, i);
            assert(nv[i].subrange(1, 9) =~= be64(g));
            lemma_be64_roundtrip(g);
            let p = choose|p: int| 0 <= p < r.1@.len() && r.1@[p] == be64_decode(nv[i].subrange(1, 9));
            assert(r.1@[p] == g);
        }
    }
    r
}

/// FULL RESTORE teardown: drops a guild's whole override namespace from
/// the store, discarding its tracking state; on success the namespace is
/// gone from the store's tree-name set, and no other tree is touched.
pub fn drop_guild_overrides(db: &mut sled::Db, guild_id: u64) -> (r: Result<(), StoreError>)
    ensures
        r is Ok ==> db_tree_set(*final(db)) == db_tree_set(*old(db)).remove(
            overrides_tree_name(guild_id),
        ),
{
    let name = name_overrides_db_tree_name(guild_id);
    match db_drop_tree(db, &name) {
        Ok(_) => Ok(()),
        Err(_) => Err(StoreError {}),
    }
}

/// FULL RESTORE, one guild: a rename back to the recorded canonical name
/// for every member with a well-formed canonical entry — unconditionally,
/// whatever the member currently displays.
pub fn plan_full_restore(ledger: &GuildLedger) -> (r: Result<Vec<RenameCmd>, StoreError>)
    ensures
        r matches Ok(cmds) ==> {
            &&& forall|p: int| #![trigger cmds@[p]]
                0 <= p < cmds@.len() ==> cmds@[p].guild_id == ledger.guild() && spec_lookup_name(
                    ledger.canonical(),
                    cmds@[p].user_id,
                ) == Some(cmds@[p].name@)
            &&& forall|k: Seq<u8>|
                #[trigger] ledger.canonical().contains_key(k) && k.len() == 8 && valid_utf8(
                    ledger.canonical()[k],
                ) ==> exists|p: int|
                    0 <= p < cmds@.len() && be64((#[trigger] cmds@[p]).user_id) == k
            &&& forall|p: int, q: int|
                0 <= p < q < cmds@.len() ==> cmds@[p].user_id != cmds@[q].user_id
        },
{
    let entries = match ledger.canonical_entries() {
        Ok(es) => es,
        Err(e) => {
            return Err(e);
        },
    };
    let g = ledger.guild_id();
    let mut cmds: Vec<RenameCmd> = Vec::new();
    for i in 0..entries.len()
        invariant
            g == ledger.guild(),
            wf_entry_listing(ledger.canonical(), entries_view(entries@)),
            cmds@.len() == i,
            forall|p: int| #![trigger cmds@[p]]
                0 <= p < i ==> cmds@[p].guild_id == g && cmds@[p].user_id == entries@[p].0
                    && cmds@[p].name@ == entries@[p].1@,
    {
        cmds.push(RenameCmd { guild_id: g, user_id: entries[i].0, name: entries[i].1.clone() });
    }
    proof {
        assert forall|p: int| #![trigger cmds@[p]] 0 <= p < cmds@.len() implies cmds@[p].guild_id
            == ledger.guild() && spec_lookup_name(ledger.canonical(), cmds@[p].user_id) == Some(
            cmds@[p].name@,
        ) by {
            assert(entries_view(entries@)[p] == (entries@[p].0, entries@[p].1@));
        }
        assert forall|k: Seq<u8>|
            #[trigger] ledger.canonical().contains_key(k) && k.len() == 8 && valid_utf8(
                ledger.canonical()[k],
            ) implies exists|p: int|
            0 <= p < cmds@.len() && be64((#[trigger] cmds@[p]).user_id) == k by {
            let p = choose|p: int|
                0 <= p < entries_view(entries@).len() && be64(
                    (#[trigger] entries_view(entries@)[p]).0,
                ) == k;
            assert(entries_view(entries@)[p].0 == entries@[p].0);
            assert(be64(cmds@[p].user_id) == k);
        }
        assert forall|p: int, q: int|
            0 <= p < q < cmds@.len() implies cmds@[p].user_id != cmds@[q].user_id by {
            assert(entries_view(entries@)[p].0 == entries@[p].0);
            assert(entries_view(entries@)[q].0 == entries@[q].0);
        }
    }
    Ok(cmds)
}

/// OVERRIDDEN-ONLY RESTORE, the per-entry decision: revert to the
/// recorded canonical name exactly when the member's live display name
/// still equals the recorded override and a canonical name is recorded;
/// anything else (a changed name, a failed lookup, no canonical record)
/// gets no revert.
pub fn decide_revert(
    guild_id: u64,
    user_id: u64,
    recorded: &String,
    live: &Option<String>,
    canonical: Option<String>,
) -> (r: Option<RenameCmd>)
    ensures
        r is Some <==> ((live matches Some(l) && l@ == recorded@) && canonical is Some),
        r matches Some(cmd) ==> cmd.guild_id == guild_id && cmd.user_id == user_id && Some(
            cmd.name@,
        ) == view_opt(canonical),
{
    match live {
        Some(l) => {
            if *l == *recorded {
                match canonical {
                    Some(n) => Some(RenameCmd { guild_id, user_id, name: n }),
                    None => None,
                }
            } else {
                None
            }
        },
        None => None,
    }
}

/// The store keys of the users an entry listing names.
pub open spec fn user_keys(es: Seq<(u64, Seq<char>)>) -> Set<Seq<u8>> {
    Set::new(|k: Seq<u8>| exists|p: int| 0 <= p < es.len() && be64((#[trigger] es[p]).0) == k)
}

/// Whether a revert command is justified by the examined entries: the
/// member is listed, their fetched live name still equals the listed
/// override, and the command's name is exactly the recorded canonical.
pub open spec fn revert_cmd_justified(
    cmd: RenameCmd,
    entries: Seq<(u64, String)>,
    lives: Seq<Option<String>>,
    canonical: Map<Seq<u8>, Seq<u8>>,
    guild: u64,
) -> bool {
    exists|p: int|
        0 <= p < entries.len() && (#[trigger] entries[p]).0 == cmd.user_id && lives[p] is Some
            && (lives[p]->Some_0)@ == entries[p].1@ && spec_lookup_name(canonical, cmd.user_id)
            == Some(cmd.name@) && cmd.guild_id == guild
}

/// Whether a per-entry canonical-read trace is consistent with a
/// canonical namespace: a read that produced a name produced exactly the
/// recorded canonical name, and a member with no readable record reads
/// as absent (a storage fault may turn any read into absence).
pub open spec fn reads_consistent(
    canonical: Map<Seq<u8>, Seq<u8>>,
    entries: Seq<(u64, String)>,
    reads: Seq<Option<Seq<char>>>,
) -> bool {
    &&& reads.len() == entries.len()
    &&& forall|p: int|
        0 <= p < reads.len() ==> match #[trigger] reads[p] {
            Some(n) => spec_lookup_name(canonical, entries[p].0) == Some(n),
            None => true,
        }
    &&& forall|p: int|
        0 <= p < reads.len() ==> (spec_lookup_name(canonical, (#[trigger] entries[p]).0) is None
            ==> reads[p] is None)
}

/// The reverts planned for an examined entry list: one revert per entry
/// whose fetched live name still equals the recorded override and whose
/// canonical read produced a name, in entry order.
pub open spec fn spec_revert_plan(
    entries: Seq<(u64, String)>,
    lives: Seq<Option<String>>,
    reads: Seq<Option<Seq<char>>>,
) -> Seq<(u64, Seq<char>)>
    decreases entries.len(),
{
    if entries.len() == 0 {
        Seq::empty()
    } else {
        let rest = spec_revert_plan(entries.drop_last(), lives.drop_last(), reads.drop_last());
        let e = entries.last();
        if (lives.last() matches Some(l) && l@ == e.1@) && reads.last() is Some {
            rest.push((e.0, reads.last()->Some_0))
        } else {
            rest
        }
    }
}

/// Whether a command list is exactly the plan for some canonical-read
/// trace consistent with the given namespace.
pub open spec fn restore_run_exact(
    cmds: Seq<RenameCmd>,
    guild: u64,
    canonical: Map<Seq<u8>, Seq<u8>>,
    entries: Seq<(u64, String)>,
    lives: Seq<Option<String>>,
) -> bool {
    exists|reads: Seq<Option<Seq<char>>>|
        reads_consistent(canonical, entries, reads) && #[trigger] cmds_match_plan(
            cmds,
            guild,
            spec_revert_plan(entries, lives, reads),
        )
}

/// Whether a command list is exactly a plan, for one guild.
pub open spec fn cmds_match_plan(
    cmds: Seq<RenameCmd>,
    guild: u64,
    plan: Seq<(u64, Seq<char>)>,
) -> bool {
    &&& cmds.len() == plan.len()
    &&& forall|c: int|
        0 <= c < cmds.len() ==> (#[trigger] cmds[c]).guild_id == guild && (
        cmds[c].user_id,
        cmds[c].name@,
        ) == plan[c]
}

/// OVERRIDDEN-ONLY RESTORE, the ledger side of one guild's run: examines
/// each previously listed override entry against the live display name
/// fetched for it, retires every examined entry whatever the revert's
/// outcome will be, and returns the reverts for the caller to issue.
/// The returned commands are exactly the plan for the canonical reads the
/// run made: every qualifying entry whose canonical record was readable
/// gets its revert.
pub fn run_overridden_restore(
    ledger: &mut GuildLedger,
    entries: &Vec<(u64, String)>,
    lives: &Vec<Option<String>>,
) -> (r: Result<Vec<RenameCmd>, StoreError>)
    requires
        lives@.len() == entries@.len(),
    ensures
        final(ledger).guild() == old(ledger).guild(),
        final(ledger).canonical() == old(ledger).canonical(),
        r is Ok ==> final(ledger).overrides() == old(ledger).overrides().remove_keys(
            user_keys(entries_view(entries@)),
        ),
        r matches Ok(cmds) ==> forall|c: int|
            0 <= c < cmds@.len() ==> revert_cmd_justified(
                #[trigger] cmds@[c],
                entries@,
                lives@,
                old(ledger).canonical(),
                old(ledger).guild(),
            ),
        r matches Ok(cmds) ==> restore_run_exact(
            cmds@,
            old(ledger).guild(),
            old(ledger).canonical(),
            entries@,
            lives@,
        ),
{
    let g = ledger.guild_id();
    let mut cmds: Vec<RenameCmd> = Vec::new();
    let ghost mut reads: Seq<Option<Seq<char>>> = Seq::empty();
    let mut i: usize = 0;
    while i < entries.len()
        invariant
            i <= entries.len(),
            lives@.len() == entries@.len(),
            g == old(ledger).guild(),
            ledger.guild() == old(ledger).guild(),
            ledger.canonical() == old(ledger).canonical(),
            ledger.overrides() == old(ledger).overrides().remove_keys(
                user_keys(entries_view(entries@.take(i as int))),
            ),
            forall|c: int|
                0 <= c < cmds@.len() ==> revert_cmd_justified(
                    #[trigger] cmds@[c],
                    entries@,
                    lives@,
                    old(ledger).canonical(),
                    old(ledger).guild(),
                ),
            reads.len() == i,
            forall|p: int|
                0 <= p < i ==> match #[trigger] reads[p] {
                    Some(n) => spec_lookup_name(old(ledger).canonical(), entries@[p].0) == Some(
                        n,
                    ),
                    None => true,
                },
            forall|p: int|
                0 <= p < i ==> (spec_lookup_name(
                    old(ledger).canonical(),
                    (#[trigger] entries@[p]).0,
                ) is None ==> reads[p] is None),
            cmds_match_plan(
                cmds@,
                old(ledger).guild(),
                spec_revert_plan(entries@.take(i as int), lives@.take(i as int), reads),
            ),
        decreases entries.len() - i,
    {
        let user_id = entries[i].0;
        let canonical = ledger.get_original(user_id);
        let ghost read_i = view_opt(canonical);
        let ghost cmds0 = cmds@;
        let ghost reads0 = reads;
        let ghost plan0 = spec_revert_plan(
            entries@.take(i as int),
            lives@.take(i as int),
            reads0,
        );
        proof {
            reads = reads.push(read_i);
            assert(entries@.take(i + 1).drop_last() =~= entries@.take(i as int));
            assert(lives@.take(i + 1).drop_last() =~= lives@.take(i as int));
            assert(reads.drop_last() =~= reads0);
            assert(entries@.take(i + 1).last() == entries@[i as int]);
            assert(lives@.take(i + 1).last() == lives@[i as int]);
        }
        let ghost plan1 = spec_revert_plan(entries@.take(i + 1), lives@.take(i + 1), reads);
        match decide_revert(g, user_id, &entries[i].1, &lives[i], canonical) {
            Some(cmd) => {
                proof {
                    assert(revert_cmd_justified(
                        cmd,
                        entries@,
                        lives@,
                        old(ledger).canonical(),
                        old(ledger).guild(),
                    )) by {
                        assert(0 <= i < entries@.len() && (entries@[i as int]).0 == cmd.user_id
                            && lives@[i as int] is Some && (lives@[i as int]->Some_0)@
                            == entries@[i as int].1@ && spec_lookup_name(
                            old(ledger).canonical(),
                            cmd.user_id,
                        ) == Some(cmd.name@) && cmd.guild_id == old(ledger).guild());
                    }
                    assert(read_i is Some);
                    assert(plan1 == plan0.push((entries@[i as int].0, read_i->Some_0)));
                }
                cmds.push(cmd);
                proof {
                    assert(cmds@ == cmds0.push(cmd));
                    assert forall|c: int|
                        0 <= c < cmds@.len() implies (#[trigger] cmds@[c]).guild_id == old(
                        ledger,
                    ).guild() && (cmds@[c].user_id, cmds@[c].name@) == plan1[c] by {
                        if c < cmds0.len() {
                            assert(cmds@[c] == cmds0[c]);
                            assert(plan1[c] == plan0[c]);
                        } else {
                            assert(cmds@[c] == cmd);
                            assert(plan1[c] == (entries@[i as int].0, read_i->Some_0));
                            assert(Some(cmd.name@) == read_i);
                        }
                    }
                    assert(cmds_match_plan(cmds@, old(ledger).guild(), plan1));
                }
            },
            None => {
                proof {
                    assert(plan1 == plan0);
                    assert(cmds_match_plan(cmds@, old(ledger).guild(), plan1));
                }
            },
        }
        match ledger.remove_override(user_id) {
            Ok(()) => {},
            Err(e) => {
                return Err(e);
            },
        }
        proof {
            let taken = entries_view(entries@.take(i as int));
            let taken1 = entries_view(entries@.take(i + 1));
            assert(taken1.drop_last() =~= taken);
            assert(taken1.last() == (entries@[i as int].0, entries@[i as int].1@));
            assert forall|k: Seq<u8>| #[trigger] user_keys(taken1).contains(k) implies user_keys(
                taken,
            ).contains(k) || k == be64(entries@[i as int].0) by {
                let p = choose|p: int| 0 <= p < taken1.len() && be64((#[trigger] taken1[p]).0) == k;
                if p < taken1.len() - 1 {
                    assert(taken[p] == taken1[p]);
                    assert(user_keys(taken).contains(k));
                }
            }
            assert forall|k: Seq<u8>| #[trigger] user_keys(taken).contains(k) implies user_keys(
                taken1,
            ).contains(k) by {
                let p = choose|p: int| 0 <= p < taken.len() && be64((#[trigger] taken[p]).0) == k;
                assert(taken1[p] == taken[p]);
            }
            assert(user_keys(taken1).contains(be64(entries@[i as int].0))) by {
                assert(be64((taken1[taken1.len() - 1]).0) == be64(entries@[i as int].0));
            }
            assert(ledger.overrides() =~= old(ledger).overrides().remove_keys(
                user_keys(taken1),
            ));
        }
        i = i + 1;
    }
    proof {
        assert(entries@.take(entries@.len() as int) =~= entries@);
        assert(lives@.take(lives@.len() as int) =~= lives@);
        assert(reads_consistent(old(ledger).canonical(), entries@, reads));
        assert(cmds_match_plan(
            cmds@,
            old(ledger).guild(),
            spec_revert_plan(entries@, lives@, reads),
        ));
        assert(restore_run_exact(
            cmds@,
            old(ledger).guild(),
            old(ledger).canonical(),
            entries@,
            lives@,
        ));
    }
    Ok(cmds)
}

/// The live display names after a set of reverts is issued: each reverted
/// member shows the revert's name, everyone else is unchanged.
pub open spec fn spec_live_after(
    live: Map<u64, Seq<char>>,
    renames: Map<u64, Seq<char>>,
) -> Map<u64, Seq<char>> {
    live.union_prefer_right(renames)
}

/// The reverts an overridden-only run issues, as a map: a member is
/// reverted to their recorded canonical name exactly when they are listed,
/// their live name still equals the listed override, and a canonical name
/// is recorded for them.
pub open spec fn spec_restore_renames(
    es: Seq<(u64, Seq<char>)>,
    canonical: Map<Seq<u8>, Seq<u8>>,
    live: Map<u64, Seq<char>>,
) -> Map<u64, Seq<char>> {
    Map::new(
        |u: u64|
            (exists|p: int|
                0 <= p < es.len() && (#[trigger] es[p]).0 == u && live.contains_key(u) && live[u]
                    == es[p].1) && spec_lookup_name(canonical, u) is Some,
        |u: u64| spec_lookup_name(canonical, u)->Some_0,
    )
}

/// Law (crash safety): if a pass is interrupted after its ledger phases
/// but before APPLY, every member the pass recorded still has a
/// well-formed canonical entry, and any full-restore plan over that
/// ledger contains a rename putting the member back to exactly the
/// recorded canonical name.
pub proof fn lemma_full_restore_recovers(
    canonical: Map<Seq<u8>, Seq<u8>>,
    cmds: Seq<RenameCmd>,
    u: u64,
    n: Seq<char>,
)
    requires
        forall|p: int| #![trigger cmds[p]]
            0 <= p < cmds.len() ==> spec_lookup_name(canonical, cmds[p].user_id) == Some(
                cmds[p].name@,
            ),
        forall|k: Seq<u8>|
            #[trigger] canonical.contains_key(k) && k.len() == 8 && valid_utf8(canonical[k])
                ==> exists|p: int|
                0 <= p < cmds.len() && be64((#[trigger] cmds[p]).user_id) == k,
        spec_lookup_name(canonical, u) == Some(n),
    ensures
        exists|p: int|
            0 <= p < cmds.len() && (#[trigger] cmds[p]).user_id == u && cmds[p].name@ == n,
{
    assert(canonical.contains_key(be64(u)));
    assert(be64(u).len() == 8);
    assert(valid_utf8(canonical[be64(u)]));
    let p = choose|p: int| 0 <= p < cmds.len() && be64((#[trigger] cmds[p]).user_id) == be64(u);
    lemma_be64_injective(cmds[p].user_id, u);
    assert(cmds[p].user_id == u && cmds[p].name@ == n);
}

/// Law (idempotence): running the overridden-only restore twice with no
/// external change between the runs yields identical final external names
/// and an empty override namespace after the second run.  The first run
/// retires every entry it listed; when every record in the namespace is
/// well formed the namespace is then empty, so the second run lists
/// nothing, issues no rename, and changes nothing.
pub proof fn lemma_overridden_restore_idempotent(
    overrides: Map<Seq<u8>, Seq<u8>>,
    es: Seq<(u64, Seq<char>)>,
    es2: Seq<(u64, Seq<char>)>,
    canonical: Map<Seq<u8>, Seq<u8>>,
    live1: Map<u64, Seq<char>>,
)
    requires
        wf_entry_listing(overrides, es),
        forall|k: Seq<u8>|
            #[trigger] overrides.contains_key(k) ==> k.len() == 8 && valid_utf8(overrides[k]),
        wf_entry_listing(overrides.remove_keys(user_keys(es)), es2),
    ensures
        overrides.remove_keys(user_keys(es)) == empty_names(),
        es2.len() == 0,
        spec_live_after(live1, spec_restore_renames(es2, canonical, live1)) == live1,
{
    assert forall|k: Seq<u8>| #[trigger]
        overrides.remove_keys(user_keys(es)).dom().contains(k) implies false by {
        assert(overrides.contains_key(k));
        assert(k.len() == 8 && valid_utf8(overrides[k]));
        let p = choose|p: int| 0 <= p < es.len() && be64(es[p].0) == k;
        assert(be64((es[p]).0) == k);
        assert(user_keys(es).contains(k));
    }
    assert(overrides.remove_keys(user_keys(es)) =~= empty_names());
    if es2.len() > 0 {
        assert(spec_lookup_name(empty_names(), es2[0].0) == Some(es2[0].1));
        assert(false);
    }
    assert(spec_live_after(live1, spec_restore_renames(es2, canonical, live1)) =~= live1);
}

} // verus!
