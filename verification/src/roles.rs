//! The permission filter: who the system may rename, from role hierarchy.
//!
//! The platform lets an actor rename only members it outranks, so a member
//! is renameable exactly when the highest ordinal position among their
//! roles is strictly below the system's own highest position.  The
//! hierarchy can be dragged around while the system runs, so callers
//! recompute this on every pass and never cache it.

use vstd::prelude::*;

verus! {

/// The position the catalog records for a role, if the role is listed
/// (first listing wins).
pub open spec fn spec_role_position(catalog: Seq<(u64, u16)>, role_id: u64) -> Option<u16>
    decreases catalog.len(),
{
    if catalog.len() == 0 {
        None
    } else if catalog[0].0 == role_id {
        Some(catalog[0].1)
    } else {
        spec_role_position(catalog.drop_first(), role_id)
    }
}

/// The highest catalog position among the given roles, 0 when none of them
/// is listed (an unusual state, reported by the caller, not an error).
pub open spec fn spec_max_role_position(catalog: Seq<(u64, u16)>, role_ids: Seq<u64>) -> u16
    decreases role_ids.len(),
{
    if role_ids.len() == 0 {
        0
    } else {
        let rest = spec_max_role_position(catalog, role_ids.drop_last());
        match spec_role_position(catalog, role_ids.last()) {
            Some(p) => if p > rest {
                p
            } else {
                rest
            },
            None => rest,
        }
    }
}

/// The position the catalog records for one role.
pub fn role_position(catalog: &Vec<(u64, u16)>, role_id: u64) -> (r: Option<u16>)
    ensures
        r == spec_role_position(catalog@, role_id),
{
    proof {
        assert(catalog@.skip(0) =~= catalog@);
    }
    for i in 0..catalog.len()
        invariant
            spec_role_position(catalog@, role_id) == spec_role_position(
                catalog@.skip(i as int),
                role_id,
            ),
    {
        if catalog[i].0 == role_id {
            return Some(catalog[i].1);
        }
        proof {
            assert(catalog@.skip(i as int).drop_first() =~= catalog@.skip(i + 1));
        }
    }
    None
}

/// The highest catalog position among a member's roles, 0 if none is
/// listed.
pub fn max_role_position(catalog: &Vec<(u64, u16)>, role_ids: &Vec<u64>) -> (r: u16)
    ensures
        r == spec_max_role_position(catalog@, role_ids@),
{
    let mut acc: u16 = 0;
    for i in 0..role_ids.len()
        invariant
            acc == spec_max_role_position(catalog@, role_ids@.take(i as int)),
    {
        match role_position(catalog, role_ids[i]) {
            Some(p) => {
                if p > acc {
                    acc = p;
                }
            },
            None => {},
        }
        proof {
            assert(role_ids@.take(i + 1).drop_last() =~= role_ids@.take(i as int));
        }
    }
    proof {
        assert(role_ids@.take(role_ids@.len() as int) =~= role_ids@);
    }
    acc
}

/// Whether the system is authorized to rename the member: true exactly
/// when the member's highest role position is strictly below the system's
/// own.  Equal positions do not suffice.
pub fn member_renameable(
    catalog: &Vec<(u64, u16)>,
    member_role_ids: &Vec<u64>,
    system_role_ids: &Vec<u64>,
) -> (r: bool)
    ensures
        r == (spec_max_role_position(catalog@, member_role_ids@) < spec_max_role_position(
            catalog@,
            system_role_ids@,
        )),
{
    max_role_position(catalog, member_role_ids) < max_role_position(catalog, system_role_ids)
}

} // verus!
