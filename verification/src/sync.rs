//! The synchronization orchestrator: the ledger side of one sync pass.
//!
//! A pass runs five strictly ordered phases; each phase's writes must be
//! durable before the next begins, and the caller performs the external
//! renames between them:
//!
//! 1. RESOLVE — the caller fetches the channel's live member list (a cache
//!    miss silently ends the pass before the library is involved).
//! 2. ASSIGN and canonical staging — [`prepare_sync`]: build the candidate
//!    list and atomically record canonical names for every member whose
//!    current display name is not an override this system imposed.
//! 3. PRE-COMMIT (old-first) — the caller reissues the returned ledgered
//!    canonical names externally, so a crash from here on leaves the
//!    visible state already safe.
//! 4. LEDGER COMMIT — [`commit_sync`]: atomically replace the guild's
//!    override set with the pass's new overrides, before any new rename.
//! 5. APPLY (new-last) — the caller issues the candidate renames, with
//!    bounded fan-out; each failure is logged and skipped, never retried.
//!
//! A deliberate choice: members the role hierarchy puts out of the
//! system's reach still receive ledger entries like everyone else, for
//! bookkeeping consistency; the permission filter is applied by the
//! caller when issuing APPLY renames, not here.

use vstd::prelude::*;

use crate::activity::ActivityInfo;
use crate::activity::detect_labels;
use crate::activity::spec_first_label;
use crate::assign::MemberView;
use crate::assign::assign_nicks;
use crate::assign::gen_derangement;
use crate::assign::has_no_fixed_point;
use crate::assign::is_permutation;
use crate::assign::spec_candidate;
use crate::assign::view_opt;
use crate::ledger::GuildLedger;
use crate::ledger::StoreError;
use crate::ledger::entries_view;
use crate::ledger::spec_entries_map;
use crate::ledger::spec_lookup_name;
use crate::ledger::spec_stage;
use crate::ledger::empty_names;
use crate::ledger::lemma_stage_absent;
use crate::ledger::lemma_stage_then_lookup;
use crate::keys::be64;
use crate::keys::lemma_be64_injective;
use vstd::utf8::encode_utf8;

verus! {

/// The per-element view of a list of optional names.
pub open spec fn opts_view(s: Seq<Option<String>>) -> Seq<Option<Seq<char>>> {
    s.map_values(|o: Option<String>| view_opt(o))
}

/// The canonical-name entries a pass stages: every member whose read
/// override name is not exactly their current display name gets their
/// display name recorded as canonical.  (A member whose display name still
/// matches a recorded override is living under this system's name, which
/// must not clobber the canonical record.)
pub open spec fn spec_select_stage(
    members: Seq<MemberView>,
    reads: Seq<Option<Seq<char>>>,
) -> Seq<(u64, Seq<char>)>
    decreases members.len(),
{
    if members.len() == 0 {
        Seq::empty()
    } else {
        let rest = spec_select_stage(members.drop_last(), reads.drop_last());
        let m = members.last();
        if reads.last() == Some(m.display_name@) {
            rest
        } else {
            rest.push((m.user_id, m.display_name@))
        }
    }
}

/// The pre-commit rename list: every listed user whose canonical read
/// produced a name, paired with that name.
pub open spec fn spec_select_pre_commit(
    user_ids: Seq<u64>,
    reads: Seq<Option<Seq<char>>>,
) -> Seq<(u64, Seq<char>)>
    decreases user_ids.len(),
{
    if user_ids.len() == 0 {
        Seq::empty()
    } else {
        let rest = spec_select_pre_commit(user_ids.drop_last(), reads.drop_last());
        match reads.last() {
            Some(n) => rest.push((user_ids.last(), n)),
            None => rest,
        }
    }
}

/// The override set of a pass: every assignment whose candidate name is
/// not the canonical name read back for that member.  A member whose
/// candidate equals their canonical record needs no override entry; one
/// whose record could not be read is kept, conservatively, so restoration
/// can still find the divergence.
pub open spec fn spec_select_overrides(
    assignments: Seq<(u64, Seq<char>)>,
    reads: Seq<Option<Seq<char>>>,
) -> Seq<(u64, Seq<char>)>
    decreases assignments.len(),
{
    if assignments.len() == 0 {
        Seq::empty()
    } else {
        let rest = spec_select_overrides(assignments.drop_last(), reads.drop_last());
        let a = assignments.last();
        if reads.last() == Some(a.1) {
            rest
        } else {
            rest.push(a)
        }
    }
}

proof fn lemma_lookup_insert_other(m: Map<Seq<u8>, Seq<u8>>, v: u64, name: Seq<char>, u: u64)
    requires
        v != u,
    ensures
        spec_lookup_name(m.insert(be64(v), encode_utf8(name)), u) == spec_lookup_name(m, u),
{
    lemma_be64_injective(v, u);
}

proof fn lemma_select_overrides_entries(
    assignments: Seq<(u64, Seq<char>)>,
    reads: Seq<Option<Seq<char>>>,
)
    ensures
        forall|p: int|
            0 <= p < spec_select_overrides(assignments, reads).len() ==> exists|j: int|
                0 <= j < assignments.len() && assignments[j] == #[trigger] spec_select_overrides(
                    assignments,
                    reads,
                )[p],
    decreases assignments.len(),
{
    if assignments.len() > 0 {
        let s = spec_select_overrides(assignments, reads);
        let rest = spec_select_overrides(assignments.drop_last(), reads.drop_last());
        lemma_select_overrides_entries(assignments.drop_last(), reads.drop_last());
        assert forall|p: int| 0 <= p < s.len() implies exists|j: int|
            0 <= j < assignments.len() && assignments[j] == #[trigger] s[p] by {
            if p < rest.len() {
                assert(s[p] == rest[p]);
                let j = choose|j: int|
                    0 <= j < assignments.drop_last().len() && assignments.drop_last()[j]
                        == #[trigger] rest[p];
                assert(assignments[j] == s[p]);
            } else {
                assert(s[p] == assignments[assignments.len() - 1]);
            }
        }
    }
}

/// Law (override tracking): the override set a pass commits records
/// exactly the diverging members.  An assignment whose candidate differs
/// from the canonical name read back for the member lands in the
/// committed namespace under that candidate; one whose candidate equals
/// the read-back canonical leaves no record.
pub proof fn lemma_override_set_tracks_divergence(
    assignments: Seq<(u64, Seq<char>)>,
    reads: Seq<Option<Seq<char>>>,
    i: int,
)
    requires
        reads.len() == assignments.len(),
        0 <= i < assignments.len(),
        forall|j: int|
            0 <= j < assignments.len() && j != i ==> (#[trigger] assignments[j]).0
                != assignments[i].0,
    ensures
        reads[i] != Some(assignments[i].1) ==> spec_lookup_name(
            spec_entries_map(spec_select_overrides(assignments, reads)),
            assignments[i].0,
        ) == Some(assignments[i].1),
        reads[i] == Some(assignments[i].1) ==> spec_lookup_name(
            spec_entries_map(spec_select_overrides(assignments, reads)),
            assignments[i].0,
        ) is None,
    decreases assignments.len(),
{
    let s = spec_select_overrides(assignments, reads);
    let u = assignments[i].0;
    let rest = spec_select_overrides(assignments.drop_last(), reads.drop_last());
    if i == assignments.len() - 1 {
        lemma_select_overrides_entries(assignments.drop_last(), reads.drop_last());
        assert forall|p: int| 0 <= p < rest.len() implies (#[trigger] rest[p]).0 != u by {
            let j = choose|j: int|
                0 <= j < assignments.drop_last().len() && assignments.drop_last()[j]
                    == #[trigger] rest[p];
            assert(assignments[j] == rest[p]);
        }
        if reads[i] != Some(assignments[i].1) {
            assert(s == rest.push(assignments[i]));
            assert(s[s.len() - 1] == assignments[i]);
            assert forall|j: int|
                (s.len() - 1) < j < s.len() implies (#[trigger] s[j]).0 != s[s.len() - 1].0 by {}
            lemma_stage_then_lookup(empty_names(), s, s.len() - 1);
        } else {
            assert(s == rest);
            lemma_stage_absent(empty_names(), s, u);
            assert(!empty_names().contains_key(be64(u)));
        }
    } else {
        assert forall|j: int|
            0 <= j < assignments.drop_last().len() && j != i implies (
        #[trigger] assignments.drop_last()[j]).0 != assignments.drop_last()[i].0 by {
            assert(assignments.drop_last()[j] == assignments[j]);
            assert(assignments.drop_last()[i] == assignments[i]);
        }
        assert(assignments.drop_last()[i] == assignments[i]);
        assert(reads.drop_last()[i] == reads[i]);
        lemma_override_set_tracks_divergence(assignments.drop_last(), reads.drop_last(), i);
        if reads.last() == Some(assignments.last().1) {
            assert(s == rest);
        } else {
            assert(s == rest.push(assignments.last()));
            assert(s.drop_last() =~= rest);
            assert(s.last() == assignments.last());
            assert(spec_entries_map(s) == spec_entries_map(rest).insert(
                be64(assignments.last().0),
                encode_utf8(assignments.last().1),
            ));
            assert(assignments.last().0 != u);
            lemma_lookup_insert_other(
                spec_entries_map(rest),
                assignments.last().0,
                assignments.last().1,
                u,
            );
        }
    }
}

/// Each member's recorded override name, read from the ledger; a read
/// fault reports absence.
pub fn read_overrides(ledger: &GuildLedger, members: &Vec<MemberView>) -> (r: Vec<Option<String>>)
    ensures
        r@.len() == members@.len(),
        forall|i: int|
            0 <= i < r@.len() ==> match #[trigger] r@[i] {
                Some(s) => spec_lookup_name(ledger.overrides(), members@[i].user_id) == Some(s@),
                None => true,
            },
        forall|i: int|
            0 <= i < r@.len() ==> (spec_lookup_name(ledger.overrides(), members@[i].user_id)
                is None ==> #[trigger] r@[i] is None),
{
    let mut r: Vec<Option<String>> = Vec::new();
    for i in 0..members.len()
        invariant
            r@.len() == i,
            forall|k: int|
                0 <= k < i ==> match #[trigger] r@[k] {
                    Some(s) => spec_lookup_name(ledger.overrides(), members@[k].user_id) == Some(
                        s@,
                    ),
                    None => true,
                },
            forall|k: int|
                0 <= k < i ==> (spec_lookup_name(ledger.overrides(), members@[k].user_id)
                    is None ==> #[trigger] r@[k] is None),
    {
        r.push(ledger.get_override(members[i].user_id));
    }
    r
}

/// Each listed user's recorded canonical name, read from the ledger; a
/// read fault reports absence.
pub fn read_canonicals(ledger: &GuildLedger, user_ids: &Vec<u64>) -> (r: Vec<Option<String>>)
    ensures
        r@.len() == user_ids@.len(),
        forall|i: int|
            0 <= i < r@.len() ==> match #[trigger] r@[i] {
                Some(s) => spec_lookup_name(ledger.canonical(), user_ids@[i]) == Some(s@),
                None => true,
            },
        forall|i: int|
            0 <= i < r@.len() ==> (spec_lookup_name(ledger.canonical(), user_ids@[i]) is None
                ==> #[trigger] r@[i] is None),
{
    let mut r: Vec<Option<String>> = Vec::new();
    for i in 0..user_ids.len()
        invariant
            r@.len() == i,
            forall|k: int|
                0 <= k < i ==> match #[trigger] r@[k] {
                    Some(s) => spec_lookup_name(ledger.canonical(), user_ids@[k]) == Some(s@),
                    None => true,
                },
            forall|k: int|
                0 <= k < i ==> (spec_lookup_name(ledger.canonical(), user_ids@[k]) is None
                    ==> #[trigger] r@[k] is None),
    {
        r.push(ledger.get_original(user_ids[i]));
    }
    r
}

/// The user id of each member, in member order.
pub fn member_ids(members: &Vec<MemberView>) -> (r: Vec<u64>)
    ensures
        r@ == members@.map_values(|m: MemberView| m.user_id),
{
    let mut r: Vec<u64> = Vec::new();
    for i in 0..members.len()
        invariant
            r@ == members@.take(i as int).map_values(|m: MemberView| m.user_id),
    {
        r.push(members[i].user_id);
        proof {
            assert(members@.take(i + 1).map_values(|m: MemberView| m.user_id) =~= members@.take(
                i as int,
            ).map_values(|m: MemberView| m.user_id).push(members@[i as int].user_id));
        }
    }
    proof {
        assert(members@.take(members@.len() as int) =~= members@);
    }
    r
}

/// The canonical-name entries to stage this pass (see [`spec_select_stage`]).
pub fn select_canonical_stage(members: &Vec<MemberView>, reads: &Vec<Option<String>>) -> (r: Vec<
    (u64, String),
>)
    requires
        reads@.len() == members@.len(),
    ensures
        entries_view(r@) == spec_select_stage(members@, opts_view(reads@)),
{
    let mut r: Vec<(u64, String)> = Vec::new();
    for i in 0..members.len()
        invariant
            reads@.len() == members@.len(),
            entries_view(r@) == spec_select_stage(
                members@.take(i as int),
                opts_view(reads@.take(i as int)),
            ),
    {
        let keep = match &reads[i] {
            Some(n) => !(*n == members[i].display_name),
            None => true,
        };
        if keep {
            r.push((members[i].user_id, members[i].display_name.clone()));
        }
        proof {
            assert(members@.take(i + 1).drop_last() =~= members@.take(i as int));
            assert(opts_view(reads@.take(i + 1)).drop_last() =~= opts_view(reads@.take(i as int)));
            assert(members@.take(i + 1).last() == members@[i as int]);
            assert(opts_view(reads@.take(i + 1)).last() == view_opt(reads@[i as int]));
            if !keep {
                assert(entries_view(r@) == spec_select_stage(
                    members@.take(i + 1),
                    opts_view(reads@.take(i + 1)),
                ));
            } else {
                assert(entries_view(r@) =~= spec_select_stage(
                    members@.take(i + 1),
                    opts_view(reads@.take(i + 1)),
                ));
            }
        }
    }
    proof {
        assert(members@.take(members@.len() as int) =~= members@);
        assert(reads@.take(reads@.len() as int) =~= reads@);
    }
    r
}

/// The pre-commit rename list (see [`spec_select_pre_commit`]).
pub fn select_pre_commit(user_ids: &Vec<u64>, reads: &Vec<Option<String>>) -> (r: Vec<
    (u64, String),
>)
    requires
        reads@.len() == user_ids@.len(),
    ensures
        entries_view(r@) == spec_select_pre_commit(user_ids@, opts_view(reads@)),
{
    let mut r: Vec<(u64, String)> = Vec::new();
    for i in 0..user_ids.len()
        invariant
            reads@.len() == user_ids@.len(),
            entries_view(r@) == spec_select_pre_commit(
                user_ids@.take(i as int),
                opts_view(reads@.take(i as int)),
            ),
    {
        match &reads[i] {
            Some(n) => {
                r.push((user_ids[i], n.clone()));
            },
            None => {},
        }
        proof {
            assert(user_ids@.take(i + 1).drop_last() =~= user_ids@.take(i as int));
            assert(opts_view(reads@.take(i + 1)).drop_last() =~= opts_view(reads@.take(i as int)));
            assert(opts_view(reads@.take(i + 1)).last() == view_opt(reads@[i as int]));
            assert(entries_view(r@) =~= spec_select_pre_commit(
                user_ids@.take(i + 1),
                opts_view(reads@.take(i + 1)),
            ));
        }
    }
    proof {
        assert(user_ids@.take(user_ids@.len() as int) =~= user_ids@);
        assert(reads@.take(reads@.len() as int) =~= reads@);
    }
    r
}

/// The override set of a pass (see [`spec_select_overrides`]).
pub fn select_overrides(assignments: &Vec<(u64, String)>, reads: &Vec<Option<String>>) -> (r: Vec<
    (u64, String),
>)
    requires
        reads@.len() == assignments@.len(),
    ensures
        entries_view(r@) == spec_select_overrides(entries_view(assignments@), opts_view(reads@)),
{
    let mut r: Vec<(u64, String)> = Vec::new();
    for i in 0..assignments.len()
        invariant
            reads@.len() == assignments@.len(),
            entries_view(r@) == spec_select_overrides(
                entries_view(assignments@.take(i as int)),
                opts_view(reads@.take(i as int)),
            ),
    {
        let keep = match &reads[i] {
            Some(n) => !(*n == assignments[i].1),
            None => true,
        };
        if keep {
            r.push((assignments[i].0, assignments[i].1.clone()));
        }
        proof {
            assert(entries_view(assignments@.take(i + 1)).drop_last() =~= entries_view(
                assignments@.take(i as int),
            ));
            assert(opts_view(reads@.take(i + 1)).drop_last() =~= opts_view(reads@.take(i as int)));
            assert(entries_view(assignments@.take(i + 1)).last() == (
                assignments@[i as int].0,
                assignments@[i as int].1@,
            ));
            assert(opts_view(reads@.take(i + 1)).last() == view_opt(reads@[i as int]));
            assert(entries_view(r@) =~= spec_select_overrides(
                entries_view(assignments@.take(i + 1)),
                opts_view(reads@.take(i + 1)),
            ));
        }
    }
    proof {
        assert(assignments@.take(assignments@.len() as int) =~= assignments@);
        assert(reads@.take(reads@.len() as int) =~= reads@);
    }
    r
}

/// What the ASSIGN phase produced and what the caller must do before the
/// commit: issue every `pre_commit` rename (old names first).
pub struct SyncPrep {
    /// The donor permutation used for this pass.
    pub donor: Vec<usize>,
    /// Each member's previously ledgered override name, as read.
    pub prior_overrides: Vec<Option<String>>,
    /// Each member's ledgered canonical name after staging, as read.
    pub canonical_reads: Vec<Option<String>>,
    /// One candidate name per member, in member order.
    pub assignments: Vec<(u64, String)>,
    /// The canonical names to reissue externally before LEDGER COMMIT.
    pub pre_commit: Vec<(u64, String)>,
}

/// Phase ASSIGN with canonical staging: builds the pass's candidate list
/// and atomically records canonical names, before any rename is issued.
pub fn prepare_sync(
    ledger: &mut GuildLedger,
    members: &Vec<MemberView>,
    presences: &Vec<Vec<ActivityInfo>>,
    target_app_id: u64,
) -> (r: Result<SyncPrep, StoreError>)
    requires
        presences@.len() == members@.len(),
    ensures
        final(ledger).guild() == old(ledger).guild(),
        final(ledger).overrides() == old(ledger).overrides(),
        r matches Ok(p) ==> {
            &&& p.donor@.len() == members@.len()
            &&& is_permutation(p.donor@)
            &&& members@.len() != 1 ==> has_no_fixed_point(p.donor@)
            &&& p.prior_overrides@.len() == members@.len()
            &&& forall|i: int|
                0 <= i < members@.len() ==> match #[trigger] p.prior_overrides@[i] {
                    Some(s) => spec_lookup_name(old(ledger).overrides(), members@[i].user_id)
                        == Some(s@),
                    None => true,
                }
            &&& forall|i: int|
                0 <= i < members@.len() ==> (spec_lookup_name(
                    old(ledger).overrides(),
                    members@[i].user_id,
                ) is None ==> #[trigger] p.prior_overrides@[i] is None)
            &&& p.assignments@.len() == members@.len()
            &&& forall|i: int|
                0 <= i < members@.len() ==> (#[trigger] p.assignments@[i]).0
                    == members@[i].user_id && p.assignments@[i].1@ == spec_candidate(
                    members@[i],
                    spec_first_label(presences@[p.donor@[i] as int]@, target_app_id),
                    view_opt(p.prior_overrides@[i]),
                )
            &&& final(ledger).canonical() == spec_stage(
                old(ledger).canonical(),
                spec_select_stage(members@, opts_view(p.prior_overrides@)),
            )
            &&& p.canonical_reads@.len() == members@.len()
            &&& forall|i: int|
                0 <= i < members@.len() ==> match #[trigger] p.canonical_reads@[i] {
                    Some(s) => spec_lookup_name(final(ledger).canonical(), members@[i].user_id)
                        == Some(s@),
                    None => true,
                }
            &&& forall|i: int|
                0 <= i < members@.len() ==> (spec_lookup_name(
                    final(ledger).canonical(),
                    members@[i].user_id,
                ) is None ==> #[trigger] p.canonical_reads@[i] is None)
            &&& entries_view(p.pre_commit@) == spec_select_pre_commit(
                members@.map_values(|m: MemberView| m.user_id),
                opts_view(p.canonical_reads@),
            )
        },
{
    let labels = detect_labels(presences, target_app_id);
    let donor = gen_derangement(members.len());
    let prior = read_overrides(ledger, members);
    let assignments = assign_nicks(members, &labels, &prior, &donor);
    proof {
        assert forall|i: int| 0 <= i < members@.len() implies view_opt(
            labels@[donor@[i] as int],
        ) == spec_first_label(presences@[donor@[i] as int]@, target_app_id) by {
            let d = donor@[i] as int;
            match labels@[d] {
                Some(s) => {},
                None => {},
            }
        }
    }
    let stage = select_canonical_stage(members, &prior);
    match ledger.record_batch(&stage) {
        Ok(()) => {},
        Err(e) => {
            return Err(e);
        },
    }
    let ids = member_ids(members);
    let canonical_reads = read_canonicals(ledger, &ids);
    let pre_commit = select_pre_commit(&ids, &canonical_reads);
    Ok(
        SyncPrep {
            donor,
            prior_overrides: prior,
            canonical_reads,
            assignments,
            pre_commit,
        },
    )
}

/// What the LEDGER COMMIT phase recorded; the caller now performs phase
/// APPLY by issuing every assignment's rename.
pub struct CommitOutcome {
    /// Each assigned member's ledgered canonical name, as read.
    pub canonical_reads: Vec<Option<String>>,
    /// The override entries the namespace was atomically replaced with.
    pub staged: Vec<(u64, String)>,
}

/// Phase LEDGER COMMIT: atomically replaces the guild's override set with
/// exactly this pass's overrides — every assignment whose candidate is not
/// the member's recorded canonical name — before any new rename is issued.
pub fn commit_sync(ledger: &mut GuildLedger, assignments: &Vec<(u64, String)>) -> (r: Result<
    CommitOutcome,
    StoreError,
>)
    ensures
        final(ledger).guild() == old(ledger).guild(),
        final(ledger).canonical() == old(ledger).canonical(),
        r matches Ok(out) ==> {
            &&& out.canonical_reads@.len() == assignments@.len()
            &&& forall|i: int|
                0 <= i < assignments@.len() ==> match #[trigger] out.canonical_reads@[i] {
                    Some(s) => spec_lookup_name(old(ledger).canonical(), assignments@[i].0)
                        == Some(s@),
                    None => true,
                }
            &&& forall|i: int|
                0 <= i < assignments@.len() ==> (spec_lookup_name(
                    old(ledger).canonical(),
                    assignments@[i].0,
                ) is None ==> #[trigger] out.canonical_reads@[i] is None)
            &&& entries_view(out.staged@) == spec_select_overrides(
                entries_view(assignments@),
                opts_view(out.canonical_reads@),
            )
            &&& final(ledger).overrides() == spec_entries_map(entries_view(out.staged@))
        },
{
    let mut ids: Vec<u64> = Vec::new();
    for i in 0..assignments.len()
        invariant
            ids@.len() == i,
            forall|k: int| 0 <= k < i ==> #[trigger] ids@[k] == assignments@[k].0,
    {
        ids.push(assignments[i].0);
    }
    let reads = read_canonicals(ledger, &ids);
    let staged = select_overrides(assignments, &reads);
    match ledger.clear_and_stage_overrides(&staged) {
        Ok(()) => Ok(CommitOutcome { canonical_reads: reads, staged }),
        Err(e) => Err(e),
    }
}

/// A pass with no prior override records stages every member.
proof fn lemma_select_stage_all_fresh(members: Seq<MemberView>, reads: Seq<Option<Seq<char>>>)
    requires
        reads.len() == members.len(),
        forall|k: int| 0 <= k < reads.len() ==> (#[trigger] reads[k]) is None,
    ensures
        spec_select_stage(members, reads) == members.map_values(
            |m: MemberView| (m.user_id, m.display_name@),
        ),
    decreases members.len(),
{
    let f = |m: MemberView| (m.user_id, m.display_name@);
    if members.len() == 0 {
        assert(spec_select_stage(members, reads) =~= members.map_values(f));
    } else {
        assert forall|k: int|
            0 <= k < reads.drop_last().len() implies (#[trigger] reads.drop_last()[k]) is None by {
            assert(reads.drop_last()[k] == reads[k]);
        }
        lemma_select_stage_all_fresh(members.drop_last(), reads.drop_last());
        assert(reads.last() is None);
        assert(members.map_values(f) =~= members.drop_last().map_values(f).push(
            f(members.last()),
        ));
    }
}

/// Law (old-first staging): in a pass over members none of whom has a
/// prior override record, the ASSIGN phase stages every member's display
/// name, so once `prepare_sync` returns — and before any rename is handed
/// back to the caller to issue — each member's canonical record reads
/// exactly their display name.
pub proof fn lemma_canonicals_staged_before_renames(
    c0: Map<Seq<u8>, Seq<u8>>,
    members: Seq<MemberView>,
    reads: Seq<Option<Seq<char>>>,
    i: int,
)
    requires
        reads.len() == members.len(),
        forall|k: int| 0 <= k < reads.len() ==> (#[trigger] reads[k]) is None,
        0 <= i < members.len(),
        forall|j: int|
            0 <= j < members.len() && j != i ==> (#[trigger] members[j]).user_id
                != members[i].user_id,
    ensures
        spec_lookup_name(
            spec_stage(c0, spec_select_stage(members, reads)),
            members[i].user_id,
        ) == Some(members[i].display_name@),
{
    lemma_select_stage_all_fresh(members, reads);
    let es = members.map_values(|m: MemberView| (m.user_id, m.display_name@));
    assert(es[i] == (members[i].user_id, members[i].display_name@));
    assert forall|j: int| i < j < es.len() implies (#[trigger] es[j]).0 != es[i].0 by {
        assert(es[j] == (members[j].user_id, members[j].display_name@));
    }
    lemma_stage_then_lookup(c0, es, i);
}

/// What a bulk guild load recorded.
pub struct GuildLoadOutcome {
    /// Each member's recorded override name, as read.
    pub override_reads: Vec<Option<String>>,
    /// The canonical-name entries that were staged.
    pub staged: Vec<(u64, String)>,
}

/// Bulk guild load: atomically records the canonical name of every guild
/// member whose current display name is not an override this system
/// imposed.  A member still displaying a recorded override keeps their
/// canonical record untouched, so a bot-given name never becomes
/// canonical.
pub fn stage_guild_canonicals(ledger: &mut GuildLedger, members: &Vec<MemberView>) -> (r: Result<
    GuildLoadOutcome,
    StoreError,
>)
    ensures
        final(ledger).guild() == old(ledger).guild(),
        final(ledger).overrides() == old(ledger).overrides(),
        r matches Ok(out) ==> {
            &&& out.override_reads@.len() == members@.len()
            &&& forall|i: int|
                0 <= i < members@.len() ==> match #[trigger] out.override_reads@[i] {
                    Some(s) => spec_lookup_name(old(ledger).overrides(), members@[i].user_id)
                        == Some(s@),
                    None => true,
                }
            &&& forall|i: int|
                0 <= i < members@.len() ==> (spec_lookup_name(
                    old(ledger).overrides(),
                    members@[i].user_id,
                ) is None ==> #[trigger] out.override_reads@[i] is None)
            &&& entries_view(out.staged@) == spec_select_stage(
                members@,
                opts_view(out.override_reads@),
            )
            &&& final(ledger).canonical() == spec_stage(
                old(ledger).canonical(),
                entries_view(out.staged@),
            )
        },
{
    let prior = read_overrides(ledger, members);
    let staged = select_canonical_stage(members, &prior);
    match ledger.record_batch(&staged) {
        Ok(()) => Ok(GuildLoadOutcome { override_reads: prior, staged }),
        Err(e) => Err(e),
    }
}

/// A member-update event: when the member's new display name is not an
/// override this system imposed, any stale override entry is dropped and
/// the new name is recorded as canonical; a display name still matching
/// the recorded override is this system's own doing and changes nothing.
pub fn note_member_update(ledger: &mut GuildLedger, user_id: u64, display_name: &String) -> (r:
    Result<(), StoreError>)
    ensures
        final(ledger).guild() == old(ledger).guild(),
        r is Ok ==> (final(ledger).overrides() == old(ledger).overrides()
            && final(ledger).canonical() == old(ledger).canonical())
            || (final(ledger).overrides() == old(ledger).overrides().remove(be64(user_id))
            && final(ledger).canonical() == old(ledger).canonical().insert(
            be64(user_id),
            encode_utf8(display_name@),
        )),
        r is Ok && spec_lookup_name(old(ledger).overrides(), user_id) is None ==> final(
            ledger
        ).overrides() == old(ledger).overrides().remove(be64(user_id)) && final(
            ledger
        ).canonical() == old(ledger).canonical().insert(be64(user_id), encode_utf8(display_name@)),
        r is Ok && spec_lookup_name(old(ledger).overrides(), user_id) is Some && spec_lookup_name(
            old(ledger).overrides(),
            user_id,
        ) != Some(display_name@) ==> final(ledger).overrides() == old(ledger).overrides().remove(
            be64(user_id),
        ) && final(ledger).canonical() == old(ledger).canonical().insert(
            be64(user_id),
            encode_utf8(display_name@),
        ),
{
    if ledger.has_overridden_name(user_id, display_name) {
        return Ok(());
    }
    match ledger.remove_override(user_id) {
        Ok(()) => {},
        Err(e) => {
            return Err(e);
        },
    }
    ledger.set_canonical_name(user_id, display_name)
}

/// A member leaving voice: the name to reissue for them — their recorded
/// canonical name, or their account username when no record can be read.
pub fn leaving_member_restore_name(ledger: &GuildLedger, user_id: u64, username: &String) -> (r:
    String)
    ensures
        spec_lookup_name(ledger.canonical(), user_id) == Some(r@) || r@ == username@,
        spec_lookup_name(ledger.canonical(), user_id) is None ==> r@ == username@,
{
    match ledger.get_original(user_id) {
        Some(n) => n,
        None => username.clone(),
    }
}

} // verus!
