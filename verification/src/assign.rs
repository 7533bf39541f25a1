//! The assignment engine: one candidate name per present member.
//!
//! The donor relationship is a random permutation of the channel's members
//! with no fixed points — a derangement — so with two or more members no
//! member can source a label from themself.  For a single member no
//! derangement exists and the member self-maps; an empty channel gets the
//! empty assignment.  A member's candidate name is, in priority order: the
//! persona label detected for their donor, their own previously ledgered
//! override name, their own canonical username.

use vstd::prelude::*;

verus! {

#[verifier::external_type_specification]
#[verifier::external_body]
pub struct ExThreadRng(rand::rngs::ThreadRng);

/// Relies on rand::thread_rng: a handle to the thread-local random
/// generator.  Nothing is assumed of the numbers it yields.
#[verifier::external_body]
pub(crate) fn fresh_rng() -> rand::rngs::ThreadRng {
    rand::thread_rng()
}

/// Relies on derangement's Derange::new (read via Derange::map): it
/// shuffles 0..size and splices the result into cycles of length at least
/// two, so whatever the random draws were, the returned map is a
/// permutation of 0..size in which no index maps to itself.  Sizes 0 and 1
/// are kept out: for size 1 the construction's partition step has no legal
/// cycle length and panics.
#[verifier::external_body]
pub(crate) fn random_derangement(rng: &mut rand::rngs::ThreadRng, size: usize) -> (r: Vec<usize>)
    requires
        size >= 2,
    ensures
        r@.len() == size,
        forall|i: int| 0 <= i < size ==> #[trigger] r@[i] < size,
        forall|i: int, j: int| 0 <= i < j < size ==> r@[i] != r@[j],
        forall|i: int| 0 <= i < size ==> #[trigger] r@[i] != i,
{
    derangement::derange::Derange::new(rng, size).map().to_vec()
}

/// Whether a map over 0..len hits every slot exactly once.
pub open spec fn is_permutation(p: Seq<usize>) -> bool {
    &&& forall|i: int| 0 <= i < p.len() ==> #[trigger] p[i] < p.len()
    &&& forall|i: int, j: int| 0 <= i < j < p.len() ==> p[i] != p[j]
}

/// Whether no index maps to itself.
pub open spec fn has_no_fixed_point(p: Seq<usize>) -> bool {
    forall|i: int| 0 <= i < p.len() ==> #[trigger] p[i] != i
}

/// The donor permutation for a channel with the given number of members.
///
/// For every size this terminates and returns a permutation; for sizes of
/// two and above it is a derangement, so no member donates to themself;
/// the single member of a one-member channel necessarily self-maps.
pub fn gen_derangement(size: usize) -> (r: Vec<usize>)
    ensures
        r@.len() == size,
        is_permutation(r@),
        size != 1 ==> has_no_fixed_point(r@),
        size == 1 ==> r@ == seq![0usize],
{
    if size == 0 {
        Vec::new()
    } else if size == 1 {
        let mut v: Vec<usize> = Vec::new();
        v.push(0);
        proof {
            assert(v@ =~= seq![0usize]);
        }
        v
    } else {
        let mut rng = fresh_rng();
        random_derangement(&mut rng, size)
    }
}

/// A channel member as the assignment engine sees one: the platform ids
/// and names the pass was handed for them.
#[derive(Clone)]
pub struct MemberView {
    /// The member's user id.
    pub user_id: u64,
    /// The member's account username — the last-resort candidate name.
    pub username: String,
    /// The name the member currently displays in the guild.
    pub display_name: String,
}

/// An option's contents as a character sequence.
pub open spec fn view_opt(o: Option<String>) -> Option<Seq<char>> {
    match o {
        Some(s) => Some(s@),
        None => None,
    }
}

/// The candidate name for one member: the donor's label if the donor has
/// one, else the member's ledgered override name if any, else the member's
/// own username.
pub open spec fn spec_candidate(
    member: MemberView,
    donor_label: Option<Seq<char>>,
    prior_override: Option<Seq<char>>,
) -> Seq<char> {
    match donor_label {
        Some(l) => l,
        None => match prior_override {
            Some(n) => n,
            None => member.username@,
        },
    }
}

/// Law (no self-sourcing): with at least two members present, the donor
/// permutation has no fixed point, so a member whose label nobody else
/// announces can never have that label handed back to them: their
/// candidate is computed exactly as if no label were on offer.
pub proof fn lemma_own_label_never_returned(
    members: Seq<MemberView>,
    labels: Seq<Option<String>>,
    priors: Seq<Option<String>>,
    donor: Seq<usize>,
    i: int,
)
    requires
        labels.len() == members.len(),
        priors.len() == members.len(),
        donor.len() == members.len(),
        members.len() >= 2,
        forall|k: int| 0 <= k < donor.len() ==> #[trigger] donor[k] < members.len(),
        has_no_fixed_point(donor),
        0 <= i < members.len(),
        forall|j: int| 0 <= j < labels.len() && j != i ==> (#[trigger] labels[j]) is None,
    ensures
        spec_candidate(members[i], view_opt(labels[donor[i] as int]), view_opt(priors[i]))
            == spec_candidate(members[i], None, view_opt(priors[i])),
{
    assert(donor[i] != i);
    assert(labels[donor[i] as int] is None);
}

/// Law (single-label channel of three): when exactly one of three present
/// members announces a label and nobody has a prior override, the
/// announcer's candidate is their own username; exactly one of the other
/// two members draws from the announcer and so receives the label; and
/// the remaining member's candidate is their own username.
pub proof fn lemma_single_label_three_members(
    members: Seq<MemberView>,
    labels: Seq<Option<String>>,
    priors: Seq<Option<String>>,
    donor: Seq<usize>,
)
    requires
        members.len() == 3,
        labels.len() == 3,
        priors.len() == 3,
        donor.len() == 3,
        is_permutation(donor),
        has_no_fixed_point(donor),
        labels[0] is Some,
        labels[1] is None,
        labels[2] is None,
        priors[0] is None,
        priors[1] is None,
        priors[2] is None,
    ensures
        spec_candidate(members[0], view_opt(labels[donor[0] as int]), view_opt(priors[0]))
            == members[0].username@,
        exists|i: int| 1 <= i <= 2 && #[trigger] donor[i] == 0,
        forall|i: int, j: int| 1 <= i < j <= 2 ==> !(donor[i] == 0 && donor[j] == 0),
        forall|i: int|
            1 <= i <= 2 && #[trigger] donor[i] == 0 ==> spec_candidate(
                members[i],
                view_opt(labels[donor[i] as int]),
                view_opt(priors[i]),
            ) == (labels[0]->Some_0)@,
        forall|i: int|
            1 <= i <= 2 && #[trigger] donor[i] != 0 ==> spec_candidate(
                members[i],
                view_opt(labels[donor[i] as int]),
                view_opt(priors[i]),
            ) == members[i].username@,
{
    assert(donor[0] != 0 && donor[0] < 3);
    assert(donor[1] != 1 && donor[1] < 3);
    assert(donor[2] != 2 && donor[2] < 3);
    assert(donor[0] != donor[1] && donor[0] != donor[2] && donor[1] != donor[2]);
    // the announcer's donor is one of the silent members
    assert(labels[donor[0] as int] is None);
    // the announcer is someone's donor: three distinct values below 3
    // cannot all avoid 0
    if donor[1] == 0 {
        assert(donor[1] == 0 && 1 <= 1 <= 2);
    } else {
        assert(donor[2] == 0);
    }
    assert forall|i: int| 1 <= i <= 2 && #[trigger] donor[i] != 0 implies spec_candidate(
        members[i],
        view_opt(labels[donor[i] as int]),
        view_opt(priors[i]),
    ) == members[i].username@ by {
        assert(donor[i] != i && donor[i] < 3);
        assert(labels[donor[i] as int] is None);
    }
}

/// One candidate name per present member, in member order: member `i`
/// draws a label from member `donor[i]` and falls back to their own prior
/// override, then their own username.
pub fn assign_nicks(
    members: &Vec<MemberView>,
    labels: &Vec<Option<String>>,
    priors: &Vec<Option<String>>,
    donor: &Vec<usize>,
) -> (r: Vec<(u64, String)>)
    requires
        labels@.len() == members@.len(),
        priors@.len() == members@.len(),
        donor@.len() == members@.len(),
        forall|i: int| 0 <= i < donor@.len() ==> #[trigger] donor@[i] < members@.len(),
    ensures
        r@.len() == members@.len(),
        forall|i: int|
            0 <= i < r@.len() ==> (#[trigger] r@[i]).0 == members@[i].user_id && r@[i].1@
                == spec_candidate(
                members@[i],
                view_opt(labels@[donor@[i] as int]),
                view_opt(priors@[i]),
            ),
{
    let mut r: Vec<(u64, String)> = Vec::new();
    for i in 0..members.len()
        invariant
            labels@.len() == members@.len(),
            priors@.len() == members@.len(),
            donor@.len() == members@.len(),
            forall|k: int| 0 <= k < donor@.len() ==> #[trigger] donor@[k] < members@.len(),
            r@.len() == i,
            forall|k: int|
                0 <= k < i ==> (#[trigger] r@[k]).0 == members@[k].user_id && r@[k].1@
                    == spec_candidate(
                    members@[k],
                    view_opt(labels@[donor@[k] as int]),
                    view_opt(priors@[k]),
                ),
    {
        let name: String = match &labels[donor[i]] {
            Some(l) => l.clone(),
            None => match &priors[i] {
                Some(n) => n.clone(),
                None => members[i].username.clone(),
            },
        };
        r.push((members[i].user_id, name));
    }
    r
}

} // verus!
