//! The activity detector: reads a persona label out of presence data.
//!
//! A member's presence carries an ordered list of activities.  The
//! detector scans it for the first activity that is of the "currently
//! playing" kind, carries the watched game's application id, and has the
//! free-text field that encodes the active in-game persona; that text is
//! the label.  There are no error states: anything else is simply "no
//! label".

use vstd::prelude::*;

verus! {

/// The application id of the game whose sessions are watched.
pub const WATCHED_GAME_APPLICATION_ID: u64 = 401518684763586560;

/// One presence activity, reduced to the fields the detector reads.
#[derive(Clone)]
pub struct ActivityInfo {
    /// Whether the activity is of the "currently playing" kind.
    pub playing: bool,
    /// The application id the platform attached to the activity, if any.
    pub application_id: Option<u64>,
    /// The free text attached to the activity's large asset; for the
    /// watched game it names the active in-game persona.
    pub large_text: Option<String>,
}

impl ActivityInfo {
    /// Whether this activity announces the watched game being played, with
    /// a persona label attached.
    pub open spec fn spec_matches(self, target_app_id: u64) -> bool {
        self.playing && self.application_id == Some(target_app_id) && self.large_text is Some
    }
}

/// The label of the first matching activity, in list order, if any.
pub open spec fn spec_first_label(s: Seq<ActivityInfo>, target_app_id: u64) -> Option<Seq<char>>
    decreases s.len(),
{
    if s.len() == 0 {
        None
    } else if s[0].spec_matches(target_app_id) {
        Some((s[0].large_text->Some_0)@)
    } else {
        spec_first_label(s.drop_first(), target_app_id)
    }
}

/// The persona label announced by the first activity that is currently
/// playing the watched game, or nothing if no activity matches.
pub fn current_champion_from_activities(activities: &Vec<ActivityInfo>, target_app_id: u64) -> (r:
    Option<String>)
    ensures
        match r {
            Some(s) => spec_first_label(activities@, target_app_id) == Some(s@),
            None => spec_first_label(activities@, target_app_id) is None,
        },
{
    proof {
        assert(activities@.skip(0) =~= activities@);
    }
    for i in 0..activities.len()
        invariant
            spec_first_label(activities@, target_app_id) == spec_first_label(
                activities@.skip(i as int),
                target_app_id,
            ),
    {
        let a = &activities[i];
        let id_matches = match a.application_id {
            Some(id) => id == target_app_id,
            None => false,
        };
        if a.playing && id_matches {
            if let Some(t) = &a.large_text {
                return Some(t.clone());
            }
        }
        proof {
            assert(activities@.skip(i as int).drop_first() =~= activities@.skip(i + 1));
        }
    }
    None
}

/// The label detected for each presence, index-aligned with the input.
pub fn detect_labels(presences: &Vec<Vec<ActivityInfo>>, target_app_id: u64) -> (r: Vec<
    Option<String>,
>)
    ensures
        r@.len() == presences@.len(),
        forall|i: int|
            0 <= i < r@.len() ==> match #[trigger] r@[i] {
                Some(s) => spec_first_label(presences@[i]@, target_app_id) == Some(s@),
                None => spec_first_label(presences@[i]@, target_app_id) is None,
            },
{
    let mut r: Vec<Option<String>> = Vec::new();
    for i in 0..presences.len()
        invariant
            r@.len() == i,
            forall|k: int|
                0 <= k < i ==> match #[trigger] r@[k] {
                    Some(s) => spec_first_label(presences@[k]@, target_app_id) == Some(s@),
                    None => spec_first_label(presences@[k]@, target_app_id) is None,
                },
    {
        r.push(current_champion_from_activities(&presences[i], target_app_id));
    }
    r
}

} // verus!
