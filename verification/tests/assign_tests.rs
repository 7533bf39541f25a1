use nickledger::activity::ActivityInfo;
use nickledger::activity::WATCHED_GAME_APPLICATION_ID;
use nickledger::activity::current_champion_from_activities;
use nickledger::activity::detect_labels;
use nickledger::assign::MemberView;
use nickledger::assign::assign_nicks;
use nickledger::assign::gen_derangement;
use nickledger::nick_overrides::nick_override;
use nickledger::roles::max_role_position;
use nickledger::roles::member_renameable;
use nickledger::roles::role_position;

fn member(user_id: u64, name: &str) -> MemberView {
    MemberView {
        user_id,
        username: name.to_string(),
        display_name: name.to_string(),
    }
}

#[test]
fn derangement_has_no_fixed_points_for_two_and_more() {
    for n in 2..=25usize {
        for _ in 0..3 {
            let d = gen_derangement(n);
            assert_eq!(d.len(), n);
            let mut seen = vec![false; n];
            for (i, &v) in d.iter().enumerate() {
                assert!(v < n);
                assert!(!seen[v]);
                seen[v] = true;
                assert_ne!(v, i);
            }
        }
    }
}

#[test]
fn derangement_trivial_sizes_terminate() {
    assert_eq!(gen_derangement(0), Vec::<usize>::new());
    assert_eq!(gen_derangement(1), vec![0]);
}

#[test]
fn detector_takes_first_matching_activity() {
    let acts = vec![
        ActivityInfo {
            playing: false,
            application_id: Some(WATCHED_GAME_APPLICATION_ID),
            large_text: Some("Listening".to_string()),
        },
        ActivityInfo {
            playing: true,
            application_id: Some(12345),
            large_text: Some("OtherGame".to_string()),
        },
        ActivityInfo {
            playing: true,
            application_id: Some(WATCHED_GAME_APPLICATION_ID),
            large_text: None,
        },
        ActivityInfo {
            playing: true,
            application_id: Some(WATCHED_GAME_APPLICATION_ID),
            large_text: Some("Ashe".to_string()),
        },
        ActivityInfo {
            playing: true,
            application_id: Some(WATCHED_GAME_APPLICATION_ID),
            large_text: Some("Lux".to_string()),
        },
    ];
    assert_eq!(
        current_champion_from_activities(&acts, WATCHED_GAME_APPLICATION_ID),
        Some("Ashe".to_string())
    );
    assert_eq!(current_champion_from_activities(&vec![], WATCHED_GAME_APPLICATION_ID), None);
}

#[test]
fn detect_labels_is_index_aligned() {
    let presences = vec![
        vec![],
        vec![ActivityInfo {
            playing: true,
            application_id: Some(WATCHED_GAME_APPLICATION_ID),
            large_text: Some("Jinx".to_string()),
        }],
    ];
    let labels = detect_labels(&presences, WATCHED_GAME_APPLICATION_ID);
    assert_eq!(labels, vec![None, Some("Jinx".to_string())]);
}

#[test]
fn assignment_priority_order() {
    let members = vec![member(1, "alice"), member(2, "bob"), member(3, "carol")];
    // donor rotation: 1 draws from 2, 2 from 3, 3 from 1
    let donor = vec![1usize, 2, 0];
    let labels = vec![None, Some("Ashe".to_string()), None];
    let priors = vec![None, Some("OldNick".to_string()), None];
    let r = assign_nicks(&members, &labels, &priors, &donor);
    // member 1's donor (index 1) has a label
    assert_eq!(r[0], (1, "Ashe".to_string()));
    // member 2's donor has none; their own prior override wins
    assert_eq!(r[1], (2, "OldNick".to_string()));
    // member 3's donor has none and no prior: own username
    assert_eq!(r[2], (3, "carol".to_string()));
}

#[test]
fn permission_filter_requires_strictly_higher_position() {
    let catalog = vec![(100u64, 5u16), (200, 5), (300, 7)];
    // equal positions do not suffice: a member at position 5 is not
    // renameable by a system whose own best position is also 5
    assert!(!member_renameable(&catalog, &vec![100], &vec![200]));
    // strictly higher system position admits the member
    assert!(member_renameable(&catalog, &vec![100], &vec![300]));
    // and strictly lower does not
    assert!(!member_renameable(&catalog, &vec![300], &vec![100]));
}

#[test]
fn max_role_position_defaults_to_zero() {
    let catalog = vec![(1u64, 3u16), (2, 9)];
    assert_eq!(max_role_position(&catalog, &vec![]), 0);
    assert_eq!(max_role_position(&catalog, &vec![5, 6]), 0);
    assert_eq!(max_role_position(&catalog, &vec![1, 2]), 9);
    assert_eq!(max_role_position(&catalog, &vec![1, 7]), 3);
    assert_eq!(role_position(&catalog, 2), Some(9));
    assert_eq!(role_position(&catalog, 4), None);
}

#[test]
fn pinned_labels_table() {
    assert_eq!(nick_override(454536016728948746), Some("nilah"));
    assert_eq!(nick_override(117837849830752258), Some("Jhin"));
    assert_eq!(nick_override(1), None);
}
