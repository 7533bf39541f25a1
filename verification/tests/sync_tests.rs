use nickledger::activity::ActivityInfo;
use nickledger::activity::WATCHED_GAME_APPLICATION_ID;
use nickledger::assign::MemberView;
use nickledger::keys::DbKey;
use nickledger::keys::be_bytes_to_u64;
use nickledger::keys::name_overrides_db_tree_name;
use nickledger::keys::u64_to_be_bytes;
use nickledger::ledger::GuildLedger;
use nickledger::sync::commit_sync;
use nickledger::sync::leaving_member_restore_name;
use nickledger::sync::note_member_update;
use nickledger::sync::prepare_sync;
use nickledger::sync::stage_guild_canonicals;

fn temp_db() -> sled::Db {
    sled::Config::new().temporary(true).open().unwrap()
}

fn member(user_id: u64, name: &str) -> MemberView {
    MemberView {
        user_id,
        username: name.to_string(),
        display_name: name.to_string(),
    }
}

fn playing(label: &str) -> Vec<ActivityInfo> {
    vec![ActivityInfo {
        playing: true,
        application_id: Some(WATCHED_GAME_APPLICATION_ID),
        large_text: Some(label.to_string()),
    }]
}

#[test]
fn end_to_end_pass_assigns_ashe_to_someone_else() {
    let mut db = temp_db();
    let guild: u64 = 7;
    let mut ledger = GuildLedger::open(&mut db, guild).unwrap();
    let members = vec![member(1, "alice"), member(2, "bob"), member(3, "carol")];
    let presences = vec![playing("Ashe"), vec![], vec![]];

    let prep = prepare_sync(&mut ledger, &members, &presences, WATCHED_GAME_APPLICATION_ID)
        .unwrap();

    // all three got canonical-name ledger entries before any rename call
    for m in &members {
        assert_eq!(ledger.get_original(m.user_id), Some(m.display_name.clone()));
    }
    // the pre-commit (old-first) list covers all three canonical names
    assert_eq!(prep.pre_commit.len(), 3);
    for m in &members {
        assert!(prep.pre_commit.contains(&(m.user_id, m.display_name.clone())));
    }

    // "Ashe" is never assigned to its announcer
    let a_candidate = &prep.assignments.iter().find(|p| p.0 == 1).unwrap().1;
    assert_eq!(a_candidate.as_str(), "alice");
    // exactly one of the others receives "Ashe"
    let recipients: Vec<u64> = prep
        .assignments
        .iter()
        .filter(|p| p.1.as_str() == "Ashe")
        .map(|p| p.0)
        .collect();
    assert_eq!(recipients.len(), 1);
    let recipient = recipients[0];
    assert!(recipient == 2 || recipient == 3);
    // the remaining members receive their own canonical usernames
    for p in &prep.assignments {
        if p.0 != recipient {
            let m = members.iter().find(|m| m.user_id == p.0).unwrap();
            assert_eq!(p.1, m.username);
        }
    }

    let out = commit_sync(&mut ledger, &prep.assignments).unwrap();
    // the post-pass override namespace holds exactly one entry: the recipient
    let overrides = ledger.override_entries().unwrap();
    assert_eq!(overrides.len(), 1);
    assert_eq!(overrides[0].0, recipient);
    assert_eq!(overrides[0].1.as_str(), "Ashe");
    assert_eq!(out.staged.len(), 1);
}

#[test]
fn prior_override_is_sticky_across_passes() {
    let mut db = temp_db();
    let mut ledger = GuildLedger::open(&mut db, 7).unwrap();
    let members = vec![member(1, "alice"), member(2, "bob")];
    // a first pass with a label leaves one override: bob gets alice's "Lux"
    let presences = vec![playing("Lux"), vec![]];
    let prep = prepare_sync(&mut ledger, &members, &presences, WATCHED_GAME_APPLICATION_ID)
        .unwrap();
    commit_sync(&mut ledger, &prep.assignments).unwrap();
    let overrides = ledger.override_entries().unwrap();
    assert_eq!(overrides, vec![(2, "Lux".to_string())]);
    // a second, quiet pass: the previously ledgered override is the
    // second-priority candidate, so bob keeps "Lux" and the replaced
    // override set records it again
    let quiet = vec![vec![], vec![]];
    let prep2 = prepare_sync(&mut ledger, &members, &quiet, WATCHED_GAME_APPLICATION_ID)
        .unwrap();
    assert_eq!(
        prep2.assignments,
        vec![(1, "alice".to_string()), (2, "Lux".to_string())]
    );
    commit_sync(&mut ledger, &prep2.assignments).unwrap();
    assert_eq!(
        ledger.override_entries().unwrap(),
        vec![(2, "Lux".to_string())]
    );
}

#[test]
fn empty_and_single_member_passes_terminate() {
    let mut db = temp_db();
    let mut ledger = GuildLedger::open(&mut db, 7).unwrap();
    let none: Vec<MemberView> = vec![];
    let prep = prepare_sync(&mut ledger, &none, &vec![], WATCHED_GAME_APPLICATION_ID).unwrap();
    assert!(prep.assignments.is_empty());
    commit_sync(&mut ledger, &prep.assignments).unwrap();

    let solo = vec![member(9, "dana")];
    let presences = vec![playing("Sona")];
    let prep = prepare_sync(&mut ledger, &solo, &presences, WATCHED_GAME_APPLICATION_ID)
        .unwrap();
    // with one member the donor permutation self-maps: dana sources dana's label
    assert_eq!(prep.assignments, vec![(9, "Sona".to_string())]);
}

#[test]
fn guild_load_skips_members_under_override() {
    let mut db = temp_db();
    let mut ledger = GuildLedger::open(&mut db, 8).unwrap();
    ledger.set_canonical_name(1, &"real_alice".to_string()).unwrap();
    ledger
        .clear_and_stage_overrides(&vec![(1, "Ashe".to_string())])
        .unwrap();
    // member 1 still displays the override; member 2 displays a human name
    let members = vec![
        MemberView {
            user_id: 1,
            username: "alice".to_string(),
            display_name: "Ashe".to_string(),
        },
        member(2, "bob"),
    ];
    let out = stage_guild_canonicals(&mut ledger, &members).unwrap();
    assert_eq!(out.staged, vec![(2, "bob".to_string())]);
    // the canonical record of the overridden member was not clobbered
    assert_eq!(ledger.get_original(1), Some("real_alice".to_string()));
    assert_eq!(ledger.get_original(2), Some("bob".to_string()));
}

#[test]
fn member_update_drops_stale_override_and_records_name() {
    let mut db = temp_db();
    let mut ledger = GuildLedger::open(&mut db, 8).unwrap();
    ledger.set_canonical_name(5, &"old".to_string()).unwrap();
    ledger
        .clear_and_stage_overrides(&vec![(5, "BotName".to_string())])
        .unwrap();
    // the member still shows the bot's name: nothing changes
    note_member_update(&mut ledger, 5, &"BotName".to_string()).unwrap();
    assert_eq!(ledger.get_original(5), Some("old".to_string()));
    assert_eq!(ledger.get_override(5), Some("BotName".to_string()));
    // a human renamed them: the override is stale, the new name is canonical
    note_member_update(&mut ledger, 5, &"HumanPick".to_string()).unwrap();
    assert_eq!(ledger.get_original(5), Some("HumanPick".to_string()));
    assert_eq!(ledger.get_override(5), None);
}

#[test]
fn leaving_member_falls_back_to_username() {
    let mut db = temp_db();
    let mut ledger = GuildLedger::open(&mut db, 8).unwrap();
    ledger.set_canonical_name(6, &"recorded".to_string()).unwrap();
    assert_eq!(
        leaving_member_restore_name(&ledger, 6, &"account".to_string()),
        "recorded".to_string()
    );
    assert_eq!(
        leaving_member_restore_name(&ledger, 7, &"account".to_string()),
        "account".to_string()
    );
}

#[test]
fn key_encoding_is_big_endian_and_round_trips() {
    let bytes = u64_to_be_bytes(0x0102030405060708);
    assert_eq!(bytes, vec![1u8, 2, 3, 4, 5, 6, 7, 8]);
    assert_eq!(be_bytes_to_u64(&bytes), Some(0x0102030405060708));
    assert_eq!(be_bytes_to_u64(&vec![1u8, 2, 3]), None);

    let key = DbKey::from_u64(u64::MAX);
    assert_eq!(key.encoded(), vec![0xffu8; 8]);
    assert_eq!(DbKey::parse(&key.encoded()), Some(key));
    assert_eq!(DbKey::parse(&vec![]), None);
}

#[test]
fn override_namespace_name_is_tagged_guild_key() {
    let name = name_overrides_db_tree_name(0x0102030405060708);
    assert_eq!(name, vec![b'o', 1, 2, 3, 4, 5, 6, 7, 8]);
    // a namespace name can never collide with a bare 8-byte key
    assert_ne!(name.len(), u64_to_be_bytes(0x0102030405060708).len());
}
