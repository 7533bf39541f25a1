use nickledger::activity::WATCHED_GAME_APPLICATION_ID;
use nickledger::activity::ActivityInfo;
use nickledger::assign::MemberView;
use nickledger::ledger::GuildLedger;
use nickledger::restore::classify_tree_names;
use nickledger::restore::decide_revert;
use nickledger::restore::drop_guild_overrides;
use nickledger::restore::list_store_namespaces;
use nickledger::restore::parse_canonical_name;
use nickledger::restore::parse_overrides_name;
use nickledger::restore::plan_full_restore;
use nickledger::restore::run_overridden_restore;
use nickledger::sync::commit_sync;
use nickledger::sync::prepare_sync;

fn temp_db() -> sled::Db {
    sled::Config::new().temporary(true).open().unwrap()
}

fn member(user_id: u64, name: &str) -> MemberView {
    MemberView {
        user_id,
        username: name.to_string(),
        display_name: name.to_string(),
    }
}

#[test]
fn crash_after_commit_full_restore_recovers_everyone() {
    let mut db = temp_db();
    let guild: u64 = 9;
    let mut ledger = GuildLedger::open(&mut db, guild).unwrap();
    let members = vec![member(1, "Alpha"), member(2, "Beta")];
    let presences = vec![
        vec![ActivityInfo {
            playing: true,
            application_id: Some(WATCHED_GAME_APPLICATION_ID),
            large_text: Some("Lux".to_string()),
        }],
        vec![],
    ];
    let prep = prepare_sync(&mut ledger, &members, &presences, WATCHED_GAME_APPLICATION_ID)
        .unwrap();
    commit_sync(&mut ledger, &prep.assignments).unwrap();
    // the process dies before APPLY: no new rename was ever issued.
    // a later full restore must put every affected member back.
    let cmds = plan_full_restore(&ledger).unwrap();
    for m in &members {
        assert!(cmds
            .iter()
            .any(|c| c.guild_id == guild && c.user_id == m.user_id && c.name == m.display_name));
    }
    // teardown drops the guild's override-tracking state
    drop_guild_overrides(&mut db, guild).unwrap();
    let (canonical_guilds, override_guilds) = list_store_namespaces(&db);
    assert!(canonical_guilds.contains(&guild));
    assert!(!override_guilds.contains(&guild));
}

#[test]
fn overridden_only_restore_twice_is_idempotent() {
    let mut db = temp_db();
    let mut ledger = GuildLedger::open(&mut db, 4).unwrap();
    ledger.set_canonical_name(1, &"alice".to_string()).unwrap();
    ledger.set_canonical_name(2, &"bob".to_string()).unwrap();
    ledger
        .clear_and_stage_overrides(&vec![(1, "Ashe".to_string()), (2, "Lux".to_string())])
        .unwrap();

    // first run: member 1 still shows the override, member 2 was renamed
    // by a human meanwhile
    let entries = ledger.override_entries().unwrap();
    assert_eq!(entries.len(), 2);
    let lives: Vec<Option<String>> = entries
        .iter()
        .map(|e| {
            if e.0 == 1 {
                Some(e.1.clone())
            } else {
                Some("HumanPick".to_string())
            }
        })
        .collect();
    let cmds1 = run_overridden_restore(&mut ledger, &entries, &lives).unwrap();
    // only the unchanged member is reverted, to canonical
    assert_eq!(cmds1.len(), 1);
    assert_eq!(cmds1[0].user_id, 1);
    assert_eq!(cmds1[0].name.as_str(), "alice");
    // every examined entry was retired, reverted or not
    assert!(ledger.override_entries().unwrap().is_empty());

    // second run with no external change in between: nothing to examine,
    // no rename issued, namespace still empty
    let entries2 = ledger.override_entries().unwrap();
    assert!(entries2.is_empty());
    let cmds2 = run_overridden_restore(&mut ledger, &entries2, &vec![]).unwrap();
    assert!(cmds2.is_empty());
    assert!(ledger.override_entries().unwrap().is_empty());
}

#[test]
fn decide_revert_cases() {
    let canonical = Some("alice".to_string());
    // live name still equals the recorded override: revert
    let cmd = decide_revert(
        3,
        1,
        &"Ashe".to_string(),
        &Some("Ashe".to_string()),
        canonical.clone(),
    );
    let cmd = cmd.unwrap();
    assert_eq!(cmd.guild_id, 3);
    assert_eq!(cmd.user_id, 1);
    assert_eq!(cmd.name.as_str(), "alice");
    // the member was renamed since: leave them alone
    assert!(decide_revert(
        3,
        1,
        &"Ashe".to_string(),
        &Some("Other".to_string()),
        canonical.clone(),
    )
    .is_none());
    // the live lookup failed: leave them alone
    assert!(decide_revert(3, 1, &"Ashe".to_string(), &None, canonical).is_none());
    // no canonical record: nothing to revert to
    assert!(decide_revert(3, 1, &"Ashe".to_string(), &Some("Ashe".to_string()), None).is_none());
}

#[test]
fn namespace_names_parse_back() {
    assert_eq!(
        parse_canonical_name(&vec![0u8, 0, 0, 0, 0, 0, 0, 5]),
        Some(5)
    );
    assert_eq!(parse_canonical_name(&vec![1u8, 2, 3]), None);
    assert_eq!(
        parse_overrides_name(&vec![b'o', 0, 0, 0, 0, 0, 0, 0, 5]),
        Some(5)
    );
    assert_eq!(parse_overrides_name(&vec![b'x', 0, 0, 0, 0, 0, 0, 0, 5]), None);
    assert_eq!(parse_overrides_name(&vec![b'o', 1, 2]), None);
}

#[test]
fn classify_splits_by_shape() {
    let names = vec![
        vec![0u8, 0, 0, 0, 0, 0, 0, 9],
        b"__sled__default".to_vec(),
        vec![b'o', 0, 0, 0, 0, 0, 0, 0, 9],
        vec![b'o', 0, 0, 0, 0, 0, 0, 0, 2],
    ];
    let (canonical_guilds, override_guilds) = classify_tree_names(&names);
    assert_eq!(canonical_guilds, vec![9]);
    assert_eq!(override_guilds, vec![9, 2]);
}

#[test]
fn store_enumeration_sees_both_namespaces() {
    let mut db = temp_db();
    let guild: u64 = 31;
    let mut ledger = GuildLedger::open(&mut db, guild).unwrap();
    ledger.set_canonical_name(1, &"n".to_string()).unwrap();
    ledger
        .clear_and_stage_overrides(&vec![(1, "o".to_string())])
        .unwrap();
    let (canonical_guilds, override_guilds) = list_store_namespaces(&db);
    assert!(canonical_guilds.contains(&guild));
    assert!(override_guilds.contains(&guild));
}
