use nickledger::keys::DbKey;
use nickledger::keys::name_overrides_db_tree_name;
use nickledger::keys::u64_to_be_bytes;
use nickledger::ledger::GuildLedger;
use nickledger::ledger::get_name;
use nickledger::ledger::to_ledger_entry;

fn temp_db() -> sled::Db {
    sled::Config::new().temporary(true).open().unwrap()
}

#[test]
fn record_batch_then_get_original_round_trips() {
    let mut db = temp_db();
    let mut ledger = GuildLedger::open(&mut db, 42).unwrap();
    let entries: Vec<(u64, String)> = vec![
        (1, "plain".to_string()),
        (2, "Ωmega αβ".to_string()),
        (3, "snow\u{2603}man".to_string()),
        (4, "".to_string()),
    ];
    ledger.record_batch(&entries).unwrap();
    for (user, name) in &entries {
        assert_eq!(ledger.get_original(*user), Some(name.clone()));
    }
    assert_eq!(ledger.get_original(99), None);
}

#[test]
fn record_batch_later_entry_wins() {
    let mut db = temp_db();
    let mut ledger = GuildLedger::open(&mut db, 1).unwrap();
    let entries: Vec<(u64, String)> =
        vec![(7, "first".to_string()), (7, "second".to_string())];
    ledger.record_batch(&entries).unwrap();
    assert_eq!(ledger.get_original(7), Some("second".to_string()));
}

#[test]
fn clear_and_stage_fully_replaces() {
    let mut db = temp_db();
    let mut ledger = GuildLedger::open(&mut db, 5).unwrap();
    let a: u64 = 10;
    let b: u64 = 11;
    ledger
        .clear_and_stage_overrides(&vec![(a, "y".to_string()), (b, "z".to_string())])
        .unwrap();
    assert_eq!(ledger.get_override(a), Some("y".to_string()));
    assert_eq!(ledger.get_override(b), Some("z".to_string()));
    ledger.clear_and_stage_overrides(&vec![(a, "x".to_string())]).unwrap();
    assert_eq!(ledger.get_override(a), Some("x".to_string()));
    assert_eq!(ledger.get_override(b), None);
    let listing = ledger.override_entries().unwrap();
    assert_eq!(listing.len(), 1);
    assert_eq!(listing[0].0, a);
    assert_eq!(listing[0].1.as_str(), "x");
}

#[test]
fn clear_and_stage_with_empty_entries_empties_namespace() {
    let mut db = temp_db();
    let mut ledger = GuildLedger::open(&mut db, 5).unwrap();
    ledger.clear_and_stage_overrides(&vec![(1, "a".to_string())]).unwrap();
    ledger.clear_and_stage_overrides(&vec![]).unwrap();
    assert!(ledger.override_entries().unwrap().is_empty());
}

#[test]
fn remove_member_deletes_both_records() {
    let mut db = temp_db();
    let mut ledger = GuildLedger::open(&mut db, 3).unwrap();
    ledger.record_batch(&vec![(8, "canon".to_string())]).unwrap();
    ledger.clear_and_stage_overrides(&vec![(8, "over".to_string())]).unwrap();
    ledger.remove_member(8).unwrap();
    assert_eq!(ledger.get_original(8), None);
    assert_eq!(ledger.get_override(8), None);
}

#[test]
fn remove_override_keeps_canonical() {
    let mut db = temp_db();
    let mut ledger = GuildLedger::open(&mut db, 3).unwrap();
    ledger.record_batch(&vec![(8, "canon".to_string())]).unwrap();
    ledger.clear_and_stage_overrides(&vec![(8, "over".to_string())]).unwrap();
    ledger.remove_override(8).unwrap();
    assert_eq!(ledger.get_override(8), None);
    assert_eq!(ledger.get_original(8), Some("canon".to_string()));
}

#[test]
fn has_overridden_name_matches_exactly() {
    let mut db = temp_db();
    let mut ledger = GuildLedger::open(&mut db, 3).unwrap();
    ledger.clear_and_stage_overrides(&vec![(8, "Teemo".to_string())]).unwrap();
    assert!(ledger.has_overridden_name(8, &"Teemo".to_string()));
    assert!(!ledger.has_overridden_name(8, &"teemo".to_string()));
    assert!(!ledger.has_overridden_name(9, &"Teemo".to_string()));
}

#[test]
fn malformed_stored_bytes_read_as_absent() {
    let mut db = temp_db();
    let guild: u64 = 77;
    let mut ledger = GuildLedger::open(&mut db, guild).unwrap();
    ledger.record_batch(&vec![(1, "ok".to_string())]).unwrap();
    // plant a record with invalid UTF-8 and one with a short key,
    // through the raw store
    let tree = db.open_tree(u64_to_be_bytes(guild)).unwrap();
    tree.insert(u64_to_be_bytes(2), &[0xffu8, 0xfe, 0x00][..]).unwrap();
    tree.insert(&b"shortkey!"[..], &b"name"[..]).unwrap();
    assert_eq!(ledger.get_original(2), None);
    let listing = ledger.canonical_entries().unwrap();
    assert_eq!(listing.len(), 1);
    assert_eq!(listing[0].0, 1);
    assert_eq!(listing[0].1.as_str(), "ok");
}

#[test]
fn get_name_reads_raw_tree() {
    let db = temp_db();
    let tree = db.open_tree(b"sometree").unwrap();
    tree.insert(u64_to_be_bytes(5), "hello".as_bytes()).unwrap();
    assert_eq!(get_name(&tree, DbKey::from_u64(5)), Some("hello".to_string()));
    assert_eq!(get_name(&tree, DbKey::from_u64(6)), None);
}

#[test]
fn set_canonical_name_writes_one_entry() {
    let mut db = temp_db();
    let mut ledger = GuildLedger::open(&mut db, 4).unwrap();
    ledger.set_canonical_name(12, &"direct".to_string()).unwrap();
    assert_eq!(ledger.get_original(12), Some("direct".to_string()));
    assert_eq!(ledger.get_override(12), None);
}

#[test]
fn to_ledger_entry_is_key_and_utf8_bytes() {
    let (k, v) = to_ledger_entry(0x0102030405060708, &"aé".to_string());
    assert_eq!(k, vec![1u8, 2, 3, 4, 5, 6, 7, 8]);
    assert_eq!(v, "aé".as_bytes().to_vec());
}

#[test]
fn dropped_tree_reports_store_error() {
    let mut db = temp_db();
    let guild: u64 = 21;
    let mut ledger = GuildLedger::open(&mut db, guild).unwrap();
    ledger.record_batch(&vec![(1, "a".to_string())]).unwrap();
    db.drop_tree(u64_to_be_bytes(guild)).unwrap();
    db.drop_tree(name_overrides_db_tree_name(guild)).unwrap();
    assert!(ledger.record_batch(&vec![(2, "b".to_string())]).is_err());
    assert!(ledger.clear_and_stage_overrides(&vec![(2, "b".to_string())]).is_err());
}
