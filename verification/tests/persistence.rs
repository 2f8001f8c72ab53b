use indexer::executor::clean_data_for_db;
use indexer::executor::get_config_table_chunk_size;
use indexer::executor::process_create_message_events;
use indexer::executor::process_update_message_events;
use indexer::executor::process_upgrade_module_changes;
use indexer::executor::ChunkTask;
use indexer::executor::TableChunkSize;
use indexer::keyed::KeyedVec;
use indexer::message::Message;
use indexer::reduce::dedup_update_events;
use indexer::store::MessageStore;
use indexer::store::UserStatStore;
use indexer::upgrade::ModuleUpgrade;
use indexer::upgrade_store::ModuleUpgradeStore;

fn msg(subject: &str, creator: &str, created: i64, updated: i64, idx: i64, content: &str) -> Message {
    Message {
        message_obj_addr: String::from(subject),
        creator_addr: String::from(creator),
        creation_timestamp: created,
        last_update_timestamp: updated,
        last_update_event_idx: idx,
        content: String::from(content),
    }
}

fn module_row(name: &str, number: i64) -> ModuleUpgrade {
    ModuleUpgrade {
        module_addr: String::from("0xabc"),
        module_name: String::from(name),
        upgrade_number: number,
        module_bytecode: vec![7],
        module_source_code: String::from("0x"),
        module_abi: String::from("{}"),
        tx_version: 1,
    }
}

#[test]
fn creation_then_stale_then_newer_update() {
    let mut store = MessageStore::new();
    let mut stats = UserStatStore::new();

    // First batch: one creation of subject A by user U at time 100.
    process_create_message_events(
        &mut store,
        &mut stats,
        10,
        vec![msg("0xa", "0xu", 100, 100, 0, "X")],
    );
    {
        let row = store.get("0xa").expect("row A must exist");
        assert_eq!(row.creation_timestamp, 100);
        assert_eq!(row.last_update_timestamp, 100);
        assert_eq!(row.last_update_event_idx, 0);
        assert_eq!(row.content, "X");
        let s = stats.get("0xu").expect("stat row U must exist");
        assert_eq!(s.created_messages, 1);
        assert_eq!(s.creation_timestamp, 100);
        assert_eq!(s.last_update_timestamp, 100);
        assert_eq!(s.creation_points, 2);
        assert_eq!(s.total_points, 2);
        assert_eq!(s.updated_messages, 0);
        assert_eq!(s.update_points, 0);
    }

    // Second batch: a stale update (90, 0) < (100, 0) must not change row A.
    process_update_message_events(
        &mut store,
        &mut stats,
        10,
        vec![msg("0xa", "0xv", 100, 90, 0, "stale")],
    );
    {
        let row = store.get("0xa").expect("row A must still exist");
        assert_eq!(row.last_update_timestamp, 100);
        assert_eq!(row.content, "X");
        let s = stats.get("0xu").expect("stat row U must exist");
        assert_eq!(s.updated_messages, 0);
    }

    // Third batch: (150, 1) > (100, 0) replaces row A and counts one update.
    process_update_message_events(
        &mut store,
        &mut stats,
        10,
        vec![msg("0xa", "0xu", 100, 150, 1, "Y")],
    );
    {
        let row = store.get("0xa").expect("row A must still exist");
        assert_eq!(row.last_update_timestamp, 150);
        assert_eq!(row.last_update_event_idx, 1);
        assert_eq!(row.content, "Y");
        let s = stats.get("0xu").expect("stat row U must exist");
        assert_eq!(s.updated_messages, 1);
        assert_eq!(s.update_points, 1);
        assert_eq!(s.total_points, 3);
        assert_eq!(s.created_messages, 1);
        assert_eq!(s.creation_points, 2);
    }
}

#[test]
fn two_updates_of_one_row_in_one_batch_count_once() {
    let mut store = MessageStore::new();
    let mut stats = UserStatStore::new();
    process_update_message_events(
        &mut store,
        &mut stats,
        10,
        vec![
            msg("0xa", "0xu", 100, 200, 0, "first"),
            msg("0xa", "0xu", 100, 200, 1, "second"),
        ],
    );
    let row = store.get("0xa").expect("row A must exist");
    assert_eq!(row.last_update_event_idx, 1);
    assert_eq!(row.content, "second");
    let s = stats.get("0xu").expect("stat row U must exist");
    assert_eq!(s.updated_messages, 1);
    assert_eq!(s.update_points, 1);
}

#[test]
fn replaying_a_creation_batch_changes_no_row() {
    let batch = || vec![msg("0xa", "0xu", 100, 100, 0, "X"), msg("0xb", "0xu", 50, 50, 0, "Y")];
    let mut store = MessageStore::new();
    let mut stats = UserStatStore::new();
    process_create_message_events(&mut store, &mut stats, 10, batch());
    let first_a = store.get("0xa").expect("row").clone();
    let first_b = store.get("0xb").expect("row").clone();
    process_create_message_events(&mut store, &mut stats, 10, batch());
    assert_eq!(store.get("0xa").expect("row"), &first_a);
    assert_eq!(store.get("0xb").expect("row"), &first_b);
}

#[test]
fn replaying_an_update_batch_changes_no_row() {
    let batch = || vec![msg("0xa", "0xu", 100, 120, 2, "Z")];
    let mut store = MessageStore::new();
    let mut stats = UserStatStore::new();
    process_update_message_events(&mut store, &mut stats, 10, batch());
    let first = store.get("0xa").expect("row").clone();
    process_update_message_events(&mut store, &mut stats, 10, batch());
    assert_eq!(store.get("0xa").expect("row"), &first);
}

#[test]
fn update_arrival_order_does_not_matter() {
    let newer = msg("0xa", "0xu", 100, 200, 1, "newer");
    let older = msg("0xa", "0xu", 100, 200, 0, "older");

    let mut store1 = MessageStore::new();
    let mut stats1 = UserStatStore::new();
    process_update_message_events(&mut store1, &mut stats1, 10, vec![older.clone()]);
    process_update_message_events(&mut store1, &mut stats1, 10, vec![newer.clone()]);

    let mut store2 = MessageStore::new();
    let mut stats2 = UserStatStore::new();
    process_update_message_events(&mut store2, &mut stats2, 10, vec![newer.clone()]);
    process_update_message_events(&mut store2, &mut stats2, 10, vec![older.clone()]);

    assert_eq!(store1.get("0xa").expect("row"), store2.get("0xa").expect("row"));
    assert_eq!(store1.get("0xa").expect("row").content, "newer");
}

#[test]
fn aggregate_additivity_across_batches() {
    let b1 = vec![msg("0xa", "0xu", 100, 100, 0, "a"), msg("0xb", "0xu", 90, 90, 0, "b")];
    let b2 = vec![msg("0xc", "0xu", 110, 110, 0, "c")];
    let whole: Vec<Message> = b1.iter().cloned().chain(b2.iter().cloned()).collect();

    let mut store1 = MessageStore::new();
    let mut stats1 = UserStatStore::new();
    process_create_message_events(&mut store1, &mut stats1, 10, b1);
    process_create_message_events(&mut store1, &mut stats1, 10, b2);

    let mut store2 = MessageStore::new();
    let mut stats2 = UserStatStore::new();
    process_create_message_events(&mut store2, &mut stats2, 10, whole);

    assert_eq!(stats1.get("0xu").expect("stat"), stats2.get("0xu").expect("stat"));
    let s = stats1.get("0xu").expect("stat");
    assert_eq!(s.created_messages, 3);
    assert_eq!(s.creation_timestamp, 90);
    assert_eq!(s.last_update_timestamp, 110);
    assert_eq!(s.creation_points, 6);
}

#[test]
fn creation_pass_never_touches_update_fields() {
    let mut store = MessageStore::new();
    let mut stats = UserStatStore::new();
    process_update_message_events(
        &mut store,
        &mut stats,
        10,
        vec![msg("0xa", "0xu", 100, 120, 0, "u")],
    );
    let before = stats.get("0xu").expect("stat").clone();
    process_create_message_events(
        &mut store,
        &mut stats,
        10,
        vec![msg("0xb", "0xu", 130, 130, 0, "c")],
    );
    let after = stats.get("0xu").expect("stat");
    assert_eq!(after.updated_messages, before.updated_messages);
    assert_eq!(after.update_points, before.update_points);
    assert_eq!(after.created_messages, 1);
}

#[test]
fn update_pass_never_touches_creation_fields() {
    let mut store = MessageStore::new();
    let mut stats = UserStatStore::new();
    process_create_message_events(
        &mut store,
        &mut stats,
        10,
        vec![msg("0xa", "0xu", 100, 100, 0, "c")],
    );
    let before = stats.get("0xu").expect("stat").clone();
    process_update_message_events(
        &mut store,
        &mut stats,
        10,
        vec![msg("0xa", "0xu", 100, 140, 0, "u")],
    );
    let after = stats.get("0xu").expect("stat");
    assert_eq!(after.created_messages, before.created_messages);
    assert_eq!(after.creation_points, before.creation_points);
    assert_eq!(after.creation_timestamp, before.creation_timestamp);
    assert_eq!(after.updated_messages, 1);
}

#[test]
fn chunking_does_not_change_the_outcome() {
    let batch = || {
        vec![
            msg("0xa", "0xu", 100, 100, 0, "a"),
            msg("0xb", "0xu", 90, 90, 0, "b"),
            msg("0xc", "0xv", 110, 110, 0, "c"),
            msg("0xd", "0xv", 70, 70, 0, "d"),
            msg("0xe", "0xu", 80, 80, 0, "e"),
        ]
    };
    let mut store1 = MessageStore::new();
    let mut stats1 = UserStatStore::new();
    process_create_message_events(&mut store1, &mut stats1, 2, batch());
    let mut store2 = MessageStore::new();
    let mut stats2 = UserStatStore::new();
    process_create_message_events(&mut store2, &mut stats2, 100, batch());
    assert_eq!(stats1.get("0xu").expect("s"), stats2.get("0xu").expect("s"));
    assert_eq!(stats1.get("0xv").expect("s"), stats2.get("0xv").expect("s"));
    for subject in ["0xa", "0xb", "0xc", "0xd", "0xe"] {
        assert_eq!(store1.get(subject).expect("r"), store2.get(subject).expect("r"));
    }
}

#[test]
fn dedup_keeps_newest_per_subject_in_first_seen_order() {
    let deduped = dedup_update_events(vec![
        msg("0xa", "0xu", 100, 200, 0, "a0"),
        msg("0xb", "0xu", 100, 150, 0, "b0"),
        msg("0xa", "0xu", 100, 200, 1, "a1"),
        msg("0xa", "0xu", 100, 180, 9, "a-old"),
    ]);
    assert_eq!(deduped.len(), 2);
    assert_eq!(deduped[0].content, "a1");
    assert_eq!(deduped[1].content, "b0");
}

#[test]
fn upgrade_rows_are_never_replaced() {
    let mut store = ModuleUpgradeStore::new();
    process_upgrade_module_changes(&mut store, 10, vec![module_row("board", 1)]);
    let mut second = module_row("board", 1);
    second.module_source_code = String::from("changed");
    process_upgrade_module_changes(&mut store, 10, vec![second, module_row("board", 2)]);
    let first = store.get("0xabc", "board", 1).expect("row must exist");
    assert_eq!(first.module_source_code, "0x");
    assert!(store.get("0xabc", "board", 2).is_some());
    assert!(store.get("0xabc", "board", 3).is_none());
}

#[test]
fn chunk_size_prefers_the_override() {
    let mut overrides: KeyedVec<TableChunkSize> = KeyedVec::new();
    overrides.upsert(TableChunkSize { table_name: String::from("messages"), chunk_size: 11 });
    assert_eq!(
        get_config_table_chunk_size("messages", &overrides, Message::field_count()),
        11
    );
    assert_eq!(
        get_config_table_chunk_size("user_stats", &overrides, Message::field_count()),
        32767 / 6
    );
}

#[test]
fn retry_is_bounded_to_one_sanitized_attempt() {
    let task = ChunkTask::new(vec![msg("0xa", "0xu", 1, 1, 0, "te\u{0}xt")]);
    assert!(!task.retried);
    let retry = task.on_failure().expect("first failure must grant one retry");
    assert!(retry.retried);
    assert_eq!(retry.payload[0].content, "text");
    assert!(retry.on_failure().is_none());
}

#[test]
fn clean_data_passes_through_without_the_flag() {
    let rows = vec![msg("0xa", "0xu", 1, 1, 0, "a\u{0}b")];
    let kept = clean_data_for_db(rows.clone(), false);
    assert_eq!(kept, rows);
    let cleaned = clean_data_for_db(rows, true);
    assert_eq!(cleaned[0].content, "ab");
}

#[test]
fn empty_batches_change_nothing() {
    let mut store = MessageStore::new();
    let mut stats = UserStatStore::new();
    process_create_message_events(&mut store, &mut stats, 5, vec![]);
    process_update_message_events(&mut store, &mut stats, 5, vec![]);
    assert!(store.get("0xa").is_none());
    assert!(stats.get("0xu").is_none());
    assert_eq!(dedup_update_events(vec![]).len(), 0);
}

#[test]
fn update_of_a_missing_subject_inserts_the_row() {
    let mut store = MessageStore::new();
    let mut stats = UserStatStore::new();
    process_update_message_events(
        &mut store,
        &mut stats,
        5,
        vec![msg("0xa", "0xu", 100, 120, 0, "u")],
    );
    let row = store.get("0xa").expect("row must be inserted");
    assert_eq!(row.last_update_timestamp, 120);
    let s = stats.get("0xu").expect("stat must open");
    assert_eq!(s.creation_timestamp, 0);
    assert_eq!(s.created_messages, 0);
    assert_eq!(s.updated_messages, 1);
    assert_eq!(s.update_points, 1);
    assert_eq!(s.total_points, 1);
}

#[test]
fn update_additivity_across_disjoint_batches() {
    let b1 = vec![
        msg("0xa", "0xu", 100, 120, 0, "a0"),
        msg("0xa", "0xu", 100, 120, 1, "a1"),
    ];
    let b2 = vec![msg("0xb", "0xu", 100, 140, 0, "b0")];
    let whole: Vec<Message> = b1.iter().cloned().chain(b2.iter().cloned()).collect();

    let mut store1 = MessageStore::new();
    let mut stats1 = UserStatStore::new();
    process_update_message_events(&mut store1, &mut stats1, 5, b1);
    process_update_message_events(&mut store1, &mut stats1, 5, b2);

    let mut store2 = MessageStore::new();
    let mut stats2 = UserStatStore::new();
    process_update_message_events(&mut store2, &mut stats2, 5, whole);

    assert_eq!(stats1.get("0xu").expect("s"), stats2.get("0xu").expect("s"));
    assert_eq!(stats1.get("0xu").expect("s").updated_messages, 2);
    assert_eq!(store1.get("0xa").expect("r"), store2.get("0xa").expect("r"));
    assert_eq!(store1.get("0xb").expect("r"), store2.get("0xb").expect("r"));
}

#[test]
fn replacement_keeps_the_stored_origin_columns() {
    let mut store = MessageStore::new();
    let mut stats = UserStatStore::new();
    process_create_message_events(
        &mut store,
        &mut stats,
        10,
        vec![msg("0xa", "0xu", 100, 100, 0, "X")],
    );
    // A newer update whose payload names another creator replaces content
    // and the last-update pair, but the row's origin columns stay.
    process_update_message_events(
        &mut store,
        &mut stats,
        10,
        vec![msg("0xa", "0xw", 555, 200, 3, "Y")],
    );
    let row = store.get("0xa").expect("row A must exist");
    assert_eq!(row.content, "Y");
    assert_eq!(row.last_update_timestamp, 200);
    assert_eq!(row.last_update_event_idx, 3);
    assert_eq!(row.creator_addr, "0xu");
    assert_eq!(row.creation_timestamp, 100);
}
