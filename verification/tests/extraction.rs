use indexer::errors::PipelineError;
use indexer::events::classify_event_type;
use indexer::events::ContractEvent;
use indexer::events::EventKind;
use indexer::extractor::split_events;
use indexer::extractor::Extractor;
use indexer::json::parse_message_event_payload;
use indexer::message::CreateMessageEventOnChain;
use indexer::message::MessageOnChain;
use indexer::message::UpdateMessageEventOnChain;
use indexer::raw::RawChange;
use indexer::raw::RawEvent;
use indexer::raw::RawTransaction;

const CONTRACT: &str = "0x0000000000000000000000000000000000000000000000000000000000000123";

fn create_payload() -> String {
    String::from(
        "{\"message_obj_addr\":\"0xa\",\"message\":{\"creator\":\"0xb\",\"content\":\"hi\",\
         \"creation_timestamp\":\"100\",\"last_update_timestamp\":\"100\"}}",
    )
}

fn create_event() -> RawEvent {
    RawEvent {
        type_str: format!("{}::custom_indexer_ex_message_board::CreateMessageEvent", CONTRACT),
        data: create_payload(),
    }
}

#[test]
fn classify_recognizes_create_and_update() {
    let create_tag = format!("{}::custom_indexer_ex_message_board::CreateMessageEvent", CONTRACT);
    let update_tag = format!("{}::custom_indexer_ex_message_board::UpdateMessageEvent", CONTRACT);
    assert_eq!(classify_event_type(CONTRACT, &create_tag), Some(EventKind::Create));
    assert_eq!(classify_event_type(CONTRACT, &update_tag), Some(EventKind::Update));
}

#[test]
fn classify_standardizes_the_address_part() {
    let short_tag = "0x123::custom_indexer_ex_message_board::CreateMessageEvent";
    assert_eq!(classify_event_type(CONTRACT, short_tag), Some(EventKind::Create));
}

#[test]
fn classify_drops_foreign_and_malformed_tags() {
    let other = "0x9::custom_indexer_ex_message_board::CreateMessageEvent";
    assert_eq!(classify_event_type(CONTRACT, other), None);
    let wrong_module = format!("{}::other_module::CreateMessageEvent", CONTRACT);
    assert_eq!(classify_event_type(CONTRACT, &wrong_module), None);
    let bare_board = format!("{}::message_board::CreateMessageEvent", CONTRACT);
    assert_eq!(classify_event_type(CONTRACT, &bare_board), None);
    let wrong_event = format!("{}::custom_indexer_ex_message_board::SomethingElse", CONTRACT);
    assert_eq!(classify_event_type(CONTRACT, &wrong_event), None);
    assert_eq!(classify_event_type(CONTRACT, "no separators"), None);
    assert_eq!(classify_event_type(CONTRACT, "0x123::one_part_only"), None);
}

#[test]
fn payload_parser_reads_the_message_fields() {
    let parsed = parse_message_event_payload(&create_payload());
    let (obj_addr, message) = parsed.expect("well-formed payload must parse");
    assert_eq!(obj_addr, "0xa");
    assert_eq!(message.creator, "0xb");
    assert_eq!(message.content, "hi");
    assert_eq!(message.creation_timestamp, "100");
    assert_eq!(message.last_update_timestamp, "100");
}

#[test]
fn payload_parser_rejects_other_shapes() {
    assert!(parse_message_event_payload("not json").is_none());
    assert!(parse_message_event_payload("{}").is_none());
    assert!(parse_message_event_payload("{\"message_obj_addr\":7,\"message\":{}}").is_none());
}

#[test]
fn create_event_becomes_a_row() {
    let r = ContractEvent::from_event(CONTRACT, 0, &create_event());
    match r {
        Ok(Some(ContractEvent::CreateMessageEvent(m))) => {
            assert_eq!(
                m.message_obj_addr,
                "0x000000000000000000000000000000000000000000000000000000000000000a"
            );
            assert_eq!(
                m.creator_addr,
                "0x000000000000000000000000000000000000000000000000000000000000000b"
            );
            assert_eq!(m.creation_timestamp, 100);
            assert_eq!(m.last_update_timestamp, 100);
            assert_eq!(m.last_update_event_idx, 0);
            assert_eq!(m.content, "hi");
        },
        other => panic!("expected a creation row, got {:?}", other),
    }
}

#[test]
fn update_event_keeps_its_event_index() {
    let ev = RawEvent {
        type_str: format!("{}::custom_indexer_ex_message_board::UpdateMessageEvent", CONTRACT),
        data: String::from(
            "{\"message_obj_addr\":\"0xa\",\"message\":{\"creator\":\"0xb\",\"content\":\"new\",\
             \"creation_timestamp\":\"100\",\"last_update_timestamp\":\"150\"}}",
        ),
    };
    let r = ContractEvent::from_event(CONTRACT, 3, &ev);
    match r {
        Ok(Some(ContractEvent::UpdateMessageEvent(m))) => {
            assert_eq!(m.last_update_timestamp, 150);
            assert_eq!(m.last_update_event_idx, 3);
            assert_eq!(m.content, "new");
        },
        other => panic!("expected an update row, got {:?}", other),
    }
}

#[test]
fn unrecognized_event_is_silently_dropped() {
    let ev = RawEvent {
        type_str: String::from("0x9::custom_indexer_ex_message_board::CreateMessageEvent"),
        data: String::from("this would not even parse"),
    };
    assert!(matches!(ContractEvent::from_event(CONTRACT, 0, &ev), Ok(None)));
}

#[test]
fn malformed_payload_on_recognized_event_is_fatal() {
    let ev = RawEvent {
        type_str: format!("{}::custom_indexer_ex_message_board::CreateMessageEvent", CONTRACT),
        data: String::from("{broken"),
    };
    assert_eq!(
        ContractEvent::from_event(CONTRACT, 0, &ev),
        Err(PipelineError::MalformedEventPayload)
    );
}

#[test]
fn malformed_timestamp_on_recognized_event_is_fatal() {
    let ev = RawEvent {
        type_str: format!("{}::custom_indexer_ex_message_board::CreateMessageEvent", CONTRACT),
        data: String::from(
            "{\"message_obj_addr\":\"0xa\",\"message\":{\"creator\":\"0xb\",\"content\":\"x\",\
             \"creation_timestamp\":\"soon\",\"last_update_timestamp\":\"soon\"}}",
        ),
    };
    assert_eq!(
        ContractEvent::from_event(CONTRACT, 0, &ev),
        Err(PipelineError::MalformedEventTimestamp)
    );
}

#[test]
fn to_db_message_rejects_out_of_range_timestamp() {
    let e = CreateMessageEventOnChain {
        message_obj_addr: String::from("0xa"),
        message: MessageOnChain {
            creator: String::from("0xb"),
            content: String::from("x"),
            creation_timestamp: String::from("9223372036854775808"),
            last_update_timestamp: String::from("9223372036854775808"),
        },
    };
    assert_eq!(e.to_db_message(), Err(PipelineError::MalformedEventTimestamp));
}

#[test]
fn update_to_db_message_checks_both_timestamps() {
    let e = UpdateMessageEventOnChain {
        message_obj_addr: String::from("0xa"),
        message: MessageOnChain {
            creator: String::from("0xb"),
            content: String::from("x"),
            creation_timestamp: String::from("100"),
            last_update_timestamp: String::from("later"),
        },
    };
    assert_eq!(e.to_db_message(1), Err(PipelineError::MalformedEventTimestamp));
}

#[test]
fn extractor_keeps_batch_order_and_skips_failed_transactions() {
    let extractor = Extractor::new(String::from(CONTRACT));
    let good = RawTransaction {
        version: 7,
        info_success: Some(true),
        events: Some(vec![create_event()]),
        changes: vec![RawChange::Other],
    };
    let failed = RawTransaction {
        version: 8,
        info_success: Some(false),
        events: Some(vec![create_event()]),
        changes: vec![],
    };
    let no_data = RawTransaction {
        version: 9,
        info_success: Some(true),
        events: None,
        changes: vec![],
    };
    let second = RawTransaction {
        version: 10,
        info_success: Some(true),
        events: Some(vec![create_event()]),
        changes: vec![],
    };
    let out = extractor
        .process_transactions(vec![good, failed, no_data, second])
        .expect("extraction must succeed");
    assert_eq!(out.events.len(), 2);
    assert_eq!(out.changes.len(), 0);
}

#[test]
fn extractor_poisons_batch_on_malformed_payload() {
    let extractor = Extractor::new(String::from(CONTRACT));
    let bad = RawTransaction {
        version: 7,
        info_success: Some(true),
        events: Some(vec![RawEvent {
            type_str: format!("{}::custom_indexer_ex_message_board::CreateMessageEvent", CONTRACT),
            data: String::from("{"),
        }]),
        changes: vec![],
    };
    assert_eq!(
        extractor.process_transactions(vec![bad]),
        Err(PipelineError::MalformedEventPayload)
    );
}

#[test]
fn split_events_partitions_in_order() {
    let c = match ContractEvent::from_event(CONTRACT, 0, &create_event()) {
        Ok(Some(e)) => e,
        other => panic!("unexpected {:?}", other),
    };
    let u = RawEvent {
        type_str: format!("{}::custom_indexer_ex_message_board::UpdateMessageEvent", CONTRACT),
        data: String::from(
            "{\"message_obj_addr\":\"0xa\",\"message\":{\"creator\":\"0xb\",\"content\":\"n\",\
             \"creation_timestamp\":\"100\",\"last_update_timestamp\":\"120\"}}",
        ),
    };
    let u = match ContractEvent::from_event(CONTRACT, 1, &u) {
        Ok(Some(e)) => e,
        other => panic!("unexpected {:?}", other),
    };
    let (creates, updates) = split_events(vec![c, u]);
    assert_eq!(creates.len(), 1);
    assert_eq!(updates.len(), 1);
    assert_eq!(creates[0].creation_timestamp, 100);
    assert_eq!(updates[0].last_update_timestamp, 120);
}

#[test]
fn signed_timestamps_are_accepted() {
    let ev = RawEvent {
        type_str: format!("{}::custom_indexer_ex_message_board::CreateMessageEvent", CONTRACT),
        data: String::from(
            "{\"message_obj_addr\":\"0xa\",\"message\":{\"creator\":\"0xb\",\"content\":\"x\",\
             \"creation_timestamp\":\"-5\",\"last_update_timestamp\":\"-5\"}}",
        ),
    };
    match ContractEvent::from_event(CONTRACT, 0, &ev) {
        Ok(Some(ContractEvent::CreateMessageEvent(m))) => {
            assert_eq!(m.creation_timestamp, -5);
            assert_eq!(m.last_update_timestamp, -5);
        },
        other => panic!("expected a creation row, got {:?}", other),
    }
}
