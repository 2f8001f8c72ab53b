//! The event extractor: classifies each raw event by its type tag and
//! turns the recognized ones into typed message rows.
//!
//! Classification is a pure function of the type tag and the configured
//! contract address.  An event of another contract or another sub-path is
//! silently dropped; a recognized event whose payload cannot be read
//! poisons the batch.

use vstd::prelude::*;
use vstd::string::*;

use crate::digits::signed_decimal_val;
use crate::errors::PipelineError;
use crate::json::message_payload_of;
use crate::json::parse_message_event_payload;
use crate::json::MessagePayloadV;
use crate::message::good_timestamp;
use crate::message::CreateMessageEventOnChain;
use crate::message::Message;
use crate::message::UpdateMessageEventOnChain;
use crate::raw::RawEvent;
use crate::text::find_sep;
use crate::text::find_sep_from;
use crate::text::has_prefix;
use crate::text::std_address;
use crate::text::standardize_address;
use crate::text::str_starts_with;

verus! {

/// The two recognized event classifications.
#[derive(Clone, Copy, Debug, PartialEq, Eq, Structural)]
pub enum EventKind {
    Create,
    Update,
}

/// The type-tag prefix of a message creation event of the contract.
pub open spec fn create_event_prefix(contract: Seq<char>) -> Seq<char> {
    contract + "::custom_indexer_ex_message_board::CreateMessageEvent"@
}

/// The type-tag prefix of a message update event of the contract.
pub open spec fn update_event_prefix(contract: Seq<char>) -> Seq<char> {
    contract + "::custom_indexer_ex_message_board::UpdateMessageEvent"@
}

/// The type tag with its address part standardized: the first three
/// `::`-separated parts, the address brought to standard form.  A tag with
/// fewer than three parts normalizes to nothing.
pub open spec fn normalized_tag(tag: Seq<char>) -> Option<Seq<char>> {
    match find_sep_from(tag, 0) {
        None => None,
        Some(i) => match find_sep_from(tag, i + 2) {
            None => None,
            Some(j) => {
                let end = match find_sep_from(tag, j + 2) {
                    None => tag.len() as int,
                    Some(k) => k,
                };
                Some(
                    std_address(tag.subrange(0, i)) + "::"@ + tag.subrange(i + 2, j) + "::"@
                        + tag.subrange(j + 2, end),
                )
            },
        },
    }
}

/// How a type tag classifies under a contract address: a creation event, an
/// update event, or neither.
pub open spec fn classify_spec(contract: Seq<char>, tag: Seq<char>) -> Option<EventKind> {
    match normalized_tag(tag) {
        None => None,
        Some(t) => if has_prefix(t, create_event_prefix(contract)) {
            Some(EventKind::Create)
        } else if has_prefix(t, update_event_prefix(contract)) {
            Some(EventKind::Update)
        } else {
            None
        },
    }
}

/// Classifies a raw event type tag against the contract address.
pub fn classify_event_type(contract_address: &str, type_str: &str) -> (r: Option<EventKind>)
    ensures
        r == classify_spec(contract_address@, type_str@),
{
    let len: usize = type_str.unicode_len();
    let i: usize = match find_sep(type_str, 0) {
        Some(i) => i,
        None => {
            return None;
        },
    };
    let j: usize = match find_sep(type_str, i + 2) {
        Some(j) => j,
        None => {
            return None;
        },
    };
    let end: usize = match find_sep(type_str, j + 2) {
        Some(k) => k,
        None => len,
    };
    let addr_part: &str = type_str.substring_char(0, i);
    let module_part: &str = type_str.substring_char(i + 2, j);
    let event_part: &str = type_str.substring_char(j + 2, end);
    let mut tag: String = standardize_address(addr_part);
    tag.append("::");
    tag.append(module_part);
    tag.append("::");
    tag.append(event_part);
    let mut create_prefix: String = contract_address.to_owned();
    create_prefix.append("::custom_indexer_ex_message_board::CreateMessageEvent");
    if str_starts_with(tag.as_str(), create_prefix.as_str()) {
        return Some(EventKind::Create);
    }
    let mut update_prefix: String = contract_address.to_owned();
    update_prefix.append("::custom_indexer_ex_message_board::UpdateMessageEvent");
    if str_starts_with(tag.as_str(), update_prefix.as_str()) {
        return Some(EventKind::Update);
    }
    None
}

/// A typed domain event of the contract, carrying the row it denotes.
#[derive(Clone, Debug, PartialEq)]
pub enum ContractEvent {
    CreateMessageEvent(Message),
    UpdateMessageEvent(Message),
}

/// The row a domain event carries.
pub open spec fn event_row(e: ContractEvent) -> Message {
    match e {
        ContractEvent::CreateMessageEvent(m) => m,
        ContractEvent::UpdateMessageEvent(m) => m,
    }
}

/// The event's timestamps parse, per its classification: a creation event
/// needs its creation timestamp, an update event both timestamps.
pub open spec fn payload_timestamps_good(kind: EventKind, p: MessagePayloadV) -> bool {
    match kind {
        EventKind::Create => good_timestamp(p.creation_timestamp),
        EventKind::Update => good_timestamp(p.creation_timestamp) && good_timestamp(
            p.last_update_timestamp,
        ),
    }
}

/// The fatal condition one raw event raises, if any: on a recognized
/// classification, an unreadable payload or an out-of-range timestamp.
pub open spec fn event_error(contract: Seq<char>, ev: RawEvent) -> Option<PipelineError> {
    match classify_spec(contract, ev.type_str@) {
        None => None,
        Some(kind) => match message_payload_of(ev.data@) {
            None => Some(PipelineError::MalformedEventPayload),
            Some(p) => if payload_timestamps_good(kind, p) {
                None
            } else {
                Some(PipelineError::MalformedEventTimestamp)
            },
        },
    }
}

/// `m` is the row a creation event with payload `p` denotes.
pub open spec fn is_create_row(m: Message, p: MessagePayloadV) -> bool {
    &&& m.message_obj_addr@ == std_address(p.message_obj_addr)
    &&& m.creator_addr@ == std_address(p.creator)
    &&& m.creation_timestamp == signed_decimal_val(p.creation_timestamp)
    &&& m.last_update_timestamp == m.creation_timestamp
    &&& m.last_update_event_idx == 0
    &&& m.content@ == p.content
}

/// `m` is the row an update event with payload `p` at index `idx`
/// denotes.
pub open spec fn is_update_row(m: Message, p: MessagePayloadV, idx: int) -> bool {
    &&& m.message_obj_addr@ == std_address(p.message_obj_addr)
    &&& m.creator_addr@ == std_address(p.creator)
    &&& m.creation_timestamp == signed_decimal_val(p.creation_timestamp)
    &&& m.last_update_timestamp == signed_decimal_val(p.last_update_timestamp)
    &&& m.last_update_event_idx == idx
    &&& m.content@ == p.content
}

/// What extraction yields for one clean raw event: nothing on a
/// classification miss, otherwise exactly the row its payload denotes.
pub open spec fn event_outcome_ok(
    contract: Seq<char>,
    ev: RawEvent,
    idx: int,
    out: Option<ContractEvent>,
) -> bool {
    match classify_spec(contract, ev.type_str@) {
        None => out is None,
        Some(EventKind::Create) => message_payload_of(ev.data@) matches Some(p) && (
        out matches Some(ContractEvent::CreateMessageEvent(m)) && is_create_row(m, p)),
        Some(EventKind::Update) => message_payload_of(ev.data@) matches Some(p) && (
        out matches Some(ContractEvent::UpdateMessageEvent(m)) && is_update_row(m, p, idx)),
    }
}

/// The first fatal condition a batch of raw events raises, if any.
pub open spec fn events_error(contract: Seq<char>, evs: Seq<RawEvent>) -> Option<PipelineError>
    decreases evs.len(),
{
    if evs.len() == 0 {
        None
    } else {
        match events_error(contract, evs.drop_last()) {
            Some(e) => Some(e),
            None => event_error(contract, evs.last()),
        }
    }
}

/// A fatal event stays fatal for every longer prefix of the batch.
pub proof fn lemma_events_error_persists(contract: Seq<char>, evs: Seq<RawEvent>, j: int)
    requires
        0 <= j <= evs.len(),
        events_error(contract, evs.take(j)) is Some,
    ensures
        events_error(contract, evs) == events_error(contract, evs.take(j)),
    decreases evs.len() - j,
{
    if j == evs.len() {
        assert(evs.take(j) =~= evs);
    } else {
        assert(evs.take(j + 1).drop_last() =~= evs.take(j));
        lemma_events_error_persists(contract, evs, j + 1);
    }
}

/// The events of a sequence of per-event outcomes, in order.
pub open spec fn flatten_opts(opts: Seq<Option<ContractEvent>>) -> Seq<ContractEvent>
    decreases opts.len(),
{
    if opts.len() == 0 {
        Seq::empty()
    } else {
        flatten_opts(opts.drop_last()) + match opts.last() {
            None => Seq::<ContractEvent>::empty(),
            Some(e) => seq![e],
        }
    }
}

/// `out` is exactly what extraction yields for `evs`: one outcome per
/// raw event, each pinned to what its classification and payload denote,
/// concatenated in order.
pub open spec fn extracted_events_ok(
    contract: Seq<char>,
    evs: Seq<RawEvent>,
    out: Seq<ContractEvent>,
) -> bool {
    exists|opts: Seq<Option<ContractEvent>>|
        {
            &&& opts.len() == evs.len()
            &&& forall|i: int| 0 <= i < evs.len() ==> event_outcome_ok(
                contract,
                evs[i],
                i,
                #[trigger] opts[i],
            )
            &&& out == flatten_opts(opts)
        }
}

impl ContractEvent {
    /// Extracts one raw event: drops it silently unless its tag classifies
    /// under the contract address, and then reads its payload into a typed
    /// row, which is fatal when the payload cannot be read.
    pub fn from_event(contract_address: &str, event_idx: usize, event: &RawEvent) -> (r: Result<
        Option<ContractEvent>,
        PipelineError,
    >)
        requires
            event_idx <= i64::MAX,
        ensures
            match r {
                Ok(out) => event_error(contract_address@, *event) is None && event_outcome_ok(
                    contract_address@,
                    *event,
                    event_idx as int,
                    out,
                ),
                Err(e) => event_error(contract_address@, *event) == Some(e),
            },
    {
        match classify_event_type(contract_address, event.type_str.as_str()) {
            None => Ok(None),
            Some(EventKind::Create) => {
                match parse_message_event_payload(event.data.as_str()) {
                    None => Err(PipelineError::MalformedEventPayload),
                    Some((message_obj_addr, message)) => {
                        let on_chain = CreateMessageEventOnChain { message_obj_addr, message };
                        match on_chain.to_db_message() {
                            Ok(m) => Ok(Some(ContractEvent::CreateMessageEvent(m))),
                            Err(e) => Err(e),
                        }
                    },
                }
            },
            Some(EventKind::Update) => {
                match parse_message_event_payload(event.data.as_str()) {
                    None => Err(PipelineError::MalformedEventPayload),
                    Some((message_obj_addr, message)) => {
                        let on_chain = UpdateMessageEventOnChain { message_obj_addr, message };
                        match on_chain.to_db_message(event_idx as i64) {
                            Ok(m) => Ok(Some(ContractEvent::UpdateMessageEvent(m))),
                            Err(e) => Err(e),
                        }
                    },
                }
            },
        }
    }

    /// Extracts the events of one transaction, in their original order.
    pub fn from_events(contract_address: &str, events: &Vec<RawEvent>) -> (r: Result<
        Vec<ContractEvent>,
        PipelineError,
    >)
        requires
            events@.len() <= i64::MAX,
        ensures
            match r {
                Ok(out) => events_error(contract_address@, events@) is None
                    && extracted_events_ok(contract_address@, events@, out@),
                Err(e) => events_error(contract_address@, events@) == Some(e),
            },
    {
        let n: usize = events.len();
        let mut out: Vec<ContractEvent> = Vec::new();
        let ghost mut opts: Seq<Option<ContractEvent>> = Seq::empty();
        let mut i: usize = 0;
        while i < n
            invariant
                i <= n,
                n == events@.len(),
                n <= i64::MAX,
                opts.len() == i,
                events_error(contract_address@, events@.take(i as int)) is None,
                forall|k: int| 0 <= k < i ==> event_outcome_ok(
                    contract_address@,
                    events@[k],
                    k,
                    #[trigger] opts[k],
                ),
                out@ == flatten_opts(opts),
            decreases n - i,
        {
            proof {
                assert(events@.take(i + 1).drop_last() =~= events@.take(i as int));
                assert(events@.take(i + 1).last() == events@[i as int]);
            }
            match Self::from_event(contract_address, i, &events[i]) {
                Err(e) => {
                    proof {
                        lemma_events_error_persists(contract_address@, events@, i + 1);
                    }
                    return Err(e);
                },
                Ok(o) => {
                    proof {
                        let prev = opts;
                        opts = opts.push(o);
                        assert(opts.drop_last() =~= prev);
                    }
                    match o {
                        Some(ev) => {
                            out.push(ev);
                            proof {
                                assert(out@ =~= flatten_opts(opts));
                            }
                        },
                        None => {
                            proof {
                                assert(out@ =~= flatten_opts(opts));
                            }
                        },
                    }
                },
            }
            i = i + 1;
        }
        proof {
            assert(events@.take(n as int) =~= events@);
        }
        Ok(out)
    }
}

} // verus!
