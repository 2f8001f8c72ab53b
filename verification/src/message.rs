//! The message record: its on-chain event payloads and the database row
//! they become.

use vstd::prelude::*;
use vstd::string::*;

use crate::digits::in_i64_range;
use crate::digits::is_signed_decimal;
use crate::digits::parse_i64_decimal;
use crate::digits::signed_decimal_val;
use crate::errors::PipelineError;
use crate::keyed::StrKeyed;
use crate::text::std_address;
use crate::text::standardize_address;

verus! {

/// Database representation of a message, keyed by the subject address of
/// the message object.
#[derive(Clone, Debug, PartialEq)]
pub struct Message {
    pub message_obj_addr: String,
    pub creator_addr: String,
    pub creation_timestamp: i64,
    pub last_update_timestamp: i64,
    pub last_update_event_idx: i64,
    pub content: String,
}

impl StrKeyed for Message {
    open spec fn skey(&self) -> Seq<char> {
        self.message_obj_addr@
    }

    fn key_text(&self) -> (r: &str) {
        self.message_obj_addr.as_str()
    }
}

impl Message {
    /// How many columns a message row occupies.
    pub fn field_count() -> (n: usize)
        ensures
            n == 6,
    {
        6
    }
}

/// On-chain representation of a message.
#[derive(Clone, Debug, PartialEq)]
pub struct MessageOnChain {
    pub creator: String,
    pub content: String,
    pub creation_timestamp: String,
    pub last_update_timestamp: String,
}

/// A timestamp field parses: a decimal integer within `i64` range.
pub open spec fn good_timestamp(s: Seq<char>) -> bool {
    is_signed_decimal(s) && in_i64_range(signed_decimal_val(s))
}

/// On-chain representation of a message creation event.
#[derive(Clone, Debug, PartialEq)]
pub struct CreateMessageEventOnChain {
    pub message_obj_addr: String,
    pub message: MessageOnChain,
}

impl CreateMessageEventOnChain {
    /// The database row a creation event denotes.
    ///
    /// The subject and creator addresses are standardized, the creation
    /// timestamp doubles as the initial last-update timestamp, and the
    /// initial last-update event index is zero.  A timestamp that is not an
    /// in-range decimal is the fatal malformed-payload condition.
    pub fn to_db_message(&self) -> (r: Result<Message, PipelineError>)
        ensures
            r is Ok <==> good_timestamp(self.message.creation_timestamp@),
            r matches Err(e) ==> e == PipelineError::MalformedEventTimestamp,
            r matches Ok(m) ==> {
                &&& m.message_obj_addr@ == std_address(self.message_obj_addr@)
                &&& m.creator_addr@ == std_address(self.message.creator@)
                &&& m.creation_timestamp == signed_decimal_val(self.message.creation_timestamp@)
                &&& m.last_update_timestamp == m.creation_timestamp
                &&& m.last_update_event_idx == 0
                &&& m.content@ == self.message.content@
            },
    {
        let creation_timestamp: i64 = match parse_i64_decimal(
            self.message.creation_timestamp.as_str(),
        ) {
            Some(n) => n,
            None => {
                return Err(PipelineError::MalformedEventTimestamp);
            },
        };
        Ok(
            Message {
                message_obj_addr: standardize_address(self.message_obj_addr.as_str()),
                creator_addr: standardize_address(self.message.creator.as_str()),
                creation_timestamp,
                content: self.message.content.clone(),
                last_update_timestamp: creation_timestamp,
                last_update_event_idx: 0,
            },
        )
    }
}

/// On-chain representation of a message update event.
#[derive(Clone, Debug, PartialEq)]
pub struct UpdateMessageEventOnChain {
    pub message_obj_addr: String,
    pub message: MessageOnChain,
}

impl UpdateMessageEventOnChain {
    /// The database row an update event denotes.
    ///
    /// Both timestamps must be in-range decimals; the last-update event
    /// index is the event's position inside its transaction, which breaks
    /// ties between updates that share a timestamp.
    pub fn to_db_message(&self, last_update_event_idx: i64) -> (r: Result<Message, PipelineError>)
        ensures
            r is Ok <==> good_timestamp(self.message.creation_timestamp@) && good_timestamp(
                self.message.last_update_timestamp@,
            ),
            r matches Err(e) ==> e == PipelineError::MalformedEventTimestamp,
            r matches Ok(m) ==> {
                &&& m.message_obj_addr@ == std_address(self.message_obj_addr@)
                &&& m.creator_addr@ == std_address(self.message.creator@)
                &&& m.creation_timestamp == signed_decimal_val(self.message.creation_timestamp@)
                &&& m.last_update_timestamp == signed_decimal_val(self.message.last_update_timestamp@)
                &&& m.last_update_event_idx == last_update_event_idx
                &&& m.content@ == self.message.content@
            },
    {
        let creation_timestamp: i64 = match parse_i64_decimal(
            self.message.creation_timestamp.as_str(),
        ) {
            Some(n) => n,
            None => {
                return Err(PipelineError::MalformedEventTimestamp);
            },
        };
        let last_update_timestamp: i64 = match parse_i64_decimal(
            self.message.last_update_timestamp.as_str(),
        ) {
            Some(n) => n,
            None => {
                return Err(PipelineError::MalformedEventTimestamp);
            },
        };
        Ok(
            Message {
                message_obj_addr: standardize_address(self.message_obj_addr.as_str()),
                content: self.message.content.clone(),
                creator_addr: standardize_address(self.message.creator.as_str()),
                creation_timestamp,
                last_update_timestamp,
                last_update_event_idx,
            },
        )
    }
}

} // verus!
