//! The per-user aggregate statistics row.
//!
//! Counters and point totals only ever grow by addition; the two timestamp
//! columns take the minimum (earliest creation) and maximum (latest update)
//! across merges.  Creation-side and update-side fields are disjoint: the
//! creation pass never touches `updated_messages` or `update_points`, the
//! update pass never touches `created_messages` or `creation_points`.

use vstd::prelude::*;
use vstd::string::*;

use crate::keyed::StrKeyed;

verus! {

/// Database representation of a user's statistics, keyed by user address.
#[derive(Clone, Debug, PartialEq)]
pub struct UserStat {
    pub user_addr: String,
    /// Earliest creation timestamp seen for this user.
    pub creation_timestamp: i64,
    /// Latest activity timestamp seen for this user.
    pub last_update_timestamp: i64,
    pub created_messages: i64,
    pub updated_messages: i64,
    /// Weighted points earned by creating messages.
    pub creation_points: i64,
    /// Weighted points earned by updating messages.
    pub update_points: i64,
    pub total_points: i64,
}

impl StrKeyed for UserStat {
    open spec fn skey(&self) -> Seq<char> {
        self.user_addr@
    }

    fn key_text(&self) -> (r: &str) {
        self.user_addr.as_str()
    }
}

impl UserStat {
    /// How many columns a user statistics row occupies.
    pub fn field_count() -> (n: usize)
        ensures
            n == 8,
    {
        8
    }
}

/// The mathematical value of a user statistics row.
pub struct UserStatV {
    pub user_addr: String,
    pub creation_timestamp: int,
    pub last_update_timestamp: int,
    pub created_messages: int,
    pub updated_messages: int,
    pub creation_points: int,
    pub update_points: int,
    pub total_points: int,
}

impl View for UserStat {
    type V = UserStatV;

    open spec fn view(&self) -> UserStatV {
        UserStatV {
            user_addr: self.user_addr,
            creation_timestamp: self.creation_timestamp as int,
            last_update_timestamp: self.last_update_timestamp as int,
            created_messages: self.created_messages as int,
            updated_messages: self.updated_messages as int,
            creation_points: self.creation_points as int,
            update_points: self.update_points as int,
            total_points: self.total_points as int,
        }
    }
}

/// Points granted for creating one message.
pub const POINT_PER_NEW_MESSAGE: i64 = 2;

/// Points granted for updating one message.
pub const POINT_PER_UPDATE_MESSAGE: i64 = 1;

} // verus!
