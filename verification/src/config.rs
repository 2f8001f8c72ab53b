//! Configuration values that the core consumes: the database pool size and
//! the contract address whose events this indexer follows.

use vstd::prelude::*;
use vstd::string::*;

use crate::text::find_char;
use crate::text::find_char_from;

verus! {

/// The name part a server reports: what stands before the first underscore
/// of the processor name, trimmed to at most 12 characters.
pub open spec fn server_name_spec(name: Seq<char>) -> Seq<char> {
    let head = match find_char_from(name, '_', 0) {
        Some(i) => name.take(i),
        None => name,
    };
    if head.len() <= 12 {
        head
    } else {
        head.take(12)
    }
}

/// Derives the short server name from a processor name.
pub fn get_server_name(processor_name: &str) -> (r: String)
    ensures
        r@ == server_name_spec(processor_name@),
{
    let len: usize = processor_name.unicode_len();
    let head_len: usize = match find_char(processor_name, '_') {
        Some(i) => i,
        None => len,
    };
    let cut: usize = if head_len <= 12 {
        head_len
    } else {
        12
    };
    let head: &str = processor_name.substring_char(0, cut);
    proof {
        let whole = processor_name@;
        let h = match find_char_from(whole, '_', 0) {
            Some(i) => whole.take(i),
            None => whole,
        };
        if h.len() > 12 {
            assert(whole.take(12) =~= h.take(12));
        }
    }
    head.to_owned()
}

/// Database connection settings consumed by the storer side of the pipeline.
pub struct DbConfig {
    pub postgres_connection_string: String,
    /// Size of the pool for writes/reads to the DB. Limits maximum number of
    /// queries in flight.
    pub db_pool_size: u32,
}

impl DbConfig {
    /// Pool size used when the configuration does not name one.
    pub fn default_db_pool_size() -> (n: u32)
        ensures
            n == 50,
    {
        50
    }
}

/// The address of the smart contract whose events and upgrades are indexed.
pub struct ContractConfig {
    pub contract_address: String,
}

} // verus!
