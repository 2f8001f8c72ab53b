use indexer::config::DbConfig;
use indexer::errors::PipelineError;
use indexer::ledger::check_or_update_chain_id;
use indexer::ledger::get_starting_version;
use indexer::ledger::ChainIdOutcome;
use indexer::ledger::LedgerInfo;

#[test]
fn matching_chain_id_continues() {
    assert_eq!(
        check_or_update_chain_id(Some(4), 4),
        Ok(ChainIdOutcome::Continue(4))
    );
}

#[test]
fn missing_chain_id_is_seeded() {
    assert_eq!(
        check_or_update_chain_id(None, 4),
        Ok(ChainIdOutcome::Seed(4))
    );
}

#[test]
fn wrong_chain_id_is_fatal() {
    assert_eq!(
        check_or_update_chain_id(Some(3), 4),
        Err(PipelineError::ChainIdMismatch)
    );
}

#[test]
fn starting_version_resumes_after_the_cursor() {
    assert_eq!(get_starting_version(None, None), 0);
    assert_eq!(get_starting_version(Some(5), None), 5);
    assert_eq!(get_starting_version(None, Some(9)), 10);
    assert_eq!(get_starting_version(Some(5), Some(9)), 10);
    assert_eq!(get_starting_version(Some(50), Some(9)), 50);
}

#[test]
fn default_pool_size_is_fifty() {
    assert_eq!(DbConfig::default_db_pool_size(), 50);
}

#[test]
fn ledger_info_is_one_column() {
    assert_eq!(LedgerInfo::field_count(), 1);
    let li = LedgerInfo { chain_id: 4 };
    assert_eq!(li.chain_id, 4);
}
