//! The extraction step over a transaction batch: per transaction, the
//! typed domain events and the correlated upgrade records, concatenated in
//! transaction order so that the batch keeps its original
//! (transaction version, event index) order.

use vstd::prelude::*;
use vstd::string::*;

use crate::changes::changes_error;
use crate::changes::correlated_changes_ok;
use crate::changes::ContractUpgradeChange;
use crate::errors::PipelineError;
use crate::events::events_error;
use crate::events::extracted_events_ok;
use crate::events::ContractEvent;
use crate::message::Message;
use crate::raw::txn_skipped;
use crate::raw::RawTransaction;
use crate::upgrade::ModuleUpgrade;
use crate::upgrade::PackageUpgrade;

verus! {

/// What the extractor hands downstream for one batch.
#[derive(Clone, Debug, PartialEq)]
pub struct TransactionContextData {
    pub events: Vec<ContractEvent>,
    pub changes: Vec<ContractUpgradeChange>,
}

/// What one transaction contributes to the batch's events: nothing when it
/// is skipped, its extracted events otherwise.
pub open spec fn txn_events_ok(
    contract: Seq<char>,
    t: RawTransaction,
    out: Seq<ContractEvent>,
) -> bool {
    if txn_skipped(t) {
        out == Seq::<ContractEvent>::empty()
    } else {
        extracted_events_ok(contract, (t.events->Some_0)@, out)
    }
}

/// The fatal condition one transaction raises, if any: nothing when it
/// is skipped, otherwise the first fatal event, or else the first fatal
/// write-set change or correlation failure.
pub open spec fn txn_error(contract: Seq<char>, t: RawTransaction) -> Option<PipelineError> {
    if txn_skipped(t) {
        None
    } else {
        match events_error(contract, (t.events->Some_0)@) {
            Some(e) => Some(e),
            None => changes_error(t.changes@, contract),
        }
    }
}

/// The first fatal condition a batch raises, in transaction order.
pub open spec fn batch_error(contract: Seq<char>, txns: Seq<RawTransaction>) -> Option<
    PipelineError,
>
    decreases txns.len(),
{
    if txns.len() == 0 {
        None
    } else {
        match batch_error(contract, txns.drop_last()) {
            Some(e) => Some(e),
            None => txn_error(contract, txns.last()),
        }
    }
}

/// A fatal transaction stays fatal for every longer prefix of the batch.
pub proof fn lemma_batch_error_persists(contract: Seq<char>, txns: Seq<RawTransaction>, j: int)
    requires
        0 <= j <= txns.len(),
        batch_error(contract, txns.take(j)) is Some,
    ensures
        batch_error(contract, txns) == batch_error(contract, txns.take(j)),
    decreases txns.len() - j,
{
    if j == txns.len() {
        assert(txns.take(j) =~= txns);
    } else {
        assert(txns.take(j + 1).drop_last() =~= txns.take(j));
        lemma_batch_error_persists(contract, txns, j + 1);
    }
}

/// What one transaction contributes to the batch's upgrade records.
pub open spec fn txn_changes_ok(
    contract: Seq<char>,
    t: RawTransaction,
    out: Seq<ContractUpgradeChange>,
) -> bool {
    if txn_skipped(t) {
        out == Seq::<ContractUpgradeChange>::empty()
    } else {
        correlated_changes_ok(contract, t.changes@, t.version, out)
    }
}

/// The extraction step: turns raw transactions into typed events and
/// correlated upgrade records.
pub struct Extractor {
    contract_address: String,
}

impl Extractor {
    /// An extractor for the given contract address.
    pub fn new(contract_address: String) -> (r: Self)
        ensures
            r.address() == contract_address@,
    {
        Extractor { contract_address }
    }

    /// The name of this pipeline step.
    pub fn name(&self) -> (r: String)
        ensures
            r@ == "Extractor"@,
    {
        let r: String = "Extractor".to_owned();
        r
    }

    /// The configured contract address.
    pub closed spec fn address(&self) -> Seq<char> {
        self.contract_address@
    }

    /// Extracts one batch: per transaction, in order, the typed events and
    /// the correlated upgrade records.  A failed transaction, or one the
    /// stream delivered without info or data, contributes nothing.  The
    /// batch succeeds exactly when no transaction raises a fatal
    /// condition; otherwise the first fatal condition poisons it.
    pub fn process_transactions(&self, txns: Vec<RawTransaction>) -> (r: Result<
        TransactionContextData,
        PipelineError,
    >)
        requires
            forall|i: int| 0 <= i < txns@.len() ==> ((#[trigger] txns@[i]).events matches Some(evs)
                ==> evs@.len() <= i64::MAX),
        ensures
            match r {
                Ok(d) => batch_error(self.address(), txns@) is None && exists|
                    evs: Seq<Seq<ContractEvent>>,
                    chs: Seq<Seq<ContractUpgradeChange>>,
                |
                    {
                        &&& evs.len() == txns@.len()
                        &&& chs.len() == txns@.len()
                        &&& forall|i: int| 0 <= i < txns@.len() ==> txn_events_ok(
                            self.address(),
                            txns@[i],
                            #[trigger] evs[i],
                        )
                        &&& forall|i: int| 0 <= i < txns@.len() ==> txn_changes_ok(
                            self.address(),
                            txns@[i],
                            #[trigger] chs[i],
                        )
                        &&& d.events@ == evs.flatten()
                        &&& d.changes@ == chs.flatten()
                    },
                Err(e) => batch_error(self.address(), txns@) == Some(e),
            },
    {
        let ghost orig = txns@;
        let mut rest = txns;
        let ghost mut processed: int = 0;
        let mut events: Vec<ContractEvent> = Vec::new();
        let mut changes: Vec<ContractUpgradeChange> = Vec::new();
        let ghost mut evs: Seq<Seq<ContractEvent>> = Seq::empty();
        let ghost mut chs: Seq<Seq<ContractUpgradeChange>> = Seq::empty();
        while rest.len() > 0
            invariant
                orig == txns@,
                0 <= processed <= orig.len(),
                rest@ == orig.skip(processed),
                batch_error(self.address(), orig.take(processed)) is None,
                forall|i: int| 0 <= i < orig.len() ==> ((#[trigger] orig[i]).events matches Some(
                    evs0,
                ) ==> evs0@.len() <= i64::MAX),
                evs.len() == processed,
                chs.len() == processed,
                forall|i: int| 0 <= i < processed ==> txn_events_ok(
                    self.address(),
                    orig[i],
                    #[trigger] evs[i],
                ),
                forall|i: int| 0 <= i < processed ==> txn_changes_ok(
                    self.address(),
                    orig[i],
                    #[trigger] chs[i],
                ),
                events@ == evs.flatten(),
                changes@ == chs.flatten(),
            decreases rest@.len(),
        {
            proof {
                assert(orig.skip(processed)[0] == orig[processed]);
                assert(orig.skip(processed).remove(0) =~= orig.skip(processed + 1));
                assert(orig.take(processed + 1).drop_last() =~= orig.take(processed));
                assert(orig.take(processed + 1).last() == orig[processed]);
            }
            let t = rest.remove(0);
            let skip_txn: bool = match t.info_success {
                Some(true) => false,
                _ => true,
            };
            let mut t_events: Vec<ContractEvent> = Vec::new();
            let mut t_changes: Vec<ContractUpgradeChange> = Vec::new();
            if !skip_txn {
                match t.events {
                    None => (),
                    Some(raw_events) => {
                        match ContractEvent::from_events(
                            self.contract_address.as_str(),
                            &raw_events,
                        ) {
                            Err(e) => {
                                proof {
                                    lemma_batch_error_persists(
                                        self.address(),
                                        orig,
                                        processed + 1,
                                    );
                                }
                                return Err(e);
                            },
                            Ok(mut extracted) => {
                                t_events.append(&mut extracted);
                            },
                        }
                        match ContractUpgradeChange::from_changes(
                            self.contract_address.as_str(),
                            t.version,
                            t.changes,
                        ) {
                            Err(e) => {
                                proof {
                                    lemma_batch_error_persists(
                                        self.address(),
                                        orig,
                                        processed + 1,
                                    );
                                }
                                return Err(e);
                            },
                            Ok(mut correlated) => {
                                t_changes.append(&mut correlated);
                            },
                        }
                    },
                }
            }
            proof {
                Seq::lemma_flatten_push(evs, t_events@);
                Seq::lemma_flatten_push(chs, t_changes@);
                evs = evs.push(t_events@);
                chs = chs.push(t_changes@);
            }
            events.append(&mut t_events);
            changes.append(&mut t_changes);
            proof {
                processed = processed + 1;
            }
        }
        proof {
            assert(orig.take(processed) =~= orig);
        }
        Ok(TransactionContextData { events, changes })
    }
}

/// The creation rows of a batch's events, in order.
pub open spec fn create_rows(s: Seq<ContractEvent>) -> Seq<Message>
    decreases s.len(),
{
    if s.len() == 0 {
        Seq::empty()
    } else {
        create_rows(s.drop_last()) + match s.last() {
            ContractEvent::CreateMessageEvent(m) => seq![m],
            ContractEvent::UpdateMessageEvent(_) => Seq::<Message>::empty(),
        }
    }
}

/// The update rows of a batch's events, in order.
pub open spec fn update_rows(s: Seq<ContractEvent>) -> Seq<Message>
    decreases s.len(),
{
    if s.len() == 0 {
        Seq::empty()
    } else {
        update_rows(s.drop_last()) + match s.last() {
            ContractEvent::CreateMessageEvent(_) => Seq::<Message>::empty(),
            ContractEvent::UpdateMessageEvent(m) => seq![m],
        }
    }
}

/// Partitions a batch's events into creation rows and update rows, each in
/// their original order.
pub fn split_events(events: Vec<ContractEvent>) -> (r: (Vec<Message>, Vec<Message>))
    ensures
        r.0@ == create_rows(events@),
        r.1@ == update_rows(events@),
{
    let ghost orig = events@;
    let mut rest = events;
    let ghost mut processed: int = 0;
    let mut creates: Vec<Message> = Vec::new();
    let mut updates: Vec<Message> = Vec::new();
    while rest.len() > 0
        invariant
            0 <= processed <= orig.len(),
            rest@ == orig.skip(processed),
            creates@ == create_rows(orig.take(processed)),
            updates@ == update_rows(orig.take(processed)),
        decreases rest@.len(),
    {
        proof {
            assert(orig.skip(processed)[0] == orig[processed]);
            assert(orig.skip(processed).remove(0) =~= orig.skip(processed + 1));
            assert(orig.take(processed + 1).drop_last() =~= orig.take(processed));
            assert(orig.take(processed + 1).last() == orig[processed]);
        }
        let e = rest.remove(0);
        match e {
            ContractEvent::CreateMessageEvent(m) => {
                creates.push(m);
                proof {
                    assert(creates@ =~= create_rows(orig.take(processed + 1)));
                    assert(updates@ =~= update_rows(orig.take(processed + 1)));
                }
            },
            ContractEvent::UpdateMessageEvent(m) => {
                updates.push(m);
                proof {
                    assert(creates@ =~= create_rows(orig.take(processed + 1)));
                    assert(updates@ =~= update_rows(orig.take(processed + 1)));
                }
            },
        }
        proof {
            processed = processed + 1;
        }
    }
    proof {
        assert(orig.take(processed) =~= orig);
    }
    (creates, updates)
}

/// The module upgrade rows of a batch's changes, in order.
pub open spec fn module_upgrade_rows(s: Seq<ContractUpgradeChange>) -> Seq<ModuleUpgrade>
    decreases s.len(),
{
    if s.len() == 0 {
        Seq::empty()
    } else {
        module_upgrade_rows(s.drop_last()) + match s.last() {
            ContractUpgradeChange::ModuleUpgradeChange(m) => seq![m],
            ContractUpgradeChange::PackageUpgradeChange(_) => Seq::<ModuleUpgrade>::empty(),
        }
    }
}

/// The package upgrade rows of a batch's changes, in order.
pub open spec fn package_upgrade_rows(s: Seq<ContractUpgradeChange>) -> Seq<PackageUpgrade>
    decreases s.len(),
{
    if s.len() == 0 {
        Seq::empty()
    } else {
        package_upgrade_rows(s.drop_last()) + match s.last() {
            ContractUpgradeChange::ModuleUpgradeChange(_) => Seq::<PackageUpgrade>::empty(),
            ContractUpgradeChange::PackageUpgradeChange(p) => seq![p],
        }
    }
}

/// Partitions a batch's upgrade records into module rows and package rows,
/// each in their original order.
pub fn split_changes(changes: Vec<ContractUpgradeChange>) -> (r: (
    Vec<ModuleUpgrade>,
    Vec<PackageUpgrade>,
))
    ensures
        r.0@ == module_upgrade_rows(changes@),
        r.1@ == package_upgrade_rows(changes@),
{
    let ghost orig = changes@;
    let mut rest = changes;
    let ghost mut processed: int = 0;
    let mut modules: Vec<ModuleUpgrade> = Vec::new();
    let mut packages: Vec<PackageUpgrade> = Vec::new();
    while rest.len() > 0
        invariant
            0 <= processed <= orig.len(),
            rest@ == orig.skip(processed),
            modules@ == module_upgrade_rows(orig.take(processed)),
            packages@ == package_upgrade_rows(orig.take(processed)),
        decreases rest@.len(),
    {
        proof {
            assert(orig.skip(processed)[0] == orig[processed]);
            assert(orig.skip(processed).remove(0) =~= orig.skip(processed + 1));
            assert(orig.take(processed + 1).drop_last() =~= orig.take(processed));
            assert(orig.take(processed + 1).last() == orig[processed]);
        }
        let c = rest.remove(0);
        match c {
            ContractUpgradeChange::ModuleUpgradeChange(m) => {
                modules.push(m);
                proof {
                    assert(modules@ =~= module_upgrade_rows(orig.take(processed + 1)));
                    assert(packages@ =~= package_upgrade_rows(orig.take(processed + 1)));
                }
            },
            ContractUpgradeChange::PackageUpgradeChange(p) => {
                packages.push(p);
                proof {
                    assert(modules@ =~= module_upgrade_rows(orig.take(processed + 1)));
                    assert(packages@ =~= package_upgrade_rows(orig.take(processed + 1)));
                }
            },
        }
        proof {
            processed = processed + 1;
        }
    }
    proof {
        assert(orig.take(processed) =~= orig);
    }
    (modules, packages)
}

} // verus!
