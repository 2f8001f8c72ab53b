//! The guarantees the pipeline is built around, proved over the table
//! models: replaying a batch is harmless, a stale update never wins, the
//! aggregate merge is additive across batches, and the creation and
//! update passes account disjoint fields.

use vstd::map::*;
use vstd::prelude::*;

use crate::message::Message;
use crate::reduce::create_delta_step;
use crate::reduce::dedup_updates;
use crate::reduce::disjoint_subjects;
use crate::reduce::lemma_dedup_disjoint_append;
use crate::reduce::max_int;
use crate::reduce::min_int;
use crate::reduce::pair_newer;
use crate::reduce::reduce_create_map;
use crate::reduce::reduce_update_map;
use crate::reduce::update_delta_step;
use crate::reduce::CreateDeltaV;
use crate::reduce::UpdateDeltaV;
use crate::store::apply_create_all;
use crate::store::apply_update_all;
use crate::store::apply_update_one;
use crate::store::merged_update_row;
use crate::store::merge_create_stats;
use crate::store::merge_update_stats;
use crate::user_stat::UserStatV;
use crate::user_stat::POINT_PER_NEW_MESSAGE;
use crate::user_stat::POINT_PER_UPDATE_MESSAGE;

verus! {

/// After the creation merge, every subject of the batch has a row.
proof fn lemma_apply_create_covers(db: Map<Seq<char>, Message>, batch: Seq<Message>)
    ensures
        forall|i: int| 0 <= i < batch.len() ==> apply_create_all(db, batch).contains_key(
            (#[trigger] batch[i]).message_obj_addr@,
        ),
        forall|k: Seq<char>| db.contains_key(k) ==> apply_create_all(db, batch).contains_key(k),
    decreases batch.len(),
{
    if batch.len() > 0 {
        lemma_apply_create_covers(db, batch.drop_last());
        assert forall|i: int| 0 <= i < batch.len() implies apply_create_all(
            db,
            batch,
        ).contains_key((#[trigger] batch[i]).message_obj_addr@) by {
            if i < batch.len() - 1 {
                assert(batch.drop_last()[i] == batch[i]);
            }
        }
    }
}

/// Merging creation rows whose subjects all have rows already changes
/// nothing: on a subject-key conflict the stored row wins.
proof fn lemma_apply_create_noop(db: Map<Seq<char>, Message>, batch: Seq<Message>)
    requires
        forall|i: int| 0 <= i < batch.len() ==> db.contains_key(
            (#[trigger] batch[i]).message_obj_addr@,
        ),
    ensures
        apply_create_all(db, batch) == db,
    decreases batch.len(),
{
    if batch.len() > 0 {
        assert forall|i: int| 0 <= i < batch.drop_last().len() implies db.contains_key(
            (#[trigger] batch.drop_last()[i]).message_obj_addr@,
        ) by {
            assert(batch.drop_last()[i] == batch[i]);
        }
        lemma_apply_create_noop(db, batch.drop_last());
        assert(batch[batch.len() - 1] == batch.last());
    }
}

/// Idempotent replay, creation path: merging the same creation batch a
/// second time leaves every record row exactly as the first run left it.
pub proof fn lemma_create_replay_idempotent(db: Map<Seq<char>, Message>, batch: Seq<Message>)
    ensures
        apply_create_all(apply_create_all(db, batch), batch) == apply_create_all(db, batch),
{
    lemma_apply_create_covers(db, batch);
    lemma_apply_create_noop(apply_create_all(db, batch), batch);
}

/// After the update merge, every subject of the batch has a row at least
/// as new as its row in the batch.
proof fn lemma_apply_update_covers(db: Map<Seq<char>, Message>, batch: Seq<Message>)
    ensures
        forall|i: int| 0 <= i < batch.len() ==> apply_update_all(db, batch).contains_key(
            (#[trigger] batch[i]).message_obj_addr@,
        ) && !pair_newer(batch[i], apply_update_all(db, batch)[batch[i].message_obj_addr@]),
    decreases batch.len(),
{
    if batch.len() > 0 {
        lemma_apply_update_covers(db, batch.drop_last());
        let prev = apply_update_all(db, batch.drop_last());
        let whole = apply_update_all(db, batch);
        assert forall|i: int| 0 <= i < batch.len() implies whole.contains_key(
            (#[trigger] batch[i]).message_obj_addr@,
        ) && !pair_newer(batch[i], whole[batch[i].message_obj_addr@]) by {
            if i < batch.len() - 1 {
                assert(batch.drop_last()[i] == batch[i]);
                assert(prev.contains_key(batch[i].message_obj_addr@) && !pair_newer(
                    batch[i],
                    prev[batch[i].message_obj_addr@],
                ));
            }
        }
    }
}

/// Merging update rows that are all no newer than the stored rows changes
/// nothing: a replacement happens only on a strictly greater pair.
proof fn lemma_apply_update_noop(db: Map<Seq<char>, Message>, batch: Seq<Message>)
    requires
        forall|i: int| 0 <= i < batch.len() ==> db.contains_key(
            (#[trigger] batch[i]).message_obj_addr@,
        ) && !pair_newer(batch[i], db[batch[i].message_obj_addr@]),
    ensures
        apply_update_all(db, batch) == db,
    decreases batch.len(),
{
    if batch.len() > 0 {
        assert forall|i: int| 0 <= i < batch.drop_last().len() implies db.contains_key(
            (#[trigger] batch.drop_last()[i]).message_obj_addr@,
        ) && !pair_newer(batch.drop_last()[i], db[batch.drop_last()[i].message_obj_addr@]) by {
            assert(batch.drop_last()[i] == batch[i]);
        }
        lemma_apply_update_noop(db, batch.drop_last());
        assert(batch[batch.len() - 1] == batch.last());
    }
}

/// Idempotent replay, update path: merging the same update batch a second
/// time leaves every record row exactly as the first run left it, because
/// no redelivered pair is strictly greater than what is stored.
pub proof fn lemma_update_replay_idempotent(db: Map<Seq<char>, Message>, batch: Seq<Message>)
    ensures
        apply_update_all(apply_update_all(db, batch), batch) == apply_update_all(db, batch),
{
    lemma_apply_update_covers(db, batch);
    lemma_apply_update_noop(apply_update_all(db, batch), batch);
}

/// Ordering monotonicity: two updates of one subject, applied in either
/// arrival order, leave the content and (timestamp, event index) pair of
/// the update with the lexicographically greater pair — unless the
/// stored row is at least as new, in which case nothing changes.  The
/// origin columns — creator address and creation timestamp — always keep
/// the values the first writer of the row set, since a replacement never
/// touches them.
pub proof fn lemma_update_ordering(db: Map<Seq<char>, Message>, e1: Message, e2: Message)
    requires
        e1.message_obj_addr@ == e2.message_obj_addr@,
        e1.last_update_timestamp != e2.last_update_timestamp || e1.last_update_event_idx
            != e2.last_update_event_idx,
    ensures
        ({
            let winner = if pair_newer(e2, e1) {
                e2
            } else {
                e1
            };
            let k = e1.message_obj_addr@;
            let r12 = apply_update_all(db, seq![e1, e2]);
            let r21 = apply_update_all(db, seq![e2, e1]);
            &&& r12.contains_key(k) && r21.contains_key(k)
            &&& !db.contains_key(k) ==> {
                &&& r12[k].content == winner.content
                &&& r12[k].last_update_timestamp == winner.last_update_timestamp
                &&& r12[k].last_update_event_idx == winner.last_update_event_idx
                &&& r21[k].content == winner.content
                &&& r21[k].last_update_timestamp == winner.last_update_timestamp
                &&& r21[k].last_update_event_idx == winner.last_update_event_idx
                &&& r12[k].creator_addr == e1.creator_addr
                &&& r12[k].creation_timestamp == e1.creation_timestamp
                &&& r21[k].creator_addr == e2.creator_addr
                &&& r21[k].creation_timestamp == e2.creation_timestamp
            }
            &&& db.contains_key(k) ==> {
                &&& r12[k] == r21[k]
                &&& r12[k].creator_addr == db[k].creator_addr
                &&& r12[k].creation_timestamp == db[k].creation_timestamp
                &&& pair_newer(winner, db[k]) ==> {
                    &&& r12[k].content == winner.content
                    &&& r12[k].last_update_timestamp == winner.last_update_timestamp
                    &&& r12[k].last_update_event_idx == winner.last_update_event_idx
                }
                &&& !pair_newer(winner, db[k]) ==> r12[k] == db[k]
            }
        }),
{
    let k = e1.message_obj_addr@;
    assert(seq![e1, e2].drop_last() =~= seq![e1]);
    assert(seq![e1].drop_last() =~= Seq::<Message>::empty());
    assert(seq![e2, e1].drop_last() =~= seq![e2]);
    assert(seq![e2].drop_last() =~= Seq::<Message>::empty());
    assert(apply_update_all(db, Seq::<Message>::empty()) == db);
    assert(apply_update_all(db, seq![e1]) == apply_update_one(db, e1));
    assert(apply_update_all(db, seq![e2]) == apply_update_one(db, e2));
    assert(apply_update_all(db, seq![e1, e2]) == apply_update_one(apply_update_one(db, e1), e2));
    assert(apply_update_all(db, seq![e2, e1]) == apply_update_one(apply_update_one(db, e2), e1));
    if !db.contains_key(k) {
        if pair_newer(e2, e1) {
            assert(apply_update_one(db.insert(k, e1), e2) == db.insert(k, e1).insert(
                k,
                merged_update_row(e1, e2),
            ));
        } else {
            assert(pair_newer(e1, e2));
            assert(apply_update_one(db.insert(k, e2), e1) == db.insert(k, e2).insert(
                k,
                merged_update_row(e2, e1),
            ));
        }
    }
}

/// One creation row folded straight into the aggregate table.
pub open spec fn create_stat_step(t: Map<Seq<char>, UserStatV>, m: Message) -> Map<
    Seq<char>,
    UserStatV,
> {
    let k = m.creator_addr@;
    if t.contains_key(k) {
        t.insert(
            k,
            UserStatV {
                user_addr: t[k].user_addr,
                creation_timestamp: min_int(t[k].creation_timestamp, m.creation_timestamp as int),
                last_update_timestamp: max_int(
                    t[k].last_update_timestamp,
                    m.creation_timestamp as int,
                ),
                created_messages: t[k].created_messages + 1,
                updated_messages: t[k].updated_messages,
                creation_points: t[k].creation_points + POINT_PER_NEW_MESSAGE,
                update_points: t[k].update_points,
                total_points: t[k].total_points + POINT_PER_NEW_MESSAGE,
            },
        )
    } else {
        t.insert(
            k,
            UserStatV {
                user_addr: m.creator_addr,
                creation_timestamp: m.creation_timestamp as int,
                last_update_timestamp: m.creation_timestamp as int,
                created_messages: 1,
                updated_messages: 0,
                creation_points: POINT_PER_NEW_MESSAGE as int,
                update_points: 0,
                total_points: POINT_PER_NEW_MESSAGE as int,
            },
        )
    }
}

/// Extending the creation deltas by one row and merging equals merging
/// first and folding the row in afterwards.
proof fn lemma_merge_create_step(
    stats: Map<Seq<char>, UserStatV>,
    d: Map<Seq<char>, CreateDeltaV>,
    m: Message,
)
    ensures
        merge_create_stats(stats, create_delta_step(d, m)) == create_stat_step(
            merge_create_stats(stats, d),
            m,
        ),
{
    let k = m.creator_addr@;
    assert_maps_equal!(
        merge_create_stats(stats, create_delta_step(d, m)),
        create_stat_step(merge_create_stats(stats, d), m),
        x => {
            if x == k {
            } else {
            }
        }
    );
}

/// Aggregate additivity, creation pass: reducing and merging one batch
/// and then another yields the same aggregate table as reducing their
/// concatenation and merging once.
pub proof fn lemma_aggregate_additivity_create(
    stats: Map<Seq<char>, UserStatV>,
    b1: Seq<Message>,
    b2: Seq<Message>,
)
    ensures
        merge_create_stats(merge_create_stats(stats, reduce_create_map(b1)), reduce_create_map(b2))
            == merge_create_stats(stats, reduce_create_map(b1 + b2)),
    decreases b2.len(),
{
    if b2.len() == 0 {
        assert(b1 + b2 =~= b1);
        assert(reduce_create_map(b2) =~= Map::<Seq<char>, CreateDeltaV>::empty());
        assert(merge_create_stats(
            merge_create_stats(stats, reduce_create_map(b1)),
            reduce_create_map(b2),
        ) =~= merge_create_stats(stats, reduce_create_map(b1)));
    } else {
        let c = b2.drop_last();
        let m = b2.last();
        lemma_aggregate_additivity_create(stats, b1, c);
        lemma_merge_create_step(merge_create_stats(stats, reduce_create_map(b1)), reduce_create_map(c), m);
        lemma_merge_create_step(stats, reduce_create_map(b1 + c), m);
        assert((b1 + b2).drop_last() =~= b1 + c);
        assert((b1 + b2).last() == m);
        assert(reduce_create_map(b1 + b2) == create_delta_step(reduce_create_map(b1 + c), m));
    }
}

/// One update row folded straight into the aggregate table.
pub open spec fn update_stat_step(t: Map<Seq<char>, UserStatV>, m: Message) -> Map<
    Seq<char>,
    UserStatV,
> {
    let k = m.creator_addr@;
    if t.contains_key(k) {
        t.insert(
            k,
            UserStatV {
                user_addr: t[k].user_addr,
                creation_timestamp: t[k].creation_timestamp,
                last_update_timestamp: max_int(
                    t[k].last_update_timestamp,
                    m.last_update_timestamp as int,
                ),
                created_messages: t[k].created_messages,
                updated_messages: t[k].updated_messages + 1,
                creation_points: t[k].creation_points,
                update_points: t[k].update_points + POINT_PER_UPDATE_MESSAGE,
                total_points: t[k].total_points + POINT_PER_UPDATE_MESSAGE,
            },
        )
    } else {
        t.insert(
            k,
            UserStatV {
                user_addr: m.creator_addr,
                creation_timestamp: 0,
                last_update_timestamp: m.last_update_timestamp as int,
                created_messages: 0,
                updated_messages: 1,
                creation_points: 0,
                update_points: POINT_PER_UPDATE_MESSAGE as int,
                total_points: POINT_PER_UPDATE_MESSAGE as int,
            },
        )
    }
}

/// Extending the update deltas by one row and merging equals merging
/// first and folding the row in afterwards.
proof fn lemma_merge_update_step(
    stats: Map<Seq<char>, UserStatV>,
    d: Map<Seq<char>, UpdateDeltaV>,
    m: Message,
)
    ensures
        merge_update_stats(stats, update_delta_step(d, m)) == update_stat_step(
            merge_update_stats(stats, d),
            m,
        ),
{
    let k = m.creator_addr@;
    assert_maps_equal!(
        merge_update_stats(stats, update_delta_step(d, m)),
        update_stat_step(merge_update_stats(stats, d), m),
        x => {
            if x == k {
            } else {
            }
        }
    );
}

/// Aggregate additivity, update pass: reducing and merging one batch of
/// (deduplicated) update rows and then another yields the same aggregate
/// table as reducing their concatenation and merging once.
pub proof fn lemma_aggregate_additivity_update(
    stats: Map<Seq<char>, UserStatV>,
    b1: Seq<Message>,
    b2: Seq<Message>,
)
    ensures
        merge_update_stats(merge_update_stats(stats, reduce_update_map(b1)), reduce_update_map(b2))
            == merge_update_stats(stats, reduce_update_map(b1 + b2)),
    decreases b2.len(),
{
    if b2.len() == 0 {
        assert(b1 + b2 =~= b1);
        assert(reduce_update_map(b2) =~= Map::<Seq<char>, UpdateDeltaV>::empty());
        assert(merge_update_stats(
            merge_update_stats(stats, reduce_update_map(b1)),
            reduce_update_map(b2),
        ) =~= merge_update_stats(stats, reduce_update_map(b1)));
    } else {
        let c = b2.drop_last();
        let m = b2.last();
        lemma_aggregate_additivity_update(stats, b1, c);
        lemma_merge_update_step(merge_update_stats(stats, reduce_update_map(b1)), reduce_update_map(c), m);
        lemma_merge_update_step(stats, reduce_update_map(b1 + c), m);
        assert((b1 + b2).drop_last() =~= b1 + c);
        assert((b1 + b2).last() == m);
        assert(reduce_update_map(b1 + b2) == update_delta_step(reduce_update_map(b1 + c), m));
    }
}

/// Aggregate additivity over raw batches, update pass: for two batches
/// that touch disjoint subject rows, deduplicating, reducing and merging
/// one and then the other yields the same aggregate table as doing it
/// once for their concatenation — within-batch deduplication
/// notwithstanding.
pub proof fn lemma_aggregate_additivity_update_batches(
    stats: Map<Seq<char>, UserStatV>,
    b1: Seq<Message>,
    b2: Seq<Message>,
)
    requires
        disjoint_subjects(b1, b2),
    ensures
        merge_update_stats(
            merge_update_stats(stats, reduce_update_map(dedup_updates(b1))),
            reduce_update_map(dedup_updates(b2)),
        ) == merge_update_stats(stats, reduce_update_map(dedup_updates(b1 + b2))),
{
    lemma_dedup_disjoint_append(b1, b2);
    lemma_aggregate_additivity_update(stats, dedup_updates(b1), dedup_updates(b2));
}

/// Disjoint accounting, creation pass: merging creation deltas never
/// changes a user's updated-count or update-points; a fresh row starts
/// them at zero.
pub proof fn lemma_disjoint_accounting_create(
    stats: Map<Seq<char>, UserStatV>,
    ds: Map<Seq<char>, CreateDeltaV>,
)
    ensures
        forall|k: Seq<char>| #[trigger] merge_create_stats(stats, ds).contains_key(k) ==> {
            &&& merge_create_stats(stats, ds)[k].updated_messages == if stats.contains_key(k) {
                stats[k].updated_messages
            } else {
                0
            }
            &&& merge_create_stats(stats, ds)[k].update_points == if stats.contains_key(k) {
                stats[k].update_points
            } else {
                0
            }
        },
{
}

/// Disjoint accounting, update pass: merging update deltas never changes
/// a user's created-count or creation-points; a fresh row starts them at
/// zero.
pub proof fn lemma_disjoint_accounting_update(
    stats: Map<Seq<char>, UserStatV>,
    ds: Map<Seq<char>, UpdateDeltaV>,
)
    ensures
        forall|k: Seq<char>| #[trigger] merge_update_stats(stats, ds).contains_key(k) ==> {
            &&& merge_update_stats(stats, ds)[k].created_messages == if stats.contains_key(k) {
                stats[k].created_messages
            } else {
                0
            }
            &&& merge_update_stats(stats, ds)[k].creation_points == if stats.contains_key(k) {
                stats[k].creation_points
            } else {
                0
            }
        },
{
}

} // verus!
