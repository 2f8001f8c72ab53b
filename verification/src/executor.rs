//! The chunked upsert executor, modelled: a record batch is partitioned
//! by a column-derived limit, each chunk is one atomic merge against the
//! table models, and each chunk's aggregate delta is reduced from that
//! chunk alone, so every event is counted exactly once however the batch
//! is cut.  The two-attempt retry plan for a failing chunk sanitizes the
//! payload once and then gives up.

use vstd::prelude::*;
use vstd::string::*;

use crate::keyed::KeyedVec;
use crate::keyed::StrKeyed;
use crate::laws::lemma_aggregate_additivity_create;
use crate::laws::lemma_aggregate_additivity_update;
use crate::message::Message;
use crate::reduce::create_count_at;
use crate::reduce::dedup_update_events;
use crate::reduce::dedup_updates;
use crate::reduce::lemma_reduce_create_count_bounds;
use crate::reduce::lemma_reduce_create_counts_add;
use crate::reduce::lemma_reduce_update_count_bounds;
use crate::reduce::lemma_reduce_update_counts_add;
use crate::reduce::reduce_create_events;
use crate::reduce::reduce_create_map;
use crate::reduce::reduce_update_events;
use crate::reduce::reduce_update_map;
use crate::reduce::update_count_at;
use crate::store::apply_create_all;
use crate::store::apply_update_all;
use crate::store::can_merge_create;
use crate::store::can_merge_update;
use crate::store::lemma_apply_create_append;
use crate::store::lemma_apply_update_append;
use crate::store::merge_create_stats;
use crate::store::merge_update_stats;
use crate::store::MessageStore;
use crate::store::UserStatStore;
use crate::text::without_nulls;
use crate::text::remove_null_chars;
use crate::upgrade::ModuleUpgrade;
use crate::upgrade::PackageUpgrade;
use crate::upgrade_store::apply_modules_all;
use crate::upgrade_store::apply_packages_all;
use crate::upgrade_store::lemma_apply_modules_append;
use crate::upgrade_store::lemma_apply_packages_append;
use crate::upgrade_store::ModuleUpgradeStore;
use crate::upgrade_store::PackageUpgradeStore;
use crate::user_stat::UserStatV;
use crate::user_stat::POINT_PER_NEW_MESSAGE;
use crate::user_stat::POINT_PER_UPDATE_MESSAGE;

verus! {

/// The backend-imposed ceiling on bind parameters per statement; a chunk
/// of rows must stay under it.
pub const MAX_STATEMENT_PARAMS: usize = 32767;

/// A per-table chunk size override from the configuration.
#[derive(Clone, Debug, PartialEq)]
pub struct TableChunkSize {
    pub table_name: String,
    pub chunk_size: usize,
}

impl StrKeyed for TableChunkSize {
    open spec fn skey(&self) -> Seq<char> {
        self.table_name@
    }

    fn key_text(&self) -> (r: &str) {
        self.table_name.as_str()
    }
}

/// The chunk size for one table: the configured override, or the
/// parameter ceiling divided by the table's column count.
pub fn get_config_table_chunk_size(
    table_name: &str,
    per_table_chunk_sizes: &KeyedVec<TableChunkSize>,
    row_field_count: usize,
) -> (r: usize)
    requires
        per_table_chunk_sizes.wf(),
        row_field_count >= 1,
    ensures
        r as int == if per_table_chunk_sizes@.contains_key(table_name@) {
            per_table_chunk_sizes@[table_name@].chunk_size as int
        } else {
            (MAX_STATEMENT_PARAMS / row_field_count) as int
        },
{
    match per_table_chunk_sizes.get(table_name) {
        Some(t) => t.chunk_size,
        None => MAX_STATEMENT_PARAMS / row_field_count,
    }
}

/// A row that can be sanitized for the relational backend.
pub trait SanitizeRow: Sized {
    /// `r` is `self` with every text column rid of null characters.
    spec fn sanitized(&self, r: Self) -> bool;

    /// Strips the characters the backend cannot store.
    fn sanitize(&self) -> (r: Self)
        ensures
            self.sanitized(r),
    ;
}

impl SanitizeRow for Message {
    open spec fn sanitized(&self, r: Self) -> bool {
        &&& r.message_obj_addr@ == without_nulls(self.message_obj_addr@)
        &&& r.creator_addr@ == without_nulls(self.creator_addr@)
        &&& r.content@ == without_nulls(self.content@)
        &&& r.creation_timestamp == self.creation_timestamp
        &&& r.last_update_timestamp == self.last_update_timestamp
        &&& r.last_update_event_idx == self.last_update_event_idx
    }

    fn sanitize(&self) -> (r: Self) {
        Message {
            message_obj_addr: remove_null_chars(self.message_obj_addr.as_str()),
            creator_addr: remove_null_chars(self.creator_addr.as_str()),
            creation_timestamp: self.creation_timestamp,
            last_update_timestamp: self.last_update_timestamp,
            last_update_event_idx: self.last_update_event_idx,
            content: remove_null_chars(self.content.as_str()),
        }
    }
}

impl SanitizeRow for ModuleUpgrade {
    open spec fn sanitized(&self, r: Self) -> bool {
        &&& r.module_addr@ == without_nulls(self.module_addr@)
        &&& r.module_name@ == without_nulls(self.module_name@)
        &&& r.upgrade_number == self.upgrade_number
        &&& r.module_bytecode@ == self.module_bytecode@
        &&& r.module_source_code@ == without_nulls(self.module_source_code@)
        &&& r.module_abi@ == without_nulls(self.module_abi@)
        &&& r.tx_version == self.tx_version
    }

    fn sanitize(&self) -> (r: Self) {
        ModuleUpgrade {
            module_addr: remove_null_chars(self.module_addr.as_str()),
            module_name: remove_null_chars(self.module_name.as_str()),
            upgrade_number: self.upgrade_number,
            module_bytecode: self.module_bytecode.clone(),
            module_source_code: remove_null_chars(self.module_source_code.as_str()),
            module_abi: remove_null_chars(self.module_abi.as_str()),
            tx_version: self.tx_version,
        }
    }
}

impl SanitizeRow for PackageUpgrade {
    open spec fn sanitized(&self, r: Self) -> bool {
        &&& r.package_addr@ == without_nulls(self.package_addr@)
        &&& r.package_name@ == without_nulls(self.package_name@)
        &&& r.upgrade_number == self.upgrade_number
        &&& r.upgrade_policy == self.upgrade_policy
        &&& r.package_manifest@ == without_nulls(self.package_manifest@)
        &&& r.source_digest@ == without_nulls(self.source_digest@)
        &&& r.tx_version == self.tx_version
    }

    fn sanitize(&self) -> (r: Self) {
        PackageUpgrade {
            package_addr: remove_null_chars(self.package_addr.as_str()),
            package_name: remove_null_chars(self.package_name.as_str()),
            upgrade_number: self.upgrade_number,
            upgrade_policy: self.upgrade_policy,
            package_manifest: remove_null_chars(self.package_manifest.as_str()),
            source_digest: remove_null_chars(self.source_digest.as_str()),
            tx_version: self.tx_version,
        }
    }
}

/// Cleans a batch for the backend: with the flag set, every row is
/// sanitized; without it, the batch passes through untouched.
pub fn clean_data_for_db<T: SanitizeRow>(items: Vec<T>, should_remove_null_bytes: bool) -> (r: Vec<
    T,
>)
    ensures
        r@.len() == items@.len(),
        should_remove_null_bytes ==> forall|i: int| 0 <= i < items@.len() ==> (
        #[trigger] items@[i]).sanitized(r@[i]),
        !should_remove_null_bytes ==> r@ == items@,
{
    if !should_remove_null_bytes {
        return items;
    }
    let n: usize = items.len();
    let mut r: Vec<T> = Vec::new();
    let mut i: usize = 0;
    while i < n
        invariant
            i <= n,
            n == items@.len(),
            r@.len() == i,
            forall|j: int| 0 <= j < i ==> (#[trigger] items@[j]).sanitized(r@[j]),
        decreases n - i,
    {
        r.push(items[i].sanitize());
        i = i + 1;
    }
    r
}

/// One chunk's execution state: its payload and whether the single
/// sanitize-and-retry has been spent.
pub struct ChunkTask<T: SanitizeRow> {
    pub payload: Vec<T>,
    pub retried: bool,
}

impl<T: SanitizeRow> ChunkTask<T> {
    /// A fresh attempt for one chunk.
    pub fn new(payload: Vec<T>) -> (r: Self)
        ensures
            r.payload == payload,
            !r.retried,
    {
        ChunkTask { payload, retried: false }
    }

    /// What to do after a failed attempt: the first failure retries once
    /// with the sanitized payload, a second failure is fatal for the
    /// chunk — retries are bounded to exactly one.
    pub fn on_failure(self) -> (r: Option<ChunkTask<T>>)
        ensures
            self.retried ==> r is None,
            !self.retried ==> (r matches Some(t) && t.retried && t.payload@.len()
                == self.payload@.len() && forall|i: int|
                0 <= i < self.payload@.len() ==> (#[trigger] self.payload@[i]).sanitized(
                    t.payload@[i],
                )),
    {
        if self.retried {
            None
        } else {
            Some(ChunkTask { payload: clean_data_for_db(self.payload, true), retried: true })
        }
    }
}

/// A chunk's creation merge stays within the column bounds: what the
/// whole batch's bound guarantees for every chunk, because counts are
/// additive and non-negative.
proof fn lemma_chunk_create_fits(
    stats: Map<Seq<char>, UserStatV>,
    a: Seq<Message>,
    b: Seq<Message>,
    c: Seq<Message>,
)
    requires
        can_merge_create(stats, reduce_create_map(a + b + c)),
    ensures
        can_merge_create(merge_create_stats(stats, reduce_create_map(a)), reduce_create_map(b)),
{
    lemma_reduce_create_counts_add(a, b);
    lemma_reduce_create_counts_add(a + b, c);
    lemma_reduce_create_count_bounds(a);
    lemma_reduce_create_count_bounds(b);
    lemma_reduce_create_count_bounds(c);
    let t = merge_create_stats(stats, reduce_create_map(a));
    let db = reduce_create_map(b);
    assert forall|k: Seq<char>| #[trigger] db.contains_key(k) implies {
        &&& 0 <= db[k].count
        &&& db[k].count * POINT_PER_NEW_MESSAGE <= i64::MAX
        &&& t.contains_key(k) ==> {
            &&& t[k].created_messages + db[k].count <= i64::MAX
            &&& t[k].creation_points + db[k].count * POINT_PER_NEW_MESSAGE <= i64::MAX
            &&& t[k].total_points + db[k].count * POINT_PER_NEW_MESSAGE <= i64::MAX
        }
    } by {
        assert(reduce_create_map(a + b).contains_key(k));
        assert(reduce_create_map(a + b + c).contains_key(k));
        let whole = create_count_at(reduce_create_map(a + b + c), k);
        let ca = create_count_at(reduce_create_map(a), k);
        let cb = db[k].count;
        let cc = create_count_at(reduce_create_map(c), k);
        assert(create_count_at(reduce_create_map(a + b), k) == ca + cb);
        assert(whole == ca + cb + cc);
        assert(0 <= ca && 0 <= cb && 0 <= cc);
        assert(whole * POINT_PER_NEW_MESSAGE <= i64::MAX);
    }
}

/// A chunk's update merge stays within the column bounds.
proof fn lemma_chunk_update_fits(
    stats: Map<Seq<char>, UserStatV>,
    a: Seq<Message>,
    b: Seq<Message>,
    c: Seq<Message>,
)
    requires
        can_merge_update(stats, reduce_update_map(a + b + c)),
    ensures
        can_merge_update(merge_update_stats(stats, reduce_update_map(a)), reduce_update_map(b)),
{
    lemma_reduce_update_counts_add(a, b);
    lemma_reduce_update_counts_add(a + b, c);
    lemma_reduce_update_count_bounds(a);
    lemma_reduce_update_count_bounds(b);
    lemma_reduce_update_count_bounds(c);
    let t = merge_update_stats(stats, reduce_update_map(a));
    let db = reduce_update_map(b);
    assert forall|k: Seq<char>| #[trigger] db.contains_key(k) implies {
        &&& 0 <= db[k].count
        &&& db[k].count * POINT_PER_UPDATE_MESSAGE <= i64::MAX
        &&& t.contains_key(k) ==> {
            &&& t[k].updated_messages + db[k].count <= i64::MAX
            &&& t[k].update_points + db[k].count * POINT_PER_UPDATE_MESSAGE <= i64::MAX
            &&& t[k].total_points + db[k].count * POINT_PER_UPDATE_MESSAGE <= i64::MAX
        }
    } by {
        assert(reduce_update_map(a + b).contains_key(k));
        assert(reduce_update_map(a + b + c).contains_key(k));
        let whole = update_count_at(reduce_update_map(a + b + c), k);
        let ca = update_count_at(reduce_update_map(a), k);
        let cb = db[k].count;
        let cc = update_count_at(reduce_update_map(c), k);
        assert(update_count_at(reduce_update_map(a + b), k) == ca + cb);
        assert(whole == ca + cb + cc);
        assert(0 <= ca && 0 <= cb && 0 <= cc);
        assert(whole * POINT_PER_UPDATE_MESSAGE <= i64::MAX);
    }
}

/// Persists one batch's creation events: the rows are cut into chunks of
/// at most `chunk_size`, each chunk is merged into the record table with
/// first-writer-wins semantics, and each chunk's own aggregate delta is
/// merged into the statistics — so across all chunks every event is
/// accounted exactly once, and the net effect equals one whole-batch
/// merge.
pub fn process_create_message_events(
    store: &mut MessageStore,
    stats: &mut UserStatStore,
    chunk_size: usize,
    create_events: Vec<Message>,
)
    requires
        chunk_size >= 1,
        old(store).wf(),
        old(stats).wf(),
        create_events@.len() <= i64::MAX,
        can_merge_create(old(stats)@, reduce_create_map(create_events@)),
    ensures
        final(store).wf(),
        final(stats).wf(),
        final(store)@ == apply_create_all(old(store)@, create_events@),
        final(stats)@ == merge_create_stats(old(stats)@, reduce_create_map(create_events@)),
{
    let ghost orig = create_events@;
    let mut rest = create_events;
    let ghost mut done: int = 0;
    while rest.len() > 0
        invariant
            0 <= done <= orig.len(),
            orig.len() <= i64::MAX,
            chunk_size >= 1,
            rest@ == orig.skip(done),
            store.wf(),
            stats.wf(),
            store@ == apply_create_all(old(store)@, orig.take(done)),
            stats@ == merge_create_stats(old(stats)@, reduce_create_map(orig.take(done))),
            can_merge_create(old(stats)@, reduce_create_map(orig)),
        decreases rest@.len(),
    {
        let len_now: usize = rest.len();
        let take_n: usize = if len_now > chunk_size {
            chunk_size
        } else {
            len_now
        };
        let tail = rest.split_off(take_n);
        let chunk = rest;
        rest = tail;
        let ghost chunk_seq = chunk@;
        let ghost mid = done + take_n as int;
        proof {
            assert(chunk_seq =~= orig.subrange(done, mid));
            assert(rest@ =~= orig.skip(mid));
            assert(orig.take(done) + chunk_seq =~= orig.take(mid));
            assert(orig.take(done) + chunk_seq + orig.skip(mid) =~= orig);
            lemma_chunk_create_fits(old(stats)@, orig.take(done), chunk_seq, orig.skip(mid));
        }
        let deltas = reduce_create_events(&chunk);
        store.apply_create(chunk);
        proof {
            lemma_apply_create_append(old(store)@, orig.take(done), chunk_seq);
        }
        stats.merge_create_deltas(&deltas);
        proof {
            lemma_aggregate_additivity_create(old(stats)@, orig.take(done), chunk_seq);
            done = mid;
        }
    }
    proof {
        assert(orig.take(done) =~= orig);
    }
}

/// Persists one batch's update events: conflicting updates of one row are
/// first reduced to the newest one, the survivors are cut into chunks,
/// each chunk is merged under the strictly-greater ordering rule, and
/// each chunk's own aggregate delta is merged into the statistics.
pub fn process_update_message_events(
    store: &mut MessageStore,
    stats: &mut UserStatStore,
    chunk_size: usize,
    update_events: Vec<Message>,
)
    requires
        chunk_size >= 1,
        old(store).wf(),
        old(stats).wf(),
        update_events@.len() <= i64::MAX,
        can_merge_update(old(stats)@, reduce_update_map(dedup_updates(update_events@))),
    ensures
        final(store).wf(),
        final(stats).wf(),
        final(store)@ == apply_update_all(old(store)@, dedup_updates(update_events@)),
        final(stats)@ == merge_update_stats(
            old(stats)@,
            reduce_update_map(dedup_updates(update_events@)),
        ),
{
    proof {
        crate::reduce::lemma_dedup_len(update_events@);
    }
    let filtered = dedup_update_events(update_events);
    let ghost orig = filtered@;
    let mut rest = filtered;
    let ghost mut done: int = 0;
    while rest.len() > 0
        invariant
            0 <= done <= orig.len(),
            orig.len() <= i64::MAX,
            chunk_size >= 1,
            rest@ == orig.skip(done),
            store.wf(),
            stats.wf(),
            store@ == apply_update_all(old(store)@, orig.take(done)),
            stats@ == merge_update_stats(old(stats)@, reduce_update_map(orig.take(done))),
            can_merge_update(old(stats)@, reduce_update_map(orig)),
        decreases rest@.len(),
    {
        let len_now: usize = rest.len();
        let take_n: usize = if len_now > chunk_size {
            chunk_size
        } else {
            len_now
        };
        let tail = rest.split_off(take_n);
        let chunk = rest;
        rest = tail;
        let ghost chunk_seq = chunk@;
        let ghost mid = done + take_n as int;
        proof {
            assert(chunk_seq =~= orig.subrange(done, mid));
            assert(rest@ =~= orig.skip(mid));
            assert(orig.take(done) + chunk_seq =~= orig.take(mid));
            assert(orig.take(done) + chunk_seq + orig.skip(mid) =~= orig);
            lemma_chunk_update_fits(old(stats)@, orig.take(done), chunk_seq, orig.skip(mid));
        }
        let deltas = reduce_update_events(&chunk);
        store.apply_update(chunk);
        proof {
            lemma_apply_update_append(old(store)@, orig.take(done), chunk_seq);
        }
        stats.merge_update_deltas(&deltas);
        proof {
            lemma_aggregate_additivity_update(old(stats)@, orig.take(done), chunk_seq);
            done = mid;
        }
    }
    proof {
        assert(orig.take(done) =~= orig);
    }
}

/// Persists one batch's module upgrade rows in chunks; an upgrade row,
/// once stored, is never replaced.
pub fn process_upgrade_module_changes(
    store: &mut ModuleUpgradeStore,
    chunk_size: usize,
    upgrade_changes: Vec<ModuleUpgrade>,
)
    requires
        chunk_size >= 1,
        old(store).wf(),
    ensures
        final(store).wf(),
        final(store)@ == apply_modules_all(old(store)@, upgrade_changes@),
{
    let ghost orig = upgrade_changes@;
    let mut rest = upgrade_changes;
    let ghost mut done: int = 0;
    while rest.len() > 0
        invariant
            0 <= done <= orig.len(),
            chunk_size >= 1,
            rest@ == orig.skip(done),
            store.wf(),
            store@ == apply_modules_all(old(store)@, orig.take(done)),
        decreases rest@.len(),
    {
        let len_now: usize = rest.len();
        let take_n: usize = if len_now > chunk_size {
            chunk_size
        } else {
            len_now
        };
        let tail = rest.split_off(take_n);
        let chunk = rest;
        rest = tail;
        let ghost chunk_seq = chunk@;
        let ghost mid = done + take_n as int;
        proof {
            assert(chunk_seq =~= orig.subrange(done, mid));
            assert(rest@ =~= orig.skip(mid));
            assert(orig.take(done) + chunk_seq =~= orig.take(mid));
        }
        store.apply_module_upgrades(chunk);
        proof {
            lemma_apply_modules_append(old(store)@, orig.take(done), chunk_seq);
            done = mid;
        }
    }
    proof {
        assert(orig.take(done) =~= orig);
    }
}

/// Persists one batch's package upgrade rows in chunks; an upgrade row,
/// once stored, is never replaced.
pub fn process_upgrade_package_changes(
    store: &mut PackageUpgradeStore,
    chunk_size: usize,
    upgrade_changes: Vec<PackageUpgrade>,
)
    requires
        chunk_size >= 1,
        old(store).wf(),
    ensures
        final(store).wf(),
        final(store)@ == apply_packages_all(old(store)@, upgrade_changes@),
{
    let ghost orig = upgrade_changes@;
    let mut rest = upgrade_changes;
    let ghost mut done: int = 0;
    while rest.len() > 0
        invariant
            0 <= done <= orig.len(),
            chunk_size >= 1,
            rest@ == orig.skip(done),
            store.wf(),
            store@ == apply_packages_all(old(store)@, orig.take(done)),
        decreases rest@.len(),
    {
        let len_now: usize = rest.len();
        let take_n: usize = if len_now > chunk_size {
            chunk_size
        } else {
            len_now
        };
        let tail = rest.split_off(take_n);
        let chunk = rest;
        rest = tail;
        let ghost chunk_seq = chunk@;
        let ghost mid = done + take_n as int;
        proof {
            assert(chunk_seq =~= orig.subrange(done, mid));
            assert(rest@ =~= orig.skip(mid));
            assert(orig.take(done) + chunk_seq =~= orig.take(mid));
        }
        store.apply_package_upgrades(chunk);
        proof {
            lemma_apply_packages_append(old(store)@, orig.take(done), chunk_seq);
            done = mid;
        }
    }
    proof {
        assert(orig.take(done) =~= orig);
    }
}

} // verus!
