//! Models of the relational tables and of the merge statements the
//! chunked upsert executor issues against them.
//!
//! A record table maps each subject address to its row.  The creation
//! path inserts and does nothing on conflict (the first writer wins); the
//! update path replaces a row only when the incoming
//! (last-update timestamp, last-update event index) pair is strictly
//! greater, and the replacement keeps the stored creator address and
//! creation timestamp — a row's origin columns are immutable.  The
//! aggregate table merges additively: counters and points always grow by
//! `existing + incoming`, the timestamp columns take the minimum
//! (earliest creation) and maximum (latest update).

use vstd::map::*;
use vstd::prelude::*;
use vstd::string::*;

use crate::keyed::keyed_map;
use crate::keyed::KeyedVec;
use crate::keyed::StrKeyed;
use crate::message::Message;
use crate::reduce::create_deltas_view;
use crate::reduce::max_int;
use crate::reduce::min_int;
use crate::reduce::pair_newer;
use crate::reduce::update_deltas_view;
use crate::reduce::CreateDelta;
use crate::reduce::CreateDeltaV;
use crate::reduce::UpdateDelta;
use crate::reduce::UpdateDeltaV;
use crate::user_stat::UserStat;
use crate::user_stat::UserStatV;
use crate::user_stat::POINT_PER_NEW_MESSAGE;
use crate::user_stat::POINT_PER_UPDATE_MESSAGE;

verus! {

/// One creation row merged into the record table: insert, and on a
/// subject-key conflict do nothing — the stored row's origin fields are
/// immutable.
pub open spec fn apply_create_one(db: Map<Seq<char>, Message>, m: Message) -> Map<
    Seq<char>,
    Message,
> {
    if db.contains_key(m.message_obj_addr@) {
        db
    } else {
        db.insert(m.message_obj_addr@, m)
    }
}

/// A batch of creation rows merged into the record table, in order.
pub open spec fn apply_create_all(db: Map<Seq<char>, Message>, s: Seq<Message>) -> Map<
    Seq<char>,
    Message,
>
    decreases s.len(),
{
    if s.len() == 0 {
        db
    } else {
        apply_create_one(apply_create_all(db, s.drop_last()), s.last())
    }
}

/// A stored row replaced by a newer update: content and the last-update
/// pair come from the incoming row, while the origin columns — creator
/// address and creation timestamp — keep the stored row's values.
pub open spec fn merged_update_row(stored: Message, m: Message) -> Message {
    Message {
        message_obj_addr: stored.message_obj_addr,
        creator_addr: stored.creator_addr,
        creation_timestamp: stored.creation_timestamp,
        last_update_timestamp: m.last_update_timestamp,
        last_update_event_idx: m.last_update_event_idx,
        content: m.content,
    }
}

/// One update row merged into the record table: a missing subject is
/// inserted verbatim; a stored row is replaced only when the incoming
/// pair is strictly greater — a stale update never overwrites a newer
/// row — and the replacement keeps the stored origin columns.
pub open spec fn apply_update_one(db: Map<Seq<char>, Message>, m: Message) -> Map<
    Seq<char>,
    Message,
> {
    let k = m.message_obj_addr@;
    if !db.contains_key(k) {
        db.insert(k, m)
    } else if pair_newer(m, db[k]) {
        db.insert(k, merged_update_row(db[k], m))
    } else {
        db
    }
}

/// A batch of update rows merged into the record table, in order.
pub open spec fn apply_update_all(db: Map<Seq<char>, Message>, s: Seq<Message>) -> Map<
    Seq<char>,
    Message,
>
    decreases s.len(),
{
    if s.len() == 0 {
        db
    } else {
        apply_update_one(apply_update_all(db, s.drop_last()), s.last())
    }
}

/// Merging a concatenation equals merging the parts in turn, creation
/// path.
pub proof fn lemma_apply_create_append(
    db: Map<Seq<char>, Message>,
    a: Seq<Message>,
    b: Seq<Message>,
)
    ensures
        apply_create_all(db, a + b) == apply_create_all(apply_create_all(db, a), b),
    decreases b.len(),
{
    if b.len() == 0 {
        assert(a + b =~= a);
    } else {
        lemma_apply_create_append(db, a, b.drop_last());
        assert((a + b).drop_last() =~= a + b.drop_last());
        assert((a + b).last() == b.last());
    }
}

/// Merging a concatenation equals merging the parts in turn, update path.
pub proof fn lemma_apply_update_append(
    db: Map<Seq<char>, Message>,
    a: Seq<Message>,
    b: Seq<Message>,
)
    ensures
        apply_update_all(db, a + b) == apply_update_all(apply_update_all(db, a), b),
    decreases b.len(),
{
    if b.len() == 0 {
        assert(a + b =~= a);
    } else {
        lemma_apply_update_append(db, a, b.drop_last());
        assert((a + b).drop_last() =~= a + b.drop_last());
        assert((a + b).last() == b.last());
    }
}

/// The record table, keyed by subject address.
pub struct MessageStore {
    rows: KeyedVec<Message>,
}

impl View for MessageStore {
    type V = Map<Seq<char>, Message>;

    closed spec fn view(&self) -> Map<Seq<char>, Message> {
        self.rows@
    }
}

impl MessageStore {
    /// The store is well formed: one row per subject.
    pub closed spec fn wf(&self) -> bool {
        self.rows.wf()
    }

    /// An empty record table.
    pub fn new() -> (r: Self)
        ensures
            r.wf(),
            r@ =~= Map::<Seq<char>, Message>::empty(),
    {
        MessageStore { rows: KeyedVec::new() }
    }

    /// The row stored for a subject, if any.
    pub fn get(&self, subject: &str) -> (r: Option<&Message>)
        requires
            self.wf(),
        ensures
            match r {
                Some(m) => self@.contains_key(subject@) && *m == self@[subject@],
                None => !self@.contains_key(subject@),
            },
    {
        self.rows.get(subject)
    }

    /// Merges a batch of creation rows: new subjects are inserted, and a
    /// subject that already has a row keeps it unchanged.
    pub fn apply_create(&mut self, batch: Vec<Message>)
        requires
            old(self).wf(),
        ensures
            final(self).wf(),
            final(self)@ == apply_create_all(old(self)@, batch@),
    {
        let ghost orig = batch@;
        let mut rest = batch;
        let ghost mut processed: int = 0;
        while rest.len() > 0
            invariant
                0 <= processed <= orig.len(),
                rest@ == orig.skip(processed),
                self.wf(),
                self@ == apply_create_all(old(self)@, orig.take(processed)),
            decreases rest@.len(),
        {
            proof {
                assert(orig.skip(processed)[0] == orig[processed]);
                assert(orig.skip(processed).remove(0) =~= orig.skip(processed + 1));
                assert(orig.take(processed + 1).drop_last() =~= orig.take(processed));
                assert(orig.take(processed + 1).last() == orig[processed]);
            }
            let m = rest.remove(0);
            self.rows.insert_if_absent(m);
            proof {
                processed = processed + 1;
            }
        }
        proof {
            assert(orig.take(processed) =~= orig);
        }
    }

    /// Merges a batch of update rows: a missing subject is inserted, a
    /// stored row is replaced only by a strictly newer one, and the
    /// replacement keeps the stored creator address and creation
    /// timestamp.
    pub fn apply_update(&mut self, batch: Vec<Message>)
        requires
            old(self).wf(),
        ensures
            final(self).wf(),
            final(self)@ == apply_update_all(old(self)@, batch@),
    {
        let ghost orig = batch@;
        let mut rest = batch;
        let ghost mut processed: int = 0;
        while rest.len() > 0
            invariant
                0 <= processed <= orig.len(),
                rest@ == orig.skip(processed),
                self.wf(),
                self@ == apply_update_all(old(self)@, orig.take(processed)),
            decreases rest@.len(),
        {
            proof {
                assert(orig.skip(processed)[0] == orig[processed]);
                assert(orig.skip(processed).remove(0) =~= orig.skip(processed + 1));
                assert(orig.take(processed + 1).drop_last() =~= orig.take(processed));
                assert(orig.take(processed + 1).last() == orig[processed]);
            }
            proof {
                self.rows.lemma_stored_keys();
            }
            let m = rest.remove(0);
            let merged: Option<Message> = match self.rows.get(m.message_obj_addr.as_str()) {
                None => Some(m),
                Some(existing) => {
                    let newer: bool = m.last_update_timestamp > existing.last_update_timestamp
                        || (m.last_update_timestamp == existing.last_update_timestamp
                        && m.last_update_event_idx > existing.last_update_event_idx);
                    if newer {
                        Some(
                            Message {
                                message_obj_addr: existing.message_obj_addr.clone(),
                                creator_addr: existing.creator_addr.clone(),
                                creation_timestamp: existing.creation_timestamp,
                                last_update_timestamp: m.last_update_timestamp,
                                last_update_event_idx: m.last_update_event_idx,
                                content: m.content,
                            },
                        )
                    } else {
                        None
                    }
                },
            };
            match merged {
                Some(row) => self.rows.upsert(row),
                None => (),
            }
            proof {
                processed = processed + 1;
            }
        }
        proof {
            assert(orig.take(processed) =~= orig);
        }
    }
}

/// An aggregate row merged with a creation delta: the creation counter
/// and points grow additively, the update-side fields stay untouched, and
/// the timestamps take minimum and maximum.
pub open spec fn merged_create_stat(s: UserStatV, d: CreateDeltaV) -> UserStatV {
    UserStatV {
        user_addr: s.user_addr,
        creation_timestamp: min_int(s.creation_timestamp, d.earliest_creation),
        last_update_timestamp: max_int(s.last_update_timestamp, d.latest_creation),
        created_messages: s.created_messages + d.count,
        updated_messages: s.updated_messages,
        creation_points: s.creation_points + d.count * POINT_PER_NEW_MESSAGE,
        update_points: s.update_points,
        total_points: s.total_points + d.count * POINT_PER_NEW_MESSAGE,
    }
}

/// The aggregate row a creation delta opens for a user seen for the first
/// time.
pub open spec fn fresh_create_stat(d: CreateDeltaV) -> UserStatV {
    UserStatV {
        user_addr: d.user_addr,
        creation_timestamp: d.earliest_creation,
        last_update_timestamp: d.latest_creation,
        created_messages: d.count,
        updated_messages: 0,
        creation_points: d.count * POINT_PER_NEW_MESSAGE,
        update_points: 0,
        total_points: d.count * POINT_PER_NEW_MESSAGE,
    }
}

/// The aggregate table after merging a map of creation deltas.
pub open spec fn merge_create_stats(
    stats: Map<Seq<char>, UserStatV>,
    ds: Map<Seq<char>, CreateDeltaV>,
) -> Map<Seq<char>, UserStatV> {
    Map::new(
        |k: Seq<char>| stats.contains_key(k) || ds.contains_key(k),
        |k: Seq<char>|
            if ds.contains_key(k) {
                if stats.contains_key(k) {
                    merged_create_stat(stats[k], ds[k])
                } else {
                    fresh_create_stat(ds[k])
                }
            } else {
                stats[k]
            },
    )
}

/// An aggregate row merged with an update delta: the update counter and
/// points grow additively, the creation-side fields stay untouched, and
/// the latest-update timestamp takes the maximum.
pub open spec fn merged_update_stat(s: UserStatV, d: UpdateDeltaV) -> UserStatV {
    UserStatV {
        user_addr: s.user_addr,
        creation_timestamp: s.creation_timestamp,
        last_update_timestamp: max_int(s.last_update_timestamp, d.latest_update),
        created_messages: s.created_messages,
        updated_messages: s.updated_messages + d.count,
        creation_points: s.creation_points,
        update_points: s.update_points + d.count * POINT_PER_UPDATE_MESSAGE,
        total_points: s.total_points + d.count * POINT_PER_UPDATE_MESSAGE,
    }
}

/// The aggregate row an update delta opens for a user seen for the first
/// time; the creation-side fields start at zero.
pub open spec fn fresh_update_stat(d: UpdateDeltaV) -> UserStatV {
    UserStatV {
        user_addr: d.user_addr,
        creation_timestamp: 0,
        last_update_timestamp: d.latest_update,
        created_messages: 0,
        updated_messages: d.count,
        creation_points: 0,
        update_points: d.count * POINT_PER_UPDATE_MESSAGE,
        total_points: d.count * POINT_PER_UPDATE_MESSAGE,
    }
}

/// The aggregate table after merging a map of update deltas.
pub open spec fn merge_update_stats(
    stats: Map<Seq<char>, UserStatV>,
    ds: Map<Seq<char>, UpdateDeltaV>,
) -> Map<Seq<char>, UserStatV> {
    Map::new(
        |k: Seq<char>| stats.contains_key(k) || ds.contains_key(k),
        |k: Seq<char>|
            if ds.contains_key(k) {
                if stats.contains_key(k) {
                    merged_update_stat(stats[k], ds[k])
                } else {
                    fresh_update_stat(ds[k])
                }
            } else {
                stats[k]
            },
    )
}

/// The column values stay within `i64` when the creation deltas are
/// merged: the machine bound the executable merge needs.
pub open spec fn can_merge_create(
    stats: Map<Seq<char>, UserStatV>,
    ds: Map<Seq<char>, CreateDeltaV>,
) -> bool {
    forall|k: Seq<char>| #[trigger] ds.contains_key(k) ==> {
        &&& 0 <= ds[k].count
        &&& ds[k].count * POINT_PER_NEW_MESSAGE <= i64::MAX
        &&& stats.contains_key(k) ==> {
            &&& stats[k].created_messages + ds[k].count <= i64::MAX
            &&& stats[k].creation_points + ds[k].count * POINT_PER_NEW_MESSAGE <= i64::MAX
            &&& stats[k].total_points + ds[k].count * POINT_PER_NEW_MESSAGE <= i64::MAX
        }
    }
}

/// The column values stay within `i64` when the update deltas are merged.
pub open spec fn can_merge_update(
    stats: Map<Seq<char>, UserStatV>,
    ds: Map<Seq<char>, UpdateDeltaV>,
) -> bool {
    forall|k: Seq<char>| #[trigger] ds.contains_key(k) ==> {
        &&& 0 <= ds[k].count
        &&& ds[k].count * POINT_PER_UPDATE_MESSAGE <= i64::MAX
        &&& stats.contains_key(k) ==> {
            &&& stats[k].updated_messages + ds[k].count <= i64::MAX
            &&& stats[k].update_points + ds[k].count * POINT_PER_UPDATE_MESSAGE <= i64::MAX
            &&& stats[k].total_points + ds[k].count * POINT_PER_UPDATE_MESSAGE <= i64::MAX
        }
    }
}

/// The aggregate table, keyed by user address.
pub struct UserStatStore {
    rows: KeyedVec<UserStat>,
}

impl View for UserStatStore {
    type V = Map<Seq<char>, UserStatV>;

    closed spec fn view(&self) -> Map<Seq<char>, UserStatV> {
        Map::new(
            |k: Seq<char>| keyed_map(self.rows.srows()).contains_key(k),
            |k: Seq<char>| keyed_map(self.rows.srows())[k]@,
        )
    }
}

impl UserStatStore {
    /// The store is well formed: one row per user.
    pub closed spec fn wf(&self) -> bool {
        self.rows.wf()
    }

    /// An empty aggregate table.
    pub fn new() -> (r: Self)
        ensures
            r.wf(),
            r@ =~= Map::<Seq<char>, UserStatV>::empty(),
    {
        let r = UserStatStore { rows: KeyedVec::new() };
        proof {
            r.rows.lemma_view_is_keyed_map();
        }
        r
    }

    /// The aggregate row stored for a user, if any.
    pub fn get(&self, user: &str) -> (r: Option<&UserStat>)
        requires
            self.wf(),
        ensures
            match r {
                Some(s) => self@.contains_key(user@) && s@ == self@[user@],
                None => !self@.contains_key(user@),
            },
    {
        proof {
            self.rows.lemma_view_is_keyed_map();
        }
        self.rows.get(user)
    }

    /// Merges one batch's creation deltas into the aggregate table,
    /// additively and exactly once per delta.
    pub fn merge_create_deltas(&mut self, deltas: &KeyedVec<CreateDelta>)
        requires
            old(self).wf(),
            deltas.wf(),
            can_merge_create(old(self)@, create_deltas_view(deltas@)),
        ensures
            final(self).wf(),
            final(self)@ == merge_create_stats(old(self)@, create_deltas_view(deltas@)),
    {
        proof {
            deltas.lemma_view_is_keyed_map();
        }
        let dvec: &Vec<CreateDelta> = deltas.borrow_rows();
        let n: usize = dvec.len();
        let mut i: usize = 0;
        proof {
            assert(create_deltas_view(keyed_map(dvec@.take(0))) =~= Map::<
                Seq<char>,
                CreateDeltaV,
            >::empty());
            assert(self@ =~= merge_create_stats(
                old(self)@,
                create_deltas_view(keyed_map(dvec@.take(0))),
            ));
        }
        while i < n
            invariant
                i <= n,
                n == dvec@.len(),
                dvec@ == deltas.srows(),
                deltas.wf(),
                deltas@ == keyed_map(deltas.srows()),
                can_merge_create(old(self)@, create_deltas_view(deltas@)),
                self.wf(),
                self@ == merge_create_stats(
                    old(self)@,
                    create_deltas_view(keyed_map(dvec@.take(i as int))),
                ),
            decreases n - i,
        {
            proof {
                assert(dvec@.take(i + 1).drop_last() =~= dvec@.take(i as int));
                assert(dvec@.take(i + 1).last() == dvec@[i as int]);
                crate::keyed::lemma_keyed_map_domain(dvec@.take(i as int), dvec@[i as int].skey());
                crate::keyed::lemma_keyed_map_get(dvec@, i as int);
                self.rows.lemma_view_is_keyed_map();
                self.rows.lemma_stored_keys();
            }
            let d: &CreateDelta = &dvec[i];
            let ghost k = d.user_addr@;
            assert(create_deltas_view(deltas@).contains_key(k));
            assert(create_deltas_view(deltas@)[k] == d@);
            assert(!keyed_map(dvec@.take(i as int)).contains_key(k));
            assert(!create_deltas_view(keyed_map(dvec@.take(i as int))).contains_key(k));
            assert(self@.contains_key(k) == old(self)@.contains_key(k));
            assert(old(self)@.contains_key(k) ==> self@[k] == old(self)@[k]);
            let new_stat: UserStat = match self.rows.get(d.user_addr.as_str()) {
                Some(existing) => {
                    assert(existing@ == old(self)@[k]);
                    UserStat {
                        user_addr: existing.user_addr.clone(),
                        creation_timestamp: if existing.creation_timestamp
                            <= d.earliest_creation {
                            existing.creation_timestamp
                        } else {
                            d.earliest_creation
                        },
                        last_update_timestamp: if existing.last_update_timestamp
                            >= d.latest_creation {
                            existing.last_update_timestamp
                        } else {
                            d.latest_creation
                        },
                        created_messages: existing.created_messages + d.count,
                        updated_messages: existing.updated_messages,
                        creation_points: existing.creation_points + d.count
                            * POINT_PER_NEW_MESSAGE,
                        update_points: existing.update_points,
                        total_points: existing.total_points + d.count * POINT_PER_NEW_MESSAGE,
                    }
                },
                None => UserStat {
                    user_addr: d.user_addr.clone(),
                    creation_timestamp: d.earliest_creation,
                    last_update_timestamp: d.latest_creation,
                    created_messages: d.count,
                    updated_messages: 0,
                    creation_points: d.count * POINT_PER_NEW_MESSAGE,
                    update_points: 0,
                    total_points: d.count * POINT_PER_NEW_MESSAGE,
                },
            };
            proof {
                assert(new_stat.skey() == k);
            }
            let ghost pre_view = self@;
            let ghost pre_rows = self.rows@;
            self.rows.upsert(new_stat);
            proof {
                self.rows.lemma_view_is_keyed_map();
                assert(self.rows@ =~= pre_rows.insert(k, new_stat));
                assert(keyed_map(dvec@.take(i + 1)) =~= keyed_map(dvec@.take(i as int)).insert(
                    k,
                    dvec@[i as int],
                ));
                let post = merge_create_stats(
                    old(self)@,
                    create_deltas_view(keyed_map(dvec@.take(i + 1))),
                );
                assert(create_deltas_view(keyed_map(dvec@.take(i + 1)))[k] == dvec@[i as int]@);
                assert(self@.contains_key(k));
                assert(self@[k] == new_stat@);
                assert(post.contains_key(k));
                assert(post[k] == new_stat@);
                assert_maps_equal!(self@, post, x => {
                    if x == k {
                        assert(self@.contains_key(x) && post.contains_key(x));
                        assert(self@[x] == new_stat@ && post[x] == new_stat@);
                    } else {
                        assert(create_deltas_view(keyed_map(dvec@.take(i + 1))).contains_key(x)
                            == create_deltas_view(
                            keyed_map(dvec@.take(i as int)),
                        ).contains_key(x));
                        assert(self@.contains_key(x) == self.rows@.contains_key(x));
                        assert(self.rows@.contains_key(x) == pre_rows.contains_key(x));
                        assert(pre_rows.contains_key(x) == pre_view.contains_key(x));
                        assert(pre_view.contains_key(x) == post.contains_key(x));
                        if post.contains_key(x) {
                            assert(self@[x] == self.rows@[x]@);
                            assert(self.rows@[x] == pre_rows[x]);
                            assert(pre_view[x] == pre_rows[x]@);
                            assert(pre_view[x] == post[x]);
                        }
                    }
                });
            }
            i = i + 1;
        }
        proof {
            assert(dvec@.take(n as int) =~= dvec@);
        }
    }

    /// Merges one batch's update deltas into the aggregate table,
    /// additively and exactly once per delta.
    pub fn merge_update_deltas(&mut self, deltas: &KeyedVec<UpdateDelta>)
        requires
            old(self).wf(),
            deltas.wf(),
            can_merge_update(old(self)@, update_deltas_view(deltas@)),
        ensures
            final(self).wf(),
            final(self)@ == merge_update_stats(old(self)@, update_deltas_view(deltas@)),
    {
        proof {
            deltas.lemma_view_is_keyed_map();
        }
        let dvec: &Vec<UpdateDelta> = deltas.borrow_rows();
        let n: usize = dvec.len();
        let mut i: usize = 0;
        proof {
            assert(update_deltas_view(keyed_map(dvec@.take(0))) =~= Map::<
                Seq<char>,
                UpdateDeltaV,
            >::empty());
            assert(self@ =~= merge_update_stats(
                old(self)@,
                update_deltas_view(keyed_map(dvec@.take(0))),
            ));
        }
        while i < n
            invariant
                i <= n,
                n == dvec@.len(),
                dvec@ == deltas.srows(),
                deltas.wf(),
                deltas@ == keyed_map(deltas.srows()),
                can_merge_update(old(self)@, update_deltas_view(deltas@)),
                self.wf(),
                self@ == merge_update_stats(
                    old(self)@,
                    update_deltas_view(keyed_map(dvec@.take(i as int))),
                ),
            decreases n - i,
        {
            proof {
                assert(dvec@.take(i + 1).drop_last() =~= dvec@.take(i as int));
                assert(dvec@.take(i + 1).last() == dvec@[i as int]);
                crate::keyed::lemma_keyed_map_domain(dvec@.take(i as int), dvec@[i as int].skey());
                crate::keyed::lemma_keyed_map_get(dvec@, i as int);
                self.rows.lemma_view_is_keyed_map();
                self.rows.lemma_stored_keys();
            }
            let d: &UpdateDelta = &dvec[i];
            let ghost k = d.user_addr@;
            assert(update_deltas_view(deltas@).contains_key(k));
            assert(update_deltas_view(deltas@)[k] == d@);
            assert(!keyed_map(dvec@.take(i as int)).contains_key(k));
            assert(!update_deltas_view(keyed_map(dvec@.take(i as int))).contains_key(k));
            assert(self@.contains_key(k) == old(self)@.contains_key(k));
            assert(old(self)@.contains_key(k) ==> self@[k] == old(self)@[k]);
            let new_stat: UserStat = match self.rows.get(d.user_addr.as_str()) {
                Some(existing) => {
                    assert(existing@ == old(self)@[k]);
                    UserStat {
                        user_addr: existing.user_addr.clone(),
                        creation_timestamp: existing.creation_timestamp,
                        last_update_timestamp: if existing.last_update_timestamp
                            >= d.latest_update {
                            existing.last_update_timestamp
                        } else {
                            d.latest_update
                        },
                        created_messages: existing.created_messages,
                        updated_messages: existing.updated_messages + d.count,
                        creation_points: existing.creation_points,
                        update_points: existing.update_points + d.count
                            * POINT_PER_UPDATE_MESSAGE,
                        total_points: existing.total_points + d.count * POINT_PER_UPDATE_MESSAGE,
                    }
                },
                None => UserStat {
                    user_addr: d.user_addr.clone(),
                    creation_timestamp: 0,
                    last_update_timestamp: d.latest_update,
                    created_messages: 0,
                    updated_messages: d.count,
                    creation_points: 0,
                    update_points: d.count * POINT_PER_UPDATE_MESSAGE,
                    total_points: d.count * POINT_PER_UPDATE_MESSAGE,
                },
            };
            proof {
                assert(new_stat.skey() == k);
            }
            let ghost pre_view = self@;
            let ghost pre_rows = self.rows@;
            self.rows.upsert(new_stat);
            proof {
                self.rows.lemma_view_is_keyed_map();
                assert(self.rows@ =~= pre_rows.insert(k, new_stat));
                assert(keyed_map(dvec@.take(i + 1)) =~= keyed_map(dvec@.take(i as int)).insert(
                    k,
                    dvec@[i as int],
                ));
                let post = merge_update_stats(
                    old(self)@,
                    update_deltas_view(keyed_map(dvec@.take(i + 1))),
                );
                assert(update_deltas_view(keyed_map(dvec@.take(i + 1)))[k] == dvec@[i as int]@);
                assert_maps_equal!(self@, post, x => {
                    if x == k {
                        assert(self@.contains_key(x) && post.contains_key(x));
                        assert(self@[x] == new_stat@ && post[x] == new_stat@);
                    } else {
                        assert(update_deltas_view(keyed_map(dvec@.take(i + 1))).contains_key(x)
                            == update_deltas_view(
                            keyed_map(dvec@.take(i as int)),
                        ).contains_key(x));
                        assert(self@.contains_key(x) == self.rows@.contains_key(x));
                        assert(self.rows@.contains_key(x) == pre_rows.contains_key(x));
                        assert(pre_rows.contains_key(x) == pre_view.contains_key(x));
                        assert(pre_view.contains_key(x) == post.contains_key(x));
                        if post.contains_key(x) {
                            assert(self@[x] == self.rows@[x]@);
                            assert(self.rows@[x] == pre_rows[x]);
                            assert(pre_view[x] == pre_rows[x]@);
                            assert(pre_view[x] == post[x]);
                        }
                    }
                });
                assert(self@ =~= merge_update_stats(
                    old(self)@,
                    update_deltas_view(keyed_map(dvec@.take(i + 1))),
                ));
            }
            i = i + 1;
        }
        proof {
            assert(dvec@.take(n as int) =~= dvec@);
        }
    }
}

} // verus!
