//! The aggregate reducer: turns a batch of typed events into per-user
//! aggregate deltas, and deduplicates conflicting updates of one row.
//!
//! Reduction is pure.  The creation pass groups creation rows by creator;
//! the update pass first keeps, per subject row, only the newest update
//! (by the same (timestamp, event index) order that persistence uses,
//! since one merge statement cannot apply two values to one row), then
//! groups what is left by creator.

use vstd::prelude::*;
use vstd::string::*;

use crate::keyed::key_index;
use crate::keyed::key_index_from;
use crate::keyed::lemma_key_index_from;
use crate::keyed::KeyedVec;
use crate::keyed::StrKeyed;
use crate::message::Message;

verus! {

/// The smaller of two numbers.
pub open spec fn min_int(a: int, b: int) -> int {
    if a <= b {
        a
    } else {
        b
    }
}

/// The larger of two numbers.
pub open spec fn max_int(a: int, b: int) -> int {
    if a >= b {
        a
    } else {
        b
    }
}

/// What one user's creation events contribute: how many rows they
/// created, and the earliest and latest creation timestamps among them.
#[derive(Clone, Debug, PartialEq)]
pub struct CreateDelta {
    pub user_addr: String,
    pub count: i64,
    pub earliest_creation: i64,
    pub latest_creation: i64,
}

impl StrKeyed for CreateDelta {
    open spec fn skey(&self) -> Seq<char> {
        self.user_addr@
    }

    fn key_text(&self) -> (r: &str) {
        self.user_addr.as_str()
    }
}

/// The mathematical value of a creation delta.
pub struct CreateDeltaV {
    pub user_addr: String,
    pub count: int,
    pub earliest_creation: int,
    pub latest_creation: int,
}

impl View for CreateDelta {
    type V = CreateDeltaV;

    open spec fn view(&self) -> CreateDeltaV {
        CreateDeltaV {
            user_addr: self.user_addr,
            count: self.count as int,
            earliest_creation: self.earliest_creation as int,
            latest_creation: self.latest_creation as int,
        }
    }
}

/// What one user's update events contribute: how many updates, and the
/// latest update timestamp among them.
#[derive(Clone, Debug, PartialEq)]
pub struct UpdateDelta {
    pub user_addr: String,
    pub count: i64,
    pub latest_update: i64,
}

impl StrKeyed for UpdateDelta {
    open spec fn skey(&self) -> Seq<char> {
        self.user_addr@
    }

    fn key_text(&self) -> (r: &str) {
        self.user_addr.as_str()
    }
}

/// The mathematical value of an update delta.
pub struct UpdateDeltaV {
    pub user_addr: String,
    pub count: int,
    pub latest_update: int,
}

impl View for UpdateDelta {
    type V = UpdateDeltaV;

    open spec fn view(&self) -> UpdateDeltaV {
        UpdateDeltaV {
            user_addr: self.user_addr,
            count: self.count as int,
            latest_update: self.latest_update as int,
        }
    }
}

/// The delta map as mathematical values.
pub open spec fn create_deltas_view(m: Map<Seq<char>, CreateDelta>) -> Map<Seq<char>, CreateDeltaV> {
    Map::new(|k: Seq<char>| m.contains_key(k), |k: Seq<char>| m[k]@)
}

/// The delta map as mathematical values.
pub open spec fn update_deltas_view(m: Map<Seq<char>, UpdateDelta>) -> Map<Seq<char>, UpdateDeltaV> {
    Map::new(|k: Seq<char>| m.contains_key(k), |k: Seq<char>| m[k]@)
}

/// Folds one creation row into the delta map: a first row opens the
/// creator's delta, a later one counts up and widens the timestamp range.
pub open spec fn create_delta_step(d: Map<Seq<char>, CreateDeltaV>, m: Message) -> Map<
    Seq<char>,
    CreateDeltaV,
> {
    let k = m.creator_addr@;
    if d.contains_key(k) {
        d.insert(
            k,
            CreateDeltaV {
                user_addr: d[k].user_addr,
                count: d[k].count + 1,
                earliest_creation: min_int(d[k].earliest_creation, m.creation_timestamp as int),
                latest_creation: max_int(d[k].latest_creation, m.creation_timestamp as int),
            },
        )
    } else {
        d.insert(
            k,
            CreateDeltaV {
                user_addr: m.creator_addr,
                count: 1,
                earliest_creation: m.creation_timestamp as int,
                latest_creation: m.creation_timestamp as int,
            },
        )
    }
}

/// The creation deltas of a batch, folded from a starting map.
pub open spec fn reduce_create_from(d: Map<Seq<char>, CreateDeltaV>, s: Seq<Message>) -> Map<
    Seq<char>,
    CreateDeltaV,
>
    decreases s.len(),
{
    if s.len() == 0 {
        d
    } else {
        create_delta_step(reduce_create_from(d, s.drop_last()), s.last())
    }
}

/// The creation deltas of a batch: per creator, the count of created rows
/// and the earliest and latest creation timestamps.
pub open spec fn reduce_create_map(s: Seq<Message>) -> Map<Seq<char>, CreateDeltaV> {
    reduce_create_from(Map::empty(), s)
}

/// Folds one update row into the delta map.
pub open spec fn update_delta_step(d: Map<Seq<char>, UpdateDeltaV>, m: Message) -> Map<
    Seq<char>,
    UpdateDeltaV,
> {
    let k = m.creator_addr@;
    if d.contains_key(k) {
        d.insert(
            k,
            UpdateDeltaV {
                user_addr: d[k].user_addr,
                count: d[k].count + 1,
                latest_update: max_int(d[k].latest_update, m.last_update_timestamp as int),
            },
        )
    } else {
        d.insert(
            k,
            UpdateDeltaV {
                user_addr: m.creator_addr,
                count: 1,
                latest_update: m.last_update_timestamp as int,
            },
        )
    }
}

/// The update deltas of a batch, folded from a starting map.
pub open spec fn reduce_update_from(d: Map<Seq<char>, UpdateDeltaV>, s: Seq<Message>) -> Map<
    Seq<char>,
    UpdateDeltaV,
>
    decreases s.len(),
{
    if s.len() == 0 {
        d
    } else {
        update_delta_step(reduce_update_from(d, s.drop_last()), s.last())
    }
}

/// The update deltas of a batch: per creator, the count of updates and the
/// latest update timestamp.
pub open spec fn reduce_update_map(s: Seq<Message>) -> Map<Seq<char>, UpdateDeltaV> {
    reduce_update_from(Map::empty(), s)
}

/// Every creation delta counts at least one and at most `s.len()` rows.
pub proof fn lemma_reduce_create_count_bounds(s: Seq<Message>)
    ensures
        forall|k: Seq<char>| #[trigger] reduce_create_map(s).contains_key(k) ==> 1
            <= reduce_create_map(s)[k].count <= s.len(),
    decreases s.len(),
{
    if s.len() > 0 {
        lemma_reduce_create_count_bounds(s.drop_last());
        assert forall|k: Seq<char>| #[trigger] reduce_create_map(s).contains_key(k) implies 1
            <= reduce_create_map(s)[k].count <= s.len() by {
            let prev = reduce_create_map(s.drop_last());
            if k == s.last().creator_addr@ {
                if prev.contains_key(k) {
                    assert(1 <= prev[k].count <= s.drop_last().len());
                }
            } else {
                assert(prev.contains_key(k));
            }
        }
    }
}

/// Every update delta counts at least one and at most `s.len()` rows.
pub proof fn lemma_reduce_update_count_bounds(s: Seq<Message>)
    ensures
        forall|k: Seq<char>| #[trigger] reduce_update_map(s).contains_key(k) ==> 1
            <= reduce_update_map(s)[k].count <= s.len(),
    decreases s.len(),
{
    if s.len() > 0 {
        lemma_reduce_update_count_bounds(s.drop_last());
        assert forall|k: Seq<char>| #[trigger] reduce_update_map(s).contains_key(k) implies 1
            <= reduce_update_map(s)[k].count <= s.len() by {
            let prev = reduce_update_map(s.drop_last());
            if k == s.last().creator_addr@ {
                if prev.contains_key(k) {
                    assert(1 <= prev[k].count <= s.drop_last().len());
                }
            } else {
                assert(prev.contains_key(k));
            }
        }
    }
}

/// The creation count a delta map carries for one user; zero when the
/// user has no delta.
pub open spec fn create_count_at(m: Map<Seq<char>, CreateDeltaV>, k: Seq<char>) -> int {
    if m.contains_key(k) {
        m[k].count
    } else {
        0
    }
}

/// The update count a delta map carries for one user; zero when the user
/// has no delta.
pub open spec fn update_count_at(m: Map<Seq<char>, UpdateDeltaV>, k: Seq<char>) -> int {
    if m.contains_key(k) {
        m[k].count
    } else {
        0
    }
}

/// Creation counts add up across concatenated batches, and a user has a
/// delta for the concatenation exactly when either part contributes one.
pub proof fn lemma_reduce_create_counts_add(a: Seq<Message>, b: Seq<Message>)
    ensures
        forall|k: Seq<char>| #[trigger] reduce_create_map(a + b).contains_key(k)
            == (reduce_create_map(a).contains_key(k) || reduce_create_map(b).contains_key(k)),
        forall|k: Seq<char>| #[trigger] create_count_at(reduce_create_map(a + b), k)
            == create_count_at(reduce_create_map(a), k) + create_count_at(
            reduce_create_map(b),
            k,
        ),
    decreases b.len(),
{
    if b.len() == 0 {
        assert(a + b =~= a);
        assert(reduce_create_map(b) =~= Map::<Seq<char>, CreateDeltaV>::empty());
    } else {
        lemma_reduce_create_counts_add(a, b.drop_last());
        assert((a + b).drop_last() =~= a + b.drop_last());
        assert((a + b).last() == b.last());
        assert forall|k: Seq<char>| #[trigger] reduce_create_map(a + b).contains_key(k) == (
        reduce_create_map(a).contains_key(k) || reduce_create_map(b).contains_key(k)) by {
            assert(reduce_create_map(a + b.drop_last()).contains_key(k) == (reduce_create_map(
                a,
            ).contains_key(k) || reduce_create_map(b.drop_last()).contains_key(k)));
        }
        assert forall|k: Seq<char>| #[trigger] create_count_at(reduce_create_map(a + b), k) == create_count_at(
            reduce_create_map(a),
            k,
        ) + create_count_at(reduce_create_map(b), k) by {
            assert(create_count_at(reduce_create_map(a + b.drop_last()), k) == create_count_at(reduce_create_map(a), k) + create_count_at(
                reduce_create_map(b.drop_last()),
                k,
            ));
            assert(reduce_create_map(a + b.drop_last()).contains_key(k) == (reduce_create_map(
                a,
            ).contains_key(k) || reduce_create_map(b.drop_last()).contains_key(k)));
        }
    }
}

/// Update counts add up across concatenated batches, and a user has a
/// delta for the concatenation exactly when either part contributes one.
pub proof fn lemma_reduce_update_counts_add(a: Seq<Message>, b: Seq<Message>)
    ensures
        forall|k: Seq<char>| #[trigger] reduce_update_map(a + b).contains_key(k)
            == (reduce_update_map(a).contains_key(k) || reduce_update_map(b).contains_key(k)),
        forall|k: Seq<char>| #[trigger] update_count_at(reduce_update_map(a + b), k)
            == update_count_at(reduce_update_map(a), k) + update_count_at(
            reduce_update_map(b),
            k,
        ),
    decreases b.len(),
{
    if b.len() == 0 {
        assert(a + b =~= a);
        assert(reduce_update_map(b) =~= Map::<Seq<char>, UpdateDeltaV>::empty());
    } else {
        lemma_reduce_update_counts_add(a, b.drop_last());
        assert((a + b).drop_last() =~= a + b.drop_last());
        assert((a + b).last() == b.last());
        assert forall|k: Seq<char>| #[trigger] reduce_update_map(a + b).contains_key(k) == (
        reduce_update_map(a).contains_key(k) || reduce_update_map(b).contains_key(k)) by {
            assert(reduce_update_map(a + b.drop_last()).contains_key(k) == (reduce_update_map(
                a,
            ).contains_key(k) || reduce_update_map(b.drop_last()).contains_key(k)));
        }
        assert forall|k: Seq<char>| #[trigger] update_count_at(reduce_update_map(a + b), k) == update_count_at(
            reduce_update_map(a),
            k,
        ) + update_count_at(reduce_update_map(b), k) by {
            assert(update_count_at(reduce_update_map(a + b.drop_last()), k) == update_count_at(reduce_update_map(a), k) + update_count_at(
                reduce_update_map(b.drop_last()),
                k,
            ));
            assert(reduce_update_map(a + b.drop_last()).contains_key(k) == (reduce_update_map(
                a,
            ).contains_key(k) || reduce_update_map(b.drop_last()).contains_key(k)));
        }
    }
}

/// Every creation count is non-negative.
pub proof fn lemma_reduce_create_counts_nonneg(s: Seq<Message>)
    ensures
        forall|k: Seq<char>| #[trigger] create_count_at(reduce_create_map(s), k) >= 0,
{
    lemma_reduce_create_count_bounds(s);
}

/// Every update count is non-negative.
pub proof fn lemma_reduce_update_counts_nonneg(s: Seq<Message>)
    ensures
        forall|k: Seq<char>| #[trigger] update_count_at(reduce_update_map(s), k) >= 0,
{
    lemma_reduce_update_count_bounds(s);
}

/// Reduces the creation rows of one batch into per-creator deltas.
pub fn reduce_create_events(events: &Vec<Message>) -> (r: KeyedVec<CreateDelta>)
    requires
        events@.len() <= i64::MAX,
    ensures
        r.wf(),
        create_deltas_view(r@) == reduce_create_map(events@),
{
    let n: usize = events.len();
    let mut r: KeyedVec<CreateDelta> = KeyedVec::new();
    let mut i: usize = 0;
    proof {
        assert(create_deltas_view(r@) =~= reduce_create_map(events@.take(0)));
    }
    while i < n
        invariant
            i <= n,
            n == events@.len(),
            n <= i64::MAX,
            r.wf(),
            create_deltas_view(r@) == reduce_create_map(events@.take(i as int)),
        decreases n - i,
    {
        proof {
            assert(events@.take(i + 1).drop_last() =~= events@.take(i as int));
            assert(events@.take(i + 1).last() == events@[i as int]);
            lemma_reduce_create_count_bounds(events@.take(i as int));
            r.lemma_stored_keys();
        }
        let m: &Message = &events[i];
        let delta: CreateDelta = match r.get(m.creator_addr.as_str()) {
            Some(existing) => {
                assert(reduce_create_map(events@.take(i as int)).contains_key(m.creator_addr@));
                assert(existing@ == reduce_create_map(events@.take(i as int))[m.creator_addr@]);
                CreateDelta {
                    user_addr: existing.user_addr.clone(),
                    count: existing.count + 1,
                    earliest_creation: if existing.earliest_creation <= m.creation_timestamp {
                        existing.earliest_creation
                    } else {
                        m.creation_timestamp
                    },
                    latest_creation: if existing.latest_creation >= m.creation_timestamp {
                        existing.latest_creation
                    } else {
                        m.creation_timestamp
                    },
                }
            },
            None => CreateDelta {
                user_addr: m.creator_addr.clone(),
                count: 1,
                earliest_creation: m.creation_timestamp,
                latest_creation: m.creation_timestamp,
            },
        };
        r.upsert(delta);
        proof {
            assert(create_deltas_view(r@) =~= reduce_create_map(events@.take(i + 1)));
        }
        i = i + 1;
    }
    proof {
        assert(events@.take(n as int) =~= events@);
    }
    r
}

/// Reduces the (deduplicated) update rows of one batch into per-creator
/// deltas.
pub fn reduce_update_events(events: &Vec<Message>) -> (r: KeyedVec<UpdateDelta>)
    requires
        events@.len() <= i64::MAX,
    ensures
        r.wf(),
        update_deltas_view(r@) == reduce_update_map(events@),
{
    let n: usize = events.len();
    let mut r: KeyedVec<UpdateDelta> = KeyedVec::new();
    let mut i: usize = 0;
    proof {
        assert(update_deltas_view(r@) =~= reduce_update_map(events@.take(0)));
    }
    while i < n
        invariant
            i <= n,
            n == events@.len(),
            n <= i64::MAX,
            r.wf(),
            update_deltas_view(r@) == reduce_update_map(events@.take(i as int)),
        decreases n - i,
    {
        proof {
            assert(events@.take(i + 1).drop_last() =~= events@.take(i as int));
            assert(events@.take(i + 1).last() == events@[i as int]);
            lemma_reduce_update_count_bounds(events@.take(i as int));
            r.lemma_stored_keys();
        }
        let m: &Message = &events[i];
        let delta: UpdateDelta = match r.get(m.creator_addr.as_str()) {
            Some(existing) => {
                assert(reduce_update_map(events@.take(i as int)).contains_key(m.creator_addr@));
                assert(existing@ == reduce_update_map(events@.take(i as int))[m.creator_addr@]);
                UpdateDelta {
                    user_addr: existing.user_addr.clone(),
                    count: existing.count + 1,
                    latest_update: if existing.latest_update >= m.last_update_timestamp {
                        existing.latest_update
                    } else {
                        m.last_update_timestamp
                    },
                }
            },
            None => UpdateDelta {
                user_addr: m.creator_addr.clone(),
                count: 1,
                latest_update: m.last_update_timestamp,
            },
        };
        r.upsert(delta);
        proof {
            assert(update_deltas_view(r@) =~= reduce_update_map(events@.take(i + 1)));
        }
        i = i + 1;
    }
    proof {
        assert(events@.take(n as int) =~= events@);
    }
    r
}

/// `a` is strictly newer than `b` under the (last-update timestamp,
/// last-update event index) order that decides row replacement.
pub open spec fn pair_newer(a: Message, b: Message) -> bool {
    a.last_update_timestamp > b.last_update_timestamp || (a.last_update_timestamp
        == b.last_update_timestamp && a.last_update_event_idx > b.last_update_event_idx)
}

/// Folds one update row into the deduplicated list: a new subject is
/// appended, a known one is replaced only by a strictly newer row.
pub open spec fn dedup_update_step(cur: Seq<Message>, m: Message) -> Seq<Message> {
    match key_index(cur, m.message_obj_addr@) {
        None => cur.push(m),
        Some(i) => if pair_newer(m, cur[i]) {
            cur.update(i, m)
        } else {
            cur
        },
    }
}

/// The deduplicated update rows of a batch: per subject, only the newest
/// update survives, subjects in first-seen order.
pub open spec fn dedup_updates(s: Seq<Message>) -> Seq<Message>
    decreases s.len(),
{
    if s.len() == 0 {
        Seq::empty()
    } else {
        dedup_update_step(dedup_updates(s.drop_last()), s.last())
    }
}

/// Deduplication never lengthens a batch.
pub proof fn lemma_dedup_len(s: Seq<Message>)
    ensures
        dedup_updates(s).len() <= s.len(),
    decreases s.len(),
{
    if s.len() > 0 {
        lemma_dedup_len(s.drop_last());
        lemma_key_index_from(dedup_updates(s.drop_last()), s.last().message_obj_addr@, 0);
    }
}

/// Some row of `s` carries subject `k`.
pub open spec fn has_subject(s: Seq<Message>, k: Seq<char>) -> bool {
    exists|i: int| 0 <= i < s.len() && (#[trigger] s[i]).message_obj_addr@ == k
}

/// No subject is shared between the two batches.
pub open spec fn disjoint_subjects(a: Seq<Message>, b: Seq<Message>) -> bool {
    forall|i: int, j: int|
        0 <= i < a.len() && 0 <= j < b.len() ==> (#[trigger] a[i]).message_obj_addr@ != (
        #[trigger] b[j]).message_obj_addr@
}

/// Deduplication invents no subject.
pub proof fn lemma_dedup_subjects(s: Seq<Message>)
    ensures
        forall|k: Seq<char>| has_subject(#[trigger] dedup_updates(s), k) ==> has_subject(s, k),
    decreases s.len(),
{
    if s.len() > 0 {
        lemma_dedup_subjects(s.drop_last());
        let prev = dedup_updates(s.drop_last());
        let m = s.last();
        lemma_key_index_from(prev, m.message_obj_addr@, 0);
        assert forall|k: Seq<char>| has_subject(#[trigger] dedup_updates(s), k) implies
        has_subject(s, k) by {
            let cur = dedup_updates(s);
            let i = choose|i: int| 0 <= i < cur.len() && (#[trigger] cur[i]).message_obj_addr@ == k;
            if cur[i] == m {
                assert(s[s.len() - 1].message_obj_addr@ == k);
            } else {
                assert(0 <= i < prev.len() && prev[i] == cur[i]);
                assert(has_subject(s.drop_last(), k));
                let j = choose|j: int|
                    0 <= j < s.drop_last().len() && (#[trigger] s.drop_last()[j]).message_obj_addr@
                        == k;
                assert(s[j].message_obj_addr@ == k);
            }
        }
    }
}

/// Searching past a prefix without the key lands where searching the
/// suffix alone lands.
proof fn lemma_key_index_concat(a: Seq<Message>, b: Seq<Message>, k: Seq<char>, j: int)
    requires
        0 <= j <= b.len(),
        forall|i: int| 0 <= i < a.len() ==> (#[trigger] a[i]).message_obj_addr@ != k,
    ensures
        key_index_from(a + b, k, a.len() + j) == match key_index_from(b, k, j) {
            None => None::<int>,
            Some(x) => Some(a.len() + x),
        },
    decreases b.len() - j,
{
    if j < b.len() {
        assert((a + b)[a.len() + j] == b[j]);
        lemma_key_index_concat(a, b, k, j + 1);
    }
}

/// A search over a concatenation whose first part lacks the key reduces
/// to a shifted search of the second part.
proof fn lemma_key_index_skip_first(a: Seq<Message>, b: Seq<Message>, k: Seq<char>, j: int)
    requires
        0 <= j <= a.len(),
        forall|i: int| 0 <= i < a.len() ==> (#[trigger] a[i]).message_obj_addr@ != k,
    ensures
        key_index_from(a + b, k, j) == key_index_from(a + b, k, a.len() as int),
    decreases a.len() - j,
{
    if j < a.len() {
        assert((a + b)[j] == a[j]);
        lemma_key_index_skip_first(a, b, k, j + 1);
    }
}

/// Deduplication distributes over the concatenation of batches with
/// disjoint subjects.
pub proof fn lemma_dedup_disjoint_append(b1: Seq<Message>, b2: Seq<Message>)
    requires
        disjoint_subjects(b1, b2),
    ensures
        dedup_updates(b1 + b2) == dedup_updates(b1) + dedup_updates(b2),
    decreases b2.len(),
{
    if b2.len() == 0 {
        assert(b1 + b2 =~= b1);
        assert(dedup_updates(b1) + dedup_updates(b2) =~= dedup_updates(b1));
    } else {
        let c = b2.drop_last();
        let m = b2.last();
        assert(disjoint_subjects(b1, c)) by {
            assert forall|i: int, j: int|
                0 <= i < b1.len() && 0 <= j < c.len() implies (#[trigger] b1[i]).message_obj_addr@
                != (#[trigger] c[j]).message_obj_addr@ by {
                assert(c[j] == b2[j]);
            }
        }
        lemma_dedup_disjoint_append(b1, c);
        assert((b1 + b2).drop_last() =~= b1 + c);
        assert((b1 + b2).last() == m);
        let d1 = dedup_updates(b1);
        let dc = dedup_updates(c);
        let k = m.message_obj_addr@;
        assert(forall|i: int| 0 <= i < d1.len() ==> (#[trigger] d1[i]).message_obj_addr@ != k) by {
            lemma_dedup_subjects(b1);
            if exists|i: int| 0 <= i < d1.len() && (#[trigger] d1[i]).message_obj_addr@ == k {
                let i = choose|i: int|
                    0 <= i < d1.len() && (#[trigger] d1[i]).message_obj_addr@ == k;
                assert(has_subject(d1, k));
                assert(has_subject(b1, k));
                let j = choose|j: int|
                    0 <= j < b1.len() && (#[trigger] b1[j]).message_obj_addr@ == k;
                assert(b1[j].message_obj_addr@ != b2[b2.len() - 1].message_obj_addr@);
            }
        }
        lemma_key_index_skip_first(d1, dc, k, 0);
        lemma_key_index_concat(d1, dc, k, 0);
        lemma_key_index_from(dc, k, 0);
        match key_index(dc, k) {
            None => {
                assert((d1 + dc).push(m) =~= d1 + dc.push(m));
            },
            Some(i) => {
                assert((d1 + dc)[d1.len() + i] == dc[i]);
                if pair_newer(m, dc[i]) {
                    assert((d1 + dc).update(d1.len() + i, m) =~= d1 + dc.update(i, m));
                }
            },
        }
    }
}

/// Keeps, per subject row, only the newest update of the batch, so that
/// one merge statement never carries two values for one row.
pub fn dedup_update_events(events: Vec<Message>) -> (r: Vec<Message>)
    ensures
        r@ == dedup_updates(events@),
{
    let ghost orig = events@;
    let mut rest = events;
    let ghost mut processed: int = 0;
    let mut kept: KeyedVec<Message> = KeyedVec::new();
    while rest.len() > 0
        invariant
            0 <= processed <= orig.len(),
            rest@ == orig.skip(processed),
            kept.wf(),
            kept.srows() == dedup_updates(orig.take(processed)),
        decreases rest@.len(),
    {
        proof {
            assert(orig.skip(processed)[0] == orig[processed]);
            assert(orig.skip(processed).remove(0) =~= orig.skip(processed + 1));
            assert(orig.take(processed + 1).drop_last() =~= orig.take(processed));
            assert(orig.take(processed + 1).last() == orig[processed]);
        }
        let m = rest.remove(0);
        proof {
            lemma_key_index_from(kept.srows(), m.message_obj_addr@, 0);
            kept.lemma_view();
        }
        let replace: bool = match kept.get(m.message_obj_addr.as_str()) {
            None => true,
            Some(existing) => {
                m.last_update_timestamp > existing.last_update_timestamp || (
                m.last_update_timestamp == existing.last_update_timestamp
                    && m.last_update_event_idx > existing.last_update_event_idx)
            },
        };
        if replace {
            kept.upsert(m);
        }
        proof {
            processed = processed + 1;
        }
    }
    proof {
        assert(orig.take(processed) =~= orig);
    }
    kept.into_rows()
}

} // verus!
