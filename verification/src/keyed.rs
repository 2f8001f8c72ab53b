//! Rows keyed by a string field, held in insertion order.
//!
//! Every table this pipeline touches is keyed by an address-like string:
//! record rows by subject address, aggregate rows by user address, module
//! writes by module name.  `KeyedVec` holds such rows with unique keys and
//! is specified by the association map the rows denote, so the merge
//! semantics of the relational tables can be stated over `Map` values.

use vstd::prelude::*;

use crate::text::str_eq;

verus! {

/// A row type keyed by one of its string fields.
pub trait StrKeyed: Sized {
    /// The key in specification form.
    spec fn skey(&self) -> Seq<char>;

    /// The key as text.
    fn key_text(&self) -> (r: &str)
        ensures
            r@ == self.skey(),
    ;
}

/// The association map that a sequence of keyed rows denotes; a later row
/// with the same key wins.
pub open spec fn keyed_map<T: StrKeyed>(s: Seq<T>) -> Map<Seq<char>, T>
    decreases s.len(),
{
    if s.len() == 0 {
        Map::empty()
    } else {
        keyed_map(s.drop_last()).insert(s.last().skey(), s.last())
    }
}

/// The position of the first row at or after `from` whose key is `k`.
pub open spec fn key_index_from<T: StrKeyed>(s: Seq<T>, k: Seq<char>, from: int) -> Option<int>
    decreases s.len() - from
        when 0 <= from
{
    if from >= s.len() {
        None
    } else if s[from].skey() == k {
        Some(from)
    } else {
        key_index_from(s, k, from + 1)
    }
}

/// The position of the first row whose key is `k`, if any.
pub open spec fn key_index<T: StrKeyed>(s: Seq<T>, k: Seq<char>) -> Option<int> {
    key_index_from(s, k, 0)
}

/// No two rows share a key.
pub open spec fn unique_keys<T: StrKeyed>(s: Seq<T>) -> bool {
    forall|i: int, j: int| 0 <= i < j < s.len() ==> (#[trigger] s[i]).skey() != (#[trigger] s[j]).skey()
}

/// What `key_index_from` finds: the first matching row, or none at all.
pub proof fn lemma_key_index_from<T: StrKeyed>(s: Seq<T>, k: Seq<char>, from: int)
    requires
        0 <= from,
    ensures
        match key_index_from(s, k, from) {
            Some(i) => from <= i < s.len() && s[i].skey() == k && forall|j: int|
                from <= j < i ==> (#[trigger] s[j]).skey() != k,
            None => forall|j: int| from <= j < s.len() ==> (#[trigger] s[j]).skey() != k,
        },
    decreases s.len() - from,
{
    if from < s.len() && s[from].skey() != k {
        lemma_key_index_from(s, k, from + 1);
    }
}

/// A key is in the denoted map exactly when some row carries it.
pub proof fn lemma_keyed_map_domain<T: StrKeyed>(s: Seq<T>, k: Seq<char>)
    ensures
        keyed_map(s).contains_key(k) <==> exists|i: int|
            0 <= i < s.len() && (#[trigger] s[i]).skey() == k,
    decreases s.len(),
{
    if s.len() > 0 {
        lemma_keyed_map_domain(s.drop_last(), k);
        if keyed_map(s).contains_key(k) {
            if s.last().skey() == k {
                assert(s[s.len() - 1].skey() == k);
            } else {
                let i = choose|i: int| 0 <= i < s.drop_last().len() && (#[trigger] s.drop_last()[i]).skey() == k;
                assert(s[i].skey() == k);
            }
        }
        if exists|i: int| 0 <= i < s.len() && (#[trigger] s[i]).skey() == k {
            let i = choose|i: int| 0 <= i < s.len() && (#[trigger] s[i]).skey() == k;
            if i < s.len() - 1 {
                assert(s.drop_last()[i].skey() == k);
            }
        }
    }
}

/// With unique keys, the denoted map sends each row's key to that row.
pub proof fn lemma_keyed_map_get<T: StrKeyed>(s: Seq<T>, i: int)
    requires
        unique_keys(s),
        0 <= i < s.len(),
    ensures
        keyed_map(s).contains_key(s[i].skey()),
        keyed_map(s)[s[i].skey()] == s[i],
    decreases s.len(),
{
    if i == s.len() - 1 {
    } else {
        assert(unique_keys(s.drop_last()));
        lemma_keyed_map_get(s.drop_last(), i);
        assert(s[i].skey() != s.last().skey());
    }
}

/// The denoted map stores every row under its own key.
pub proof fn lemma_keyed_map_key<T: StrKeyed>(s: Seq<T>, k: Seq<char>)
    ensures
        keyed_map(s).contains_key(k) ==> keyed_map(s)[k].skey() == k,
    decreases s.len(),
{
    if s.len() > 0 {
        lemma_keyed_map_key(s.drop_last(), k);
    }
}

/// Replacing the one row that carries `k` updates the denoted map at `k`.
pub proof fn lemma_keyed_map_update<T: StrKeyed>(s: Seq<T>, i: int, v: T)
    requires
        unique_keys(s),
        0 <= i < s.len(),
        v.skey() == s[i].skey(),
    ensures
        keyed_map(s.update(i, v)) =~= keyed_map(s).insert(v.skey(), v),
    decreases s.len(),
{
    let k = v.skey();
    if i == s.len() - 1 {
        assert(s.update(i, v).drop_last() =~= s.drop_last());
        assert(s.update(i, v).last() == v);
    } else {
        assert(unique_keys(s.drop_last()));
        assert(s.drop_last()[i] == s[i]);
        lemma_keyed_map_update(s.drop_last(), i, v);
        assert(s.update(i, v).drop_last() =~= s.drop_last().update(i, v));
        assert(s.update(i, v).last() == s.last());
        assert(s.last().skey() != k);
    }
}

/// Rows keyed by a string field, with unique keys.
pub struct KeyedVec<T: StrKeyed> {
    rows: Vec<T>,
}

impl<T: StrKeyed> View for KeyedVec<T> {
    type V = Map<Seq<char>, T>;

    closed spec fn view(&self) -> Map<Seq<char>, T> {
        keyed_map(self.rows@)
    }
}

impl<T: StrKeyed> KeyedVec<T> {
    /// The rows in insertion order.
    pub closed spec fn srows(&self) -> Seq<T> {
        self.rows@
    }

    /// The container is well formed: no two rows share a key.
    pub open spec fn wf(&self) -> bool {
        unique_keys(self.srows())
    }

    /// The denoted map is the association map of the rows.
    pub proof fn lemma_view(&self)
        ensures
            forall|k: Seq<char>| self@.contains_key(k) <==> exists|i: int|
                0 <= i < self.srows().len() && (#[trigger] self.srows()[i]).skey() == k,
            self.wf() ==> forall|i: int| 0 <= i < self.srows().len() ==> {
                &&& self@.contains_key((#[trigger] self.srows()[i]).skey())
                &&& self@[self.srows()[i].skey()] == self.srows()[i]
            },
    {
        assert forall|k: Seq<char>| self@.contains_key(k) <==> exists|i: int|
            0 <= i < self.srows().len() && (#[trigger] self.srows()[i]).skey() == k by {
            lemma_keyed_map_domain(self.srows(), k);
        }
        if self.wf() {
            assert forall|i: int| 0 <= i < self.srows().len() implies {
                &&& self@.contains_key((#[trigger] self.srows()[i]).skey())
                &&& self@[self.srows()[i].skey()] == self.srows()[i]
            } by {
                lemma_keyed_map_get(self.srows(), i);
            }
        }
    }

    /// The denoted map is the association map of the held rows.
    pub proof fn lemma_view_is_keyed_map(&self)
        ensures
            self@ == keyed_map(self.srows()),
    {
    }

    /// Every held row sits in the denoted map under its own key.
    pub proof fn lemma_stored_keys(&self)
        ensures
            forall|k: Seq<char>| self@.contains_key(k) ==> (#[trigger] self@[k]).skey() == k,
    {
        assert forall|k: Seq<char>| self@.contains_key(k) implies (#[trigger] self@[k]).skey()
            == k by {
            lemma_keyed_map_key(self.rows@, k);
        }
    }

    /// An empty container.
    pub fn new() -> (r: Self)
        ensures
            r@ =~= Map::<Seq<char>, T>::empty(),
            r.srows() =~= Seq::<T>::empty(),
            r.wf(),
    {
        KeyedVec { rows: Vec::new() }
    }

    /// How many rows are held.
    pub fn len(&self) -> (n: usize)
        ensures
            n == self.srows().len(),
    {
        self.rows.len()
    }

    /// The position of the row carrying `key`, if one does.
    fn index_of(&self, key: &str) -> (r: Option<usize>)
        ensures
            match r {
                Some(i) => key_index(self.srows(), key@) == Some(i as int) && i
                    < self.srows().len() && self.srows()[i as int].skey() == key@,
                None => key_index(self.srows(), key@) is None,
            },
{
        let n: usize = self.rows.len();
        let mut i: usize = 0;
        while i < n
            invariant
                i <= n,
                n == self.srows().len(),
                key_index(self.srows(), key@) == key_index_from(self.srows(), key@, i as int),
            decreases n - i,
        {
            let row: &T = &self.rows[i];
            if str_eq(row.key_text(), key) {
                return Some(i);
            }
            i = i + 1;
        }
        None
    }

    /// The row carrying `key`, if one does.
    pub fn get(&self, key: &str) -> (r: Option<&T>)
        requires
            self.wf(),
        ensures
            match r {
                Some(v) => self@.contains_key(key@) && *v == self@[key@],
                None => !self@.contains_key(key@),
            },
    {
        proof {
            lemma_key_index_from(self.srows(), key@, 0);
            lemma_keyed_map_domain(self.srows(), key@);
        }
        match self.index_of(key) {
            Some(i) => {
                proof {
                    lemma_keyed_map_get(self.srows(), i as int);
                }
                Some(&self.rows[i])
            },
            None => None,
        }
    }

    /// Inserts `v`, replacing the row with the same key if one is held.
    pub fn upsert(&mut self, v: T)
        requires
            old(self).wf(),
        ensures
            final(self).wf(),
            final(self)@ =~= old(self)@.insert(v.skey(), v),
            match key_index(old(self).srows(), v.skey()) {
                Some(i) => final(self).srows() == old(self).srows().update(i, v),
                None => final(self).srows() == old(self).srows().push(v),
            },
    {
        proof {
            lemma_key_index_from(self.srows(), v.skey(), 0);
        }
        let key_owned: String = v.key_text().to_owned();
        match self.index_of(key_owned.as_str()) {
            Some(i) => {
                proof {
                    lemma_keyed_map_update(self.srows(), i as int, v);
                }
                self.rows.remove(i);
                self.rows.insert(i, v);
                proof {
                    assert(self.srows() =~= old(self).srows().update(i as int, v));
                }
            },
            None => {
                self.rows.push(v);
                proof {
                    assert(self.srows().drop_last() =~= old(self).srows());
                }
            },
        }
    }

    /// Inserts `v` only when no row carries its key; the first writer wins
    /// and the stored row is never replaced.
    pub fn insert_if_absent(&mut self, v: T)
        requires
            old(self).wf(),
        ensures
            final(self).wf(),
            old(self)@.contains_key(v.skey()) ==> final(self)@ == old(self)@ && final(self).srows()
                == old(self).srows(),
            !old(self)@.contains_key(v.skey()) ==> final(self)@ =~= old(self)@.insert(v.skey(), v)
                && final(self).srows() == old(self).srows().push(v),
    {
        proof {
            lemma_key_index_from(self.srows(), v.skey(), 0);
            lemma_keyed_map_domain(self.srows(), v.skey());
        }
        let key_owned: String = v.key_text().to_owned();
        match self.index_of(key_owned.as_str()) {
            Some(_) => (),
            None => {
                self.rows.push(v);
                proof {
                    assert(self.srows().drop_last() =~= old(self).srows());
                }
            },
        }
    }

    /// Borrows the rows in insertion order.
    pub fn borrow_rows(&self) -> (r: &Vec<T>)
        ensures
            r@ == self.srows(),
    {
        &self.rows
    }

    /// Hands the rows out in insertion order.
    pub fn into_rows(self) -> (r: Vec<T>)
        ensures
            r@ == self.srows(),
    {
        self.rows
    }
}

} // verus!
