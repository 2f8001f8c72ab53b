//! Models of the module and package upgrade-history tables, keyed by
//! (address, name, upgrade number).  Both merge with insert-or-do-nothing
//! semantics: an upgrade row, once stored, is immutable.

use vstd::prelude::*;
use vstd::string::*;

use crate::text::str_eq;
use crate::upgrade::ModuleUpgrade;
use crate::upgrade::PackageUpgrade;

verus! {

/// The primary key of a module upgrade row.
pub open spec fn module_key(m: ModuleUpgrade) -> (Seq<char>, Seq<char>, int) {
    (m.module_addr@, m.module_name@, m.upgrade_number as int)
}

/// The association map a sequence of module upgrade rows denotes; a later
/// row with the same key wins.
pub open spec fn module_rows_map(s: Seq<ModuleUpgrade>) -> Map<
    (Seq<char>, Seq<char>, int),
    ModuleUpgrade,
>
    decreases s.len(),
{
    if s.len() == 0 {
        Map::empty()
    } else {
        module_rows_map(s.drop_last()).insert(module_key(s.last()), s.last())
    }
}

/// One module upgrade row merged: insert, and on a key conflict do
/// nothing.
pub open spec fn apply_module_one(
    db: Map<(Seq<char>, Seq<char>, int), ModuleUpgrade>,
    m: ModuleUpgrade,
) -> Map<(Seq<char>, Seq<char>, int), ModuleUpgrade> {
    if db.contains_key(module_key(m)) {
        db
    } else {
        db.insert(module_key(m), m)
    }
}

/// A batch of module upgrade rows merged, in order.
pub open spec fn apply_modules_all(
    db: Map<(Seq<char>, Seq<char>, int), ModuleUpgrade>,
    s: Seq<ModuleUpgrade>,
) -> Map<(Seq<char>, Seq<char>, int), ModuleUpgrade>
    decreases s.len(),
{
    if s.len() == 0 {
        db
    } else {
        apply_module_one(apply_modules_all(db, s.drop_last()), s.last())
    }
}

/// Merging a concatenation equals merging the parts in turn.
pub proof fn lemma_apply_modules_append(
    db: Map<(Seq<char>, Seq<char>, int), ModuleUpgrade>,
    a: Seq<ModuleUpgrade>,
    b: Seq<ModuleUpgrade>,
)
    ensures
        apply_modules_all(db, a + b) == apply_modules_all(apply_modules_all(db, a), b),
    decreases b.len(),
{
    if b.len() == 0 {
        assert(a + b =~= a);
    } else {
        lemma_apply_modules_append(db, a, b.drop_last());
        assert((a + b).drop_last() =~= a + b.drop_last());
        assert((a + b).last() == b.last());
    }
}

/// A key is in the denoted map exactly when some row carries it.
proof fn lemma_module_rows_domain(s: Seq<ModuleUpgrade>, k: (Seq<char>, Seq<char>, int))
    ensures
        module_rows_map(s).contains_key(k) <==> exists|i: int|
            0 <= i < s.len() && module_key(#[trigger] s[i]) == k,
    decreases s.len(),
{
    if s.len() > 0 {
        lemma_module_rows_domain(s.drop_last(), k);
        if module_rows_map(s).contains_key(k) {
            if module_key(s.last()) == k {
                assert(module_key(s[s.len() - 1]) == k);
            } else {
                let i = choose|i: int|
                    0 <= i < s.drop_last().len() && module_key(#[trigger] s.drop_last()[i]) == k;
                assert(module_key(s[i]) == k);
            }
        }
        if exists|i: int| 0 <= i < s.len() && module_key(#[trigger] s[i]) == k {
            let i = choose|i: int| 0 <= i < s.len() && module_key(#[trigger] s[i]) == k;
            if i < s.len() - 1 {
                assert(module_key(s.drop_last()[i]) == k);
            }
        }
    }
}

/// No two rows share a key.
pub open spec fn unique_module_keys(s: Seq<ModuleUpgrade>) -> bool {
    forall|i: int, j: int| 0 <= i < j < s.len() ==> module_key(#[trigger] s[i]) != module_key(
        #[trigger] s[j],
    )
}

/// With unique keys, the denoted map sends each row's key to that row.
proof fn lemma_module_rows_get(s: Seq<ModuleUpgrade>, i: int)
    requires
        unique_module_keys(s),
        0 <= i < s.len(),
    ensures
        module_rows_map(s).contains_key(module_key(s[i])),
        module_rows_map(s)[module_key(s[i])] == s[i],
    decreases s.len(),
{
    if i == s.len() - 1 {
    } else {
        assert(unique_module_keys(s.drop_last()));
        assert(s.drop_last()[i] == s[i]);
        lemma_module_rows_get(s.drop_last(), i);
        assert(module_key(s.last()) != module_key(s[i]));
    }
}

/// The module upgrade-history table.
pub struct ModuleUpgradeStore {
    rows: Vec<ModuleUpgrade>,
}

impl View for ModuleUpgradeStore {
    type V = Map<(Seq<char>, Seq<char>, int), ModuleUpgrade>;

    closed spec fn view(&self) -> Map<(Seq<char>, Seq<char>, int), ModuleUpgrade> {
        module_rows_map(self.rows@)
    }
}

impl ModuleUpgradeStore {
    /// The store is well formed: one row per key.
    pub closed spec fn wf(&self) -> bool {
        unique_module_keys(self.rows@)
    }

    /// An empty table.
    pub fn new() -> (r: Self)
        ensures
            r.wf(),
            r@ =~= Map::<(Seq<char>, Seq<char>, int), ModuleUpgrade>::empty(),
    {
        ModuleUpgradeStore { rows: Vec::new() }
    }

    /// The row stored under a key, if any.
    pub fn get(&self, addr: &str, name: &str, number: i64) -> (r: Option<&ModuleUpgrade>)
        requires
            self.wf(),
        ensures
            match r {
                Some(row) => self@.contains_key((addr@, name@, number as int)) && *row
                    == self@[(addr@, name@, number as int)],
                None => !self@.contains_key((addr@, name@, number as int)),
            },
    {
        proof {
            lemma_module_rows_domain(self.rows@, (addr@, name@, number as int));
        }
        let n: usize = self.rows.len();
        let mut i: usize = 0;
        while i < n
            invariant
                i <= n,
                n == self.rows@.len(),
                self.wf(),
                forall|j: int| 0 <= j < i ==> module_key(#[trigger] self.rows@[j]) != (
                    addr@,
                    name@,
                    number as int,
                ),
            decreases n - i,
        {
            let row: &ModuleUpgrade = &self.rows[i];
            if str_eq(row.module_addr.as_str(), addr) && str_eq(row.module_name.as_str(), name)
                && row.upgrade_number == number {
                proof {
                    lemma_module_rows_get(self.rows@, i as int);
                }
                return Some(row);
            }
            i = i + 1;
        }
        proof {
            lemma_module_rows_domain(self.rows@, (addr@, name@, number as int));
        }
        None
    }

    /// Whether a row with the given key is stored.
    fn holds_key(&self, addr: &str, name: &str, number: i64) -> (r: bool)
        ensures
            r == self@.contains_key((addr@, name@, number as int)),
    {
        proof {
            lemma_module_rows_domain(self.rows@, (addr@, name@, number as int));
        }
        let n: usize = self.rows.len();
        let mut i: usize = 0;
        while i < n
            invariant
                i <= n,
                n == self.rows@.len(),
                forall|j: int| 0 <= j < i ==> module_key(#[trigger] self.rows@[j]) != (
                    addr@,
                    name@,
                    number as int,
                ),
            decreases n - i,
        {
            let row: &ModuleUpgrade = &self.rows[i];
            if str_eq(row.module_addr.as_str(), addr) && str_eq(row.module_name.as_str(), name)
                && row.upgrade_number == number {
                proof {
                    lemma_module_rows_domain(self.rows@, (addr@, name@, number as int));
                }
                return true;
            }
            i = i + 1;
        }
        false
    }

    /// Merges a batch of module upgrade rows: a row whose key is already
    /// stored is dropped, everything else is inserted.
    pub fn apply_module_upgrades(&mut self, batch: Vec<ModuleUpgrade>)
        requires
            old(self).wf(),
        ensures
            final(self).wf(),
            final(self)@ == apply_modules_all(old(self)@, batch@),
    {
        let ghost orig = batch@;
        let mut rest = batch;
        let ghost mut processed: int = 0;
        while rest.len() > 0
            invariant
                0 <= processed <= orig.len(),
                rest@ == orig.skip(processed),
                self.wf(),
                self@ == apply_modules_all(old(self)@, orig.take(processed)),
            decreases rest@.len(),
        {
            proof {
                assert(orig.skip(processed)[0] == orig[processed]);
                assert(orig.skip(processed).remove(0) =~= orig.skip(processed + 1));
                assert(orig.take(processed + 1).drop_last() =~= orig.take(processed));
                assert(orig.take(processed + 1).last() == orig[processed]);
            }
            let m = rest.remove(0);
            let present: bool = self.holds_key(
                m.module_addr.as_str(),
                m.module_name.as_str(),
                m.upgrade_number,
            );
            let ghost prev_rows = self.rows@;
            proof {
                lemma_module_rows_domain(prev_rows, module_key(orig[processed]));
            }
            if !present {
                self.rows.push(m);
                proof {
                    assert(self.rows@.drop_last() =~= prev_rows);
                }
            }
            proof {
                processed = processed + 1;
            }
        }
        proof {
            assert(orig.take(processed) =~= orig);
        }
    }
}

/// The primary key of a package upgrade row.
pub open spec fn package_key(p: PackageUpgrade) -> (Seq<char>, Seq<char>, int) {
    (p.package_addr@, p.package_name@, p.upgrade_number as int)
}

/// The association map a sequence of package upgrade rows denotes; a
/// later row with the same key wins.
pub open spec fn package_rows_map(s: Seq<PackageUpgrade>) -> Map<
    (Seq<char>, Seq<char>, int),
    PackageUpgrade,
>
    decreases s.len(),
{
    if s.len() == 0 {
        Map::empty()
    } else {
        package_rows_map(s.drop_last()).insert(package_key(s.last()), s.last())
    }
}

/// One package upgrade row merged: insert, and on a key conflict do
/// nothing.
pub open spec fn apply_package_one(
    db: Map<(Seq<char>, Seq<char>, int), PackageUpgrade>,
    p: PackageUpgrade,
) -> Map<(Seq<char>, Seq<char>, int), PackageUpgrade> {
    if db.contains_key(package_key(p)) {
        db
    } else {
        db.insert(package_key(p), p)
    }
}

/// A batch of package upgrade rows merged, in order.
pub open spec fn apply_packages_all(
    db: Map<(Seq<char>, Seq<char>, int), PackageUpgrade>,
    s: Seq<PackageUpgrade>,
) -> Map<(Seq<char>, Seq<char>, int), PackageUpgrade>
    decreases s.len(),
{
    if s.len() == 0 {
        db
    } else {
        apply_package_one(apply_packages_all(db, s.drop_last()), s.last())
    }
}

/// Merging a concatenation equals merging the parts in turn.
pub proof fn lemma_apply_packages_append(
    db: Map<(Seq<char>, Seq<char>, int), PackageUpgrade>,
    a: Seq<PackageUpgrade>,
    b: Seq<PackageUpgrade>,
)
    ensures
        apply_packages_all(db, a + b) == apply_packages_all(apply_packages_all(db, a), b),
    decreases b.len(),
{
    if b.len() == 0 {
        assert(a + b =~= a);
    } else {
        lemma_apply_packages_append(db, a, b.drop_last());
        assert((a + b).drop_last() =~= a + b.drop_last());
        assert((a + b).last() == b.last());
    }
}

/// A key is in the denoted map exactly when some row carries it.
proof fn lemma_package_rows_domain(s: Seq<PackageUpgrade>, k: (Seq<char>, Seq<char>, int))
    ensures
        package_rows_map(s).contains_key(k) <==> exists|i: int|
            0 <= i < s.len() && package_key(#[trigger] s[i]) == k,
    decreases s.len(),
{
    if s.len() > 0 {
        lemma_package_rows_domain(s.drop_last(), k);
        if package_rows_map(s).contains_key(k) {
            if package_key(s.last()) == k {
                assert(package_key(s[s.len() - 1]) == k);
            } else {
                let i = choose|i: int|
                    0 <= i < s.drop_last().len() && package_key(#[trigger] s.drop_last()[i]) == k;
                assert(package_key(s[i]) == k);
            }
        }
        if exists|i: int| 0 <= i < s.len() && package_key(#[trigger] s[i]) == k {
            let i = choose|i: int| 0 <= i < s.len() && package_key(#[trigger] s[i]) == k;
            if i < s.len() - 1 {
                assert(package_key(s.drop_last()[i]) == k);
            }
        }
    }
}

/// No two rows share a key.
pub open spec fn unique_package_keys(s: Seq<PackageUpgrade>) -> bool {
    forall|i: int, j: int| 0 <= i < j < s.len() ==> package_key(#[trigger] s[i]) != package_key(
        #[trigger] s[j],
    )
}

/// With unique keys, the denoted map sends each row's key to that row.
proof fn lemma_package_rows_get(s: Seq<PackageUpgrade>, i: int)
    requires
        unique_package_keys(s),
        0 <= i < s.len(),
    ensures
        package_rows_map(s).contains_key(package_key(s[i])),
        package_rows_map(s)[package_key(s[i])] == s[i],
    decreases s.len(),
{
    if i == s.len() - 1 {
    } else {
        assert(unique_package_keys(s.drop_last()));
        assert(s.drop_last()[i] == s[i]);
        lemma_package_rows_get(s.drop_last(), i);
        assert(package_key(s.last()) != package_key(s[i]));
    }
}

/// The package upgrade-history table.
pub struct PackageUpgradeStore {
    rows: Vec<PackageUpgrade>,
}

impl View for PackageUpgradeStore {
    type V = Map<(Seq<char>, Seq<char>, int), PackageUpgrade>;

    closed spec fn view(&self) -> Map<(Seq<char>, Seq<char>, int), PackageUpgrade> {
        package_rows_map(self.rows@)
    }
}

impl PackageUpgradeStore {
    /// The store is well formed: one row per key.
    pub closed spec fn wf(&self) -> bool {
        unique_package_keys(self.rows@)
    }

    /// An empty table.
    pub fn new() -> (r: Self)
        ensures
            r.wf(),
            r@ =~= Map::<(Seq<char>, Seq<char>, int), PackageUpgrade>::empty(),
    {
        PackageUpgradeStore { rows: Vec::new() }
    }

    /// The row stored under a key, if any.
    pub fn get(&self, addr: &str, name: &str, number: i64) -> (r: Option<&PackageUpgrade>)
        requires
            self.wf(),
        ensures
            match r {
                Some(row) => self@.contains_key((addr@, name@, number as int)) && *row
                    == self@[(addr@, name@, number as int)],
                None => !self@.contains_key((addr@, name@, number as int)),
            },
    {
        proof {
            lemma_package_rows_domain(self.rows@, (addr@, name@, number as int));
        }
        let n: usize = self.rows.len();
        let mut i: usize = 0;
        while i < n
            invariant
                i <= n,
                n == self.rows@.len(),
                self.wf(),
                forall|j: int| 0 <= j < i ==> package_key(#[trigger] self.rows@[j]) != (
                    addr@,
                    name@,
                    number as int,
                ),
            decreases n - i,
        {
            let row: &PackageUpgrade = &self.rows[i];
            if str_eq(row.package_addr.as_str(), addr) && str_eq(row.package_name.as_str(), name)
                && row.upgrade_number == number {
                proof {
                    lemma_package_rows_get(self.rows@, i as int);
                }
                return Some(row);
            }
            i = i + 1;
        }
        proof {
            lemma_package_rows_domain(self.rows@, (addr@, name@, number as int));
        }
        None
    }

    /// Whether a row with the given key is stored.
    fn holds_key(&self, addr: &str, name: &str, number: i64) -> (r: bool)
        ensures
            r == self@.contains_key((addr@, name@, number as int)),
    {
        proof {
            lemma_package_rows_domain(self.rows@, (addr@, name@, number as int));
        }
        let n: usize = self.rows.len();
        let mut i: usize = 0;
        while i < n
            invariant
                i <= n,
                n == self.rows@.len(),
                forall|j: int| 0 <= j < i ==> package_key(#[trigger] self.rows@[j]) != (
                    addr@,
                    name@,
                    number as int,
                ),
            decreases n - i,
        {
            let row: &PackageUpgrade = &self.rows[i];
            if str_eq(row.package_addr.as_str(), addr) && str_eq(row.package_name.as_str(), name)
                && row.upgrade_number == number {
                proof {
                    lemma_package_rows_domain(self.rows@, (addr@, name@, number as int));
                }
                return true;
            }
            i = i + 1;
        }
        false
    }

    /// Merges a batch of package upgrade rows: a row whose key is already
    /// stored is dropped, everything else is inserted.
    pub fn apply_package_upgrades(&mut self, batch: Vec<PackageUpgrade>)
        requires
            old(self).wf(),
        ensures
            final(self).wf(),
            final(self)@ == apply_packages_all(old(self)@, batch@),
    {
        let ghost orig = batch@;
        let mut rest = batch;
        let ghost mut processed: int = 0;
        while rest.len() > 0
            invariant
                0 <= processed <= orig.len(),
                rest@ == orig.skip(processed),
                self.wf(),
                self@ == apply_packages_all(old(self)@, orig.take(processed)),
            decreases rest@.len(),
        {
            proof {
                assert(orig.skip(processed)[0] == orig[processed]);
                assert(orig.skip(processed).remove(0) =~= orig.skip(processed + 1));
                assert(orig.take(processed + 1).drop_last() =~= orig.take(processed));
                assert(orig.take(processed + 1).last() == orig[processed]);
            }
            let p = rest.remove(0);
            let present: bool = self.holds_key(
                p.package_addr.as_str(),
                p.package_name.as_str(),
                p.upgrade_number,
            );
            let ghost prev_rows = self.rows@;
            proof {
                lemma_package_rows_domain(prev_rows, package_key(orig[processed]));
            }
            if !present {
                self.rows.push(p);
                proof {
                    assert(self.rows@.drop_last() =~= prev_rows);
                }
            }
            proof {
                processed = processed + 1;
            }
        }
        proof {
            assert(orig.take(processed) =~= orig);
        }
    }
}

} // verus!
