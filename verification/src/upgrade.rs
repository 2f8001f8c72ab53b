//! Module and package upgrade rows, and the on-chain shape of the package
//! registry write they are derived from.

use vstd::prelude::*;
use vstd::string::*;

use crate::digits::in_i64_range;
use crate::digits::is_signed_decimal;
use crate::digits::parse_i64_decimal;
use crate::digits::signed_decimal_val;
use crate::errors::PipelineError;

verus! {

/// Database representation of a module upgrade, keyed by
/// (module address, module name, upgrade number).
#[derive(Clone, Debug, PartialEq)]
pub struct ModuleUpgrade {
    pub module_addr: String,
    pub module_name: String,
    pub upgrade_number: i64,
    pub module_bytecode: Vec<u8>,
    pub module_source_code: String,
    /// The module ABI as JSON text.
    pub module_abi: String,
    pub tx_version: i64,
}

impl ModuleUpgrade {
    /// How many columns a module upgrade row occupies.
    pub fn field_count() -> (n: usize)
        ensures
            n == 7,
    {
        7
    }
}

/// Database representation of a package upgrade, keyed by
/// (package address, package name, upgrade number).
#[derive(Clone, Debug, PartialEq)]
pub struct PackageUpgrade {
    pub package_addr: String,
    pub package_name: String,
    pub upgrade_number: i64,
    pub upgrade_policy: i64,
    pub package_manifest: String,
    pub source_digest: String,
    pub tx_version: i64,
}

impl PackageUpgrade {
    /// How many columns a package upgrade row occupies.
    pub fn field_count() -> (n: usize)
        ensures
            n == 7,
    {
        7
    }
}

/// On-chain declaration of one module of a package.
#[derive(Clone, Debug, PartialEq)]
pub struct ModuleOnChain {
    pub name: String,
    /// Module source code, `0x` if the deployer chose to hide it.
    pub source: String,
}

/// On-chain upgrade policy of a package.
#[derive(Clone, Debug, PartialEq)]
pub struct UpgradePolicyOnChain {
    pub policy: i64,
}

/// On-chain declaration of one package in the package registry.
#[derive(Clone, Debug, PartialEq)]
pub struct PackageOnChain {
    pub manifest: String,
    pub modules: Vec<ModuleOnChain>,
    pub name: String,
    pub source_digest: String,
    pub upgrade_number: String,
    pub upgrade_policy: UpgradePolicyOnChain,
}

/// On-chain representation of a package registry resource write.
#[derive(Clone, Debug, PartialEq)]
pub struct PackageUpgradeChangeOnChain {
    pub packages: Vec<PackageOnChain>,
}

/// The mathematical value of a declared module.
pub struct ModuleV {
    pub name: Seq<char>,
    pub source: Seq<char>,
}

/// The mathematical value of a declared package.
pub struct PackageV {
    pub manifest: Seq<char>,
    pub name: Seq<char>,
    pub source_digest: Seq<char>,
    pub upgrade_number: Seq<char>,
    pub policy: i64,
    pub modules: Seq<ModuleV>,
}

/// The mathematical value of a module declaration.
pub open spec fn module_view(m: ModuleOnChain) -> ModuleV {
    ModuleV { name: m.name@, source: m.source@ }
}

/// The mathematical values of a module declaration list.
pub open spec fn modules_view(s: Seq<ModuleOnChain>) -> Seq<ModuleV> {
    s.map_values(|m: ModuleOnChain| module_view(m))
}

/// The mathematical value of a package declaration.
pub open spec fn package_view(p: PackageOnChain) -> PackageV {
    PackageV {
        manifest: p.manifest@,
        name: p.name@,
        source_digest: p.source_digest@,
        upgrade_number: p.upgrade_number@,
        policy: p.upgrade_policy.policy,
        modules: modules_view(p.modules@),
    }
}

/// The mathematical values of a package declaration list.
pub open spec fn packages_view(s: Seq<PackageOnChain>) -> Seq<PackageV> {
    s.map_values(|p: PackageOnChain| package_view(p))
}

/// The declared upgrade number parses: a decimal integer within `i64`
/// range.
pub open spec fn good_upgrade_number(p: PackageOnChain) -> bool {
    is_signed_decimal(p.upgrade_number@) && in_i64_range(signed_decimal_val(p.upgrade_number@))
}

/// The package upgrade row one declared package denotes.
pub open spec fn spec_package_row(p: PackageOnChain, addr: String, v: i64) -> PackageUpgrade {
    PackageUpgrade {
        package_addr: addr,
        package_name: p.name,
        upgrade_number: signed_decimal_val(p.upgrade_number@) as i64,
        upgrade_policy: p.upgrade_policy.policy,
        package_manifest: p.manifest,
        source_digest: p.source_digest,
        tx_version: v,
    }
}

/// The package upgrade rows a registry write denotes, one per declared
/// package in declaration order; the first malformed upgrade number is
/// fatal.
pub open spec fn spec_package_rows(ps: Seq<PackageOnChain>, addr: String, v: i64) -> Result<
    Seq<PackageUpgrade>,
    PipelineError,
>
    decreases ps.len(),
{
    if ps.len() == 0 {
        Ok(Seq::empty())
    } else {
        match spec_package_rows(ps.drop_last(), addr, v) {
            Err(e) => Err(e),
            Ok(rows) => {
                if good_upgrade_number(ps.last()) {
                    Ok(rows.push(spec_package_row(ps.last(), addr, v)))
                } else {
                    Err(PipelineError::MalformedUpgradeNumber)
                }
            },
        }
    }
}

/// A fatal prefix stays fatal: once some prefix of the declared packages
/// errs, the whole sequence errs the same way.
pub proof fn lemma_spec_package_rows_err(ps: Seq<PackageOnChain>, addr: String, v: i64, j: int)
    requires
        0 <= j <= ps.len(),
        spec_package_rows(ps.take(j), addr, v) is Err,
    ensures
        spec_package_rows(ps, addr, v) == spec_package_rows(ps.take(j), addr, v),
    decreases ps.len() - j,
{
    if j == ps.len() {
        assert(ps.take(j) =~= ps);
    } else {
        assert(ps.take(j + 1).drop_last() =~= ps.take(j));
        lemma_spec_package_rows_err(ps, addr, v, j + 1);
    }
}

impl PackageUpgradeChangeOnChain {
    /// The package upgrade rows of this registry write, stamped with the
    /// owning transaction version, or the fatal malformed-upgrade-number
    /// condition.
    pub fn to_db_package_upgrade(&self, tx_version: i64, package_addr: String) -> (r: Result<
        Vec<PackageUpgrade>,
        PipelineError,
    >)
        ensures
            match r {
                Ok(rows) => spec_package_rows(self.packages@, package_addr, tx_version) matches Ok(s)
                    && rows@ == s,
                Err(e) => spec_package_rows(self.packages@, package_addr, tx_version) == Err::<
                    Seq<PackageUpgrade>,
                    PipelineError,
                >(e),
            },
    {
        let n: usize = self.packages.len();
        let mut rows: Vec<PackageUpgrade> = Vec::new();
        let mut i: usize = 0;
        while i < n
            invariant
                i <= n,
                n == self.packages@.len(),
                spec_package_rows(self.packages@.take(i as int), package_addr, tx_version)
                    == Ok::<Seq<PackageUpgrade>, PipelineError>(rows@),
            decreases n - i,
        {
            let p: &PackageOnChain = &self.packages[i];
            proof {
                assert(self.packages@.take(i + 1).drop_last() =~= self.packages@.take(i as int));
                assert(self.packages@.take(i + 1).last() == self.packages@[i as int]);
            }
            let upgrade_number: i64 = match parse_i64_decimal(p.upgrade_number.as_str()) {
                Some(x) => x,
                None => {
                    proof {
                        lemma_spec_package_rows_err(
                            self.packages@,
                            package_addr,
                            tx_version,
                            i + 1,
                        );
                    }
                    return Err(PipelineError::MalformedUpgradeNumber);
                },
            };
            let row = PackageUpgrade {
                package_addr: package_addr.clone(),
                package_name: p.name.clone(),
                upgrade_number,
                upgrade_policy: p.upgrade_policy.policy,
                package_manifest: p.manifest.clone(),
                source_digest: p.source_digest.clone(),
                tx_version,
            };
            assert(row == spec_package_row(self.packages@[i as int], package_addr, tx_version));
            rows.push(row);
            i = i + 1;
        }
        proof {
            assert(self.packages@.take(n as int) =~= self.packages@);
        }
        Ok(rows)
    }
}

} // verus!
