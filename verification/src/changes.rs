//! The change correlator: joins module bytecode writes with the package
//! registry write of the same transaction.
//!
//! A package upgrade transaction co-locates one registry resource write
//! with the bytecode writes of every module it declares.  For each declared
//! package one package upgrade row is emitted, and for each declared module
//! one module upgrade row joined by module name with its bytecode write; a
//! declared module with no bytecode write is fatal, never silently dropped.

use vstd::prelude::*;
use vstd::string::*;

use crate::digits::in_i64_range;
use crate::digits::is_signed_decimal;
use crate::digits::parse_i64_decimal;
use crate::digits::signed_decimal_val;
use crate::errors::PipelineError;
use crate::json::parse_package_registry;
use crate::json::registry_of;
use crate::keyed::KeyedVec;
use crate::keyed::StrKeyed;
use crate::raw::RawChange;
use crate::text::std_address;
use crate::text::standardize_address;
use crate::text::str_eq;
use crate::upgrade::good_upgrade_number;
use crate::upgrade::ModuleOnChain;
use crate::upgrade::ModuleUpgrade;
use crate::upgrade::PackageOnChain;
use crate::upgrade::PackageUpgrade;
use crate::upgrade::packages_view;
use crate::upgrade::PackageUpgradeChangeOnChain;
use crate::upgrade::ModuleV;
use crate::upgrade::module_view;
use crate::upgrade::modules_view;
use crate::upgrade::package_view;
use crate::upgrade::PackageV;

verus! {

/// A correlated upgrade record of the contract.
#[derive(Clone, Debug, PartialEq)]
pub enum ContractUpgradeChange {
    ModuleUpgradeChange(ModuleUpgrade),
    PackageUpgradeChange(PackageUpgrade),
}

/// What a module bytecode write contributes: the bytecode and the ABI as
/// JSON text, keyed by the module name the ABI declares.
#[derive(Clone, Debug, PartialEq)]
pub struct ModuleSrc {
    pub name: String,
    pub bytecode: Vec<u8>,
    pub abi_json: String,
}

impl StrKeyed for ModuleSrc {
    open spec fn skey(&self) -> Seq<char> {
        self.name@
    }

    fn key_text(&self) -> (r: &str) {
        self.name.as_str()
    }
}

/// The declared type of the package registry resource.
pub open spec fn package_registry_type() -> Seq<char> {
    "0x1::code::PackageRegistry"@
}

/// The views of a sequence of parsed registry writes.
pub open spec fn registries_views(rs: Seq<PackageUpgradeChangeOnChain>) -> Seq<Seq<PackageV>> {
    rs.map_values(|r: PackageUpgradeChangeOnChain| packages_view(r.packages@))
}

/// One scan over a transaction's write-set changes, in order: collects
/// the module sources of the bytecode writes at the contract address
/// (keyed by module name, a later write winning) and the parsed views of
/// its registry writes.  A bytecode write at the contract address without
/// data or ABI is fatal, as is a registry payload that does not parse;
/// the first fatal change decides.
pub open spec fn scan_changes_spec(changes: Seq<RawChange>, contract: Seq<char>) -> Result<
    (Map<Seq<char>, ModuleSrc>, Seq<Seq<PackageV>>),
    PipelineError,
>
    decreases changes.len(),
{
    if changes.len() == 0 {
        Ok((Map::empty(), Seq::empty()))
    } else {
        match scan_changes_spec(changes.drop_last(), contract) {
            Err(e) => Err(e),
            Ok(acc) => match changes.last() {
                RawChange::ModuleWrite(w) => {
                    if std_address(w.address@) == contract {
                        match w.data {
                            None => Err(PipelineError::MissingModuleData),
                            Some(d) => match d.abi {
                                None => Err(PipelineError::MissingModuleAbi),
                                Some(abi) => Ok(
                                    (
                                        acc.0.insert(
                                            abi.name@,
                                            ModuleSrc {
                                                name: abi.name,
                                                bytecode: d.bytecode,
                                                abi_json: abi.abi_json,
                                            },
                                        ),
                                        acc.1,
                                    ),
                                ),
                            },
                        }
                    } else {
                        Ok(acc)
                    }
                },
                RawChange::ResourceWrite(w) => {
                    if std_address(w.address@) == contract && w.type_str@
                        == package_registry_type() {
                        match registry_of(w.data@) {
                            None => Err(PipelineError::MalformedRegistryPayload),
                            Some(ps) => Ok((acc.0, acc.1.push(ps))),
                        }
                    } else {
                        Ok(acc)
                    }
                },
                RawChange::Other => Ok(acc),
            },
        }
    }
}

/// A fatal change stays fatal: once some prefix of the changes errs, the
/// whole scan errs the same way.
pub proof fn lemma_scan_changes_err_persists(changes: Seq<RawChange>, contract: Seq<char>, j: int)
    requires
        0 <= j <= changes.len(),
        scan_changes_spec(changes.take(j), contract) is Err,
    ensures
        scan_changes_spec(changes, contract) == scan_changes_spec(changes.take(j), contract),
    decreases changes.len() - j,
{
    if j == changes.len() {
        assert(changes.take(j) =~= changes);
    } else {
        assert(changes.take(j + 1).drop_last() =~= changes.take(j));
        lemma_scan_changes_err_persists(changes, contract, j + 1);
    }
}

/// All declared packages of a sequence of parsed registry views, in
/// order.
pub open spec fn flatten_registry_views(regs: Seq<Seq<PackageV>>) -> Seq<PackageV>
    decreases regs.len(),
{
    if regs.len() == 0 {
        Seq::empty()
    } else {
        flatten_registry_views(regs.drop_last()) + regs.last()
    }
}

/// The declared upgrade number of a package view parses: a decimal
/// integer within `i64` range.
pub open spec fn good_upgrade_number_v(p: PackageV) -> bool {
    is_signed_decimal(p.upgrade_number) && in_i64_range(signed_decimal_val(p.upgrade_number))
}

/// The first declared module with no bytecode write, if any.
pub open spec fn first_missing_module(ms: Seq<ModuleV>, names: Set<Seq<char>>) -> Option<
    PipelineError,
>
    decreases ms.len(),
{
    if ms.len() == 0 {
        None
    } else {
        match first_missing_module(ms.drop_last(), names) {
            Some(e) => Some(e),
            None => if names.contains(ms.last().name) {
                None
            } else {
                Some(PipelineError::MissingModuleBytecode)
            },
        }
    }
}

/// The fatal condition one declared package raises against the collected
/// module names, if any.
pub open spec fn package_pass_error(p: PackageV, names: Set<Seq<char>>) -> Option<PipelineError> {
    if !good_upgrade_number_v(p) {
        Some(PipelineError::MalformedUpgradeNumber)
    } else {
        first_missing_module(p.modules, names)
    }
}

/// The first fatal condition the module pass raises over the declared
/// packages, if any.
pub open spec fn module_pass_error(ps: Seq<PackageV>, names: Set<Seq<char>>) -> Option<
    PipelineError,
>
    decreases ps.len(),
{
    if ps.len() == 0 {
        None
    } else {
        match module_pass_error(ps.drop_last(), names) {
            Some(e) => Some(e),
            None => package_pass_error(ps.last(), names),
        }
    }
}

/// The fatal condition a transaction's write-set changes raise for the
/// contract, if any: the first fatal change of the scan, or else the
/// first fatal package of the module pass over the parsed registries.
pub open spec fn changes_error(changes: Seq<RawChange>, contract: Seq<char>) -> Option<
    PipelineError,
> {
    match scan_changes_spec(changes, contract) {
        Err(e) => Some(e),
        Ok(acc) => module_pass_error(flatten_registry_views(acc.1), acc.0.dom()),
    }
}

/// The module upgrade rows of one declared package, in declaration order;
/// a declared module with no bytecode write is fatal.
pub open spec fn spec_modules_of_package(
    ms: Seq<ModuleOnChain>,
    p: PackageOnChain,
    mods: Map<Seq<char>, ModuleSrc>,
    v: i64,
) -> Result<Seq<(ModuleOnChain, ModuleSrc)>, PipelineError>
    decreases ms.len(),
{
    if ms.len() == 0 {
        Ok(Seq::empty())
    } else {
        match spec_modules_of_package(ms.drop_last(), p, mods, v) {
            Err(e) => Err(e),
            Ok(rows) => {
                if mods.contains_key(ms.last().name@) {
                    Ok(rows.push((ms.last(), mods[ms.last().name@])))
                } else {
                    Err(PipelineError::MissingModuleBytecode)
                }
            },
        }
    }
}

/// A fatal missing module stays fatal within a package.
pub proof fn lemma_modules_err_persists(
    ms: Seq<ModuleOnChain>,
    p: PackageOnChain,
    mods: Map<Seq<char>, ModuleSrc>,
    v: i64,
    j: int,
)
    requires
        0 <= j <= ms.len(),
        spec_modules_of_package(ms.take(j), p, mods, v) is Err,
    ensures
        spec_modules_of_package(ms, p, mods, v) == spec_modules_of_package(ms.take(j), p, mods, v),
    decreases ms.len() - j,
{
    if j == ms.len() {
        assert(ms.take(j) =~= ms);
    } else {
        assert(ms.take(j + 1).drop_last() =~= ms.take(j));
        lemma_modules_err_persists(ms, p, mods, v, j + 1);
    }
}

/// A package's module rows exist exactly when every declared module has a
/// bytecode write; the only failure is the missing-bytecode one.
pub proof fn lemma_modules_ok_iff(
    ms: Seq<ModuleOnChain>,
    p: PackageOnChain,
    mods: Map<Seq<char>, ModuleSrc>,
    v: i64,
)
    ensures
        spec_modules_of_package(ms, p, mods, v) is Ok <==> forall|i: int|
            0 <= i < ms.len() ==> mods.contains_key((#[trigger] ms[i]).name@),
        spec_modules_of_package(ms, p, mods, v) is Err ==> spec_modules_of_package(ms, p, mods, v)
            == Err::<Seq<(ModuleOnChain, ModuleSrc)>, PipelineError>(
            PipelineError::MissingModuleBytecode,
        ),
    decreases ms.len(),
{
    if ms.len() > 0 {
        lemma_modules_ok_iff(ms.drop_last(), p, mods, v);
        if spec_modules_of_package(ms, p, mods, v) is Ok {
            assert forall|i: int| 0 <= i < ms.len() implies mods.contains_key(
                (#[trigger] ms[i]).name@,
            ) by {
                if i < ms.len() - 1 {
                    assert(ms.drop_last()[i] == ms[i]);
                } else {
                    assert(ms[i] == ms.last());
                }
            }
        }
        if forall|i: int| 0 <= i < ms.len() ==> mods.contains_key((#[trigger] ms[i]).name@) {
            assert forall|i: int| 0 <= i < ms.drop_last().len() implies mods.contains_key(
                (#[trigger] ms.drop_last()[i]).name@,
            ) by {
                assert(ms.drop_last()[i] == ms[i]);
            }
            assert(mods.contains_key(ms.last().name@));
        }
    }
}

/// The module pass of one package: its upgrade number must parse, then
/// each declared module is joined with its bytecode write.
pub open spec fn spec_package_module_rows(
    p: PackageOnChain,
    mods: Map<Seq<char>, ModuleSrc>,
    v: i64,
) -> Result<Seq<(ModuleOnChain, ModuleSrc)>, PipelineError> {
    if good_upgrade_number(p) {
        spec_modules_of_package(p.modules@, p, mods, v)
    } else {
        Err(PipelineError::MalformedUpgradeNumber)
    }
}

/// The pairs that the module pass joins, over all declared packages in
/// order.  Each pair remembers its package position so the row fields can
/// be read off.
pub open spec fn spec_all_module_rows(
    ps: Seq<PackageOnChain>,
    mods: Map<Seq<char>, ModuleSrc>,
    v: i64,
) -> Result<Seq<(int, (ModuleOnChain, ModuleSrc))>, PipelineError>
    decreases ps.len(),
{
    if ps.len() == 0 {
        Ok(Seq::empty())
    } else {
        match spec_all_module_rows(ps.drop_last(), mods, v) {
            Err(e) => Err(e),
            Ok(rows) => match spec_package_module_rows(ps.last(), mods, v) {
                Err(e) => Err(e),
                Ok(more) => Ok(
                    rows + more.map_values(|pr: (ModuleOnChain, ModuleSrc)| (ps.len() - 1, pr)),
                ),
            },
        }
    }
}

/// A fatal package stays fatal across the module pass.
pub proof fn lemma_all_module_rows_err_persists(
    ps: Seq<PackageOnChain>,
    mods: Map<Seq<char>, ModuleSrc>,
    v: i64,
    j: int,
)
    requires
        0 <= j <= ps.len(),
        spec_all_module_rows(ps.take(j), mods, v) is Err,
    ensures
        spec_all_module_rows(ps, mods, v) == spec_all_module_rows(ps.take(j), mods, v),
    decreases ps.len() - j,
{
    if j == ps.len() {
        assert(ps.take(j) =~= ps);
    } else {
        assert(ps.take(j + 1).drop_last() =~= ps.take(j));
        lemma_all_module_rows_err_persists(ps, mods, v, j + 1);
    }
}

/// Correlation succeeds exactly when every declared package has a
/// well-formed upgrade number and every declared module a bytecode write.
pub proof fn lemma_all_module_rows_ok_iff(
    ps: Seq<PackageOnChain>,
    mods: Map<Seq<char>, ModuleSrc>,
    v: i64,
)
    ensures
        spec_all_module_rows(ps, mods, v) is Ok <==> forall|i: int|
            0 <= i < ps.len() ==> good_upgrade_number(#[trigger] ps[i]) && forall|j: int|
                0 <= j < ps[i].modules@.len() ==> mods.contains_key(
                    (#[trigger] ps[i].modules@[j]).name@,
                ),
    decreases ps.len(),
{
    if ps.len() > 0 {
        lemma_all_module_rows_ok_iff(ps.drop_last(), mods, v);
        lemma_modules_ok_iff(ps.last().modules@, ps.last(), mods, v);
        if spec_all_module_rows(ps, mods, v) is Ok {
            assert forall|i: int| 0 <= i < ps.len() implies good_upgrade_number(#[trigger] ps[i])
                && forall|j: int|
                0 <= j < ps[i].modules@.len() ==> mods.contains_key(
                    (#[trigger] ps[i].modules@[j]).name@,
                ) by {
                if i < ps.len() - 1 {
                    assert(ps.drop_last()[i] == ps[i]);
                } else {
                    assert(ps[i] == ps.last());
                }
            }
        }
        if forall|i: int|
            0 <= i < ps.len() ==> good_upgrade_number(#[trigger] ps[i]) && forall|j: int|
                0 <= j < ps[i].modules@.len() ==> mods.contains_key(
                    (#[trigger] ps[i].modules@[j]).name@,
                ) {
            assert forall|i: int| 0 <= i < ps.drop_last().len() implies good_upgrade_number(
                #[trigger] ps.drop_last()[i],
            ) && forall|j: int|
                0 <= j < ps.drop_last()[i].modules@.len() ==> mods.contains_key(
                    (#[trigger] ps.drop_last()[i].modules@[j]).name@,
                ) by {
                assert(ps.drop_last()[i] == ps[i]);
            }
            assert(ps[ps.len() - 1] == ps.last());
        }
    }
}

/// All packages that a sequence of registry writes declares, in order.
pub open spec fn flat_packages(regs: Seq<PackageUpgradeChangeOnChain>) -> Seq<PackageOnChain>
    decreases regs.len(),
{
    if regs.len() == 0 {
        Seq::empty()
    } else {
        flat_packages(regs.drop_last()) + regs.last().packages@
    }
}

/// `mu` is the module upgrade row of declared module `m` with bytecode
/// write `src`, under package `p` at the contract address.
pub open spec fn is_module_row(
    mu: ModuleUpgrade,
    m: ModuleOnChain,
    src: ModuleSrc,
    p: PackageOnChain,
    contract: Seq<char>,
    v: i64,
) -> bool {
    &&& mu.module_addr@ == contract
    &&& mu.module_name@ == m.name@
    &&& mu.upgrade_number == signed_decimal_val(p.upgrade_number@)
    &&& mu.module_bytecode@ == src.bytecode@
    &&& mu.module_source_code@ == m.source@
    &&& mu.module_abi@ == src.abi_json@
    &&& mu.tx_version == v
}

/// `pu` is the package upgrade row of declared package `p` at the contract
/// address.
pub open spec fn is_package_row(
    pu: PackageUpgrade,
    p: PackageOnChain,
    contract: Seq<char>,
    v: i64,
) -> bool {
    &&& pu.package_addr@ == contract
    &&& pu.package_name@ == p.name@
    &&& pu.upgrade_number == signed_decimal_val(p.upgrade_number@)
    &&& pu.upgrade_policy == p.upgrade_policy.policy
    &&& pu.package_manifest@ == p.manifest@
    &&& pu.source_digest@ == p.source_digest@
    &&& pu.tx_version == v
}

/// Copies a byte vector.
fn copy_bytes(v: &Vec<u8>) -> (r: Vec<u8>)
    ensures
        r@ == v@,
{
    let n: usize = v.len();
    let mut r: Vec<u8> = Vec::new();
    let mut i: usize = 0;
    while i < n
        invariant
            i <= n,
            n == v@.len(),
            r@ == v@.take(i as int),
        decreases n - i,
    {
        r.push(v[i]);
        proof {
            assert(v@.take(i + 1).drop_last() =~= v@.take(i as int));
            assert(r@ =~= v@.take(i + 1));
        }
        i = i + 1;
    }
    proof {
        assert(v@.take(n as int) =~= v@);
    }
    r
}

/// Arranges upgrade rows the way one batch emits them: every module row,
/// then every package row.
fn wrap_rows(mrows: Vec<ModuleUpgrade>, prows: Vec<PackageUpgrade>) -> (out: Vec<
    ContractUpgradeChange,
>)
    ensures
        out@.len() == mrows@.len() + prows@.len(),
        forall|k: int| 0 <= k < mrows@.len() ==> out@[k]
            == ContractUpgradeChange::ModuleUpgradeChange(#[trigger] mrows@[k]),
        forall|k: int| 0 <= k < prows@.len() ==> out@[mrows@.len() + k]
            == ContractUpgradeChange::PackageUpgradeChange(#[trigger] prows@[k]),
{
    let ghost morig = mrows@;
    let ghost porig = prows@;
    let mut out: Vec<ContractUpgradeChange> = Vec::new();
    let mut mrows = mrows;
    let mut prows = prows;
    while mrows.len() > 0
        invariant
            mrows@.len() <= morig.len(),
            mrows@ == morig.skip(morig.len() - mrows@.len()),
            out@.len() + mrows@.len() == morig.len(),
            forall|k: int| 0 <= k < out@.len() ==> out@[k]
                == ContractUpgradeChange::ModuleUpgradeChange(#[trigger] morig[k]),
        decreases mrows@.len(),
    {
        let row = mrows.remove(0);
        proof {
            let done = morig.len() - mrows@.len() - 1;
            assert(morig.skip(done)[0] == morig[done]);
            assert(morig.skip(done).remove(0) =~= morig.skip(done + 1));
        }
        out.push(ContractUpgradeChange::ModuleUpgradeChange(row));
    }
    while prows.len() > 0
        invariant
            prows@.len() <= porig.len(),
            prows@ == porig.skip(porig.len() - prows@.len()),
            out@.len() == morig.len() + porig.len() - prows@.len(),
            forall|k: int| 0 <= k < morig.len() ==> out@[k]
                == ContractUpgradeChange::ModuleUpgradeChange(#[trigger] morig[k]),
            forall|k: int| 0 <= k < porig.len() - prows@.len() ==> out@[morig.len() + k]
                == ContractUpgradeChange::PackageUpgradeChange(#[trigger] porig[k]),
        decreases prows@.len(),
    {
        let row = prows.remove(0);
        proof {
            let done = porig.len() - prows@.len() - 1;
            assert(porig.skip(done)[0] == porig[done]);
            assert(porig.skip(done).remove(0) =~= porig.skip(done + 1));
        }
        out.push(ContractUpgradeChange::PackageUpgradeChange(row));
    }
    out
}

/// The module-list check agrees between the row-level fold and the
/// view-level pass.
proof fn lemma_first_missing_bridge(
    ms: Seq<ModuleOnChain>,
    p: PackageOnChain,
    mods: Map<Seq<char>, ModuleSrc>,
    v: i64,
)
    ensures
        match spec_modules_of_package(ms, p, mods, v) {
            Ok(_) => first_missing_module(modules_view(ms), mods.dom()) is None,
            Err(e) => first_missing_module(modules_view(ms), mods.dom()) == Some(e),
        },
    decreases ms.len(),
{
    if ms.len() > 0 {
        lemma_first_missing_bridge(ms.drop_last(), p, mods, v);
        assert(modules_view(ms).drop_last() =~= modules_view(ms.drop_last()));
        assert(modules_view(ms).last() == module_view(ms.last()));
    }
}

/// The module pass agrees between the row-level fold and the view-level
/// pass: it succeeds on the same inputs and raises the same error.
proof fn lemma_module_pass_bridge(
    ps: Seq<PackageOnChain>,
    mods: Map<Seq<char>, ModuleSrc>,
    v: i64,
)
    ensures
        match spec_all_module_rows(ps, mods, v) {
            Ok(_) => module_pass_error(packages_view(ps), mods.dom()) is None,
            Err(e) => module_pass_error(packages_view(ps), mods.dom()) == Some(e),
        },
    decreases ps.len(),
{
    if ps.len() > 0 {
        lemma_module_pass_bridge(ps.drop_last(), mods, v);
        lemma_first_missing_bridge(ps.last().modules@, ps.last(), mods, v);
        assert(packages_view(ps).drop_last() =~= packages_view(ps.drop_last()));
        assert(packages_view(ps).last() == package_view(ps.last()));
    }
}

/// Flattening parsed registries commutes with taking views.
proof fn lemma_flat_views(rs: Seq<PackageUpgradeChangeOnChain>)
    ensures
        packages_view(flat_packages(rs)) =~= flatten_registry_views(registries_views(rs)),
    decreases rs.len(),
{
    if rs.len() > 0 {
        lemma_flat_views(rs.drop_last());
        assert(registries_views(rs).drop_last() =~= registries_views(rs.drop_last()));
        assert(registries_views(rs).last() == packages_view(rs.last().packages@));
        assert(flat_packages(rs) == flat_packages(rs.drop_last()) + rs.last().packages@);
        assert(packages_view(flat_packages(rs.drop_last()) + rs.last().packages@)
            =~= packages_view(flat_packages(rs.drop_last())) + packages_view(
            rs.last().packages@,
        ));
    }
}

/// Correlates parsed registry writes with the collected module bytecode
/// writes: one module upgrade row per declared module, joined by name with
/// its bytecode write, and one package upgrade row per declared package;
/// module rows first, all stamped with the owning transaction version.
pub fn correlate_upgrades(
    registries: Vec<PackageUpgradeChangeOnChain>,
    modules: &KeyedVec<ModuleSrc>,
    contract_address: &str,
    txn_version: i64,
) -> (r: Result<Vec<ContractUpgradeChange>, PipelineError>)
    requires
        modules.wf(),
    ensures
        match r {
            Ok(out) => ({
                let ps = flat_packages(registries@);
                spec_all_module_rows(ps, modules@, txn_version) matches Ok(pairs) && {
                    &&& out@.len() == pairs.len() + ps.len()
                    &&& forall|k: int| 0 <= k < pairs.len() ==> {
                        &&& 0 <= (#[trigger] pairs[k]).0 < ps.len()
                        &&& out@[k] matches ContractUpgradeChange::ModuleUpgradeChange(mu)
                            && is_module_row(
                            mu,
                            pairs[k].1.0,
                            pairs[k].1.1,
                            ps[pairs[k].0],
                            contract_address@,
                            txn_version,
                        )
                    }
                    &&& forall|k: int| 0 <= k < ps.len() ==> ((#[trigger] out@[pairs.len()
                        + k]) matches ContractUpgradeChange::PackageUpgradeChange(pu)
                        && is_package_row(pu, ps[k], contract_address@, txn_version)
                        && good_upgrade_number(ps[k]))
                }
            }),
            Err(e) => spec_all_module_rows(flat_packages(registries@), modules@, txn_version)
                == Err::<Seq<(int, (ModuleOnChain, ModuleSrc))>, PipelineError>(e),
        },
{
    let ghost regs_view = registries@;
    let mut rest = registries;
    let mut flat: Vec<PackageOnChain> = Vec::new();
    let ghost mut done: int = 0;
    while rest.len() > 0
        invariant
            0 <= done <= regs_view.len(),
            rest@ == regs_view.skip(done),
            flat@ == flat_packages(regs_view.take(done)),
        decreases rest@.len(),
    {
        proof {
            assert(regs_view.skip(done)[0] == regs_view[done]);
            assert(regs_view.skip(done).remove(0) =~= regs_view.skip(done + 1));
            assert(regs_view.take(done + 1).drop_last() =~= regs_view.take(done));
            assert(regs_view.take(done + 1).last() == regs_view[done]);
        }
        let mut reg = rest.remove(0);
        flat.append(&mut reg.packages);
        proof {
            done = done + 1;
        }
    }
    proof {
        assert(regs_view.take(regs_view.len() as int) =~= regs_view);
    }
    let ghost fp = flat@;
    let n: usize = flat.len();
    let mut mrows: Vec<ModuleUpgrade> = Vec::new();
    let mut prows: Vec<PackageUpgrade> = Vec::new();
    let mut i: usize = 0;
    while i < n
        invariant
            i <= n,
            n == fp.len(),
            flat@ == fp,
            fp == flat_packages(registries@),
            modules.wf(),
            spec_all_module_rows(fp.take(i as int), modules@, txn_version) matches Ok(pairs) && {
                &&& mrows@.len() == pairs.len()
                &&& forall|k: int| 0 <= k < pairs.len() ==> {
                    &&& 0 <= (#[trigger] pairs[k]).0 < i
                    &&& is_module_row(
                        mrows@[k],
                        pairs[k].1.0,
                        pairs[k].1.1,
                        fp[pairs[k].0],
                        contract_address@,
                        txn_version,
                    )
                }
            },
            prows@.len() == i,
            forall|k: int| 0 <= k < i ==> is_package_row(
                #[trigger] prows@[k],
                fp[k],
                contract_address@,
                txn_version,
            ) && good_upgrade_number(fp[k]),
        decreases n - i,
    {
        proof {
            assert(fp.take(i + 1).drop_last() =~= fp.take(i as int));
            assert(fp.take(i + 1).last() == fp[i as int]);
        }
        let p: &PackageOnChain = &flat[i];
        let upgrade_number: i64 = match parse_i64_decimal(p.upgrade_number.as_str()) {
            Some(x) => x,
            None => {
                proof {
                    assert(!good_upgrade_number(fp[i as int]));
                    lemma_all_module_rows_err_persists(fp, modules@, txn_version, i + 1);
                }
                return Err(PipelineError::MalformedUpgradeNumber);
            },
        };
        assert(good_upgrade_number(fp[i as int]));
        let mn: usize = p.modules.len();
        let mut pmrows: Vec<ModuleUpgrade> = Vec::new();
        let mut mi: usize = 0;
        while mi < mn
            invariant
                mi <= mn,
                i < n,
                n == fp.len(),
                flat@ == fp,
                fp == flat_packages(registries@),
                modules.wf(),
                spec_all_module_rows(fp.take(i as int), modules@, txn_version) is Ok,
                *p == fp[i as int],
                mn == fp[i as int].modules@.len(),
                upgrade_number == signed_decimal_val(fp[i as int].upgrade_number@),
                good_upgrade_number(fp[i as int]),
                spec_modules_of_package(
                    fp[i as int].modules@.take(mi as int),
                    fp[i as int],
                    modules@,
                    txn_version,
                ) matches Ok(mpairs) && {
                    &&& pmrows@.len() == mpairs.len()
                    &&& forall|k: int| 0 <= k < mpairs.len() ==> is_module_row(
                        #[trigger] pmrows@[k],
                        mpairs[k].0,
                        mpairs[k].1,
                        fp[i as int],
                        contract_address@,
                        txn_version,
                    )
                },
            decreases mn - mi,
        {
            proof {
                let ms = fp[i as int].modules@;
                assert(ms.take(mi + 1).drop_last() =~= ms.take(mi as int));
                assert(ms.take(mi + 1).last() == ms[mi as int]);
            }
            let m: &ModuleOnChain = &p.modules[mi];
            match modules.get(m.name.as_str()) {
                None => {
                    proof {
                        let ms = fp[i as int].modules@;
                        assert(ms.take(mi + 1).drop_last() =~= ms.take(mi as int));
                        assert(ms.take(mi + 1).last() == ms[mi as int]);
                        lemma_modules_err_persists(
                            ms,
                            fp[i as int],
                            modules@,
                            txn_version,
                            mi + 1,
                        );
                        assert(fp.take(i + 1).drop_last() =~= fp.take(i as int));
                        assert(fp.take(i + 1).last() == fp[i as int]);
                        lemma_all_module_rows_err_persists(fp, modules@, txn_version, i + 1);
                    }
                    return Err(PipelineError::MissingModuleBytecode);
                },
                Some(src) => {
                    let row = ModuleUpgrade {
                        module_addr: contract_address.to_owned(),
                        module_name: m.name.clone(),
                        upgrade_number,
                        module_bytecode: copy_bytes(&src.bytecode),
                        module_source_code: m.source.clone(),
                        module_abi: src.abi_json.clone(),
                        tx_version: txn_version,
                    };
                    pmrows.push(row);
                },
            }
            mi = mi + 1;
        }
        proof {
            let ms = fp[i as int].modules@;
            assert(ms.take(mn as int) =~= ms);
        }
        let ghost old_pairs = choose|pairs: Seq<(int, (ModuleOnChain, ModuleSrc))>|
            spec_all_module_rows(fp.take(i as int), modules@, txn_version) == Ok::<
                Seq<(int, (ModuleOnChain, ModuleSrc))>,
                PipelineError,
            >(pairs);
        mrows.append(&mut pmrows);
        let prow = PackageUpgrade {
            package_addr: contract_address.to_owned(),
            package_name: p.name.clone(),
            upgrade_number,
            upgrade_policy: p.upgrade_policy.policy,
            package_manifest: p.manifest.clone(),
            source_digest: p.source_digest.clone(),
            tx_version: txn_version,
        };
        prows.push(prow);
        proof {
            let step = spec_all_module_rows(fp.take(i + 1), modules@, txn_version);
            assert(step is Ok);
            let new_pairs = step->Ok_0;
            assert forall|k: int| 0 <= k < new_pairs.len() implies {
                &&& 0 <= (#[trigger] new_pairs[k]).0 < i + 1
                &&& is_module_row(
                    mrows@[k],
                    new_pairs[k].1.0,
                    new_pairs[k].1.1,
                    fp[new_pairs[k].0],
                    contract_address@,
                    txn_version,
                )
            } by {
                if k >= old_pairs.len() {
                    assert(new_pairs[k] == (i as int, (new_pairs[k].1.0, new_pairs[k].1.1)));
                }
            }
        }
        i = i + 1;
    }
    proof {
        assert(fp.take(n as int) =~= fp);
    }
    let out = wrap_rows(mrows, prows);
    proof {
        let ps = flat_packages(registries@);
        assert(ps == fp);
        let pairs = spec_all_module_rows(ps, modules@, txn_version)->Ok_0;
        assert(out@.len() == pairs.len() + ps.len());
        assert forall|k: int| 0 <= k < ps.len() implies ((#[trigger] out@[pairs.len()
            + k]) matches ContractUpgradeChange::PackageUpgradeChange(pu) && is_package_row(
            pu,
            ps[k],
            contract_address@,
            txn_version,
        ) && good_upgrade_number(ps[k])) by {
            assert(out@[pairs.len() + k] == ContractUpgradeChange::PackageUpgradeChange(
                prows@[k],
            ));
        }
    }
    Ok(out)
}

/// `out` is a correlation of the write-set `changes`: the module sources
/// are exactly the bytecode writes at the contract address, and for some
/// sequence of parsed registry payloads, one per registry write, `out`
/// holds every declared module joined with its bytecode write, then every
/// declared package, in declaration order.
pub open spec fn correlated_changes_ok(
    contract: Seq<char>,
    changes: Seq<RawChange>,
    v: i64,
    out: Seq<ContractUpgradeChange>,
) -> bool {
    scan_changes_spec(changes, contract) matches Ok(acc) && {
        &&& module_pass_error(flatten_registry_views(acc.1), acc.0.dom()) is None
        &&& exists|regs: Seq<PackageUpgradeChangeOnChain>|
            {
                &&& #[trigger] registries_views(regs) == acc.1
                &&& ({
                    let ps = flat_packages(regs);
                    spec_all_module_rows(ps, acc.0, v) matches Ok(pairs) && {
                        &&& out.len() == pairs.len() + ps.len()
                        &&& forall|k: int| 0 <= k < pairs.len() ==> {
                            &&& 0 <= (#[trigger] pairs[k]).0 < ps.len()
                            &&& out[k] matches ContractUpgradeChange::ModuleUpgradeChange(mu)
                                && is_module_row(
                                mu,
                                pairs[k].1.0,
                                pairs[k].1.1,
                                ps[pairs[k].0],
                                contract,
                                v,
                            )
                        }
                        &&& forall|k: int| 0 <= k < ps.len() ==> ((#[trigger] out[pairs.len()
                            + k]) matches ContractUpgradeChange::PackageUpgradeChange(pu)
                            && is_package_row(pu, ps[k], contract, v) && good_upgrade_number(
                            ps[k],
                        ))
                    }
                })
            }
    }
}

impl ContractUpgradeChange {
    /// Scans a transaction's write-set changes for the contract's module
    /// bytecode writes and its package registry writes, then correlates
    /// them into upgrade records: module rows first, then package rows.
    ///
    /// Succeeds exactly when the scan and the module pass raise no fatal
    /// condition; the error returned is the first one raised.  On success
    /// the output is pinned to the parsed registry views, in write order.
    pub fn from_changes(
        contract_address: &str,
        txn_version: i64,
        changes: Vec<RawChange>,
    ) -> (r: Result<Vec<ContractUpgradeChange>, PipelineError>)
        ensures
            match r {
                Ok(out) => correlated_changes_ok(
                    contract_address@,
                    changes@,
                    txn_version,
                    out@,
                ),
                Err(e) => changes_error(changes@, contract_address@) == Some(e),
            },
    {
        let ghost orig = changes@;
        let mut rest = changes;
        let ghost mut processed: int = 0;
        let mut mods: KeyedVec<ModuleSrc> = KeyedVec::new();
        let mut registries: Vec<PackageUpgradeChangeOnChain> = Vec::new();
        proof {
            assert(registries_views(registries@) =~= Seq::<Seq<PackageV>>::empty());
            assert(mods@ =~= Map::<Seq<char>, ModuleSrc>::empty());
        }
        while rest.len() > 0
            invariant
                orig == changes@,
                0 <= processed <= orig.len(),
                rest@ == orig.skip(processed),
                mods.wf(),
                scan_changes_spec(orig.take(processed), contract_address@) == Ok::<
                    (Map<Seq<char>, ModuleSrc>, Seq<Seq<PackageV>>),
                    PipelineError,
                >((mods@, registries_views(registries@))),
            decreases rest@.len(),
        {
            proof {
                assert(orig.skip(processed)[0] == orig[processed]);
                assert(orig.skip(processed).remove(0) =~= orig.skip(processed + 1));
                assert(orig.take(processed + 1).drop_last() =~= orig.take(processed));
                assert(orig.take(processed + 1).last() == orig[processed]);
            }
            let c = rest.remove(0);
            match c {
                RawChange::ModuleWrite(w) => {
                    let written_at: String = standardize_address(w.address.as_str());
                    if str_eq(written_at.as_str(), contract_address) {
                        match w.data {
                            None => {
                                proof {
                                    lemma_scan_changes_err_persists(
                                        orig,
                                        contract_address@,
                                        processed + 1,
                                    );
                                }
                                return Err(PipelineError::MissingModuleData);
                            },
                            Some(d) => match d.abi {
                                None => {
                                    proof {
                                        lemma_scan_changes_err_persists(
                                            orig,
                                            contract_address@,
                                            processed + 1,
                                        );
                                    }
                                    return Err(PipelineError::MissingModuleAbi);
                                },
                                Some(abi) => {
                                    mods.upsert(
                                        ModuleSrc {
                                            name: abi.name,
                                            bytecode: d.bytecode,
                                            abi_json: abi.abi_json,
                                        },
                                    );
                                },
                            },
                        }
                    }
                },
                RawChange::ResourceWrite(w) => {
                    let written_at: String = standardize_address(w.address.as_str());
                    if str_eq(written_at.as_str(), contract_address) && str_eq(
                        w.type_str.as_str(),
                        "0x1::code::PackageRegistry",
                    ) {
                        match parse_package_registry(w.data.as_str()) {
                            None => {
                                proof {
                                    lemma_scan_changes_err_persists(
                                        orig,
                                        contract_address@,
                                        processed + 1,
                                    );
                                }
                                return Err(PipelineError::MalformedRegistryPayload);
                            },
                            Some(reg) => {
                                let ghost prev_regs = registries@;
                                registries.push(reg);
                                proof {
                                    assert(registries_views(registries@).drop_last()
                                        =~= registries_views(prev_regs));
                                    assert(registries_views(registries@) =~= registries_views(
                                        prev_regs,
                                    ).push(packages_view(reg.packages@)));
                                }
                            },
                        }
                    }
                },
                RawChange::Other => (),
            }
            proof {
                processed = processed + 1;
            }
        }
        proof {
            assert(orig.take(processed) =~= orig);
        }
        let ghost regs = registries@;
        let ghost mods_map = mods@;
        match correlate_upgrades(registries, &mods, contract_address, txn_version) {
            Err(e) => {
                proof {
                    lemma_module_pass_bridge(flat_packages(regs), mods_map, txn_version);
                    lemma_flat_views(regs);
                }
                Err(e)
            },
            Ok(out) => {
                proof {
                    lemma_module_pass_bridge(flat_packages(regs), mods_map, txn_version);
                    lemma_flat_views(regs);
                    assert(registries_views(regs) == registries_views(regs));
                }
                Ok(out)
            },
        }
    }
}

/// Correlation completeness: a registry declaring a module with no
/// bytecode write must raise the fatal correlation error, never silently
/// drop the module.
pub proof fn lemma_correlation_completeness(
    ps: Seq<PackageOnChain>,
    mods: Map<Seq<char>, ModuleSrc>,
    v: i64,
    i: int,
    j: int,
)
    requires
        0 <= i < ps.len(),
        0 <= j < ps[i].modules@.len(),
        !mods.contains_key(ps[i].modules@[j].name@),
    ensures
        spec_all_module_rows(ps, mods, v) is Err,
{
    lemma_all_module_rows_ok_iff(ps, mods, v);
}

} // verus!
