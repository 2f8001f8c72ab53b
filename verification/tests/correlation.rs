use indexer::changes::ContractUpgradeChange;
use indexer::errors::PipelineError;
use indexer::extractor::split_changes;
use indexer::json::parse_package_registry;
use indexer::raw::RawChange;
use indexer::raw::RawModuleAbi;
use indexer::raw::RawModuleBytecode;
use indexer::raw::RawModuleWrite;
use indexer::raw::RawResourceWrite;
use indexer::upgrade::PackageUpgradeChangeOnChain;

const CONTRACT: &str = "0x0000000000000000000000000000000000000000000000000000000000000123";

fn registry_payload(module_name: &str) -> String {
    format!(
        "{{\"packages\":[{{\"manifest\":\"m-toml\",\"modules\":[{{\"name\":\"{}\",\
         \"source\":\"0x\"}}],\"name\":\"pkg\",\"source_digest\":\"digest\",\
         \"upgrade_number\":\"3\",\"upgrade_policy\":{{\"policy\":1}}}}]}}",
        module_name
    )
}

fn module_write(name: &str) -> RawChange {
    RawChange::ModuleWrite(RawModuleWrite {
        address: String::from("0x123"),
        data: Some(RawModuleBytecode {
            bytecode: vec![1, 2, 3],
            abi: Some(RawModuleAbi {
                name: String::from(name),
                abi_json: String::from("{\"name\":\"board\"}"),
            }),
        }),
    })
}

fn registry_write(module_name: &str) -> RawChange {
    RawChange::ResourceWrite(RawResourceWrite {
        address: String::from("0x123"),
        type_str: String::from("0x1::code::PackageRegistry"),
        data: registry_payload(module_name),
    })
}

#[test]
fn registry_payload_parses() {
    let reg: PackageUpgradeChangeOnChain =
        parse_package_registry(&registry_payload("board")).expect("registry must parse");
    assert_eq!(reg.packages.len(), 1);
    assert_eq!(reg.packages[0].name, "pkg");
    assert_eq!(reg.packages[0].upgrade_number, "3");
    assert_eq!(reg.packages[0].upgrade_policy.policy, 1);
    assert_eq!(reg.packages[0].modules.len(), 1);
    assert_eq!(reg.packages[0].modules[0].name, "board");
}

#[test]
fn registry_parser_rejects_other_shapes() {
    assert!(parse_package_registry("nope").is_none());
    assert!(parse_package_registry("{\"packages\":7}").is_none());
}

#[test]
fn correlation_joins_module_and_package_rows() {
    let changes = vec![module_write("board"), registry_write("board")];
    let out = ContractUpgradeChange::from_changes(CONTRACT, 42, changes)
        .expect("correlation must succeed");
    assert_eq!(out.len(), 2);
    let (modules, packages) = split_changes(out);
    assert_eq!(modules.len(), 1);
    assert_eq!(packages.len(), 1);
    let m = &modules[0];
    assert_eq!(m.module_addr, CONTRACT);
    assert_eq!(m.module_name, "board");
    assert_eq!(m.upgrade_number, 3);
    assert_eq!(m.module_bytecode, vec![1, 2, 3]);
    assert_eq!(m.module_source_code, "0x");
    assert_eq!(m.module_abi, "{\"name\":\"board\"}");
    assert_eq!(m.tx_version, 42);
    let p = &packages[0];
    assert_eq!(p.package_addr, CONTRACT);
    assert_eq!(p.package_name, "pkg");
    assert_eq!(p.upgrade_number, 3);
    assert_eq!(p.upgrade_policy, 1);
    assert_eq!(p.package_manifest, "m-toml");
    assert_eq!(p.source_digest, "digest");
    assert_eq!(p.tx_version, 42);
}

#[test]
fn declared_module_without_bytecode_is_fatal() {
    let changes = vec![registry_write("board")];
    assert_eq!(
        ContractUpgradeChange::from_changes(CONTRACT, 42, changes),
        Err(PipelineError::MissingModuleBytecode)
    );
}

#[test]
fn bytecode_under_wrong_name_is_still_fatal() {
    let changes = vec![module_write("other"), registry_write("board")];
    assert_eq!(
        ContractUpgradeChange::from_changes(CONTRACT, 42, changes),
        Err(PipelineError::MissingModuleBytecode)
    );
}

#[test]
fn module_write_without_data_is_fatal() {
    let changes = vec![RawChange::ModuleWrite(RawModuleWrite {
        address: String::from("0x123"),
        data: None,
    })];
    assert_eq!(
        ContractUpgradeChange::from_changes(CONTRACT, 1, changes),
        Err(PipelineError::MissingModuleData)
    );
}

#[test]
fn module_write_without_abi_is_fatal() {
    let changes = vec![RawChange::ModuleWrite(RawModuleWrite {
        address: String::from("0x123"),
        data: Some(RawModuleBytecode { bytecode: vec![], abi: None }),
    })];
    assert_eq!(
        ContractUpgradeChange::from_changes(CONTRACT, 1, changes),
        Err(PipelineError::MissingModuleAbi)
    );
}

#[test]
fn unreadable_registry_payload_is_fatal() {
    let changes = vec![RawChange::ResourceWrite(RawResourceWrite {
        address: String::from("0x123"),
        type_str: String::from("0x1::code::PackageRegistry"),
        data: String::from("{broken"),
    })];
    assert_eq!(
        ContractUpgradeChange::from_changes(CONTRACT, 1, changes),
        Err(PipelineError::MalformedRegistryPayload)
    );
}

#[test]
fn malformed_upgrade_number_is_fatal() {
    let payload = String::from(
        "{\"packages\":[{\"manifest\":\"m\",\"modules\":[],\"name\":\"pkg\",\
         \"source_digest\":\"d\",\"upgrade_number\":\"three\",\
         \"upgrade_policy\":{\"policy\":1}}]}",
    );
    let changes = vec![RawChange::ResourceWrite(RawResourceWrite {
        address: String::from("0x123"),
        type_str: String::from("0x1::code::PackageRegistry"),
        data: payload,
    })];
    assert_eq!(
        ContractUpgradeChange::from_changes(CONTRACT, 1, changes),
        Err(PipelineError::MalformedUpgradeNumber)
    );
}

#[test]
fn foreign_writes_are_ignored() {
    let foreign_module = RawChange::ModuleWrite(RawModuleWrite {
        address: String::from("0x999"),
        data: None,
    });
    let foreign_registry = RawChange::ResourceWrite(RawResourceWrite {
        address: String::from("0x999"),
        type_str: String::from("0x1::code::PackageRegistry"),
        data: String::from("{broken"),
    });
    let wrong_type = RawChange::ResourceWrite(RawResourceWrite {
        address: String::from("0x123"),
        type_str: String::from("0x1::code::SomethingElse"),
        data: String::from("{broken"),
    });
    let out = ContractUpgradeChange::from_changes(
        CONTRACT,
        1,
        vec![foreign_module, foreign_registry, wrong_type, RawChange::Other],
    )
    .expect("foreign writes must be ignored");
    assert_eq!(out.len(), 0);
}

#[test]
fn to_db_package_upgrade_reads_declared_packages() {
    let reg = parse_package_registry(&registry_payload("board")).expect("must parse");
    let rows = reg
        .to_db_package_upgrade(9, String::from(CONTRACT))
        .expect("well-formed registry must convert");
    assert_eq!(rows.len(), 1);
    assert_eq!(rows[0].package_name, "pkg");
    assert_eq!(rows[0].upgrade_number, 3);
    assert_eq!(rows[0].tx_version, 9);
}

#[test]
fn to_db_package_upgrade_rejects_bad_number() {
    let mut reg = parse_package_registry(&registry_payload("board")).expect("must parse");
    reg.packages[0].upgrade_number = String::from("not-a-number");
    assert_eq!(
        reg.to_db_package_upgrade(9, String::from(CONTRACT)),
        Err(PipelineError::MalformedUpgradeNumber)
    );
}

#[test]
fn module_writes_without_a_registry_write_yield_nothing() {
    let out = ContractUpgradeChange::from_changes(CONTRACT, 5, vec![module_write("board")])
        .expect("a lone bytecode write is not fatal");
    assert_eq!(out.len(), 0);
}
