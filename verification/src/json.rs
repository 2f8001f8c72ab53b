//! Reading the JSON payloads that events and the package registry carry.
//!
//! The JSON tree is modelled: `json_parsed` names what `serde_json` reads
//! out of a text (a deterministic function of the text alone), `json_tree`
//! names the tree a parsed value holds, and each trusted accessor below
//! says what it returns in terms of that tree.  The walkers that assemble
//! typed payload values are then verified, so `message_payload_of` and
//! `registry_of` pin the parse results that the extraction and
//! correlation contracts build on.

use vstd::prelude::*;
use vstd::string::*;

use crate::upgrade::ModuleOnChain;
use crate::upgrade::ModuleV;
use crate::upgrade::module_view;
use crate::upgrade::modules_view;
use crate::upgrade::PackageOnChain;
use crate::upgrade::PackageV;
use crate::upgrade::package_view;
use crate::upgrade::packages_view;
use crate::upgrade::PackageUpgradeChangeOnChain;
use crate::upgrade::UpgradePolicyOnChain;
use crate::message::MessageOnChain;

verus! {

#[verifier::external_type_specification]
#[verifier::external_body]
pub struct ExJsonValue(serde_json::Value);

/// The modelled shape of a JSON tree: what the trusted accessors below
/// read out of a `serde_json` value.  A number node carries its value
/// when `serde_json` reads it as an `i64` — a JSON integer within `i64`
/// range — and nothing for any other number.
pub enum JsonNode {
    Null,
    Truth(bool),
    Num(Option<i64>),
    Text(Seq<char>),
    Items(Seq<JsonNode>),
    Fields(Map<Seq<char>, JsonNode>),
}

/// The tree a parsed JSON value holds.
pub uninterp spec fn json_tree(v: serde_json::Value) -> JsonNode;

/// What parsing a text yields: the tree of the document when the text is
/// valid JSON, nothing otherwise.  The result depends on the text alone.
pub uninterp spec fn json_parsed(s: Seq<char>) -> Option<JsonNode>;

/// Relies on serde_json::from_str: reads a JSON document, or nothing when
/// the text is not valid JSON; the parse is a function of the text alone.
#[verifier::external_body]
fn json_parse(text: &str) -> (r: Option<serde_json::Value>)
    ensures
        match r {
            Some(v) => json_parsed(text@) == Some(json_tree(v)),
            None => json_parsed(text@) is None,
        },
{
    serde_json::from_str::<serde_json::Value>(text).ok()
}

/// Relies on serde_json::Value::get with a string index: the value under
/// a key of a JSON object, or nothing when the node is no object or lacks
/// the key.
#[verifier::external_body]
fn json_get<'a>(v: &'a serde_json::Value, key: &str) -> (r: Option<&'a serde_json::Value>)
    ensures
        match r {
            Some(c) => json_tree(*v) matches JsonNode::Fields(m) && m.contains_key(key@)
                && json_tree(*c) == m[key@],
            None => !(json_tree(*v) matches JsonNode::Fields(m) && m.contains_key(key@)),
        },
{
    v.get(key)
}

/// Relies on serde_json::Value::as_str: the content of a JSON string
/// node, nothing for any other node.
#[verifier::external_body]
fn json_as_string(v: &serde_json::Value) -> (r: Option<String>)
    ensures
        match r {
            Some(s) => json_tree(*v) == JsonNode::Text(s@),
            None => !(json_tree(*v) is Text),
        },
{
    v.as_str().map(str::to_owned)
}

/// Relies on serde_json::Value::as_i64: the value of a JSON number node
/// when it denotes an `i64`, nothing otherwise.
#[verifier::external_body]
fn json_as_i64(v: &serde_json::Value) -> (r: Option<i64>)
    ensures
        match r {
            Some(n) => json_tree(*v) == JsonNode::Num(Some(n)),
            None => !(json_tree(*v) matches JsonNode::Num(x) && x is Some),
        },
{
    v.as_i64()
}

/// Relies on serde_json::Value::as_array: the elements of a JSON array
/// node, nothing for any other node.
#[verifier::external_body]
fn json_as_array<'a>(v: &'a serde_json::Value) -> (r: Option<&'a Vec<serde_json::Value>>)
    ensures
        match r {
            Some(a) => json_tree(*v) matches JsonNode::Items(elems) && a@.len() == elems.len()
                && forall|i: int| 0 <= i < elems.len() ==> json_tree(#[trigger] a@[i]) == elems[i],
            None => !(json_tree(*v) is Items),
        },
{
    v.as_array()
}

/// The child under a key of an object node, if any.
pub open spec fn field_of(n: JsonNode, k: Seq<char>) -> Option<JsonNode> {
    match n {
        JsonNode::Fields(m) => if m.contains_key(k) {
            Some(m[k])
        } else {
            None
        },
        _ => None,
    }
}

/// The content of a string node, if it is one.
pub open spec fn text_of(n: JsonNode) -> Option<Seq<char>> {
    match n {
        JsonNode::Text(t) => Some(t),
        _ => None,
    }
}

/// The text under a key of an object node, if any.
pub open spec fn text_field(n: JsonNode, k: Seq<char>) -> Option<Seq<char>> {
    match field_of(n, k) {
        Some(c) => text_of(c),
        None => None,
    }
}

/// The `i64` number under a key of an object node, if any.
pub open spec fn int_field(n: JsonNode, k: Seq<char>) -> Option<i64> {
    match field_of(n, k) {
        Some(c) => match c {
            JsonNode::Num(x) => x,
            _ => None,
        },
        None => None,
    }
}

/// The fields of a message event payload: the subject address and the
/// four message fields, every one a JSON string.
pub struct MessagePayloadV {
    pub message_obj_addr: Seq<char>,
    pub creator: Seq<char>,
    pub content: Seq<char>,
    pub creation_timestamp: Seq<char>,
    pub last_update_timestamp: Seq<char>,
}

/// What a message event payload text denotes: its fields when the text is
/// valid JSON of the required shape, nothing otherwise.
pub open spec fn message_payload_of(s: Seq<char>) -> Option<MessagePayloadV> {
    match json_parsed(s) {
        None => None,
        Some(root) => match (
            text_field(root, "message_obj_addr"@),
            field_of(root, "message"@),
        ) {
            (Some(obj_addr), Some(message)) => match (
                text_field(message, "creator"@),
                text_field(message, "content"@),
                text_field(message, "creation_timestamp"@),
                text_field(message, "last_update_timestamp"@),
            ) {
                (Some(creator), Some(content), Some(creation), Some(update)) => Some(
                    MessagePayloadV {
                        message_obj_addr: obj_addr,
                        creator,
                        content,
                        creation_timestamp: creation,
                        last_update_timestamp: update,
                    },
                ),
                _ => None,
            },
            _ => None,
        },
    }
}

/// Reads a message event payload: the subject address and the message
/// fields, exactly as `message_payload_of` denotes them.
pub fn parse_message_event_payload(data: &str) -> (r: Option<(String, MessageOnChain)>)
    ensures
        match r {
            Some(p) => message_payload_of(data@) == Some(
                MessagePayloadV {
                    message_obj_addr: p.0@,
                    creator: p.1.creator@,
                    content: p.1.content@,
                    creation_timestamp: p.1.creation_timestamp@,
                    last_update_timestamp: p.1.last_update_timestamp@,
                },
            ),
            None => message_payload_of(data@) is None,
        },
{
    let root: serde_json::Value = match json_parse(data) {
        Some(v) => v,
        None => {
            return None;
        },
    };
    let message_obj_addr: String = match json_get(&root, "message_obj_addr") {
        Some(v) => match json_as_string(v) {
            Some(s) => s,
            None => {
                return None;
            },
        },
        None => {
            return None;
        },
    };
    let message_node: &serde_json::Value = match json_get(&root, "message") {
        Some(v) => v,
        None => {
            return None;
        },
    };
    let creator: String = match json_get(message_node, "creator") {
        Some(v) => match json_as_string(v) {
            Some(s) => s,
            None => {
                return None;
            },
        },
        None => {
            return None;
        },
    };
    let content: String = match json_get(message_node, "content") {
        Some(v) => match json_as_string(v) {
            Some(s) => s,
            None => {
                return None;
            },
        },
        None => {
            return None;
        },
    };
    let creation_timestamp: String = match json_get(message_node, "creation_timestamp") {
        Some(v) => match json_as_string(v) {
            Some(s) => s,
            None => {
                return None;
            },
        },
        None => {
            return None;
        },
    };
    let last_update_timestamp: String = match json_get(message_node, "last_update_timestamp") {
        Some(v) => match json_as_string(v) {
            Some(s) => s,
            None => {
                return None;
            },
        },
        None => {
            return None;
        },
    };
    Some(
        (
            message_obj_addr,
            MessageOnChain { creator, content, creation_timestamp, last_update_timestamp },
        ),
    )
}

/// What a module entry node denotes: its name and source text.
pub open spec fn module_of(n: JsonNode) -> Option<ModuleV> {
    match (text_field(n, "name"@), text_field(n, "source"@)) {
        (Some(name), Some(source)) => Some(ModuleV { name, source }),
        _ => None,
    }
}

/// What a module entry list denotes; one unreadable entry spoils the
/// list.
pub open spec fn modules_of(ns: Seq<JsonNode>) -> Option<Seq<ModuleV>>
    decreases ns.len(),
{
    if ns.len() == 0 {
        Some(Seq::empty())
    } else {
        match modules_of(ns.drop_last()) {
            None => None,
            Some(ms) => match module_of(ns.last()) {
                None => None,
                Some(m) => Some(ms.push(m)),
            },
        }
    }
}

/// What a package entry node denotes: its scalar fields, policy and
/// module list.
pub open spec fn package_of(n: JsonNode) -> Option<PackageV> {
    match (
        text_field(n, "manifest"@),
        text_field(n, "name"@),
        text_field(n, "source_digest"@),
        text_field(n, "upgrade_number"@),
    ) {
        (Some(manifest), Some(name), Some(source_digest), Some(upgrade_number)) => match (
            field_of(n, "upgrade_policy"@),
            field_of(n, "modules"@),
        ) {
            (Some(policy_node), Some(modules_node)) => match (
                int_field(policy_node, "policy"@),
                modules_node,
            ) {
                (Some(policy), JsonNode::Items(elems)) => match modules_of(elems) {
                    None => None,
                    Some(modules) => Some(
                        PackageV {
                            manifest,
                            name,
                            source_digest,
                            upgrade_number,
                            policy,
                            modules,
                        },
                    ),
                },
                _ => None,
            },
            _ => None,
        },
        _ => None,
    }
}

/// What a package entry list denotes; one unreadable entry spoils the
/// list.
pub open spec fn packages_of(ns: Seq<JsonNode>) -> Option<Seq<PackageV>>
    decreases ns.len(),
{
    if ns.len() == 0 {
        Some(Seq::empty())
    } else {
        match packages_of(ns.drop_last()) {
            None => None,
            Some(ps) => match package_of(ns.last()) {
                None => None,
                Some(p) => Some(ps.push(p)),
            },
        }
    }
}

/// What a package registry payload text denotes: its declared packages
/// when the text is valid JSON of the required shape, nothing otherwise.
pub open spec fn registry_of(s: Seq<char>) -> Option<Seq<PackageV>> {
    match json_parsed(s) {
        None => None,
        Some(root) => match field_of(root, "packages"@) {
            None => None,
            Some(pn) => match pn {
                JsonNode::Items(elems) => packages_of(elems),
                _ => None,
            },
        },
    }
}

/// One unreadable module entry spoils every longer prefix of the list.
proof fn lemma_modules_of_none(ns: Seq<JsonNode>, j: int)
    requires
        0 <= j <= ns.len(),
        modules_of(ns.take(j)) is None,
    ensures
        modules_of(ns) is None,
    decreases ns.len() - j,
{
    if j == ns.len() {
        assert(ns.take(j) =~= ns);
    } else {
        assert(ns.take(j + 1).drop_last() =~= ns.take(j));
        lemma_modules_of_none(ns, j + 1);
    }
}

/// One unreadable package entry spoils every longer prefix of the list.
proof fn lemma_packages_of_none(ns: Seq<JsonNode>, j: int)
    requires
        0 <= j <= ns.len(),
        packages_of(ns.take(j)) is None,
    ensures
        packages_of(ns) is None,
    decreases ns.len() - j,
{
    if j == ns.len() {
        assert(ns.take(j) =~= ns);
    } else {
        assert(ns.take(j + 1).drop_last() =~= ns.take(j));
        lemma_packages_of_none(ns, j + 1);
    }
}

/// Reads one module declaration of a package: its name and source text,
/// exactly as `module_of` denotes them.
fn parse_module_entry(v: &serde_json::Value) -> (r: Option<ModuleOnChain>)
    ensures
        match r {
            Some(m) => module_of(json_tree(*v)) == Some(module_view(m)),
            None => module_of(json_tree(*v)) is None,
        },
{
    let name: String = match json_get(v, "name") {
        Some(n) => match json_as_string(n) {
            Some(s) => s,
            None => {
                return None;
            },
        },
        None => {
            return None;
        },
    };
    let source: String = match json_get(v, "source") {
        Some(n) => match json_as_string(n) {
            Some(s) => s,
            None => {
                return None;
            },
        },
        None => {
            return None;
        },
    };
    Some(ModuleOnChain { name, source })
}

/// Reads one declared package, exactly as `package_of` denotes it.
fn parse_package_entry(v: &serde_json::Value) -> (r: Option<PackageOnChain>)
    ensures
        match r {
            Some(p) => package_of(json_tree(*v)) == Some(package_view(p)),
            None => package_of(json_tree(*v)) is None,
        },
{
    let manifest: String = match json_get(v, "manifest") {
        Some(n) => match json_as_string(n) {
            Some(s) => s,
            None => {
                return None;
            },
        },
        None => {
            return None;
        },
    };
    let name: String = match json_get(v, "name") {
        Some(n) => match json_as_string(n) {
            Some(s) => s,
            None => {
                return None;
            },
        },
        None => {
            return None;
        },
    };
    let source_digest: String = match json_get(v, "source_digest") {
        Some(n) => match json_as_string(n) {
            Some(s) => s,
            None => {
                return None;
            },
        },
        None => {
            return None;
        },
    };
    let upgrade_number: String = match json_get(v, "upgrade_number") {
        Some(n) => match json_as_string(n) {
            Some(s) => s,
            None => {
                return None;
            },
        },
        None => {
            return None;
        },
    };
    let policy: i64 = match json_get(v, "upgrade_policy") {
        Some(n) => match json_get(n, "policy") {
            Some(p) => match json_as_i64(p) {
                Some(x) => x,
                None => {
                    return None;
                },
            },
            None => {
                return None;
            },
        },
        None => {
            return None;
        },
    };
    let modules_node: &serde_json::Value = match json_get(v, "modules") {
        Some(n) => n,
        None => {
            return None;
        },
    };
    let module_entries: &Vec<serde_json::Value> = match json_as_array(modules_node) {
        Some(a) => a,
        None => {
            return None;
        },
    };
    let ghost elems = json_tree(*modules_node)->Items_0;
    let mut modules: Vec<ModuleOnChain> = Vec::new();
    let n: usize = module_entries.len();
    let mut i: usize = 0;
    while i < n
        invariant
            i <= n,
            n == module_entries@.len(),
            n == elems.len(),
            forall|j: int| 0 <= j < elems.len() ==> json_tree(#[trigger] module_entries@[j])
                == elems[j],
            modules_of(elems.take(i as int)) == Some(modules_view(modules@)),
            package_of(json_tree(*v)) == (match modules_of(elems) {
                None => None::<PackageV>,
                Some(ms) => Some(
                    PackageV {
                        manifest: manifest@,
                        name: name@,
                        source_digest: source_digest@,
                        upgrade_number: upgrade_number@,
                        policy: policy,
                        modules: ms,
                    },
                ),
            }),
        decreases n - i,
    {
        proof {
            assert(elems.take(i + 1).drop_last() =~= elems.take(i as int));
            assert(elems.take(i + 1).last() == elems[i as int]);
        }
        let m: Option<ModuleOnChain> = parse_module_entry(&module_entries[i]);
        match m {
            Some(module) => {
                modules.push(module);
                proof {
                    assert(modules_view(modules@).drop_last() =~= modules_view(
                        modules@.drop_last(),
                    ));
                    assert(modules_view(modules@) =~= modules_view(modules@.drop_last()).push(
                        module_view(modules@.last()),
                    ));
                }
            },
            None => {
                proof {
                    lemma_modules_of_none(elems, i + 1);
                }
                return None;
            },
        }
        i = i + 1;
    }
    proof {
        assert(elems.take(n as int) =~= elems);
    }
    Some(
        PackageOnChain {
            manifest,
            modules,
            name,
            source_digest,
            upgrade_number,
            upgrade_policy: UpgradePolicyOnChain { policy },
        },
    )
}

/// Reads a package registry resource payload: the list of declared
/// packages, exactly as `registry_of` denotes it.
pub fn parse_package_registry(data: &str) -> (r: Option<PackageUpgradeChangeOnChain>)
    ensures
        match r {
            Some(reg) => registry_of(data@) == Some(packages_view(reg.packages@)),
            None => registry_of(data@) is None,
        },
{
    let root: serde_json::Value = match json_parse(data) {
        Some(v) => v,
        None => {
            return None;
        },
    };
    let packages_node: &serde_json::Value = match json_get(&root, "packages") {
        Some(v) => v,
        None => {
            return None;
        },
    };
    let package_entries: &Vec<serde_json::Value> = match json_as_array(packages_node) {
        Some(a) => a,
        None => {
            return None;
        },
    };
    let ghost elems = json_tree(*packages_node)->Items_0;
    let mut packages: Vec<PackageOnChain> = Vec::new();
    let n: usize = package_entries.len();
    let mut i: usize = 0;
    while i < n
        invariant
            i <= n,
            n == package_entries@.len(),
            n == elems.len(),
            forall|j: int| 0 <= j < elems.len() ==> json_tree(#[trigger] package_entries@[j])
                == elems[j],
            packages_of(elems.take(i as int)) == Some(packages_view(packages@)),
            registry_of(data@) == packages_of(elems),
        decreases n - i,
    {
        proof {
            assert(elems.take(i + 1).drop_last() =~= elems.take(i as int));
            assert(elems.take(i + 1).last() == elems[i as int]);
        }
        let p: Option<PackageOnChain> = parse_package_entry(&package_entries[i]);
        match p {
            Some(package) => {
                packages.push(package);
                proof {
                    assert(packages_view(packages@).drop_last() =~= packages_view(
                        packages@.drop_last(),
                    ));
                    assert(packages_view(packages@) =~= packages_view(packages@.drop_last()).push(
                        package_view(packages@.last()),
                    ));
                }
            },
            None => {
                proof {
                    lemma_packages_of_none(elems, i + 1);
                }
                return None;
            },
        }
        i = i + 1;
    }
    proof {
        assert(elems.take(n as int) =~= elems);
    }
    Some(PackageUpgradeChangeOnChain { packages })
}

} // verus!
