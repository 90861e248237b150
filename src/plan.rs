//! The fixed catalog of on-chain relationships to check, and the plan that
//! resolves it against one network pair's anchor contracts.
use vstd::prelude::*;
use vstd::string::StringSliceAdditionalSpecFns;
use crate::abi::{selector, selector_of, ReturnShape};
use crate::address::{address_of_text, parse_address, Address};
use crate::registry::{find_contract_address, lookup, networks_view, Network, NetworkView};

verus! {

/// Which section of the document is authoritative for a check's address.
#[derive(Clone, Copy, Debug, PartialEq, Eq, Structural)]
pub enum Side {
    /// The configuration network (L1).
    Config,
    /// The network that is operated (L2).
    Operated,
}

/// One relationship of the catalog: the contract that is asked (an anchor, by
/// index), the view function, its optional `uint32` argument and the shape of
/// its return, and where the document records the answer.
pub struct CheckRow {
    pub name: &'static str,
    pub label: &'static str,
    pub side: Side,
    pub signature: &'static str,
    pub game_type: Option<u32>,
    pub returns: ReturnShape,
    pub target: usize,
}

pub const SYSTEM_CONFIG: &'static str = "SystemConfig";
pub const DISPUTE_GAME_FACTORY: &'static str = "DisputeGameFactoryProxy";
pub const FAULT_DISPUTE_GAME: &'static str = "FaultDisputeGame";
pub const PERMISSIONED_DISPUTE_GAME: &'static str = "PermissionedDisputeGame";
pub const MIPS: &'static str = "MIPS";

/// The labels of the anchor contracts, in the order they are resolved.
pub open spec fn anchor_labels() -> Seq<Seq<char>> {
    seq![
        SYSTEM_CONFIG@,
        DISPUTE_GAME_FACTORY@,
        FAULT_DISPUTE_GAME@,
        PERMISSIONED_DISPUTE_GAME@,
        MIPS@,
    ]
}

pub fn anchor_label_list() -> (r: Vec<&'static str>)
    ensures
        r@.len() == 5,
        forall|i: int| 0 <= i < 5 ==> (#[trigger] r@[i])@ == anchor_labels()[i],
{
    vec![SYSTEM_CONFIG, DISPUTE_GAME_FACTORY, FAULT_DISPUTE_GAME, PERMISSIONED_DISPUTE_GAME, MIPS]
}

pub open spec fn catalog_spec() -> Seq<CheckRow> {
    seq![
        CheckRow { name: "Batch Inbox", label: "Batch Inbox", side: Side::Operated, signature: "batchInbox()", game_type: None, returns: ReturnShape::Address, target: 0 },
        CheckRow { name: "DisputeGameFactory", label: "DisputeGameFactoryProxy", side: Side::Config, signature: "disputeGameFactory()", game_type: None, returns: ReturnShape::Address, target: 0 },
        CheckRow { name: "Fault Dispute Game", label: "FaultDisputeGame", side: Side::Config, signature: "gameImpls(uint32)", game_type: Some(0), returns: ReturnShape::Address, target: 1 },
        CheckRow { name: "Permissioned Dispute Game", label: "PermissionedDisputeGame", side: Side::Config, signature: "gameImpls(uint32)", game_type: Some(1), returns: ReturnShape::Address, target: 1 },
        CheckRow { name: "Challenger", label: "Challenger", side: Side::Operated, signature: "challenger()", game_type: None, returns: ReturnShape::Address, target: 3 },
        CheckRow { name: "Proposer", label: "Output Proposer", side: Side::Operated, signature: "proposer()", game_type: None, returns: ReturnShape::Address, target: 3 },
        CheckRow { name: "Guardian", label: "Guardian", side: Side::Operated, signature: "guardian()", game_type: None, returns: ReturnShape::Address, target: 0 },
        CheckRow { name: "L1CrossDomainMessenger", label: "L1CrossDomainMessenger", side: Side::Config, signature: "l1CrossDomainMessenger()", game_type: None, returns: ReturnShape::Address, target: 0 },
        CheckRow { name: "L1ERC721Bridge", label: "L1ERC721Bridge", side: Side::Config, signature: "l1ERC721Bridge()", game_type: None, returns: ReturnShape::Address, target: 0 },
        CheckRow { name: "L1StandardBridge", label: "L1StandardBridge", side: Side::Config, signature: "l1StandardBridge()", game_type: None, returns: ReturnShape::Address, target: 0 },
        CheckRow { name: "OptimismMintableERC20Factory", label: "OptimismMintableERC20Factory", side: Side::Config, signature: "optimismMintableERC20Factory()", game_type: None, returns: ReturnShape::Address, target: 0 },
        CheckRow { name: "OptimismPortal", label: "OptimismPortal", side: Side::Config, signature: "optimismPortal()", game_type: None, returns: ReturnShape::Address, target: 0 },
        CheckRow { name: "ProxyAdmin", label: "ProxyAdmin", side: Side::Config, signature: "proxyAdmin()", game_type: None, returns: ReturnShape::Address, target: 0 },
        CheckRow { name: "Proxy Admin Owner", label: "Proxy Admin Owner (L1)", side: Side::Operated, signature: "proxyAdminOwner()", game_type: None, returns: ReturnShape::Address, target: 0 },
        CheckRow { name: "SystemConfig Owner", label: "System config owner", side: Side::Operated, signature: "owner()", game_type: None, returns: ReturnShape::Address, target: 0 },
        CheckRow { name: "AnchorStateRegistry", label: "AnchorStateRegistryProxy", side: Side::Config, signature: "anchorStateRegistry()", game_type: None, returns: ReturnShape::Address, target: 2 },
        CheckRow { name: "MIPS", label: "MIPS", side: Side::Config, signature: "vm()", game_type: None, returns: ReturnShape::Address, target: 2 },
        CheckRow { name: "PreimageOracle", label: "PreimageOracle", side: Side::Config, signature: "oracle()", game_type: None, returns: ReturnShape::Address, target: 4 },
        CheckRow { name: "DelayedWETHProxy (FDG)", label: "DelayedWETHProxy (FDG)", side: Side::Config, signature: "weth()", game_type: None, returns: ReturnShape::Address, target: 2 },
        CheckRow { name: "DelayedWETHProxy (PDG)", label: "DelayedWETHProxy (PDG)", side: Side::Config, signature: "weth()", game_type: None, returns: ReturnShape::Address, target: 3 },
    ]
}

/// The catalog of checks, in the order they are batched and reported.
pub fn catalog() -> (r: Vec<CheckRow>)
    ensures
        r@ == catalog_spec(),
{
    vec![
        CheckRow { name: "Batch Inbox", label: "Batch Inbox", side: Side::Operated, signature: "batchInbox()", game_type: None, returns: ReturnShape::Address, target: 0 },
        CheckRow { name: "DisputeGameFactory", label: "DisputeGameFactoryProxy", side: Side::Config, signature: "disputeGameFactory()", game_type: None, returns: ReturnShape::Address, target: 0 },
        CheckRow { name: "Fault Dispute Game", label: "FaultDisputeGame", side: Side::Config, signature: "gameImpls(uint32)", game_type: Some(0), returns: ReturnShape::Address, target: 1 },
        CheckRow { name: "Permissioned Dispute Game", label: "PermissionedDisputeGame", side: Side::Config, signature: "gameImpls(uint32)", game_type: Some(1), returns: ReturnShape::Address, target: 1 },
        CheckRow { name: "Challenger", label: "Challenger", side: Side::Operated, signature: "challenger()", game_type: None, returns: ReturnShape::Address, target: 3 },
        CheckRow { name: "Proposer", label: "Output Proposer", side: Side::Operated, signature: "proposer()", game_type: None, returns: ReturnShape::Address, target: 3 },
        CheckRow { name: "Guardian", label: "Guardian", side: Side::Operated, signature: "guardian()", game_type: None, returns: ReturnShape::Address, target: 0 },
        CheckRow { name: "L1CrossDomainMessenger", label: "L1CrossDomainMessenger", side: Side::Config, signature: "l1CrossDomainMessenger()", game_type: None, returns: ReturnShape::Address, target: 0 },
        CheckRow { name: "L1ERC721Bridge", label: "L1ERC721Bridge", side: Side::Config, signature: "l1ERC721Bridge()", game_type: None, returns: ReturnShape::Address, target: 0 },
        CheckRow { name: "L1StandardBridge", label: "L1StandardBridge", side: Side::Config, signature: "l1StandardBridge()", game_type: None, returns: ReturnShape::Address, target: 0 },
        CheckRow { name: "OptimismMintableERC20Factory", label: "OptimismMintableERC20Factory", side: Side::Config, signature: "optimismMintableERC20Factory()", game_type: None, returns: ReturnShape::Address, target: 0 },
        CheckRow { name: "OptimismPortal", label: "OptimismPortal", side: Side::Config, signature: "optimismPortal()", game_type: None, returns: ReturnShape::Address, target: 0 },
        CheckRow { name: "ProxyAdmin", label: "ProxyAdmin", side: Side::Config, signature: "proxyAdmin()", game_type: None, returns: ReturnShape::Address, target: 0 },
        CheckRow { name: "Proxy Admin Owner", label: "Proxy Admin Owner (L1)", side: Side::Operated, signature: "proxyAdminOwner()", game_type: None, returns: ReturnShape::Address, target: 0 },
        CheckRow { name: "SystemConfig Owner", label: "System config owner", side: Side::Operated, signature: "owner()", game_type: None, returns: ReturnShape::Address, target: 0 },
        CheckRow { name: "AnchorStateRegistry", label: "AnchorStateRegistryProxy", side: Side::Config, signature: "anchorStateRegistry()", game_type: None, returns: ReturnShape::Address, target: 2 },
        CheckRow { name: "MIPS", label: "MIPS", side: Side::Config, signature: "vm()", game_type: None, returns: ReturnShape::Address, target: 2 },
        CheckRow { name: "PreimageOracle", label: "PreimageOracle", side: Side::Config, signature: "oracle()", game_type: None, returns: ReturnShape::Address, target: 4 },
        CheckRow { name: "DelayedWETHProxy (FDG)", label: "DelayedWETHProxy (FDG)", side: Side::Config, signature: "weth()", game_type: None, returns: ReturnShape::Address, target: 2 },
        CheckRow { name: "DelayedWETHProxy (PDG)", label: "DelayedWETHProxy (PDG)", side: Side::Config, signature: "weth()", game_type: None, returns: ReturnShape::Address, target: 3 },
    ]
}


/// An error that stops one network's verification as a whole.
pub enum NetworkError {
    /// An anchor contract has no row in the network's section.
    MissingAnchor { label: String, network: String },
    /// An anchor contract's row holds no valid address; `reason` says why.
    MalformedAnchor { label: String, network: String, reason: String },
    /// The batched call failed: transport, endpoint or aggregator.
    Transport { message: String },
    /// The batched call answered with a number of results other than the number of calls.
    ReplyLength { expected: usize, got: usize },
}

/// The address that `label` resolves to in `network`: `None` when the row is
/// missing, `Some(None)` when its text is no address.
pub open spec fn resolve(nets: Seq<NetworkView>, network: Seq<char>, label: Seq<char>) -> Option<
    Option<Seq<u8>>,
> {
    match lookup(nets, network, label) {
        None => None,
        Some(t) => Some(address_of_text(t)),
    }
}

pub open spec fn resolves(nets: Seq<NetworkView>, network: Seq<char>, label: Seq<char>) -> bool {
    resolve(nets, network, label) matches Some(Some(_))
}

/// `e` is the error that an unresolved `label` of `network` gives.
pub open spec fn anchor_error(
    nets: Seq<NetworkView>,
    network: Seq<char>,
    label: Seq<char>,
    e: NetworkError,
) -> bool {
    match resolve(nets, network, label) {
        None => e matches NetworkError::MissingAnchor { label: l, network: n } && l@ == label
            && n@ == network,
        Some(None) => e matches NetworkError::MalformedAnchor { label: l, network: n, .. } && l@
            == label && n@ == network,
        Some(Some(_)) => false,
    }
}

/// Resolves a required contract's address, or fails naming the label and network.
pub fn get_addr(networks: &Vec<Network>, network_name: &str, contract_name: &str) -> (r: Result<
    Address,
    NetworkError,
>)
    ensures
        match r {
            Ok(a) => resolve(networks_view(networks@), network_name@, contract_name@) == Some(
                Some(a.bytes@),
            ),
            Err(e) => anchor_error(networks_view(networks@), network_name@, contract_name@, e),
        },
{
    match find_contract_address(networks, network_name, contract_name) {
        None => Err(
            NetworkError::MissingAnchor {
                label: contract_name.to_owned(),
                network: network_name.to_owned(),
            },
        ),
        Some(text) => match parse_address(text.as_str()) {
            Ok(a) => Ok(a),
            Err(reason) => Err(
                NetworkError::MalformedAnchor {
                    label: contract_name.to_owned(),
                    network: network_name.to_owned(),
                    reason,
                },
            ),
        },
    }
}

/// The addresses of the anchors, in the order of `anchor_labels`, when all resolve.
pub open spec fn all_anchors_resolve(nets: Seq<NetworkView>, network: Seq<char>) -> bool {
    forall|i: int| 0 <= i < 5 ==> resolves(nets, network, #[trigger] anchor_labels()[i])
}

pub open spec fn anchor_address(nets: Seq<NetworkView>, network: Seq<char>, i: int) -> Seq<u8> {
    resolve(nets, network, anchor_labels()[i])->0->0
}

/// `e` is the error of the first anchor that does not resolve.
pub open spec fn first_anchor_error(nets: Seq<NetworkView>, network: Seq<char>, e: NetworkError) -> bool {
    exists|i: int|
        0 <= i < 5 && (forall|j: int| 0 <= j < i ==> resolves(nets, network, #[trigger] anchor_labels()[j]))
            && anchor_error(nets, network, anchor_labels()[i], e)
}

/// Resolves the anchors of `network` in order, failing on the first that does not resolve.
pub fn resolve_anchors(networks: &Vec<Network>, network: &str) -> (r: Result<
    Vec<Address>,
    NetworkError,
>)
    ensures
        match r {
            Ok(v) => {
                &&& all_anchors_resolve(networks_view(networks@), network@)
                &&& v@.len() == 5
                &&& forall|i: int|
                    0 <= i < 5 ==> (#[trigger] v@[i]).bytes@ == anchor_address(
                        networks_view(networks@),
                        network@,
                        i,
                    )
            },
            Err(e) => first_anchor_error(networks_view(networks@), network@, e),
        },
{
    let labels = anchor_label_list();
    let ghost nets = networks_view(networks@);
    let mut out: Vec<Address> = Vec::new();
    let mut i: usize = 0;
    while i < 5
        invariant
            i <= 5,
            nets == networks_view(networks@),
            labels@.len() == 5,
            forall|k: int| 0 <= k < 5 ==> (#[trigger] labels@[k])@ == anchor_labels()[k],
            out@.len() == i,
            forall|j: int| 0 <= j < i ==> resolves(nets, network@, #[trigger] anchor_labels()[j]),
            forall|j: int|
                0 <= j < i ==> (#[trigger] out@[j]).bytes@ == anchor_address(nets, network@, j),
        decreases 5 - i,
    {
        assert(labels@[i as int]@ == anchor_labels()[i as int]);
        match get_addr(networks, network, labels[i]) {
            Ok(a) => {
                out.push(a);
            },
            Err(e) => {
                assert(anchor_error(nets, network@, anchor_labels()[i as int], e));
                return Err(e);
            },
        }
        i = i + 1;
    }
    Ok(out)
}

/// A check, ready to be batched: the document row to compare with, the
/// contract to ask, the call to make and how to read its answer.
pub struct CheckSpec {
    pub name: String,
    pub file_search_name: String,
    pub network: String,
    pub call_data: Vec<u8>,
    pub target: Address,
    pub decoder: ReturnShape,
}

/// A `uint32` argument as one 32-byte big-endian word.
pub open spec fn word_of_u32(v: u32) -> Seq<u8> {
    Seq::new(
        32,
        |i: int|
            if i < 28 {
                0u8
            } else if i == 28 {
                (v / 0x1000000) as u8
            } else if i == 29 {
                ((v / 0x10000) % 256) as u8
            } else if i == 30 {
                ((v / 0x100) % 256) as u8
            } else {
                (v % 256) as u8
            },
    )
}

/// The call data of a view function: its selector, then its argument, if any.
pub open spec fn call_data_of(signature: Seq<u8>, arg: Option<u32>) -> Seq<u8> {
    match arg {
        None => selector_of(signature),
        Some(v) => selector_of(signature) + word_of_u32(v),
    }
}

pub fn encode_call(signature: &str, arg: Option<u32>) -> (r: Vec<u8>)
    ensures
        r@ == call_data_of(signature.spec_bytes(), arg),
{
    let mut out = selector(signature);
    match arg {
        None => {},
        Some(v) => {
            let ghost sel = out@;
            let mut i: usize = 0;
            while i < 28
                invariant
                    i <= 28,
                    out@ == sel + Seq::new(i as nat, |k: int| 0u8),
                decreases 28 - i,
            {
                out.push(0u8);
                assert(out@ =~= sel + Seq::new((i + 1) as nat, |k: int| 0u8));
                i = i + 1;
            }
            out.push((v / 0x1000000) as u8);
            out.push(((v / 0x10000) % 256) as u8);
            out.push(((v / 0x100) % 256) as u8);
            out.push((v % 256) as u8);
            assert(out@ =~= sel + word_of_u32(v));
        },
    }
    out
}

/// The check that `row` gives for the network pair, with anchors at `anchors`.
pub open spec fn planned(
    c: CheckSpec,
    row: CheckRow,
    config: Seq<char>,
    operated: Seq<char>,
    target: Seq<u8>,
) -> bool {
    &&& c.name@ == row.name@
    &&& c.file_search_name@ == row.label@
    &&& c.network@ == (if row.side == Side::Config { config } else { operated })
    &&& c.call_data@ == call_data_of(row.signature.spec_bytes(), row.game_type)
    &&& c.target.bytes@ == target
    &&& c.decoder == row.returns
}

/// Builds the checks for a configuration network and the network it operates:
/// the anchors are resolved from the configuration network's section first,
/// and the first that does not resolve stops the plan.
pub fn plan_checks(networks: &Vec<Network>, l1_network_name: &str, l2_network_name: &str) -> (r:
    Result<Vec<CheckSpec>, NetworkError>)
    ensures
        match r {
            Ok(v) => {
                &&& all_anchors_resolve(networks_view(networks@), l1_network_name@)
                &&& v@.len() == catalog_spec().len()
                &&& forall|i: int|
                    0 <= i < v@.len() ==> planned(
                        #[trigger] v@[i],
                        catalog_spec()[i],
                        l1_network_name@,
                        l2_network_name@,
                        anchor_address(
                            networks_view(networks@),
                            l1_network_name@,
                            catalog_spec()[i].target as int,
                        ),
                    )
            },
            Err(e) => first_anchor_error(networks_view(networks@), l1_network_name@, e),
        },
{
    let anchors = match resolve_anchors(networks, l1_network_name) {
        Ok(a) => a,
        Err(e) => {
            return Err(e);
        },
    };
    let rows = catalog();
    let mut out: Vec<CheckSpec> = Vec::new();
    let mut i: usize = 0;
    while i < rows.len()
        invariant
            rows@ == catalog_spec(),
            anchors@.len() == 5,
            forall|k: int|
                0 <= k < 5 ==> (#[trigger] anchors@[k]).bytes@ == anchor_address(
                    networks_view(networks@),
                    l1_network_name@,
                    k,
                ),
            i <= rows@.len(),
            out@.len() == i,
            forall|k: int|
                0 <= k < i ==> planned(
                    #[trigger] out@[k],
                    catalog_spec()[k],
                    l1_network_name@,
                    l2_network_name@,
                    anchor_address(
                        networks_view(networks@),
                        l1_network_name@,
                        catalog_spec()[k].target as int,
                    ),
                ),
        decreases rows@.len() - i,
    {
        let row = &rows[i];
        assert(row.target < 5);
        let network = match row.side {
            Side::Config => l1_network_name.to_owned(),
            Side::Operated => l2_network_name.to_owned(),
        };
        let c = CheckSpec {
            name: row.name.to_owned(),
            file_search_name: row.label.to_owned(),
            network,
            call_data: encode_call(row.signature, row.game_type),
            target: anchors[row.target],
            decoder: row.returns,
        };
        out.push(c);
        i = i + 1;
    }
    Ok(out)
}

/// One sub-call of the batch: failure of the sub-call is allowed.
pub struct Call {
    pub target: Address,
    pub allow_failure: bool,
    pub call_data: Vec<u8>,
}

/// The batch for a plan: one sub-call per check, in order, each allowed to fail.
pub fn batch_calls(checks: &Vec<CheckSpec>) -> (r: Vec<Call>)
    ensures
        r@.len() == checks@.len(),
        forall|i: int|
            0 <= i < r@.len() ==> {
                &&& (#[trigger] r@[i]).target == checks@[i].target
                &&& r@[i].allow_failure
                &&& r@[i].call_data@ == checks@[i].call_data@
            },
{
    let mut out: Vec<Call> = Vec::new();
    let mut i: usize = 0;
    while i < checks.len()
        invariant
            i <= checks@.len(),
            out@.len() == i,
            forall|k: int|
                0 <= k < i ==> {
                    &&& (#[trigger] out@[k]).target == checks@[k].target
                    &&& out@[k].allow_failure
                    &&& out@[k].call_data@ == checks@[k].call_data@
                },
        decreases checks@.len() - i,
    {
        out.push(
            Call {
                target: checks[i].target,
                allow_failure: true,
                call_data: checks[i].call_data.clone(),
            },
        );
        i = i + 1;
    }
    out
}

} // verus!
