use address_check::abi::ReturnShape;
use address_check::address::Address;
use address_check::plan::{batch_calls, get_addr, plan_checks, CheckSpec, NetworkError};
use address_check::reconcile::{
    exit_code, finish_network, network_passed, process_result, reconcile_all, CallResult,
    CheckError, CheckOutcome, NetworkReport,
};
use address_check::registry::{parse_networks, Network};

const OWNER: &str = "0x00000000000000000000000000000000000000aa";

fn addr_text(n: u8) -> String {
    format!("0x{}", format!("{:02x}", n).repeat(20))
}

fn word_for(bytes: [u8; 20]) -> Vec<u8> {
    let mut w = vec![0u8; 12];
    w.extend_from_slice(&bytes);
    w
}

fn addr(n: u8) -> Address {
    Address { bytes: [n; 20] }
}

fn full_document(with_mips: bool) -> String {
    let mut doc = String::from("### Ethereum Mainnet\n");
    doc += &format!("| SystemConfig | [{}] |\n", addr_text(1));
    doc += &format!("| DisputeGameFactoryProxy | [{}] |\n", addr_text(2));
    doc += &format!("| FaultDisputeGame | [{}] |\n", addr_text(3));
    doc += &format!("| PermissionedDisputeGame | [{}] |\n", addr_text(4));
    if with_mips {
        doc += &format!("| MIPS | [{}] |\n", addr_text(5));
    }
    doc += "### Base Mainnet\n";
    doc += &format!("| System config owner | [{}] |\n", OWNER);
    doc += "### Ethereum Testnet (Sepolia)\n";
    doc += &format!("| SystemConfig | [{}] |\n", addr_text(11));
    doc += &format!("| DisputeGameFactoryProxy | [{}] |\n", addr_text(12));
    doc += &format!("| FaultDisputeGame | [{}] |\n", addr_text(13));
    doc += &format!("| PermissionedDisputeGame | [{}] |\n", addr_text(14));
    doc += &format!("| MIPS | [{}] |\n", addr_text(15));
    doc
}

fn networks(with_mips: bool) -> Vec<Network> {
    match parse_networks(&full_document(with_mips)) {
        Ok(v) => v,
        Err(_) => panic!("document should parse"),
    }
}

fn find<'a>(checks: &'a [CheckSpec], name: &str) -> (usize, &'a CheckSpec) {
    checks.iter().enumerate().find(|(_, c)| c.name == name).expect("check in catalog")
}

#[test]
fn call_failure_reports_the_failed_call_not_a_decode_error() {
    let res = CallResult { success: false, return_data: vec![1, 2, 3] };
    let o = process_result("Guardian", "Base Mainnet", Some(addr_text(7)), &res, ReturnShape::Address);
    assert!(matches!(o.error, Some(CheckError::CallFailed)));
    assert_eq!(o.actual, None);
    assert_eq!(o.expected, Some(addr(7)));
    assert!(!o.success);
}

#[test]
fn equal_addresses_succeed_without_error() {
    let res = CallResult { success: true, return_data: word_for([7; 20]) };
    let o = process_result("Guardian", "Base Mainnet", Some(addr_text(7)), &res, ReturnShape::Address);
    assert!(o.success);
    assert!(o.error.is_none());
    assert_eq!(o.actual, Some(addr(7)));
    assert_eq!(o.name, "Guardian");
    assert_eq!(o.network, "Base Mainnet");
}

#[test]
fn different_addresses_fail_without_error() {
    let res = CallResult { success: true, return_data: word_for([8; 20]) };
    let o = process_result("Guardian", "Base Mainnet", Some(addr_text(7)), &res, ReturnShape::Address);
    assert!(!o.success);
    assert!(o.error.is_none());
    assert_eq!(o.expected, Some(addr(7)));
    assert_eq!(o.actual, Some(addr(8)));
}

#[test]
fn missing_expected_address_is_an_error() {
    let res = CallResult { success: true, return_data: word_for([7; 20]) };
    let o = process_result("Guardian", "Base Mainnet", None, &res, ReturnShape::Address);
    assert!(matches!(o.error, Some(CheckError::ExpectedMissing)));
    assert_eq!(o.expected, None);
    assert!(!o.success);
}

#[test]
fn malformed_expected_address_is_an_error() {
    let res = CallResult { success: true, return_data: word_for([7; 20]) };
    let o = process_result("Guardian", "Base Mainnet", Some("0x12zz".to_string()), &res, ReturnShape::Address);
    match o.error {
        Some(CheckError::ExpectedMalformed { text, reason }) => {
            assert_eq!(text, "0x12zz");
            assert!(!reason.is_empty());
        }
        _ => panic!("expected a malformed-address error"),
    }
    assert!(!o.success);
}

#[test]
fn undecodable_return_data_is_a_decode_error() {
    let short = CallResult { success: true, return_data: vec![0u8; 31] };
    let o = process_result("Guardian", "Base Mainnet", Some(addr_text(7)), &short, ReturnShape::Address);
    assert!(matches!(o.error, Some(CheckError::Decode { .. })));
    assert_eq!(o.actual, None);
    let mut dirty = word_for([7; 20]);
    dirty[0] = 1;
    let o = process_result("Guardian", "Base Mainnet", Some(addr_text(7)), &CallResult { success: true, return_data: dirty }, ReturnShape::Address);
    assert!(matches!(o.error, Some(CheckError::Decode { .. })));
    let mut long = word_for([7; 20]);
    long.push(0);
    let o = process_result("Guardian", "Base Mainnet", Some(addr_text(7)), &CallResult { success: true, return_data: long }, ReturnShape::Address);
    assert!(matches!(o.error, Some(CheckError::Decode { .. })));
}

#[test]
fn expected_address_text_may_use_either_case() {
    let res = CallResult { success: true, return_data: word_for([0xab; 20]) };
    let upper = format!("0x{}", "AB".repeat(20));
    let o = process_result("Guardian", "Base Mainnet", Some(upper), &res, ReturnShape::Address);
    assert!(o.success);
}

#[test]
fn get_addr_distinguishes_missing_and_malformed() {
    let doc = "### N\n| Good | [0x0101010101010101010101010101010101010101] |";
    let nets = match parse_networks(doc) {
        Ok(v) => v,
        Err(_) => panic!("parse"),
    };
    assert_eq!(get_addr(&nets, "N", "good").ok(), Some(addr(1)));
    match get_addr(&nets, "N", "Other") {
        Err(NetworkError::MissingAnchor { label, network }) => {
            assert_eq!(label, "Other");
            assert_eq!(network, "N");
        }
        _ => panic!("expected a missing anchor"),
    }
}

#[test]
fn plan_covers_the_catalog_with_owner_call() {
    let nets = networks(true);
    let checks = match plan_checks(&nets, "Ethereum Mainnet", "Base Mainnet") {
        Ok(c) => c,
        Err(_) => panic!("plan"),
    };
    assert_eq!(checks.len(), 20);
    let (_, owner) = find(&checks, "SystemConfig Owner");
    assert_eq!(owner.call_data, vec![0x8d, 0xa5, 0xcb, 0x5b]);
    assert_eq!(owner.target, addr(1));
    assert_eq!(owner.network, "Base Mainnet");
    assert_eq!(owner.file_search_name, "System config owner");
    let (_, pdg) = find(&checks, "Permissioned Dispute Game");
    assert_eq!(pdg.call_data.len(), 36);
    assert_eq!(pdg.call_data[35], 1);
    assert!(pdg.call_data[4..35].iter().all(|b| *b == 0));
    assert_eq!(pdg.target, addr(2));
    assert_eq!(pdg.network, "Ethereum Mainnet");
    let (_, oracle) = find(&checks, "PreimageOracle");
    assert_eq!(oracle.target, addr(5));
    let calls = batch_calls(&checks);
    assert_eq!(calls.len(), 20);
    assert!(calls.iter().all(|c| c.allow_failure));
    assert_eq!(calls[0].target, checks[0].target);
}

#[test]
fn scenario_skipped_network_exits_zero() {
    let doc = "### Ethereum Mainnet\n| SystemConfig | [0xAbCd000000000000000000000000000000001234] |\n";
    assert!(parse_networks(doc).is_ok());
    let reports = vec![NetworkReport::Skipped];
    assert_eq!(exit_code(&reports), 0);
}

#[test]
fn scenario_owner_matches_on_chain() {
    let nets = networks(true);
    let checks = match plan_checks(&nets, "Ethereum Mainnet", "Base Mainnet") {
        Ok(c) => c,
        Err(_) => panic!("plan"),
    };
    let (i, _) = find(&checks, "SystemConfig Owner");
    let mut owner = [0u8; 20];
    owner[19] = 0xaa;
    let results: Vec<CallResult> = checks
        .iter()
        .map(|_| CallResult { success: true, return_data: word_for(owner) })
        .collect();
    let outcomes = match reconcile_all(&nets, &checks, &results) {
        Ok(v) => v,
        Err(_) => panic!("reconcile"),
    };
    assert!(outcomes[i].success);
    assert!(outcomes[i].error.is_none());
    assert!(!network_passed(&outcomes));
}

#[test]
fn scenario_reverted_call_reports_call_failure() {
    let nets = networks(true);
    let checks = match plan_checks(&nets, "Ethereum Mainnet", "Base Mainnet") {
        Ok(c) => c,
        Err(_) => panic!("plan"),
    };
    let (i, _) = find(&checks, "SystemConfig Owner");
    let results: Vec<CallResult> = (0..checks.len())
        .map(|k| CallResult { success: k != i, return_data: word_for([1; 20]) })
        .collect();
    let report = finish_network(&nets, &checks, Ok(results));
    match report {
        NetworkReport::Checked(v) => {
            assert!(matches!(v[i].error, Some(CheckError::CallFailed)));
            assert_eq!(v[i].actual, None);
            assert_eq!(v.len(), 20);
        }
        _ => panic!("expected outcomes"),
    }
}

#[test]
fn scenario_missing_mips_aborts_only_that_network() {
    let doc = full_document(false);
    let nets = match parse_networks(&doc) {
        Ok(v) => v,
        Err(_) => panic!("parse"),
    };
    match plan_checks(&nets, "Ethereum Mainnet", "Base Mainnet") {
        Err(NetworkError::MissingAnchor { label, network }) => {
            assert_eq!(label, "MIPS");
            assert_eq!(network, "Ethereum Mainnet");
        }
        _ => panic!("expected a missing anchor"),
    }
    assert!(plan_checks(&nets, "Ethereum Testnet (Sepolia)", "Base Testnet (Sepolia)").is_ok());
}

#[test]
fn reply_of_wrong_length_fails_the_network() {
    let nets = networks(true);
    let checks = match plan_checks(&nets, "Ethereum Mainnet", "Base Mainnet") {
        Ok(c) => c,
        Err(_) => panic!("plan"),
    };
    match reconcile_all(&nets, &checks, &Vec::new()) {
        Err(NetworkError::ReplyLength { expected, got }) => {
            assert_eq!(expected, 20);
            assert_eq!(got, 0);
        }
        _ => panic!("expected a reply length error"),
    }
    let report = finish_network(&nets, &checks, Err("connection refused".to_string()));
    assert!(matches!(report, NetworkReport::Failed(NetworkError::Transport { .. })));
}

#[test]
fn exit_code_fails_on_errors_and_mismatches() {
    let ok = CheckOutcome { name: "a".into(), network: "n".into(), expected: Some(addr(1)), actual: Some(addr(1)), success: true, error: None };
    let bad = CheckOutcome { name: "b".into(), network: "n".into(), expected: Some(addr(1)), actual: Some(addr(2)), success: false, error: None };
    assert_eq!(exit_code(&vec![NetworkReport::Skipped, NetworkReport::Checked(vec![ok])]), 0);
    assert_eq!(exit_code(&vec![NetworkReport::Checked(vec![bad]), NetworkReport::Skipped]), 1);
    let failed = NetworkReport::Failed(NetworkError::Transport { message: "x".into() });
    assert_eq!(exit_code(&vec![NetworkReport::Skipped, failed]), 1);
    assert_eq!(exit_code(&vec![]), 0);
}

#[test]
fn uppercase_hex_prefix_is_malformed() {
    let res = CallResult { success: true, return_data: word_for([0xab; 20]) };
    let text = format!("0X{}", "ab".repeat(20));
    let o = process_result("Guardian", "Base Mainnet", Some(text.clone()), &res, ReturnShape::Address);
    match o.error {
        Some(CheckError::ExpectedMalformed { text: t, .. }) => assert_eq!(t, text),
        _ => panic!("expected a malformed-address error"),
    }
    assert_eq!(o.expected, None);
    assert!(!o.success);
    let bare = "ab".repeat(20);
    let o = process_result("Guardian", "Base Mainnet", Some(bare), &res, ReturnShape::Address);
    assert!(o.success);
}

#[test]
fn plan_reads_only_its_own_sections() {
    let full = networks(true);
    let partial = networks(false);
    let a = plan_checks(&full, "Ethereum Testnet (Sepolia)", "Base Testnet (Sepolia)").ok().expect("plan");
    let b = plan_checks(&partial, "Ethereum Testnet (Sepolia)", "Base Testnet (Sepolia)").ok().expect("plan");
    assert_eq!(a.len(), b.len());
    for (x, y) in a.iter().zip(b.iter()) {
        assert_eq!(x.name, y.name);
        assert_eq!(x.target, y.target);
        assert_eq!(x.call_data, y.call_data);
        assert_eq!(x.decoder, y.decoder);
    }
}
