use address_check::registry::{find_contract_address, parse_networks, Network, ParseError};

const A1: &str = "0xAbCd000000000000000000000000000000001234";
const A2: &str = "0x1111111111111111111111111111111111111111";

fn parse_ok(doc: &str) -> Vec<Network> {
    match parse_networks(doc) {
        Ok(v) => v,
        Err(ParseError::ContractBeforeHeader { line }) => panic!("row before header on line {}", line),
    }
}

#[test]
fn rows_group_under_their_header_in_order() {
    let doc = format!(
        "# Title\n\n### Ethereum Mainnet\n| Name | Address |\n|---|---|\n| SystemConfig | [{}] |\n| MIPS | [{}] |\n",
        A1, A2
    );
    let nets = parse_ok(&doc);
    assert_eq!(nets.len(), 1);
    assert_eq!(nets[0].name, "Ethereum Mainnet");
    assert_eq!(nets[0].contracts.len(), 2);
    assert_eq!(nets[0].contracts[0].name, "SystemConfig");
    assert_eq!(nets[0].contracts[0].address, A1);
    assert_eq!(nets[0].contracts[1].name, "MIPS");
    assert_eq!(nets[0].contracts[1].address, A2);
}

#[test]
fn repeated_header_appends_to_the_same_network() {
    let doc = format!(
        "### A\n| X | [{}] |\n### B\n| Y | [{}] |\n### A\n| Z | [{}] |",
        A1, A2, A2
    );
    let nets = parse_ok(&doc);
    assert_eq!(nets.len(), 2);
    assert_eq!(nets[0].name, "A");
    let labels: Vec<&str> = nets[0].contracts.iter().map(|c| c.name.as_str()).collect();
    assert_eq!(labels, vec!["X", "Z"]);
    assert_eq!(nets[1].name, "B");
}

#[test]
fn row_before_any_header_names_its_line() {
    let doc = format!("intro\n\n| SystemConfig | [{}] |\n### Ethereum Mainnet\n", A1);
    match parse_networks(&doc) {
        Err(ParseError::ContractBeforeHeader { line }) => assert_eq!(line, 3),
        Ok(_) => panic!("expected an error"),
    }
}

#[test]
fn header_without_rows_makes_no_network() {
    let nets = parse_ok("### Lonely\nsome text\n");
    assert!(nets.is_empty());
}

#[test]
fn empty_document_has_no_networks() {
    assert!(parse_ok("").is_empty());
}

#[test]
fn header_needs_white_space_after_the_marks() {
    let doc = format!("####Deep\n| X | [{}] |", A1);
    assert!(matches!(parse_networks(&doc), Err(ParseError::ContractBeforeHeader { line: 2 })));
    let doc = format!("#### Deeper\n| X | [{}] |", A1);
    assert!(matches!(parse_networks(&doc), Err(ParseError::ContractBeforeHeader { line: 2 })));
}

#[test]
fn header_name_and_label_are_trimmed() {
    let doc = format!("###   Base Mainnet  \r\n|   Batch Inbox\t|  [{}]  | note |\r\n", A1);
    let nets = parse_ok(&doc);
    assert_eq!(nets[0].name, "Base Mainnet");
    assert_eq!(nets[0].contracts[0].name, "Batch Inbox");
    assert_eq!(nets[0].contracts[0].address, A1);
}

#[test]
fn rows_with_bad_addresses_are_ignored() {
    let doc = "### N\n| Short | [0x1234] |\n| Upper | [0X1111111111111111111111111111111111111111] |\n| NoBracket | 0x1111111111111111111111111111111111111111 |\n";
    assert!(parse_ok(doc).is_empty());
}

#[test]
fn leftmost_row_wins_among_extra_columns() {
    let doc = format!("### N\n| Proxy | Impl | [{}] | [{}] |", A1, A2);
    let nets = parse_ok(&doc);
    assert_eq!(nets[0].contracts.len(), 1);
    assert_eq!(nets[0].contracts[0].name, "Impl");
    assert_eq!(nets[0].contracts[0].address, A1);
}

#[test]
fn lookup_ignores_ascii_case_of_labels() {
    let doc = format!("### Ethereum Mainnet\n| MIPS | [{}] |", A1);
    let nets = parse_ok(&doc);
    assert_eq!(find_contract_address(&nets, "Ethereum Mainnet", "mips"), Some(A1.to_string()));
    assert_eq!(find_contract_address(&nets, "Ethereum Mainnet", "Mips"), Some(A1.to_string()));
    assert_eq!(find_contract_address(&nets, "ethereum mainnet", "MIPS"), None);
    assert_eq!(find_contract_address(&nets, "Ethereum Mainnet", "MIPS2"), None);
}

#[test]
fn lookup_returns_the_first_matching_row() {
    let doc = format!("### N\n| Guardian | [{}] |\n| guardian | [{}] |", A1, A2);
    let nets = parse_ok(&doc);
    assert_eq!(find_contract_address(&nets, "N", "GUARDIAN"), Some(A1.to_string()));
}

#[test]
fn rendered_registry_parses_back_to_itself() {
    let doc = format!(
        "Intro text\n### Ethereum Mainnet\n| SystemConfig | [{}] |\n### Base Mainnet\n|Guardian|[{}]| extra |\n### Ethereum Mainnet\n| MIPS | [{}] |\n",
        A1, A2, A2
    );
    let nets = parse_ok(&doc);
    let text = address_check::render::render_networks(&nets);
    assert_eq!(
        text,
        format!(
            "### Ethereum Mainnet\n| SystemConfig | [{}] |\n| MIPS | [{}] |\n### Base Mainnet\n| Guardian | [{}] |\n",
            A1, A2, A2
        )
    );
    let again = parse_ok(&text);
    assert_eq!(again.len(), nets.len());
    for (a, b) in again.iter().zip(nets.iter()) {
        assert_eq!(a.name, b.name);
        assert_eq!(a.contracts.len(), b.contracts.len());
        for (x, y) in a.contracts.iter().zip(b.contracts.iter()) {
            assert_eq!(x.name, y.name);
            assert_eq!(x.address, y.address);
        }
    }
}

#[test]
fn render_of_empty_registry_is_empty() {
    assert_eq!(address_check::render::render_networks(&Vec::new()), "");
}

#[test]
fn blank_label_survives_rendering() {
    let doc = format!("### N\n|   | [{}] |", A1);
    let nets = parse_ok(&doc);
    assert_eq!(nets[0].contracts[0].name, "");
    let text = address_check::render::render_networks(&nets);
    let again = parse_ok(&text);
    assert_eq!(again[0].contracts[0].name, "");
    assert_eq!(again[0].contracts[0].address, A1);
}
