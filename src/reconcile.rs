//! Turning each sub-call's result into a check outcome, and the outcomes of
//! all networks into a verdict.
use vstd::prelude::*;
use crate::abi::{decode_return, decoded_address, ReturnShape};
use crate::address::{address_of_text, parse_address, Address};
use crate::plan::{
    all_anchors_resolve, anchor_address, first_anchor_error, CheckSpec, NetworkError,
};
use crate::registry::{
    find_contract_address, lookup, name_view, network_index, networks_view, EntryView, Network,
    NetworkView,
};

verus! {

/// What the aggregator reports for one sub-call.
pub struct CallResult {
    pub success: bool,
    pub return_data: Vec<u8>,
}

/// Why a check could not compare addresses.
pub enum CheckError {
    /// The document has no row for the check's label in its network.
    ExpectedMissing,
    /// The document's row holds this text, which is no address; `reason` says why.
    ExpectedMalformed { text: String, reason: String },
    /// The sub-call reverted or failed on-chain.
    CallFailed,
    /// The sub-call's return bytes do not have the expected shape; `reason` says why.
    Decode { reason: String },
}

pub struct CheckOutcome {
    pub name: String,
    pub network: String,
    pub expected: Option<Address>,
    pub actual: Option<Address>,
    pub success: bool,
    pub error: Option<CheckError>,
}

pub open spec fn address_view(a: Option<Address>) -> Option<Seq<u8>> {
    match a {
        Some(x) => Some(x.bytes@),
        None => None,
    }
}

/// The outcome of a check whose document text is `expected` (if any), whose
/// sub-call reported `success` and `data`, read with `shape`.
pub open spec fn outcome_of(
    o: CheckOutcome,
    expected: Option<Seq<char>>,
    shape: ReturnShape,
    success: bool,
    data: Seq<u8>,
) -> bool {
    match expected {
        None => {
            &&& o.error matches Some(CheckError::ExpectedMissing)
            &&& o.expected is None
            &&& o.actual is None
            &&& !o.success
        },
        Some(t) => match address_of_text(t) {
            None => {
                &&& o.error matches Some(CheckError::ExpectedMalformed { text, .. }) && text@ == t
                &&& o.expected is None
                &&& o.actual is None
                &&& !o.success
            },
            Some(b) => {
                &&& address_view(o.expected) == Some(b)
                &&& if !success {
                    &&& o.error matches Some(CheckError::CallFailed)
                    &&& o.actual is None
                    &&& !o.success
                } else {
                    match decoded_address(shape, data) {
                        None => {
                            &&& o.error matches Some(CheckError::Decode { .. })
                            &&& o.actual is None
                            &&& !o.success
                        },
                        Some(d) => {
                            &&& o.error is None
                            &&& address_view(o.actual) == Some(d)
                            &&& o.success == (d == b)
                        },
                    }
                }
            },
        },
    }
}

/// Reconciles one check: the expected address from the document against the
/// address that the sub-call returned.
pub fn process_result(
    contract_name: &str,
    expected_addr_network: &str,
    expected_addr: Option<String>,
    res: &CallResult,
    decoder: ReturnShape,
) -> (r: CheckOutcome)
    ensures
        r.name@ == contract_name@,
        r.network@ == expected_addr_network@,
        outcome_of(r, name_view(expected_addr), decoder, res.success, res.return_data@),
{
    let mut result = CheckOutcome {
        name: contract_name.to_owned(),
        network: expected_addr_network.to_owned(),
        expected: None,
        actual: None,
        success: false,
        error: None,
    };
    let expected_str = match expected_addr {
        Some(s) => s,
        None => {
            result.error = Some(CheckError::ExpectedMissing);
            return result;
        },
    };
    let expected = match parse_address(expected_str.as_str()) {
        Ok(a) => a,
        Err(reason) => {
            result.error = Some(CheckError::ExpectedMalformed { text: expected_str, reason });
            return result;
        },
    };
    result.expected = Some(expected);
    if !res.success {
        result.error = Some(CheckError::CallFailed);
        return result;
    }
    let on_chain_addr = match decode_return(decoder, res.return_data.as_slice()) {
        Ok(a) => a,
        Err(reason) => {
            result.error = Some(CheckError::Decode { reason });
            return result;
        },
    };
    result.actual = Some(on_chain_addr);
    if on_chain_addr != expected {
        return result;
    }
    result.success = true;
    result
}

/// `v` holds one outcome per check, each reconciled with the result at the
/// same position and the check's row in the document.
pub open spec fn reconciled(
    nets: Seq<NetworkView>,
    checks: Seq<CheckSpec>,
    results: Seq<CallResult>,
    v: Seq<CheckOutcome>,
) -> bool {
    &&& v.len() == checks.len()
    &&& forall|i: int|
        0 <= i < v.len() ==> {
            &&& (#[trigger] v[i]).name@ == checks[i].name@
            &&& v[i].network@ == checks[i].network@
            &&& outcome_of(
                v[i],
                lookup(nets, checks[i].network@, checks[i].file_search_name@),
                checks[i].decoder,
                results[i].success,
                results[i].return_data@,
            )
        }
}

/// Reconciles every check of a plan with the batch's results, which must be
/// one per check, in order.
pub fn reconcile_all(networks: &Vec<Network>, checks: &Vec<CheckSpec>, results: &Vec<CallResult>) -> (r:
    Result<Vec<CheckOutcome>, NetworkError>)
    ensures
        match r {
            Ok(v) => {
                &&& results@.len() == checks@.len()
                &&& reconciled(networks_view(networks@), checks@, results@, v@)
            },
            Err(e) => {
                &&& results@.len() != checks@.len()
                &&& e matches NetworkError::ReplyLength { expected, got } && expected
                    == checks@.len() && got == results@.len()
            },
        },
{
    if results.len() != checks.len() {
        return Err(NetworkError::ReplyLength { expected: checks.len(), got: results.len() });
    }
    let mut out: Vec<CheckOutcome> = Vec::new();
    let mut i: usize = 0;
    while i < checks.len()
        invariant
            results@.len() == checks@.len(),
            i <= checks@.len(),
            out@.len() == i,
            forall|k: int|
                0 <= k < i ==> {
                    &&& (#[trigger] out@[k]).name@ == checks@[k].name@
                    &&& out@[k].network@ == checks@[k].network@
                    &&& outcome_of(
                        out@[k],
                        lookup(
                            networks_view(networks@),
                            checks@[k].network@,
                            checks@[k].file_search_name@,
                        ),
                        checks@[k].decoder,
                        results@[k].success,
                        results@[k].return_data@,
                    )
                },
        decreases checks@.len() - i,
    {
        let check = &checks[i];
        let expected = find_contract_address(
            networks,
            check.network.as_str(),
            check.file_search_name.as_str(),
        );
        let o = process_result(
            check.name.as_str(),
            check.network.as_str(),
            expected,
            &results[i],
            check.decoder,
        );
        out.push(o);
        i = i + 1;
    }
    Ok(out)
}

/// A sub-call that failed on-chain leaves no actual address and an error,
/// whatever the document holds, whatever bytes came back and whatever the
/// decoder.
pub proof fn lemma_failed_call_reports_error(
    o: CheckOutcome,
    expected: Option<Seq<char>>,
    shape: ReturnShape,
    data: Seq<u8>,
)
    requires
        outcome_of(o, expected, shape, false, data),
    ensures
        o.actual is None,
        o.error is Some,
        !o.success,
{
}

/// Once both addresses are known, the outcome carries no error, and it
/// succeeds exactly when the addresses are equal.
pub proof fn lemma_compared_outcome(
    o: CheckOutcome,
    expected: Option<Seq<char>>,
    shape: ReturnShape,
    success: bool,
    data: Seq<u8>,
)
    requires
        outcome_of(o, expected, shape, success, data),
        o.expected is Some,
        o.actual is Some,
    ensures
        o.error is None,
        o.success == (o.expected->0.bytes@ == o.actual->0.bytes@),
{
}

/// What became of one network's verification.
pub enum NetworkReport {
    /// No endpoint was configured for it.
    Skipped,
    /// It stopped before any check could be reconciled.
    Failed(NetworkError),
    /// Every check was reconciled.
    Checked(Vec<CheckOutcome>),
}

/// The report for a network whose batch came back as `reply`: the batch's
/// own failure, or the reconciled outcomes.
pub fn finish_network(
    networks: &Vec<Network>,
    checks: &Vec<CheckSpec>,
    reply: Result<Vec<CallResult>, String>,
) -> (r: NetworkReport)
    ensures
        match reply {
            Err(m) => r matches NetworkReport::Failed(NetworkError::Transport { message })
                && message@ == m@,
            Ok(results) => if results@.len() == checks@.len() {
                r matches NetworkReport::Checked(v) && reconciled(
                    networks_view(networks@),
                    checks@,
                    results@,
                    v@,
                )
            } else {
                r matches NetworkReport::Failed(NetworkError::ReplyLength { expected, got })
                    && expected == checks@.len() && got == results@.len()
            },
        },
{
    match reply {
        Err(message) => NetworkReport::Failed(NetworkError::Transport { message }),
        Ok(results) => match reconcile_all(networks, checks, &results) {
            Ok(v) => NetworkReport::Checked(v),
            Err(e) => NetworkReport::Failed(e),
        },
    }
}

pub open spec fn all_succeed(outcomes: Seq<CheckOutcome>) -> bool {
    forall|i: int| 0 <= i < outcomes.len() ==> (#[trigger] outcomes[i]).success
}

/// Whether every outcome of a network succeeded.
pub fn network_passed(outcomes: &Vec<CheckOutcome>) -> (r: bool)
    ensures
        r == all_succeed(outcomes@),
{
    let mut i: usize = 0;
    while i < outcomes.len()
        invariant
            i <= outcomes@.len(),
            forall|k: int| 0 <= k < i ==> (#[trigger] outcomes@[k]).success,
        decreases outcomes@.len() - i,
    {
        if !outcomes[i].success {
            return false;
        }
        i = i + 1;
    }
    true
}

/// Whether a network's report makes the run fail: a network-level error, or
/// a check that did not succeed. A skipped network never does.
pub open spec fn report_fails(r: NetworkReport) -> bool {
    match r {
        NetworkReport::Skipped => false,
        NetworkReport::Failed(_) => true,
        NetworkReport::Checked(v) => !all_succeed(v@),
    }
}

/// The process exit status: 1 when any network's report fails, else 0.
pub fn exit_code(reports: &Vec<NetworkReport>) -> (r: i32)
    ensures
        r == (if exists|i: int| 0 <= i < reports@.len() && report_fails(#[trigger] reports@[i]) {
            1i32
        } else {
            0i32
        }),
{
    let mut i: usize = 0;
    while i < reports.len()
        invariant
            i <= reports@.len(),
            forall|k: int| 0 <= k < i ==> !report_fails(#[trigger] reports@[k]),
        decreases reports@.len() - i,
    {
        let fails = match &reports[i] {
            NetworkReport::Skipped => false,
            NetworkReport::Failed(_) => true,
            NetworkReport::Checked(v) => !network_passed(v),
        };
        if fails {
            return 1;
        }
        i = i + 1;
    }
    0
}


/// The entries of the first network named `name`, if there is one.
pub open spec fn section(nets: Seq<NetworkView>, name: Seq<char>) -> Option<Seq<EntryView>> {
    match network_index(nets, name) {
        Some(k) => Some(nets[k].1),
        None => None,
    }
}

proof fn lemma_lookup_by_section(
    a: Seq<NetworkView>,
    b: Seq<NetworkView>,
    name: Seq<char>,
    label: Seq<char>,
)
    requires
        section(a, name) == section(b, name),
    ensures
        lookup(a, name, label) == lookup(b, name, label),
{
}

/// A network pair's verification reads nothing of the registry but the two
/// sections it names: registries that agree on those sections resolve the
/// same anchors, fail planning with the same errors, and reconcile the same
/// results into the same outcomes, whatever the other networks hold.
pub proof fn lemma_pair_reads_only_its_sections(
    a: Seq<NetworkView>,
    b: Seq<NetworkView>,
    l1: Seq<char>,
    l2: Seq<char>,
)
    requires
        section(a, l1) == section(b, l1),
        section(a, l2) == section(b, l2),
    ensures
        all_anchors_resolve(a, l1) == all_anchors_resolve(b, l1),
        forall|i: int| 0 <= i < 5 ==> anchor_address(a, l1, i) == anchor_address(b, l1, i),
        forall|e: NetworkError| first_anchor_error(a, l1, e) == first_anchor_error(b, l1, e),
        forall|checks: Seq<CheckSpec>, results: Seq<CallResult>, v: Seq<CheckOutcome>|
            (forall|i: int|
                0 <= i < checks.len() ==> (#[trigger] checks[i]).network@ == l1 || checks[i].network@
                    == l2) ==> reconciled(a, checks, results, v) == reconciled(b, checks, results, v),
{
    assert forall|label: Seq<char>| #[trigger] lookup(a, l1, label) == lookup(b, l1, label) by {
        lemma_lookup_by_section(a, b, l1, label);
    }
    assert forall|label: Seq<char>| #[trigger] lookup(a, l2, label) == lookup(b, l2, label) by {
        lemma_lookup_by_section(a, b, l2, label);
    }
    assert forall|checks: Seq<CheckSpec>, results: Seq<CallResult>, v: Seq<CheckOutcome>|
        (forall|i: int|
            0 <= i < checks.len() ==> (#[trigger] checks[i]).network@ == l1 || checks[i].network@
                == l2) implies reconciled(a, checks, results, v) == reconciled(b, checks, results, v) by {
        assert forall|i: int| 0 <= i < checks.len() implies lookup(
            a,
            (#[trigger] checks[i]).network@,
            checks[i].file_search_name@,
        ) == lookup(b, checks[i].network@, checks[i].file_search_name@) by {
            if checks[i].network@ == l1 {
                assert(lookup(a, l1, checks[i].file_search_name@) == lookup(b, l1, checks[i].file_search_name@));
            } else {
                assert(lookup(a, l2, checks[i].file_search_name@) == lookup(b, l2, checks[i].file_search_name@));
            }
        }
    }
}

} // verus!
