//! The address registry: the document's line grammar, the parser that groups
//! contract rows under network headings, and lookups by label.
use vstd::prelude::*;
use vstd::string::StrSliceExecFns;
use crate::text::{
    chars_of, eq_ignore_ascii_case, is_space, is_space_char, line_bounds, lines_of, same_ignoring_ascii_case,
    trim, trimmed_bounds,
};

verus! {

broadcast use vstd::string::group_string_axioms;

/// What a contract row holds: its label and its address text.
pub type EntryView = (Seq<char>, Seq<char>);

/// A network: its name and its entries in document order.
pub type NetworkView = (Seq<char>, Seq<EntryView>);

pub struct Contract {
    pub name: String,
    pub address: String,
}

impl View for Contract {
    type V = EntryView;

    open spec fn view(&self) -> EntryView {
        (self.name@, self.address@)
    }
}

pub struct Network {
    pub name: String,
    pub contracts: Vec<Contract>,
}

impl View for Network {
    type V = NetworkView;

    open spec fn view(&self) -> NetworkView {
        (self.name@, self.contracts@.map_values(|c: Contract| c@))
    }
}

pub open spec fn networks_view(v: Seq<Network>) -> Seq<NetworkView> {
    v.map_values(|n: Network| n@)
}

/// A heading line: `###`, white space, then at least one more character. The
/// network's name is the rest of the line, trimmed.
pub open spec fn header_name(l: Seq<char>) -> Option<Seq<char>> {
    if l.len() >= 5 && l[0] == '#' && l[1] == '#' && l[2] == '#' && is_space(l[3]) {
        Some(trim(l.subrange(3, l.len() as int)))
    } else {
        None
    }
}

/// The first `|` at or after `j`, or the line's length.
pub open spec fn next_pipe(l: Seq<char>, j: int) -> int
    decreases l.len() - j,
{
    if j >= l.len() {
        l.len() as int
    } else if l[j] == '|' {
        j
    } else {
        next_pipe(l, j + 1)
    }
}

/// The first character at or after `j` that is not white space, or the line's length.
pub open spec fn skip_spaces(l: Seq<char>, j: int) -> int
    decreases l.len() - j,
{
    if j >= l.len() {
        l.len() as int
    } else if !is_space(l[j]) {
        j
    } else {
        skip_spaces(l, j + 1)
    }
}

pub open spec fn is_hex_digit(c: char) -> bool {
    ('0' <= c && c <= '9') || ('a' <= c && c <= 'f') || ('A' <= c && c <= 'F')
}

/// `[0x` followed by forty hex digits and `]`, starting at `k`.
pub open spec fn bracketed_address_at(l: Seq<char>, k: int) -> bool {
    &&& 0 <= k
    &&& k + 44 <= l.len()
    &&& l[k] == '['
    &&& l[k + 1] == '0'
    &&& l[k + 2] == 'x'
    &&& forall|i: int| 3 <= i < 43 ==> is_hex_digit(#[trigger] l[k + i])
    &&& l[k + 43] == ']'
}

/// A contract row starts at the pipe `p`: a non-empty cell up to the next pipe,
/// then white space and a bracketed address.
pub open spec fn row_at(l: Seq<char>, p: int) -> bool {
    let q = next_pipe(l, p + 1);
    &&& 0 <= p < l.len()
    &&& l[p] == '|'
    &&& q < l.len()
    &&& q >= p + 2
    &&& bracketed_address_at(l, skip_spaces(l, q + 1))
}

/// The trimmed label cell and the address of the row that starts at `p`.
pub open spec fn row_fields(l: Seq<char>, p: int) -> EntryView {
    let q = next_pipe(l, p + 1);
    let k = skip_spaces(l, q + 1);
    (trim(l.subrange(p + 1, q)), l.subrange(k + 1, k + 43))
}

/// The leftmost contract row at or after `j`.
pub open spec fn row_from(l: Seq<char>, j: int) -> Option<EntryView>
    decreases l.len() - j,
{
    if j >= l.len() {
        None
    } else if row_at(l, j) {
        Some(row_fields(l, j))
    } else {
        row_from(l, j + 1)
    }
}

pub open spec fn row_of(l: Seq<char>) -> Option<EntryView> {
    row_from(l, 0)
}

/// Whether `k` is the first network named `name`.
pub open spec fn is_first_network(nets: Seq<NetworkView>, name: Seq<char>, k: int) -> bool {
    &&& 0 <= k < nets.len()
    &&& nets[k].0 == name
    &&& forall|j: int| 0 <= j < k ==> nets[j].0 != name
}

pub open spec fn network_index(nets: Seq<NetworkView>, name: Seq<char>) -> Option<int> {
    if exists|k: int| is_first_network(nets, name, k) {
        Some(choose|k: int| is_first_network(nets, name, k))
    } else {
        None
    }
}

/// Appends a row's entry to the network `name`, which is created if missing.
pub open spec fn add_entry(nets: Seq<NetworkView>, name: Seq<char>, e: EntryView) -> Seq<
    NetworkView,
> {
    match network_index(nets, name) {
        Some(k) => nets.update(k, (nets[k].0, nets[k].1.push(e))),
        None => nets.push((name, seq![e])),
    }
}

/// The networks after the first `n` lines, with the current network; or the
/// number of the line that holds a row before any heading.
pub open spec fn parse_upto(lines: Seq<Seq<char>>, n: int) -> Result<
    (Seq<NetworkView>, Option<Seq<char>>),
    nat,
>
    decreases n,
{
    if n <= 0 {
        Ok((seq![], None))
    } else {
        match parse_upto(lines, n - 1) {
            Err(e) => Err(e),
            Ok((nets, cur)) => {
                let l = lines[n - 1];
                match header_name(l) {
                    Some(h) => Ok((nets, Some(h))),
                    None => match row_of(l) {
                        None => Ok((nets, cur)),
                        Some(e) => match cur {
                            None => Err(n as nat),
                            Some(c) => Ok((add_entry(nets, c, e), cur)),
                        },
                    },
                }
            },
        }
    }
}

/// The registry that a document describes, or the number of the first line
/// that holds a contract row before any network heading.
pub open spec fn parse_document(doc: Seq<char>) -> Result<Seq<NetworkView>, nat> {
    let lines = lines_of(doc);
    match parse_upto(lines, lines.len() as int) {
        Ok((nets, _)) => Ok(nets),
        Err(n) => Err(n),
    }
}


/// Once a line is refused, the parse of any longer prefix is refused the same way.
pub proof fn lemma_error_persists(lines: Seq<Seq<char>>, n: int, m: int)
    requires
        0 <= n <= m,
        parse_upto(lines, n) is Err,
    ensures
        parse_upto(lines, m) == parse_upto(lines, n),
    decreases m - n,
{
    if m > n {
        lemma_error_persists(lines, n, m - 1);
    }
}

/// A document that puts a contract row before any network heading.
pub enum ParseError {
    ContractBeforeHeader { line: usize },
}

fn next_pipe_index(l: &Vec<char>, j: usize) -> (r: usize)
    requires
        j <= l@.len(),
    ensures
        r == next_pipe(l@, j as int),
        j <= r <= l@.len(),
{
    let mut i: usize = j;
    while i < l.len() && l[i] != '|'
        invariant
            j <= i <= l@.len(),
            next_pipe(l@, j as int) == next_pipe(l@, i as int),
        decreases l@.len() - i,
    {
        i = i + 1;
    }
    i
}

fn skip_spaces_index(l: &Vec<char>, j: usize) -> (r: usize)
    requires
        j <= l@.len(),
    ensures
        r == skip_spaces(l@, j as int),
        j <= r <= l@.len(),
{
    let mut i: usize = j;
    while i < l.len() && is_space_char(l[i])
        invariant
            j <= i <= l@.len(),
            skip_spaces(l@, j as int) == skip_spaces(l@, i as int),
        decreases l@.len() - i,
    {
        i = i + 1;
    }
    i
}

fn hex_digit(c: char) -> (r: bool)
    ensures
        r == is_hex_digit(c),
{
    ('0' <= c && c <= '9') || ('a' <= c && c <= 'f') || ('A' <= c && c <= 'F')
}

fn has_bracketed_address(l: &Vec<char>, k: usize) -> (r: bool)
    requires
        k <= l@.len(),
    ensures
        r == bracketed_address_at(l@, k as int),
{
    if l.len() - k < 44 {
        return false;
    }
    if l[k] != '[' || l[k + 1] != '0' || l[k + 2] != 'x' || l[k + 43] != ']' {
        return false;
    }
    let mut i: usize = 3;
    while i < 43
        invariant
            3 <= i <= 43,
            k + 44 <= l@.len() <= usize::MAX,
            forall|m: int| 3 <= m < i ==> is_hex_digit(#[trigger] l@[k + m]),
        decreases 43 - i,
    {
        if !hex_digit(l[k + i]) {
            assert(!is_hex_digit(l@[k + i]));
            return false;
        }
        i = i + 1;
    }
    true
}

/// Finds the leftmost contract row: its opening pipe, the pipe that closes its
/// label cell and where its bracketed address starts.
fn find_row(l: &Vec<char>) -> (r: Option<(usize, usize, usize)>)
    ensures
        match r {
            None => row_of(l@) is None,
            Some((p, q, k)) => {
                &&& row_at(l@, p as int)
                &&& row_of(l@) == Some(row_fields(l@, p as int))
                &&& q == next_pipe(l@, p + 1)
                &&& k == skip_spaces(l@, q + 1)
                &&& p < q < k
                &&& k + 44 <= l@.len()
            },
        },
{
    let mut j: usize = 0;
    while j < l.len()
        invariant
            j <= l@.len(),
            row_of(l@) == row_from(l@, j as int),
        decreases l@.len() - j,
    {
        if l[j] == '|' {
            let q = next_pipe_index(l, j + 1);
            if q < l.len() && q >= j + 2 {
                let k = skip_spaces_index(l, q + 1);
                if has_bracketed_address(l, k) {
                    return Some((j, q, k));
                }
            }
        }
        j = j + 1;
    }
    None
}

enum LineKind {
    Header(String),
    Row(String, String),
    Other,
}

spec fn kind_of(k: LineKind, l: Seq<char>) -> bool {
    match k {
        LineKind::Header(n) => header_name(l) == Some(n@),
        LineKind::Row(a, b) => header_name(l) is None && row_of(l) == Some((a@, b@)),
        LineKind::Other => header_name(l) is None && row_of(l) is None,
    }
}

fn classify(ls: &str) -> (r: LineKind)
    ensures
        kind_of(r, ls@),
{
    let l = chars_of(ls);
    if l.len() >= 5 && l[0] == '#' && l[1] == '#' && l[2] == '#' && is_space_char(l[3]) {
        let (a, b) = trimmed_bounds(&l, 3, l.len());
        return LineKind::Header(ls.substring_char(a, b).to_owned());
    }
    match find_row(&l) {
        None => LineKind::Other,
        Some((p, q, k)) => {
            let (a, b) = trimmed_bounds(&l, p + 1, q);
            let label = ls.substring_char(a, b).to_owned();
            let address = ls.substring_char(k + 1, k + 43).to_owned();
            LineKind::Row(label, address)
        },
    }
}

pub open spec fn name_view(cur: Option<String>) -> Option<Seq<char>> {
    match cur {
        Some(s) => Some(s@),
        None => None,
    }
}

/// Appends `c` to the first network named `name`, or adds that network.
fn add_contract(nets: &mut Vec<Network>, name: &String, c: Contract)
    ensures
        networks_view(final(nets)@) == add_entry(networks_view(old(nets)@), name@, c@),
{
    let ghost before = networks_view(nets@);
    let mut i: usize = 0;
    while i < nets.len()
        invariant
            i <= nets@.len(),
            before == networks_view(nets@),
            before == networks_view(old(nets)@),
            forall|j: int| 0 <= j < i ==> nets@[j].name@ != name@,
        decreases nets@.len() - i,
    {
        if nets[i].name == *name {
            proof {
                assert(is_first_network(before, name@, i as int));
                let k = choose|k: int| is_first_network(before, name@, k);
                assert(k == i);
            }
            let ghost old_contracts = nets@[i as int].contracts@;
            let ghost pre = nets@;
            nets[i].contracts.push(c);
            proof {
                assert(nets@[i as int].name == pre[i as int].name);
                assert(nets@[i as int].contracts@ == old_contracts.push(c));
                assert(forall|j: int| 0 <= j < nets@.len() && j != i ==> nets@[j] == pre[j]);
                assert(nets@[i as int].contracts@.map_values(|c: Contract| c@) =~= old_contracts.map_values(
                    |c: Contract| c@,
                ).push(c@));
                assert(networks_view(nets@) =~= before.update(
                    i as int,
                    (before[i as int].0, before[i as int].1.push(c@)),
                ));
            }
            return;
        }
        i = i + 1;
    }
    proof {
        assert forall|k: int| !is_first_network(before, name@, k) by {
            if 0 <= k < before.len() {
                assert(nets@[k].name@ != name@);
            }
        }
    }
    let n = Network { name: name.clone(), contracts: vec![c] };
    nets.push(n);
    proof {
        assert(n.contracts@.map_values(|c: Contract| c@) =~= seq![c@]);
        assert(networks_view(nets@) =~= before.push((name@, seq![c@])));
    }
}

/// Parses a document into its networks, in the order of their first rows.
pub fn parse_networks(content: &str) -> (r: Result<Vec<Network>, ParseError>)
    ensures
        match r {
            Ok(v) => parse_document(content@) == Ok::<_, nat>(networks_view(v@)),
            Err(ParseError::ContractBeforeHeader { line }) => parse_document(content@) == Err::<Seq<NetworkView>, nat>(
                line as nat,
            ),
        },
{
    let chars = chars_of(content);
    let bounds = line_bounds(&chars);
    let ghost lines = lines_of(content@);
    let mut nets: Vec<Network> = Vec::new();
    let mut cur: Option<String> = None;
    let mut k: usize = 0;
    assert(networks_view(nets@) =~= seq![]);
    while k < bounds.len()
        invariant
            chars@ == content@,
            lines == lines_of(content@),
            bounds@.len() == lines.len(),
            forall|m: int|
                #![trigger bounds@[m]]
                0 <= m < bounds@.len() ==> {
                    &&& bounds@[m].0 <= bounds@[m].1
                    &&& bounds@[m].1 <= content@.len()
                    &&& lines[m] == content@.subrange(bounds@[m].0 as int, bounds@[m].1 as int)
                },
            k <= bounds@.len(),
            parse_upto(lines, k as int) == Ok::<_, nat>((networks_view(nets@), name_view(cur))),
        decreases bounds@.len() - k,
    {
        let (a, b) = bounds[k];
        let ls = content.substring_char(a, b);
        let kind = classify(ls);
        match kind {
            LineKind::Header(n) => {
                cur = Some(n);
            },
            LineKind::Row(label, address) => {
                match &cur {
                    None => {
                        proof {
                            lemma_error_persists(lines, k + 1, lines.len() as int);
                        }
                        return Err(ParseError::ContractBeforeHeader { line: k + 1 });
                    },
                    Some(c) => {
                        add_contract(&mut nets, c, Contract { name: label, address });
                    },
                }
            },
            LineKind::Other => {},
        }
        k = k + 1;
    }
    Ok(nets)
}


/// Whether `j` is the first entry whose label equals `label` up to ASCII case.
pub open spec fn is_first_label(entries: Seq<EntryView>, label: Seq<char>, j: int) -> bool {
    &&& 0 <= j < entries.len()
    &&& eq_ignore_ascii_case(entries[j].0, label)
    &&& forall|m: int| 0 <= m < j ==> !eq_ignore_ascii_case(#[trigger] entries[m].0, label)
}

pub open spec fn label_index(entries: Seq<EntryView>, label: Seq<char>) -> Option<int> {
    if exists|j: int| is_first_label(entries, label, j) {
        Some(choose|j: int| is_first_label(entries, label, j))
    } else {
        None
    }
}

/// The address text recorded for `label` in the first network named `network`.
pub open spec fn lookup(nets: Seq<NetworkView>, network: Seq<char>, label: Seq<char>) -> Option<
    Seq<char>,
> {
    match network_index(nets, network) {
        None => None,
        Some(k) => match label_index(nets[k].1, label) {
            None => None,
            Some(j) => Some(nets[k].1[j].1),
        },
    }
}

/// Looks up the address text of a contract by network name (exact) and label
/// (ignoring ASCII case); the first match wins.
pub fn find_contract_address(networks: &Vec<Network>, network_name: &str, contract_name: &str) -> (r:
    Option<String>)
    ensures
        name_view(r) == lookup(networks_view(networks@), network_name@, contract_name@),
{
    let ghost nets = networks_view(networks@);
    let want = network_name.to_owned();
    let mut i: usize = 0;
    while i < networks.len()
        invariant
            i <= networks@.len(),
            nets == networks_view(networks@),
            want@ == network_name@,
            forall|j: int| 0 <= j < i ==> networks@[j].name@ != network_name@,
        decreases networks@.len() - i,
    {
        if networks[i].name == want {
            proof {
                assert(is_first_network(nets, network_name@, i as int));
                let k = choose|k: int| is_first_network(nets, network_name@, k);
                assert(k == i);
            }
            return find_label(&networks[i].contracts, contract_name);
        }
        i = i + 1;
    }
    proof {
        assert forall|k: int| !is_first_network(nets, network_name@, k) by {
            if 0 <= k < nets.len() {
                assert(networks@[k].name@ != network_name@);
            }
        }
    }
    None
}

fn find_label(contracts: &Vec<Contract>, label: &str) -> (r: Option<String>)
    ensures
        name_view(r) == match label_index(contracts@.map_values(|c: Contract| c@), label@) {
            None => None,
            Some(j) => Some(contracts@[j].address@),
        },
{
    let ghost es = contracts@.map_values(|c: Contract| c@);
    let want = chars_of(label);
    let mut i: usize = 0;
    while i < contracts.len()
        invariant
            i <= contracts@.len(),
            es == contracts@.map_values(|c: Contract| c@),
            want@ == label@,
            forall|m: int| 0 <= m < i ==> !eq_ignore_ascii_case(#[trigger] es[m].0, label@),
        decreases contracts@.len() - i,
    {
        let name = chars_of(contracts[i].name.as_str());
        if same_ignoring_ascii_case(&name, &want) {
            proof {
                assert(is_first_label(es, label@, i as int));
                let j = choose|j: int| is_first_label(es, label@, j);
                assert(j == i);
            }
            return Some(contracts[i].address.clone());
        }
        i = i + 1;
    }
    proof {
        assert forall|j: int| !is_first_label(es, label@, j) by {
            if 0 <= j < es.len() {
                assert(!eq_ignore_ascii_case(es[j].0, label@));
            }
        }
    }
    None
}


/// Whether line `l` is a contract row: it matches the row shape and is no heading.
pub open spec fn is_row_line(l: Seq<char>) -> bool {
    header_name(l) is None && row_of(l) is Some
}

proof fn lemma_quiet_prefix(lines: Seq<Seq<char>>, n: int)
    requires
        0 <= n <= lines.len(),
        forall|j: int|
            0 <= j < n ==> header_name(#[trigger] lines[j]) is None && row_of(lines[j]) is None,
    ensures
        parse_upto(lines, n) == Ok::<_, nat>((Seq::<NetworkView>::empty(), None::<Seq<char>>)),
    decreases n,
{
    if n > 0 {
        lemma_quiet_prefix(lines, n - 1);
        assert(header_name(lines[n - 1]) is None && row_of(lines[n - 1]) is None);
    }
}

/// A contract row that comes before any network heading (and before any other
/// row) makes the parse fail, naming that row's line, counted from 1.
pub proof fn lemma_row_before_header_fails(doc: Seq<char>, i: int)
    requires
        0 <= i < lines_of(doc).len(),
        is_row_line(lines_of(doc)[i]),
        forall|j: int|
            0 <= j < i ==> header_name(#[trigger] lines_of(doc)[j]) is None && row_of(
                lines_of(doc)[j],
            ) is None,
    ensures
        parse_document(doc) == Err::<Seq<NetworkView>, nat>((i + 1) as nat),
{
    let lines = lines_of(doc);
    lemma_quiet_prefix(lines, i);
    assert(parse_upto(lines, i + 1) == Err::<(Seq<NetworkView>, Option<Seq<char>>), nat>(
        (i + 1) as nat,
    ));
    lemma_error_persists(lines, i + 1, lines.len() as int);
}

/// The rows among the first `n` lines that fall under the network `name`, in
/// document order.
pub open spec fn rows_under(lines: Seq<Seq<char>>, n: int, name: Seq<char>) -> Seq<EntryView>
    decreases n,
{
    if n <= 0 {
        seq![]
    } else {
        let prev = rows_under(lines, n - 1, name);
        let l = lines[n - 1];
        match parse_upto(lines, n - 1) {
            Ok((_, Some(c))) => if is_row_line(l) && c == name {
                prev.push(row_of(l)->0)
            } else {
                prev
            },
            _ => prev,
        }
    }
}

pub open spec fn names_unique(nets: Seq<NetworkView>) -> bool {
    forall|a: int, b: int|
        0 <= a < nets.len() && 0 <= b < nets.len() && a != b ==> (#[trigger] nets[a]).0 != (
        #[trigger] nets[b]).0
}

pub open spec fn has_network(nets: Seq<NetworkView>, name: Seq<char>) -> bool {
    exists|k: int| 0 <= k < nets.len() && (#[trigger] nets[k]).0 == name
}

/// How the parse groups rows, after any number of lines that parse: one
/// network per name, and each network holds exactly the rows under its
/// headings, in document order.
pub open spec fn grouped(lines: Seq<Seq<char>>, n: int, nets: Seq<NetworkView>) -> bool {
    &&& names_unique(nets)
    &&& forall|k: int| 0 <= k < nets.len() ==> (#[trigger] nets[k]).1 == rows_under(lines, n, nets[k].0)
    &&& forall|name: Seq<char>| !has_network(nets, name) ==> (#[trigger] rows_under(lines, n, name)).len() == 0
}

proof fn lemma_grouped_upto(lines: Seq<Seq<char>>, n: int)
    requires
        0 <= n <= lines.len(),
        parse_upto(lines, n) is Ok,
    ensures
        grouped(lines, n, parse_upto(lines, n)->Ok_0.0),
    decreases n,
{
    if n > 0 {
        assert(parse_upto(lines, n - 1) is Ok) by {
            if parse_upto(lines, n - 1) is Err {
                assert(parse_upto(lines, n) is Err);
            }
        }
        lemma_grouped_upto(lines, n - 1);
        let (nets, cur) = parse_upto(lines, n - 1)->Ok_0;
        let l = lines[n - 1];
        let after = parse_upto(lines, n)->Ok_0.0;
        if header_name(l) is Some || row_of(l) is None {
            assert(after == nets);
            assert forall|name: Seq<char>| #[trigger] rows_under(lines, n, name) == rows_under(lines, n - 1, name) by {}
        } else {
            let c = cur->0;
            let e = row_of(l)->0;
            assert forall|name: Seq<char>| name != c implies #[trigger] rows_under(lines, n, name) == rows_under(lines, n - 1, name) by {}
            assert(rows_under(lines, n, c) == rows_under(lines, n - 1, c).push(e));
            if has_network(nets, c) {
                let k = choose|k: int| 0 <= k < nets.len() && (#[trigger] nets[k]).0 == c;
                assert(is_first_network(nets, c, k)) by {
                    assert forall|j: int| 0 <= j < k implies nets[j].0 != c by {
                        assert(nets[j].0 != nets[k].0);
                    }
                }
                let k2 = choose|k: int| is_first_network(nets, c, k);
                assert(k2 == k) by {
                    if k2 != k {
                        assert(nets[k2].0 != nets[k].0);
                    }
                }
                assert(after == nets.update(k, (nets[k].0, nets[k].1.push(e))));
                assert forall|m: int| 0 <= m < after.len() implies (#[trigger] after[m]).1 == rows_under(lines, n, after[m].0) by {
                    if m != k {
                        assert(after[m] == nets[m]);
                        assert(nets[m].0 != c);
                    }
                }
                assert forall|name: Seq<char>| !has_network(after, name) implies (#[trigger] rows_under(lines, n, name)).len() == 0 by {
                    if name == c {
                        assert(after[k].0 == c);
                    }
                    assert forall|m: int| 0 <= m < nets.len() implies (#[trigger] nets[m]).0 != name by {
                        assert(after[m].0 == nets[m].0);
                    }
                }
                assert(names_unique(after)) by {
                    assert forall|a: int, b: int|
                        0 <= a < after.len() && 0 <= b < after.len() && a != b implies (#[trigger] after[a]).0 != (#[trigger] after[b]).0 by {
                        assert(after[a].0 == nets[a].0);
                        assert(after[b].0 == nets[b].0);
                    }
                }
            } else {
                assert(!exists|k: int| is_first_network(nets, c, k)) by {
                    if exists|k: int| is_first_network(nets, c, k) {
                        let k = choose|k: int| is_first_network(nets, c, k);
                        assert(nets[k].0 == c);
                    }
                }
                assert(after == nets.push((c, seq![e])));
                assert(rows_under(lines, n - 1, c).len() == 0);
                assert(rows_under(lines, n, c) =~= seq![e]);
                assert forall|m: int| 0 <= m < after.len() implies (#[trigger] after[m]).1 == rows_under(lines, n, after[m].0) by {
                    if m < nets.len() {
                        assert(after[m] == nets[m]);
                        assert(nets[m].0 != c);
                    }
                }
                assert forall|name: Seq<char>| !has_network(after, name) implies (#[trigger] rows_under(lines, n, name)).len() == 0 by {
                    assert(after[nets.len() as int].0 == c);
                    assert forall|m: int| 0 <= m < nets.len() implies (#[trigger] nets[m]).0 != name by {
                        assert(after[m] == nets[m]);
                    }
                }
                assert(names_unique(after)) by {
                    assert forall|a: int, b: int|
                        0 <= a < after.len() && 0 <= b < after.len() && a != b implies (#[trigger] after[a]).0 != (#[trigger] after[b]).0 by {
                        if a < nets.len() && b < nets.len() {
                            assert(after[a] == nets[a]);
                            assert(after[b] == nets[b]);
                        } else if a < nets.len() {
                            assert(after[a] == nets[a]);
                            assert(nets[a].0 != c);
                        } else {
                            assert(after[b] == nets[b]);
                            assert(nets[b].0 != c);
                        }
                    }
                }
            }
        }
    } else {
        assert forall|name: Seq<char>| #[trigger] rows_under(lines, n, name).len() == 0 by {}
    }
}

/// Rows under the same network heading, also headings repeated further down,
/// land in one network, in document order; no two networks share a name.
pub proof fn lemma_parse_groups_rows(doc: Seq<char>)
    requires
        parse_document(doc) is Ok,
    ensures
        grouped(lines_of(doc), lines_of(doc).len() as int, parse_document(doc)->Ok_0),
{
    lemma_grouped_upto(lines_of(doc), lines_of(doc).len() as int);
}

} // verus!
