//! Writing a registry back out as a document that the parser reads back.
use vstd::prelude::*;
use vstd::string::StringExecFns;
use crate::registry::{
    header_name, is_hex_digit, names_unique, networks_view,
    next_pipe, parse_document, parse_upto, row_of, skip_spaces, EntryView, Network, NetworkView,
    is_first_network, row_at, row_fields, row_from, bracketed_address_at, add_entry,
};
use crate::registry::{lemma_parse_groups_rows, grouped};
use crate::text::{is_space, lines_of, lines_upto, strip_cr, trim, trim_end, trim_start};

verus! {

/// Joins lines, each followed by a line feed.
pub open spec fn join_lines(ls: Seq<Seq<char>>) -> Seq<char>
    decreases ls.len(),
{
    if ls.len() == 0 {
        seq![]
    } else {
        join_lines(ls.drop_last()) + ls.last().push('\n')
    }
}

/// A line that splitting keeps whole: no line feed, no trailing carriage return.
pub open spec fn plain_line(l: Seq<char>) -> bool {
    &&& forall|i: int| 0 <= i < l.len() ==> l[i] != '\n'
    &&& (l.len() > 0 ==> l.last() != '\r')
}

proof fn lemma_lines_upto_prefix(s: Seq<char>, t: Seq<char>, i: int)
    requires
        0 <= i <= s.len(),
        i <= t.len(),
        s.subrange(0, i) == t.subrange(0, i),
    ensures
        lines_upto(s, i) == lines_upto(t, i),
    decreases i,
{
    if i > 0 {
        assert(s.subrange(0, i - 1) =~= s.subrange(0, i).subrange(0, i - 1));
        assert(t.subrange(0, i - 1) =~= t.subrange(0, i).subrange(0, i - 1));
        lemma_lines_upto_prefix(s, t, i - 1);
        assert(s[i - 1] == s.subrange(0, i)[i - 1]);
        assert(t[i - 1] == t.subrange(0, i)[i - 1]);
        let st = lines_upto(s, i - 1).1;
        crate::text::lemma_lines_upto_bounds(s, i - 1);
        assert(s.subrange(st, i - 1) =~= s.subrange(0, i).subrange(st, i - 1));
        assert(t.subrange(st, i - 1) =~= t.subrange(0, i).subrange(st, i - 1));
    }
}

proof fn lemma_lines_upto_within(t: Seq<char>, start: int, l: Seq<char>, prefix: Seq<Seq<char>>, i: int)
    requires
        0 <= start <= i <= start + l.len() <= t.len(),
        t.subrange(start, start + l.len()) == l,
        plain_line(l),
        lines_upto(t, start) == (prefix, start),
    ensures
        lines_upto(t, i) == (prefix, start),
    decreases i - start,
{
    if i > start {
        lemma_lines_upto_within(t, start, l, prefix, i - 1);
        assert(t[i - 1] == l[i - 1 - start]);
    }
}

proof fn lemma_lines_of_join(ls: Seq<Seq<char>>)
    requires
        forall|k: int| 0 <= k < ls.len() ==> plain_line(#[trigger] ls[k]),
    ensures
        lines_upto(join_lines(ls), join_lines(ls).len() as int) == (ls, join_lines(ls).len() as int),
        lines_of(join_lines(ls)) == ls,
    decreases ls.len(),
{
    if ls.len() > 0 {
        let prefix = ls.drop_last();
        assert forall|k: int| 0 <= k < prefix.len() implies plain_line(#[trigger] prefix[k]) by {
            assert(prefix[k] == ls[k]);
        }
        lemma_lines_of_join(prefix);
        let s = join_lines(prefix);
        let l = ls.last();
        assert(plain_line(l));
        let t = join_lines(ls);
        assert(t == s + l.push('\n'));
        let n = s.len() as int;
        assert(t.subrange(0, n) =~= s.subrange(0, n));
        lemma_lines_upto_prefix(s, t, n);
        assert(t.subrange(n, n + l.len()) =~= l);
        lemma_lines_upto_within(t, n, l, prefix, n + l.len());
        assert(t[n + l.len()] == '\n');
        assert(strip_cr(l) == l);
        assert(prefix.push(l) =~= ls);
    }
    let t = join_lines(ls);
    crate::text::lemma_lines_upto_bounds(t, t.len() as int);
}


/// The heading line of a network.
pub open spec fn header_line(name: Seq<char>) -> Seq<char> {
    seq!['#', '#', '#', ' '] + name
}

/// The table row of an entry.
pub open spec fn row_line(e: EntryView) -> Seq<char> {
    seq!['|', ' '] + e.0 + seq![' ', '|', ' ', '['] + e.1 + seq![']', ' ', '|']
}

pub open spec fn network_lines(n: NetworkView) -> Seq<Seq<char>> {
    seq![header_line(n.0)] + n.1.map_values(|e: EntryView| row_line(e))
}

/// The lines of a document that lists `nets`: per network, its heading, then its rows.
pub open spec fn document_lines(nets: Seq<NetworkView>) -> Seq<Seq<char>>
    decreases nets.len(),
{
    if nets.len() == 0 {
        seq![]
    } else {
        document_lines(nets.drop_last()) + network_lines(nets.last())
    }
}

/// The document that lists `nets`.
pub open spec fn render(nets: Seq<NetworkView>) -> Seq<char> {
    join_lines(document_lines(nets))
}

/// Text that trimming gives back unchanged, on one line: no white space at
/// either end, no line feed.
pub open spec fn bare_text(s: Seq<char>) -> bool {
    &&& s.len() > 0 ==> !is_space(s[0]) && !is_space(s.last())
    &&& forall|i: int| 0 <= i < s.len() ==> s[i] != '\n'
}

/// Bare text that is not empty.
pub open spec fn clean_text(s: Seq<char>) -> bool {
    s.len() > 0 && bare_text(s)
}

/// An entry as the parser produces it: a bare label without pipes, and `0x`
/// with forty hex digits.
pub open spec fn well_formed_entry(e: EntryView) -> bool {
    &&& bare_text(e.0)
    &&& forall|i: int| 0 <= i < e.0.len() ==> e.0[i] != '|'
    &&& e.1.len() == 42
    &&& e.1[0] == '0'
    &&& e.1[1] == 'x'
    &&& forall|i: int| 2 <= i < 42 ==> is_hex_digit(#[trigger] e.1[i])
}

/// A registry as the parser produces it, with no empty network name:
/// distinct clean names, each network with at least one well-formed entry.
pub open spec fn well_formed(nets: Seq<NetworkView>) -> bool {
    &&& names_unique(nets)
    &&& forall|k: int|
        0 <= k < nets.len() ==> {
            &&& clean_text((#[trigger] nets[k]).0)
            &&& nets[k].1.len() > 0
            &&& forall|j: int| 0 <= j < nets[k].1.len() ==> well_formed_entry(#[trigger] nets[k].1[j])
        }
}

proof fn lemma_trim_start_spaces(s: Seq<char>)
    requires
        forall|i: int| 0 <= i < s.len() ==> is_space(#[trigger] s[i]),
    ensures
        trim_start(s).len() == 0,
    decreases s.len(),
{
    if s.len() > 0 {
        lemma_trim_start_spaces(s.drop_first());
    }
}

proof fn lemma_trim_clean(s: Seq<char>, pre: Seq<char>, post: Seq<char>)
    requires
        bare_text(s),
        forall|i: int| 0 <= i < pre.len() ==> is_space(#[trigger] pre[i]),
        forall|i: int| 0 <= i < post.len() ==> is_space(#[trigger] post[i]),
    ensures
        trim(pre + s + post) == s,
    decreases pre.len() + post.len(),
{
    if pre.len() > 0 {
        assert((pre + s + post).drop_first() =~= pre.drop_first() + s + post);
        lemma_trim_clean(s, pre.drop_first(), post);
        assert(trim_start(pre + s + post) == trim_start(pre.drop_first() + s + post));
    } else if s.len() == 0 {
        assert(pre + s + post =~= post);
        lemma_trim_start_spaces(post);
        assert(trim_start(post) =~= s);
    } else if post.len() > 0 {
        assert((pre + s + post).drop_last() =~= pre + s + post.drop_last());
        lemma_trim_clean(s, pre, post.drop_last());
        assert(pre + s + post =~= s + post);
        assert(pre + s + post.drop_last() =~= s + post.drop_last());
        assert(trim_start(s + post) == s + post);
        assert(trim_start(s + post.drop_last()) == s + post.drop_last());
        assert(trim_end(s + post) == trim_end(s + post.drop_last()));
    } else {
        assert(pre + s + post =~= s);
        assert(trim_start(s) == s);
        assert(trim_end(s) == s);
    }
}

proof fn lemma_header_line(name: Seq<char>)
    requires
        clean_text(name),
    ensures
        header_name(header_line(name)) == Some(name),
        plain_line(header_line(name)),
{
    let l = header_line(name);
    assert(l.subrange(3, l.len() as int) =~= seq![' '] + name + Seq::<char>::empty());
    lemma_trim_clean(name, seq![' '], Seq::<char>::empty());
    assert(l.last() == name.last());
    assert forall|i: int| 0 <= i < l.len() implies l[i] != '\n' by {
        if i >= 4 {
            assert(l[i] == name[i - 4]);
        }
    }
}

proof fn lemma_next_pipe_at(l: Seq<char>, j: int, q: int)
    requires
        0 <= j <= q < l.len(),
        l[q] == '|',
        forall|i: int| j <= i < q ==> l[i] != '|',
    ensures
        next_pipe(l, j) == q,
    decreases q - j,
{
    if j < q {
        lemma_next_pipe_at(l, j + 1, q);
    }
}

proof fn lemma_row_line(e: EntryView)
    requires
        well_formed_entry(e),
    ensures
        header_name(row_line(e)) is None,
        row_of(row_line(e)) == Some(e),
        plain_line(row_line(e)),
{
    let l = row_line(e);
    let n = e.0.len() as int;
    assert(l.len() == n + 51);
    assert(l[0] == '|');
    assert forall|i: int| 2 <= i < 2 + n implies l[i] == e.0[i - 2] by {}
    assert(l[2 + n] == ' ');
    assert(l[3 + n] == '|');
    assert(l[4 + n] == ' ');
    assert(l[5 + n] == '[');
    assert forall|i: int| 6 + n <= i < 48 + n implies l[i] == e.1[i - 6 - n] by {}
    assert(l[48 + n] == ']');
    assert(l[50 + n] == '|');
    assert forall|i: int| 1 <= i < 3 + n implies l[i] != '|' by {
        if 2 <= i < 2 + n {
            assert(e.0[i - 2] != '|');
        }
    }
    lemma_next_pipe_at(l, 1, 3 + n);
    assert(!is_space(l[5 + n]));
    assert(skip_spaces(l, 5 + n) == 5 + n);
    assert(is_space(l[4 + n]));
    assert(skip_spaces(l, 4 + n) == 5 + n);
    let k = 5 + n;
    assert forall|i: int| 3 <= i < 43 implies is_hex_digit(#[trigger] l[k + i]) by {
        assert(l[k + i] == e.1[i - 1]);
    }
    assert(bracketed_address_at(l, k));
    assert(row_at(l, 0));
    assert(l.subrange(1, 3 + n) =~= seq![' '] + e.0 + seq![' ']);
    lemma_trim_clean(e.0, seq![' '], seq![' ']);
    assert(l.subrange(k + 1, k + 43) =~= e.1);
    assert(row_fields(l, 0) == e);
    assert(row_from(l, 0) == Some(row_fields(l, 0)));
    assert forall|i: int| 0 <= i < l.len() implies l[i] != '\n' by {
        if 2 <= i < 2 + n {
            assert(e.0[i - 2] != '\n');
        } else if 6 + n <= i < 48 + n {
            assert(e.1[i - 6 - n] != '\n') by {
                if i - 6 - n >= 2 {
                    assert(is_hex_digit(e.1[i - 6 - n]));
                }
            }
        }
    }
}


proof fn lemma_parse_upto_prefix(a: Seq<Seq<char>>, b: Seq<Seq<char>>, n: int)
    requires
        0 <= n <= a.len(),
        n <= b.len(),
        a.subrange(0, n) == b.subrange(0, n),
    ensures
        parse_upto(a, n) == parse_upto(b, n),
    decreases n,
{
    if n > 0 {
        assert(a.subrange(0, n - 1) =~= a.subrange(0, n).subrange(0, n - 1));
        assert(b.subrange(0, n - 1) =~= b.subrange(0, n).subrange(0, n - 1));
        lemma_parse_upto_prefix(a, b, n - 1);
        assert(a[n - 1] == a.subrange(0, n)[n - 1]);
        assert(b[n - 1] == b.subrange(0, n)[n - 1]);
    }
}

pub open spec fn names_exclude(nets: Seq<NetworkView>, name: Seq<char>) -> bool {
    forall|m: int| 0 <= m < nets.len() ==> (#[trigger] nets[m]).0 != name
}

proof fn lemma_parse_network(
    lines: Seq<Seq<char>>,
    base: int,
    before: Seq<NetworkView>,
    cur: Option<Seq<char>>,
    n: NetworkView,
    j: int,
)
    requires
        0 <= base,
        base + 1 + n.1.len() <= lines.len(),
        lines.subrange(base, base + 1 + n.1.len()) == network_lines(n),
        parse_upto(lines, base) == Ok::<_, nat>((before, cur)),
        names_exclude(before, n.0),
        clean_text(n.0),
        forall|i: int| 0 <= i < n.1.len() ==> well_formed_entry(#[trigger] n.1[i]),
        0 <= j <= n.1.len(),
    ensures
        parse_upto(lines, base + 1 + j) == Ok::<_, nat>(
            (
                if j == 0 {
                    before
                } else {
                    before.push((n.0, n.1.subrange(0, j)))
                },
                Some(n.0),
            ),
        ),
    decreases j,
{
    let nl = network_lines(n);
    if j == 0 {
        assert(lines[base] == nl[0]);
        lemma_header_line(n.0);
    } else {
        lemma_parse_network(lines, base, before, cur, n, j - 1);
        let e = n.1[j - 1];
        assert(lines[base + j] == nl[j]);
        assert(nl[j] == row_line(e));
        lemma_row_line(e);
        let prev = if j - 1 == 0 {
            before
        } else {
            before.push((n.0, n.1.subrange(0, j - 1)))
        };
        assert(parse_upto(lines, base + 1 + j) == Ok::<_, nat>((add_entry(prev, n.0, e), Some(n.0))));
        if j - 1 == 0 {
            assert(!exists|k: int| is_first_network(before, n.0, k)) by {
                if exists|k: int| is_first_network(before, n.0, k) {
                    let k = choose|k: int| is_first_network(before, n.0, k);
                    assert(before[k].0 == n.0);
                }
            }
            assert(n.1.subrange(0, j) =~= seq![e]);
        } else {
            let k = before.len() as int;
            assert(is_first_network(prev, n.0, k)) by {
                assert forall|m: int| 0 <= m < k implies prev[m].0 != n.0 by {
                    assert(prev[m] == before[m]);
                }
            }
            let k2 = choose|k: int| is_first_network(prev, n.0, k);
            assert(k2 == k) by {
                if k2 < k {
                    assert(prev[k2] == before[k2]);
                }
            }
            assert(n.1.subrange(0, j - 1).push(e) =~= n.1.subrange(0, j));
            assert(prev.update(k, (prev[k].0, prev[k].1.push(e))) =~= before.push(
                (n.0, n.1.subrange(0, j)),
            ));
        }
    }
}

proof fn lemma_parse_document_lines(nets: Seq<NetworkView>)
    requires
        well_formed(nets),
    ensures
        parse_upto(document_lines(nets), document_lines(nets).len() as int) == Ok::<_, nat>(
            (
                nets,
                if nets.len() == 0 {
                    None
                } else {
                    Some(nets.last().0)
                },
            ),
        ),
        forall|k: int|
            0 <= k < document_lines(nets).len() ==> plain_line(#[trigger] document_lines(nets)[k]),
    decreases nets.len(),
{
    if nets.len() > 0 {
        let prev = nets.drop_last();
        let last = nets.last();
        assert(well_formed(prev)) by {
            assert forall|a: int, b: int|
                0 <= a < prev.len() && 0 <= b < prev.len() && a != b implies (#[trigger] prev[a]).0
                != (#[trigger] prev[b]).0 by {
                assert(nets[a].0 != nets[b].0);
            }
            assert forall|k: int| 0 <= k < prev.len() implies {
                &&& clean_text((#[trigger] prev[k]).0)
                &&& prev[k].1.len() > 0
                &&& forall|j: int| 0 <= j < prev[k].1.len() ==> well_formed_entry(#[trigger] prev[k].1[j])
            } by {
                assert(prev[k] == nets[k]);
            }
        }
        lemma_parse_document_lines(prev);
        let dp = document_lines(prev);
        let d = document_lines(nets);
        let nl = network_lines(last);
        assert(d == dp + nl);
        let base = dp.len() as int;
        assert(d.subrange(0, base) =~= dp.subrange(0, base));
        assert(dp.subrange(0, base) =~= dp);
        lemma_parse_upto_prefix(d, dp, base);
        assert(d.subrange(base, base + 1 + last.1.len()) =~= nl);
        let k_last = nets.len() - 1;
        assert(names_exclude(prev, last.0)) by {
            assert forall|m: int| 0 <= m < prev.len() implies (#[trigger] prev[m]).0 != last.0 by {
                assert(nets[m].0 != nets[k_last].0);
            }
        }
        assert(clean_text(nets[k_last].0));
        assert forall|i: int| 0 <= i < last.1.len() implies well_formed_entry(#[trigger] last.1[i]) by {
            assert(well_formed_entry(nets[k_last].1[i]));
        }
        let cur = if prev.len() == 0 {
            None
        } else {
            Some(prev.last().0)
        };
        lemma_parse_network(d, base, prev, cur, last, last.1.len() as int);
        assert(last.1.subrange(0, last.1.len() as int) =~= last.1);
        assert(prev.push(last) =~= nets);
        assert(d.len() == base + 1 + last.1.len());
        assert forall|k: int| 0 <= k < d.len() implies plain_line(#[trigger] d[k]) by {
            if k < base {
                assert(d[k] == dp[k]);
            } else if k == base {
                assert(d[k] == header_line(last.0));
                lemma_header_line(last.0);
            } else {
                assert(d[k] == nl[k - base]);
                assert(nl[k - base] == row_line(last.1[k - base - 1]));
                lemma_row_line(last.1[k - base - 1]);
            }
        }
    } else {
        assert(nets =~= Seq::<NetworkView>::empty());
    }
}

/// Rendering a well-formed registry and parsing the text gives the registry back.
pub proof fn lemma_render_round_trip(nets: Seq<NetworkView>)
    requires
        well_formed(nets),
    ensures
        parse_document(render(nets)) == Ok::<_, nat>(nets),
{
    lemma_parse_document_lines(nets);
    lemma_lines_of_join(document_lines(nets));
}



pub open spec fn no_line_feed(s: Seq<char>) -> bool {
    forall|i: int| 0 <= i < s.len() ==> s[i] != '\n'
}

proof fn lemma_lines_upto_single(s: Seq<char>, i: int)
    requires
        0 <= i <= s.len(),
    ensures
        0 <= lines_upto(s, i).1 <= i,
        forall|j: int| lines_upto(s, i).1 <= j < i ==> s[j] != '\n',
        forall|k: int| 0 <= k < lines_upto(s, i).0.len() ==> no_line_feed(#[trigger] lines_upto(s, i).0[k]),
    decreases i,
{
    if i > 0 {
        lemma_lines_upto_single(s, i - 1);
        let (ls, st) = lines_upto(s, i - 1);
        if s[i - 1] == '\n' {
            let l = strip_cr(s.subrange(st, i - 1));
            assert(no_line_feed(l)) by {
                assert forall|m: int| 0 <= m < l.len() implies l[m] != '\n' by {
                    assert(l[m] == s[st + m]);
                }
            }
            assert forall|k: int| 0 <= k < ls.push(l).len() implies no_line_feed(#[trigger] ls.push(l)[k]) by {
                if k < ls.len() {
                    assert(ls.push(l)[k] == ls[k]);
                }
            }
        }
    }
}

proof fn lemma_lines_single(s: Seq<char>)
    ensures
        forall|k: int| 0 <= k < lines_of(s).len() ==> no_line_feed(#[trigger] lines_of(s)[k]),
{
    let n = s.len() as int;
    lemma_lines_upto_single(s, n);
    let (ls, st) = lines_upto(s, n);
    if st < n {
        let l = s.subrange(st, n);
        assert(no_line_feed(l)) by {
            assert forall|m: int| 0 <= m < l.len() implies l[m] != '\n' by {
                assert(l[m] == s[st + m]);
            }
        }
        assert forall|k: int| 0 <= k < ls.push(l).len() implies no_line_feed(#[trigger] ls.push(l)[k]) by {
            if k < ls.len() {
                assert(ls.push(l)[k] == ls[k]);
            }
        }
    }
}

proof fn lemma_trim_start_sub(x: Seq<char>) -> (a: int)
    ensures
        0 <= a <= x.len(),
        trim_start(x) == x.subrange(a, x.len() as int),
        a < x.len() ==> !is_space(x[a]),
    decreases x.len(),
{
    if x.len() > 0 && is_space(x[0]) {
        let a = lemma_trim_start_sub(x.drop_first());
        assert(x.drop_first().subrange(a, x.len() - 1) =~= x.subrange(a + 1, x.len() as int));
        a + 1
    } else {
        assert(x.subrange(0, x.len() as int) =~= x);
        0
    }
}

proof fn lemma_trim_end_sub(y: Seq<char>) -> (b: int)
    ensures
        0 <= b <= y.len(),
        trim_end(y) == y.subrange(0, b),
        b > 0 ==> !is_space(y[b - 1]),
    decreases y.len(),
{
    if y.len() > 0 && is_space(y.last()) {
        let b = lemma_trim_end_sub(y.drop_last());
        assert(y.drop_last().subrange(0, b) =~= y.subrange(0, b));
        b
    } else {
        assert(y.subrange(0, y.len() as int) =~= y);
        y.len() as int
    }
}

/// Trimming leaves a part of the text with no white space at either end.
proof fn lemma_trim_sub(x: Seq<char>) -> (r: (int, int))
    ensures
        0 <= r.0 <= r.1 <= x.len(),
        trim(x) == x.subrange(r.0, r.1),
        trim(x).len() > 0 ==> !is_space(trim(x)[0]) && !is_space(trim(x).last()),
{
    let a = lemma_trim_start_sub(x);
    let y = trim_start(x);
    let b = lemma_trim_end_sub(y);
    assert(y.subrange(0, b) =~= x.subrange(a, a + b));
    if b > 0 {
        assert(trim(x)[0] == y[0]);
        assert(y[0] == x[a]);
    }
    (a, a + b)
}

proof fn lemma_trim_bare(x: Seq<char>)
    requires
        no_line_feed(x),
    ensures
        bare_text(trim(x)),
{
    let (a, b) = lemma_trim_sub(x);
    assert forall|i: int| 0 <= i < trim(x).len() implies trim(x)[i] != '\n' by {
        assert(trim(x)[i] == x[a + i]);
    }
}

proof fn lemma_next_pipe_clear(l: Seq<char>, j: int)
    requires
        0 <= j <= l.len(),
    ensures
        j <= next_pipe(l, j) <= l.len(),
        forall|m: int| j <= m < next_pipe(l, j) ==> l[m] != '|',
    decreases l.len() - j,
{
    if j < l.len() && l[j] != '|' {
        lemma_next_pipe_clear(l, j + 1);
    }
}

proof fn lemma_row_from_found(l: Seq<char>, j: int) -> (p: int)
    requires
        0 <= j,
        row_from(l, j) is Some,
    ensures
        j <= p,
        row_at(l, p),
        row_from(l, j) == Some(row_fields(l, p)),
    decreases l.len() - j,
{
    if row_at(l, j) {
        j
    } else {
        lemma_row_from_found(l, j + 1)
    }
}

proof fn lemma_row_well_formed(l: Seq<char>)
    requires
        no_line_feed(l),
        row_of(l) is Some,
    ensures
        well_formed_entry(row_of(l)->0),
{
    let p = lemma_row_from_found(l, 0);
    let q = next_pipe(l, p + 1);
    let k = skip_spaces(l, q + 1);
    lemma_next_pipe_clear(l, p + 1);
    let region = l.subrange(p + 1, q);
    assert(no_line_feed(region)) by {
        assert forall|m: int| 0 <= m < region.len() implies region[m] != '\n' by {
            assert(region[m] == l[p + 1 + m]);
        }
    }
    lemma_trim_bare(region);
    let (a, b) = lemma_trim_sub(region);
    let label = trim(region);
    assert forall|i: int| 0 <= i < label.len() implies label[i] != '|' by {
        assert(label[i] == region[a + i]);
        assert(region[a + i] == l[p + 1 + a + i]);
    }
    let addr = l.subrange(k + 1, k + 43);
    assert(addr[0] == l[k + 1]);
    assert(addr[1] == l[k + 2]);
    assert forall|i: int| 2 <= i < 42 implies is_hex_digit(#[trigger] addr[i]) by {
        assert(addr[i] == l[k + (i + 1)]);
    }
}

/// What holds of every network the parse has built so far: a bare name, at
/// least one entry, every entry well formed; and the current name is bare.
pub open spec fn parsed_shape(nets: Seq<NetworkView>, cur: Option<Seq<char>>) -> bool {
    &&& (cur matches Some(c) ==> bare_text(c))
    &&& forall|k: int|
        0 <= k < nets.len() ==> {
            &&& bare_text((#[trigger] nets[k]).0)
            &&& nets[k].1.len() > 0
            &&& forall|j: int| 0 <= j < nets[k].1.len() ==> well_formed_entry(#[trigger] nets[k].1[j])
        }
}

proof fn lemma_parse_shape(lines: Seq<Seq<char>>, n: int)
    requires
        0 <= n <= lines.len(),
        forall|k: int| 0 <= k < lines.len() ==> no_line_feed(#[trigger] lines[k]),
        parse_upto(lines, n) is Ok,
    ensures
        parsed_shape(parse_upto(lines, n)->Ok_0.0, parse_upto(lines, n)->Ok_0.1),
    decreases n,
{
    if n > 0 {
        assert(parse_upto(lines, n - 1) is Ok) by {
            if parse_upto(lines, n - 1) is Err {
                assert(parse_upto(lines, n) is Err);
            }
        }
        lemma_parse_shape(lines, n - 1);
        let (nets, cur) = parse_upto(lines, n - 1)->Ok_0;
        let l = lines[n - 1];
        assert(no_line_feed(l));
        if header_name(l) is Some {
            let rest = l.subrange(3, l.len() as int);
            assert(no_line_feed(rest)) by {
                assert forall|m: int| 0 <= m < rest.len() implies rest[m] != '\n' by {
                    assert(rest[m] == l[3 + m]);
                }
            }
            lemma_trim_bare(rest);
        } else if row_of(l) is Some {
            let c = cur->0;
            let e = row_of(l)->0;
            lemma_row_well_formed(l);
            let after = add_entry(nets, c, e);
            if exists|k: int| is_first_network(nets, c, k) {
                let k = choose|k: int| is_first_network(nets, c, k);
                assert(after == nets.update(k, (nets[k].0, nets[k].1.push(e))));
                assert forall|m: int| 0 <= m < after.len() implies {
                    &&& bare_text((#[trigger] after[m]).0)
                    &&& after[m].1.len() > 0
                    &&& forall|j: int| 0 <= j < after[m].1.len() ==> well_formed_entry(#[trigger] after[m].1[j])
                } by {
                    if m == k {
                        assert forall|j: int| 0 <= j < after[m].1.len() implies well_formed_entry(#[trigger] after[m].1[j]) by {
                            if j < nets[k].1.len() {
                                assert(after[m].1[j] == nets[k].1[j]);
                            }
                        }
                    } else {
                        assert(after[m] == nets[m]);
                    }
                }
            } else {
                assert(after == nets.push((c, seq![e])));
                assert forall|m: int| 0 <= m < after.len() implies {
                    &&& bare_text((#[trigger] after[m]).0)
                    &&& after[m].1.len() > 0
                    &&& forall|j: int| 0 <= j < after[m].1.len() ==> well_formed_entry(#[trigger] after[m].1[j])
                } by {
                    if m < nets.len() {
                        assert(after[m] == nets[m]);
                    } else {
                        assert(after[m].1 == seq![e]);
                    }
                }
            }
        }
    }
}

/// Parsing again what the parser produced, once rendered, gives the same
/// registry, provided no network heading was blank (a blank name renders as a
/// line that is no heading).
pub proof fn lemma_reparse_rendered(doc: Seq<char>)
    requires
        parse_document(doc) is Ok,
        forall|k: int|
            0 <= k < parse_document(doc)->Ok_0.len() ==> (#[trigger] parse_document(doc)->Ok_0[k]).0.len()
                > 0,
    ensures
        parse_document(render(parse_document(doc)->Ok_0)) == parse_document(doc),
{
    let nets = parse_document(doc)->Ok_0;
    let lines = lines_of(doc);
    lemma_lines_single(doc);
    lemma_parse_shape(lines, lines.len() as int);
    lemma_parse_groups_rows(doc);
    assert(grouped(lines, lines.len() as int, nets));
    assert(well_formed(nets)) by {
        assert forall|k: int| 0 <= k < nets.len() implies {
            &&& clean_text((#[trigger] nets[k]).0)
            &&& nets[k].1.len() > 0
            &&& forall|j: int| 0 <= j < nets[k].1.len() ==> well_formed_entry(#[trigger] nets[k].1[j])
        } by {
            assert(nets[k].0.len() > 0);
        }
    }
    lemma_render_round_trip(nets);
}

proof fn lemma_join_push(ls: Seq<Seq<char>>, l: Seq<char>)
    ensures
        join_lines(ls.push(l)) == join_lines(ls) + l.push('\n'),
{
    assert(ls.push(l).drop_last() =~= ls);
}

/// Writes the registry as a document: per network a `### name` heading, then
/// one `| label | [address] |` row per contract.
pub fn render_networks(networks: &Vec<Network>) -> (r: String)
    ensures
        r@ == render(networks_view(networks@)),
{
    let ghost nv = networks_view(networks@);
    let mut out = String::new();
    let mut i: usize = 0;
    proof {
        reveal_strlit("### ");
        reveal_strlit("\n");
        reveal_strlit("| ");
        reveal_strlit(" | [");
        reveal_strlit("] |\n");
        assert(document_lines(nv.subrange(0, 0)) =~= Seq::<Seq<char>>::empty());
    }
    while i < networks.len()
        invariant
            i <= networks@.len(),
            nv == networks_view(networks@),
            out@ == join_lines(document_lines(nv.subrange(0, i as int))),
            "### "@ =~= seq!['#', '#', '#', ' '],
            "\n"@ =~= seq!['\n'],
            "| "@ =~= seq!['|', ' '],
            " | ["@ =~= seq![' ', '|', ' ', '['],
            "] |\n"@ =~= seq![']', ' ', '|', '\n'],
        decreases networks@.len() - i,
    {
        let n = &networks[i];
        let ghost done = document_lines(nv.subrange(0, i as int));
        let ghost nl = network_lines(nv[i as int]);
        out.append("### ");
        out.append(n.name.as_str());
        out.append("\n");
        proof {
            lemma_join_push(done, header_line(n.name@));
            assert(out@ =~= join_lines(done) + header_line(n.name@).push('\n'));
            assert(nl.subrange(0, 1) =~= seq![header_line(n.name@)]);
            assert(done + nl.subrange(0, 1) =~= done.push(header_line(n.name@)));
        }
        let mut j: usize = 0;
        while j < n.contracts.len()
            invariant
                j <= n.contracts@.len(),
                nv == networks_view(networks@),
                i < networks@.len(),
                *n == networks@[i as int],
                nl == network_lines(nv[i as int]),
                nl.len() == 1 + n.contracts@.len(),
                out@ == join_lines(done + nl.subrange(0, j + 1)),
                "| "@ =~= seq!['|', ' '],
                " | ["@ =~= seq![' ', '|', ' ', '['],
                "] |\n"@ =~= seq![']', ' ', '|', '\n'],
            decreases n.contracts@.len() - j,
        {
            let c = &n.contracts[j];
            out.append("| ");
            out.append(c.name.as_str());
            out.append(" | [");
            out.append(c.address.as_str());
            out.append("] |\n");
            proof {
                let row = row_line(c@);
                assert(nl[j + 1] == row);
                lemma_join_push(done + nl.subrange(0, j + 1), row);
                assert((done + nl.subrange(0, j + 1)).push(row) =~= done + nl.subrange(0, j + 2));
                assert(out@ =~= join_lines(done + nl.subrange(0, j + 1)) + row.push('\n'));
            }
            j = j + 1;
        }
        proof {
            assert(nl.subrange(0, nl.len() as int) =~= nl);
            assert(nv.subrange(0, i + 1).drop_last() =~= nv.subrange(0, i as int));
            assert(document_lines(nv.subrange(0, i + 1)) == done + nl);
        }
        i = i + 1;
    }
    proof {
        assert(nv.subrange(0, nv.len() as int) =~= nv);
    }
    out
}

} // verus!
