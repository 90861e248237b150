//! Character-level helpers over the document text: white space, trimming,
//! splitting into lines and ASCII case folding.
use vstd::prelude::*;
use vstd::std_specs::iter::IteratorSpec;

verus! {

broadcast use vstd::string::group_string_axioms;

/// Unicode `White_Space`: the class matched by `\s` and removed by `str::trim`.
pub open spec fn is_space(c: char) -> bool {
    let u = c as u32;
    u == 0x20 || (0x09 <= u && u <= 0x0d) || u == 0x85 || u == 0xa0 || u == 0x1680 || (0x2000
        <= u && u <= 0x200a) || u == 0x2028 || u == 0x2029 || u == 0x202f || u == 0x205f || u
        == 0x3000
}

pub fn is_space_char(c: char) -> (r: bool)
    ensures
        r == is_space(c),
{
    let u = c as u32;
    u == 0x20 || (0x09 <= u && u <= 0x0d) || u == 0x85 || u == 0xa0 || u == 0x1680 || (0x2000
        <= u && u <= 0x200a) || u == 0x2028 || u == 0x2029 || u == 0x202f || u == 0x205f || u
        == 0x3000
}

/// `s` without its leading white space.
pub open spec fn trim_start(s: Seq<char>) -> Seq<char>
    decreases s.len(),
{
    if s.len() > 0 && is_space(s[0]) {
        trim_start(s.drop_first())
    } else {
        s
    }
}

/// `s` without its trailing white space.
pub open spec fn trim_end(s: Seq<char>) -> Seq<char>
    decreases s.len(),
{
    if s.len() > 0 && is_space(s.last()) {
        trim_end(s.drop_last())
    } else {
        s
    }
}

/// `s` without leading and trailing white space.
pub open spec fn trim(s: Seq<char>) -> Seq<char> {
    trim_end(trim_start(s))
}

/// The bounds of the trimmed part of `s[lo..hi]`.
pub fn trimmed_bounds(s: &Vec<char>, lo: usize, hi: usize) -> (r: (usize, usize))
    requires
        lo <= hi <= s@.len(),
    ensures
        lo <= r.0 <= r.1 <= hi,
        s@.subrange(r.0 as int, r.1 as int) == trim(s@.subrange(lo as int, hi as int)),
{
    let mut a: usize = lo;
    while a < hi && is_space_char(s[a])
        invariant
            lo <= a <= hi <= s@.len(),
            trim_start(s@.subrange(lo as int, hi as int)) == trim_start(
                s@.subrange(a as int, hi as int),
            ),
        decreases hi - a,
    {
        assert(s@.subrange(a as int, hi as int).drop_first() =~= s@.subrange(
            a + 1,
            hi as int,
        ));
        a = a + 1;
    }
    let mut b: usize = hi;
    while b > a && is_space_char(s[b - 1])
        invariant
            lo <= a <= b <= hi <= s@.len(),
            trim_start(s@.subrange(lo as int, hi as int)) == s@.subrange(a as int, hi as int) ==>
                trim(s@.subrange(lo as int, hi as int)) == trim_end(s@.subrange(a as int, b as int)),
            a < hi ==> !is_space(s@[a as int]),
        decreases b - a,
    {
        assert(s@.subrange(a as int, b as int).drop_last() =~= s@.subrange(
            a as int,
            b - 1,
        ));
        b = b - 1;
    }
    assert(trim_start(s@.subrange(lo as int, hi as int)) == s@.subrange(a as int, hi as int));
    (a, b)
}

/// The characters of `s`.
pub fn chars_of(s: &str) -> (r: Vec<char>)
    ensures
        r@ == s@,
{
    let mut out: Vec<char> = Vec::new();
    let mut it = s.chars();
    let ghost all = s@;
    assert(it.remaining() == all);
    loop
        invariant
            it.obeys_prophetic_iter_laws(),
            all == out@ + it.remaining(),
        ensures
            out@ == all,
        decreases all.len() - out@.len(),
    {
        match it.next() {
            Some(c) => {
                out.push(c);
            },
            None => {
                assert(out@ =~= all);
                break;
            },
        }
    }
    out
}

/// Drops one trailing carriage return.
pub open spec fn strip_cr(l: Seq<char>) -> Seq<char> {
    if l.len() > 0 && l.last() == '\r' {
        l.drop_last()
    } else {
        l
    }
}

/// Scanning the first `i` characters of `s`: the lines ended by a line feed so
/// far, and where the line that is still open starts.
pub open spec fn lines_upto(s: Seq<char>, i: int) -> (Seq<Seq<char>>, int)
    decreases i,
{
    if i <= 0 {
        (seq![], 0)
    } else {
        let (ls, st) = lines_upto(s, i - 1);
        if s[i - 1] == '\n' {
            (ls.push(strip_cr(s.subrange(st, i - 1))), i)
        } else {
            (ls, st)
        }
    }
}

/// The lines of `s` as `str::lines` yields them: split at `\n`, a `\r` before
/// the `\n` dropped, no empty line after a final `\n`.
pub open spec fn lines_of(s: Seq<char>) -> Seq<Seq<char>> {
    let (ls, st) = lines_upto(s, s.len() as int);
    if st < s.len() {
        ls.push(s.subrange(st, s.len() as int))
    } else {
        ls
    }
}

pub proof fn lemma_lines_upto_bounds(s: Seq<char>, i: int)
    requires
        0 <= i <= s.len(),
    ensures
        0 <= lines_upto(s, i).1 <= i,
    decreases i,
{
    if i > 0 {
        lemma_lines_upto_bounds(s, i - 1);
    }
}

/// The bounds of each line of `s`, as `lines_of` gives them.
pub fn line_bounds(s: &Vec<char>) -> (r: Vec<(usize, usize)>)
    ensures
        r@.len() == lines_of(s@).len(),
        forall|k: int|
            #![trigger r@[k]]
            0 <= k < r@.len() ==> {
                &&& r@[k].0 <= r@[k].1
                &&& r@[k].1 <= s@.len()
                &&& lines_of(s@)[k] == s@.subrange(r@[k].0 as int, r@[k].1 as int)
            },
{
    let mut out: Vec<(usize, usize)> = Vec::new();
    let mut start: usize = 0;
    let mut i: usize = 0;
    while i < s.len()
        invariant
            0 <= start <= i <= s@.len(),
            lines_upto(s@, i as int).1 == start,
            out@.len() == lines_upto(s@, i as int).0.len(),
            forall|k: int|
                #![trigger out@[k]]
                0 <= k < out@.len() ==> {
                    &&& out@[k].0 <= out@[k].1
                    &&& out@[k].1 <= s@.len()
                    &&& lines_upto(s@, i as int).0[k] == s@.subrange(
                        out@[k].0 as int,
                        out@[k].1 as int,
                    )
                },
        decreases s@.len() - i,
    {
        if s[i] == '\n' {
            let end: usize = if i > start && s[i - 1] == '\r' {
                i - 1
            } else {
                i
            };
            proof {
                let l = s@.subrange(start as int, i as int);
                if i > start {
                    assert(l.last() == s@[i - 1]);
                    assert(l.drop_last() =~= s@.subrange(start as int, i - 1));
                }
                assert(strip_cr(l) == s@.subrange(start as int, end as int));
                assert(lines_upto(s@, i + 1) == (lines_upto(s@, i as int).0.push(strip_cr(l)), i + 1));
            }
            let ghost prev = out@;
            out.push((start, end));
            proof {
                let ls = lines_upto(s@, i as int).0;
                assert forall|k: int| 0 <= k < out@.len() implies {
                    &&& out@[k].0 <= out@[k].1
                    &&& out@[k].1 <= s@.len()
                    &&& lines_upto(s@, i + 1).0[k] == s@.subrange(
                        out@[k].0 as int,
                        out@[k].1 as int,
                    )
                } by {
                    if k < prev.len() {
                        assert(out@[k] == prev[k]);
                        assert(ls.push(strip_cr(s@.subrange(start as int, i as int)))[k] == ls[k]);
                    }
                }
            }
            start = i + 1;
        }
        proof {
            if s@[i as int] != '\n' {
                assert(lines_upto(s@, i + 1) == lines_upto(s@, i as int));
            }
        }
        i = i + 1;
    }
    let ghost prev = out@;
    if start < s.len() {
        out.push((start, s.len()));
    }
    proof {
        let ls = lines_upto(s@, s@.len() as int).0;
        assert forall|k: int| 0 <= k < out@.len() implies {
            &&& out@[k].0 <= out@[k].1
                    &&& out@[k].1 <= s@.len()
            &&& lines_of(s@)[k] == s@.subrange(out@[k].0 as int, out@[k].1 as int)
        } by {
            if k < prev.len() {
                assert(out@[k] == prev[k]);
                assert(ls.push(s@.subrange(start as int, s@.len() as int))[k] == ls[k]);
            }
        }
    }
    out
}

/// The code of `c` with ASCII upper-case letters mapped to lower case.
pub open spec fn ascii_lower(c: char) -> u32 {
    let u = c as u32;
    if 0x41 <= u && u <= 0x5a {
        (u + 32) as u32
    } else {
        u
    }
}

/// Equal up to ASCII case, as `str::eq_ignore_ascii_case` decides.
pub open spec fn eq_ignore_ascii_case(a: Seq<char>, b: Seq<char>) -> bool {
    a.len() == b.len() && forall|i: int| 0 <= i < a.len() ==> ascii_lower(a[i]) == ascii_lower(b[i])
}

pub fn same_ignoring_ascii_case(a: &Vec<char>, b: &Vec<char>) -> (r: bool)
    ensures
        r == eq_ignore_ascii_case(a@, b@),
{
    if a.len() != b.len() {
        return false;
    }
    let mut i: usize = 0;
    while i < a.len()
        invariant
            a@.len() == b@.len(),
            i <= a@.len(),
            forall|j: int| 0 <= j < i ==> ascii_lower(a@[j]) == ascii_lower(b@[j]),
        decreases a@.len() - i,
    {
        let x = a[i] as u32;
        let y = b[i] as u32;
        let lx = if 0x41 <= x && x <= 0x5a { x + 32 } else { x };
        let ly = if 0x41 <= y && y <= 0x5a { y + 32 } else { y };
        if lx != ly {
            return false;
        }
        i = i + 1;
    }
    true
}

} // verus!
