use vstd::prelude::*;

use crate::pattern::{regex_compiles, regex_is_match, Pattern};
use crate::range::{expanded_set, interval, shifted, Range};
use crate::red_buffer::RedBuffer;
use crate::text::{chars_of, string_of};

verus! {

pub open spec fn is_digit(c: char) -> bool {
    '0' <= c && c <= '9'
}

pub open spec fn digit_value(c: char) -> int {
    (c as int) - ('0' as int)
}

/// The end of the run of digits that starts at `p`.
pub open spec fn digits_end(s: Seq<char>, p: int) -> int
    decreases s.len() - p,
{
    if 0 <= p < s.len() && is_digit(s[p]) {
        digits_end(s, p + 1)
    } else {
        p
    }
}

/// The decimal value of the digits `s[p..e]`.
pub open spec fn digits_value(s: Seq<char>, p: int, e: int) -> int
    decreases e - p,
{
    if e <= p {
        0
    } else {
        digits_value(s, p, e - 1) * 10 + digit_value(s[e - 1])
    }
}

/// An unsigned number at `p` that fits in `usize`, and where it ends.
pub open spec fn unsigned_at(s: Seq<char>, p: int) -> Option<(int, int)> {
    let e = digits_end(s, p);
    if e > p && digits_value(s, p, e) <= usize::MAX {
        Some((digits_value(s, p, e), e))
    } else {
        None
    }
}

/// A number at `p`, with an optional leading `-`, that fits in `isize`, and
/// where it ends.
pub open spec fn signed_at(s: Seq<char>, p: int) -> Option<(int, int)> {
    if 0 <= p < s.len() && s[p] == '-' {
        match unsigned_at(s, p + 1) {
            Some((v, e)) => if v <= isize::MAX + 1 {
                Some((-v, e))
            } else {
                None
            },
            None => None,
        }
    } else {
        match unsigned_at(s, p) {
            Some((v, e)) => if v <= isize::MAX {
                Some((v, e))
            } else {
                None
            },
            None => None,
        }
    }
}

/// The index of the last of `n` lines; with no line it wraps to `usize::MAX`.
pub open spec fn last_index(n: nat) -> usize {
    if n == 0 {
        usize::MAX
    } else {
        (n - 1) as usize
    }
}

/// A line address at `p`: a number, a number moved by `^` and a signed
/// number, or `$`; and where it ends.
pub open spec fn line_at(n: nat, s: Seq<char>, p: int) -> Option<(usize, int)> {
    match unsigned_at(s, p) {
        Some((v, e)) => if 0 <= e < s.len() && s[e] == '^' {
            match signed_at(s, e + 1) {
                Some((d, e2)) => Some((shifted(v as usize, d as isize), e2)),
                None => Some((v as usize, e)),
            }
        } else {
            Some((v as usize, e))
        },
        None => if 0 <= p < s.len() && s[p] == '$' {
            Some((last_index(n), p + 1))
        } else {
            None
        },
    }
}

/// `a-b` (the indices from `a` to `b`) or a single address `a`.
pub open spec fn span_at(n: nat, s: Seq<char>, p: int) -> Option<(Set<usize>, int)> {
    match line_at(n, s, p) {
        Some((a, e)) => if 0 <= e < s.len() && s[e] == '-' {
            match line_at(n, s, e + 1) {
                Some((b, e2)) => Some((interval(a, b), e2)),
                None => Some((set![a], e)),
            }
        } else {
            Some((set![a], e))
        },
        None => None,
    }
}

/// Every index of the `n` lines.
pub open spec fn all_lines(n: nat) -> Set<usize> {
    Set::new(|y: usize| y < n)
}

/// `%` (every line) or `.` (the cursor).
pub open spec fn special_at(n: nat, cursor: Set<usize>, s: Seq<char>, p: int) -> Option<(Set<usize>, int)> {
    if 0 <= p < s.len() && s[p] == '%' {
        Some((all_lines(n), p + 1))
    } else if 0 <= p < s.len() && s[p] == '.' {
        Some((cursor, p + 1))
    } else {
        None
    }
}

/// The first index from `q` on that holds `c`, or the end.
pub open spec fn stop_at(s: Seq<char>, q: int, c: char) -> int
    decreases s.len() - q,
{
    if 0 <= q < s.len() && s[q] != c {
        stop_at(s, q + 1, c)
    } else {
        q
    }
}

/// The indices of the lines that `pat` matches.
pub open spec fn matching(lines: Seq<Seq<char>>, pat: Seq<char>) -> Set<usize> {
    Set::new(|i: usize| i < lines.len() && regex_is_match(pat, lines[i as int]))
}

/// `/pat/`: the lines that the regular expression `pat` matches.
pub open spec fn search_at(lines: Seq<Seq<char>>, s: Seq<char>, p: int) -> Option<(Set<usize>, int)> {
    if 0 <= p < s.len() && s[p] == '/' {
        let e = stop_at(s, p + 1, '/');
        if e > p + 1 && e < s.len() && regex_compiles(s.subrange(p + 1, e)) {
            Some((matching(lines, s.subrange(p + 1, e)), e + 1))
        } else {
            None
        }
    } else {
        None
    }
}

/// A search, a span or single address, or `%` / `.`.
pub open spec fn one_range_at(lines: Seq<Seq<char>>, cursor: Set<usize>, s: Seq<char>, p: int) -> Option<(Set<usize>, int)> {
    if search_at(lines, s, p) is Some {
        search_at(lines, s, p)
    } else if span_at(lines.len(), s, p) is Some {
        span_at(lines.len(), s, p)
    } else {
        special_at(lines.len(), cursor, s, p)
    }
}

/// A range followed by any number of `^n` (every index moved by `n`) and
/// `#n` (grown by `|n|` lines), each applied in turn, and where they end.
pub open spec fn suffixed(r: Set<usize>, s: Seq<char>, e: int) -> (Set<usize>, int)
    decreases s.len() - e,
{
    if 0 <= e < s.len() && s[e] == '^' && signed_at(s, e + 1) is Some {
        let (d, e2) = signed_at(s, e + 1).unwrap();
        if e < e2 <= s.len() {
            suffixed(r.map(|x: usize| shifted(x, d as isize)), s, e2)
        } else {
            (r, e)
        }
    } else if 0 <= e < s.len() && s[e] == '#' && signed_at(s, e + 1) is Some {
        let (d, e2) = signed_at(s, e + 1).unwrap();
        if e < e2 <= s.len() {
            suffixed(expanded_set(r, d as isize), s, e2)
        } else {
            (r, e)
        }
    } else {
        (r, e)
    }
}

/// One term of a union: a search, address, span, `%` or `.`, or a whole
/// range in parentheses; either followed by its suffixes.
pub open spec fn term_at(lines: Seq<Seq<char>>, cursor: Set<usize>, s: Seq<char>, p: int) -> Option<(Set<usize>, int)>
    decreases s.len() - p, 0int,
{
    match one_range_at(lines, cursor, s, p) {
        Some((r, e)) => Some(suffixed(r, s, e)),
        None => if 0 <= p < s.len() && s[p] == '(' {
            let (r, e) = range_at(lines, cursor, s, p + 1);
            if 0 <= e < s.len() && s[e] == ')' {
                Some(suffixed(r, s, e + 1))
            } else {
                None
            }
        } else {
            None
        },
    }
}

/// The terms after the first, each after a `+`, and where they end.
pub open spec fn more_terms(lines: Seq<Seq<char>>, cursor: Set<usize>, s: Seq<char>, q: int) -> (Set<usize>, int)
    decreases s.len() - q, 1int,
{
    if 0 <= q < s.len() && s[q] == '+' {
        match term_at(lines, cursor, s, q + 1) {
            Some((r, e)) => if q < e <= s.len() {
                let (rest, e2) = more_terms(lines, cursor, s, e);
                (r.union(rest), e2)
            } else {
                (Set::empty(), q)
            },
            None => (Set::empty(), q),
        }
    } else {
        (Set::empty(), q)
    }
}

/// The range that the text at `p` denotes, and where it ends: the union of
/// `+`-separated terms, or the cursor when no term stands there.
pub open spec fn range_at(lines: Seq<Seq<char>>, cursor: Set<usize>, s: Seq<char>, p: int) -> (Set<usize>, int)
    decreases s.len() - p, 2int,
{
    match term_at(lines, cursor, s, p) {
        Some((r, e)) => if p < e <= s.len() {
            let (rest, e2) = more_terms(lines, cursor, s, e);
            (r.union(rest), e2)
        } else {
            (cursor, p)
        },
        None => (cursor, p),
    }
}

proof fn lemma_stop_at_end(s: Seq<char>, pat: Seq<char>, q: int)
    requires
        s == seq!['/'] + pat + seq!['/'],
        !pat.contains('/'),
        1 <= q <= pat.len() + 1,
    ensures
        stop_at(s, q, '/') == pat.len() + 1,
    decreases pat.len() + 1 - q,
{
    if q <= pat.len() {
        assert(s[q] == pat[q - 1]);
        assert(s[q] != '/') by {
            if s[q] == '/' {
                assert(pat.contains('/'));
            }
        }
        lemma_stop_at_end(s, pat, q + 1);
    } else {
        assert(s[q] == '/');
    }
}

/// `%` denotes every line, `.` the cursor exactly as stored, and `/pat/`
/// exactly the lines that the regular expression `pat` matches.
pub proof fn lemma_whole_cursor_search(lines: Seq<Seq<char>>, cursor: Set<usize>, pat: Seq<char>)
    requires
        pat.len() > 0,
        !pat.contains('/'),
        regex_compiles(pat),
    ensures
        range_at(lines, cursor, seq!['%'], 0).0 == all_lines(lines.len()),
        range_at(lines, cursor, seq!['.'], 0).0 == cursor,
        range_at(lines, cursor, seq!['/'] + pat + seq!['/'], 0).0 == matching(lines, pat),
{
    let pc = seq!['%'];
    assert(digits_end(pc, 0) == 0);
    assert(unsigned_at(pc, 0) is None);
    assert(term_at(lines, cursor, pc, 0) == Some((all_lines(lines.len()), 1int)));
    assert(more_terms(lines, cursor, pc, 1) == (Set::<usize>::empty(), 1int));
    assert(all_lines(lines.len()).union(Set::<usize>::empty()) =~= all_lines(lines.len()));

    let dot = seq!['.'];
    assert(digits_end(dot, 0) == 0);
    assert(unsigned_at(dot, 0) is None);
    assert(term_at(lines, cursor, dot, 0) == Some((cursor, 1int)));
    assert(more_terms(lines, cursor, dot, 1) == (Set::<usize>::empty(), 1int));
    assert(cursor.union(Set::<usize>::empty()) =~= cursor);

    let s = seq!['/'] + pat + seq!['/'];
    let n = pat.len() as int;
    lemma_stop_at_end(s, pat, 1);
    assert(s.subrange(1, n + 1) =~= pat);
    assert(search_at(lines, s, 0) == Some((matching(lines, pat), n + 2)));
    assert(term_at(lines, cursor, s, 0) == Some((matching(lines, pat), n + 2)));
    assert(more_terms(lines, cursor, s, n + 2) == (Set::<usize>::empty(), n + 2));
    assert(matching(lines, pat).union(Set::<usize>::empty()) =~= matching(lines, pat));
}

/// The sets and ends that an exec result stands for.
pub open spec fn found(r: Option<(Range, usize)>) -> Option<(Set<usize>, int)> {
    match r {
        Some((rr, e)) => Some((rr@, e as int)),
        None => None,
    }
}

pub open spec fn well_found(r: Option<(Range, usize)>) -> bool {
    r matches Some((rr, _)) ==> rr.wf()
}

fn is_digit_char(c: char) -> (r: bool)
    ensures
        r == is_digit(c),
{
    '0' <= c && c <= '9'
}

/// The unsigned number at `p`, if one that fits in `usize` stands there.
pub(crate) fn parse_usize_at(s: &Vec<char>, p: usize) -> (r: Option<(usize, usize)>)
    requires
        p <= s@.len(),
    ensures
        match r {
            Some((v, e)) => unsigned_at(s@, p as int) == Some((v as int, e as int)) && p < e <= s@.len(),
            None => unsigned_at(s@, p as int) is None,
        },
{
    let mut i: usize = p;
    let mut val: usize = 0;
    let mut over = false;
    while i < s.len() && is_digit_char(s[i])
        invariant
            p <= i <= s@.len(),
            digits_end(s@, p as int) == digits_end(s@, i as int),
            !over ==> val == digits_value(s@, p as int, i as int),
            over ==> digits_value(s@, p as int, i as int) > usize::MAX,
        decreases s@.len() - i,
    {
        let c = s[i];
        let d: usize = (c as u32 - '0' as u32) as usize;
        assert(d == digit_value(c));
        let ghost before = digits_value(s@, p as int, i as int);
        assert(digits_value(s@, p as int, i + 1) == before * 10 + d);
        if !over {
            if val > (usize::MAX - d) / 10 {
                over = true;
                assert(before * 10 + d > usize::MAX) by (nonlinear_arith)
                    requires
                        before == val,
                        val > (usize::MAX - d) / 10,
                        0 <= d <= 9,
                ;
            } else {
                assert(val * 10 + d <= usize::MAX) by (nonlinear_arith)
                    requires
                        val <= (usize::MAX - d) / 10,
                        0 <= d <= 9,
                ;
                val = val * 10 + d;
            }
        } else {
            assert(before * 10 + d > usize::MAX) by (nonlinear_arith)
                requires
                    before > usize::MAX,
                    0 <= d,
            ;
        }
        i = i + 1;
    }
    if i == p || over {
        None
    } else {
        Some((val, i))
    }
}

/// The signed number at `p`, if one that fits in `isize` stands there.
fn parse_isize_at(s: &Vec<char>, p: usize) -> (r: Option<(isize, usize)>)
    requires
        p <= s@.len(),
    ensures
        match r {
            Some((v, e)) => signed_at(s@, p as int) == Some((v as int, e as int)) && p < e <= s@.len(),
            None => signed_at(s@, p as int) is None,
        },
{
    if p < s.len() && s[p] == '-' {
        match parse_usize_at(s, p + 1) {
            Some((v, e)) => {
                if v <= (isize::MAX as usize) + 1 {
                    let x: isize = if v == (isize::MAX as usize) + 1 {
                        isize::MIN
                    } else {
                        -(v as isize)
                    };
                    Some((x, e))
                } else {
                    None
                }
            },
            None => None,
        }
    } else {
        match parse_usize_at(s, p) {
            Some((v, e)) => {
                if v <= isize::MAX as usize {
                    Some((v as isize, e))
                } else {
                    None
                }
            },
            None => None,
        }
    }
}

/// The line address at `p`, if one stands there.
fn parse_line_at(n: usize, s: &Vec<char>, p: usize) -> (r: Option<(usize, usize)>)
    requires
        p <= s@.len(),
    ensures
        match r {
            Some((v, e)) => line_at(n as nat, s@, p as int) == Some((v, e as int)) && p < e <= s@.len(),
            None => line_at(n as nat, s@, p as int) is None,
        },
{
    match parse_usize_at(s, p) {
        Some((v, e)) => {
            if e < s.len() && s[e] == '^' {
                match parse_isize_at(s, e + 1) {
                    Some((d, e2)) => Some((v.wrapping_add_signed(d), e2)),
                    None => Some((v, e)),
                }
            } else {
                Some((v, e))
            }
        },
        None => {
            if p < s.len() && s[p] == '$' {
                Some((if n == 0 { usize::MAX } else { n - 1 }, p + 1))
            } else {
                None
            }
        },
    }
}

/// `a-b` or a single address at `p`.
fn parse_span_at(n: usize, s: &Vec<char>, p: usize) -> (r: Option<(Range, usize)>)
    requires
        p <= s@.len(),
    ensures
        found(r) == span_at(n as nat, s@, p as int),
        well_found(r),
        r matches Some((_, e)) ==> p < e <= s@.len(),
{
    match parse_line_at(n, s, p) {
        Some((a, e)) => {
            if e < s.len() && s[e] == '-' {
                match parse_line_at(n, s, e + 1) {
                    Some((b, e2)) => Some((Range::interval(a, b), e2)),
                    None => Some((Range::new_with_line(a), e)),
                }
            } else {
                Some((Range::new_with_line(a), e))
            }
        },
        None => None,
    }
}

/// `%` or `.` at `p`.
fn parse_special_at(ctx: &RedBuffer, s: &Vec<char>, p: usize) -> (r: Option<(Range, usize)>)
    requires
        p <= s@.len(),
        ctx.wf(),
    ensures
        found(r) == special_at(ctx.lines@.len() as nat, ctx.cursor@, s@, p as int),
        well_found(r),
        r matches Some((_, e)) ==> p < e <= s@.len(),
{
    if p < s.len() && s[p] == '%' {
        let n = ctx.lines.len();
        let r = if n == 0 {
            Range::empty()
        } else {
            Range::interval(0, n - 1)
        };
        assert(r@ =~= all_lines(n as nat));
        Some((r, p + 1))
    } else if p < s.len() && s[p] == '.' {
        Some((ctx.cursor.duplicate(), p + 1))
    } else {
        None
    }
}

/// `/pat/` at `p`.
fn parse_search_at(ctx: &RedBuffer, s: &Vec<char>, p: usize) -> (r: Option<(Range, usize)>)
    requires
        p <= s@.len(),
    ensures
        found(r) == search_at(ctx.lines_view(), s@, p as int),
        well_found(r),
        r matches Some((_, e)) ==> p < e <= s@.len(),
{
    if !(p < s.len() && s[p] == '/') {
        return None;
    }
    let mut e: usize = p + 1;
    while e < s.len() && s[e] != '/'
        invariant
            p + 1 <= e <= s@.len(),
            stop_at(s@, p + 1, '/') == stop_at(s@, e as int, '/'),
        decreases s@.len() - e,
    {
        e = e + 1;
    }
    if !(e > p + 1 && e < s.len()) {
        return None;
    }
    let mut cs: Vec<char> = Vec::new();
    let mut k: usize = p + 1;
    while k < e
        invariant
            p + 1 <= k <= e,
            e < s@.len(),
            cs@ == s@.subrange(p + 1, k as int),
        decreases e - k,
    {
        cs.push(s[k]);
        k = k + 1;
        assert(cs@ =~= s@.subrange(p + 1, k as int));
    }
    let pat = string_of(&cs);
    let ghost pv = s@.subrange(p + 1, e as int);
    match Pattern::compile(pat.as_str()) {
        Some(re) => {
            let mut v: Vec<usize> = Vec::new();
            let mut i: usize = 0;
            while i < ctx.lines.len()
                invariant
                    i <= ctx.lines@.len(),
                    re.source_view() == pv,
                    forall|y: usize| v@.contains(y) <==> (y < i && regex_is_match(pv, ctx.lines_view()[y as int])),
                decreases ctx.lines@.len() - i,
            {
                let hit = re.is_match(ctx.lines[i].as_str());
                let ghost prev = v@;
                if hit {
                    v.push(i);
                    proof {
                        assert forall|y: usize| v@.contains(y) <==> (y < i + 1 && regex_is_match(pv, ctx.lines_view()[y as int])) by {
                            if v@.contains(y) {
                                let q = choose|q: int| 0 <= q < v@.len() && v@[q] == y;
                                if q < prev.len() {
                                    assert(prev.contains(y));
                                }
                            }
                            if y < i {
                                if prev.contains(y) {
                                    let q = choose|q: int| 0 <= q < prev.len() && prev[q] == y;
                                    assert(v@[q] == y);
                                }
                            }
                            if y == i {
                                assert(v@[prev.len() as int] == y);
                            }
                        }
                    }
                } else {
                    proof {
                        assert forall|y: usize| v@.contains(y) <==> (y < i + 1 && regex_is_match(pv, ctx.lines_view()[y as int])) by {
                            if y == i && v@.contains(y) {
                                assert(prev.contains(y));
                            }
                        }
                    }
                }
                i = i + 1;
            }
            let r = Range::from_indices(v);
            assert(r@ =~= matching(ctx.lines_view(), pv));
            Some((r, e + 1))
        },
        None => None,
    }
}

/// A search, a span or single address, or `%` / `.` at `p`.
fn parse_one_range_at(ctx: &RedBuffer, s: &Vec<char>, p: usize) -> (r: Option<(Range, usize)>)
    requires
        p <= s@.len(),
        ctx.wf(),
    ensures
        found(r) == one_range_at(ctx.lines_view(), ctx.cursor@, s@, p as int),
        well_found(r),
        r matches Some((_, e)) ==> p < e <= s@.len(),
{
    let found_search = parse_search_at(ctx, s, p);
    if found_search.is_some() {
        return found_search;
    }
    let found_span = parse_span_at(ctx.lines.len(), s, p);
    if found_span.is_some() {
        return found_span;
    }
    parse_special_at(ctx, s, p)
}

/// The `^n` and `#n` after the range `r` that ends at `e`.
fn parse_suffix(r: Range, s: &Vec<char>, e: usize) -> (res: (Range, usize))
    requires
        e <= s@.len(),
        r.wf(),
    ensures
        (res.0@, res.1 as int) == suffixed(r@, s@, e as int),
        res.0.wf(),
        e <= res.1 <= s@.len(),
    decreases s@.len() - e,
{
    if e < s.len() && s[e] == '^' {
        if let Some((d, e2)) = parse_isize_at(s, e + 1) {
            return parse_suffix(r.offset(d), s, e2);
        }
    }
    if e < s.len() && s[e] == '#' {
        if let Some((d, e2)) = parse_isize_at(s, e + 1) {
            return parse_suffix(r.expand(d), s, e2);
        }
    }
    (r, e)
}

/// One term of a union at `p`.
fn parse_term_at(ctx: &RedBuffer, s: &Vec<char>, p: usize) -> (r: Option<(Range, usize)>)
    requires
        p <= s@.len(),
        ctx.wf(),
    ensures
        found(r) == term_at(ctx.lines_view(), ctx.cursor@, s@, p as int),
        well_found(r),
        r matches Some((_, e)) ==> p < e <= s@.len(),
    decreases s@.len() - p, 0int,
{
    match parse_one_range_at(ctx, s, p) {
        Some((r, e)) => Some(parse_suffix(r, s, e)),
        None => {
            if p < s.len() && s[p] == '(' {
                let (r, e) = parse_range_at(ctx, s, p + 1);
                if e < s.len() && s[e] == ')' {
                    Some(parse_suffix(r, s, e + 1))
                } else {
                    None
                }
            } else {
                None
            }
        },
    }
}

/// The terms after the first, each after a `+`, at `q`.
fn parse_more_terms(ctx: &RedBuffer, s: &Vec<char>, q: usize) -> (r: (Range, usize))
    requires
        q <= s@.len(),
        ctx.wf(),
    ensures
        (r.0@, r.1 as int) == more_terms(ctx.lines_view(), ctx.cursor@, s@, q as int),
        r.0.wf(),
        q <= r.1 <= s@.len(),
    decreases s@.len() - q, 1int,
{
    if q < s.len() && s[q] == '+' {
        match parse_term_at(ctx, s, q + 1) {
            Some((r, e)) => {
                let (rest, e2) = parse_more_terms(ctx, s, e);
                (r.union(&rest), e2)
            },
            None => (Range::empty(), q),
        }
    } else {
        (Range::empty(), q)
    }
}

/// The range at `p` and where it ends; the cursor when no term stands there.
pub(crate) fn parse_range_at(ctx: &RedBuffer, s: &Vec<char>, p: usize) -> (r: (Range, usize))
    requires
        p <= s@.len(),
        ctx.wf(),
    ensures
        (r.0@, r.1 as int) == range_at(ctx.lines_view(), ctx.cursor@, s@, p as int),
        r.0.wf(),
        p <= r.1 <= s@.len(),
    decreases s@.len() - p, 2int,
{
    match parse_term_at(ctx, s, p) {
        Some((r, e)) => {
            let (rest, e2) = parse_more_terms(ctx, s, e);
            (r.union(&rest), e2)
        },
        None => (ctx.cursor.duplicate(), p),
    }
}

/// The range that the start of `inp` denotes against `ctx`, and the text
/// after it. With no address at the start, the range is the cursor.
pub fn parse_range<'a>(inp: &'a str, ctx: &RedBuffer) -> (r: (Range, &'a str))
    requires
        ctx.wf(),
    ensures
        r.0.wf(),
        r.0@ == range_at(ctx.lines_view(), ctx.cursor@, inp@, 0).0,
        r.1@ == inp@.subrange(range_at(ctx.lines_view(), ctx.cursor@, inp@, 0).1, inp@.len() as int),
{
    let s = chars_of(inp);
    let (r, e) = parse_range_at(ctx, &s, 0);
    let rest = inp.substring_char(e, s.len());
    (r, rest)
}

} // verus!
