use vstd::prelude::*;
use lazysort::Sorted;

use crate::red_buffer::RedBuffer;
use crate::text::{is_blank, trimmed};

verus! {

/// True when `s` is sorted in ascending order, repeats allowed.
pub open spec fn sorted_asc(s: Seq<usize>) -> bool {
    forall|i: int, j: int| 0 <= i <= j < s.len() ==> s[i] <= s[j]
}

/// True when `s` is sorted in strictly ascending order (no repeats).
pub open spec fn strictly_asc(s: Seq<usize>) -> bool {
    forall|i: int, j: int| 0 <= i < j < s.len() ==> s[i] < s[j]
}

/// An index moved by `d`, wrapping around the width of `usize`.
pub open spec fn shifted(x: usize, d: isize) -> usize {
    vstd::wrapping::usize_specs::wrapping_add_signed(x, d)
}

/// Where an index lands once a line is inserted at `at`: indices at or above
/// `at` move up by one (an index already at `usize::MAX` stays there).
pub open spec fn bumped(x: usize, at: usize) -> usize {
    if x >= at && x < usize::MAX {
        (x + 1) as usize
    } else {
        x
    }
}

/// Where an index lands once the line at `at` is removed: indices above `at`
/// move down by one.
pub open spec fn lowered(x: usize, at: usize) -> usize {
    if x > at {
        (x - 1) as usize
    } else {
        x
    }
}

/// The set `s` once a line is inserted at `at`.
pub open spec fn inserted_set(s: Set<usize>, at: usize) -> Set<usize> {
    s.map(|x: usize| bumped(x, at)).union(if s.contains(at) { set![at] } else { Set::<usize>::empty() })
}

/// The set `s` once the line at `at` is removed.
pub open spec fn removed_set(s: Set<usize>, at: usize) -> Set<usize> {
    s.remove(at).map(|x: usize| lowered(x, at))
}

/// Inserting at `at` moves every index at or above `at` up by one (short of
/// `usize::MAX`) and keeps every index below `at`.
pub proof fn lemma_inserted_set_moves(s: Set<usize>, at: usize)
    ensures
        forall|x: usize| s.contains(x) && at <= x < usize::MAX ==> #[trigger] inserted_set(s, at).contains((x + 1) as usize),
        forall|x: usize| s.contains(x) && x < at ==> #[trigger] inserted_set(s, at).contains(x),
{
    let f = |x: usize| bumped(x, at);
    assert forall|x: usize| s.contains(x) && at <= x < usize::MAX implies #[trigger] inserted_set(s, at).contains((x + 1) as usize) by {
        assert(f(x) == x + 1);
        assert(s.map(f).contains(f(x)));
    }
    assert forall|x: usize| s.contains(x) && x < at implies #[trigger] inserted_set(s, at).contains(x) by {
        assert(f(x) == x);
        assert(s.map(f).contains(f(x)));
    }
}

/// After a line is inserted at `at`, every selected index at or above `at`
/// is one higher, every selected index below `at` is unchanged, and nothing
/// else is selected but the new line at `at` when `at` itself was selected.
/// (An index at `usize::MAX` has no higher index to move to.)
pub proof fn lemma_inserted_set_shifts(s: Set<usize>, at: usize)
    requires
        !s.contains(usize::MAX),
    ensures
        forall|x: usize| s.contains(x) && x >= at ==> #[trigger] inserted_set(s, at).contains((x + 1) as usize),
        forall|x: usize| s.contains(x) && x < at ==> #[trigger] inserted_set(s, at).contains(x),
        forall|y: usize| #[trigger] inserted_set(s, at).contains(y) ==> {
            ||| (y < at && s.contains(y))
            ||| (y > at && s.contains((y - 1) as usize))
            ||| (y == at && s.contains(at))
        },
{
    let f = |x: usize| bumped(x, at);
    lemma_inserted_set_moves(s, at);
    assert forall|y: usize| #[trigger] inserted_set(s, at).contains(y) implies {
        ||| (y < at && s.contains(y))
        ||| (y > at && s.contains((y - 1) as usize))
        ||| (y == at && s.contains(at))
    } by {
        if s.map(f).contains(y) {
            let x = choose|x: usize| s.contains(x) && f(x) == y;
            if x >= at {
                assert(y == x + 1);
            }
        }
    }
}

/// The `i`-th step of growing from index `x`: downwards (never below 0) when
/// `n` is negative, upwards with wrapping otherwise.
pub open spec fn grown(x: usize, i: usize, n: isize) -> usize {
    if n < 0 {
        if x >= i {
            (x - i) as usize
        } else {
            0
        }
    } else {
        vstd::wrapping::usize_specs::wrapping_add(x, i)
    }
}

/// How many steps `n` asks for when growing a range.
pub open spec fn steps(n: isize) -> int {
    if n < 0 {
        -n
    } else {
        n as int
    }
}

/// Every index reached from `r` in at most `steps(n)` steps, downwards when
/// `n` is negative.
pub open spec fn expanded_set(r: Set<usize>, n: isize) -> Set<usize> {
    Set::new(|y: usize| exists|x: usize, i: usize| r.contains(x) && i <= steps(n) && y == #[trigger] grown(x, i, n))
}

/// What growing the indices `s` has reached after the steps before `i`, and
/// step `i` from the first `kk` of them.
pub open spec fn grown_so_far(s: Seq<usize>, n: isize, i: usize, kk: int) -> Set<usize> {
    Set::new(|y: usize| exists|k: int, j: usize| 0 <= k < s.len() && (j < i || (j == i && k < kk)) && y == #[trigger] grown(s[k], j, n))
}

/// The indices in `lo..=hi`.
pub open spec fn interval(lo: usize, hi: usize) -> Set<usize> {
    Set::new(|y: usize| lo <= y <= hi)
}

proof fn lemma_map_values_to_set(s: Seq<usize>, f: spec_fn(usize) -> usize)
    ensures
        s.map_values(f).to_set() == s.to_set().map(f),
{
    assert forall|y: usize| s.map_values(f).to_set().contains(y) <==> s.to_set().map(f).contains(y) by {
        if s.map_values(f).to_set().contains(y) {
            let k = choose|k: int| 0 <= k < s.len() && s.map_values(f)[k] == y;
            assert(s.to_set().contains(s[k]));
        }
        if s.to_set().map(f).contains(y) {
            let x = choose|x: usize| s.to_set().contains(x) && f(x) == y;
            let k = choose|k: int| 0 <= k < s.len() && s[k] == x;
            assert(s.map_values(f)[k] == y);
        }
    }
    assert(s.map_values(f).to_set() =~= s.to_set().map(f));
}

/// The first index from `p` on whose character is not a space, or the end.
pub open spec fn indent_end(s: Seq<char>, p: int) -> int
    decreases s.len() - p,
{
    if 0 <= p < s.len() && s[p] == ' ' {
        indent_end(s, p + 1)
    } else {
        p
    }
}

/// How deeply a line is indented: how many spaces open it; `None` for a
/// line of white space only.
pub open spec fn depth_of(s: Seq<char>) -> Option<int> {
    if trimmed(s).len() == 0 {
        None
    } else {
        Some(indent_end(s, 0))
    }
}

/// Whether line `p` ends a block of depth `d`: it is indented no deeper.
pub open spec fn closes_block(lines: Seq<Seq<char>>, d: int, p: int) -> bool {
    depth_of(lines[p]) matches Some(e) && e <= d
}

/// The first line from `p` on that ends a block of depth `d`, or the end.
pub open spec fn block_end(lines: Seq<Seq<char>>, d: int, p: int) -> int
    decreases lines.len() - p,
{
    if 0 <= p < lines.len() && !closes_block(lines, d, p) {
        block_end(lines, d, p + 1)
    } else {
        p
    }
}

/// The block that starts at `line`: it and the lines after it that are
/// indented deeper (or blank), up to the first that is not. A blank or
/// missing starting line has no block.
pub open spec fn block_of(lines: Seq<Seq<char>>, line: usize) -> Set<usize> {
    if line < lines.len() && depth_of(lines[line as int]) is Some {
        let d = depth_of(lines[line as int]).unwrap();
        Set::new(|y: usize| line <= y < block_end(lines, d, line + 1))
    } else {
        Set::empty()
    }
}

/// How deeply `line` is indented; `None` when it is white space only.
pub fn get_depth(line: &str) -> (r: Option<usize>)
    ensures
        match r {
            Some(d) => depth_of(line@) == Some(d as int),
            None => depth_of(line@) is None,
        },
{
    if is_blank(line) {
        return None;
    }
    let cs = crate::text::chars_of(line);
    let mut i: usize = 0;
    while i < cs.len() && cs[i] == ' '
        invariant
            i <= cs@.len(),
            cs@ == line@,
            indent_end(line@, 0) == indent_end(line@, i as int),
        decreases cs@.len() - i,
    {
        i = i + 1;
    }
    Some(i)
}

fn closes_at(ctx: &RedBuffer, d: usize, p: usize) -> (r: bool)
    requires
        p < ctx.lines@.len(),
    ensures
        r == closes_block(ctx.lines_view(), d as int, p as int),
{
    match get_depth(ctx.lines[p].as_str()) {
        Some(e) => e <= d,
        None => false,
    }
}

/// The lines of the block that starts at `line`, in order.
pub fn line_to_block(line: usize, ctx: &RedBuffer) -> (r: Vec<usize>)
    ensures
        r@.to_set() == block_of(ctx.lines_view(), line),
        (line >= ctx.lines@.len() || depth_of(ctx.lines_view()[line as int]) is None) ==> r@.len() == 0,
        line < ctx.lines@.len() ==> (depth_of(ctx.lines_view()[line as int]) matches Some(d) ==>
            r@ == Seq::new((block_end(ctx.lines_view(), d, line + 1) - line) as nat, |k: int| (line + k) as usize)),
{
    let n = ctx.lines.len();
    if line >= n {
        assert(Seq::<usize>::empty().to_set() =~= block_of(ctx.lines_view(), line));
        return Vec::new();
    }
    match get_depth(ctx.lines[line].as_str()) {
        None => {
            assert(Seq::<usize>::empty().to_set() =~= block_of(ctx.lines_view(), line));
            Vec::new()
        },
        Some(d) => {
            let ghost lv = ctx.lines_view();
            let mut last: usize = line + 1;
            while last < n && !closes_at(ctx, d, last)
                invariant
                    line < last <= n,
                    n == lv.len(),
                    lv == ctx.lines_view(),
                    block_end(lv, d as int, line + 1) == block_end(lv, d as int, last as int),
                decreases n - last,
            {
                last = last + 1;
            }
            let r = Range::interval(line, last - 1);
            assert(r@ =~= block_of(lv, line));
            r.lines
        },
    }
}


/// Relies on lazysort's `Sorted::sorted`: it yields every item of the input,
/// each as often as it occurs there, in ascending order of `Ord::cmp`.
#[verifier::external_body]
fn sort_indices(v: Vec<usize>) -> (r: Vec<usize>)
    ensures
        sorted_asc(r@),
        r@.to_multiset() == v@.to_multiset(),
{
    v.into_iter().sorted().collect()
}

/// A set of line indices, held in ascending order without repeats.
#[derive(Clone, Debug)]
pub struct Range {
    pub lines: Vec<usize>,
}

impl View for Range {
    type V = Set<usize>;

    open spec fn view(&self) -> Set<usize> {
        self.lines@.to_set()
    }
}

impl Range {
    /// The indices are kept strictly ascending.
    pub open spec fn wf(&self) -> bool {
        strictly_asc(self.lines@)
    }

    /// The range with the single index `line`.
    pub fn new_with_line(line: usize) -> (r: Range)
        ensures
            r.wf(),
            r@ == set![line],
    {
        let r = Range { lines: vec![line] };
        proof {
            assert(r.lines@ =~= seq![line]);
            assert(r@ =~= set![line]) by {
                assert(seq![line].contains(line) == (seq![line][0] == line));
            }
        }
        r
    }

    /// The range with no index.
    pub fn empty() -> (r: Range)
        ensures
            r.wf(),
            r@ == Set::<usize>::empty(),
    {
        let r = Range { lines: Vec::new() };
        assert(r@ =~= Set::<usize>::empty());
        r
    }

    /// A copy of this range.
    pub fn duplicate(&self) -> (r: Range)
        ensures
            r.lines@ == self.lines@,
            r@ == self@,
    {
        let mut v: Vec<usize> = Vec::new();
        let mut i: usize = 0;
        while i < self.lines.len()
            invariant
                i <= self.lines.len(),
                v@ == self.lines@.subrange(0, i as int),
            decreases self.lines.len() - i,
        {
            v.push(self.lines[i]);
            i = i + 1;
            assert(v@ =~= self.lines@.subrange(0, i as int));
        }
        assert(v@ =~= self.lines@);
        Range { lines: v }
    }

    /// Whether `line` belongs to the range.
    pub fn contains(&self, line: usize) -> (r: bool)
        ensures
            r == self@.contains(line),
    {
        let mut i: usize = 0;
        while i < self.lines.len()
            invariant
                i <= self.lines.len(),
                forall|k: int| 0 <= k < i ==> self.lines@[k] != line,
            decreases self.lines.len() - i,
        {
            if self.lines[i] == line {
                assert(self.lines@.contains(line) == (self.lines@[i as int] == line)) by {
                    assert(self.lines@[i as int] == line);
                }
                return true;
            }
            i = i + 1;
        }
        false
    }

    /// Every index moved by `offset`, wrapping around the width of `usize`.
    pub fn offset(self, offset: isize) -> (r: Range)
        ensures
            r.wf(),
            r@ == self@.map(|x: usize| shifted(x, offset)),
    {
        let ghost f = |x: usize| shifted(x, offset);
        let mut v: Vec<usize> = Vec::new();
        let mut i: usize = 0;
        while i < self.lines.len()
            invariant
                i <= self.lines.len(),
                v@ == self.lines@.subrange(0, i as int).map_values(f),
                f == (|x: usize| shifted(x, offset)),
            decreases self.lines.len() - i,
        {
            let y = self.lines[i].wrapping_add_signed(offset);
            assert(y == f(self.lines@[i as int]));
            v.push(y);
            i = i + 1;
            assert(v@ =~= self.lines@.subrange(0, i as int).map_values(f));
        }
        proof {
            assert(self.lines@.subrange(0, i as int) =~= self.lines@);
            lemma_map_values_to_set(self.lines@, f);
        }
        Range::from_indices(v)
    }

    /// The range after a line is inserted at `at`: indices at or above `at`
    /// move up by one, and when `at` was selected the new line is selected too.
    pub fn inserted_line(self, at: usize) -> (r: Range)
        ensures
            r.wf(),
            r@ == inserted_set(self@, at),
    {
        let ghost f = |x: usize| bumped(x, at);
        let mut v: Vec<usize> = Vec::new();
        let mut i: usize = 0;
        while i < self.lines.len()
            invariant
                i <= self.lines.len(),
                v@ == self.lines@.subrange(0, i as int).map_values(f),
                f == (|x: usize| bumped(x, at)),
            decreases self.lines.len() - i,
        {
            let l = self.lines[i];
            let y = if l >= at && l < usize::MAX { l + 1 } else { l };
            assert(y == f(l));
            v.push(y);
            i = i + 1;
            assert(v@ =~= self.lines@.subrange(0, i as int).map_values(f));
        }
        proof {
            assert(self.lines@.subrange(0, i as int) =~= self.lines@);
            lemma_map_values_to_set(self.lines@, f);
        }
        let ghost mapped = v@;
        if self.contains(at) {
            v.push(at);
            proof {
                assert(v@.to_set() =~= mapped.to_set().insert(at)) by {
                    assert(v@ == mapped.push(at));
                    assert forall|y: usize| v@.to_set().contains(y) <==> mapped.to_set().insert(at).contains(y) by {
                        if y == at {
                            assert(v@[mapped.len() as int] == at);
                        }
                        if mapped.contains(y) {
                            let k = choose|k: int| 0 <= k < mapped.len() && mapped[k] == y;
                            assert(v@[k] == y);
                        }
                    }
                }
                assert(mapped.to_set().insert(at) =~= mapped.to_set().union(set![at]));
            }
        } else {
            assert(mapped.to_set() =~= mapped.to_set().union(Set::<usize>::empty()));
        }
        Range::from_indices(v)
    }

    /// The range after the line at `at` is removed: `at` leaves the range and
    /// indices above it move down by one.
    pub fn removed_line(self, at: usize) -> (r: Range)
        ensures
            r.wf(),
            r@ == removed_set(self@, at),
    {
        let ghost f = |x: usize| lowered(x, at);
        let ghost kept = self.lines@.filter(|x: usize| x != at);
        let mut v: Vec<usize> = Vec::new();
        let mut i: usize = 0;
        while i < self.lines.len()
            invariant
                i <= self.lines.len(),
                forall|y: usize| v@.contains(y) <==> exists|k: int| 0 <= k < i && self.lines@[k] != at && y == #[trigger] f(self.lines@[k]),
                f == (|x: usize| lowered(x, at)),
            decreases self.lines.len() - i,
        {
            let l = self.lines[i];
            let ghost prev = v@;
            if l != at {
                let y = if l > at { l - 1 } else { l };
                assert(y == f(l));
                v.push(y);
                proof {
                    assert forall|y: usize| v@.contains(y) <==> exists|k: int| 0 <= k < i + 1 && self.lines@[k] != at && y == #[trigger] f(self.lines@[k]) by {
                        if v@.contains(y) {
                            let j = choose|j: int| 0 <= j < v@.len() && v@[j] == y;
                            if j < prev.len() {
                                assert(prev.contains(y));
                            } else {
                                assert(y == f(self.lines@[i as int]));
                            }
                        }
                        if exists|k: int| 0 <= k < i + 1 && self.lines@[k] != at && y == #[trigger] f(self.lines@[k]) {
                            let k = choose|k: int| 0 <= k < i + 1 && self.lines@[k] != at && y == #[trigger] f(self.lines@[k]);
                            if k < i {
                                assert(prev.contains(y));
                                let j = choose|j: int| 0 <= j < prev.len() && prev[j] == y;
                                assert(v@[j] == y);
                            } else {
                                assert(v@[prev.len() as int] == y);
                            }
                        }
                    }
                }
            }
            i = i + 1;
        }
        proof {
            assert(v@.to_set() =~= self@.remove(at).map(f)) by {
                assert forall|y: usize| v@.to_set().contains(y) <==> self@.remove(at).map(f).contains(y) by {
                    if v@.contains(y) {
                        let k = choose|k: int| 0 <= k < i && self.lines@[k] != at && y == #[trigger] f(self.lines@[k]);
                        assert(self@.remove(at).contains(self.lines@[k]));
                    }
                    if self@.remove(at).map(f).contains(y) {
                        let x = choose|x: usize| self@.remove(at).contains(x) && f(x) == y;
                        let k = choose|k: int| 0 <= k < self.lines@.len() && self.lines@[k] == x;
                        assert(self.lines@[k] != at && y == f(self.lines@[k]));
                    }
                }
            }
        }
        Range::from_indices(v)
    }

    /// Every index reached from the range in at most `|n|` steps: downwards
    /// (never below 0) when `n` is negative, upwards with wrapping otherwise.
    pub fn expand(&self, n: isize) -> (r: Range)
        requires
            self.wf(),
        ensures
            r.wf(),
            r@ == expanded_set(self@, n),
    {
        let m: usize = if n < 0 { ((-(n + 1)) as usize) + 1 } else { n as usize };
        assert(m == steps(n));
        let ghost s = self.lines@;
        let mut v: Vec<usize> = Vec::new();
        let mut i: usize = 0;
        loop
            invariant
                i <= m,
                m == steps(n),
                s == self.lines@,
                v@.to_set() == grown_so_far(s, n, i, 0),
            decreases m - i,
        {
            let mut k: usize = 0;
            while k < self.lines.len()
                invariant
                    i <= m,
                    k <= self.lines.len(),
                    s == self.lines@,
                    v@.to_set() == grown_so_far(s, n, i, k as int),
                decreases self.lines.len() - k,
            {
                let x = self.lines[k];
                let y = if n < 0 { x.saturating_sub(i) } else { x.wrapping_add(i) };
                assert(y == grown(x, i, n));
                if n >= 0 || x >= i {
                    let ghost prev = v@;
                    v.push(y);
                    proof {
                        assert(v@.to_set() =~= grown_so_far(s, n, i, k + 1)) by {
                            assert forall|z: usize| v@.to_set().contains(z) <==> grown_so_far(s, n, i, k + 1).contains(z) by {
                                if v@.contains(z) {
                                    let q = choose|q: int| 0 <= q < v@.len() && v@[q] == z;
                                    if q < prev.len() {
                                        assert(prev.to_set().contains(z));
                                        let (k2, j2) = choose|k2: int, j2: usize| 0 <= k2 < s.len() && (j2 < i || (j2 == i && k2 < k)) && z == #[trigger] grown(s[k2], j2, n);
                                        assert(0 <= k2 < s.len() && (j2 < i || (j2 == i && k2 < k + 1)) && z == grown(s[k2], j2, n));
                                    } else {
                                        assert(z == grown(s[k as int], i, n));
                                    }
                                }
                                if grown_so_far(s, n, i, k + 1).contains(z) {
                                    let (k2, j2) = choose|k2: int, j2: usize| 0 <= k2 < s.len() && (j2 < i || (j2 == i && k2 < k + 1)) && z == #[trigger] grown(s[k2], j2, n);
                                    if j2 == i && k2 == k {
                                        assert(v@[prev.len() as int] == z);
                                    } else {
                                        assert(grown_so_far(s, n, i, k as int).contains(z));
                                        assert(prev.contains(z));
                                        let q = choose|q: int| 0 <= q < prev.len() && prev[q] == z;
                                        assert(v@[q] == z);
                                    }
                                }
                            }
                        }
                    }
                } else {
                    // Growing downward past 0 only reaches 0 again, which the
                    // step `x` already reached.
                    proof {
                        assert(grown(s[k as int], x, n) == 0);
                        assert(y == 0);
                        assert(grown_so_far(s, n, i, k as int) =~= grown_so_far(s, n, i, k + 1)) by {
                            assert forall|z: usize| grown_so_far(s, n, i, k + 1).contains(z) implies grown_so_far(s, n, i, k as int).contains(z) by {
                                let (k2, j2) = choose|k2: int, j2: usize| 0 <= k2 < s.len() && (j2 < i || (j2 == i && k2 < k + 1)) && z == #[trigger] grown(s[k2], j2, n);
                                if j2 == i && k2 == k {
                                    assert(0 <= k < s.len() && x < i && z == grown(s[k as int], x, n));
                                }
                            }
                        }
                    }
                }
                k = k + 1;
            }
            if i == m {
                proof {
                    assert(v@.to_set() =~= expanded_set(self@, n)) by {
                        assert forall|z: usize| v@.to_set().contains(z) <==> expanded_set(self@, n).contains(z) by {
                            if grown_so_far(s, n, i, k as int).contains(z) {
                                let (k2, j2) = choose|k2: int, j2: usize| 0 <= k2 < s.len() && (j2 < i || (j2 == i && k2 < k)) && z == #[trigger] grown(s[k2], j2, n);
                                assert(self@.contains(s[k2]));
                                assert(self@.contains(s[k2]) && j2 <= steps(n) && z == grown(s[k2], j2, n));
                            }
                            if expanded_set(self@, n).contains(z) {
                                let (x, j2) = choose|x: usize, j2: usize| self@.contains(x) && j2 <= steps(n) && z == #[trigger] grown(x, j2, n);
                                let k2 = choose|k2: int| 0 <= k2 < s.len() && s[k2] == x;
                                assert(0 <= k2 < s.len() && (j2 < i || (j2 == i && k2 < k)) && z == grown(s[k2], j2, n));
                            }
                        }
                    }
                }
                return Range::from_indices(v);
            }
            proof {
                assert(grown_so_far(s, n, i, k as int) =~= grown_so_far(s, n, (i + 1) as usize, 0)) by {
                    assert forall|z: usize| grown_so_far(s, n, i, k as int).contains(z) <==> grown_so_far(s, n, (i + 1) as usize, 0).contains(z) by {
                        if grown_so_far(s, n, i, k as int).contains(z) {
                            let (k2, j2) = choose|k2: int, j2: usize| 0 <= k2 < s.len() && (j2 < i || (j2 == i && k2 < k)) && z == #[trigger] grown(s[k2], j2, n);
                            assert(0 <= k2 < s.len() && (j2 < i + 1 || (j2 == i + 1 && k2 < 0)) && z == grown(s[k2], j2, n));
                        }
                        if grown_so_far(s, n, (i + 1) as usize, 0).contains(z) {
                            let (k2, j2) = choose|k2: int, j2: usize| 0 <= k2 < s.len() && (j2 < i + 1 || (j2 == i + 1 && k2 < 0)) && z == #[trigger] grown(s[k2], j2, n);
                            assert(0 <= k2 < s.len() && (j2 < i || (j2 == i && k2 < k)) && z == grown(s[k2], j2, n));
                        }
                    }
                }
            }
            i = i + 1;
        }
    }

    /// The indices of either range.
    pub fn union(&self, other: &Range) -> (r: Range)
        ensures
            r.wf(),
            r@ == self@.union(other@),
    {
        let mut v: Vec<usize> = Vec::new();
        let mut i: usize = 0;
        while i < self.lines.len()
            invariant
                i <= self.lines.len(),
                v@ == self.lines@.subrange(0, i as int),
            decreases self.lines.len() - i,
        {
            v.push(self.lines[i]);
            i = i + 1;
            assert(v@ =~= self.lines@.subrange(0, i as int));
        }
        let mut j: usize = 0;
        while j < other.lines.len()
            invariant
                i == self.lines.len(),
                j <= other.lines.len(),
                v@ == self.lines@ + other.lines@.subrange(0, j as int),
            decreases other.lines.len() - j,
        {
            v.push(other.lines[j]);
            j = j + 1;
            assert(v@ =~= self.lines@ + other.lines@.subrange(0, j as int));
        }
        proof {
            assert(self.lines@.subrange(0, i as int) =~= self.lines@);
            assert(other.lines@.subrange(0, j as int) =~= other.lines@);
            let a = self.lines@;
            let b = other.lines@;
            assert forall|y: usize| v@.to_set().contains(y) <==> self@.union(other@).contains(y) by {
                if v@.contains(y) {
                    let q = choose|q: int| 0 <= q < v@.len() && v@[q] == y;
                    if q < a.len() {
                        assert(a[q] == y);
                    } else {
                        assert(b[q - a.len()] == y);
                    }
                }
                if a.contains(y) {
                    let q = choose|q: int| 0 <= q < a.len() && a[q] == y;
                    assert(v@[q] == y);
                }
                if b.contains(y) {
                    let q = choose|q: int| 0 <= q < b.len() && b[q] == y;
                    assert(v@[a.len() + q] == y);
                }
            }
            assert(v@.to_set() =~= self@.union(other@));
        }
        Range::from_indices(v)
    }

    /// The indices from `lo` to `hi`, both included.
    pub fn interval(lo: usize, hi: usize) -> (r: Range)
        ensures
            r.wf(),
            r@ == interval(lo, hi),
            lo <= hi ==> r.lines@ == Seq::new((hi - lo + 1) as nat, |k: int| (lo + k) as usize),
            lo > hi ==> r.lines@.len() == 0,
    {
        let mut v: Vec<usize> = Vec::new();
        if lo > hi {
            assert(v@.to_set() =~= interval(lo, hi));
            return Range { lines: v };
        }
        let mut x: usize = lo;
        while x < hi
            invariant
                lo <= x <= hi,
                v@.len() == x - lo,
                forall|k: int| 0 <= k < v@.len() ==> v@[k] == lo + k,
            decreases hi - x,
        {
            v.push(x);
            x = x + 1;
        }
        v.push(hi);
        assert(v@ =~= Seq::new((hi - lo + 1) as nat, |k: int| (lo + k) as usize));
        proof {
            assert forall|y: usize| v@.to_set().contains(y) <==> interval(lo, hi).contains(y) by {
                if lo <= y <= hi {
                    assert(v@[y - lo] == y);
                }
                if v@.contains(y) {
                    let q = choose|q: int| 0 <= q < v@.len() && v@[q] == y;
                    assert(v@[q] == lo + q);
                }
            }
            assert(v@.to_set() =~= interval(lo, hi));
        }
        Range { lines: v }
    }

    /// The blocks that start at each index of the range, together.
    pub fn into_block(self, ctx: &RedBuffer) -> (r: Range)
        ensures
            r.wf(),
            r@ == Set::new(|y: usize| exists|x: usize| self@.contains(x) && #[trigger] block_of(ctx.lines_view(), x).contains(y)),
    {
        let ghost lv = ctx.lines_view();
        let mut acc = Range::empty();
        let mut i: usize = 0;
        assert(acc@ =~= Set::new(|y: usize| exists|k: int| 0 <= k < 0 && #[trigger] block_of(lv, self.lines@[k]).contains(y)));
        while i < self.lines.len()
            invariant
                i <= self.lines@.len(),
                lv == ctx.lines_view(),
                acc.wf(),
                acc@ == Set::new(|y: usize| exists|k: int| 0 <= k < i && #[trigger] block_of(lv, self.lines@[k]).contains(y)),
            decreases self.lines@.len() - i,
        {
            let b = Range::from_indices(line_to_block(self.lines[i], ctx));
            let next = acc.union(&b);
            proof {
                assert(next@ =~= Set::new(|y: usize| exists|k: int| 0 <= k < i + 1 && #[trigger] block_of(lv, self.lines@[k]).contains(y))) by {
                    assert forall|y: usize| next@.contains(y) implies exists|k: int| 0 <= k < i + 1 && #[trigger] block_of(lv, self.lines@[k]).contains(y) by {
                        if b@.contains(y) {
                            assert(block_of(lv, self.lines@[i as int]).contains(y));
                        }
                    }
                    assert forall|y: usize| (exists|k: int| 0 <= k < i + 1 && #[trigger] block_of(lv, self.lines@[k]).contains(y)) implies next@.contains(y) by {
                        let k = choose|k: int| 0 <= k < i + 1 && #[trigger] block_of(lv, self.lines@[k]).contains(y);
                        if k == i {
                            assert(b@.contains(y));
                        } else {
                            assert(acc@.contains(y));
                        }
                    }
                }
            }
            acc = next;
            i = i + 1;
        }
        proof {
            assert(acc@ =~= Set::new(|y: usize| exists|x: usize| self@.contains(x) && #[trigger] block_of(ctx.lines_view(), x).contains(y))) by {
                assert forall|y: usize| acc@.contains(y) implies exists|x: usize| self@.contains(x) && #[trigger] block_of(lv, x).contains(y) by {
                    let k = choose|k: int| 0 <= k < i && #[trigger] block_of(lv, self.lines@[k]).contains(y);
                    assert(self@.contains(self.lines@[k]));
                }
                assert forall|y: usize| (exists|x: usize| self@.contains(x) && #[trigger] block_of(lv, x).contains(y)) implies acc@.contains(y) by {
                    let x = choose|x: usize| self@.contains(x) && #[trigger] block_of(lv, x).contains(y);
                    let k = choose|k: int| 0 <= k < self.lines@.len() && self.lines@[k] == x;
                    assert(block_of(lv, self.lines@[k]).contains(y));
                }
            }
        }
        acc
    }

    /// The range that holds exactly the given indices.
    pub fn from_indices(v: Vec<usize>) -> (r: Range)
        ensures
            r.wf(),
            r@ == v@.to_set(),
    {
        let s = sort_indices(v);
        proof {
            broadcast use vstd::seq_lib::to_multiset_contains;
            assert forall|x: usize| s@.contains(x) <==> v@.contains(x) by {
                assert(s@.to_multiset().count(x) == v@.to_multiset().count(x));
            }
        }
        let mut out: Vec<usize> = Vec::new();
        let mut i: usize = 0;
        while i < s.len()
            invariant
                i <= s.len(),
                sorted_asc(s@),
                strictly_asc(out@),
                forall|x: usize| out@.contains(x) <==> exists|k: int| 0 <= k < i && s@[k] == x,
                out@.len() > 0 ==> i > 0 && out@.last() == s@[i - 1],
            decreases s.len() - i,
        {
            let x = s[i];
            if out.len() == 0 || out[out.len() - 1] != x {
                proof {
                    if out@.len() > 0 {
                        assert(s@[i - 1] <= x);
                    }
                }
                let ghost prev = out@;
                out.push(x);
                proof {
                    assert forall|y: usize| out@.contains(y) <==> exists|k: int| 0 <= k < i + 1 && s@[k] == y by {
                        if out@.contains(y) {
                            let j = choose|j: int| 0 <= j < out@.len() && out@[j] == y;
                            if j < prev.len() {
                                assert(prev[j] == y);
                                assert(prev.contains(y));
                                let k = choose|k: int| 0 <= k < i && s@[k] == y;
                                assert(0 <= k < i + 1 && s@[k] == y);
                            } else {
                                assert(s@[i as int] == y);
                            }
                        }
                        if exists|k: int| 0 <= k < i + 1 && s@[k] == y {
                            let k = choose|k: int| 0 <= k < i + 1 && s@[k] == y;
                            if k < i {
                                assert(prev.contains(y));
                                let j = choose|j: int| 0 <= j < prev.len() && prev[j] == y;
                                assert(out@[j] == y);
                            } else {
                                assert(out@[prev.len() as int] == y);
                            }
                        }
                    }
                }
            } else {
                proof {
                    assert forall|y: usize| out@.contains(y) <==> exists|k: int| 0 <= k < i + 1 && s@[k] == y by {
                        if out@.contains(y) {
                            let k = choose|k: int| 0 <= k < i && s@[k] == y;
                            assert(0 <= k < i + 1 && s@[k] == y);
                        }
                        if exists|k: int| 0 <= k < i + 1 && s@[k] == y {
                            let k = choose|k: int| 0 <= k < i + 1 && s@[k] == y;
                            if k == i {
                                assert(out@[out@.len() - 1] == y);
                            } else {
                                assert(exists|k2: int| 0 <= k2 < i && s@[k2] == y);
                            }
                        }
                    }
                }
            }
            i = i + 1;
        }
        proof {
            assert(out@.to_set() =~= v@.to_set()) by {
                assert forall|x: usize| out@.to_set().contains(x) <==> v@.to_set().contains(x) by {
                    if s@.contains(x) {
                        let k = choose|k: int| 0 <= k < s@.len() && s@[k] == x;
                    }
                }
            }
        }
        Range { lines: out }
    }
}

} // verus!
