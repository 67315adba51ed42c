use vstd::prelude::*;

use crate::action::ActionErr;
use crate::range::{inserted_set, lemma_inserted_set_moves, removed_set, Range};
use crate::pattern::{regex_compiles, regex_is_match, regex_match_count, regex_replace_all, Pattern};
use crate::text::{join_lines, joined, pieces, split_text};

verus! {

/// The name that an empty name stands for.
pub open spec fn default_name() -> Seq<char> {
    seq!['\'']
}

/// A slot name with the empty name replaced by the default one.
pub open spec fn slot_name(s: Seq<char>) -> Seq<char> {
    if s.len() == 0 {
        default_name()
    } else {
        s
    }
}

/// The slot name for `x`: `x` itself, or the default name when `x` is empty.
pub fn normalized_name(x: String) -> (r: String)
    ensures
        r@ == slot_name(x@),
{
    if x.as_str().unicode_len() == 0 {
        let r = String::from_str("'");
        proof {
            reveal_strlit("'");
            assert(r@ =~= default_name());
        }
        r
    } else {
        x
    }
}

/// Lines as sequences of characters.
pub open spec fn text_view(v: Seq<String>) -> Seq<Seq<char>> {
    v.map_values(|l: String| l@)
}

/// The lines among the first `n` whose index is in `sel`, in order.
pub open spec fn picked(lines: Seq<Seq<char>>, sel: Set<usize>, n: int) -> Seq<Seq<char>>
    decreases n,
{
    if n <= 0 {
        Seq::empty()
    } else if sel.contains((n - 1) as usize) {
        picked(lines, sel, n - 1).push(lines[n - 1])
    } else {
        picked(lines, sel, n - 1)
    }
}

/// The lines among the first `n` whose index is not in `sel`, in order.
pub open spec fn kept(lines: Seq<Seq<char>>, sel: Set<usize>, n: int) -> Seq<Seq<char>>
    decreases n,
{
    if n <= 0 {
        Seq::empty()
    } else if sel.contains((n - 1) as usize) {
        kept(lines, sel, n - 1)
    } else {
        kept(lines, sel, n - 1).push(lines[n - 1])
    }
}

/// The set `s` once each line of `idx` below `n` is removed, the last of
/// `idx` first.
pub open spec fn removed_each(s: Set<usize>, idx: Seq<usize>, n: nat) -> Set<usize>
    decreases idx.len(),
{
    if idx.len() == 0 {
        s
    } else {
        let d = idx.last();
        removed_each(if d < n { removed_set(s, d) } else { s }, idx.drop_last(), n)
    }
}

/// The line `i` of `lines` with `text` put before it (or after it, when
/// `at_end`) when `i` is in `sel`.
pub open spec fn decorated(lines: Seq<Seq<char>>, sel: Set<usize>, text: Seq<char>, at_end: bool) -> Seq<Seq<char>> {
    Seq::new(lines.len(), |i: int| if sel.contains(i as usize) {
        if at_end { lines[i] + text } else { text + lines[i] }
    } else {
        lines[i]
    })
}

/// Every selected line with each match of `pat` replaced by `rep`.
pub open spec fn substituted(lines: Seq<Seq<char>>, sel: Set<usize>, pat: Seq<char>, rep: Seq<char>) -> Seq<Seq<char>> {
    Seq::new(lines.len(), |i: int| if sel.contains(i as usize) {
        regex_replace_all(pat, rep, lines[i])
    } else {
        lines[i]
    })
}

/// How many matches of `pat` the selected lines among the first `n` hold
/// together.
pub open spec fn match_total(lines: Seq<Seq<char>>, sel: Set<usize>, pat: Seq<char>, n: int) -> nat
    decreases n,
{
    if n <= 0 {
        0
    } else if sel.contains((n - 1) as usize) {
        match_total(lines, sel, pat, n - 1) + regex_match_count(pat, lines[n - 1])
    } else {
        match_total(lines, sel, pat, n - 1)
    }
}

/// `x`, or `usize::MAX` when `x` does not fit.
pub open spec fn capped(x: nat) -> usize {
    if x > usize::MAX {
        usize::MAX
    } else {
        x as usize
    }
}

/// Where the `i`-th of the placed lines goes: the `i`-th destination moved
/// by `off`, and once the destinations run out, one past the line before.
pub open spec fn placement(dests: Seq<usize>, off: int, i: int) -> int {
    if i < dests.len() {
        dests[i] + off
    } else {
        dests.last() + off + (i - dests.len() + 1)
    }
}

/// The lines after the first `k` of `src` are put in place one by one.
pub open spec fn placed(lines: Seq<Seq<char>>, src: Seq<Seq<char>>, dests: Seq<usize>, off: int, k: int) -> Seq<Seq<char>>
    decreases k,
{
    if k <= 0 {
        lines
    } else {
        placed(lines, src, dests, off, k - 1).insert(placement(dests, off, k - 1), src[k - 1])
    }
}

/// Every placement fits: the `i`-th goes at most one past the end of the
/// lines as they are by then.
pub open spec fn placements_fit(n: nat, count: nat, dests: Seq<usize>, off: int) -> bool {
    forall|i: int| 0 <= i < count ==> #[trigger] placement(dests, off, i) <= n + i
}

/// The facts of an insertion at `at` on one set, as a unit to quantify over.
spec fn marks_move_ok(s: Set<usize>, at: usize) -> bool {
    &&& forall|x: usize| s.contains(x) && at <= x < usize::MAX ==> #[trigger] inserted_set(s, at).contains((x + 1) as usize)
    &&& forall|x: usize| s.contains(x) && x < at ==> #[trigger] inserted_set(s, at).contains(x)
}

/// The name of a mark.
#[derive(Clone, Debug, PartialEq, Eq, Hash)]
pub struct Mark(String);

impl Mark {
    /// The mark's name as characters.
    pub closed spec fn name_view(&self) -> Seq<char> {
        self.0@
    }

    /// The mark called `x`, or the default mark when `x` is empty.
    pub fn named(x: String) -> (r: Mark)
        ensures
            r.name_view() == slot_name(x@),
    {
        Mark(normalized_name(x))
    }

    /// The mark's name.
    pub fn name(&self) -> (r: &String)
        ensures
            r@ == self.name_view(),
    {
        &self.0
    }

    /// A copy of this mark.
    pub fn duplicate(&self) -> (r: Mark)
        ensures
            r == *self,
    {
        Mark(self.0.clone())
    }

    /// Whether two marks have the same name.
    pub fn same(&self, other: &Mark) -> (r: bool)
        ensures
            r == (self.name_view() == other.name_view()),
    {
        self.0 == other.0
    }
}

impl From<String> for Mark {
    fn from(x: String) -> (r: Mark)
        ensures
            r.name_view() == slot_name(x@),
    {
        Mark::named(x)
    }
}

impl vstd::std_specs::convert::FromSpecImpl<String> for Mark {
    open spec fn obeys_from_spec() -> bool {
        false
    }

    open spec fn from_spec(v: String) -> Mark {
        arbitrary()
    }
}

/// One document: its lines, the selected lines, named marks, the file it
/// belongs to and whether it matches that file.
#[derive(Clone, Debug)]
pub struct RedBuffer {
    pub lines: Vec<String>,
    pub cursor: Range,
    pub marks: Vec<(Mark, Range)>,
    pub filename: Option<String>,
    pub saved: bool,
}

impl RedBuffer {
    /// The lines as sequences of characters.
    pub open spec fn lines_view(&self) -> Seq<Seq<char>> {
        text_view(self.lines@)
    }

    /// Every range is well formed and no two marks share a name.
    pub open spec fn wf(&self) -> bool {
        &&& self.cursor.wf()
        &&& forall|i: int| 0 <= i < self.marks@.len() ==> (#[trigger] self.marks@[i]).1.wf()
        &&& forall|i: int, j: int|
            0 <= i < j < self.marks@.len() ==> self.marks@[i].0.name_view() != self.marks@[j].0.name_view()
    }

    /// A buffer with one empty line, nothing selected, no marks and no file.
    pub fn empty() -> (r: RedBuffer)
        ensures
            r.wf(),
            r.lines_view() == seq![Seq::<char>::empty()],
            r.cursor@ == Set::<usize>::empty(),
            r.marks@.len() == 0,
            r.filename.is_none(),
            r.saved,
    {
        let r = RedBuffer {
            lines: vec![String::new()],
            cursor: Range::empty(),
            marks: Vec::new(),
            filename: None,
            saved: true,
        };
        assert(r.lines_view() =~= seq![Seq::<char>::empty()]);
        r
    }

    /// Inserts `line` at `at` and moves the cursor and every mark with it.
    pub fn insert_line(&mut self, at: usize, line: String) -> (r: Result<(), ActionErr>)
        requires
            old(self).wf(),
        ensures
            final(self).wf(),
            at > old(self).lines@.len() ==> r == Err::<(), ActionErr>(ActionErr::OutOfBounds) && *final(self) == *old(self),
            at <= old(self).lines@.len() ==> {
                &&& r is Ok
                &&& final(self).lines@ == old(self).lines@.insert(at as int, line)
                &&& final(self).cursor@ == inserted_set(old(self).cursor@, at)
                &&& final(self).marks@.len() == old(self).marks@.len()
                &&& forall|i: int| 0 <= i < old(self).marks@.len() ==> {
                    &&& (#[trigger] final(self).marks@[i]).0 == old(self).marks@[i].0
                    &&& final(self).marks@[i].1@ == inserted_set(old(self).marks@[i].1@, at)
                }
                &&& final(self).filename == old(self).filename
                &&& !final(self).saved
                &&& final(self).lines@[at as int] == line
                &&& forall|x: usize| #[trigger] old(self).cursor@.contains(x) && at <= x < usize::MAX ==> final(self).cursor@.contains((x + 1) as usize)
                &&& forall|x: usize| #[trigger] old(self).cursor@.contains(x) && x < at ==> final(self).cursor@.contains(x)
                &&& forall|i: int, x: usize| 0 <= i < old(self).marks@.len() && #[trigger] old(self).marks@[i].1@.contains(x) && at <= x < usize::MAX
                    ==> final(self).marks@[i].1@.contains((x + 1) as usize)
                &&& forall|i: int, x: usize| 0 <= i < old(self).marks@.len() && #[trigger] old(self).marks@[i].1@.contains(x) && x < at
                    ==> final(self).marks@[i].1@.contains(x)
            },
    {
        if at > self.lines.len() {
            return Err(ActionErr::OutOfBounds);
        }
        proof {
            lemma_inserted_set_moves(self.cursor@, at);
            assert forall|i: int| 0 <= i < self.marks@.len() implies #[trigger] marks_move_ok(self.marks@[i].1@, at) by {
                lemma_inserted_set_moves(self.marks@[i].1@, at);
            }
        }
        self.lines.insert(at, line);
        let cursor = self.cursor.duplicate();
        self.cursor = cursor.inserted_line(at);
        let mut marks: Vec<(Mark, Range)> = Vec::new();
        let mut i: usize = 0;
        while i < self.marks.len()
            invariant
                i <= self.marks.len(),
                marks@.len() == i,
                forall|k: int| 0 <= k < i ==> {
                    &&& (#[trigger] marks@[k]).0 == self.marks@[k].0
                    &&& marks@[k].1.wf()
                    &&& marks@[k].1@ == inserted_set(self.marks@[k].1@, at)
                },
            decreases self.marks.len() - i,
        {
            let name = self.marks[i].0.duplicate();
            let range = self.marks[i].1.duplicate();
            marks.push((name, range.inserted_line(at)));
            i = i + 1;
        }
        self.marks = marks;
        self.saved = false;
        Ok(())
    }

    /// Moves the cursor and every mark as for the removal of line `at`,
    /// leaving the lines as they are.
    fn forget_line(&mut self, at: usize)
        requires
            old(self).wf(),
        ensures
            final(self).wf(),
            final(self).lines == old(self).lines,
            final(self).cursor@ == removed_set(old(self).cursor@, at),
            final(self).marks@.len() == old(self).marks@.len(),
            forall|i: int| 0 <= i < old(self).marks@.len() ==> {
                &&& (#[trigger] final(self).marks@[i]).0 == old(self).marks@[i].0
                &&& final(self).marks@[i].1@ == removed_set(old(self).marks@[i].1@, at)
            },
            final(self).filename == old(self).filename,
            final(self).saved == old(self).saved,
    {
        let cursor = self.cursor.duplicate();
        self.cursor = cursor.removed_line(at);
        let mut marks: Vec<(Mark, Range)> = Vec::new();
        let mut i: usize = 0;
        while i < self.marks.len()
            invariant
                i <= self.marks.len(),
                marks@.len() == i,
                forall|k: int| 0 <= k < i ==> {
                    &&& (#[trigger] marks@[k]).0 == self.marks@[k].0
                    &&& marks@[k].1.wf()
                    &&& marks@[k].1@ == removed_set(self.marks@[k].1@, at)
                },
            decreases self.marks.len() - i,
        {
            let name = self.marks[i].0.duplicate();
            let range = self.marks[i].1.duplicate();
            marks.push((name, range.removed_line(at)));
            i = i + 1;
        }
        self.marks = marks;
    }

    /// Removes the line at `at` and moves the cursor and every mark with it:
    /// `at` leaves each range and the indices above it move down by one.
    pub fn remove_line(&mut self, at: usize)
        requires
            old(self).wf(),
            at < old(self).lines@.len(),
        ensures
            final(self).wf(),
            final(self).lines@ == old(self).lines@.remove(at as int),
            final(self).cursor@ == removed_set(old(self).cursor@, at),
            final(self).marks@.len() == old(self).marks@.len(),
            forall|i: int| 0 <= i < old(self).marks@.len() ==> {
                &&& (#[trigger] final(self).marks@[i]).0 == old(self).marks@[i].0
                &&& final(self).marks@[i].1@ == removed_set(old(self).marks@[i].1@, at)
            },
            final(self).filename == old(self).filename,
            !final(self).saved,
    {
        self.lines.remove(at);
        self.forget_line(at);
        self.saved = false;
    }

    /// The selected lines, in order.
    pub fn selected_lines(&self) -> (r: Vec<String>)
        ensures
            text_view(r@) == picked(self.lines_view(), self.cursor@, self.lines@.len() as int),
    {
        let mut out: Vec<String> = Vec::new();
        let mut i: usize = 0;
        while i < self.lines.len()
            invariant
                i <= self.lines@.len(),
                text_view(out@) == picked(self.lines_view(), self.cursor@, i as int),
            decreases self.lines@.len() - i,
        {
            if self.cursor.contains(i) {
                out.push(self.lines[i].clone());
                assert(text_view(out@) =~= picked(self.lines_view(), self.cursor@, i + 1));
            }
            i = i + 1;
        }
        out
    }

    /// Removes the selected lines and returns them in order; the cursor and
    /// every mark move as for each removal, the last line first.
    pub fn delete_selection(&mut self) -> (r: Vec<String>)
        requires
            old(self).wf(),
        ensures
            final(self).wf(),
            text_view(r@) == picked(old(self).lines_view(), old(self).cursor@, old(self).lines@.len() as int),
            final(self).lines_view() == kept(old(self).lines_view(), old(self).cursor@, old(self).lines@.len() as int),
            final(self).cursor@ == removed_each(old(self).cursor@, old(self).cursor.lines@, old(self).lines@.len() as nat),
            final(self).marks@.len() == old(self).marks@.len(),
            forall|i: int| 0 <= i < old(self).marks@.len() ==> {
                &&& (#[trigger] final(self).marks@[i]).0 == old(self).marks@[i].0
                &&& final(self).marks@[i].1@ == removed_each(old(self).marks@[i].1@, old(self).cursor.lines@, old(self).lines@.len() as nat)
            },
            final(self).filename == old(self).filename,
            final(self).saved == (old(self).saved && r@.len() == 0),
    {
        let n = self.lines.len();
        let ghost lv = self.lines_view();
        let ghost sel = self.cursor@;
        let mut removed: Vec<String> = Vec::new();
        let mut rest: Vec<String> = Vec::new();
        let mut i: usize = 0;
        while i < n
            invariant
                i <= n,
                n == self.lines@.len(),
                lv == self.lines_view(),
                sel == self.cursor@,
                text_view(removed@) == picked(lv, sel, i as int),
                text_view(rest@) == kept(lv, sel, i as int),
            decreases n - i,
        {
            if self.cursor.contains(i) {
                removed.push(self.lines[i].clone());
                assert(text_view(removed@) =~= picked(lv, sel, i + 1));
            } else {
                rest.push(self.lines[i].clone());
                assert(text_view(rest@) =~= kept(lv, sel, i + 1));
            }
            i = i + 1;
        }
        self.lines = rest;
        let idx = self.cursor.duplicate().lines;
        let ghost marks0 = self.marks@;
        let mut k: usize = idx.len();
        assert(idx@.subrange(0, k as int) =~= idx@);
        while k > 0
            invariant
                k <= idx@.len(),
                self.wf(),
                self.lines_view() == kept(lv, sel, n as int),
                removed_each(sel, idx@, n as nat) == removed_each(self.cursor@, idx@.subrange(0, k as int), n as nat),
                self.marks@.len() == marks0.len(),
                forall|j: int| 0 <= j < marks0.len() ==> {
                    &&& (#[trigger] self.marks@[j]).0 == marks0[j].0
                    &&& removed_each(marks0[j].1@, idx@, n as nat) == removed_each(self.marks@[j].1@, idx@.subrange(0, k as int), n as nat)
                },
                self.filename == old(self).filename,
                self.saved == old(self).saved,
            decreases k,
        {
            k = k - 1;
            let d = idx[k];
            let ghost before_cursor = self.cursor@;
            let ghost before_marks = self.marks@;
            if d < n {
                self.forget_line(d);
            }
            proof {
                let sub = idx@.subrange(0, k + 1);
                assert(sub.drop_last() =~= idx@.subrange(0, k as int));
                assert(sub.last() == d);
                assert forall|j: int| 0 <= j < marks0.len() implies {
                    &&& (#[trigger] self.marks@[j]).0 == marks0[j].0
                    &&& removed_each(marks0[j].1@, idx@, n as nat) == removed_each(self.marks@[j].1@, idx@.subrange(0, k as int), n as nat)
                } by {
                    assert(removed_each(before_marks[j].1@, sub, n as nat) == removed_each(self.marks@[j].1@, idx@.subrange(0, k as int), n as nat));
                }
            }
        }
        proof {
            assert(idx@.subrange(0, 0) =~= Seq::<usize>::empty());
        }
        if removed.len() > 0 {
            self.saved = false;
        }
        removed
    }

    /// Puts `text` before (or after, when `at_end`) each selected line;
    /// selected indices past the end are passed over.
    pub fn decorate_selection(&mut self, text: &str, at_end: bool)
        requires
            old(self).wf(),
        ensures
            final(self).wf(),
            final(self).lines_view() == decorated(old(self).lines_view(), old(self).cursor@, text@, at_end),
            final(self).cursor == old(self).cursor,
            final(self).marks == old(self).marks,
            final(self).filename == old(self).filename,
            final(self).saved == old(self).saved,
    {
        let ghost lv = self.lines_view();
        let mut i: usize = 0;
        while i < self.lines.len()
            invariant
                i <= self.lines@.len(),
                self.lines@.len() == lv.len(),
                self.wf(),
                self.cursor == old(self).cursor,
                self.marks == old(self).marks,
                self.filename == old(self).filename,
                self.saved == old(self).saved,
                lv == old(self).lines_view(),
                forall|j: int| 0 <= j < i ==> (#[trigger] self.lines_view()[j]) == decorated(lv, self.cursor@, text@, at_end)[j],
                forall|j: int| i <= j < lv.len() ==> (#[trigger] self.lines_view()[j]) == lv[j],
            decreases self.lines@.len() - i,
        {
            let ghost prev = self.lines_view();
            assert(prev[i as int] == lv[i as int]);
            if self.cursor.contains(i) {
                let line = if at_end {
                    let mut t = self.lines[i].clone();
                    t.append(text);
                    t
                } else {
                    let mut t = String::from_str(text);
                    t.append(self.lines[i].as_str());
                    t
                };
                let ghost lview = line@;
                self.lines.set(i, line);
                assert(self.lines_view() =~= prev.update(i as int, lview));
                assert(lview == decorated(lv, self.cursor@, text@, at_end)[i as int]);
            }
            i = i + 1;
        }
        assert(self.lines_view() =~= decorated(lv, self.cursor@, text@, at_end));
    }

    /// Replaces every match of the regular expression `pat` by `rep` in each
    /// selected line (`$N` and `$name` in `rep` stand for capture groups).
    /// Fails, changing nothing, with `Regex` when `pat` is no valid pattern,
    /// and with `OutOfBounds` when an index of the selection is past the end.
    /// Returns how many matches there were (saturating) and on how many lines.
    pub fn substitute(&mut self, pat: &str, rep: &str) -> (r: Result<(usize, usize), ActionErr>)
        requires
            old(self).wf(),
        ensures
            final(self).wf(),
            final(self).cursor == old(self).cursor,
            final(self).marks == old(self).marks,
            final(self).filename == old(self).filename,
            !regex_compiles(pat@) ==> r == Err::<(usize, usize), ActionErr>(ActionErr::Regex) && *final(self) == *old(self),
            regex_compiles(pat@) && (exists|x: usize| old(self).cursor@.contains(x) && x >= old(self).lines@.len()) ==>
                r == Err::<(usize, usize), ActionErr>(ActionErr::OutOfBounds) && *final(self) == *old(self),
            regex_compiles(pat@) && (forall|x: usize| old(self).cursor@.contains(x) ==> x < old(self).lines@.len()) ==> {
                &&& r matches Ok((count, hit))
                &&& final(self).lines_view() == substituted(old(self).lines_view(), old(self).cursor@, pat@, rep@)
                &&& hit == Set::new(|i: usize| old(self).cursor@.contains(i) && regex_is_match(pat@, old(self).lines_view()[i as int])).len()
                &&& count == capped(match_total(old(self).lines_view(), old(self).cursor@, pat@, old(self).lines@.len() as int))
                &&& (count > 0) == (hit > 0)
                &&& final(self).saved == (old(self).saved && count == 0)
            },
    {
        match Pattern::compile(pat) {
            Some(p) => self.substitute_with(&p, rep),
            None => Err(ActionErr::Regex),
        }
    }

    /// `substitute` with a compiled pattern.
    pub(crate) fn substitute_with(&mut self, pat: &Pattern, rep: &str) -> (r: Result<(usize, usize), ActionErr>)
        requires
            old(self).wf(),
        ensures
            final(self).wf(),
            final(self).cursor == old(self).cursor,
            final(self).marks == old(self).marks,
            final(self).filename == old(self).filename,
            (exists|x: usize| old(self).cursor@.contains(x) && x >= old(self).lines@.len()) ==> r == Err::<(usize, usize), ActionErr>(ActionErr::OutOfBounds) && *final(self) == *old(self),
            (forall|x: usize| old(self).cursor@.contains(x) ==> x < old(self).lines@.len()) ==> {
                &&& r matches Ok((count, hit))
                &&& final(self).lines_view() == substituted(old(self).lines_view(), old(self).cursor@, pat.source_view(), rep@)
                &&& hit == Set::new(|i: usize| old(self).cursor@.contains(i) && regex_is_match(pat.source_view(), old(self).lines_view()[i as int])).len()
                &&& count == capped(match_total(old(self).lines_view(), old(self).cursor@, pat.source_view(), old(self).lines@.len() as int))
                &&& (count > 0) == (hit > 0)
                &&& final(self).saved == (old(self).saved && count == 0)
            },
    {
        let n = self.lines.len();
        let mut q: usize = 0;
        while q < self.cursor.lines.len()
            invariant
                q <= self.cursor.lines@.len(),
                *self == *old(self),
                self.wf(),
                n == self.lines@.len(),
                forall|k: int| 0 <= k < q ==> self.cursor.lines@[k] < n,
            decreases self.cursor.lines@.len() - q,
        {
            if self.cursor.lines[q] >= n {
                proof {
                    assert(self.cursor@.contains(self.cursor.lines@[q as int]));
                }
                return Err(ActionErr::OutOfBounds);
            }
            q = q + 1;
        }
        assert forall|x: usize| self.cursor@.contains(x) implies x < n by {
            let k = choose|k: int| 0 <= k < self.cursor.lines@.len() && self.cursor.lines@[k] == x;
        }
        let ghost lv = self.lines_view();
        let ghost hits = Set::new(|i: usize| self.cursor@.contains(i) && regex_is_match(pat.source_view(), lv[i as int]));
        let mut count: usize = 0;
        let mut hit: usize = 0;
        proof {
            broadcast use vstd::seq_lib::seq_to_set_is_finite;
            assert(self.cursor@.finite());
            vstd::set_lib::lemma_len_subset(hits, self.cursor@);
            assert(hits.filter(|x: usize| x < 0) =~= Set::<usize>::empty());
        }
        let mut i: usize = 0;
        while i < n
            invariant
                i <= n,
                hits.finite(),
                n == self.lines@.len(),
                lv.len() == n,
                self.wf(),
                self.cursor == old(self).cursor,
                self.marks == old(self).marks,
                self.filename == old(self).filename,
                self.saved == old(self).saved,
                lv == old(self).lines_view(),
                hits == Set::new(|x: usize| self.cursor@.contains(x) && regex_is_match(pat.source_view(), lv[x as int])),
                hit == hits.filter(|x: usize| x < i).len(),
                hit <= i,
                count == capped(match_total(lv, self.cursor@, pat.source_view(), i as int)),
                (count > 0) == (hit > 0),
                forall|j: int| 0 <= j < i ==> (#[trigger] self.lines_view()[j]) == substituted(lv, self.cursor@, pat.source_view(), rep@)[j],
                forall|j: int| i <= j < n ==> (#[trigger] self.lines_view()[j]) == lv[j],
            decreases n - i,
        {
            let ghost before = hits.filter(|x: usize| x < i);
            let ghost prev = self.lines_view();
            proof {
                hits.lemma_len_filter(|x: usize| x < i);
                assert(prev[i as int] == lv[i as int]);
                assert(!before.contains(i));
            }
            if self.cursor.contains(i) {
                let found = pat.count_matches(self.lines[i].as_str());
                let replaced = pat.replace_all(self.lines[i].as_str(), rep);
                let ghost rview = replaced@;
                self.lines.set(i, replaced);
                assert(self.lines_view() =~= prev.update(i as int, rview));
                assert(rview == substituted(lv, self.cursor@, pat.source_view(), rep@)[i as int]);
                count = count.saturating_add(found);
                assert(match_total(lv, self.cursor@, pat.source_view(), i + 1) == match_total(lv, self.cursor@, pat.source_view(), i as int) + found);
                if found > 0 {
                    hit = hit + 1;
                    assert(hits.filter(|x: usize| x < i + 1) =~= before.insert(i));
                } else {
                    assert(hits.filter(|x: usize| x < i + 1) =~= before);
                }
            } else {
                assert(hits.filter(|x: usize| x < i + 1) =~= before);
            }
            i = i + 1;
        }
        assert(self.lines_view() =~= substituted(lv, self.cursor@, pat.source_view(), rep@));
        assert(hits.filter(|x: usize| x < n) =~= hits);
        if count > 0 {
            self.saved = false;
        }
        Ok((count, hit))
    }

    /// Records `range` under `mark`, replacing what the mark held before.
    pub fn set_mark(&mut self, mark: Mark, range: Range)
        requires
            old(self).wf(),
            range.wf(),
        ensures
            final(self).wf(),
            final(self).lines == old(self).lines,
            final(self).cursor == old(self).cursor,
            final(self).filename == old(self).filename,
            final(self).saved == old(self).saved,
            exists|i: int| 0 <= i < final(self).marks@.len() && (#[trigger] final(self).marks@[i]).0 == mark && final(self).marks@[i].1@ == range@,
            forall|i: int| 0 <= i < old(self).marks@.len() && (#[trigger] old(self).marks@[i]).0.name_view() != mark.name_view() ==>
                exists|j: int| 0 <= j < final(self).marks@.len() && #[trigger] final(self).marks@[j] == old(self).marks@[i],
            forall|j: int| 0 <= j < final(self).marks@.len() && (#[trigger] final(self).marks@[j]).0.name_view() != mark.name_view() ==>
                exists|i: int| 0 <= i < old(self).marks@.len() && #[trigger] old(self).marks@[i] == final(self).marks@[j],
    {
        let mut i: usize = 0;
        while i < self.marks.len() && !self.marks[i].0.same(&mark)
            invariant
                i <= self.marks.len(),
                forall|k: int| 0 <= k < i ==> (#[trigger] self.marks@[k]).0.name_view() != mark.name_view(),
            decreases self.marks.len() - i,
        {
            i = i + 1;
        }
        let ghost prev = self.marks@;
        if i < self.marks.len() {
            self.marks.set(i, (mark, range));
            proof {
                assert(self.marks@[i as int].0 == mark);
                assert forall|a: int, b: int| 0 <= a < b < self.marks@.len() implies self.marks@[a].0.name_view() != self.marks@[b].0.name_view() by {
                    assert(prev[a].0.name_view() != prev[b].0.name_view());
                    assert(prev[i as int].0.name_view() == mark.name_view());
                }
                assert forall|k: int| 0 <= k < prev.len() && (#[trigger] prev[k]).0.name_view() != mark.name_view() implies
                    exists|j: int| 0 <= j < self.marks@.len() && #[trigger] self.marks@[j] == prev[k] by {
                    assert(self.marks@[k] == prev[k]);
                }
                assert forall|j: int| 0 <= j < self.marks@.len() && (#[trigger] self.marks@[j]).0.name_view() != mark.name_view() implies
                    exists|k: int| 0 <= k < prev.len() && #[trigger] prev[k] == self.marks@[j] by {
                    assert(prev[j] == self.marks@[j]);
                }
            }
        } else {
            self.marks.push((mark, range));
            proof {
                assert(self.marks@[prev.len() as int].0 == mark);
                assert forall|k: int| 0 <= k < prev.len() && (#[trigger] prev[k]).0.name_view() != mark.name_view() implies
                    exists|j: int| 0 <= j < self.marks@.len() && #[trigger] self.marks@[j] == prev[k] by {
                    assert(self.marks@[k] == prev[k]);
                }
                assert forall|j: int| 0 <= j < self.marks@.len() && (#[trigger] self.marks@[j]).0.name_view() != mark.name_view() implies
                    exists|k: int| 0 <= k < prev.len() && #[trigger] prev[k] == self.marks@[j] by {
                    assert(prev[j] == self.marks@[j]);
                }
            }
        }
    }

    /// Puts the lines of `src` in place one by one, the `i`-th at
    /// `placement(dests, off, i)`. With no destination at all there is
    /// nowhere to start (`NoRange`, nothing changed); a placement past the
    /// end stops the work there (`OutOfBounds`).
    pub fn place_lines(&mut self, src: &Vec<String>, dests: &Vec<usize>, off: usize) -> (r: Result<(), ActionErr>)
        requires
            old(self).wf(),
            off <= 1,
        ensures
            final(self).wf(),
            final(self).filename == old(self).filename,
            dests@.len() == 0 && src@.len() > 0 ==> r == Err::<(), ActionErr>(ActionErr::NoRange) && *final(self) == *old(self),
            dests@.len() > 0 || src@.len() == 0 ==> {
                &&& r is Ok <==> placements_fit(old(self).lines@.len() as nat, src@.len() as nat, dests@, off as int)
                &&& r is Err ==> r == Err::<(), ActionErr>(ActionErr::OutOfBounds)
            },
            r is Ok ==> {
                &&& final(self).lines_view() == placed(old(self).lines_view(), text_view(src@), dests@, off as int, src@.len() as int)
                &&& final(self).saved == (old(self).saved && src@.len() == 0)
            },
    {
        if dests.len() == 0 && src.len() > 0 {
            return Err(ActionErr::NoRange);
        }
        let ghost lv = self.lines_view();
        let ghost sv = text_view(src@);
        let ghost n0 = self.lines@.len();
        let mut last: usize = 0;
        let mut i: usize = 0;
        while i < src.len()
            invariant
                i <= src@.len(),
                dests@.len() > 0 || src@.len() == 0,
                off <= 1,
                self.wf(),
                self.filename == old(self).filename,
                self.lines@.len() == n0 + i,
                sv == text_view(src@),
                lv == old(self).lines_view(),
                n0 == old(self).lines@.len(),
                self.lines_view() == placed(lv, sv, dests@, off as int, i as int),
                forall|j: int| 0 <= j < i ==> #[trigger] placement(dests@, off as int, j) <= n0 + j,
                i > 0 ==> last == placement(dests@, off as int, i - 1),
                self.saved == (old(self).saved && i == 0),
            decreases src@.len() - i,
        {
            let pos = if i < dests.len() {
                dests[i].checked_add(off)
            } else {
                last.checked_add(1)
            };
            let len_now = self.lines.len();
            match pos {
                None => {
                    proof {
                        assert(len_now == n0 + i);
                        assert(placement(dests@, off as int, i as int) > usize::MAX);
                        assert(!placements_fit(n0 as nat, src@.len() as nat, dests@, off as int)) by {
                            assert(placement(dests@, off as int, i as int) > n0 + i);
                        }
                    }
                    return Err(ActionErr::OutOfBounds);
                },
                Some(p) => {
                    assert(p == placement(dests@, off as int, i as int));
                    let ghost before = self.lines_view();
                    match self.insert_line(p, src[i].clone()) {
                        Err(e) => {
                            proof {
                                assert(!placements_fit(n0 as nat, src@.len() as nat, dests@, off as int)) by {
                                    assert(placement(dests@, off as int, i as int) > n0 + i);
                                }
                            }
                            return Err(e);
                        },
                        Ok(()) => {
                            assert(self.lines_view() =~= before.insert(p as int, sv[i as int]));
                        },
                    }
                    last = p;
                },
            }
            i = i + 1;
        }
        Ok(())
    }

    /// The text of the buffer as it is stored: its lines joined by single
    /// line feeds.
    pub fn contents(&self) -> (r: String)
        ensures
            r@ == joined(self.lines_view()),
    {
        join_lines(&self.lines)
    }

    /// Replaces the lines with the pieces of `text` between line feeds (one
    /// empty line when the file does not exist), clears the selection, and
    /// records that the buffer now matches the file at `path`.
    pub fn load(&mut self, path: String, text: Option<String>)
        requires
            old(self).wf(),
        ensures
            final(self).wf(),
            final(self).lines_view() == (match text {
                Some(t) => pieces(t@),
                None => seq![Seq::<char>::empty()],
            }),
            final(self).cursor@ == Set::<usize>::empty(),
            final(self).marks == old(self).marks,
            final(self).filename == Some(path),
            final(self).saved,
    {
        match text {
            Some(t) => {
                self.lines = split_text(t.as_str());
            },
            None => {
                self.lines = vec![String::new()];
                assert(self.lines_view() =~= seq![Seq::<char>::empty()]);
            },
        }
        self.cursor = Range::empty();
        self.filename = Some(path);
        self.saved = true;
    }
}

} // verus!
