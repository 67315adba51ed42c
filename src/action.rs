use vstd::prelude::*;

use crate::address::stop_at;
use crate::pattern::{regex_compiles, regex_is_match, Pattern};
use crate::range::Range;
use crate::red_buffer::{
    capped, decorated, kept, match_total, picked, placed, placements_fit, removed_each, slot_name, substituted,
    text_view, Mark, RedBuffer,
};
use crate::red_master::{RedMaster, Register};
use crate::text::{chars_of, is_blank, joined, string_of, trim, trimmed};

pub mod parse;

verus! {

/// One command of the editor.
#[derive(Debug, Clone)]
pub enum Action {
    /// Insert typed lines before each selected line.
    Insert,
    /// Change a span of characters of each selected line.
    Change,
    /// Append typed lines after each selected line.
    Append,
    /// Move the selected lines into a register.
    Delete(String),
    /// Copy the selected lines into a register.
    Yank(String),
    /// Put a register's lines at the selected positions.
    Paste(String),
    /// Put text at the start of each selected line.
    InsertText(String),
    /// Put text at the end of each selected line.
    AppendText(String),
    /// Record the selection under a mark.
    SetMark(String),
    /// Show one register, or all of them.
    Registers(Option<String>),
    /// Clear the screen.
    Clear,
    /// Copy the selected lines to the given destinations.
    CopyTo(Range),
    /// Replace every match of a pattern in each selected line.
    Substitute(String, String),
    /// Show the selected lines with their numbers.
    Print,
    /// Show the selected lines as they are.
    Print_,
    /// List the buffers.
    BufList,
    /// Make another buffer the active one.
    BufChange(usize),
    /// Open a new buffer, optionally loading a file into it.
    BufNew(Option<String>),
    /// Close the active buffer; `true` closes it despite unsaved changes.
    BufDel(bool),
    /// Write the buffer to a file.
    Write(String),
    /// Load a file into the buffer; `true` discards unsaved changes.
    Edit(bool, String),
}

/// What a command denotes, with text as characters and ranges as sets.
pub enum Command {
    Insert,
    Change,
    Append,
    Delete(Seq<char>),
    Yank(Seq<char>),
    Paste(Seq<char>),
    InsertText(Seq<char>),
    AppendText(Seq<char>),
    SetMark(Seq<char>),
    Registers(Option<Seq<char>>),
    Clear,
    CopyTo(Set<usize>),
    Substitute(Seq<char>, Seq<char>),
    Print,
    PrintPlain,
    BufList,
    BufChange(usize),
    BufNew(Option<Seq<char>>),
    BufDel(bool),
    Write(Seq<char>),
    Edit(bool, Seq<char>),
}

impl View for Action {
    type V = Command;

    open spec fn view(&self) -> Command {
        match self {
            Action::Insert => Command::Insert,
            Action::Change => Command::Change,
            Action::Append => Command::Append,
            Action::Delete(r) => Command::Delete(r@),
            Action::Yank(r) => Command::Yank(r@),
            Action::Paste(r) => Command::Paste(r@),
            Action::InsertText(t) => Command::InsertText(t@),
            Action::AppendText(t) => Command::AppendText(t@),
            Action::SetMark(m) => Command::SetMark(m@),
            Action::Registers(r) => Command::Registers(
                match r {
                    Some(x) => Some(x@),
                    None => None,
                },
            ),
            Action::Clear => Command::Clear,
            Action::CopyTo(r) => Command::CopyTo(r@),
            Action::Substitute(p, t) => Command::Substitute(p@, t@),
            Action::Print => Command::Print,
            Action::Print_ => Command::PrintPlain,
            Action::BufList => Command::BufList,
            Action::BufChange(i) => Command::BufChange(*i),
            Action::BufNew(n) => Command::BufNew(
                match n {
                    Some(x) => Some(x@),
                    None => None,
                },
            ),
            Action::BufDel(f) => Command::BufDel(*f),
            Action::Write(p) => Command::Write(p@),
            Action::Edit(f, p) => Command::Edit(*f, p@),
        }
    }
}

impl Action {
    /// A destination range is well formed.
    pub open spec fn wf(&self) -> bool {
        match self {
            Action::CopyTo(r) => r.wf(),
            _ => true,
        }
    }
}

/// Typed lines going in before (or after) each of a set of lines.
#[derive(Debug, Clone)]
pub struct LineEntry {
    /// Where the lines that were selected stand now, in ascending order.
    pub targets: Vec<usize>,
    /// How many lines have been typed so far.
    pub typed: usize,
    /// Whether typed lines go before the targets rather than after them.
    pub before: bool,
}

/// Changing a span of characters in each of a set of lines, one line after
/// another.
#[derive(Debug, Clone)]
pub struct ChangeEntry {
    /// The lines to change, in ascending order.
    pub lines: Vec<usize>,
    /// How many of them are done.
    pub next: usize,
    /// The span chosen on the current line, waiting for its new text.
    pub span: Option<(usize, usize)>,
}

/// What the caller has to do once a command has been applied.
#[derive(Debug, Clone)]
pub enum Outcome {
    /// Nothing more.
    Done,
    /// The last buffer was closed: the program ends.
    Quit,
    /// Read lines and hand each to the entry, until it says it is done.
    Lines(LineEntry),
    /// Read spans and texts and hand them to the entry, until it is done.
    Change(ChangeEntry),
    /// Show these selected indices with their lines (`None` past the end).
    Print(Vec<(usize, Option<String>)>),
    /// Show these lines as they are.
    PrintPlain(Vec<String>),
    /// Show these registers, each with its name and lines.
    Registers(Vec<(String, Vec<String>)>),
    /// Clear the screen.
    Clear,
    /// List the buffers.
    BufList,
    /// Report how many matches were replaced, on how many lines.
    Substituted(usize, usize),
    /// A new empty buffer is active.
    NewBuffer,
    /// A buffer was closed; the name of its file, if it had one.
    Closed(Option<String>),
    /// Write the text to the path, then record it with `mark_written`.
    Write(String, String),
    /// Read the file at the path (if there is one) and hand its text to
    /// `RedBuffer::load` on the active buffer.
    Load(String),
}

/// A copy of some lines.
pub fn copy_lines(v: &Vec<String>) -> (r: Vec<String>)
    ensures
        r@ == v@,
{
    let mut out: Vec<String> = Vec::new();
    let mut i: usize = 0;
    while i < v.len()
        invariant
            i <= v@.len(),
            out@ == v@.subrange(0, i as int),
        decreases v@.len() - i,
    {
        out.push(v[i].clone());
        i = i + 1;
        assert(out@ =~= v@.subrange(0, i as int));
    }
    assert(out@ =~= v@);
    out
}

/// The rows are the selected indices of `b` in ascending order, each with
/// its line, or with `None` when it is past the end.
pub open spec fn rows_of(rows: Seq<(usize, Option<String>)>, b: RedBuffer) -> bool {
    &&& rows.len() == b.cursor.lines@.len()
    &&& forall|k: int| 0 <= k < rows.len() ==> {
        &&& (#[trigger] rows[k]).0 == b.cursor.lines@[k]
        &&& (rows[k].1 matches Some(t) ==> rows[k].0 < b.lines@.len() && t@ == b.lines_view()[rows[k].0 as int])
        &&& (rows[k].1 is None ==> rows[k].0 >= b.lines@.len())
    }
}

/// Every selected index of the buffer in ascending order, with its line when
/// there is one.
pub fn print_rows(buf: &RedBuffer) -> (r: Vec<(usize, Option<String>)>)
    ensures
        rows_of(r@, *buf),
{
    let mut out: Vec<(usize, Option<String>)> = Vec::new();
    let mut k: usize = 0;
    while k < buf.cursor.lines.len()
        invariant
            k <= buf.cursor.lines@.len(),
            out@.len() == k,
            forall|j: int| 0 <= j < k ==> {
                &&& (#[trigger] out@[j]).0 == buf.cursor.lines@[j]
                &&& (out@[j].1 matches Some(t) ==> out@[j].0 < buf.lines@.len() && t@ == buf.lines_view()[out@[j].0 as int])
                &&& (out@[j].1 is None ==> out@[j].0 >= buf.lines@.len())
            },
        decreases buf.cursor.lines@.len() - k,
    {
        let i = buf.cursor.lines[k];
        let text = if i < buf.lines.len() {
            Some(buf.lines[i].clone())
        } else {
            None
        };
        out.push((i, text));
        k = k + 1;
    }
    out
}

impl LineEntry {
    /// Lines to be typed before (or after) each selected line.
    pub fn new(cursor: &Range, before: bool) -> (r: LineEntry)
        ensures
            r.targets@ == cursor.lines@,
            r.typed == 0,
            r.before == before,
    {
        LineEntry { targets: cursor.duplicate().lines, typed: 0, before }
    }
}

impl ChangeEntry {
    /// Changes to be made to each selected line in turn.
    pub fn new(cursor: &Range) -> (r: ChangeEntry)
        ensures
            r.lines@ == cursor.lines@,
            r.next == 0,
            r.span is None,
    {
        ChangeEntry { lines: cursor.duplicate().lines, next: 0, span: None }
    }
}

/// Whether every selected index is a line of the buffer.
pub open spec fn all_in_range(b: RedBuffer) -> bool {
    forall|x: usize| b.cursor@.contains(x) ==> x < b.lines@.len()
}

fn selection_in_range(b: &RedBuffer) -> (r: bool)
    requires
        b.wf(),
    ensures
        r == all_in_range(*b),
{
    let mut q: usize = 0;
    while q < b.cursor.lines.len()
        invariant
            q <= b.cursor.lines@.len(),
            forall|k: int| 0 <= k < q ==> b.cursor.lines@[k] < b.lines@.len(),
        decreases b.cursor.lines@.len() - q,
    {
        if b.cursor.lines[q] >= b.lines.len() {
            assert(b.cursor@.contains(b.cursor.lines@[q as int]));
            return false;
        }
        q = q + 1;
    }
    assert forall|x: usize| b.cursor@.contains(x) implies x < b.lines@.len() by {
        let k = choose|k: int| 0 <= k < b.cursor.lines@.len() && b.cursor.lines@[k] == x;
    }
    true
}

/// Where the `k`-th target takes the next typed line: before it, or after it
/// and the `typed` lines already put there.
pub open spec fn entry_pos(t: Seq<usize>, typed: int, before: bool, k: int) -> int {
    if before {
        t[k] as int
    } else {
        t[k] + 1 + typed
    }
}

/// The lines once `x` is put at the place of each target from `k` on, the
/// last target first.
pub open spec fn fed(lines: Seq<Seq<char>>, t: Seq<usize>, typed: int, before: bool, x: Seq<char>, k: int) -> Seq<Seq<char>>
    decreases t.len() - k,
{
    if k < 0 || k >= t.len() {
        lines
    } else {
        fed(lines, t, typed, before, x, k + 1).insert(entry_pos(t, typed, before, k), x)
    }
}

/// Every place fits: the `k`-th is at most one past the end of the lines as
/// they are when its turn comes.
pub open spec fn entry_fits(n: nat, t: Seq<usize>, typed: int, before: bool) -> bool {
    forall|k: int| 0 <= k < t.len() ==> #[trigger] entry_pos(t, typed, before, k) <= n + (t.len() - 1 - k)
}

/// Where the targets stand once a line has gone in at each: the `k`-th has
/// `k` new lines above it, or `k + 1` when lines go before the targets
/// (an index cannot pass `usize::MAX`).
pub open spec fn moved_targets(t: Seq<usize>, before: bool) -> Seq<usize> {
    Seq::new(t.len(), |k: int| {
        let step = if before { k + 1 } else { k };
        if t[k] + step > usize::MAX { usize::MAX } else { (t[k] + step) as usize }
    })
}

/// The line that ends typing.
pub open spec fn is_end_line(x: Seq<char>) -> bool {
    x == seq!['.']
}

fn is_end_marker(x: &str) -> (r: bool)
    ensures
        r == is_end_line(x@),
{
    if x.unicode_len() == 1 {
        let c = x.get_char(0);
        assert(x@ =~= seq![c]);
        c == '.'
    } else {
        false
    }
}

impl LineEntry {
    /// Takes the next typed line: `None` (no more input) or `.` ends the
    /// typing (`Ok(false)`, nothing changed); any other line goes before (or
    /// after) each target, the last target first (`Ok(true)`). A place past
    /// the end stops the work there with `OutOfBounds`.
    pub fn feed(&mut self, buf: &mut RedBuffer, line: Option<String>) -> (r: Result<bool, ActionErr>)
        requires
            old(buf).wf(),
        ensures
            final(buf).wf(),
            final(self).before == old(self).before,
            match line {
                None => r == Ok::<bool, ActionErr>(false) && *final(buf) == *old(buf) && *final(self) == *old(self),
                Some(x) => if is_end_line(x@) {
                    r == Ok::<bool, ActionErr>(false) && *final(buf) == *old(buf) && *final(self) == *old(self)
                } else {
                    let t = old(self).targets@;
                    &&& (r is Ok <==> entry_fits(old(buf).lines@.len() as nat, t, old(self).typed as int, old(self).before))
                    &&& r is Err ==> r == Err::<bool, ActionErr>(ActionErr::OutOfBounds)
                    &&& r is Ok ==> {
                        &&& r == Ok::<bool, ActionErr>(true)
                        &&& final(buf).lines_view() == fed(old(buf).lines_view(), t, old(self).typed as int, old(self).before, x@, 0)
                        &&& final(self).typed == old(self).typed + 1 || old(self).typed == usize::MAX
                        &&& final(self).targets@ == moved_targets(t, old(self).before)
                    }
                },
            },
    {
        match line {
            None => Ok(false),
            Some(x) => if is_end_marker(x.as_str()) {
                Ok(false)
            } else {
                self.feed_text(buf, x)
            },
        }
    }

    fn feed_text(&mut self, buf: &mut RedBuffer, x: String) -> (r: Result<bool, ActionErr>)
        requires
            old(buf).wf(),
        ensures
            final(buf).wf(),
            final(self).before == old(self).before,
            ({
                let t = old(self).targets@;
                &&& (r is Ok <==> entry_fits(old(buf).lines@.len() as nat, t, old(self).typed as int, old(self).before))
                &&& r is Err ==> r == Err::<bool, ActionErr>(ActionErr::OutOfBounds)
                &&& r is Ok ==> {
                    &&& r == Ok::<bool, ActionErr>(true)
                    &&& final(buf).lines_view() == fed(old(buf).lines_view(), t, old(self).typed as int, old(self).before, x@, 0)
                    &&& final(self).typed == old(self).typed + 1 || old(self).typed == usize::MAX
                    &&& final(self).targets@ == moved_targets(t, old(self).before)
                }
            }),
    {
        let ghost t = self.targets@;
        let ghost n0 = buf.lines@.len();
        let ghost lv = buf.lines_view();
        let m = self.targets.len();
        let mut k: usize = m;
        while k > 0
            invariant
                k <= m,
                m == t.len(),
                t == self.targets@,
                *self == *old(self),
                buf.wf(),
                n0 == old(buf).lines@.len(),
                lv == old(buf).lines_view(),
                buf.lines@.len() == n0 + (m - k),
                buf.lines_view() == fed(lv, t, self.typed as int, self.before, x@, k as int),
                forall|j: int| k <= j < m ==> #[trigger] entry_pos(t, self.typed as int, self.before, j) <= n0 + (m - 1 - j),
            decreases k,
        {
            k = k - 1;
            let len_now = buf.lines.len();
            let pos = if self.before {
                Some(self.targets[k])
            } else {
                match self.targets[k].checked_add(1) {
                    Some(a) => a.checked_add(self.typed),
                    None => None,
                }
            };
            match pos {
                None => {
                    proof {
                        assert(entry_pos(t, self.typed as int, self.before, k as int) > n0 + (m - 1 - k));
                    }
                    return Err(ActionErr::OutOfBounds);
                },
                Some(p) => {
                    let ghost before_lines = buf.lines_view();
                    match buf.insert_line(p, x.clone()) {
                        Err(e) => {
                            proof {
                                assert(entry_pos(t, self.typed as int, self.before, k as int) > n0 + (m - 1 - k));
                            }
                            return Err(e);
                        },
                        Ok(()) => {
                            assert(buf.lines_view() =~= before_lines.insert(p as int, x@));
                        },
                    }
                },
            }
        }
        let mut moved: Vec<usize> = Vec::new();
        let mut j: usize = 0;
        while j < m
            invariant
                j <= m,
                m == self.targets@.len(),
                moved@ == moved_targets(self.targets@, self.before).subrange(0, j as int),
            decreases m - j,
        {
            let step = if self.before { j + 1 } else { j };
            moved.push(self.targets[j].saturating_add(step));
            j = j + 1;
            assert(moved@ =~= moved_targets(self.targets@, self.before).subrange(0, j as int));
        }
        assert(moved@ =~= moved_targets(self.targets@, self.before));
        self.targets = moved;
        self.typed = self.typed.saturating_add(1);
        Ok(true)
    }
}

/// The characters that stand for positions in a line, in order.
pub const SEL_CHARS: &'static str = "0123456789abcdefghijklmnopqrstuvwxyzABCDEFGHIJKLMNOPQRSTUVWXYZ!\"#%&'()*+,-./:<;=@>?[\\]^_`{|}";

/// The symbols for the positions of a line of `n` characters: one for each
/// position (as far as there are symbols) and `$` for the end.
pub open spec fn alphabet_of(n: nat) -> Seq<char> {
    let all = SEL_CHARS@;
    all.subrange(0, if n < all.len() { n as int } else { all.len() as int }).push('$')
}

/// The line with `x[start..end]` replaced by `t`; what stands past the end of
/// the line is not kept.
pub open spec fn spliced(x: Seq<char>, start: int, end: int, t: Seq<char>) -> Seq<char> {
    x.subrange(0, if start < x.len() { start } else { x.len() as int }) + t + if end < x.len() {
        x.subrange(end, x.len() as int)
    } else {
        Seq::empty()
    }
}

/// The span that a selector of one or two symbols names in an alphabet: from
/// the first symbol's position to just past the last symbol's position.
pub open spec fn span_of(a: Seq<char>, sel: Seq<char>) -> Option<(int, int)> {
    if 1 <= sel.len() <= 2 && stop_at(a, 0, sel[0]) < a.len() && stop_at(a, 0, sel.last()) < a.len() {
        Some((stop_at(a, 0, sel[0]), stop_at(a, 0, sel.last()) + 1))
    } else {
        None
    }
}

/// The symbols for the positions of a line of `n` characters.
pub fn alphabet(n: usize) -> (r: Vec<char>)
    ensures
        r@ == alphabet_of(n as nat),
{
    let all = chars_of(SEL_CHARS);
    let mut out: Vec<char> = Vec::new();
    let mut i: usize = 0;
    while i < all.len() && i < n
        invariant
            i <= all@.len(),
            i <= n,
            all@ == SEL_CHARS@,
            out@ == all@.subrange(0, i as int),
        decreases all@.len() - i,
    {
        out.push(all[i]);
        i = i + 1;
        assert(out@ =~= all@.subrange(0, i as int));
    }
    out.push('$');
    out
}

fn position_in(a: &Vec<char>, c: char) -> (r: usize)
    ensures
        r == stop_at(a@, 0, c),
        r <= a@.len(),
{
    let mut e: usize = 0;
    while e < a.len() && a[e] != c
        invariant
            e <= a@.len(),
            stop_at(a@, 0, c) == stop_at(a@, e as int, c),
        decreases a@.len() - e,
    {
        e = e + 1;
    }
    e
}

/// How a selector moved the change along.
#[derive(Debug, Clone, Copy, PartialEq, Eq)]
pub enum SelectStep {
    /// No more input: the change is over.
    Finished,
    /// An empty selector: this line stays as it is.
    NextLine,
    /// Too long a selector: ask again.
    Again,
    /// A span was chosen: ask for its new text.
    Chosen,
}

impl ChangeEntry {
    /// The line to change now and the symbols for its positions; `None` once
    /// every line is done.
    pub fn current(&self, buf: &RedBuffer) -> (r: Result<Option<(String, Vec<char>)>, ActionErr>)
        ensures
            self.next >= self.lines@.len() ==> r == Ok::<Option<(String, Vec<char>)>, ActionErr>(None),
            self.next < self.lines@.len() && self.lines@[self.next as int] >= buf.lines@.len() ==> r == Err::<Option<(String, Vec<char>)>, ActionErr>(ActionErr::OutOfBounds),
            self.next < self.lines@.len() && self.lines@[self.next as int] < buf.lines@.len() ==> (r matches Ok(Some((x, a)))
                && x@ == buf.lines_view()[self.lines@[self.next as int] as int] && a@ == alphabet_of(x@.len())),
    {
        if self.next >= self.lines.len() {
            return Ok(None);
        }
        let i = self.lines[self.next];
        if i >= buf.lines.len() {
            return Err(ActionErr::OutOfBounds);
        }
        let x = buf.lines[i].clone();
        let a = alphabet(x.as_str().unicode_len());
        Ok(Some((x, a)))
    }

    /// Takes the selector for the current line: `None` (no more input) ends
    /// the change, an empty one passes the line by, one of more than two
    /// symbols is asked again, and one or two symbols choose a span, which
    /// fails with `OutOfBounds` (ending the change) when a symbol is not
    /// among those of the line.
    pub fn select(&mut self, buf: &RedBuffer, selector: Option<String>) -> (r: Result<SelectStep, ActionErr>)
        ensures
            final(self).lines == old(self).lines,
            old(self).next >= old(self).lines@.len() ==> r == Ok::<SelectStep, ActionErr>(SelectStep::Finished) && *final(self) == *old(self),
            old(self).next < old(self).lines@.len() && old(self).lines@[old(self).next as int] >= buf.lines@.len() ==>
                r == Err::<SelectStep, ActionErr>(ActionErr::OutOfBounds) && final(self).next == old(self).lines@.len(),
            old(self).next < old(self).lines@.len() && old(self).lines@[old(self).next as int] < buf.lines@.len() ==> ({
                let x = buf.lines_view()[old(self).lines@[old(self).next as int] as int];
                match selector {
                    None => r == Ok::<SelectStep, ActionErr>(SelectStep::Finished) && final(self).next == old(self).lines@.len(),
                    Some(sel) => if sel@.len() == 0 {
                        r == Ok::<SelectStep, ActionErr>(SelectStep::NextLine) && final(self).next == old(self).next + 1 && final(self).span is None
                    } else if sel@.len() > 2 {
                        r == Ok::<SelectStep, ActionErr>(SelectStep::Again) && *final(self) == *old(self)
                    } else {
                        match span_of(alphabet_of(x.len()), sel@) {
                            None => r == Err::<SelectStep, ActionErr>(ActionErr::OutOfBounds) && final(self).next == old(self).lines@.len(),
                            Some((a, b)) => r == Ok::<SelectStep, ActionErr>(SelectStep::Chosen) && final(self).next == old(self).next
                                && final(self).span == Some((a as usize, b as usize)),
                        }
                    },
                }
            }),
    {
        if self.next >= self.lines.len() {
            return Ok(SelectStep::Finished);
        }
        if self.lines[self.next] >= buf.lines.len() {
            self.next = self.lines.len();
            return Err(ActionErr::OutOfBounds);
        }
        let sel = match selector {
            None => {
                self.next = self.lines.len();
                return Ok(SelectStep::Finished);
            },
            Some(s) => s,
        };
        let cs = chars_of(sel.as_str());
        if cs.len() == 0 {
            self.next = self.next + 1;
            self.span = None;
            return Ok(SelectStep::NextLine);
        }
        if cs.len() > 2 {
            return Ok(SelectStep::Again);
        }
        let i = self.lines[self.next];
        let n = buf.lines[i].as_str().unicode_len();
        let a = alphabet(n);
        let start = position_in(&a, cs[0]);
        let last = position_in(&a, cs[cs.len() - 1]);
        if start >= a.len() || last >= a.len() {
            self.next = self.lines.len();
            return Err(ActionErr::OutOfBounds);
        }
        self.span = Some((start, last + 1));
        Ok(SelectStep::Chosen)
    }

    /// Takes the new text for the chosen span: `None` (no more input) ends
    /// the change; text replaces the span of the current line, and the change
    /// goes on with the next line. Returns whether lines are left.
    pub fn replace(&mut self, buf: &mut RedBuffer, text: Option<String>) -> (r: bool)
        requires
            old(buf).wf(),
        ensures
            final(buf).wf(),
            final(self).lines == old(self).lines,
            !(old(self).next < old(self).lines@.len() && old(self).lines@[old(self).next as int] < old(buf).lines@.len() && old(self).span is Some)
                ==> *final(buf) == *old(buf) && final(self).next == old(self).lines@.len() && !r,
            old(self).next < old(self).lines@.len() && old(self).lines@[old(self).next as int] < old(buf).lines@.len() && old(self).span is Some ==> ({
                let i = old(self).lines@[old(self).next as int] as int;
                let x = old(buf).lines_view()[i];
                match text {
                    None => *final(buf) == *old(buf) && final(self).next == old(self).lines@.len() && !r,
                    Some(t) => {
                        let (a, b) = old(self).span.unwrap();
                        &&& final(buf).lines_view() == old(buf).lines_view().update(i, spliced(x, a as int, b as int, t@))
                        &&& final(buf).cursor == old(buf).cursor
                        &&& !final(buf).saved
                        &&& final(self).next == old(self).next + 1
                        &&& final(self).span is None
                        &&& r == (final(self).next < final(self).lines@.len())
                    },
                }
            }),
    {
        if !(self.next < self.lines.len() && self.lines[self.next] < buf.lines.len() && self.span.is_some()) {
            self.next = self.lines.len();
            return false;
        }
        let t = match text {
            None => {
                self.next = self.lines.len();
                return false;
            },
            Some(t) => t,
        };
        let (a, b) = match self.span {
            Some(s) => s,
            None => (0, 0),
        };
        let i = self.lines[self.next];
        let x = chars_of(buf.lines[i].as_str());
        let tc = chars_of(t.as_str());
        let ghost lv = buf.lines_view();
        let mut out: Vec<char> = Vec::new();
        let mut k: usize = 0;
        while k < a && k < x.len()
            invariant
                k <= x@.len(),
                k <= a,
                out@ == x@.subrange(0, k as int),
            decreases x@.len() - k,
        {
            out.push(x[k]);
            k = k + 1;
            assert(out@ =~= x@.subrange(0, k as int));
        }
        let mut q: usize = 0;
        assert(k == (if (a as int) < x@.len() { a as int } else { x@.len() as int }));
        while q < tc.len()
            invariant
                q <= tc@.len(),
                k <= x@.len(),
                out@ == x@.subrange(0, k as int) + tc@.subrange(0, q as int),
            decreases tc@.len() - q,
        {
            out.push(tc[q]);
            q = q + 1;
            assert(out@ =~= x@.subrange(0, k as int) + tc@.subrange(0, q as int));
        }
        assert(tc@.subrange(0, q as int) =~= tc@);
        let ghost head = out@;
        if b < x.len() {
            let mut e: usize = b;
            while e < x.len()
                invariant
                    b <= e <= x@.len(),
                    out@ == head + x@.subrange(b as int, e as int),
                decreases x@.len() - e,
            {
                out.push(x[e]);
                e = e + 1;
                assert(out@ =~= head + x@.subrange(b as int, e as int));
            }
        }
        let line = string_of(&out);
        proof {
            assert(out@ =~= spliced(x@, a as int, b as int, t@));
        }
        buf.lines.set(i, line);
        buf.saved = false;
        assert(buf.lines_view() =~= lv.update(i as int, spliced(x@, a as int, b as int, t@)));
        self.next = self.next + 1;
        self.span = None;
        self.next < self.lines.len()
    }
}

impl Action {
    /// Applies the command to the session. Commands that need input or
    /// output beyond the session say so in the outcome.
    pub fn apply(self, master: &mut RedMaster) -> (r: Result<Outcome, ActionErr>)
        requires
            old(master).wf(),
            self.wf(),
        ensures
            final(master).wf(),
            ({
                let b = old(master).cur_buf();
                let n = b.lines@.len() as int;
                let nb = final(master).cur_buf();
                match self@ {
                    Command::Delete(reg) => {
                        &&& r matches Ok(Outcome::Done)
                        &&& final(master).cur() == old(master).cur()
                        &&& final(master).buffers@.len() == old(master).buffers@.len()
                        &&& forall|i: int| 0 <= i < old(master).buffers@.len() && i != old(master).cur() ==> #[trigger] final(master).buffers@[i] == old(master).buffers@[i]
                        &&& forall|nm: Seq<char>| nm != slot_name(reg) ==> #[trigger] final(master).register(nm) == old(master).register(nm)
                        &&& nb.lines_view() == kept(b.lines_view(), b.cursor@, n)
                        &&& nb.cursor@ == removed_each(b.cursor@, b.cursor.lines@, n as nat)
                        &&& nb.saved == (b.saved && picked(b.lines_view(), b.cursor@, n).len() == 0)
                        &&& final(master).register(slot_name(reg)) == Some(picked(b.lines_view(), b.cursor@, n))
                    },
                    Command::Yank(reg) => {
                        &&& r matches Ok(Outcome::Done)
                        &&& final(master).buffers == old(master).buffers
                        &&& final(master).cur() == old(master).cur()
                        &&& forall|nm: Seq<char>| nm != slot_name(reg) ==> #[trigger] final(master).register(nm) == old(master).register(nm)
                        &&& final(master).register(slot_name(reg)) == Some(picked(b.lines_view(), b.cursor@, n))
                    },
                    Command::Paste(reg) => match old(master).register(slot_name(reg)) {
                        None => r == Err::<Outcome, ActionErr>(ActionErr::NoSuchRegisters) && *final(master) == *old(master),
                        Some(src) => {
                            &&& (b.cursor.lines@.len() == 0 && src.len() > 0) ==> r == Err::<Outcome, ActionErr>(ActionErr::NoRange) && *final(master) == *old(master)
                            &&& (b.cursor.lines@.len() > 0 || src.len() == 0) ==> {
                                &&& r is Ok <==> placements_fit(n as nat, src.len(), b.cursor.lines@, 0)
                                &&& r is Err ==> r == Err::<Outcome, ActionErr>(ActionErr::OutOfBounds)
                                &&& final(master).same_but_current(*old(master))
                            }
                            &&& r is Ok ==> {
                                &&& r matches Ok(Outcome::Done)
                                &&& nb.lines_view() == placed(b.lines_view(), src, b.cursor.lines@, 0, src.len() as int)
                                &&& nb.saved == (b.saved && src.len() == 0)
                            }
                        },
                    },
                    Command::CopyTo(to) => {
                        let src = picked(b.lines_view(), b.cursor@, n);
                        &&& !all_in_range(b) ==> r == Err::<Outcome, ActionErr>(ActionErr::OutOfBounds) && *final(master) == *old(master)
                        &&& all_in_range(b) && self->CopyTo_0.lines@.len() == 0 && src.len() > 0 ==> r == Err::<Outcome, ActionErr>(ActionErr::NoRange) && *final(master) == *old(master)
                        &&& all_in_range(b) && (self->CopyTo_0.lines@.len() > 0 || src.len() == 0) ==> {
                            &&& r is Ok <==> placements_fit(n as nat, src.len(), self->CopyTo_0.lines@, 1)
                            &&& r is Err ==> r == Err::<Outcome, ActionErr>(ActionErr::OutOfBounds)
                            &&& final(master).same_but_current(*old(master))
                        }
                        &&& r is Ok ==> {
                            &&& r matches Ok(Outcome::Done)
                            &&& nb.lines_view() == placed(b.lines_view(), src, self->CopyTo_0.lines@, 1, src.len() as int)
                            &&& nb.saved == (b.saved && src.len() == 0)
                        }
                    },
                    Command::InsertText(t) => {
                        &&& r matches Ok(Outcome::Done)
                        &&& nb.lines_view() == decorated(b.lines_view(), b.cursor@, t, false)
                        &&& nb.saved == (b.saved && !(b.cursor.lines@.len() > 0 && t.len() > 0))
                        &&& nb.cursor == b.cursor && nb.marks == b.marks && nb.filename == b.filename
                        &&& final(master).same_but_current(*old(master))
                    },
                    Command::AppendText(t) => {
                        &&& r matches Ok(Outcome::Done)
                        &&& nb.lines_view() == decorated(b.lines_view(), b.cursor@, t, true)
                        &&& nb.saved == (b.saved && !(b.cursor.lines@.len() > 0 && t.len() > 0))
                        &&& nb.cursor == b.cursor && nb.marks == b.marks && nb.filename == b.filename
                        &&& final(master).same_but_current(*old(master))
                    },
                    Command::SetMark(m) => {
                        &&& r matches Ok(Outcome::Done)
                        &&& nb.lines == b.lines
                        &&& nb.cursor == b.cursor && nb.saved == b.saved && nb.filename == b.filename
                        &&& final(master).same_but_current(*old(master))
                        &&& exists|i: int| 0 <= i < nb.marks@.len() && (#[trigger] nb.marks@[i]).0.name_view() == slot_name(m) && nb.marks@[i].1@ == b.cursor@
                        &&& forall|i: int| 0 <= i < b.marks@.len() && (#[trigger] b.marks@[i]).0.name_view() != slot_name(m) ==>
                            exists|j: int| 0 <= j < nb.marks@.len() && #[trigger] nb.marks@[j] == b.marks@[i]
                        &&& forall|j: int| 0 <= j < nb.marks@.len() && (#[trigger] nb.marks@[j]).0.name_view() != slot_name(m) ==>
                            exists|i: int| 0 <= i < b.marks@.len() && #[trigger] b.marks@[i] == nb.marks@[j]
                    },
                    Command::Registers(Some(name)) => {
                        &&& *final(master) == *old(master)
                        &&& old(master).register(slot_name(name)) is None ==> r == Err::<Outcome, ActionErr>(ActionErr::NoSuchRegisters)
                        &&& (old(master).register(slot_name(name)) matches Some(ls) ==> (r matches Ok(Outcome::Registers(v))
                            && v@.len() == 1 && v@[0].0@ == name && text_view(v@[0].1@) == ls))
                    },
                    Command::Registers(None) => {
                        &&& *final(master) == *old(master)
                        &&& r matches Ok(Outcome::Registers(v))
                        &&& v@.len() == old(master).registers@.len()
                        &&& forall|i: int| 0 <= i < v@.len() ==> (#[trigger] v@[i]).0@ == old(master).registers@[i].0.name_view()
                                && v@[i].1@ == old(master).registers@[i].1@
                    },
                    Command::Substitute(p, t) => {
                        &&& !regex_compiles(p) ==> r == Err::<Outcome, ActionErr>(ActionErr::Regex) && *final(master) == *old(master)
                        &&& regex_compiles(p) && !all_in_range(b) ==> r == Err::<Outcome, ActionErr>(ActionErr::OutOfBounds) && *final(master) == *old(master)
                        &&& (regex_compiles(p) && all_in_range(b) ==> (r matches Ok(Outcome::Substituted(count, hit))
                            && nb.lines_view() == substituted(b.lines_view(), b.cursor@, p, t)
                            && count == capped(match_total(b.lines_view(), b.cursor@, p, n))
                            && hit == Set::new(|i: usize| b.cursor@.contains(i) && regex_is_match(p, b.lines_view()[i as int])).len()
                            && nb.saved == (b.saved && count == 0)
                            && nb.cursor == b.cursor && nb.marks == b.marks && nb.filename == b.filename
                            && final(master).same_but_current(*old(master))))
                    },
                    Command::BufChange(i) => {
                        &&& final(master).buffers == old(master).buffers
                        &&& (i < old(master).buffers@.len() ==> (r matches Ok(Outcome::Done) && final(master).cur() == i))
                        &&& i >= old(master).buffers@.len() ==> r == Err::<Outcome, ActionErr>(ActionErr::OutOfBounds) && final(master).cur() == old(master).cur()
                    },
                    Command::BufNew(name) => {
                        &&& final(master).buffers@.len() == old(master).buffers@.len() + 1
                        &&& final(master).cur() == old(master).buffers@.len()
                        &&& nb.lines_view() == seq![Seq::<char>::empty()]
                        &&& (name is None ==> r matches Ok(Outcome::NewBuffer))
                        &&& (name matches Some(f) ==> (r matches Ok(Outcome::Load(path)) && path@ == trimmed(f)))
                    },
                    Command::BufDel(force) => {
                        &&& !b.saved && !force ==> r == Err::<Outcome, ActionErr>(ActionErr::Other) && *final(master) == *old(master)
                        &&& ((b.saved || force) && old(master).buffers@.len() == 1 ==> r matches Ok(Outcome::Quit))
                        &&& ((b.saved || force) && old(master).buffers@.len() > 1 ==> (r matches Ok(Outcome::Closed(f))
                            && f == b.filename
                            && final(master).buffers@ == old(master).buffers@.remove(old(master).cur() as int)
                            && final(master).cur() == (if old(master).cur() > 0 { old(master).cur() - 1 } else { 0 })
                            && final(master).registers == old(master).registers))
                    },
                    Command::Write(path) => {
                        &&& *final(master) == *old(master)
                        &&& (trimmed(path).len() > 0 ==> (r matches Ok(Outcome::Write(p, text)) && p@ == path && text@ == joined(b.lines_view())))
                        &&& trimmed(path).len() == 0 && b.filename is None ==> r == Err::<Outcome, ActionErr>(ActionErr::OutOfBounds)
                        &&& (trimmed(path).len() == 0 ==> (b.filename matches Some(f) ==> (r matches Ok(Outcome::Write(p, text)) && p == f && text@ == joined(b.lines_view()))))
                    },
                    Command::Edit(force, path) => {
                        &&& *final(master) == *old(master)
                        &&& !b.saved && !force ==> r == Err::<Outcome, ActionErr>(ActionErr::Other)
                        &&& (b.saved || force ==> (r matches Ok(Outcome::Load(p)) && p@ == trimmed(path)))
                    },
                    Command::Insert => {
                        &&& *final(master) == *old(master)
                        &&& r matches Ok(Outcome::Lines(e))
                        &&& e.targets@ == b.cursor.lines@ && e.typed == 0 && e.before
                    },
                    Command::Append => {
                        &&& *final(master) == *old(master)
                        &&& r matches Ok(Outcome::Lines(e))
                        &&& e.targets@ == b.cursor.lines@ && e.typed == 0 && !e.before
                    },
                    Command::Change => {
                        &&& *final(master) == *old(master)
                        &&& r matches Ok(Outcome::Change(e))
                        &&& e.lines@ == b.cursor.lines@ && e.next == 0 && e.span is None
                    },
                    Command::Print => {
                        &&& *final(master) == *old(master)
                        &&& r matches Ok(Outcome::Print(rows))
                        &&& rows_of(rows@, b)
                    },
                    Command::PrintPlain => {
                        &&& *final(master) == *old(master)
                        &&& r matches Ok(Outcome::PrintPlain(v))
                        &&& text_view(v@) == picked(b.lines_view(), b.cursor@, n)
                    },
                    Command::Clear => {
                        &&& *final(master) == *old(master)
                        &&& r matches Ok(Outcome::Clear)
                    },
                    Command::BufList => {
                        &&& *final(master) == *old(master)
                        &&& r matches Ok(Outcome::BufList)
                    },
                }
            }),
    {
        match self {
            Action::Delete(reg) => {
                let removed = master.curr_buf_mut().delete_selection();
                master.set_register(Register::named(reg), removed);
                Ok(Outcome::Done)
            },
            Action::Yank(reg) => {
                let lines = master.curr_buf().selected_lines();
                master.set_register(Register::named(reg), lines);
                Ok(Outcome::Done)
            },
            Action::Paste(reg) => {
                let name = Register::named(reg);
                match master.find_register(&name) {
                    None => Err(ActionErr::NoSuchRegisters),
                    Some(i) => {
                        let src = copy_lines(&master.registers[i].1);
                        if master.curr_buf().cursor.lines.len() == 0 && src.len() > 0 {
                            return Err(ActionErr::NoRange);
                        }
                        let dests = master.curr_buf().cursor.duplicate().lines;
                        match master.curr_buf_mut().place_lines(&src, &dests, 0) {
                            Ok(()) => Ok(Outcome::Done),
                            Err(e) => Err(e),
                        }
                    },
                }
            },
            Action::CopyTo(to) => {
                if !selection_in_range(master.curr_buf()) {
                    return Err(ActionErr::OutOfBounds);
                }
                let src = master.curr_buf().selected_lines();
                if to.lines.len() == 0 && src.len() > 0 {
                    return Err(ActionErr::NoRange);
                }
                match master.curr_buf_mut().place_lines(&src, &to.lines, 1) {
                    Ok(()) => Ok(Outcome::Done),
                    Err(e) => Err(e),
                }
            },
            Action::InsertText(text) => {
                let buf = master.curr_buf_mut();
                buf.decorate_selection(text.as_str(), false);
                if buf.cursor.lines.len() > 0 && text.as_str().unicode_len() > 0 {
                    buf.saved = false;
                }
                Ok(Outcome::Done)
            },
            Action::AppendText(text) => {
                let buf = master.curr_buf_mut();
                buf.decorate_selection(text.as_str(), true);
                if buf.cursor.lines.len() > 0 && text.as_str().unicode_len() > 0 {
                    buf.saved = false;
                }
                Ok(Outcome::Done)
            },
            Action::SetMark(m) => {
                let buf = master.curr_buf_mut();
                let range = buf.cursor.duplicate();
                let mark = Mark::named(m);
                buf.set_mark(mark, range);
                Ok(Outcome::Done)
            },
            Action::Registers(Some(name)) => {
                let reg = Register::named(name.clone());
                match master.find_register(&reg) {
                    None => Err(ActionErr::NoSuchRegisters),
                    Some(i) => {
                        let lines = copy_lines(&master.registers[i].1);
                        Ok(Outcome::Registers(vec![(name, lines)]))
                    },
                }
            },
            Action::Registers(None) => {
                let mut all: Vec<(String, Vec<String>)> = Vec::new();
                let mut i: usize = 0;
                while i < master.registers.len()
                    invariant
                        i <= master.registers@.len(),
                        *master == *old(master),
                        master.wf(),
                        all@.len() == i,
                        forall|k: int| 0 <= k < i ==> (#[trigger] all@[k]).0@ == master.registers@[k].0.name_view()
                            && all@[k].1@ == master.registers@[k].1@,
                    decreases master.registers@.len() - i,
                {
                    let name = master.registers[i].0.name().clone();
                    let lines = copy_lines(&master.registers[i].1);
                    all.push((name, lines));
                    i = i + 1;
                }
                Ok(Outcome::Registers(all))
            },
            Action::Clear => Ok(Outcome::Clear),
            Action::Substitute(pat, rep) => {
                let re = match Pattern::compile(pat.as_str()) {
                    Some(re) => re,
                    None => {
                        return Err(ActionErr::Regex);
                    },
                };
                if !selection_in_range(master.curr_buf()) {
                    return Err(ActionErr::OutOfBounds);
                }
                match master.curr_buf_mut().substitute_with(&re, rep.as_str()) {
                    Ok((count, hit)) => Ok(Outcome::Substituted(count, hit)),
                    Err(e) => Err(e),
                }
            },
            Action::Print => Ok(Outcome::Print(print_rows(master.curr_buf()))),
            Action::Print_ => Ok(Outcome::PrintPlain(master.curr_buf().selected_lines())),
            Action::BufList => Ok(Outcome::BufList),
            Action::BufChange(i) => match master.change_buffer(i) {
                Ok(()) => Ok(Outcome::Done),
                Err(e) => Err(e),
            },
            Action::BufNew(name) => {
                master.push_buffer();
                match name {
                    None => Ok(Outcome::NewBuffer),
                    Some(f) => Ok(Outcome::Load(trim(f.as_str()))),
                }
            },
            Action::BufDel(force) => {
                if !master.curr_buf().saved && !force {
                    return Err(ActionErr::Other);
                }
                if master.buffers.len() == 1 {
                    return Ok(Outcome::Quit);
                }
                let name = master.curr_buf().filename.clone();
                master.close_buffer();
                Ok(Outcome::Closed(name))
            },
            Action::Write(path) => {
                let target = if is_blank(path.as_str()) {
                    match &master.curr_buf().filename {
                        Some(f) => f.clone(),
                        None => {
                            return Err(ActionErr::OutOfBounds);
                        },
                    }
                } else {
                    path
                };
                Ok(Outcome::Write(target, master.curr_buf().contents()))
            },
            Action::Edit(force, path) => {
                if !master.curr_buf().saved && !force {
                    return Err(ActionErr::Other);
                }
                Ok(Outcome::Load(trim(path.as_str())))
            },
            Action::Insert => Ok(Outcome::Lines(LineEntry::new(&master.curr_buf().cursor, true))),
            Action::Append => Ok(Outcome::Lines(LineEntry::new(&master.curr_buf().cursor, false))),
            Action::Change => Ok(Outcome::Change(ChangeEntry::new(&master.curr_buf().cursor))),
        }
    }
}

/// What can go wrong when a command is applied.
#[derive(Debug, Clone, PartialEq, Eq)]
pub enum ActionErr {
    /// An index or a buffer number past the end.
    OutOfBounds,
    /// Nowhere to put the lines.
    NoRange,
    /// Reading or writing a file failed; the text says how.
    IO(String),
    /// No register of that name.
    NoSuchRegisters,
    /// The pattern is not a valid regular expression.
    Regex,
    /// A guard refused the command (unsaved changes).
    Other,
}

} // verus!
