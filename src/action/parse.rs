use vstd::prelude::*;

use crate::action::{Action, Command};
use crate::address::{parse_range_at, parse_usize_at, range_at, stop_at, unsigned_at};
use crate::red_buffer::RedBuffer;
use crate::text::{chars_of, string_of};

verus! {

pub open spec fn at1(s: Seq<char>, a: char) -> bool {
    s.len() >= 1 && s[0] == a
}

pub open spec fn at2(s: Seq<char>, a: char, b: char) -> bool {
    s.len() >= 2 && s[0] == a && s[1] == b
}

pub open spec fn at3(s: Seq<char>, a: char, b: char, c: char) -> bool {
    s.len() >= 3 && s[0] == a && s[1] == b && s[2] == c
}

/// Space, tab, carriage return or line feed.
pub open spec fn blank(c: char) -> bool {
    c == ' ' || c == '\t' || c == '\r' || c == '\n'
}

/// The first index from `p` on that is not blank, or the end.
pub open spec fn skip_blank(s: Seq<char>, p: int) -> int
    decreases s.len() - p,
{
    if 0 <= p < s.len() && blank(s[p]) {
        skip_blank(s, p + 1)
    } else {
        p
    }
}

/// The first result that is there.
pub open spec fn or_else(a: Option<(Command, int)>, b: Option<(Command, int)>) -> Option<(Command, int)> {
    if a is Some {
        a
    } else {
        b
    }
}

/// `pa` and a register name up to the next space (empty for the default).
pub open spec fn paste_spec(s: Seq<char>) -> Option<(Command, int)> {
    if at2(s, 'p', 'a') {
        let e = stop_at(s, 2, ' ');
        Some((Command::Paste(s.subrange(2, e)), e))
    } else {
        None
    }
}

/// `y` and a register name up to the next space.
pub open spec fn yank_spec(s: Seq<char>) -> Option<(Command, int)> {
    if at1(s, 'y') {
        let e = stop_at(s, 1, ' ');
        Some((Command::Yank(s.subrange(1, e)), e))
    } else {
        None
    }
}

/// `d` and a register name up to the next space.
pub open spec fn delete_spec(s: Seq<char>) -> Option<(Command, int)> {
    if at1(s, 'd') {
        let e = stop_at(s, 1, ' ');
        Some((Command::Delete(s.subrange(1, e)), e))
    } else {
        None
    }
}

/// The commands that are a bare word: `i`, `cl`, `c`, `a`, `p`, `P`, `bl`.
pub open spec fn word_spec(s: Seq<char>) -> Option<(Command, int)> {
    if at1(s, 'i') {
        Some((Command::Insert, 1))
    } else if at2(s, 'c', 'l') {
        Some((Command::Clear, 2))
    } else if at1(s, 'c') {
        Some((Command::Change, 1))
    } else if at1(s, 'a') {
        Some((Command::Append, 1))
    } else if at1(s, 'p') {
        Some((Command::Print, 1))
    } else if at1(s, 'P') {
        Some((Command::PrintPlain, 1))
    } else if at2(s, 'b', 'l') {
        Some((Command::BufList, 2))
    } else {
        None
    }
}

/// `I` and the rest of the line, which is not empty.
pub open spec fn insert_spec(s: Seq<char>) -> Option<(Command, int)> {
    if at1(s, 'I') && s.len() > 1 {
        Some((Command::InsertText(s.subrange(1, s.len() as int)), s.len() as int))
    } else {
        None
    }
}

/// `A` and the rest of the line, which is not empty.
pub open spec fn append_spec(s: Seq<char>) -> Option<(Command, int)> {
    if at1(s, 'A') && s.len() > 1 {
        Some((Command::AppendText(s.subrange(1, s.len() as int)), s.len() as int))
    } else {
        None
    }
}

/// `r` and a register name up to the next space, or `r` alone.
pub open spec fn regs_spec(s: Seq<char>) -> Option<(Command, int)> {
    if at1(s, 'r') {
        let e = stop_at(s, 1, ' ');
        if e > 1 {
            Some((Command::Registers(Some(s.subrange(1, e))), e))
        } else {
            Some((Command::Registers(None), 1))
        }
    } else {
        None
    }
}

/// `m` and a mark name up to the next space.
pub open spec fn set_mark_spec(s: Seq<char>) -> Option<(Command, int)> {
    if at1(s, 'm') {
        let e = stop_at(s, 1, ' ');
        Some((Command::SetMark(s.subrange(1, e)), e))
    } else {
        None
    }
}


/// `bc` and a buffer number.
pub open spec fn buf_change_spec(s: Seq<char>) -> Option<(Command, int)> {
    if at2(s, 'b', 'c') && unsigned_at(s, 2) is Some {
        let (v, e) = unsigned_at(s, 2).unwrap();
        Some((Command::BufChange(v as usize), e))
    } else {
        None
    }
}

/// `bn` and a file name, or `bn` alone.
pub open spec fn buf_new_spec(s: Seq<char>) -> Option<(Command, int)> {
    if at2(s, 'b', 'n') {
        if s.len() > 2 {
            Some((Command::BufNew(Some(s.subrange(2, s.len() as int))), s.len() as int))
        } else {
            Some((Command::BufNew(None), 2))
        }
    } else {
        None
    }
}

/// `bd`, `bq` or `q`, each with an optional `!` that forces the close.
pub open spec fn buf_del_spec(s: Seq<char>) -> Option<(Command, int)> {
    if at3(s, 'b', 'd', '!') || at3(s, 'b', 'q', '!') {
        Some((Command::BufDel(true), 3))
    } else if at2(s, 'b', 'd') || at2(s, 'b', 'q') {
        Some((Command::BufDel(false), 2))
    } else if at2(s, 'q', '!') {
        Some((Command::BufDel(true), 2))
    } else if at1(s, 'q') {
        Some((Command::BufDel(false), 1))
    } else {
        None
    }
}

/// `t` and a destination range.
pub open spec fn copy_to_spec(lines: Seq<Seq<char>>, cursor: Set<usize>, s: Seq<char>) -> Option<(Command, int)> {
    if at1(s, 't') {
        let (r, e) = range_at(lines, cursor, s, skip_blank(s, 1));
        Some((Command::CopyTo(r), e))
    } else {
        None
    }
}

/// `s/pat/rep/`: a pattern that is not empty, a replacement, and an
/// optional closing `/`.
pub open spec fn substitute_spec(s: Seq<char>) -> Option<(Command, int)> {
    if at2(s, 's', '/') {
        let e1 = stop_at(s, 2, '/');
        if 2 < e1 < s.len() {
            let e2 = stop_at(s, e1 + 1, '/');
            Some((Command::Substitute(s.subrange(2, e1), s.subrange(e1 + 1, e2)), if e2 < s.len() { e2 + 1 } else { e2 }))
        } else {
            None
        }
    } else {
        None
    }
}

/// `w` and a path, which may be empty.
pub open spec fn write_spec(s: Seq<char>) -> Option<(Command, int)> {
    if at1(s, 'w') {
        Some((Command::Write(s.subrange(skip_blank(s, 1), s.len() as int)), s.len() as int))
    } else {
        None
    }
}

/// `e!` or `e`, and a path that is not empty.
pub open spec fn read_spec(s: Seq<char>) -> Option<(Command, int)> {
    if at2(s, 'e', '!') && skip_blank(s, 2) < s.len() {
        Some((Command::Edit(true, s.subrange(skip_blank(s, 2), s.len() as int)), s.len() as int))
    } else if at1(s, 'e') && skip_blank(s, 1) < s.len() {
        Some((Command::Edit(false, s.subrange(skip_blank(s, 1), s.len() as int)), s.len() as int))
    } else {
        None
    }
}

/// The command at the start of `s` and where it ends, trying each form in turn.
pub open spec fn command_of(lines: Seq<Seq<char>>, cursor: Set<usize>, s: Seq<char>) -> Option<(Command, int)> {
    or_else(paste_spec(s), or_else(yank_spec(s), or_else(delete_spec(s), or_else(word_spec(s),
    or_else(insert_spec(s), or_else(append_spec(s), or_else(regs_spec(s), or_else(set_mark_spec(s),
    or_else(buf_change_spec(s), or_else(buf_new_spec(s), or_else(buf_del_spec(s),
    or_else(copy_to_spec(lines, cursor, s), or_else(substitute_spec(s), or_else(write_spec(s),
    read_spec(s)))))))))))))))
}

/// What an exec result stands for.
pub open spec fn outcome(r: Option<(Action, usize)>) -> Option<(Command, int)> {
    match r {
        Some((a, e)) => Some((a@, e as int)),
        None => None,
    }
}

/// An exec result with the rest of the input as text, against what `s` should give.
pub open spec fn answers(r: Option<(Action, &str)>, s: Seq<char>, want: Option<(Command, int)>) -> bool {
    match (r, want) {
        (Some((a, rest)), Some((c, e))) => a@ == c && a.wf() && 0 <= e <= s.len() && rest@ == s.subrange(e, s.len() as int),
        (None, None) => true,
        _ => false,
    }
}

fn text_between(s: &Vec<char>, a: usize, b: usize) -> (r: String)
    requires
        a <= b <= s@.len(),
    ensures
        r@ == s@.subrange(a as int, b as int),
{
    let mut cs: Vec<char> = Vec::new();
    let mut k: usize = a;
    while k < b
        invariant
            a <= k <= b,
            b <= s@.len(),
            cs@ == s@.subrange(a as int, k as int),
        decreases b - k,
    {
        cs.push(s[k]);
        k = k + 1;
        assert(cs@ =~= s@.subrange(a as int, k as int));
    }
    string_of(&cs)
}

fn stop_index(s: &Vec<char>, q: usize, c: char) -> (e: usize)
    requires
        q <= s@.len(),
    ensures
        e == stop_at(s@, q as int, c),
        q <= e <= s@.len(),
{
    let mut e: usize = q;
    while e < s.len() && s[e] != c
        invariant
            q <= e <= s@.len(),
            stop_at(s@, q as int, c) == stop_at(s@, e as int, c),
        decreases s@.len() - e,
    {
        e = e + 1;
    }
    e
}

fn skip_blank_index(s: &Vec<char>, q: usize) -> (e: usize)
    requires
        q <= s@.len(),
    ensures
        e == skip_blank(s@, q as int),
        q <= e <= s@.len(),
{
    let mut e: usize = q;
    while e < s.len() && (s[e] == ' ' || s[e] == '\t' || s[e] == '\r' || s[e] == '\n')
        invariant
            q <= e <= s@.len(),
            skip_blank(s@, q as int) == skip_blank(s@, e as int),
        decreases s@.len() - e,
    {
        e = e + 1;
    }
    e
}

fn lead(s: &Vec<char>, a: char) -> (r: bool)
    ensures
        r == at1(s@, a),
{
    s.len() >= 1 && s[0] == a
}

fn lead2(s: &Vec<char>, a: char, b: char) -> (r: bool)
    ensures
        r == at2(s@, a, b),
{
    s.len() >= 2 && s[0] == a && s[1] == b
}

fn lead3(s: &Vec<char>, a: char, b: char, c: char) -> (r: bool)
    ensures
        r == at3(s@, a, b, c),
{
    s.len() >= 3 && s[0] == a && s[1] == b && s[2] == c
}

fn paste_at(s: &Vec<char>) -> (r: Option<(Action, usize)>)
    ensures
        outcome(r) == paste_spec(s@),
        r matches Some((a, e)) ==> a.wf() && e <= s@.len(),
{
    if lead2(s, 'p', 'a') {
        let e = stop_index(s, 2, ' ');
        Some((Action::Paste(text_between(s, 2, e)), e))
    } else {
        None
    }
}

fn yank_at(s: &Vec<char>) -> (r: Option<(Action, usize)>)
    ensures
        outcome(r) == yank_spec(s@),
        r matches Some((a, e)) ==> a.wf() && e <= s@.len(),
{
    if lead(s, 'y') {
        let e = stop_index(s, 1, ' ');
        Some((Action::Yank(text_between(s, 1, e)), e))
    } else {
        None
    }
}

fn delete_at(s: &Vec<char>) -> (r: Option<(Action, usize)>)
    ensures
        outcome(r) == delete_spec(s@),
        r matches Some((a, e)) ==> a.wf() && e <= s@.len(),
{
    if lead(s, 'd') {
        let e = stop_index(s, 1, ' ');
        Some((Action::Delete(text_between(s, 1, e)), e))
    } else {
        None
    }
}

fn word_at(s: &Vec<char>) -> (r: Option<(Action, usize)>)
    ensures
        outcome(r) == word_spec(s@),
        r matches Some((a, e)) ==> a.wf() && e <= s@.len(),
{
    if lead(s, 'i') {
        Some((Action::Insert, 1))
    } else if lead2(s, 'c', 'l') {
        Some((Action::Clear, 2))
    } else if lead(s, 'c') {
        Some((Action::Change, 1))
    } else if lead(s, 'a') {
        Some((Action::Append, 1))
    } else if lead(s, 'p') {
        Some((Action::Print, 1))
    } else if lead(s, 'P') {
        Some((Action::Print_, 1))
    } else if lead2(s, 'b', 'l') {
        Some((Action::BufList, 2))
    } else {
        None
    }
}

fn insert_at(s: &Vec<char>) -> (r: Option<(Action, usize)>)
    ensures
        outcome(r) == insert_spec(s@),
        r matches Some((a, e)) ==> a.wf() && e <= s@.len(),
{
    if lead(s, 'I') && s.len() > 1 {
        Some((Action::InsertText(text_between(s, 1, s.len())), s.len()))
    } else {
        None
    }
}

fn append_at(s: &Vec<char>) -> (r: Option<(Action, usize)>)
    ensures
        outcome(r) == append_spec(s@),
        r matches Some((a, e)) ==> a.wf() && e <= s@.len(),
{
    if lead(s, 'A') && s.len() > 1 {
        Some((Action::AppendText(text_between(s, 1, s.len())), s.len()))
    } else {
        None
    }
}

fn regs_at(s: &Vec<char>) -> (r: Option<(Action, usize)>)
    ensures
        outcome(r) == regs_spec(s@),
        r matches Some((a, e)) ==> a.wf() && e <= s@.len(),
{
    if lead(s, 'r') {
        let e = stop_index(s, 1, ' ');
        if e > 1 {
            Some((Action::Registers(Some(text_between(s, 1, e))), e))
        } else {
            Some((Action::Registers(None), 1))
        }
    } else {
        None
    }
}

fn set_mark_at(s: &Vec<char>) -> (r: Option<(Action, usize)>)
    ensures
        outcome(r) == set_mark_spec(s@),
        r matches Some((a, e)) ==> a.wf() && e <= s@.len(),
{
    if lead(s, 'm') {
        let e = stop_index(s, 1, ' ');
        Some((Action::SetMark(text_between(s, 1, e)), e))
    } else {
        None
    }
}

fn buf_change_at(s: &Vec<char>) -> (r: Option<(Action, usize)>)
    ensures
        outcome(r) == buf_change_spec(s@),
        r matches Some((a, e)) ==> a.wf() && e <= s@.len(),
{
    if lead2(s, 'b', 'c') {
        match parse_usize_at(s, 2) {
            Some((v, e)) => Some((Action::BufChange(v), e)),
            None => None,
        }
    } else {
        None
    }
}

fn buf_new_at(s: &Vec<char>) -> (r: Option<(Action, usize)>)
    ensures
        outcome(r) == buf_new_spec(s@),
        r matches Some((a, e)) ==> a.wf() && e <= s@.len(),
{
    if lead2(s, 'b', 'n') {
        if s.len() > 2 {
            Some((Action::BufNew(Some(text_between(s, 2, s.len()))), s.len()))
        } else {
            Some((Action::BufNew(None), 2))
        }
    } else {
        None
    }
}

fn buf_del_at(s: &Vec<char>) -> (r: Option<(Action, usize)>)
    ensures
        outcome(r) == buf_del_spec(s@),
        r matches Some((a, e)) ==> a.wf() && e <= s@.len(),
{
    if lead3(s, 'b', 'd', '!') || lead3(s, 'b', 'q', '!') {
        Some((Action::BufDel(true), 3))
    } else if lead2(s, 'b', 'd') || lead2(s, 'b', 'q') {
        Some((Action::BufDel(false), 2))
    } else if lead2(s, 'q', '!') {
        Some((Action::BufDel(true), 2))
    } else if lead(s, 'q') {
        Some((Action::BufDel(false), 1))
    } else {
        None
    }
}

fn copy_to_at(s: &Vec<char>, ctx: &RedBuffer) -> (r: Option<(Action, usize)>)
    requires
        ctx.wf(),
    ensures
        outcome(r) == copy_to_spec(ctx.lines_view(), ctx.cursor@, s@),
        r matches Some((a, e)) ==> a.wf() && e <= s@.len(),
{
    if lead(s, 't') {
        let p = skip_blank_index(s, 1);
        let (r, e) = parse_range_at(ctx, s, p);
        Some((Action::CopyTo(r), e))
    } else {
        None
    }
}

fn substitute_at(s: &Vec<char>) -> (r: Option<(Action, usize)>)
    ensures
        outcome(r) == substitute_spec(s@),
        r matches Some((a, e)) ==> a.wf() && e <= s@.len(),
{
    if lead2(s, 's', '/') {
        let e1 = stop_index(s, 2, '/');
        if 2 < e1 && e1 < s.len() {
            let e2 = stop_index(s, e1 + 1, '/');
            let pat = text_between(s, 2, e1);
            let rep = text_between(s, e1 + 1, e2);
            Some((Action::Substitute(pat, rep), if e2 < s.len() { e2 + 1 } else { e2 }))
        } else {
            None
        }
    } else {
        None
    }
}

fn write_at(s: &Vec<char>) -> (r: Option<(Action, usize)>)
    ensures
        outcome(r) == write_spec(s@),
        r matches Some((a, e)) ==> a.wf() && e <= s@.len(),
{
    if lead(s, 'w') {
        let p = skip_blank_index(s, 1);
        Some((Action::Write(text_between(s, p, s.len())), s.len()))
    } else {
        None
    }
}

fn read_at(s: &Vec<char>) -> (r: Option<(Action, usize)>)
    ensures
        outcome(r) == read_spec(s@),
        r matches Some((a, e)) ==> a.wf() && e <= s@.len(),
{
    if lead2(s, 'e', '!') {
        let p = skip_blank_index(s, 2);
        if p < s.len() {
            return Some((Action::Edit(true, text_between(s, p, s.len())), s.len()));
        }
    }
    if lead(s, 'e') {
        let p = skip_blank_index(s, 1);
        if p < s.len() {
            return Some((Action::Edit(false, text_between(s, p, s.len())), s.len()));
        }
    }
    None
}

fn finish<'a>(inp: &'a str, s: &Vec<char>, r: Option<(Action, usize)>) -> (res: Option<(Action, &'a str)>)
    requires
        s@ == inp@,
        r matches Some((a, e)) ==> a.wf() && e <= s@.len(),
    ensures
        answers(res, inp@, outcome(r)),
{
    match r {
        Some((a, e)) => Some((a, inp.substring_char(e, s.len()))),
        None => None,
    }
}

/// The command at the start of `inp`, and the text after it.
pub fn parse_action<'a>(inp: &'a str, ctx: &RedBuffer) -> (r: Option<(Action, &'a str)>)
    requires
        ctx.wf(),
    ensures
        answers(r, inp@, command_of(ctx.lines_view(), ctx.cursor@, inp@)),
{
    let s = chars_of(inp);
    let mut r = paste_at(&s);
    if r.is_none() {
        r = yank_at(&s);
    }
    if r.is_none() {
        r = delete_at(&s);
    }
    if r.is_none() {
        r = word_at(&s);
    }
    if r.is_none() {
        r = insert_at(&s);
    }
    if r.is_none() {
        r = append_at(&s);
    }
    if r.is_none() {
        r = regs_at(&s);
    }
    if r.is_none() {
        r = set_mark_at(&s);
    }
    if r.is_none() {
        r = buf_change_at(&s);
    }
    if r.is_none() {
        r = buf_new_at(&s);
    }
    if r.is_none() {
        r = buf_del_at(&s);
    }
    if r.is_none() {
        r = copy_to_at(&s, ctx);
    }
    if r.is_none() {
        r = substitute_at(&s);
    }
    if r.is_none() {
        r = write_at(&s);
    }
    if r.is_none() {
        r = read_at(&s);
    }
    finish(inp, &s, r)
}

/// `I` and text to put at the start of each selected line.
pub fn insert<'a>(inp: &'a str, _ctx: &RedBuffer) -> (r: Option<(Action, &'a str)>)
    ensures
        answers(r, inp@, insert_spec(inp@)),
{
    let s = chars_of(inp);
    let r = insert_at(&s);
    finish(inp, &s, r)
}

/// `A` and text to put at the end of each selected line.
pub fn append<'a>(inp: &'a str, _ctx: &RedBuffer) -> (r: Option<(Action, &'a str)>)
    ensures
        answers(r, inp@, append_spec(inp@)),
{
    let s = chars_of(inp);
    let r = append_at(&s);
    finish(inp, &s, r)
}

/// `d` and a register.
pub fn delete<'a>(inp: &'a str, _ctx: &RedBuffer) -> (r: Option<(Action, &'a str)>)
    ensures
        answers(r, inp@, delete_spec(inp@)),
{
    let s = chars_of(inp);
    let r = delete_at(&s);
    finish(inp, &s, r)
}

/// `y` and a register.
pub fn yank<'a>(inp: &'a str, _ctx: &RedBuffer) -> (r: Option<(Action, &'a str)>)
    ensures
        answers(r, inp@, yank_spec(inp@)),
{
    let s = chars_of(inp);
    let r = yank_at(&s);
    finish(inp, &s, r)
}

/// `pa` and a register.
pub fn paste<'a>(inp: &'a str, _ctx: &RedBuffer) -> (r: Option<(Action, &'a str)>)
    ensures
        answers(r, inp@, paste_spec(inp@)),
{
    let s = chars_of(inp);
    let r = paste_at(&s);
    finish(inp, &s, r)
}

/// `m` and a mark.
pub fn set_mark<'a>(inp: &'a str, _ctx: &RedBuffer) -> (r: Option<(Action, &'a str)>)
    ensures
        answers(r, inp@, set_mark_spec(inp@)),
{
    let s = chars_of(inp);
    let r = set_mark_at(&s);
    finish(inp, &s, r)
}

/// `r` and a register, or `r` alone.
pub fn regs<'a>(inp: &'a str, _ctx: &RedBuffer) -> (r: Option<(Action, &'a str)>)
    ensures
        answers(r, inp@, regs_spec(inp@)),
{
    let s = chars_of(inp);
    let r = regs_at(&s);
    finish(inp, &s, r)
}

/// `bd`, `bq` or `q`, with an optional `!`.
pub fn buf_del<'a>(inp: &'a str, _ctx: &RedBuffer) -> (r: Option<(Action, &'a str)>)
    ensures
        answers(r, inp@, buf_del_spec(inp@)),
{
    let s = chars_of(inp);
    let r = buf_del_at(&s);
    finish(inp, &s, r)
}

/// `bc` and a buffer number.
pub fn buf_change<'a>(inp: &'a str, _ctx: &RedBuffer) -> (r: Option<(Action, &'a str)>)
    ensures
        answers(r, inp@, buf_change_spec(inp@)),
{
    let s = chars_of(inp);
    let r = buf_change_at(&s);
    finish(inp, &s, r)
}

/// `bn` and an optional file name.
pub fn buf_new<'a>(inp: &'a str, _ctx: &RedBuffer) -> (r: Option<(Action, &'a str)>)
    ensures
        answers(r, inp@, buf_new_spec(inp@)),
{
    let s = chars_of(inp);
    let r = buf_new_at(&s);
    finish(inp, &s, r)
}

/// `s/pat/rep/`.
pub fn substitute<'a>(inp: &'a str, _ctx: &RedBuffer) -> (r: Option<(Action, &'a str)>)
    ensures
        answers(r, inp@, substitute_spec(inp@)),
{
    let s = chars_of(inp);
    let r = substitute_at(&s);
    finish(inp, &s, r)
}

/// `w` and an optional path.
pub fn write<'a>(inp: &'a str, _ctx: &RedBuffer) -> (r: Option<(Action, &'a str)>)
    ensures
        answers(r, inp@, write_spec(inp@)),
{
    let s = chars_of(inp);
    let r = write_at(&s);
    finish(inp, &s, r)
}

/// `e` or `e!` and a path.
pub fn read<'a>(inp: &'a str, _ctx: &RedBuffer) -> (r: Option<(Action, &'a str)>)
    ensures
        answers(r, inp@, read_spec(inp@)),
{
    let s = chars_of(inp);
    let r = read_at(&s);
    finish(inp, &s, r)
}

/// `t` and a destination range.
pub fn copy_to<'a>(inp: &'a str, ctx: &RedBuffer) -> (r: Option<(Action, &'a str)>)
    requires
        ctx.wf(),
    ensures
        answers(r, inp@, copy_to_spec(ctx.lines_view(), ctx.cursor@, inp@)),
{
    let s = chars_of(inp);
    let r = copy_to_at(&s, ctx);
    finish(inp, &s, r)
}

} // verus!
