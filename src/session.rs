use vstd::prelude::*;

use crate::action::parse::{command_of, parse_action};
use crate::action::Action;
use crate::address::{parse_range, range_at};
use crate::config::Config;
use crate::red_master::RedMaster;
use crate::text::{trim, trimmed};

verus! {

/// The line to run: a line of just `!` (white space aside) repeats the line
/// before it.
pub fn replayed(line: &str, last: &str) -> (r: String)
    ensures
        trimmed(line@) == seq!['!'] ==> r@ == last@,
        trimmed(line@) != seq!['!'] ==> r@ == line@,
{
    let t = trim(line);
    let cs = t.as_str();
    if cs.unicode_len() == 1 && cs.get_char(0) == '!' {
        assert(t@ =~= seq!['!']);
        String::from_str(last)
    } else {
        assert(t@ != seq!['!']);
        String::from_str(line)
    }
}

/// Selects the range that `line` starts with (the cursor when it starts
/// with none) in the active buffer, and returns the rest of the line.
pub fn start_line(master: &mut RedMaster, line: &str) -> (r: String)
    requires
        old(master).wf(),
    ensures
        final(master).wf(),
        final(master).cur() == old(master).cur(),
        final(master).registers == old(master).registers,
        final(master).cur_buf().lines == old(master).cur_buf().lines,
        final(master).cur_buf().cursor@ == range_at(old(master).cur_buf().lines_view(), old(master).cur_buf().cursor@, line@, 0).0,
        r@ == line@.subrange(range_at(old(master).cur_buf().lines_view(), old(master).cur_buf().cursor@, line@, 0).1, line@.len() as int),
{
    let (range, rest) = parse_range(line, master.curr_buf());
    let r = String::from_str(rest);
    let buf = master.curr_buf_mut();
    buf.cursor = range;
    r
}

/// What comes next on a line.
#[derive(Debug)]
pub enum Step {
    /// Nothing but white space is left.
    Finished,
    /// A command, and the text after it.
    Command(Action, String),
    /// What is left is no command.
    Invalid,
}

/// The command that the rest of a line starts with, white space aside.
pub fn next_command(master: &RedMaster, rest: &str) -> (r: Step)
    requires
        master.wf(),
    ensures
        ({
            let t = trimmed(rest@);
            let b = master.cur_buf();
            &&& t.len() == 0 ==> r is Finished
            &&& t.len() > 0 && command_of(b.lines_view(), b.cursor@, t) is None ==> r is Invalid
            &&& t.len() > 0 ==> (command_of(b.lines_view(), b.cursor@, t) matches Some((c, e)) ==> (r matches Step::Command(a, after)
                && a@ == c && a.wf() && after@ == t.subrange(e, t.len() as int)))
        }),
{
    let t = trim(rest);
    if t.as_str().unicode_len() == 0 {
        return Step::Finished;
    }
    match parse_action(t.as_str(), master.curr_buf()) {
        Some((a, after)) => Step::Command(a, String::from_str(after)),
        None => Step::Invalid,
    }
}

/// What to do when the input has run out.
#[derive(Debug, Clone, Copy, PartialEq, Eq)]
pub enum InputEnd {
    /// Stop.
    Quit,
    /// Warn that the active buffer is not saved, and read on once more.
    Warn,
}

/// The input has run out: stop when output is silent, when the active
/// buffer is saved, or when this already happened just before; otherwise
/// warn once.
pub fn input_ended(config: &Config, saved: bool, quitting: bool) -> (r: InputEnd)
    ensures
        r == (if config.silent || saved || quitting { InputEnd::Quit } else { InputEnd::Warn }),
{
    if config.silent || saved || quitting {
        InputEnd::Quit
    } else {
        InputEnd::Warn
    }
}

} // verus!
