use vstd::prelude::*;

use crate::text::{chars_of, string_of};

verus! {

/// Command lines given ahead of time, read before (and instead of) the
/// interactive input once there are any.
#[derive(Debug, Clone)]
pub struct Backlog {
    pub queue: Option<Vec<String>>,
}

/// Where the next input line comes from.
#[derive(Debug, Clone)]
pub enum NextLine {
    /// The next line given ahead of time.
    Line(String),
    /// Lines were given ahead of time and all have been read: end of input.
    Exhausted,
    /// No line was given ahead of time: read interactively.
    Interactive,
}

impl Backlog {
    /// A backlog with no line given.
    pub fn new() -> (r: Backlog)
        ensures
            r.queue is None,
    {
        Backlog { queue: None }
    }

    /// Takes the next line given ahead of time, if lines were given.
    pub fn next_line(&mut self) -> (r: NextLine)
        ensures
            match old(self).queue {
                None => r is Interactive && final(self).queue is None,
                Some(q) => if q@.len() == 0 {
                    r is Exhausted && final(self).queue == old(self).queue
                } else {
                    &&& r matches NextLine::Line(l)
                    &&& l == q@[0]
                    &&& final(self).queue matches Some(q2)
                    &&& q2@ == q@.drop_first()
                },
            },
    {
        match &mut self.queue {
            None => NextLine::Interactive,
            Some(q) => {
                if q.len() == 0 {
                    NextLine::Exhausted
                } else {
                    let l = q.remove(0);
                    assert(q@ =~= old(self).queue.unwrap()@.drop_first());
                    NextLine::Line(l)
                }
            },
        }
    }
}

/// Adds `cmd` after the lines given ahead of time so far.
pub fn add_command(backlog: &mut Backlog, cmd: String)
    ensures
        final(backlog).queue matches Some(q) && q@ == (match old(backlog).queue {
            Some(p) => p@,
            None => Seq::<String>::empty(),
        }).push(cmd),
{
    match &mut backlog.queue {
        Some(q) => {
            q.push(cmd);
        },
        None => {
            let mut q: Vec<String> = Vec::new();
            q.push(cmd);
            backlog.queue = Some(q);
        },
    }
}

/// The commands of `s` from index `i` on, where `cur` has been gathered of
/// the one under way: `;` ends a command, and `\` makes the character after
/// it stand for itself.
pub open spec fn commands_from(s: Seq<char>, i: int, cur: Seq<char>) -> Seq<Seq<char>>
    decreases s.len() - i,
{
    if i < 0 || i >= s.len() {
        seq![cur]
    } else if s[i] == '\\' && i + 1 < s.len() {
        commands_from(s, i + 2, cur.push(s[i + 1]))
    } else if s[i] == ';' {
        seq![cur] + commands_from(s, i + 1, Seq::empty())
    } else {
        commands_from(s, i + 1, cur.push(s[i]))
    }
}

/// The `;`-separated commands of `s`, with `\` escaping the next character.
pub fn split_commands(s: &str) -> (r: Vec<String>)
    ensures
        r@.map_values(|c: String| c@) == commands_from(s@, 0, Seq::empty()),
{
    let cs = chars_of(s);
    let ghost want = commands_from(s@, 0, Seq::empty());
    let mut out: Vec<String> = Vec::new();
    let mut cur: Vec<char> = Vec::new();
    let mut i: usize = 0;
    while i < cs.len()
        invariant
            i <= cs@.len(),
            cs@ == s@,
            want == commands_from(s@, 0, Seq::empty()),
            out@.map_values(|c: String| c@) + commands_from(s@, i as int, cur@) == want,
        decreases cs@.len() - i,
    {
        let c = cs[i];
        let ghost done = out@.map_values(|c: String| c@);
        if c == '\\' && i + 1 < cs.len() {
            cur.push(cs[i + 1]);
            i = i + 2;
        } else if c == ';' {
            let ghost piece = cur@;
            out.push(string_of(&cur));
            cur = Vec::new();
            proof {
                assert(out@.map_values(|c: String| c@) =~= done.push(piece));
                assert(done + (seq![piece] + commands_from(s@, i + 1, Seq::empty())) =~= done.push(piece) + commands_from(s@, i + 1, Seq::empty()));
                assert(cur@ =~= Seq::<char>::empty());
            }
            i = i + 1;
        } else {
            cur.push(c);
            i = i + 1;
        }
    }
    let ghost piece = cur@;
    let ghost done = out@.map_values(|c: String| c@);
    out.push(string_of(&cur));
    assert(out@.map_values(|c: String| c@) =~= done.push(piece));
    assert(done + seq![piece] =~= done.push(piece));
    out
}

} // verus!
