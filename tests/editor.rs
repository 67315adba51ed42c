use red::action::parse::{
    append, buf_change, buf_del, buf_new, copy_to, delete, insert, parse_action, paste, read, regs, set_mark, substitute, yank,
};
use red::action::{alphabet, Action, ActionErr, ChangeEntry, LineEntry, Outcome, SelectStep};
use red::address::parse_range;
use red::config::Config;
use red::range::{get_depth, line_to_block, Range};
use red::readline::{add_command, split_commands, Backlog, NextLine};
use red::red_buffer::{Mark, RedBuffer};
use red::red_file::RedFile;
use red::red_master::{RedMaster, Register};
use red::session::{input_ended, next_command, replayed, start_line, InputEnd, Step};
use red::text::{join_lines, split_text, trim};

fn strings(v: &[&str]) -> Vec<String> {
    v.iter().map(|s| s.to_string()).collect()
}

fn session_with(lines: &[&str]) -> RedMaster {
    let mut m = RedMaster::empty();
    m.curr_buf_mut().lines = strings(lines);
    m
}

fn register_lines(m: &RedMaster, name: &str) -> Option<Vec<String>> {
    let reg = Register::named(name.to_string());
    m.find_register(&reg).map(|i| m.registers[i].1.clone())
}

/// Runs one input line the way the interactive loop does, for commands that
/// need no further input.
fn run_line(m: &mut RedMaster, line: &str) -> Vec<Result<Outcome, ActionErr>> {
    let mut rest = start_line(m, line);
    let mut results = Vec::new();
    loop {
        match next_command(m, &rest) {
            Step::Finished => break,
            Step::Invalid => panic!("no command in {:?}", rest),
            Step::Command(a, after) => {
                results.push(a.apply(m));
                rest = after;
            }
        }
    }
    results
}

#[test]
fn delete_line_two_into_default_register() {
    let mut m = session_with(&["a", "b", "c"]);
    let results = run_line(&mut m, "2d");
    assert_eq!(results.len(), 1);
    assert!(matches!(results[0], Ok(Outcome::Done)));
    assert_eq!(m.curr_buf().lines, strings(&["a", "b"]));
    assert_eq!(register_lines(&m, ""), Some(strings(&["c"])));
    assert_eq!(register_lines(&m, "'"), Some(strings(&["c"])));
    assert!(!m.curr_buf().saved);
}

#[test]
fn copy_whole_buffer_after_last_line() {
    let mut m = session_with(&["x", "y"]);
    let results = run_line(&mut m, "%t$");
    assert!(matches!(results[0], Ok(Outcome::Done)));
    assert_eq!(m.curr_buf().lines, strings(&["x", "y", "x", "y"]));
    assert!(!m.curr_buf().saved);
}

#[test]
fn paste_past_single_destination_goes_on_consecutively() {
    let mut m = session_with(&["l0", "l1", "l2", "l3", "l4", "l5"]);
    m.set_register(Register::named("r".to_string()), strings(&["p", "q", "r"]));
    m.curr_buf_mut().cursor = Range::new_with_line(5);
    let r = Action::Paste("r".to_string()).apply(&mut m);
    assert!(matches!(r, Ok(Outcome::Done)));
    let lines = &m.curr_buf().lines;
    assert_eq!(lines[5], "p");
    assert_eq!(lines[6], "q");
    assert_eq!(lines[7], "r");
    assert_eq!(lines[8], "l5");
    assert_eq!(lines.len(), 9);
    assert_eq!(register_lines(&m, "r"), Some(strings(&["p", "q", "r"])));
    assert!(!m.curr_buf().saved);
}

#[test]
fn forced_close_of_only_buffer_quits() {
    let mut m = RedMaster::empty();
    m.curr_buf_mut().saved = false;
    let results = run_line(&mut m, "bd!");
    assert!(matches!(results[0], Ok(Outcome::Quit)));
    assert_eq!(m.buffers.len(), 1);
}

#[test]
fn substitute_replaces_every_match() {
    let mut m = session_with(&["banana"]);
    let results = run_line(&mut m, "0s/a/b/");
    assert!(matches!(results[0], Ok(Outcome::Substituted(3, 1))));
    assert_eq!(m.curr_buf().lines, strings(&["bbnbnb"]));
    assert!(!m.curr_buf().saved);
}

#[test]
fn substitute_uses_capture_groups() {
    let mut m = session_with(&["ab", "cd"]);
    m.curr_buf_mut().cursor = Range::from_indices(vec![0, 1]);
    let r = Action::Substitute("(a)(b)".to_string(), "$2$1".to_string()).apply(&mut m);
    assert!(matches!(r, Ok(Outcome::Substituted(1, 1))));
    assert_eq!(m.curr_buf().lines, strings(&["ba", "cd"]));
}

#[test]
fn substitute_counts_matches_and_lines() {
    let mut m = session_with(&["aa", "b", "a"]);
    m.curr_buf_mut().cursor = Range::from_indices(vec![0, 1, 2]);
    let r = Action::Substitute("a".to_string(), "x".to_string()).apply(&mut m);
    assert!(matches!(r, Ok(Outcome::Substituted(3, 2))));
    assert_eq!(m.curr_buf().lines, strings(&["xx", "b", "x"]));
}

#[test]
fn closing_moves_to_previous_buffer() {
    let mut m = RedMaster::empty();
    Action::BufNew(None).apply(&mut m).unwrap();
    Action::BufNew(None).apply(&mut m).unwrap();
    assert_eq!(*m.curr_buf_idx(), 2);
    assert!(matches!(Action::BufDel(false).apply(&mut m), Ok(Outcome::Closed(None))));
    assert_eq!(*m.curr_buf_idx(), 1);
    assert_eq!(m.buffers.len(), 2);
}

#[test]
fn substitute_without_match_keeps_saved() {
    let mut m = session_with(&["xyz"]);
    m.curr_buf_mut().cursor = Range::new_with_line(0);
    let r = Action::Substitute("q".to_string(), "w".to_string()).apply(&mut m);
    assert!(matches!(r, Ok(Outcome::Substituted(0, 0))));
    assert!(m.curr_buf().saved);
}

#[test]
fn insert_line_moves_cursor_and_marks() {
    let mut b = RedBuffer::empty();
    b.lines = strings(&["0", "1", "2", "3"]);
    b.cursor = Range::from_indices(vec![1, 3]);
    b.set_mark(Mark::named("m".to_string()), Range::from_indices(vec![0, 2]));
    assert!(b.insert_line(2, "new".to_string()).is_ok());
    assert_eq!(b.lines, strings(&["0", "1", "new", "2", "3"]));
    assert_eq!(b.cursor.lines, vec![1, 4]);
    assert_eq!(b.marks[0].1.lines, vec![0, 2, 3]);
    assert!(!b.saved);
}

#[test]
fn insert_line_at_selected_index_selects_new_line() {
    let mut b = RedBuffer::empty();
    b.lines = strings(&["0", "1"]);
    b.cursor = Range::new_with_line(1);
    assert!(b.insert_line(1, "n".to_string()).is_ok());
    assert_eq!(b.cursor.lines, vec![1, 2]);
}

#[test]
fn insert_line_past_end_is_out_of_bounds() {
    let mut b = RedBuffer::empty();
    assert_eq!(b.insert_line(2, "x".to_string()), Err(ActionErr::OutOfBounds));
    assert_eq!(b.lines, strings(&[""]));
    assert!(b.saved);
}

#[test]
fn remove_line_moves_cursor_down() {
    let mut b = RedBuffer::empty();
    b.lines = strings(&["0", "1", "2", "3"]);
    b.cursor = Range::from_indices(vec![1, 3]);
    b.remove_line(1);
    assert_eq!(b.lines, strings(&["0", "2", "3"]));
    assert_eq!(b.cursor.lines, vec![2]);
}

#[test]
fn whole_cursor_and_search_addresses() {
    let mut b = RedBuffer::empty();
    b.lines = strings(&["apple", "berry", "apricot", "cherry"]);
    b.cursor = Range::from_indices(vec![2, 7]);
    let (r, rest) = parse_range("%", &b);
    assert_eq!(r.lines, vec![0, 1, 2, 3]);
    assert_eq!(rest, "");
    let (r, _) = parse_range(".", &b);
    assert_eq!(r.lines, vec![2, 7]);
    let (r, rest) = parse_range("/^ap/p", &b);
    assert_eq!(r.lines, vec![0, 2]);
    assert_eq!(rest, "p");
    let (r, rest) = parse_range("/rr/", &b);
    assert_eq!(r.lines, vec![1, 3]);
    assert_eq!(rest, "");
}

#[test]
fn no_address_means_cursor() {
    let mut b = RedBuffer::empty();
    b.lines = strings(&["a", "b"]);
    b.cursor = Range::new_with_line(1);
    let (r, rest) = parse_range("d", &b);
    assert_eq!(r.lines, vec![1]);
    assert_eq!(rest, "d");
}

#[test]
fn invalid_search_pattern_is_no_address() {
    let b = RedBuffer::empty();
    let (r, rest) = parse_range("/[/", &b);
    assert!(r.lines.is_empty());
    assert_eq!(rest, "/[/");
}

#[test]
fn spans_unions_offsets_and_groups() {
    let mut b = RedBuffer::empty();
    b.lines = strings(&["a", "b", "c", "d", "e"]);
    assert_eq!(parse_range("1-3", &b).0.lines, vec![1, 2, 3]);
    assert_eq!(parse_range("0+4", &b).0.lines, vec![0, 4]);
    assert_eq!(parse_range("(1+2)^1", &b).0.lines, vec![2, 3]);
    assert_eq!(parse_range("$", &b).0.lines, vec![4]);
    assert_eq!(parse_range("2^-1", &b).0.lines, vec![1]);
    assert_eq!(parse_range("3-1", &b).0.lines, Vec::<usize>::new());
    assert_eq!(parse_range("(0+1)#1^2", &b).0.lines, vec![2, 3, 4]);
}

#[test]
fn offset_below_zero_wraps() {
    let b = RedBuffer::empty();
    assert_eq!(parse_range("0^-1", &b).0.lines, vec![usize::MAX]);
    assert_eq!(parse_range(".^-1", &b).0.lines, Vec::<usize>::new());
    assert_eq!(Range::new_with_line(0).offset(-1).lines, vec![usize::MAX]);
    assert_eq!(Range::new_with_line(usize::MAX).offset(2).lines, vec![1]);
}

#[test]
fn expand_grows_up_and_down() {
    let b = RedBuffer::empty();
    assert_eq!(parse_range("3#-2", &b).0.lines, vec![1, 2, 3]);
    assert_eq!(parse_range("1#2", &b).0.lines, vec![1, 2, 3]);
    assert_eq!(parse_range("1#-3", &b).0.lines, vec![0, 1]);
    assert_eq!(Range::new_with_line(5).expand(0).lines, vec![5]);
    assert_eq!(parse_range("3#-100000", &b).0.lines, vec![0, 1, 2, 3]);
}

#[test]
fn last_address_of_empty_buffer_wraps() {
    let mut b = RedBuffer::empty();
    b.lines = Vec::new();
    assert_eq!(parse_range("$", &b).0.lines, vec![usize::MAX]);
    assert_eq!(parse_range("%", &b).0.lines, Vec::<usize>::new());
}

#[test]
fn write_then_load_gives_same_lines() {
    let mut b = RedBuffer::empty();
    b.lines = strings(&["one", "", "three"]);
    let text = b.contents();
    assert_eq!(text, "one\n\nthree");
    let mut c = RedBuffer::empty();
    c.load("f.txt".to_string(), Some(text));
    assert_eq!(c.lines, strings(&["one", "", "three"]));
    assert_eq!(c.filename, Some("f.txt".to_string()));
    assert!(c.saved);
}

#[test]
fn empty_and_trailing_lines_survive_write_and_load() {
    for lines in [vec![""], vec!["a", ""], vec!["", "x\r", ""]] {
        let mut b = RedBuffer::empty();
        b.lines = strings(&lines);
        let mut c = RedBuffer::empty();
        c.load("f".to_string(), Some(b.contents()));
        assert_eq!(c.lines, strings(&lines));
    }
}

#[test]
fn split_text_keeps_every_piece() {
    assert_eq!(split_text("a\r\nb\n"), strings(&["a\r", "b", ""]));
    assert_eq!(split_text(""), strings(&[""]));
    assert_eq!(split_text("\n"), strings(&["", ""]));
    assert_eq!(split_text("a\n"), strings(&["a", ""]));
    assert_eq!(split_text("x\r"), strings(&["x\r"]));
    assert_eq!(join_lines(&strings(&["a", "b"])), "a\nb");
}

#[test]
fn load_of_missing_file_gives_empty_buffer() {
    let mut b = RedBuffer::empty();
    b.lines = strings(&["old"]);
    b.saved = false;
    b.load("new.txt".to_string(), None);
    assert_eq!(b.lines, strings(&[""]));
    assert!(b.saved);
    assert_eq!(b.filename, Some("new.txt".to_string()));
}

#[test]
fn yank_keeps_lines_and_fills_register() {
    let mut m = session_with(&["a", "b", "c"]);
    let results = run_line(&mut m, "0+2yk");
    assert!(matches!(results[0], Ok(Outcome::Done)));
    assert_eq!(m.curr_buf().lines, strings(&["a", "b", "c"]));
    assert_eq!(register_lines(&m, "k"), Some(strings(&["a", "c"])));
    assert!(m.curr_buf().saved);
}

#[test]
fn delete_replaces_register_contents() {
    let mut m = session_with(&["a", "b", "c"]);
    run_line(&mut m, "0yq");
    run_line(&mut m, "1-2dq");
    assert_eq!(register_lines(&m, "q"), Some(strings(&["b", "c"])));
    assert_eq!(m.curr_buf().lines, strings(&["a"]));
    assert!(m.curr_buf().cursor.lines.is_empty());
}

#[test]
fn chained_commands_run_in_order() {
    let mut m = session_with(&["a", "b"]);
    let results = run_line(&mut m, "0yx pax");
    assert_eq!(results.len(), 2);
    assert_eq!(m.curr_buf().lines, strings(&["a", "a", "b"]));
}

#[test]
fn paste_of_unknown_register_fails() {
    let mut m = session_with(&["a"]);
    let r = Action::Paste("nothing".to_string()).apply(&mut m);
    assert!(matches!(r, Err(ActionErr::NoSuchRegisters)));
}

#[test]
fn paste_without_destination_is_no_range() {
    let mut m = session_with(&["a"]);
    m.set_register(Register::named("z".to_string()), strings(&["q"]));
    m.curr_buf_mut().cursor = Range::empty();
    let r = Action::Paste("z".to_string()).apply(&mut m);
    assert!(matches!(r, Err(ActionErr::NoRange)));
    assert_eq!(m.curr_buf().lines, strings(&["a"]));
}

#[test]
fn bad_pattern_is_regex_error() {
    let mut m = session_with(&["a"]);
    let r = Action::Substitute("[".to_string(), "x".to_string()).apply(&mut m);
    assert!(matches!(r, Err(ActionErr::Regex)));
}

#[test]
fn closing_unsaved_buffer_is_refused() {
    let mut m = RedMaster::empty();
    m.curr_buf_mut().saved = false;
    let r = Action::BufDel(false).apply(&mut m);
    assert!(matches!(r, Err(ActionErr::Other)));
    let r = Action::Edit(false, "f".to_string()).apply(&mut m);
    assert!(matches!(r, Err(ActionErr::Other)));
}

#[test]
fn buffer_change_out_of_range() {
    let mut m = RedMaster::empty();
    let r = Action::BufChange(3).apply(&mut m);
    assert!(matches!(r, Err(ActionErr::OutOfBounds)));
    assert_eq!(*m.curr_buf_idx(), 0);
}

#[test]
fn new_buffers_and_closing() {
    let mut m = RedMaster::empty();
    assert!(matches!(Action::BufNew(None).apply(&mut m), Ok(Outcome::NewBuffer)));
    assert_eq!(m.buffers.len(), 2);
    assert_eq!(*m.curr_buf_idx(), 1);
    match Action::BufNew(Some(" notes.txt ".to_string())).apply(&mut m) {
        Ok(Outcome::Load(p)) => assert_eq!(p, "notes.txt"),
        other => panic!("{:?}", other),
    }
    assert_eq!(*m.curr_buf_idx(), 2);
    assert!(matches!(Action::BufChange(0).apply(&mut m), Ok(Outcome::Done)));
    assert!(matches!(Action::BufDel(false).apply(&mut m), Ok(Outcome::Closed(None))));
    assert_eq!(m.buffers.len(), 2);
    assert_eq!(*m.curr_buf_idx(), 0);
}

#[test]
fn write_uses_path_or_file_name() {
    let mut m = session_with(&["a", "b"]);
    assert!(matches!(Action::Write("  ".to_string()).apply(&mut m), Err(ActionErr::OutOfBounds)));
    match Action::Write("out.txt".to_string()).apply(&mut m) {
        Ok(Outcome::Write(p, text)) => {
            assert_eq!(p, "out.txt");
            assert_eq!(text, "a\nb");
        }
        other => panic!("{:?}", other),
    }
    m.mark_written("out.txt".to_string());
    assert!(m.curr_buf().saved);
    match Action::Write(String::new()).apply(&mut m) {
        Ok(Outcome::Write(p, _)) => assert_eq!(p, "out.txt"),
        other => panic!("{:?}", other),
    }
}

#[test]
fn edit_trims_path() {
    let mut m = RedMaster::empty();
    match Action::Edit(false, " a.txt ".to_string()).apply(&mut m) {
        Ok(Outcome::Load(p)) => assert_eq!(p, "a.txt"),
        other => panic!("{:?}", other),
    }
}

#[test]
fn text_at_start_and_end_of_lines() {
    let mut m = session_with(&["a", "b", "c"]);
    m.curr_buf_mut().cursor = Range::from_indices(vec![0, 2, 9]);
    assert!(Action::InsertText("> ".to_string()).apply(&mut m).is_ok());
    assert!(Action::AppendText("!".to_string()).apply(&mut m).is_ok());
    assert_eq!(m.curr_buf().lines, strings(&["> a!", "b", "> c!"]));
    assert!(!m.curr_buf().saved);
}

#[test]
fn set_mark_records_selection() {
    let mut m = session_with(&["a", "b"]);
    m.curr_buf_mut().cursor = Range::new_with_line(1);
    assert!(Action::SetMark(String::new()).apply(&mut m).is_ok());
    assert_eq!(m.curr_buf().marks.len(), 1);
    assert_eq!(m.curr_buf().marks[0].0.name(), "'");
    assert_eq!(m.curr_buf().marks[0].1.lines, vec![1]);
}

#[test]
fn registers_are_listed() {
    let mut m = RedMaster::empty();
    m.set_register(Register::named("a".to_string()), strings(&["1"]));
    m.set_register(Register::named("b".to_string()), strings(&["2", "3"]));
    match Action::Registers(None).apply(&mut m) {
        Ok(Outcome::Registers(v)) => {
            assert_eq!(v.len(), 2);
            assert_eq!(v[1], ("b".to_string(), strings(&["2", "3"])));
        }
        other => panic!("{:?}", other),
    }
    match Action::Registers(Some("a".to_string())).apply(&mut m) {
        Ok(Outcome::Registers(v)) => assert_eq!(v, vec![("a".to_string(), strings(&["1"]))]),
        other => panic!("{:?}", other),
    }
    assert!(matches!(Action::Registers(Some("c".to_string())).apply(&mut m), Err(ActionErr::NoSuchRegisters)));
}

#[test]
fn print_rows_mark_missing_lines() {
    let mut m = session_with(&["a", "b"]);
    m.curr_buf_mut().cursor = Range::from_indices(vec![1, 4]);
    match Action::Print.apply(&mut m) {
        Ok(Outcome::Print(rows)) => assert_eq!(rows, vec![(1, Some("b".to_string())), (4, None)]),
        other => panic!("{:?}", other),
    }
    match Action::Print_.apply(&mut m) {
        Ok(Outcome::PrintPlain(v)) => assert_eq!(v, strings(&["b"])),
        other => panic!("{:?}", other),
    }
}

#[test]
fn copy_with_selection_past_end_is_out_of_bounds() {
    let mut m = session_with(&["a"]);
    m.curr_buf_mut().cursor = Range::new_with_line(3);
    let r = Action::CopyTo(Range::new_with_line(0)).apply(&mut m);
    assert!(matches!(r, Err(ActionErr::OutOfBounds)));
}

#[test]
fn command_grammar() {
    let b = RedBuffer::empty();
    let (a, rest) = parse_action("d x", &b).unwrap();
    assert!(matches!(a, Action::Delete(ref r) if r.is_empty()));
    assert_eq!(rest, " x");
    let (a, _) = parse_action("dreg", &b).unwrap();
    assert!(matches!(a, Action::Delete(ref r) if r == "reg"));
    assert!(matches!(parse_action("cl", &b).unwrap().0, Action::Clear));
    assert!(matches!(parse_action("c", &b).unwrap().0, Action::Change));
    assert!(matches!(parse_action("p", &b).unwrap().0, Action::Print));
    assert!(matches!(parse_action("P", &b).unwrap().0, Action::Print_));
    assert!(matches!(parse_action("bd!", &b).unwrap().0, Action::BufDel(true)));
    assert!(matches!(parse_action("bq", &b).unwrap().0, Action::BufDel(false)));
    assert!(matches!(parse_action("q!", &b).unwrap().0, Action::BufDel(true)));
    assert!(matches!(parse_action("bc12", &b).unwrap().0, Action::BufChange(12)));
    assert!(matches!(parse_action("bn", &b).unwrap().0, Action::BufNew(None)));
    assert!(matches!(parse_action("bnf.txt", &b).unwrap().0, Action::BufNew(Some(ref f)) if f == "f.txt"));
    assert!(matches!(parse_action("e! f", &b).unwrap().0, Action::Edit(true, ref f) if f == "f"));
    assert!(matches!(parse_action("e g", &b).unwrap().0, Action::Edit(false, ref f) if f == "g"));
    assert!(matches!(parse_action("w", &b).unwrap().0, Action::Write(ref f) if f.is_empty()));
    assert!(matches!(parse_action("Ihi", &b).unwrap().0, Action::InsertText(ref t) if t == "hi"));
    assert!(matches!(parse_action("A;", &b).unwrap().0, Action::AppendText(ref t) if t == ";"));
    assert!(matches!(parse_action("r", &b).unwrap().0, Action::Registers(None)));
    assert!(matches!(parse_action("mm", &b).unwrap().0, Action::SetMark(ref m) if m == "m"));
    assert!(parse_action("zz", &b).is_none());
    assert!(parse_action("bc", &b).is_none());
    assert!(parse_action("e", &b).is_none());
}

#[test]
fn single_command_parsers() {
    let b = RedBuffer::empty();
    let (a, rest) = substitute("s/a/b/ p", &b).unwrap();
    assert!(matches!(a, Action::Substitute(ref p, ref r) if p == "a" && r == "b"));
    assert_eq!(rest, " p");
    assert!(matches!(substitute("s/a//", &b).unwrap().0, Action::Substitute(_, ref r) if r.is_empty()));
    assert!(substitute("s//b/", &b).is_none());
    assert!(matches!(paste("pa", &b).unwrap().0, Action::Paste(ref r) if r.is_empty()));
    assert!(matches!(regs("rx", &b).unwrap().0, Action::Registers(Some(ref r)) if r == "x"));
    assert!(matches!(buf_del("q", &b).unwrap().0, Action::BufDel(false)));
    assert!(matches!(red::action::parse::write("w  out", &b).unwrap().0, Action::Write(ref p) if p == "out"));
    assert!(matches!(read("e!x", &b).unwrap().0, Action::Edit(true, ref p) if p == "x"));
    assert!(delete("x", &b).is_none());
    assert!(matches!(yank("yk rest", &b).unwrap(), (Action::Yank(ref r), " rest") if r == "k"));
    assert!(matches!(buf_change("bc3p", &b).unwrap(), (Action::BufChange(3), "p")));
    assert!(buf_change("bcx", &b).is_none());
    assert!(matches!(buf_new("bn", &b).unwrap().0, Action::BufNew(None)));
    assert!(matches!(buf_new("bn a b", &b).unwrap().0, Action::BufNew(Some(ref f)) if f == " a b"));
    assert!(matches!(insert("I-", &b).unwrap().0, Action::InsertText(ref t) if t == "-"));
    assert!(insert("I", &b).is_none());
    assert!(matches!(append("A x", &b).unwrap().0, Action::AppendText(ref t) if t == " x"));
    assert!(matches!(set_mark("m", &b).unwrap().0, Action::SetMark(ref m) if m.is_empty()));
    let mut c = RedBuffer::empty();
    c.lines = strings(&["a", "b", "c"]);
    let (a, rest) = copy_to("t 1+2", &c).unwrap();
    match a {
        Action::CopyTo(r) => assert_eq!(r.lines, vec![1, 2]),
        other => panic!("{:?}", other),
    }
    assert_eq!(rest, "");
}

#[test]
fn typed_lines_go_before_each_target() {
    let mut b = RedBuffer::empty();
    b.lines = strings(&["a", "b", "c"]);
    b.cursor = Range::from_indices(vec![0, 2]);
    let mut e = LineEntry::new(&b.cursor, true);
    assert_eq!(e.feed(&mut b, Some("x".to_string())), Ok(true));
    assert_eq!(e.feed(&mut b, Some("y".to_string())), Ok(true));
    assert_eq!(e.feed(&mut b, Some(".".to_string())), Ok(false));
    assert_eq!(b.lines, strings(&["x", "y", "a", "b", "x", "y", "c"]));
}

#[test]
fn typed_lines_go_after_each_target_in_order() {
    let mut b = RedBuffer::empty();
    b.lines = strings(&["a", "b", "c"]);
    b.cursor = Range::from_indices(vec![0, 1]);
    let mut e = LineEntry::new(&b.cursor, false);
    assert_eq!(e.feed(&mut b, Some("x".to_string())), Ok(true));
    assert_eq!(e.feed(&mut b, Some("y".to_string())), Ok(true));
    assert_eq!(e.feed(&mut b, None), Ok(false));
    assert_eq!(b.lines, strings(&["a", "x", "y", "b", "x", "y", "c"]));
}

#[test]
fn typing_before_missing_line_is_out_of_bounds() {
    let mut b = RedBuffer::empty();
    b.cursor = Range::new_with_line(5);
    let mut e = LineEntry::new(&b.cursor, true);
    assert_eq!(e.feed(&mut b, Some("x".to_string())), Err(ActionErr::OutOfBounds));
}

#[test]
fn change_replaces_chosen_span() {
    let mut b = RedBuffer::empty();
    b.lines = strings(&["hello", "world"]);
    b.cursor = Range::from_indices(vec![0, 1]);
    let mut e = ChangeEntry::new(&b.cursor);
    let (line, alpha) = e.current(&b).unwrap().unwrap();
    assert_eq!(line, "hello");
    assert_eq!(alpha, vec!['0', '1', '2', '3', '4', '$']);
    assert_eq!(e.select(&b, Some("123".to_string())), Ok(SelectStep::Again));
    assert_eq!(e.select(&b, Some("12".to_string())), Ok(SelectStep::Chosen));
    assert!(e.replace(&mut b, Some("XY".to_string())));
    assert_eq!(b.lines[0], "hXYlo");
    assert_eq!(e.select(&b, Some("$".to_string())), Ok(SelectStep::Chosen));
    assert!(!e.replace(&mut b, Some("!".to_string())));
    assert_eq!(b.lines[1], "world!");
    assert!(!b.saved);
}

#[test]
fn change_with_unknown_symbol_fails() {
    let mut b = RedBuffer::empty();
    b.lines = strings(&["ab"]);
    b.cursor = Range::new_with_line(0);
    let mut e = ChangeEntry::new(&b.cursor);
    assert_eq!(e.select(&b, Some("z".to_string())), Err(ActionErr::OutOfBounds));
    assert_eq!(e.select(&b, Some(String::new())), Ok(SelectStep::Finished));
}

#[test]
fn alphabet_is_capped() {
    assert_eq!(alphabet(2), vec!['0', '1', '$']);
    assert_eq!(alphabet(500).len(), 93);
}

#[test]
fn blocks_follow_indentation() {
    let mut b = RedBuffer::empty();
    b.lines = strings(&["a", "  b", "", "  c", "d", "   "]);
    assert_eq!(line_to_block(0, &b), vec![0, 1, 2, 3]);
    assert_eq!(line_to_block(4, &b), vec![4, 5]);
    assert_eq!(line_to_block(2, &b), Vec::<usize>::new());
    assert_eq!(line_to_block(9, &b), Vec::<usize>::new());
    assert_eq!(Range::from_indices(vec![1, 4]).into_block(&b).lines, vec![1, 2, 4, 5]);
    assert_eq!(get_depth("  x"), Some(2));
    assert_eq!(get_depth(" \t "), None);
    assert_eq!(get_depth("\tx"), Some(0));
}

#[test]
fn range_operations() {
    let r = Range::from_indices(vec![3, 1, 2, 1]);
    assert_eq!(r.lines, vec![1, 2, 3]);
    assert_eq!(r.duplicate().inserted_line(2).lines, vec![1, 2, 3, 4]);
    assert_eq!(r.duplicate().removed_line(2).lines, vec![1, 2]);
    assert_eq!(Range::interval(2, 4).lines, vec![2, 3, 4]);
    assert_eq!(Range::new_with_line(1).union(&Range::new_with_line(0)).lines, vec![0, 1]);
    assert!(r.contains(2));
    assert!(!r.contains(0));
    assert!(Range::empty().lines.is_empty());
}

#[test]
fn red_file_insert_shifts_cursor() {
    let mut f = RedFile { lines: strings(&["a", "b"]), cursor: Range::from_indices(vec![0, 1]) };
    f.insert_line(1, "x".to_string());
    assert_eq!(f.lines, strings(&["a", "x", "b"]));
    assert_eq!(f.cursor.lines, vec![0, 2]);
}

#[test]
fn empty_names_are_default() {
    let m: Mark = String::new().into();
    assert_eq!(m.name(), "'");
    let r: Register = "x".to_string().into();
    assert_eq!(r.name(), "x");
    let e: Mark = "'".to_string().into();
    assert_eq!(e.name(), Mark::named(String::new()).name());
    let d = Register::named(String::new());
    assert_eq!(d.name(), "'");
    assert_eq!(&*d, "'");
    assert_eq!(r.len(), 1);
}

#[test]
fn backlog_feeds_lines_then_ends() {
    let mut b = Backlog::new();
    assert!(matches!(b.next_line(), NextLine::Interactive));
    add_command(&mut b, "1p".to_string());
    add_command(&mut b, "2p".to_string());
    assert!(matches!(b.next_line(), NextLine::Line(ref l) if l == "1p"));
    assert!(matches!(b.next_line(), NextLine::Line(ref l) if l == "2p"));
    assert!(matches!(b.next_line(), NextLine::Exhausted));
}

#[test]
fn commands_split_on_unescaped_semicolons() {
    assert_eq!(split_commands("1p;2d"), strings(&["1p", "2d"]));
    assert_eq!(split_commands("Ia\\;b;p"), strings(&["Ia;b", "p"]));
    assert_eq!(split_commands("x\\\\"), strings(&["x\\"]));
    assert_eq!(split_commands(""), strings(&[""]));
}

#[test]
fn bang_repeats_last_line() {
    assert_eq!(replayed(" ! ", "1p"), "1p");
    assert_eq!(replayed("2p", "1p"), "2p");
    assert_eq!(trim("\t a b \n"), "a b");
    assert_eq!(trim("\u{2003}a\u{85}\u{3000}"), "a");
    assert_eq!(trim("\u{200B}a"), "\u{200B}a");
}

#[test]
fn input_end_guard() {
    let loud = Config { silent: false };
    let quiet = Config { silent: true };
    assert_eq!(input_ended(&loud, false, false), InputEnd::Warn);
    assert_eq!(input_ended(&loud, false, true), InputEnd::Quit);
    assert_eq!(input_ended(&loud, true, false), InputEnd::Quit);
    assert_eq!(input_ended(&quiet, false, false), InputEnd::Quit);
}
