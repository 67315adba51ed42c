use vstd::prelude::*;
use vstd::std_specs::iter::IteratorSpec;

verus! {

/// Lines joined by single line feeds, with no line feed after the last.
pub open spec fn joined(ls: Seq<Seq<char>>) -> Seq<char>
    decreases ls.len(),
{
    if ls.len() == 0 {
        Seq::empty()
    } else if ls.len() == 1 {
        ls[0]
    } else {
        joined(ls.drop_last()) + seq!['\n'] + ls.last()
    }
}

/// The pieces of `s` between line feeds; there is always at least one.
pub open spec fn pieces(s: Seq<char>) -> Seq<Seq<char>>
    decreases s.len(),
{
    if s.len() == 0 {
        seq![Seq::<char>::empty()]
    } else {
        let p = pieces(s.drop_last());
        if s.last() == '\n' {
            p.push(Seq::empty())
        } else {
            p.update(p.len() - 1, p.last().push(s.last()))
        }
    }
}

proof fn lemma_pieces_nonempty(s: Seq<char>)
    ensures
        pieces(s).len() >= 1,
    decreases s.len(),
{
    if s.len() > 0 {
        lemma_pieces_nonempty(s.drop_last());
    }
}

/// Text without line feeds only lengthens the last piece.
proof fn lemma_pieces_extend(a: Seq<char>, b: Seq<char>)
    requires
        !b.contains('\n'),
    ensures
        pieces(a + b) == pieces(a).update(pieces(a).len() - 1, pieces(a).last() + b),
    decreases b.len(),
{
    lemma_pieces_nonempty(a);
    if b.len() == 0 {
        assert(a + b =~= a);
        assert(pieces(a).last() + b =~= pieces(a).last());
        assert(pieces(a).update(pieces(a).len() - 1, pieces(a).last()) =~= pieces(a));
    } else {
        let b0 = b.drop_last();
        assert(!b0.contains('\n')) by {
            if b0.contains('\n') {
                let k = choose|k: int| 0 <= k < b0.len() && b0[k] == '\n';
                assert(b[k] == '\n');
            }
        }
        lemma_pieces_extend(a, b0);
        assert((a + b).drop_last() =~= a + b0);
        assert((a + b).last() == b.last());
        assert(b.last() != '\n') by {
            assert(b[b.len() - 1] == b.last());
        }
        lemma_pieces_nonempty(a + b0);
        assert(pieces(a).last() + b =~= (pieces(a).last() + b0).push(b.last()));
        assert(pieces(a + b) =~= pieces(a).update(pieces(a).len() - 1, pieces(a).last() + b));
    }
}

/// The pieces of joined lines are the lines themselves.
proof fn lemma_pieces_joined(ls: Seq<Seq<char>>)
    requires
        ls.len() >= 1,
        forall|i: int| 0 <= i < ls.len() ==> !(#[trigger] ls[i]).contains('\n'),
    ensures
        pieces(joined(ls)) == ls,
    decreases ls.len(),
{
    if ls.len() == 1 {
        lemma_pieces_extend(Seq::empty(), ls[0]);
        assert(Seq::<char>::empty() + ls[0] =~= ls[0]);
        assert(pieces(Seq::<char>::empty()) =~= seq![Seq::<char>::empty()]);
        assert(Seq::<char>::empty() + ls[0] =~= ls[0]);
        assert(pieces(joined(ls)) =~= ls);
    } else {
        let init = ls.drop_last();
        assert forall|i: int| 0 <= i < init.len() implies !(#[trigger] init[i]).contains('\n') by {
            assert(init[i] == ls[i]);
        }
        lemma_pieces_joined(init);
        let a = joined(init) + seq!['\n'];
        assert(a.drop_last() =~= joined(init));
        assert(pieces(a) == pieces(joined(init)).push(Seq::empty()));
        assert(!ls.last().contains('\n')) by {
            assert(ls[ls.len() - 1] == ls.last());
        }
        lemma_pieces_extend(a, ls.last());
        assert(Seq::<char>::empty() + ls.last() =~= ls.last());
        assert(pieces(joined(ls)) =~= ls);
    }
}

/// Writing lines out and reading them back gives the same lines, for every
/// sequence of at least one line in which no line holds a line feed. (No
/// lines at all write the same empty text as one empty line.)
pub proof fn lemma_write_read_round_trip(ls: Seq<Seq<char>>)
    requires
        ls.len() >= 1,
        forall|i: int| 0 <= i < ls.len() ==> !(#[trigger] ls[i]).contains('\n'),
    ensures
        pieces(joined(ls)) == ls,
{
    lemma_pieces_joined(ls);
}

/// The characters of `s` in order.
pub(crate) fn chars_of(s: &str) -> (r: Vec<char>)
    ensures
        r@ == s@,
{
    broadcast use vstd::string::group_string_axioms;

    let mut it = s.chars();
    let mut out: Vec<char> = Vec::new();
    loop
        invariant
            IteratorSpec::obeys_prophetic_iter_laws(&it),
            out@ + IteratorSpec::remaining(&it) == s@,
            IteratorSpec::decrease(&it) is Some,
        ensures
            out@ == s@,
        decreases IteratorSpec::decrease(&it)->0,
    {
        let ghost before = IteratorSpec::remaining(&it);
        match it.next() {
            Some(c) => {
                out.push(c);
                assert(out@ + IteratorSpec::remaining(&it) =~= s@) by {
                    assert(before =~= seq![c] + before.drop_first());
                    assert(s@ =~= out@.drop_last() + before);
                }
            },
            None => {
                assert(out@ =~= s@);
                break;
            },
        }
    }
    out
}

/// Relies on `String::push`: it appends `c` at the end.
#[verifier::external_body]
fn push_char(s: &mut String, c: char)
    ensures
        final(s)@ == old(s)@.push(c),
{
    s.push(c)
}

/// The string of these characters.
pub(crate) fn string_of(cs: &Vec<char>) -> (r: String)
    ensures
        r@ == cs@,
{
    let mut out = String::new();
    let mut i: usize = 0;
    while i < cs.len()
        invariant
            i <= cs@.len(),
            out@ == cs@.subrange(0, i as int),
        decreases cs@.len() - i,
    {
        push_char(&mut out, cs[i]);
        i = i + 1;
        assert(out@ =~= cs@.subrange(0, i as int));
    }
    assert(out@ =~= cs@);
    out
}

/// The lines joined by single line feeds, with no line feed after the last.
pub fn join_lines(lines: &Vec<String>) -> (r: String)
    ensures
        r@ == joined(lines@.map_values(|l: String| l@)),
{
    let ghost view = lines@.map_values(|l: String| l@);
    let mut out = String::new();
    let mut i: usize = 0;
    while i < lines.len()
        invariant
            i <= lines.len(),
            view == lines@.map_values(|l: String| l@),
            out@ == joined(view.subrange(0, i as int)),
        decreases lines.len() - i,
    {
        if i > 0 {
            out.append("\n");
            proof {
                reveal_strlit("\n");
            }
        }
        out.append(lines[i].as_str());
        proof {
            let next = view.subrange(0, i + 1);
            assert(next.drop_last() =~= view.subrange(0, i as int));
            assert(next.last() == lines@[i as int]@);
            if i == 0 {
                assert(out@ =~= joined(next));
            } else {
                assert(out@ =~= joined(next));
            }
        }
        i = i + 1;
    }
    assert(view.subrange(0, i as int) =~= view);
    out
}

/// The lines of `text`: the pieces between line feeds, every one kept.
pub fn split_text(text: &str) -> (r: Vec<String>)
    ensures
        r@.map_values(|l: String| l@) == pieces(text@),
{
    let cs = chars_of(text);
    let mut done: Vec<String> = Vec::new();
    let mut cur: Vec<char> = Vec::new();
    let mut i: usize = 0;
    while i < cs.len()
        invariant
            i <= cs.len(),
            cs@ == text@,
            pieces(cs@.subrange(0, i as int)).len() >= 1,
            done@.map_values(|l: String| l@) == pieces(cs@.subrange(0, i as int)).drop_last(),
            cur@ == pieces(cs@.subrange(0, i as int)).last(),
        decreases cs.len() - i,
    {
        let c = cs[i];
        let ghost pre = cs@.subrange(0, i as int);
        let ghost next = cs@.subrange(0, i + 1);
        proof {
            assert(next.drop_last() =~= pre);
            assert(next.last() == c);
            lemma_pieces_nonempty(next);
        }
        if c == '\n' {
            let ghost whole = cur@;
            let ghost old_done = done@;
            let piece = string_of(&cur);
            done.push(piece);
            cur = Vec::new();
            proof {
                assert(done@.map_values(|l: String| l@) =~= old_done.map_values(|l: String| l@).push(whole));
                assert(pieces(pre) =~= pieces(pre).drop_last().push(whole));
                assert(pieces(next) == pieces(pre).push(Seq::empty()));
                assert(done@.map_values(|l: String| l@) =~= pieces(next).drop_last());
                assert(cur@ =~= pieces(next).last());
            }
        } else {
            cur.push(c);
            proof {
                assert(pieces(next).drop_last() =~= pieces(pre).drop_last());
                assert(cur@ =~= pieces(next).last());
            }
        }
        i = i + 1;
    }
    assert(cs@.subrange(0, i as int) =~= text@);
    let ghost whole = cur@;
    let ghost old_done = done@;
    done.push(string_of(&cur));
    proof {
        assert(done@.map_values(|l: String| l@) =~= old_done.map_values(|l: String| l@).push(whole));
        assert(pieces(text@) =~= pieces(text@).drop_last().push(whole));
    }
    done
}

/// Whether `c` has the Unicode `White_Space` property (the characters that
/// `char::is_whitespace` accepts).
pub open spec fn unicode_space(c: char) -> bool {
    let u = c as u32;
    ||| 0x9 <= u <= 0xD
    ||| u == 0x20
    ||| u == 0x85
    ||| u == 0xA0
    ||| u == 0x1680
    ||| 0x2000 <= u <= 0x200A
    ||| u == 0x2028
    ||| u == 0x2029
    ||| u == 0x202F
    ||| u == 0x205F
    ||| u == 0x3000
}

/// Whether `c` has the Unicode `White_Space` property.
pub(crate) fn is_space(c: char) -> (r: bool)
    ensures
        r == unicode_space(c),
{
    let u = c as u32;
    (0x9 <= u && u <= 0xD) || u == 0x20 || u == 0x85 || u == 0xA0 || u == 0x1680 || (0x2000 <= u && u <= 0x200A)
        || u == 0x2028 || u == 0x2029 || u == 0x202F || u == 0x205F || u == 0x3000
}

/// The first index from `p` on whose character is not white space, or the end.
pub open spec fn space_end(s: Seq<char>, p: int) -> int
    decreases s.len() - p,
{
    if 0 <= p < s.len() && unicode_space(s[p]) {
        space_end(s, p + 1)
    } else {
        p
    }
}

/// The end of `s[..e]` once white space at its end is dropped, not going
/// below `lo`.
pub open spec fn space_start_back(s: Seq<char>, lo: int, e: int) -> int
    decreases e - lo,
{
    if lo < e <= s.len() && unicode_space(s[e - 1]) {
        space_start_back(s, lo, e - 1)
    } else {
        e
    }
}

/// `s` without white space at either end.
pub open spec fn trimmed(s: Seq<char>) -> Seq<char> {
    let a = space_end(s, 0);
    s.subrange(a, space_start_back(s, a, s.len() as int))
}

/// `s` without white space at either end.
pub fn trim(s: &str) -> (r: String)
    ensures
        r@ == trimmed(s@),
{
    let cs = chars_of(s);
    let mut a: usize = 0;
    while a < cs.len() && is_space(cs[a])
        invariant
            a <= cs@.len(),
            cs@ == s@,
            space_end(s@, 0) == space_end(s@, a as int),
        decreases cs@.len() - a,
    {
        a = a + 1;
    }
    let mut e: usize = cs.len();
    while e > a && is_space(cs[e - 1])
        invariant
            a <= e <= cs@.len(),
            cs@ == s@,
            a == space_end(s@, 0),
            space_start_back(s@, a as int, s@.len() as int) == space_start_back(s@, a as int, e as int),
        decreases e,
    {
        e = e - 1;
    }
    let mut out: Vec<char> = Vec::new();
    let mut k: usize = a;
    while k < e
        invariant
            a <= k <= e,
            e <= cs@.len(),
            out@ == cs@.subrange(a as int, k as int),
        decreases e - k,
    {
        out.push(cs[k]);
        k = k + 1;
        assert(out@ =~= cs@.subrange(a as int, k as int));
    }
    string_of(&out)
}

/// Whether `s` is empty once white space at either end is dropped.
pub fn is_blank(s: &str) -> (r: bool)
    ensures
        r == (trimmed(s@).len() == 0),
{
    let t = trim(s);
    t.as_str().unicode_len() == 0
}

} // verus!
