use vstd::prelude::*;

use crate::text::{chars_of, string_from_chars, width};

verus! {

/// Width of a character in half-width cells: one for ASCII, two otherwise.
pub fn char_len(c: char) -> (r: u32)
    ensures
        r == width(c),
{
    if (c as u32) < 128 {
        1
    } else {
        2
    }
}

/// The state of wrapping `line` at `max` cells: the finished pieces, the piece being filled and
/// its width so far. A piece is closed before the next character once it is `max` cells wide or
/// wider.
pub open spec fn wrap_state(line: Seq<char>, max: nat) -> (Seq<Seq<char>>, Seq<char>, nat)
    decreases line.len(),
{
    if line.len() == 0 {
        (Seq::empty(), Seq::empty(), 0)
    } else {
        let prev = wrap_state(line.drop_last(), max);
        let c = line.last();
        if prev.2 >= max {
            (prev.0.push(prev.1), seq![c], width(c))
        } else {
            (prev.0, prev.1.push(c), prev.2 + width(c))
        }
    }
}

/// The pieces that one line is wrapped into.
pub open spec fn wrap_line(line: Seq<char>, max: nat) -> Seq<Seq<char>> {
    let st = wrap_state(line, max);
    if st.1.len() == 0 {
        st.0
    } else {
        st.0.push(st.1)
    }
}

/// The pieces of `s` between newline characters; there is always at least one.
pub open spec fn pieces(s: Seq<char>) -> Seq<Seq<char>>
    decreases s.len(),
{
    if s.len() == 0 {
        seq![Seq::empty()]
    } else {
        let r = pieces(s.drop_last());
        if s.last() == '\n' {
            r.push(Seq::empty())
        } else {
            r.update(r.len() - 1, r.last().push(s.last()))
        }
    }
}

proof fn lemma_pieces_len(s: Seq<char>)
    ensures
        pieces(s).len() >= 1,
    decreases s.len(),
{
    if s.len() > 0 {
        lemma_pieces_len(s.drop_last());
    }
}

/// Each line without its trailing carriage return.
pub open spec fn stripped(ls: Seq<Seq<char>>) -> Seq<Seq<char>> {
    ls.map_values(|l: Seq<char>| strip_cr(l))
}

/// `l` without one trailing carriage return.
pub open spec fn strip_cr(l: Seq<char>) -> Seq<char> {
    if l.len() > 0 && l.last() == '\r' {
        l.drop_last()
    } else {
        l
    }
}

/// The lines of a text as `str::lines` gives them: a line ends at `\n` or `\r\n`, and a last
/// line ending is optional.
pub open spec fn lines_of(s: Seq<char>) -> Seq<Seq<char>> {
    let p = pieces(s);
    stripped(p.drop_last()) + if p.last().len() > 0 {
        seq![p.last()]
    } else {
        Seq::empty()
    }
}

/// The pieces of all the lines, line after line.
pub open spec fn wrap_lines(lines: Seq<Seq<char>>, max: nat) -> Seq<Seq<char>>
    decreases lines.len(),
{
    if lines.len() == 0 {
        Seq::empty()
    } else {
        wrap_lines(lines.drop_last(), max) + wrap_line(lines.last(), max)
    }
}

/// The views of a list of strings.
pub open spec fn string_views(v: Seq<String>) -> Seq<Seq<char>> {
    v.map_values(|s: String| s@)
}

/// Appends to `out` the pieces that `line` is wrapped into.
fn wrap_line_into(line: &Vec<char>, max_length: u32, out: &mut Vec<String>)
    ensures
        string_views(final(out)@) == string_views(old(out)@) + wrap_line(line@, max_length as nat),
{
    let ghost start = string_views(out@);
    let mut working: Vec<char> = Vec::new();
    let mut len: u64 = 0;
    let mut k: usize = 0;
    while k < line.len()
        invariant
            k <= line@.len(),
            string_views(out@) == start + wrap_state(line@.subrange(0, k as int), max_length as nat).0,
            working@ == wrap_state(line@.subrange(0, k as int), max_length as nat).1,
            len == wrap_state(line@.subrange(0, k as int), max_length as nat).2,
            len <= max_length + 2,
        decreases line@.len() - k,
    {
        let c = line[k];
        assert(line@.subrange(0, k + 1).drop_last() =~= line@.subrange(0, k as int));
        if len >= max_length as u64 {
            let piece = string_from_chars(&working);
            let ghost prev = out@;
            out.push(piece);
            assert(string_views(out@) =~= string_views(prev).push(working@));
            working = Vec::new();
            working.push(c);
            assert(working@ =~= seq![c]);
            len = char_len(c) as u64;
        } else {
            working.push(c);
            len = len + char_len(c) as u64;
        }
        k = k + 1;
    }
    assert(line@.subrange(0, k as int) =~= line@);
    if working.len() > 0 {
        let piece = string_from_chars(&working);
        let ghost prev = out@;
        out.push(piece);
        assert(string_views(out@) =~= string_views(prev).push(working@));
    }
}

/// Wraps each line of `text` into pieces of about `max_length` half-width cells: a piece is
/// closed before the next character once it is `max_length` cells wide or wider. Empty lines
/// give no piece.
pub fn wrap_text(text: String, max_length: u32) -> (r: Vec<String>)
    ensures
        string_views(r@) == wrap_lines(lines_of(text@), max_length as nat),
{
    let cs = chars_of(text.as_str());
    let mut out: Vec<String> = Vec::new();
    let mut line: Vec<char> = Vec::new();
    let mut i: usize = 0;
    while i < cs.len()
        invariant
            cs@ == text@,
            i <= cs@.len(),
            string_views(out@) == wrap_lines(
                stripped(pieces(cs@.subrange(0, i as int)).drop_last()),
                max_length as nat,
            ),
            line@ == pieces(cs@.subrange(0, i as int)).last(),
        decreases cs@.len() - i,
    {
        let c = cs[i];
        let ghost pre = cs@.subrange(0, i as int);
        assert(cs@.subrange(0, i + 1).drop_last() =~= pre);
        assert(cs@.subrange(0, i + 1).last() == c);
        proof {
            lemma_pieces_len(pre);
        }
        if c == '\n' {
            let ghost p = pieces(pre);
            let ghost lines = stripped(p.drop_last());
            if line.len() > 0 && line[line.len() - 1] == '\r' {
                line.pop();
            }
            assert(line@ == strip_cr(p.last()));
            wrap_line_into(&line, max_length, &mut out);
            let ghost np = pieces(cs@.subrange(0, i + 1));
            assert(np.drop_last() =~= p);
            assert(stripped(np.drop_last()) =~= lines.push(
                strip_cr(p.last()),
            ));
            assert(lines.push(strip_cr(p.last())).drop_last() =~= lines);
            line = Vec::new();
            assert(line@ =~= np.last());
        } else {
            let ghost p = pieces(pre);
            line.push(c);
            let ghost np = pieces(cs@.subrange(0, i + 1));
            assert(np.drop_last() =~= p.drop_last());
        }
        i = i + 1;
    }
    assert(cs@.subrange(0, i as int) =~= cs@);
    let ghost p = pieces(cs@);
    let ghost lines = stripped(p.drop_last());
    wrap_line_into(&line, max_length, &mut out);
    if line.len() > 0 {
        assert(lines + seq![p.last()] =~= lines.push(p.last()));
        assert(lines.push(p.last()).drop_last() =~= lines);
    } else {
        assert(lines + Seq::<Seq<char>>::empty() =~= lines);
        assert(wrap_line(line@, max_length as nat) =~= Seq::<Seq<char>>::empty());
        assert(string_views(out@) =~= wrap_lines(lines, max_length as nat));
    }
    out
}

} // verus!
