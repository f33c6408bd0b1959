//! Prompt construction and the redraw helpers for recalled multi-line
//! commands. Writing to the terminal is done outside the library; these
//! functions only compute what is rendered.

use vstd::prelude::*;
use crate::parser::LineStatus;
use crate::text::copy_range;

verus! {

/// How many columns the primary prompt occupies: the working directory text
/// followed by the four characters of ` $> `.
pub fn get_prompt_length(cwd: &Vec<char>) -> (r: usize)
    requires
        cwd@.len() + 4 <= usize::MAX,
    ensures
        r == cwd@.len() + 4,
{
    cwd.len() + 4
}

/// The prompt for a given line status: the primary prompt
/// `<working directory> $> ` for a fresh command, the secondary prompt `> `
/// for a continuation line.
pub open spec fn prompt_spec(cwd: Seq<char>, incomplete: bool) -> Seq<char> {
    if incomplete {
        seq!['>', ' ']
    } else {
        cwd + seq![' ', '$', '>', ' ']
    }
}

/// Executable form of `prompt_spec`.
pub fn prompt_text(cwd: &Vec<char>, status: &LineStatus) -> (r: Vec<char>)
    ensures
        r@ == prompt_spec(cwd@, *status is Incomplete),
{
    match status {
        LineStatus::Incomplete => {
            let mut r: Vec<char> = Vec::new();
            r.push('>');
            r.push(' ');
            proof {
                assert(r@ =~= seq!['>', ' ']);
            }
            r
        },
        LineStatus::Complete => {
            let mut r = copy_range(cwd, 0, cwd.len());
            r.push(' ');
            r.push('$');
            r.push('>');
            r.push(' ');
            proof {
                assert(r@ =~= cwd@ + seq![' ', '$', '>', ' ']);
            }
            r
        },
    }
}

/// Line-splitting state: full rows already finished, and the row under
/// construction.
pub ghost struct SplitState {
    pub lines: Seq<Seq<char>>,
    pub cur: Seq<char>,
}

/// One character of splitting: a newline finishes the current row, any other
/// character extends it.
pub open spec fn split_step(st: SplitState, c: char) -> SplitState {
    if c == '\n' {
        SplitState { lines: st.lines.push(st.cur), cur: Seq::empty() }
    } else {
        SplitState { lines: st.lines, cur: st.cur.push(c) }
    }
}

/// Splitting state after the first `i` characters of `s`.
pub open spec fn split_upto(s: Seq<char>, i: int) -> SplitState
    recommends
        0 <= i <= s.len(),
    decreases i,
{
    if i <= 0 {
        SplitState { lines: Seq::empty(), cur: Seq::empty() }
    } else {
        split_step(split_upto(s, i - 1), s[i - 1])
    }
}

/// The rows of `s`: the segments between newlines, in order; one more row
/// than there are newline characters, so a command without newlines is a
/// single row.
pub open spec fn split_lines_spec(s: Seq<char>) -> Seq<Seq<char>> {
    let st = split_upto(s, s.len() as int);
    st.lines.push(st.cur)
}

/// The rows a recalled command is rendered on, each on its own terminal row:
/// `split_lines_spec` of the command. There is always at least one row, so
/// the result's length is also the number of rows the redraw must clear.
pub fn recall_lines(command: &Vec<char>) -> (r: Vec<Vec<char>>)
    ensures
        r.deep_view() == split_lines_spec(command@),
        r@.len() >= 1,
{
    let mut lines: Vec<Vec<char>> = Vec::new();
    let mut cur: Vec<char> = Vec::new();
    let mut i: usize = 0;
    proof {
        assert(lines.deep_view() =~~= split_upto(command@, 0).lines);
        assert(cur@ =~~= split_upto(command@, 0).cur);
    }
    while i < command.len()
        invariant
            0 <= i <= command@.len(),
            split_upto(command@, i as int) == (SplitState {
                lines: lines.deep_view(),
                cur: cur@,
            }),
        decreases command@.len() - i,
    {
        let c = command[i];
        if c == '\n' {
            let done = cur;
            cur = Vec::new();
            lines.push(done);
        } else {
            cur.push(c);
        }
        proof {
            assert(lines.deep_view() =~~= split_upto(command@, i + 1).lines);
            assert(cur@ =~~= split_upto(command@, i + 1).cur);
        }
        i = i + 1;
    }
    lines.push(cur);
    proof {
        assert(lines.deep_view() =~~= split_lines_spec(command@));
    }
    lines
}

} // verus!
