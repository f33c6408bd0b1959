//! The continuation parser: splits a raw line into shell words, tracking
//! unterminated-quote state so a command may span several submitted lines.
//!
//! Either quote character, `"` or `'`, toggles quoted mode; the two are not
//! distinguished, so a string opened with one may be closed by the other.
//! This permissive pairing is deliberate and covered by a test.

use vstd::prelude::*;
use crate::text::{copy_range, is_space, is_space_char, trim_chars, trim_spec};

verus! {

/// Whether the line submitted so far forms a complete command or still has an
/// open quoted string that the next line continues.
#[derive(Clone, Copy, PartialEq, Eq, Structural, Debug)]
pub enum LineStatus {
    Complete,
    Incomplete,
}

/// Tokenizer state: finished tokens, the token under construction, and
/// whether the scan is inside a quoted string.
pub ghost struct ParseState {
    pub tokens: Seq<Seq<char>>,
    pub cur: Seq<char>,
    pub inside: bool,
}

/// One character of tokenization: a quote toggles quoted mode (closing one
/// ends the current token), unquoted whitespace ends the current token, and
/// every other character extends it.
pub open spec fn parse_step(st: ParseState, c: char) -> ParseState {
    if c == '"' || c == '\'' {
        if !st.inside {
            ParseState { tokens: st.tokens, cur: st.cur, inside: true }
        } else {
            ParseState { tokens: st.tokens.push(st.cur), cur: Seq::empty(), inside: false }
        }
    } else if is_space_char(c) && !st.inside {
        if st.cur.len() > 0 {
            ParseState { tokens: st.tokens.push(st.cur), cur: Seq::empty(), inside: false }
        } else {
            st
        }
    } else {
        ParseState { tokens: st.tokens, cur: st.cur.push(c), inside: st.inside }
    }
}

/// Tokenizer state after scanning the first `i` characters of `s`, starting
/// from `init`.
pub open spec fn parse_upto(init: ParseState, s: Seq<char>, i: int) -> ParseState
    recommends
        0 <= i <= s.len(),
    decreases i,
{
    if i <= 0 {
        init
    } else {
        parse_step(parse_upto(init, s, i - 1), s[i - 1])
    }
}

/// Tokens and status of one parsed line.
pub ghost struct ParseOutcome {
    pub tokens: Seq<Seq<char>>,
    pub incomplete: bool,
}

/// The empty tokenizer state; `carried_incomplete` is true when the previous
/// line left a quoted string open.
pub open spec fn parse_init(carried_incomplete: bool) -> ParseState {
    ParseState { tokens: Seq::empty(), cur: Seq::empty(), inside: carried_incomplete }
}

/// What parsing a whole (trimmed) line yields: if the scan ends inside a
/// quoted string, the open token gains a newline marker and is emitted as the
/// last token so the next line can continue it; otherwise a non-empty final
/// token is emitted and the line is complete.
pub open spec fn parse_result(line: Seq<char>, carried_incomplete: bool) -> ParseOutcome {
    let t = trim_spec(line);
    let st = parse_upto(parse_init(carried_incomplete), t, t.len() as int);
    if st.inside {
        ParseOutcome { tokens: st.tokens.push(st.cur.push('\n')), incomplete: true }
    } else if st.cur.len() > 0 {
        ParseOutcome { tokens: st.tokens.push(st.cur), incomplete: false }
    } else {
        ParseOutcome { tokens: st.tokens, incomplete: false }
    }
}

/// Tokenizes one raw line. `line_status` carries the quote state in: when it
/// is `Incomplete` the scan starts inside the quoted string left open by the
/// previous line. It carries the new state out, as `parse_result` describes.
pub fn parse_line(line: &Vec<char>, line_status: &mut LineStatus) -> (tokens: Vec<Vec<char>>)
    ensures
        tokens.deep_view() == parse_result(line@, *old(line_status) is Incomplete).tokens,
        (*final(line_status) is Incomplete) == parse_result(
            line@,
            *old(line_status) is Incomplete,
        ).incomplete,
{
    let ghost carried = *line_status is Incomplete;
    let t = trim_chars(line);
    let mut tokens: Vec<Vec<char>> = Vec::new();
    let mut current: Vec<char> = Vec::new();
    let mut inside: bool = match line_status {
        LineStatus::Incomplete => true,
        LineStatus::Complete => false,
    };

    proof {
        assert(tokens.deep_view() =~~= parse_init(carried).tokens);
        assert(current@ =~~= parse_init(carried).cur);
    }
    let mut i: usize = 0;
    while i < t.len()
        invariant
            0 <= i <= t@.len(),
            t@ == trim_spec(line@),
            parse_upto(parse_init(carried), t@, i as int) == (ParseState {
                tokens: tokens.deep_view(),
                cur: current@,
                inside: inside,
            }),
        decreases t@.len() - i,
    {
        let c = t[i];
        if c == '"' || c == '\'' {
            if !inside {
                inside = true;
            } else {
                let done = current;
                current = Vec::new();
                tokens.push(done);
                inside = false;
            }
        } else if is_space(c) && !inside {
            if current.len() > 0 {
                let done = current;
                current = Vec::new();
                tokens.push(done);
            }
        } else {
            current.push(c);
        }
        proof {
            assert(tokens.deep_view() =~~= parse_upto(parse_init(carried), t@, i + 1).tokens);
            assert(current@ =~~= parse_upto(parse_init(carried), t@, i + 1).cur);
        }
        i = i + 1;
    }

    if inside {
        *line_status = LineStatus::Incomplete;
        current.push('\n');
        tokens.push(current);
    } else {
        if current.len() > 0 {
            tokens.push(current);
        }
        *line_status = LineStatus::Complete;
    }
    proof {
        assert(tokens.deep_view() =~~= parse_result(line@, carried).tokens);
    }
    tokens
}

/// How many whitespace-separated words stand among the first `i` characters
/// of `s`: a word begins at every non-space character whose predecessor is a
/// space or the start of the sequence.
pub open spec fn word_count_upto(s: Seq<char>, i: int) -> int
    recommends
        0 <= i <= s.len(),
    decreases i,
{
    if i <= 0 {
        0
    } else {
        word_count_upto(s, i - 1) + if !is_space_char(s[i - 1]) && (i - 1 == 0 || is_space_char(
            s[i - 2],
        )) {
            1int
        } else {
            0int
        }
    }
}

/// How many whitespace-separated words `s` holds.
pub open spec fn word_count(s: Seq<char>) -> int {
    word_count_upto(s, s.len() as int)
}

proof fn lemma_parse_words_upto(s: Seq<char>, i: int)
    requires
        0 <= i <= s.len(),
        forall|j: int| 0 <= j < s.len() ==> s[j] != '"' && s[j] != '\'',
    ensures
        ({
            let st = parse_upto(parse_init(false), s, i);
            &&& !st.inside
            &&& st.tokens.len() + (if st.cur.len() > 0 {
                1int
            } else {
                0int
            }) == word_count_upto(s, i)
            &&& (st.cur.len() > 0 <==> (i > 0 && !is_space_char(s[i - 1])))
        }),
    decreases i,
{
    if i > 0 {
        lemma_parse_words_upto(s, i - 1);
    }
}

/// A single line with no quote characters parses to a complete command whose
/// tokens are exactly its whitespace-separated words: `k` words yield `k`
/// tokens and status Complete.
pub proof fn lemma_no_quotes_complete(line: Seq<char>)
    requires
        forall|j: int| 0 <= j < line.len() ==> line[j] != '"' && line[j] != '\'',
    ensures
        !parse_result(line, false).incomplete,
        parse_result(line, false).tokens.len() == word_count(trim_spec(line)),
{
    let t = trim_spec(line);
    crate::text::lemma_start_trim_bounds(line, 0);
    crate::text::lemma_end_trim_bounds(line, line.len() as int);
    assert forall|j: int| 0 <= j < t.len() implies t[j] != '"' && t[j] != '\'' by {
        let start = crate::text::start_trim(line, 0);
        assert(t[j] == line[start + j]);
    }
    lemma_parse_words_upto(t, t.len() as int);
}

/// Cross-line merging: when a command continues over several lines, the first
/// token of the new line extends the open token of the accumulated command,
/// and the remaining tokens follow as new tokens. With nothing accumulated
/// yet, the new tokens are taken as they are.
pub fn merge_tokens(acc: &mut Vec<Vec<char>>, new_tokens: &Vec<Vec<char>>)
    ensures
        old(acc)@.len() == 0 ==> final(acc).deep_view() == new_tokens.deep_view(),
        old(acc)@.len() > 0 && new_tokens@.len() == 0 ==> final(acc).deep_view() == old(
            acc,
        ).deep_view(),
        old(acc)@.len() > 0 && new_tokens@.len() > 0 ==> final(acc).deep_view() == old(
            acc,
        ).deep_view().update(
            old(acc)@.len() - 1,
            old(acc).deep_view().last() + new_tokens.deep_view().first(),
        ) + new_tokens.deep_view().skip(1),
{
    if acc.len() == 0 {
        let mut i: usize = 0;
        while i < new_tokens.len()
            invariant
                0 <= i <= new_tokens@.len(),
                acc@.len() == i,
                forall|j: int| 0 <= j < i ==> acc@[j]@ == new_tokens@[j]@,
            decreases new_tokens@.len() - i,
        {
            let src = &new_tokens[i];
            let t = copy_range(src, 0, src.len());
            proof {
                assert(t@ =~= new_tokens@[i as int]@);
            }
            acc.push(t);
            i = i + 1;
        }
        proof {
            assert forall|j: int|
                0 <= j < acc@.len() implies acc.deep_view()[j] == new_tokens.deep_view()[j] by {
                assert(acc.deep_view()[j] =~= acc@[j]@);
                assert(new_tokens.deep_view()[j] =~= new_tokens@[j]@);
            }
            assert(acc.deep_view() =~= new_tokens.deep_view());
        }
    } else if new_tokens.len() > 0 {
        let ghost acc0 = acc@;
        let n = acc.len();
        let mut open = acc.remove(n - 1);
        let ghost open0 = open@;
        let first = &new_tokens[0];
        let mut k: usize = 0;
        while k < first.len()
            invariant
                0 <= k <= first@.len(),
                first@ == new_tokens@[0]@,
                open@ == open0 + first@.take(k as int),
            decreases first@.len() - k,
        {
            open.push(first[k]);
            assert(open@ =~= open0 + first@.take(k as int + 1));
            k = k + 1;
        }
        proof {
            assert(open@ =~= open0 + new_tokens@[0]@);
        }
        acc.push(open);
        let mut i: usize = 1;
        while i < new_tokens.len()
            invariant
                1 <= i <= new_tokens@.len(),
                1 <= n == acc0.len(),
                acc@.len() == n + i - 1,
                forall|j: int| 0 <= j < n - 1 ==> acc@[j] == acc0[j],
                acc@[n - 1]@ == acc0[n - 1]@ + new_tokens@[0]@,
                forall|j: int| n <= j < acc@.len() ==> acc@[j]@ == new_tokens@[j - (n - 1)]@,
            decreases new_tokens@.len() - i,
        {
            let src = &new_tokens[i];
            let t = copy_range(src, 0, src.len());
            proof {
                assert(t@ =~= new_tokens@[i as int]@);
            }
            let ghost prev = acc@;
            acc.push(t);
            proof {
                assert(acc@[n - 1] == prev[n - 1]);
            }
            i = i + 1;
        }
        proof {
            let d1 = acc.deep_view();
            let d2 = old(acc).deep_view().update(
                old(acc)@.len() - 1,
                old(acc).deep_view().last() + new_tokens.deep_view().first(),
            ) + new_tokens.deep_view().skip(1);
            assert(d1.len() == d2.len());
            assert forall|j: int| 0 <= j < d1.len() implies d1[j] == d2[j] by {
                assert(d1[j] =~= acc@[j]@);
                if j < n - 1 {
                    assert(d2[j] =~= acc0[j]@);
                } else if j == n - 1 {
                    assert(old(acc).deep_view().last() =~= acc0[n - 1]@);
                    assert(new_tokens.deep_view().first() =~= new_tokens@[0]@);
                    assert(d2[j] =~= acc0[n - 1]@ + new_tokens@[0]@);
                } else {
                    assert(d2[j] == new_tokens.deep_view().skip(1)[j - n]);
                    assert(d2[j] =~= new_tokens@[j - (n - 1)]@);
                }
            }
            assert(d1 =~= d2);
        }
    }
}

} // verus!
