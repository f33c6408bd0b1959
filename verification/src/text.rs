//! Character-sequence utilities shared by the editor, the tokenizer and the
//! expander: the shell's whitespace predicate, trimming, equality, range
//! copies and splicing.

use vstd::prelude::*;

verus! {

/// Whitespace as the shell understands it: space, tab, newline and
/// carriage return.
pub open spec fn is_space_char(c: char) -> bool {
    c == ' ' || c == '\t' || c == '\n' || c == '\r'
}

/// Executable form of `is_space_char`.
pub fn is_space(c: char) -> (r: bool)
    ensures
        r == is_space_char(c),
{
    c == ' ' || c == '\t' || c == '\n' || c == '\r'
}

/// Index of the first non-space character at or after `i`, or the length of
/// `s` when only spaces remain.
pub open spec fn start_trim(s: Seq<char>, i: int) -> int
    recommends
        0 <= i <= s.len(),
    decreases s.len() - i when 0 <= i <= s.len()
{
    if i < s.len() && is_space_char(s[i]) {
        start_trim(s, i + 1)
    } else {
        i
    }
}

/// Index just after the last non-space character strictly before `j`, or 0
/// when only spaces precede `j`.
pub open spec fn end_trim(s: Seq<char>, j: int) -> int
    recommends
        0 <= j <= s.len(),
    decreases j when 0 <= j <= s.len()
{
    if j > 0 && is_space_char(s[j - 1]) {
        end_trim(s, j - 1)
    } else {
        j
    }
}

/// `s` without leading and trailing whitespace.
pub open spec fn trim_spec(s: Seq<char>) -> Seq<char> {
    let start = start_trim(s, 0);
    let end = end_trim(s, s.len() as int);
    if start <= end {
        s.subrange(start, end)
    } else {
        Seq::empty()
    }
}

pub proof fn lemma_start_trim_bounds(s: Seq<char>, i: int)
    requires
        0 <= i <= s.len(),
    ensures
        i <= start_trim(s, i) <= s.len(),
    decreases s.len() - i,
{
    if i < s.len() && is_space_char(s[i]) {
        lemma_start_trim_bounds(s, i + 1);
    }
}

pub proof fn lemma_end_trim_bounds(s: Seq<char>, j: int)
    requires
        0 <= j <= s.len(),
    ensures
        0 <= end_trim(s, j) <= j,
    decreases j,
{
    if j > 0 && is_space_char(s[j - 1]) {
        lemma_end_trim_bounds(s, j - 1);
    }
}

/// Copy of `v[from..to]`.
pub fn copy_range(v: &Vec<char>, from: usize, to: usize) -> (r: Vec<char>)
    requires
        from <= to <= v@.len(),
    ensures
        r@ == v@.subrange(from as int, to as int),
{
    let mut r: Vec<char> = Vec::new();
    let mut k: usize = from;
    while k < to
        invariant
            from <= k <= to <= v@.len(),
            r@ == v@.subrange(from as int, k as int),
        decreases to - k,
    {
        r.push(v[k]);
        assert(r@ =~= v@.subrange(from as int, k as int + 1));
        k = k + 1;
    }
    r
}

/// Index of the first non-space character of `v`, executably.
pub fn trim_start_index(v: &Vec<char>) -> (r: usize)
    ensures
        r as int == start_trim(v@, 0),
        r <= v@.len(),
{
    let ghost s = v@;
    let mut start: usize = 0;
    while start < v.len() && is_space(v[start])
        invariant
            0 <= start <= v@.len(),
            v@ == s,
            start_trim(s, 0) == start_trim(s, start as int),
        decreases v@.len() - start,
    {
        start = start + 1;
    }
    assert(start_trim(s, start as int) == start as int);
    start
}

/// Index just after the last non-space character of `v`, executably.
pub fn trim_end_index(v: &Vec<char>) -> (r: usize)
    ensures
        r as int == end_trim(v@, v@.len() as int),
        r <= v@.len(),
{
    let ghost s = v@;
    let mut end: usize = v.len();
    while end > 0 && is_space(v[end - 1])
        invariant
            0 <= end <= v@.len(),
            v@ == s,
            end_trim(s, s.len() as int) == end_trim(s, end as int),
        decreases end,
    {
        end = end - 1;
    }
    assert(end_trim(s, end as int) == end as int);
    end
}

/// `v` without leading and trailing whitespace.
pub fn trim_chars(v: &Vec<char>) -> (r: Vec<char>)
    ensures
        r@ == trim_spec(v@),
{
    let start = trim_start_index(v);
    let end = trim_end_index(v);
    if start <= end {
        copy_range(v, start, end)
    } else {
        let r: Vec<char> = Vec::new();
        r
    }
}

/// `v` with `v[from..to]` replaced by `rep`.
pub fn splice(v: &Vec<char>, from: usize, to: usize, rep: &Vec<char>) -> (r: Vec<char>)
    requires
        from <= to <= v@.len(),
    ensures
        r@ == v@.subrange(0, from as int) + rep@ + v@.subrange(to as int, v@.len() as int),
{
    let mut r = copy_range(v, 0, from);
    let mut k: usize = 0;
    while k < rep.len()
        invariant
            0 <= k <= rep@.len(),
            r@ == v@.subrange(0, from as int) + rep@.take(k as int),
        decreases rep@.len() - k,
    {
        r.push(rep[k]);
        assert(r@ =~= v@.subrange(0, from as int) + rep@.take(k as int + 1));
        k = k + 1;
    }
    assert(r@ =~= v@.subrange(0, from as int) + rep@);
    let mut j: usize = to;
    while j < v.len()
        invariant
            to <= j <= v@.len(),
            from <= to <= v@.len(),
            r@ == v@.subrange(0, from as int) + rep@ + v@.subrange(to as int, j as int),
        decreases v@.len() - j,
    {
        r.push(v[j]);
        assert(r@ =~= v@.subrange(0, from as int) + rep@ + v@.subrange(to as int, j as int + 1));
        j = j + 1;
    }
    r
}

/// True exactly when the two sequences hold the same characters.
pub fn chars_eq(a: &Vec<char>, b: &Vec<char>) -> (r: bool)
    ensures
        r == (a@ == b@),
{
    if a.len() != b.len() {
        return false;
    }
    let mut i: usize = 0;
    while i < a.len()
        invariant
            0 <= i <= a@.len(),
            a@.len() == b@.len(),
            forall|j: int| 0 <= j < i ==> a@[j] == b@[j],
        decreases a@.len() - i,
    {
        if a[i] != b[i] {
            return false;
        }
        i = i + 1;
    }
    proof {
        assert(a@ =~= b@);
    }
    true
}

} // verus!
