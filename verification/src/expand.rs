//! The variable expander: resolves `$NAME` references against the
//! environment table, using the substitution-marker offsets the line editor
//! collected. Markers are processed in descending offset order, so splicing
//! a value in never moves a marker that is still to be processed. An unset
//! name aborts the whole expansion: the caller gets the unresolved name and
//! no partially expanded line.

use vstd::prelude::*;
use crate::env::EnvTable;
use crate::text::{copy_range, is_space, is_space_char, splice};

verus! {

/// A character that ends a variable name: whitespace, a comma or a quote.
pub open spec fn is_name_end(c: char) -> bool {
    is_space_char(c) || c == ',' || c == '\'' || c == '"'
}

/// Executable form of `is_name_end`.
pub fn ends_name(c: char) -> (r: bool)
    ensures
        r == is_name_end(c),
{
    is_space(c) || c == ',' || c == '\'' || c == '"'
}

/// First index at or after `i` holding a name-ending character, or the
/// length of `s` when none follows.
pub open spec fn name_end(s: Seq<char>, i: int) -> int
    recommends
        0 <= i <= s.len(),
    decreases s.len() - i when 0 <= i <= s.len()
{
    if i < s.len() {
        if is_name_end(s[i]) {
            i
        } else {
            name_end(s, i + 1)
        }
    } else {
        s.len() as int
    }
}

/// What expanding `line` at `markers` (ascending offsets of `$` characters)
/// against `env` yields, processing markers from the last to the first: each
/// step reads the name from the character after the `$` up to the next
/// name-ending character, and splices the bound value over `$NAME`. The
/// first unset name (at the highest offset) aborts the expansion and is the
/// error value.
pub open spec fn expand_rec(
    line: Seq<char>,
    markers: Seq<usize>,
    env: Map<Seq<char>, Seq<char>>,
) -> Result<Seq<char>, Seq<char>>
    decreases markers.len(),
{
    if markers.len() == 0 {
        Ok(line)
    } else {
        let m = markers.last() as int;
        let end = name_end(line, m + 1);
        let name = line.subrange(m + 1, end);
        if env.contains_key(name) {
            expand_rec(
                line.subrange(0, m) + env[name] + line.subrange(end, line.len() as int),
                markers.drop_last(),
                env,
            )
        } else {
            Err(name)
        }
    }
}

/// Expands every `$NAME` reference in `line`, as `expand_rec` describes:
/// `Ok` holds the fully expanded line; `Err` holds the first unresolved
/// name, and no partially expanded line escapes.
pub fn expand(line: &Vec<char>, markers: &Vec<usize>, env: &EnvTable) -> (r: Result<
    Vec<char>,
    Vec<char>,
>)
    requires
        env.wf(),
        forall|k: int, l: int| 0 <= k < l < markers@.len() ==> markers@[k] < markers@[l],
        forall|k: int|
            0 <= k < markers@.len() ==> markers@[k] < line@.len() && line@[markers@[k] as int]
                == '$',
    ensures
        match r {
            Ok(v) => expand_rec(line@, markers@, env@) == Ok::<Seq<char>, Seq<char>>(v@),
            Err(n) => expand_rec(line@, markers@, env@) == Err::<Seq<char>, Seq<char>>(n@),
        },
{
    let mut cur = copy_range(line, 0, line.len());
    proof {
        assert(cur@ =~= line@);
        assert(markers@.take(markers@.len() as int) =~= markers@);
    }
    let mut i: usize = markers.len();
    while i > 0
        invariant
            0 <= i <= markers@.len(),
            env.wf(),
            forall|k: int, l: int| 0 <= k < l < markers@.len() ==> markers@[k] < markers@[l],
            forall|k: int|
                0 <= k < i ==> markers@[k] < cur@.len() && cur@[markers@[k] as int] == '$',
            expand_rec(line@, markers@, env@) == expand_rec(cur@, markers@.take(i as int), env@),
        decreases i,
    {
        let ghost ms = markers@.take(i as int);
        let m = markers[i - 1];
        proof {
            assert(ms.last() == markers@[i - 1]);
        }
        let mut e: usize = m + 1;
        while e < cur.len() && !ends_name(cur[e])
            invariant
                m + 1 <= e <= cur@.len(),
                name_end(cur@, m as int + 1) == name_end(cur@, e as int),
            decreases cur@.len() - e,
        {
            e = e + 1;
        }
        assert(name_end(cur@, e as int) == e as int);
        let name = copy_range(&cur, m + 1, e);
        proof {
            assert(name@ =~= cur@.subrange(m as int + 1, name_end(cur@, m as int + 1)));
        }
        match env.get(&name) {
            Some(value) => {
                let ghost cur0 = cur@;
                let next = splice(&cur, m, e, value);
                cur = next;
                proof {
                    assert(ms.drop_last() =~= markers@.take(i as int - 1));
                    assert(expand_rec(cur0, ms, env@) == expand_rec(cur@, ms.drop_last(), env@));
                    assert forall|k: int|
                        0 <= k < i - 1 implies markers@[k] < cur@.len() && cur@[markers@[k] as int]
                        == '$' by {
                        assert(markers@[k] < markers@[i - 1]);
                        assert(cur@[markers@[k] as int] == cur0.subrange(0, m as int)[markers@[
                            k
                        ] as int]);
                    }
                }
            },
            None => {
                proof {
                    assert(expand_rec(cur@, ms, env@) == Err::<Seq<char>, Seq<char>>(name@));
                }
                return Err(name);
            },
        }
        i = i - 1;
    }
    proof {
        assert(markers@.take(0) =~= Seq::<usize>::empty());
        assert(expand_rec(cur@, markers@.take(0), env@) == Ok::<Seq<char>, Seq<char>>(cur@));
    }
    Ok(cur)
}

} // verus!
