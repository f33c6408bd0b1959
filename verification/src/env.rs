//! The environment table: an explicit context object holding the shell's
//! variable bindings. The variable expander reads it; the `export` and
//! `unset` builtins write it. Mirroring the table into the environment that
//! spawned children inherit is done outside the library.

use vstd::prelude::*;
use crate::text::chars_eq;

verus! {

/// One variable binding.
pub struct EnvEntry {
    pub name: Vec<char>,
    pub value: Vec<char>,
}

/// The mapping that a sequence of bindings denotes; a later binding for the
/// same name wins, though the table keeps names unique anyway.
pub open spec fn entries_map(s: Seq<EnvEntry>) -> Map<Seq<char>, Seq<char>>
    decreases s.len(),
{
    if s.len() == 0 {
        Map::empty()
    } else {
        entries_map(s.drop_last()).insert(s.last().name@, s.last().value@)
    }
}

/// No two bindings share a name.
pub open spec fn entries_unique(s: Seq<EnvEntry>) -> bool {
    forall|i: int, j: int| 0 <= i < j < s.len() ==> s[i].name@ != s[j].name@
}

proof fn lemma_absent(s: Seq<EnvEntry>, n: Seq<char>)
    requires
        forall|i: int| 0 <= i < s.len() ==> s[i].name@ != n,
    ensures
        !entries_map(s).contains_key(n),
        entries_map(s).remove(n) == entries_map(s),
    decreases s.len(),
{
    if s.len() > 0 {
        assert(s.drop_last() =~= s.subrange(0, s.len() - 1));
        lemma_absent(s.drop_last(), n);
    }
    assert(entries_map(s).remove(n) =~= entries_map(s));
}

proof fn lemma_lookup(s: Seq<EnvEntry>, i: int)
    requires
        entries_unique(s),
        0 <= i < s.len(),
    ensures
        entries_map(s).contains_key(s[i].name@),
        entries_map(s)[s[i].name@] == s[i].value@,
    decreases s.len(),
{
    if i < s.len() - 1 {
        assert(s.drop_last()[i] == s[i]);
        lemma_lookup(s.drop_last(), i);
        assert(s.last().name@ != s[i].name@);
    }
}

proof fn lemma_remove(s: Seq<EnvEntry>, i: int)
    requires
        entries_unique(s),
        0 <= i < s.len(),
    ensures
        entries_map(s.remove(i)) == entries_map(s).remove(s[i].name@),
        entries_unique(s.remove(i)),
    decreases s.len(),
{
    let n = s[i].name@;
    if i == s.len() - 1 {
        assert(s.remove(i) =~= s.drop_last());
        assert(forall|j: int| 0 <= j < s.drop_last().len() ==> s.drop_last()[j].name@ != n);
        lemma_absent(s.drop_last(), n);
        assert(entries_map(s.drop_last()).insert(n, s.last().value@).remove(n) =~= entries_map(
            s.drop_last(),
        ).remove(n));
    } else {
        assert(s.drop_last()[i] == s[i]);
        lemma_remove(s.drop_last(), i);
        assert(s.remove(i).drop_last() =~= s.drop_last().remove(i));
        assert(s.remove(i).last() == s.last());
        let m = entries_map(s.drop_last());
        assert(entries_map(s.remove(i)) == m.remove(n).insert(s.last().name@, s.last().value@));
        assert(s.last().name@ != n);
        assert(m.remove(n).insert(s.last().name@, s.last().value@) =~= m.insert(
            s.last().name@,
            s.last().value@,
        ).remove(n));
    }
}

proof fn lemma_dom_len(s: Seq<EnvEntry>)
    requires
        entries_unique(s),
    ensures
        entries_map(s).dom().finite(),
        entries_map(s).dom().len() == s.len(),
    decreases s.len(),
{
    if s.len() > 0 {
        lemma_dom_len(s.drop_last());
        assert(forall|j: int|
            0 <= j < s.drop_last().len() ==> s.drop_last()[j].name@ != s.last().name@);
        lemma_absent(s.drop_last(), s.last().name@);
    }
}

/// The shell's variable bindings, as a table with unique names. In contracts
/// it is the map from names to values.
pub struct EnvTable {
    entries: Vec<EnvEntry>,
}

impl View for EnvTable {
    type V = Map<Seq<char>, Seq<char>>;

    closed spec fn view(&self) -> Map<Seq<char>, Seq<char>> {
        entries_map(self.entries@)
    }
}

impl EnvTable {
    /// The table's names are unique; every constructor establishes this and
    /// every method preserves it.
    pub closed spec fn wf(&self) -> bool {
        entries_unique(self.entries@)
    }

    /// An empty table.
    pub fn new() -> (r: EnvTable)
        ensures
            r.wf(),
            r@ == Map::<Seq<char>, Seq<char>>::empty(),
    {
        EnvTable { entries: Vec::new() }
    }

    /// Position of the binding for `name`, if the table has one.
    fn find(&self, name: &Vec<char>) -> (r: Option<usize>)
        requires
            self.wf(),
        ensures
            match r {
                Some(i) => i < self.entries@.len() && self.entries@[i as int].name@ == name@
                    && self@.contains_key(name@) && self@[name@] == self.entries@[
                    i as int
                ].value@,
                None => !self@.contains_key(name@) && forall|j: int|
                    0 <= j < self.entries@.len() ==> self.entries@[j].name@ != name@,
            },
    {
        let mut i: usize = 0;
        while i < self.entries.len()
            invariant
                self.wf(),
                0 <= i <= self.entries@.len(),
                forall|j: int| 0 <= j < i ==> self.entries@[j].name@ != name@,
            decreases self.entries@.len() - i,
        {
            if chars_eq(&self.entries[i].name, name) {
                proof {
                    lemma_lookup(self.entries@, i as int);
                }
                return Some(i);
            }
            i = i + 1;
        }
        proof {
            lemma_absent(self.entries@, name@);
        }
        None
    }

    /// The value bound to `name`, or nothing when the name is unset.
    pub fn get(&self, name: &Vec<char>) -> (r: Option<&Vec<char>>)
        requires
            self.wf(),
        ensures
            match r {
                Some(v) => self@.contains_key(name@) && v@ == self@[name@],
                None => !self@.contains_key(name@),
            },
    {
        match self.find(name) {
            Some(i) => Some(&self.entries[i].value),
            None => None,
        }
    }

    /// Binds `name` to `value`, replacing any earlier binding.
    pub fn set(&mut self, name: Vec<char>, value: Vec<char>)
        requires
            old(self).wf(),
        ensures
            final(self).wf(),
            final(self)@ == old(self)@.insert(name@, value@),
    {
        let ghost m0 = self@;
        let ghost s0 = self.entries@;
        match self.find(&name) {
            Some(i) => {
                proof {
                    lemma_remove(self.entries@, i as int);
                }
                self.entries.remove(i);
                proof {
                    assert forall|j: int|
                        0 <= j < self.entries@.len() implies self.entries@[j].name@ != name@ by {
                        if j < i {
                            assert(self.entries@[j] == s0[j]);
                        } else {
                            assert(self.entries@[j] == s0[j + 1]);
                        }
                    }
                }
            },
            None => {
                proof {
                    assert(self@.remove(name@) == self@);
                }
            },
        }
        proof {
            assert(self@ == m0.remove(name@));
        }
        let ghost s1 = self.entries@;
        self.entries.push(EnvEntry { name, value });
        proof {
            assert(self.entries@.drop_last() =~= s1);
            assert(self@ == entries_map(s1).insert(name@, value@));
            assert(m0.remove(name@).insert(name@, value@) =~= m0.insert(name@, value@));
            assert forall|i: int, j: int|
                0 <= i < j < self.entries@.len() implies self.entries@[i].name@ != self.entries@[
                j
            ].name@ by {
                if j < self.entries@.len() - 1 {
                    assert(self.entries@[i] == s1[i] && self.entries@[j] == s1[j]);
                } else {
                    assert(self.entries@[i] == s1[i]);
                }
            }
        }
    }

    /// Removes the binding for `name`; with no such binding the table is
    /// unchanged (and so is the map).
    pub fn remove(&mut self, name: &Vec<char>)
        requires
            old(self).wf(),
        ensures
            final(self).wf(),
            final(self)@ == old(self)@.remove(name@),
    {
        match self.find(name) {
            Some(i) => {
                proof {
                    lemma_remove(self.entries@, i as int);
                }
                self.entries.remove(i);
            },
            None => {
                proof {
                    assert(self@.remove(name@) == self@);
                }
            },
        }
    }

    /// How many bindings the table holds: exactly the size of the map's
    /// domain.
    pub fn entry_count(&self) -> (r: usize)
        requires
            self.wf(),
        ensures
            r == self@.dom().len(),
    {
        proof {
            lemma_dom_len(self.entries@);
        }
        self.entries.len()
    }

    /// The binding at position `i`: a real name/value pair of the table.
    pub fn entry_at(&self, i: usize) -> (r: (&Vec<char>, &Vec<char>))
        requires
            self.wf(),
            i < self@.dom().len(),
        ensures
            self@.contains_key(r.0@),
            r.1@ == self@[r.0@],
    {
        proof {
            lemma_dom_len(self.entries@);
            lemma_lookup(self.entries@, i as int);
        }
        (&self.entries[i].name, &self.entries[i].value)
    }
}

} // verus!
