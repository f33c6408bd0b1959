//! Command dispatch: the first token selects a builtin or, failing that, an
//! external program; the rules for the builtins' arguments and for mapping
//! outcomes to exit codes live here. Spawning the external process and
//! touching the real working directory are done outside the library, which
//! only decides and records.

use vstd::prelude::*;
use crate::env::EnvTable;
use crate::text::{chars_eq, copy_range};

verus! {

/// The commands the shell implements itself.
#[derive(Clone, Copy, PartialEq, Eq, Structural, Debug)]
pub enum BuiltinKind {
    Cd,
    History,
    Exit,
    Export,
    Unset,
}

/// What a token list asks the shell to do: nothing, a builtin, or an
/// external program (token 0 the program, the rest its arguments).
#[derive(Clone, Copy, PartialEq, Eq, Structural, Debug)]
pub enum Plan {
    Empty,
    Builtin(BuiltinKind),
    External,
}

/// Why a builtin refused its arguments.
#[derive(Clone, Copy, PartialEq, Eq, Structural, Debug)]
pub enum BuiltinError {
    /// `cd` with no argument and no HOME variable set.
    HomeNotSet,
    /// `export` with an argument that has no `=` in it.
    InvalidExportFormat,
    /// `unset` without a name argument.
    MissingUnsetOperand,
}

/// The builtin a command name refers to, if any.
pub open spec fn builtin_of(name: Seq<char>) -> Option<BuiltinKind> {
    if name == seq!['c', 'd'] {
        Some(BuiltinKind::Cd)
    } else if name == seq!['h', 'i', 's', 't', 'o', 'r', 'y'] {
        Some(BuiltinKind::History)
    } else if name == seq!['e', 'x', 'i', 't'] {
        Some(BuiltinKind::Exit)
    } else if name == seq!['e', 'x', 'p', 'o', 'r', 't'] {
        Some(BuiltinKind::Export)
    } else if name == seq!['u', 'n', 's', 'e', 't'] {
        Some(BuiltinKind::Unset)
    } else {
        None
    }
}

/// Executable lookup in the builtin registry.
pub fn lookup_builtin(name: &Vec<char>) -> (r: Option<BuiltinKind>)
    ensures
        r == builtin_of(name@),
{
    let mut w: Vec<char> = Vec::new();
    w.push('c');
    w.push('d');
    proof {
        assert(w@ =~= seq!['c', 'd']);
    }
    if chars_eq(name, &w) {
        return Some(BuiltinKind::Cd);
    }
    w.clear();
    w.push('h');
    w.push('i');
    w.push('s');
    w.push('t');
    w.push('o');
    w.push('r');
    w.push('y');
    proof {
        assert(w@ =~= seq!['h', 'i', 's', 't', 'o', 'r', 'y']);
    }
    if chars_eq(name, &w) {
        return Some(BuiltinKind::History);
    }
    w.clear();
    w.push('e');
    w.push('x');
    w.push('i');
    w.push('t');
    proof {
        assert(w@ =~= seq!['e', 'x', 'i', 't']);
    }
    if chars_eq(name, &w) {
        return Some(BuiltinKind::Exit);
    }
    w.clear();
    w.push('e');
    w.push('x');
    w.push('p');
    w.push('o');
    w.push('r');
    w.push('t');
    proof {
        assert(w@ =~= seq!['e', 'x', 'p', 'o', 'r', 't']);
    }
    if chars_eq(name, &w) {
        return Some(BuiltinKind::Export);
    }
    w.clear();
    w.push('u');
    w.push('n');
    w.push('s');
    w.push('e');
    w.push('t');
    proof {
        assert(w@ =~= seq!['u', 'n', 's', 'e', 't']);
    }
    if chars_eq(name, &w) {
        return Some(BuiltinKind::Unset);
    }
    None
}

/// What a token list asks the shell to do: an empty list is a no-op, a
/// builtin name selects the builtin, anything else names an external
/// program.
pub open spec fn plan_of(tokens: Seq<Seq<char>>) -> Plan {
    if tokens.len() == 0 {
        Plan::Empty
    } else {
        match builtin_of(tokens[0]) {
            Some(b) => Plan::Builtin(b),
            None => Plan::External,
        }
    }
}

/// Executable dispatch decision over the parsed tokens.
pub fn dispatch_plan(tokens: &Vec<Vec<char>>) -> (r: Plan)
    ensures
        r == plan_of(tokens.deep_view()),
{
    if tokens.len() == 0 {
        Plan::Empty
    } else {
        proof {
            assert(tokens.deep_view()[0] =~= tokens@[0]@);
        }
        match lookup_builtin(&tokens[0]) {
            Some(b) => Plan::Builtin(b),
            None => Plan::External,
        }
    }
}

/// How an attempt to run an external program ended: it exited with a code,
/// it ended without one, or it could not be found and never ran.
#[derive(Clone, Copy, PartialEq, Eq, Structural, Debug)]
pub enum SpawnOutcome {
    Exited(i32),
    NoCode,
    NotFound,
}

/// The exit code an external outcome reports: the child's code verbatim, and
/// none at all when the program never ran (or ended without a code), so the
/// caller can tell "ran and failed" from "never ran".
pub open spec fn external_code_of(o: SpawnOutcome) -> Option<i32> {
    match o {
        SpawnOutcome::Exited(c) => Some(c),
        SpawnOutcome::NoCode => None,
        SpawnOutcome::NotFound => None,
    }
}

/// Executable form of `external_code_of`.
pub fn external_exit_code(o: &SpawnOutcome) -> (r: Option<i32>)
    ensures
        r == external_code_of(*o),
{
    match o {
        SpawnOutcome::Exited(c) => Some(*c),
        SpawnOutcome::NoCode => None,
        SpawnOutcome::NotFound => None,
    }
}

/// The exit code a builtin reports: 0 on success, 1 on failure.
pub fn builtin_exit_code(ok: bool) -> (r: Option<i32>)
    ensures
        ok ==> r == Some(0i32),
        !ok ==> r == Some(1i32),
{
    if ok {
        Some(0)
    } else {
        Some(1)
    }
}

/// The name of the HOME variable.
pub open spec fn home_name() -> Seq<char> {
    seq!['H', 'O', 'M', 'E']
}

/// Where `cd` should go: its argument when one is given, else the HOME
/// variable's value; with neither, an error.
pub fn cd_target(tokens: &Vec<Vec<char>>, env: &EnvTable) -> (r: Result<Vec<char>, BuiltinError>)
    requires
        env.wf(),
    ensures
        tokens@.len() >= 2 ==> (r matches Ok(d) && d@ == tokens@[1]@),
        tokens@.len() < 2 && env@.contains_key(home_name()) ==> (r matches Ok(d) && d@ == env@[
            home_name()
        ]),
        tokens@.len() < 2 && !env@.contains_key(home_name()) ==> r == Err::<
            Vec<char>,
            BuiltinError,
        >(BuiltinError::HomeNotSet),
{
    if tokens.len() >= 2 {
        let arg = &tokens[1];
        Ok(copy_range(arg, 0, arg.len()))
    } else {
        let mut h: Vec<char> = Vec::new();
        h.push('H');
        h.push('O');
        h.push('M');
        h.push('E');
        proof {
            assert(h@ =~= home_name());
        }
        match env.get(&h) {
            Some(v) => Ok(copy_range(v, 0, v.len())),
            None => Err(BuiltinError::HomeNotSet),
        }
    }
}

/// Records the outcome of a directory change on the shell's view of the
/// working directory: on success it becomes the target, on failure it is
/// left exactly as it was.
pub fn apply_chdir(cwd: &mut Vec<char>, target: &Vec<char>, success: bool)
    ensures
        success ==> final(cwd)@ == target@,
        !success ==> final(cwd)@ == old(cwd)@,
{
    if success {
        let t = copy_range(target, 0, target.len());
        *cwd = t;
    }
}

/// First index at or after `i` holding `=`, or the length of `s`.
pub open spec fn eq_pos(s: Seq<char>, i: int) -> int
    recommends
        0 <= i <= s.len(),
    decreases s.len() - i when 0 <= i <= s.len()
{
    if i < s.len() {
        if s[i] == '=' {
            i
        } else {
            eq_pos(s, i + 1)
        }
    } else {
        s.len() as int
    }
}

/// Splits `name=value` at the first `=`: the name is everything before it,
/// the value everything after (either may be empty). With no `=` at all the
/// argument is malformed.
pub fn parse_assignment(arg: &Vec<char>) -> (r: Result<(Vec<char>, Vec<char>), BuiltinError>)
    ensures
        eq_pos(arg@, 0) < arg@.len() ==> (r matches Ok(p) && p.0@ == arg@.subrange(
            0,
            eq_pos(arg@, 0),
        ) && p.1@ == arg@.subrange(eq_pos(arg@, 0) + 1, arg@.len() as int)),
        eq_pos(arg@, 0) == arg@.len() ==> r == Err::<(Vec<char>, Vec<char>), BuiltinError>(
            BuiltinError::InvalidExportFormat,
        ),
{
    let mut e: usize = 0;
    while e < arg.len() && arg[e] != '='
        invariant
            0 <= e <= arg@.len(),
            eq_pos(arg@, 0) == eq_pos(arg@, e as int),
        decreases arg@.len() - e,
    {
        e = e + 1;
    }
    assert(eq_pos(arg@, e as int) == e as int);
    if e < arg.len() {
        let name = copy_range(arg, 0, e);
        let value = copy_range(arg, e + 1, arg.len());
        Ok((name, value))
    } else {
        Err(BuiltinError::InvalidExportFormat)
    }
}

/// The `export` builtin's effect on the environment table: with no argument
/// it changes nothing (the caller lists the bindings); with `name=value` it
/// binds the name; with a malformed argument it fails and changes nothing.
pub fn export_cmd(tokens: &Vec<Vec<char>>, env: &mut EnvTable) -> (r: Result<(), BuiltinError>)
    requires
        old(env).wf(),
    ensures
        final(env).wf(),
        tokens@.len() < 2 ==> r is Ok && final(env)@ == old(env)@,
        tokens@.len() >= 2 && eq_pos(tokens@[1]@, 0) < tokens@[1]@.len() ==> r is Ok && final(env)@
            == old(env)@.insert(
            tokens@[1]@.subrange(0, eq_pos(tokens@[1]@, 0)),
            tokens@[1]@.subrange(eq_pos(tokens@[1]@, 0) + 1, tokens@[1]@.len() as int),
        ),
        tokens@.len() >= 2 && eq_pos(tokens@[1]@, 0) == tokens@[1]@.len() ==> r == Err::<
            (),
            BuiltinError,
        >(BuiltinError::InvalidExportFormat) && final(env)@ == old(env)@,
{
    if tokens.len() < 2 {
        return Ok(());
    }
    match parse_assignment(&tokens[1]) {
        Ok((name, value)) => {
            env.set(name, value);
            Ok(())
        },
        Err(e) => Err(e),
    }
}

/// The `unset` builtin's effect on the environment table: it removes the
/// named binding; without a name argument it fails and changes nothing.
/// Unsetting a name that is not bound succeeds and changes nothing.
pub fn unset_cmd(tokens: &Vec<Vec<char>>, env: &mut EnvTable) -> (r: Result<(), BuiltinError>)
    requires
        old(env).wf(),
    ensures
        final(env).wf(),
        tokens@.len() < 2 ==> r == Err::<(), BuiltinError>(BuiltinError::MissingUnsetOperand)
            && final(env)@ == old(env)@,
        tokens@.len() >= 2 ==> r is Ok && final(env)@ == old(env)@.remove(tokens@[1]@),
{
    if tokens.len() < 2 {
        return Err(BuiltinError::MissingUnsetOperand);
    }
    env.remove(&tokens[1]);
    Ok(())
}

} // verus!
