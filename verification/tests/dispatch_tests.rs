use rshell::dispatch::{
    apply_chdir, builtin_exit_code, cd_target, dispatch_plan, export_cmd, external_exit_code,
    lookup_builtin, parse_assignment, unset_cmd, BuiltinError, BuiltinKind, Plan, SpawnOutcome,
};
use rshell::env::EnvTable;

fn chars(s: &str) -> Vec<char> {
    s.chars().collect()
}

fn toks(ts: &[&str]) -> Vec<Vec<char>> {
    ts.iter().map(|t| chars(t)).collect()
}

#[test]
fn every_builtin_name_is_recognised() {
    assert_eq!(lookup_builtin(&chars("cd")), Some(BuiltinKind::Cd));
    assert_eq!(lookup_builtin(&chars("history")), Some(BuiltinKind::History));
    assert_eq!(lookup_builtin(&chars("exit")), Some(BuiltinKind::Exit));
    assert_eq!(lookup_builtin(&chars("export")), Some(BuiltinKind::Export));
    assert_eq!(lookup_builtin(&chars("unset")), Some(BuiltinKind::Unset));
    assert_eq!(lookup_builtin(&chars("ls")), None);
}

#[test]
fn empty_token_list_is_a_no_op() {
    assert_eq!(dispatch_plan(&Vec::new()), Plan::Empty);
}

#[test]
fn first_token_selects_the_builtin() {
    assert_eq!(dispatch_plan(&toks(&["cd", "/tmp"])), Plan::Builtin(BuiltinKind::Cd));
}

#[test]
fn unknown_program_dispatches_externally_and_reports_no_code() {
    // An unknown name is planned as an external program; when the spawn
    // fails because it cannot be found, no exit code comes back, which is
    // how the caller tells "never ran" from "ran and failed".
    assert_eq!(dispatch_plan(&toks(&["zzzznotacommand"])), Plan::External);
    assert_eq!(external_exit_code(&SpawnOutcome::NotFound), None);
}

#[test]
fn child_exit_codes_are_propagated_verbatim() {
    assert_eq!(external_exit_code(&SpawnOutcome::Exited(0)), Some(0));
    assert_eq!(external_exit_code(&SpawnOutcome::Exited(42)), Some(42));
    assert_eq!(external_exit_code(&SpawnOutcome::NoCode), None);
}

#[test]
fn builtin_outcomes_map_to_one_and_zero() {
    assert_eq!(builtin_exit_code(true), Some(0));
    assert_eq!(builtin_exit_code(false), Some(1));
}

#[test]
fn cd_with_an_argument_goes_there() {
    let env = EnvTable::new();
    assert_eq!(cd_target(&toks(&["cd", "/tmp"]), &env), Ok(chars("/tmp")));
}

#[test]
fn cd_without_an_argument_goes_home() {
    let mut env = EnvTable::new();
    env.set(chars("HOME"), chars("/home/me"));
    assert_eq!(cd_target(&toks(&["cd"]), &env), Ok(chars("/home/me")));
}

#[test]
fn cd_without_argument_or_home_fails() {
    let env = EnvTable::new();
    assert_eq!(cd_target(&toks(&["cd"]), &env), Err(BuiltinError::HomeNotSet));
}

#[test]
fn failed_directory_change_leaves_the_working_directory() {
    let mut cwd = chars("/start");
    apply_chdir(&mut cwd, &chars("/nonexistent"), false);
    assert_eq!(cwd, chars("/start"));
    apply_chdir(&mut cwd, &chars("/tmp"), true);
    assert_eq!(cwd, chars("/tmp"));
}

#[test]
fn assignments_split_at_the_first_equals() {
    assert_eq!(parse_assignment(&chars("X=foo")), Ok((chars("X"), chars("foo"))));
    assert_eq!(parse_assignment(&chars("X=a=b")), Ok((chars("X"), chars("a=b"))));
    assert_eq!(parse_assignment(&chars("X=")), Ok((chars("X"), chars(""))));
    assert_eq!(parse_assignment(&chars("=v")), Ok((chars(""), chars("v"))));
}

#[test]
fn an_assignment_without_equals_is_malformed() {
    assert_eq!(parse_assignment(&chars("noequals")), Err(BuiltinError::InvalidExportFormat));
}

#[test]
fn export_binds_a_variable() {
    let mut env = EnvTable::new();
    assert_eq!(export_cmd(&toks(&["export", "X=foo"]), &mut env), Ok(()));
    assert_eq!(env.get(&chars("X")), Some(&chars("foo")));
}

#[test]
fn export_without_an_argument_changes_nothing() {
    let mut env = EnvTable::new();
    env.set(chars("A"), chars("1"));
    assert_eq!(export_cmd(&toks(&["export"]), &mut env), Ok(()));
    assert_eq!(env.entry_count(), 1);
}

#[test]
fn malformed_export_fails_and_changes_nothing() {
    let mut env = EnvTable::new();
    assert_eq!(
        export_cmd(&toks(&["export", "bad"]), &mut env),
        Err(BuiltinError::InvalidExportFormat)
    );
    assert_eq!(env.entry_count(), 0);
}

#[test]
fn unset_removes_a_binding() {
    let mut env = EnvTable::new();
    env.set(chars("X"), chars("foo"));
    assert_eq!(unset_cmd(&toks(&["unset", "X"]), &mut env), Ok(()));
    assert_eq!(env.get(&chars("X")), None);
}

#[test]
fn unset_without_a_name_fails() {
    let mut env = EnvTable::new();
    assert_eq!(
        unset_cmd(&toks(&["unset"]), &mut env),
        Err(BuiltinError::MissingUnsetOperand)
    );
}
