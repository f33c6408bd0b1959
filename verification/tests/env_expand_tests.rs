use rshell::env::EnvTable;
use rshell::expand::expand;

fn chars(s: &str) -> Vec<char> {
    s.chars().collect()
}

#[test]
fn get_returns_what_set_bound() {
    let mut env = EnvTable::new();
    env.set(chars("X"), chars("foo"));
    assert_eq!(env.get(&chars("X")), Some(&chars("foo")));
}

#[test]
fn get_of_an_unset_name_is_none() {
    let env = EnvTable::new();
    assert_eq!(env.get(&chars("X")), None);
}

#[test]
fn set_replaces_an_earlier_binding() {
    let mut env = EnvTable::new();
    env.set(chars("X"), chars("foo"));
    env.set(chars("X"), chars("bar"));
    assert_eq!(env.get(&chars("X")), Some(&chars("bar")));
    assert_eq!(env.entry_count(), 1);
}

#[test]
fn remove_unbinds_a_name() {
    let mut env = EnvTable::new();
    env.set(chars("X"), chars("foo"));
    env.set(chars("Y"), chars("bar"));
    env.remove(&chars("X"));
    assert_eq!(env.get(&chars("X")), None);
    assert_eq!(env.get(&chars("Y")), Some(&chars("bar")));
    assert_eq!(env.entry_count(), 1);
}

#[test]
fn remove_of_an_absent_name_changes_nothing() {
    let mut env = EnvTable::new();
    env.set(chars("X"), chars("foo"));
    env.remove(&chars("Z"));
    assert_eq!(env.get(&chars("X")), Some(&chars("foo")));
    assert_eq!(env.entry_count(), 1);
}

#[test]
fn entry_at_lists_real_bindings() {
    let mut env = EnvTable::new();
    env.set(chars("A"), chars("1"));
    env.set(chars("B"), chars("2"));
    let mut seen: Vec<(Vec<char>, Vec<char>)> = Vec::new();
    for i in 0..env.entry_count() {
        let (name, value) = env.entry_at(i);
        seen.push((name.clone(), value.clone()));
    }
    seen.sort();
    assert_eq!(seen, vec![(chars("A"), chars("1")), (chars("B"), chars("2"))]);
}

#[test]
fn expansion_replaces_each_marker() {
    let mut env = EnvTable::new();
    env.set(chars("X"), chars("foo"));
    let line = chars("echo $X,$X");
    let markers = vec![5usize, 8usize];
    let expanded = expand(&line, &markers, &env);
    assert_eq!(expanded, Ok(chars("echo foo,foo")));
}

#[test]
fn unresolved_variable_aborts_the_whole_expansion() {
    let mut env = EnvTable::new();
    env.set(chars("X"), chars("foo"));
    let line = chars("echo $X $Y");
    let markers = vec![5usize, 8usize];
    let expanded = expand(&line, &markers, &env);
    assert_eq!(expanded, Err(chars("Y")));
    // No side effects: the inputs are untouched and X keeps its value.
    assert_eq!(line, chars("echo $X $Y"));
    assert_eq!(env.get(&chars("X")), Some(&chars("foo")));
}

#[test]
fn a_name_runs_to_the_end_of_the_line() {
    let mut env = EnvTable::new();
    env.set(chars("PATHX"), chars("/bin"));
    let line = chars("ls $PATHX");
    let markers = vec![3usize];
    assert_eq!(expand(&line, &markers, &env), Ok(chars("ls /bin")));
}

#[test]
fn a_name_stops_at_a_comma_or_quote() {
    let mut env = EnvTable::new();
    env.set(chars("A"), chars("x"));
    let line = chars("say $A,\"tail");
    let markers = vec![4usize];
    assert_eq!(expand(&line, &markers, &env), Ok(chars("say x,\"tail")));
}

#[test]
fn a_dollar_with_an_empty_name_is_an_error_when_unset() {
    let env = EnvTable::new();
    let line = chars("echo $ x");
    let markers = vec![5usize];
    assert_eq!(expand(&line, &markers, &env), Err(chars("")));
}

#[test]
fn expansion_with_no_markers_returns_the_line() {
    let env = EnvTable::new();
    let line = chars("plain text");
    let markers: Vec<usize> = Vec::new();
    assert_eq!(expand(&line, &markers, &env), Ok(chars("plain text")));
}
