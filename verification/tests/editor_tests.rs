use rshell::editor::{Editor, Key, StepOutcome};
use rshell::history::{HistoryRecord, HistoryStore};

fn chars(s: &str) -> Vec<char> {
    s.chars().collect()
}

fn record(cmd: &str) -> HistoryRecord {
    HistoryRecord {
        command: chars(cmd),
        exit_code: Some(0),
        time: chars("Mon, 01 Jan 2024 00:00:00 GMT"),
        cwd: chars("/tmp"),
    }
}

fn type_line(ed: &mut Editor, history: &HistoryStore, s: &str) {
    for c in s.chars() {
        ed.step(Key::Char(c), history);
    }
}

#[test]
fn backspace_on_empty_buffer_is_a_no_op() {
    let history = HistoryStore::new();
    let mut ed = Editor::new(&history);
    let out = ed.step(Key::Backspace, &history);
    assert_eq!(out, StepOutcome::Editing);
    assert!(ed.text.is_empty());
    assert_eq!(ed.cursor, 0);
}

#[test]
fn backspace_deletes_the_character_before_the_cursor() {
    let history = HistoryStore::new();
    let mut ed = Editor::new(&history);
    type_line(&mut ed, &history, "abc");
    ed.step(Key::Left, &history);
    ed.step(Key::Backspace, &history);
    assert_eq!(ed.text, chars("ac"));
    assert_eq!(ed.cursor, 1);
}

#[test]
fn backspace_at_the_start_of_a_nonempty_buffer_is_a_no_op() {
    let history = HistoryStore::new();
    let mut ed = Editor::new(&history);
    type_line(&mut ed, &history, "ab");
    ed.step(Key::Left, &history);
    ed.step(Key::Left, &history);
    ed.step(Key::Backspace, &history);
    assert_eq!(ed.text, chars("ab"));
    assert_eq!(ed.cursor, 0);
}

#[test]
fn cursor_stays_within_bounds_under_left_and_right() {
    let history = HistoryStore::new();
    let mut ed = Editor::new(&history);
    type_line(&mut ed, &history, "hi");
    for _ in 0..5 {
        ed.step(Key::Left, &history);
    }
    assert_eq!(ed.cursor, 0);
    for _ in 0..7 {
        ed.step(Key::Right, &history);
    }
    assert_eq!(ed.cursor, 2);
    assert_eq!(ed.text, chars("hi"));
}

#[test]
fn repeated_up_stops_at_position_zero() {
    let mut history = HistoryStore::new();
    history.append(record("first"));
    history.append(record("second"));
    let mut ed = Editor::new(&history);
    for _ in 0..5 {
        ed.step(Key::Up, &history);
    }
    assert_eq!(ed.hist_pos, 0);
    assert_eq!(ed.text, chars("first"));
}

#[test]
fn repeated_down_keeps_the_live_buffer() {
    let mut history = HistoryStore::new();
    history.append(record("first"));
    let mut ed = Editor::new(&history);
    type_line(&mut ed, &history, "draft");
    ed.step(Key::Up, &history);
    assert_eq!(ed.text, chars("first"));
    for _ in 0..4 {
        ed.step(Key::Down, &history);
    }
    assert_eq!(ed.hist_pos, 1);
    assert_eq!(ed.text, chars("draft"));
}

#[test]
fn typing_a_dollar_records_a_marker() {
    let history = HistoryStore::new();
    let mut ed = Editor::new(&history);
    type_line(&mut ed, &history, "echo $X");
    let (line, markers) = ed.finalize();
    assert_eq!(line, chars("echo $X"));
    assert_eq!(markers, vec![5]);
}

#[test]
fn markers_move_with_edits_before_them() {
    let history = HistoryStore::new();
    let mut ed = Editor::new(&history);
    type_line(&mut ed, &history, "$X");
    ed.step(Key::Left, &history);
    ed.step(Key::Left, &history);
    ed.step(Key::Char('a'), &history);
    assert_eq!(ed.text, chars("a$X"));
    let (_, markers) = ed.finalize();
    assert_eq!(markers, vec![1]);
}

#[test]
fn deleting_a_dollar_drops_its_marker() {
    let history = HistoryStore::new();
    let mut ed = Editor::new(&history);
    type_line(&mut ed, &history, "a$");
    ed.step(Key::Backspace, &history);
    assert_eq!(ed.text, chars("a"));
    let (_, markers) = ed.finalize();
    assert!(markers.is_empty());
}

#[test]
fn escaped_dollar_is_not_a_marker() {
    let history = HistoryStore::new();
    let mut ed = Editor::new(&history);
    type_line(&mut ed, &history, "echo \\$X");
    let out = ed.step(Key::Enter, &history);
    assert_eq!(out, StepOutcome::Continued);
    assert_eq!(ed.text, chars("echo $X"));
    let (_, markers) = ed.finalize();
    assert!(markers.is_empty());
}

#[test]
fn enter_without_escape_submits() {
    let history = HistoryStore::new();
    let mut ed = Editor::new(&history);
    type_line(&mut ed, &history, "ls");
    let out = ed.step(Key::Enter, &history);
    assert_eq!(out, StepOutcome::Submitted);
    let (line, markers) = ed.finalize();
    assert_eq!(line, chars("ls"));
    assert!(markers.is_empty());
}

#[test]
fn finalize_trims_surrounding_whitespace() {
    let history = HistoryStore::new();
    let mut ed = Editor::new(&history);
    type_line(&mut ed, &history, "   hi there  ");
    let (line, _) = ed.finalize();
    assert_eq!(line, chars("hi there"));
}

#[test]
fn finalize_adjusts_markers_for_the_trimmed_prefix() {
    let history = HistoryStore::new();
    let mut ed = Editor::new(&history);
    type_line(&mut ed, &history, "  $X");
    let (line, markers) = ed.finalize();
    assert_eq!(line, chars("$X"));
    assert_eq!(markers, vec![0]);
}

#[test]
fn recalled_command_has_its_dollars_as_markers() {
    let mut history = HistoryStore::new();
    history.append(record("echo $A"));
    let mut ed = Editor::new(&history);
    ed.step(Key::Up, &history);
    assert_eq!(ed.text, chars("echo $A"));
    let (_, markers) = ed.finalize();
    assert_eq!(markers, vec![5]);
}

#[test]
fn typing_leaves_history_browsing() {
    let mut history = HistoryStore::new();
    history.append(record("first"));
    let mut ed = Editor::new(&history);
    ed.step(Key::Up, &history);
    assert_eq!(ed.hist_pos, 0);
    ed.step(Key::Char('x'), &history);
    assert_eq!(ed.hist_pos, 1);
}
