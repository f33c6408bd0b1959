//! The line editor: an editable buffer with an insertion cursor, driven one
//! key event at a time, with history browsing and substitution-marker
//! bookkeeping.
//!
//! Substitution markers are kept as a vector of flags parallel to the text:
//! `marked[i]` says that the `$` at offset `i` was accepted as a live
//! substitution site. Edits move the flags together with the characters, so
//! marker offsets survive cursor edits; `finalize` turns the flags into the
//! ascending offset list that the expander consumes.

use vstd::prelude::*;
use crate::history::HistoryStore;
use crate::text::{start_trim, end_trim, trim_spec, copy_range, trim_start_index, trim_end_index};

verus! {

/// A key event, as the terminal driver hands it over. Any event outside this
/// alphabet is mapped to `Other`, which the editor ignores.
#[derive(Clone, Copy, PartialEq, Eq, Structural, Debug)]
pub enum Key {
    Char(char),
    Backspace,
    Enter,
    Up,
    Down,
    Left,
    Right,
    Other,
}

/// What a key did to the line being edited.
#[derive(Clone, Copy, PartialEq, Eq, Structural, Debug)]
pub enum StepOutcome {
    /// Keep reading keys.
    Editing,
    /// Enter on a line with no pending escape: the line is finished.
    Submitted,
    /// Enter consumed a pending backslash escape: the command continues on a
    /// fresh line.
    Continued,
}

/// The line editor's state. `text` and `marked` always have the same length;
/// a set flag marks a live `$`. While the user browses history, `stash_text`
/// and `stash_marked` hold the live input to return to.
pub struct Editor {
    pub text: Vec<char>,
    pub marked: Vec<bool>,
    pub cursor: usize,
    pub pending_escape: bool,
    pub escape_pos: usize,
    pub hist_pos: usize,
    pub stash_text: Vec<char>,
    pub stash_marked: Vec<bool>,
}

/// Marker flags for a recalled command: every `$` in it is a substitution
/// site.
pub open spec fn scan_flags_spec(s: Seq<char>) -> Seq<bool> {
    Seq::new(s.len(), |i: int| s[i] == '$')
}

/// The ascending offsets of the set flags among the first `i` entries.
pub open spec fn offsets_upto(marked: Seq<bool>, i: int) -> Seq<usize>
    recommends
        0 <= i <= marked.len(),
    decreases i,
{
    if i <= 0 {
        Seq::empty()
    } else {
        let rest = offsets_upto(marked, i - 1);
        if marked[i - 1] {
            rest.push((i - 1) as usize)
        } else {
            rest
        }
    }
}

/// The ascending offsets of all set flags.
pub open spec fn marker_offsets(marked: Seq<bool>) -> Seq<usize> {
    offsets_upto(marked, marked.len() as int)
}

pub proof fn lemma_offsets_upto_wf(marked: Seq<bool>, i: int)
    requires
        0 <= i <= marked.len() <= usize::MAX,
    ensures
        forall|k: int|
            0 <= k < offsets_upto(marked, i).len() ==> #[trigger] offsets_upto(marked, i)[k] < i
                && marked[offsets_upto(marked, i)[k] as int],
        forall|k: int, l: int|
            0 <= k < l < offsets_upto(marked, i).len() ==> offsets_upto(marked, i)[k]
                < offsets_upto(marked, i)[l],
    decreases i,
{
    if i > 0 {
        lemma_offsets_upto_wf(marked, i - 1);
        let rest = offsets_upto(marked, i - 1);
        let cur = offsets_upto(marked, i);
        if marked[i - 1] {
            assert(cur == rest.push((i - 1) as usize));
            assert forall|k: int|
                0 <= k < cur.len() implies #[trigger] cur[k] < i && marked[cur[k] as int] by {
                if k < rest.len() {
                    assert(cur[k] == rest[k]);
                } else {
                    assert(cur[k] == (i - 1) as usize);
                }
            }
            assert forall|k: int, l: int| 0 <= k < l < cur.len() implies cur[k] < cur[l] by {
                if l < rest.len() {
                    assert(cur[k] == rest[k] && cur[l] == rest[l]);
                } else {
                    assert(cur[k] == rest[k] && cur[l] == (i - 1) as usize);
                    assert(rest[k] < i - 1);
                }
            }
        } else {
            assert(cur == rest);
        }
    }
}

impl Editor {
    /// Flag/text correspondence: equal lengths, and a set flag sits on a `$`.
    pub open spec fn flags_wf(text: Seq<char>, marked: Seq<bool>) -> bool {
        &&& marked.len() == text.len()
        &&& forall|i: int| 0 <= i < marked.len() && marked[i] ==> text[i] == '$'
    }

    /// Buffer well-formedness: the cursor stays inside the buffer, marker
    /// flags and stash flags correspond to their texts, and a pending escape
    /// points at its backslash.
    pub open spec fn buffer_wf(self) -> bool {
        &&& self.cursor <= self.text@.len()
        &&& Self::flags_wf(self.text@, self.marked@)
        &&& Self::flags_wf(self.stash_text@, self.stash_marked@)
        &&& self.pending_escape ==> self.escape_pos < self.text@.len()
            && self.text@[self.escape_pos as int] == '\\'
    }

    /// Well-formedness against a history of `hist_len` records: the buffer is
    /// well formed and the history position stays in `[0, hist_len]`
    /// (`hist_len` meaning: not browsing, the buffer is live input).
    pub open spec fn wf(self, hist_len: nat) -> bool {
        &&& self.buffer_wf()
        &&& self.hist_pos <= hist_len
    }

    /// A fresh editor over an empty buffer, not browsing history.
    pub fn new(history: &HistoryStore) -> (r: Editor)
        ensures
            r.wf(history@.len()),
            r.text@.len() == 0,
            r.cursor == 0,
            r.hist_pos == history@.len(),
            !r.pending_escape,
    {
        Editor {
            text: Vec::new(),
            marked: Vec::new(),
            cursor: 0,
            pending_escape: false,
            escape_pos: 0,
            hist_pos: history.len(),
            stash_text: Vec::new(),
            stash_marked: Vec::new(),
        }
    }

    /// Inserts `c` at the cursor and advances it. A backslash opens a pending
    /// escape at its own offset; a `$` typed with no escape pending becomes a
    /// live substitution site. Typing leaves history browsing.
    fn key_char(&mut self, c: char, hist_len: usize)
        requires
            old(self).wf(hist_len as nat),
            old(self).text@.len() < usize::MAX,
        ensures
            final(self).wf(hist_len as nat),
            final(self).text@ == old(self).text@.insert(old(self).cursor as int, c),
            final(self).marked@ == old(self).marked@.insert(
                old(self).cursor as int,
                c == '$' && !old(self).pending_escape,
            ),
            final(self).cursor == old(self).cursor + 1,
            final(self).hist_pos == hist_len,
            final(self).pending_escape == (c == '\\' || old(self).pending_escape),
            c == '\\' ==> final(self).escape_pos == old(self).cursor,
            final(self).stash_text@ == old(self).stash_text@,
            final(self).stash_marked@ == old(self).stash_marked@,
    {
        let ghost text0 = self.text@;
        let ghost marked0 = self.marked@;
        let make = c == '$' && !self.pending_escape;
        self.text.insert(self.cursor, c);
        self.marked.insert(self.cursor, make);
        if c == '\\' {
            self.pending_escape = true;
            self.escape_pos = self.cursor;
        } else if self.pending_escape && self.escape_pos >= self.cursor {
            self.escape_pos = self.escape_pos + 1;
        }
        self.cursor = self.cursor + 1;
        self.hist_pos = hist_len;
        proof {
            assert forall|i: int|
                0 <= i < self.marked@.len() && self.marked@[i] implies self.text@[i] == '$' by {
                let cur = old(self).cursor as int;
                if i < cur {
                    assert(self.marked@[i] == marked0[i]);
                    assert(self.text@[i] == text0[i]);
                } else if i > cur {
                    assert(self.marked@[i] == marked0[i - 1]);
                    assert(self.text@[i] == text0[i - 1]);
                }
            }
        }
    }

    /// Deletes the character before the cursor and moves the cursor back.
    /// With an empty buffer, or the cursor at the start, nothing changes.
    /// A deletion leaves history browsing; deleting the pending backslash
    /// cancels the escape.
    fn key_backspace(&mut self, hist_len: usize)
        requires
            old(self).wf(hist_len as nat),
        ensures
            final(self).wf(hist_len as nat),
            old(self).text@.len() == 0 ==> *final(self) == *old(self),
            old(self).cursor == 0 ==> *final(self) == *old(self),
            old(self).text@.len() > 0 && old(self).cursor > 0 ==> {
                &&& final(self).text@ == old(self).text@.remove(old(self).cursor - 1)
                &&& final(self).marked@ == old(self).marked@.remove(old(self).cursor - 1)
                &&& final(self).cursor == old(self).cursor - 1
                &&& final(self).hist_pos == hist_len
            },
            final(self).stash_text@ == old(self).stash_text@,
            final(self).stash_marked@ == old(self).stash_marked@,
    {
        if self.text.len() > 0 && self.cursor > 0 {
            let ghost text0 = self.text@;
            let ghost marked0 = self.marked@;
            let pos = self.cursor - 1;
            self.text.remove(pos);
            self.marked.remove(pos);
            if self.pending_escape {
                if self.escape_pos == pos {
                    self.pending_escape = false;
                } else if self.escape_pos > pos {
                    self.escape_pos = self.escape_pos - 1;
                }
            }
            self.cursor = pos;
            self.hist_pos = hist_len;
            proof {
                assert forall|i: int|
                    0 <= i < self.marked@.len() && self.marked@[i] implies self.text@[i] == '$' by {
                    if i < pos {
                        assert(self.marked@[i] == marked0[i]);
                        assert(self.text@[i] == text0[i]);
                    } else {
                        assert(self.marked@[i] == marked0[i + 1]);
                        assert(self.text@[i] == text0[i + 1]);
                    }
                }
            }
        }
    }

    /// Moves the cursor one place left; a no-op at offset 0.
    fn key_left(&mut self)
        requires
            old(self).cursor <= old(self).text@.len(),
        ensures
            final(self).cursor == cursor_after_move(old(self).cursor as nat, old(self).text@.len(), Key::Left),
            *final(self) == (Editor { cursor: final(self).cursor, ..*old(self) }),
    {
        if self.text.len() > 0 && self.cursor > 0 {
            self.cursor = self.cursor - 1;
        }
    }

    /// Moves the cursor one place right; a no-op at the end of the buffer.
    fn key_right(&mut self)
        requires
            old(self).cursor <= old(self).text@.len(),
        ensures
            final(self).cursor == cursor_after_move(old(self).cursor as nat, old(self).text@.len(), Key::Right),
            *final(self) == (Editor { cursor: final(self).cursor, ..*old(self) }),
    {
        if self.text.len() > 0 && self.cursor < self.text.len() {
            self.cursor = self.cursor + 1;
        }
    }

    /// Replaces the buffer with `cmd`, the cursor at its end, every `$` in it
    /// a substitution site, and no pending escape.
    fn load_command(&mut self, cmd: &Vec<char>)
        ensures
            final(self).text@ == cmd@,
            final(self).marked@ == scan_flags_spec(cmd@),
            final(self).cursor == cmd@.len(),
            !final(self).pending_escape,
            final(self).hist_pos == old(self).hist_pos,
            final(self).stash_text@ == old(self).stash_text@,
            final(self).stash_marked@ == old(self).stash_marked@,
            Self::flags_wf(final(self).text@, final(self).marked@),
    {
        let mut text: Vec<char> = Vec::new();
        let mut marked: Vec<bool> = Vec::new();
        let mut i: usize = 0;
        while i < cmd.len()
            invariant
                0 <= i <= cmd@.len(),
                text@ == cmd@.take(i as int),
                marked@ == scan_flags_spec(cmd@).take(i as int),
            decreases cmd@.len() - i,
        {
            text.push(cmd[i]);
            marked.push(cmd[i] == '$');
            assert(text@ =~= cmd@.take(i as int + 1));
            assert(marked@ =~= scan_flags_spec(cmd@).take(i as int + 1));
            i = i + 1;
        }
        assert(text@ =~= cmd@);
        assert(marked@ =~= scan_flags_spec(cmd@));
        self.text = text;
        self.marked = marked;
        self.cursor = self.text.len();
        self.pending_escape = false;
    }

    /// Moves one step back in history. At position 0 nothing changes; when
    /// browsing begins, the live buffer is stashed first.
    fn key_up(&mut self, history: &HistoryStore)
        requires
            old(self).wf(history@.len()),
        ensures
            final(self).wf(history@.len()),
            old(self).hist_pos == 0 ==> *final(self) == *old(self),
            old(self).hist_pos > 0 ==> {
                &&& final(self).hist_pos == old(self).hist_pos - 1
                &&& final(self).text@ == history@[old(self).hist_pos - 1].command@
                &&& final(self).marked@ == scan_flags_spec(final(self).text@)
                &&& final(self).cursor == final(self).text@.len()
                &&& !final(self).pending_escape
                &&& (old(self).hist_pos == history@.len() ==> final(self).stash_text@ == old(self).text@ && final(self).stash_marked@ == old(self).marked@)
                &&& (old(self).hist_pos < history@.len() ==> final(self).stash_text@ == old(self).stash_text@ && final(self).stash_marked@ == old(self).stash_marked@)
            },
    {
        if self.hist_pos > 0 {
            if self.hist_pos == history.len() {
                let mut text: Vec<char> = Vec::new();
                let mut marked: Vec<bool> = Vec::new();
                std::mem::swap(&mut text, &mut self.text);
                std::mem::swap(&mut marked, &mut self.marked);
                self.stash_text = text;
                self.stash_marked = marked;
            }
            self.hist_pos = self.hist_pos - 1;
            let cmd = history.command_at(self.hist_pos);
            let recalled = copy_range(cmd, 0, cmd.len());
            proof {
                assert(recalled@ =~= history@[self.hist_pos as int].command@);
            }
            self.load_command(&recalled);
        }
    }

    /// Moves one step forward in history. Reaching the upper bound restores
    /// the stashed live buffer; at the upper bound nothing changes, so
    /// browsing never indexes past the end.
    fn key_down(&mut self, history: &HistoryStore)
        requires
            old(self).wf(history@.len()),
        ensures
            final(self).wf(history@.len()),
            old(self).hist_pos == history@.len() ==> *final(self) == *old(self),
            old(self).hist_pos < history@.len() ==> {
                &&& final(self).hist_pos == old(self).hist_pos + 1
                &&& (old(self).hist_pos + 1 < history@.len() ==> final(self).text@ == history@[old(self).hist_pos + 1].command@ && final(self).marked@ == scan_flags_spec(final(self).text@))
                &&& (old(self).hist_pos + 1 == history@.len() ==> final(self).text@ == old(self).stash_text@ && final(self).marked@ == old(self).stash_marked@)
                &&& final(self).cursor == final(self).text@.len()
                &&& !final(self).pending_escape
            },
    {
        if self.hist_pos < history.len() {
            self.hist_pos = self.hist_pos + 1;
            if self.hist_pos == history.len() {
                let mut text: Vec<char> = Vec::new();
                let mut marked: Vec<bool> = Vec::new();
                std::mem::swap(&mut text, &mut self.stash_text);
                std::mem::swap(&mut marked, &mut self.stash_marked);
                self.text = text;
                self.marked = marked;
                self.cursor = self.text.len();
                self.pending_escape = false;
            } else {
                let cmd = history.command_at(self.hist_pos);
                let recalled = copy_range(cmd, 0, cmd.len());
                proof {
                    assert(recalled@ =~= history@[self.hist_pos as int].command@);
                }
                self.load_command(&recalled);
            }
        }
    }

    /// Enter: with a pending escape, the marked backslash is removed from the
    /// buffer and the command continues on a new line; otherwise the line is
    /// finished.
    fn key_enter(&mut self) -> (r: StepOutcome)
        requires
            old(self).buffer_wf(),
        ensures
            final(self).buffer_wf(),
            !final(self).pending_escape,
            final(self).hist_pos == old(self).hist_pos,
            !old(self).pending_escape ==> r == StepOutcome::Submitted && *final(self) == *old(self),
            old(self).pending_escape ==> {
                &&& r == StepOutcome::Continued
                &&& final(self).text@ == old(self).text@.remove(old(self).escape_pos as int)
                &&& final(self).marked@ == old(self).marked@.remove(old(self).escape_pos as int)
            },
            final(self).stash_text@ == old(self).stash_text@,
            final(self).stash_marked@ == old(self).stash_marked@,
    {
        if self.pending_escape {
            let ghost text0 = self.text@;
            let ghost marked0 = self.marked@;
            let pos = self.escape_pos;
            self.text.remove(pos);
            self.marked.remove(pos);
            if self.cursor > pos {
                self.cursor = self.cursor - 1;
            }
            self.pending_escape = false;
            proof {
                assert forall|i: int|
                    0 <= i < self.marked@.len() && self.marked@[i] implies self.text@[i] == '$' by {
                    if i < pos {
                        assert(self.marked@[i] == marked0[i]);
                        assert(self.text@[i] == text0[i]);
                    } else {
                        assert(self.marked@[i] == marked0[i + 1]);
                        assert(self.text@[i] == text0[i + 1]);
                    }
                }
            }
            StepOutcome::Continued
        } else {
            StepOutcome::Submitted
        }
    }

    /// Feeds one key event to the editor. The buffer, cursor, marker flags
    /// and history position change as the per-key contracts above say; this
    /// contract restates the clamping laws: backspace on an empty buffer
    /// changes nothing, cursor moves stay within the buffer, Up at position 0
    /// stays at 0, and Down at the history length keeps the live buffer.
    pub fn step(&mut self, key: Key, history: &HistoryStore) -> (r: StepOutcome)
        requires
            old(self).wf(history@.len()),
            old(self).text@.len() < usize::MAX,
        ensures
            final(self).wf(history@.len()),
            key == Key::Backspace && old(self).text@.len() == 0 ==> *final(self) == *old(self),
            (key == Key::Left || key == Key::Right) ==> final(self).cursor == cursor_after_move(
                old(self).cursor as nat,
                old(self).text@.len(),
                key,
            ) && final(self).text@ == old(self).text@,
            key == Key::Up && old(self).hist_pos == 0 ==> *final(self) == *old(self),
            key == Key::Down && old(self).hist_pos == history@.len() ==> *final(self) == *old(self),
            key == Key::Up && old(self).hist_pos > 0 ==> final(self).hist_pos == old(self).hist_pos - 1 && final(self).text@ == history@[old(self).hist_pos - 1].command@
                && final(self).marked@ == scan_flags_spec(final(self).text@),
            key == Key::Down && old(self).hist_pos < history@.len() ==> final(self).hist_pos == old(self).hist_pos + 1,
            key == Key::Up && old(self).hist_pos == history@.len() && old(self).hist_pos > 0 ==>
                final(self).stash_text@ == old(self).text@,
            key == Key::Down && old(self).hist_pos + 1 == history@.len() ==> final(self).text@
                == old(self).stash_text@,
            (match key {
                Key::Char(c) => {
                    &&& final(self).text@ == old(self).text@.insert(old(self).cursor as int, c)
                    &&& final(self).cursor == old(self).cursor + 1
                    &&& final(self).marked@ == old(self).marked@.insert(
                        old(self).cursor as int,
                        c == '$' && !old(self).pending_escape,
                    )
                    &&& final(self).hist_pos == history@.len()
                    &&& final(self).pending_escape == (c == '\\' || old(self).pending_escape)
                    &&& (c == '\\' ==> final(self).escape_pos == old(self).cursor)
                },
                _ => true,
            }),
            key == Key::Backspace && old(self).text@.len() > 0 && old(self).cursor > 0 ==> {
                &&& final(self).text@ == old(self).text@.remove(old(self).cursor - 1)
                &&& final(self).cursor == old(self).cursor - 1
                &&& final(self).hist_pos == history@.len()
            },
            key == Key::Enter && !old(self).pending_escape ==> r == StepOutcome::Submitted
                && *final(self) == *old(self),
            key == Key::Enter && old(self).pending_escape ==> r == StepOutcome::Continued && final(self).text@ == old(self).text@.remove(old(self).escape_pos as int),
            key == Key::Other ==> *final(self) == *old(self),
            r != StepOutcome::Editing ==> key == Key::Enter,
    {
        match key {
            Key::Char(c) => {
                self.key_char(c, history.len());
                StepOutcome::Editing
            },
            Key::Backspace => {
                self.key_backspace(history.len());
                StepOutcome::Editing
            },
            Key::Enter => self.key_enter(),
            Key::Up => {
                self.key_up(history);
                StepOutcome::Editing
            },
            Key::Down => {
                self.key_down(history);
                StepOutcome::Editing
            },
            Key::Left => {
                self.key_left();
                StepOutcome::Editing
            },
            Key::Right => {
                self.key_right();
                StepOutcome::Editing
            },
            Key::Other => StepOutcome::Editing,
        }
    }

    /// The finished line: the buffer without surrounding whitespace, together
    /// with the ascending offsets of the live `$` sites within it. The
    /// offsets are strictly increasing and each points at a `$`, which is
    /// what the expander requires.
    pub fn finalize(&self) -> (r: (Vec<char>, Vec<usize>))
        requires
            self.buffer_wf(),
        ensures
            r.0@ == trim_spec(self.text@),
            r.1@ == marker_offsets(
                self.marked@.subrange(
                    start_trim(self.text@, 0),
                    if start_trim(self.text@, 0) <= end_trim(self.text@, self.text@.len() as int) {
                        end_trim(self.text@, self.text@.len() as int)
                    } else {
                        start_trim(self.text@, 0)
                    },
                ),
            ),
            forall|k: int, l: int| 0 <= k < l < r.1@.len() ==> r.1@[k] < r.1@[l],
            forall|k: int| 0 <= k < r.1@.len() ==> r.1@[k] < r.0@.len() && r.0@[r.1@[k] as int]
                == '$',
    {
        let ghost s = self.text@;
        let start = trim_start_index(&self.text);
        let end = trim_end_index(&self.text);
        let hi = if start <= end {
            end
        } else {
            start
        };
        let trimmed = copy_range(&self.text, start, hi);
        proof {
            assert(trimmed@ =~= trim_spec(s));
        }
        let ghost flags = self.marked@.subrange(start as int, hi as int);
        let mut offsets: Vec<usize> = Vec::new();
        let mut i: usize = start;
        while i < hi
            invariant
                start <= i <= hi <= self.marked@.len(),
                self.marked@.len() == s.len(),
                flags == self.marked@.subrange(start as int, hi as int),
                offsets@ == offsets_upto(flags, i as int - start as int),
            decreases hi - i,
        {
            if self.marked[i] {
                offsets.push(i - start);
            }
            proof {
                assert(flags[i as int - start as int] == self.marked@[i as int]);
                assert(offsets@ =~= offsets_upto(flags, i as int + 1 - start as int));
            }
            i = i + 1;
        }
        proof {
            lemma_offsets_upto_wf(flags, flags.len() as int);
            assert forall|k: int| 0 <= k < offsets@.len() implies offsets@[k] < trimmed@.len()
                && trimmed@[offsets@[k] as int] == '$' by {
                assert(flags[offsets@[k] as int] == self.marked@[offsets@[k] + start]);
                assert(trimmed@[offsets@[k] as int] == self.text@[offsets@[k] + start]);
            }
        }
        (trimmed, offsets)
    }
}

/// Where a clamped one-step cursor move lands: Left and Right move by one
/// inside `[0, len]`, every other key leaves the cursor alone.
pub open spec fn cursor_after_move(cursor: nat, len: nat, key: Key) -> nat {
    if key == Key::Left {
        if cursor > 0 {
            (cursor - 1) as nat
        } else {
            0
        }
    } else if key == Key::Right {
        if cursor < len {
            cursor + 1
        } else {
            cursor
        }
    } else {
        cursor
    }
}

/// Folding a whole key sequence of moves over the cursor.
pub open spec fn cursor_after_moves(cursor: nat, len: nat, keys: Seq<Key>) -> nat
    decreases keys.len(),
{
    if keys.len() == 0 {
        cursor
    } else {
        cursor_after_moves(cursor_after_move(cursor, len, keys.first()), len, keys.skip(1))
    }
}

/// For every sequence of Left/Right moves, the cursor stays within
/// `[0, len]`.
pub proof fn lemma_moves_stay_in_bounds(cursor: nat, len: nat, keys: Seq<Key>)
    requires
        cursor <= len,
    ensures
        cursor_after_moves(cursor, len, keys) <= len,
    decreases keys.len(),
{
    if keys.len() > 0 {
        lemma_moves_stay_in_bounds(cursor_after_move(cursor, len, keys.first()), len, keys.skip(1));
    }
}

} // verus!
