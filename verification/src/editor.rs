//! Non-blocking line editor with history.
//!
//! The editor acts on one key press at a time; the surrounding process
//! drains its key-event source and hands each press over as a plain `Key`.
//! The current line grows until a commit: committing appends a newline,
//! which is the signal the foreground loop watches for. History keeps
//! committed lines most-recent first, suppressing empty lines and
//! duplicates of the immediate predecessor; the scroll cursor surfaces
//! history entries into the line, with `0` meaning no recall is active.

use vstd::prelude::*;

verus! {

/// A key press the editor acts on.
#[derive(Debug, Clone, Copy, PartialEq, Eq, Structural)]
pub enum Key {
    /// A printable character.
    Char(char),
    /// Enter (or the control code for a line feed): commit the line.
    Enter,
    /// Remove the last character.
    Backspace,
    /// Interrupt: the caller must tear down and exit.
    CtrlC,
    /// Clear the line.
    CtrlU,
    /// Recall the next-older history entry.
    Up,
    /// Recall the next-newer history entry, down to an empty line.
    Down,
    /// Clear the line and leave recall.
    Esc,
    /// Any other key: ignored.
    Other,
}

/// What the caller must do after a key was handled.
#[derive(Debug, Clone, Copy, PartialEq, Eq, Structural)]
pub enum EditorAction {
    /// Keep going.
    Continue,
    /// Tear the terminal down and exit the process.
    Exit,
}

/// Line editor state: the line being typed, the committed history
/// (most recent first), and the history recall cursor.
pub struct Editor {
    pub line: Vec<char>,
    pub history: Vec<Vec<char>>,
    pub scroll: usize,
}

fn chars_eq(a: &Vec<char>, b: &Vec<char>) -> (r: bool)
    ensures
        r == (a@ == b@),
{
    if a.len() != b.len() {
        return false;
    }
    let mut i: usize = 0;
    while i < a.len()
        invariant
            i <= a@.len(),
            a@.len() == b@.len(),
            forall|k: int| 0 <= k < i ==> a@[k] == b@[k],
        decreases a@.len() - i,
    {
        if a[i] != b[i] {
            return false;
        }
        i = i + 1;
    }
    proof {
        assert(a@ =~= b@);
    }
    true
}

fn copy_chars(v: &Vec<char>) -> (r: Vec<char>)
    ensures
        r@ == v@,
{
    let mut out: Vec<char> = Vec::new();
    let mut i: usize = 0;
    while i < v.len()
        invariant
            i <= v@.len(),
            out@ == v@.subrange(0, i as int),
        decreases v@.len() - i,
    {
        out.push(v[i]);
        proof {
            assert(out@ =~= v@.subrange(0, i + 1));
        }
        i = i + 1;
    }
    proof {
        assert(out@ =~= v@);
    }
    out
}

impl Editor {
    /// The history as a sequence of lines, most recent first.
    pub open spec fn spec_history(&self) -> Seq<Seq<char>> {
        self.history@.map_values(|v: Vec<char>| v@)
    }

    /// The recall cursor never points past the history.
    pub open spec fn wf(&self) -> bool {
        self.scroll <= self.history@.len()
    }

    /// Whether committing this line pushes it to history: empty lines and
    /// duplicates of the most recent entry are suppressed.
    pub open spec fn spec_commit_pushes(&self) -> bool {
        self.line@.len() > 0 && (self.spec_history().len() == 0 || self.spec_history()[0]
            != self.line@)
    }

    /// A fresh editor: empty line, no history, recall inactive.
    pub fn new() -> (r: Editor)
        ensures
            r.wf(),
            r.line@ == Seq::<char>::empty(),
            r.spec_history() == Seq::<Seq<char>>::empty(),
            r.scroll == 0,
    {
        let r = Editor { line: Vec::new(), history: Vec::new(), scroll: 0 };
        proof {
            assert(r.spec_history() =~= Seq::<Seq<char>>::empty());
        }
        r
    }

    /// Whether the line carries a commit signal (a trailing newline).
    pub fn line_committed(&self) -> (r: bool)
        ensures
            r == (self.line@.len() > 0 && self.line@.last() == '\n'),
    {
        if self.line.len() == 0 {
            return false;
        }
        self.line[self.line.len() - 1] == '\n'
    }

    /// Act on one key press.
    ///
    /// Enter pushes a non-empty line that differs from the most recent
    /// history entry to the front of history, resets recall, and appends
    /// the newline commit signal. Up surfaces the history entry under the
    /// recall cursor and moves the cursor one older; Down moves it one
    /// newer, reaching an empty line again. Backspace drops the last
    /// character; a clear key empties the line and resets recall.
    pub fn handle_key(&mut self, key: Key) -> (r: EditorAction)
        requires
            old(self).wf(),
        ensures
            final(self).wf(),
            match key {
                Key::CtrlC => r == EditorAction::Exit && *final(self) == *old(self),
                Key::Char(c) => r == EditorAction::Continue && final(self).line@ == old(self).line@.push(c) && final(self).spec_history() == old(self).spec_history() && final(self).scroll == old(self).scroll,
                Key::Enter => r == EditorAction::Continue && final(self).line@ == old(self).line@.push('\n') && final(self).scroll == 0 && final(self).spec_history() == (
                if old(self).spec_commit_pushes() {
                    seq![old(self).line@] + old(self).spec_history()
                } else {
                    old(self).spec_history()
                }),
                Key::Backspace => r == EditorAction::Continue && final(self).line@ == (if old(self).line@.len() > 0 {
                    old(self).line@.take(old(self).line@.len() - 1)
                } else {
                    Seq::<char>::empty()
                }) && final(self).spec_history() == old(self).spec_history() && final(self).scroll == old(self).scroll,
                Key::CtrlU => r == EditorAction::Continue && final(self).line@ == Seq::<
                    char,
                >::empty() && final(self).scroll == 0 && final(self).spec_history() == old(self).spec_history(),
                Key::Esc => r == EditorAction::Continue && final(self).line@ == Seq::<
                    char,
                >::empty() && final(self).scroll == 0 && final(self).spec_history() == old(self).spec_history(),
                Key::Up => r == EditorAction::Continue && final(self).spec_history() == old(self).spec_history() && (if old(self).scroll < old(self).spec_history().len() {
                    final(self).line@ == old(self).spec_history()[old(self).scroll as int] && final(self).scroll == old(self).scroll + 1
                } else {
                    *final(self) == *old(self)
                }),
                Key::Down => r == EditorAction::Continue && final(self).spec_history() == old(self).spec_history() && (if old(self).scroll <= 1 {
                    final(self).line@ == Seq::<char>::empty() && final(self).scroll == 0
                } else {
                    final(self).line@ == old(self).spec_history()[old(self).scroll - 2] && final(self).scroll == old(self).scroll - 1
                }),
                Key::Other => r == EditorAction::Continue && *final(self) == *old(self),
            },
    {
        match key {
            Key::CtrlC => EditorAction::Exit,
            Key::Char(c) => {
                self.line.push(c);
                EditorAction::Continue
            },
            Key::Enter => {
                let ghost history_before = self.spec_history();
                let push_it = if self.line.len() == 0 {
                    false
                } else if self.history.len() == 0 {
                    true
                } else {
                    !chars_eq(&self.history[0], &self.line)
                };
                if push_it {
                    let committed = copy_chars(&self.line);
                    self.history.insert(0, committed);
                    proof {
                        assert(self.spec_history() =~= seq![old(self).line@] + history_before);
                    }
                }
                self.scroll = 0;
                self.line.push('\n');
                EditorAction::Continue
            },
            Key::Backspace => {
                let _ = self.line.pop();
                EditorAction::Continue
            },
            Key::CtrlU => {
                self.line.clear();
                self.scroll = 0;
                EditorAction::Continue
            },
            Key::Esc => {
                self.line.clear();
                self.scroll = 0;
                EditorAction::Continue
            },
            Key::Up => {
                if self.scroll < self.history.len() {
                    self.line = copy_chars(&self.history[self.scroll]);
                    self.scroll = self.scroll + 1;
                }
                EditorAction::Continue
            },
            Key::Down => {
                if self.scroll <= 1 {
                    self.line.clear();
                    self.scroll = 0;
                } else {
                    self.line = copy_chars(&self.history[self.scroll - 2]);
                    self.scroll = self.scroll - 1;
                }
                EditorAction::Continue
            },
            Key::Other => EditorAction::Continue,
        }
    }
}

} // verus!
