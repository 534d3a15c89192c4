//! Modal editor state: normal-mode motions and edits over a character buffer.
//! Insert mode is left to the host text area; its text comes back on Escape.
//! Positions are character indices into the buffer.

use vstd::prelude::*;
use crate::keymap::{
    line_start, line_end, lemma_line_start, lemma_line_end, rests, clamped, insert_left,
    line_moved, skip_word, skip_space, back_space, back_word, word_forward, word_backward,
    snapshot, line_deleted, entered_insert, key_step, command_action, loaded, lemma_snapshot_wf,
    lemma_key_step_wf, lemma_clamped_rests,
};
use crate::text::{chars_of, char_is_whitespace, str_is, string_of, trim_bounds};

verus! {

broadcast use vstd::string::group_string_axioms;

/// The editor's mode.
#[derive(Clone, Copy, PartialEq, Eq, Debug, Structural)]
pub enum Mode {
    Normal,
    Insert,
    Command,
}

/// What the host has to do after a key or a command.
#[derive(Debug, PartialEq)]
pub enum Act {
    Nothing,
    Insert,
    Command,
    Write,
    Quit,
    WriteQuit,
    Edit(String),
    Unknown(String),
}

/// The mathematical value of an `Act`: its strings as character sequences.
pub enum Action {
    Nothing,
    Insert,
    Command,
    Write,
    Quit,
    WriteQuit,
    Edit(Seq<char>),
    Unknown(Seq<char>),
}

impl View for Act {
    type V = Action;

    open spec fn view(&self) -> Action {
        match self {
            Act::Nothing => Action::Nothing,
            Act::Insert => Action::Insert,
            Act::Command => Action::Command,
            Act::Write => Action::Write,
            Act::Quit => Action::Quit,
            Act::WriteQuit => Action::WriteQuit,
            Act::Edit(s) => Action::Edit(s@),
            Act::Unknown(s) => Action::Unknown(s@),
        }
    }
}

/// The number of undo snapshots kept; the oldest is dropped beyond it.
pub const HIST_MAX: usize = 200;

/// The editor: a buffer, a cursor, a mode, a half-typed two-key command and
/// the undo history of (buffer, cursor) snapshots.
pub struct Ed {
    pub text: Vec<char>,
    pub cur: usize,
    pub mode: Mode,
    pending: Option<char>,
    hist: Vec<(Vec<char>, usize)>,
}

/// The abstract state of an editor.
#[verifier::ext_equal]
pub struct EdState {
    pub text: Seq<char>,
    pub cur: int,
    pub mode: Mode,
    pub pending: Option<char>,
    pub hist: Seq<(Seq<char>, int)>,
}

impl EdState {
    pub open spec fn with_cur(self, c: int) -> EdState {
        EdState { cur: c, ..self }
    }
}

/// The buffer, cursor and mode are the public fields; the pending first key of a
/// two-key command and the history are kept private.
impl View for Ed {
    type V = EdState;

    closed spec fn view(&self) -> EdState {
        EdState {
            text: self.text@,
            cur: self.cur as int,
            mode: self.mode,
            pending: self.pending,
            hist: self.hist@.map_values(|e: (Vec<char>, usize)| (e.0@, e.1 as int)),
        }
    }
}

/// A state the editor can be in: the cursor is within the buffer, each snapshot's
/// cursor is within its buffer, and at most `HIST_MAX` snapshots are kept.
pub open spec fn state_wf(s: EdState) -> bool {
    &&& 0 <= s.cur <= s.text.len()
    &&& s.hist.len() <= HIST_MAX
    &&& forall|i: int| 0 <= i < s.hist.len() ==> 0 <= #[trigger] s.hist[i].1 <= s.hist[i].0.len()
}

impl Ed {
    pub open spec fn wf(&self) -> bool {
        state_wf(self@)
    }
}

impl Ed {
    /// An empty buffer in normal mode.
    pub fn new() -> (e: Self)
        ensures
            e@ == loaded(Seq::empty()),
            e.wf(),
    {
        Ed { text: Vec::new(), cur: 0, mode: Mode::Normal, pending: None, hist: Vec::new() }
    }

    /// Replace the whole state by a fresh buffer holding `s`.
    pub fn load(&mut self, s: &str)
        ensures
            final(self)@ == loaded(s@),
            final(self).wf(),
    {
        let e = Ed::new();
        *self = Ed { text: chars_of(s), ..e };
    }

    /// The buffer as a string.
    pub fn string(&self) -> (s: String)
        ensures
            s@ == self@.text,
    {
        string_of(&self.text)
    }

    /// Called on Escape: take the text area's text and caret, and step left like vim.
    pub fn leave_insert(&mut self, s: &str, caret: usize)
        ensures
            final(self)@ == (EdState {
                text: s@,
                cur: insert_left(s@, caret as int),
                mode: Mode::Normal,
                ..old(self)@
            }),
            old(self).wf() ==> final(self).wf(),
    {
        self.text = chars_of(s);
        let caret = if caret < self.text.len() { caret } else { self.text.len() };
        let ls = self.ls(caret);
        self.cur = if caret > ls { caret - 1 } else { caret };
        self.mode = Mode::Normal;
    }

    fn ls(&self, i: usize) -> (r: usize)
        requires
            i <= self.text@.len(),
        ensures
            r == line_start(self.text@, i as int),
    {
        let mut j = i;
        while j > 0 && self.text[j - 1] != '\n'
            invariant
                j <= i <= self.text@.len(),
                line_start(self.text@, j as int) == line_start(self.text@, i as int),
            decreases j,
        {
            j = j - 1;
        }
        j
    }

    fn le(&self, i: usize) -> (r: usize)
        requires
            i <= self.text@.len(),
        ensures
            r == line_end(self.text@, i as int),
    {
        let n = self.text.len();
        let mut j = i;
        while j < n && self.text[j] != '\n'
            invariant
                i <= j <= n,
                n == self.text@.len(),
                line_end(self.text@, j as int) == line_end(self.text@, i as int),
            decreases n - j,
        {
            j = j + 1;
        }
        j
    }

    /// Put the cursor where a normal-mode cursor rests: on a character, never on
    /// '\n' or past the end (unless the line is empty).
    pub fn clamp(&mut self)
        ensures
            final(self)@ == old(self)@.with_cur(clamped(old(self)@.text, old(self)@.cur)),
            rests(final(self)@.text, final(self)@.cur),
            old(self).wf() ==> final(self).wf(),
    {
        let n = self.text.len();
        if self.cur > n {
            self.cur = n;
        }
        let ls = self.ls(self.cur);
        if self.cur > ls && (self.cur == n || self.text[self.cur] == '\n') {
            self.cur = self.cur - 1;
        }
        proof {
            lemma_clamped_rests(old(self).text@, old(self).cur as int);
        }
    }
}

impl Ed {
    fn snap(&mut self)
        ensures
            final(self)@ == snapshot(old(self)@),
    {
        let t = self.text.clone();
        proof {
            assert forall|i: int| 0 <= i < t@.len() implies t@[i] == self.text@[i] by {
                assert(cloned::<char>(self.text[i], t[i]));
            }
            assert(t@ == self.text@);
        }
        let ghost h0 = self@.hist;
        self.hist.push((t, self.cur));
        let ghost h1 = h0.push((self@.text, self@.cur));
        assert(self@.hist == h1);
        if self.hist.len() > HIST_MAX {
            self.hist.remove(0);
            assert(self@.hist == h1.drop_first());
        }
    }

    fn move_line(&mut self, down: bool)
        requires
            old(self).wf(),
        ensures
            final(self)@ == old(self)@.with_cur(line_moved(old(self)@.text, old(self)@.cur, down)),
    {
        proof {
            lemma_line_start(self@.text, self@.cur);
            lemma_line_end(self@.text, self@.cur);
        }
        let ls = self.ls(self.cur);
        let col = self.cur - ls;
        let nls = if down {
            let le = self.le(self.cur);
            if le == self.text.len() {
                return ;
            }
            le + 1
        } else {
            if ls == 0 {
                return ;
            }
            proof {
                lemma_line_start(self@.text, ls - 1);
            }
            self.ls(ls - 1)
        };
        let nle = self.le(nls);
        proof {
            lemma_line_end(self@.text, nls as int);
        }
        self.cur = if col <= nle - nls { nls + col } else { nle };
        self.clamp();
    }

    fn word_fwd(&mut self)
        requires
            old(self).wf(),
        ensures
            final(self)@ == old(self)@.with_cur(word_forward(old(self)@.text, old(self)@.cur)),
    {
        let n = self.text.len();
        let ghost t = self@.text;
        let ghost c = self@.cur;
        let mut i = self.cur;
        while i < n && !char_is_whitespace(self.text[i])
            invariant
                n == t.len(),
                t == self@.text,
                c <= i <= n,
                skip_word(t, i as int) == skip_word(t, c),
            decreases n - i,
        {
            i = i + 1;
        }
        while i < n && char_is_whitespace(self.text[i])
            invariant
                n == t.len(),
                t == self@.text,
                i <= n,
                skip_space(t, i as int) == skip_space(t, skip_word(t, c)),
            decreases n - i,
        {
            i = i + 1;
        }
        self.cur = i;
        self.clamp();
    }

    fn word_back(&mut self)
        requires
            old(self).wf(),
        ensures
            final(self)@ == old(self)@.with_cur(word_backward(old(self)@.text, old(self)@.cur)),
    {
        let ghost t = self@.text;
        let ghost c = self@.cur;
        let mut i = self.cur;
        while i > 0 && char_is_whitespace(self.text[i - 1])
            invariant
                t == self@.text,
                i <= c <= t.len(),
                back_space(t, i as int) == back_space(t, c),
            decreases i,
        {
            i = i - 1;
        }
        while i > 0 && !char_is_whitespace(self.text[i - 1])
            invariant
                t == self@.text,
                i <= c <= t.len(),
                back_word(t, i as int) == word_backward(t, c),
            decreases i,
        {
            i = i - 1;
        }
        self.cur = i;
    }

    fn delete_line(&mut self)
        requires
            old(self).wf(),
        ensures
            final(self)@ == line_deleted(old(self)@),
    {
        proof {
            lemma_line_start(self@.text, self@.cur);
            lemma_line_end(self@.text, self@.cur);
        }
        let ls = self.ls(self.cur);
        let le = self.le(self.cur);
        let (from, to) = if le < self.text.len() {
            (ls, le + 1)
        } else {
            (if ls > 0 { ls - 1 } else { 0 }, le)
        };
        let ghost t = self@.text;
        let mut tail = self.text.split_off(to);
        self.text.truncate(from);
        self.text.append(&mut tail);
        assert(self@.text == t.subrange(0, from as int) + t.subrange(to as int, t.len() as int));
        let n = self.text.len();
        let f = if from < n { from } else { n };
        self.cur = self.ls(f);
        self.clamp();
    }

    fn insert(&mut self) -> (r: Act)
        ensures
            final(self)@ == entered_insert(old(self)@),
            r@ == Action::Insert,
    {
        self.snap();
        self.mode = Mode::Insert;
        Act::Insert
    }
}

impl Ed {
    /// Handle one normal-mode key, named as `KeyboardEvent.key` names it.
    pub fn key(&mut self, k: &str) -> (r: Act)
        requires
            old(self).wf(),
        ensures
            (final(self)@, r@) == key_step(old(self)@, k@),
            final(self).wf(),
    {
        proof {
            lemma_key_step_wf(self@, k@);
            lemma_line_start(self@.text, self@.cur);
            lemma_line_end(self@.text, self@.cur);
        }
        if let Some(p) = self.pending.take() {
            if p == 'd' && str_is(k, "d") {
                proof {
                    lemma_snapshot_wf(self@);
                }
                self.snap();
                self.delete_line();
            } else if p == 'g' && str_is(k, "g") {
                self.cur = 0;
            }
            return Act::Nothing;
        }
        let ls = self.ls(self.cur);
        let le = self.le(self.cur);
        if str_is(k, "h") || str_is(k, "ArrowLeft") {
            self.cur = if self.cur > ls { self.cur - 1 } else { ls };
        } else if str_is(k, "l") || str_is(k, "ArrowRight") {
            let m = if le > ls { le - 1 } else { ls };
            self.cur = if self.cur < m { self.cur + 1 } else { m };
        } else if str_is(k, "j") || str_is(k, "ArrowDown") {
            self.move_line(true);
        } else if str_is(k, "k") || str_is(k, "ArrowUp") {
            self.move_line(false);
        } else if str_is(k, "0") || str_is(k, "Home") {
            self.cur = ls;
        } else if str_is(k, "$") || str_is(k, "End") {
            self.cur = if le > ls { le - 1 } else { ls };
        } else if str_is(k, "w") {
            self.word_fwd();
        } else if str_is(k, "b") {
            self.word_back();
        } else if str_is(k, "G") {
            self.cur = self.ls(self.text.len());
            self.clamp();
        } else if str_is(k, "x") {
            if self.cur < self.text.len() && self.text[self.cur] != '\n' {
                self.snap();
                self.text.remove(self.cur);
                self.clamp();
            }
        } else if str_is(k, "d") {
            self.pending = Some('d');
        } else if str_is(k, "g") {
            self.pending = Some('g');
        } else if str_is(k, "u") {
            let ghost h = self@.hist;
            if let Some((t, c)) = self.hist.pop() {
                self.text = t;
                self.cur = c;
                assert(self@.hist == h.drop_last());
            }
        } else if str_is(k, "i") {
            return self.insert();
        } else if str_is(k, "a") {
            if self.cur < self.text.len() && self.text[self.cur] != '\n' {
                self.cur = self.cur + 1;
            }
            return self.insert();
        } else if str_is(k, "A") {
            self.cur = le;
            return self.insert();
        } else if str_is(k, "I") {
            self.cur = ls;
            return self.insert();
        } else if str_is(k, "o") {
            let a = self.insert();
            self.text.insert(le, '\n');
            assert(le + 1 <= self.text.len());
            self.cur = le + 1;
            return a;
        } else if str_is(k, "O") {
            let a = self.insert();
            self.text.insert(ls, '\n');
            self.cur = ls;
            return a;
        } else if str_is(k, ":") {
            self.mode = Mode::Command;
            return Act::Command;
        }
        Act::Nothing
    }
}

impl Ed {
    /// Run an ex command (without the leading ':'); the editor goes back to normal mode.
    pub fn exec(&mut self, cmd: &str) -> (r: Act)
        ensures
            r@ == command_action(cmd@),
            final(self)@ == (EdState { mode: Mode::Normal, ..old(self)@ }),
            old(self).wf() ==> final(self).wf(),
    {
        self.mode = Mode::Normal;
        let v = chars_of(cmd);
        let (a, b) = trim_bounds(&v, 0, v.len());
        assert(v@.subrange(0, v@.len() as int) == v@);
        let c = cmd.substring_char(a, b);
        if str_is(c, "w") {
            Act::Write
        } else if str_is(c, "q") {
            Act::Quit
        } else if str_is(c, "wq") || str_is(c, "x") {
            Act::WriteQuit
        } else {
            if b - a >= 2 && v[a] == 'e' && v[a + 1] == ' ' {
                let (na, nb) = trim_bounds(&v, a + 2, b);
                assert(c@.skip(2) == v@.subrange(a + 2, b as int));
                if na < nb {
                    let name = cmd.substring_char(na, nb);
                    return Act::Edit(name.to_string());
                }
            }
            Act::Unknown(c.to_string())
        }
    }
}

} // verus!
