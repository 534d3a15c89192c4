//! What each key and each ex command does to the editor's abstract state, and the
//! facts about lines, words and cursor positions that the editor's proofs use.

use vstd::prelude::*;
use crate::text::{is_white_space, trimmed};
use crate::vim::{Action, EdState, HIST_MAX, Mode, state_wf};

verus! {

pub open spec fn min(a: int, b: int) -> int {
    if a <= b { a } else { b }
}

pub open spec fn max(a: int, b: int) -> int {
    if a >= b { a } else { b }
}

/// The start of the line holding position `i`: just after the last '\n' before `i`, or 0.
pub open spec fn line_start(t: Seq<char>, i: int) -> int
    decreases i,
{
    if i <= 0 {
        0
    } else if t[i - 1] == '\n' {
        i
    } else {
        line_start(t, i - 1)
    }
}

/// The end of the line holding position `i`: the first '\n' at or after `i`, or the length.
pub open spec fn line_end(t: Seq<char>, i: int) -> int
    decreases t.len() - i,
{
    if i >= t.len() {
        t.len() as int
    } else if t[i] == '\n' {
        i
    } else {
        line_end(t, i + 1)
    }
}

pub proof fn lemma_line_start(t: Seq<char>, i: int)
    requires
        0 <= i <= t.len(),
    ensures
        0 <= line_start(t, i) <= i,
        line_start(t, i) == 0 || t[line_start(t, i) - 1] == '\n',
        forall|j: int| line_start(t, i) <= j < i ==> t[j] != '\n',
    decreases i,
{
    if i > 0 && t[i - 1] != '\n' {
        lemma_line_start(t, i - 1);
    }
}

pub proof fn lemma_line_end(t: Seq<char>, i: int)
    requires
        0 <= i <= t.len(),
    ensures
        i <= line_end(t, i) <= t.len(),
        line_end(t, i) == t.len() || t[line_end(t, i)] == '\n',
        forall|j: int| i <= j < line_end(t, i) ==> t[j] != '\n',
    decreases t.len() - i,
{
    if i < t.len() && t[i] != '\n' {
        lemma_line_end(t, i + 1);
    }
}

/// Where a normal-mode cursor may rest: on a character that is not '\n', or at the
/// start of an empty line.
pub open spec fn rests(t: Seq<char>, c: int) -> bool {
    &&& 0 <= c <= t.len()
    &&& (c < t.len() && t[c] != '\n') || c == line_start(t, c)
}

/// `c` moved to a resting place: into the buffer, then off a '\n' or the end
/// unless its line is empty.
pub open spec fn clamped(t: Seq<char>, c: int) -> int {
    let c1 = min(c, t.len() as int);
    if c1 > line_start(t, c1) && (c1 == t.len() || t[c1] == '\n') {
        c1 - 1
    } else {
        c1
    }
}

/// The cursor after leaving insert mode with the caret at `caret`: one step left,
/// unless at the start of a line.
pub open spec fn insert_left(t: Seq<char>, caret: int) -> int {
    let c = min(caret, t.len() as int);
    if c > line_start(t, c) {
        c - 1
    } else {
        c
    }
}

/// The cursor after moving one line down (or up), keeping the column where the
/// target line is long enough; it stays put on the last (first) line.
pub open spec fn line_moved(t: Seq<char>, c: int, down: bool) -> int {
    let ls = line_start(t, c);
    let le = line_end(t, c);
    if down && le == t.len() {
        c
    } else if !down && ls == 0 {
        c
    } else {
        let nls = if down { le + 1 } else { line_start(t, ls - 1) };
        clamped(t, min(nls + (c - ls), line_end(t, nls)))
    }
}

/// The first position at or after `i` that is the end or holds white space.
pub open spec fn skip_word(t: Seq<char>, i: int) -> int
    decreases t.len() - i,
{
    if 0 <= i < t.len() && !is_white_space(t[i]) {
        skip_word(t, i + 1)
    } else {
        i
    }
}

/// The first position at or after `i` that is the end or holds no white space.
pub open spec fn skip_space(t: Seq<char>, i: int) -> int
    decreases t.len() - i,
{
    if 0 <= i < t.len() && is_white_space(t[i]) {
        skip_space(t, i + 1)
    } else {
        i
    }
}

/// Going back from `i` over white space.
pub open spec fn back_space(t: Seq<char>, i: int) -> int
    decreases i,
{
    if 0 < i <= t.len() && is_white_space(t[i - 1]) {
        back_space(t, i - 1)
    } else {
        i
    }
}

/// Going back from `i` over characters that are not white space.
pub open spec fn back_word(t: Seq<char>, i: int) -> int
    decreases i,
{
    if 0 < i <= t.len() && !is_white_space(t[i - 1]) {
        back_word(t, i - 1)
    } else {
        i
    }
}

/// `w`: past the rest of the word and the white space after it, then clamped.
pub open spec fn word_forward(t: Seq<char>, c: int) -> int {
    clamped(t, skip_space(t, skip_word(t, c)))
}

/// `b`: back over white space, then to the start of the word before it.
pub open spec fn word_backward(t: Seq<char>, c: int) -> int {
    back_word(t, back_space(t, c))
}

/// The state with the current buffer and cursor pushed on the undo history,
/// the oldest snapshot dropped beyond `HIST_MAX`.
pub open spec fn snapshot(s: EdState) -> EdState {
    let h = s.hist.push((s.text, s.cur));
    EdState { hist: if h.len() > HIST_MAX { h.drop_first() } else { h }, ..s }
}

/// The range that `dd` removes: the cursor's line with its '\n', or, for the last
/// line, the line with the '\n' before it.
pub open spec fn deleted_range(t: Seq<char>, c: int) -> (int, int) {
    let ls = line_start(t, c);
    let le = line_end(t, c);
    if le < t.len() {
        (ls, le + 1)
    } else {
        (if ls > 0 { ls - 1 } else { 0 }, le)
    }
}

/// The state after `dd`: the line removed, the cursor at the start of the line
/// that took its place, clamped.
pub open spec fn line_deleted(s: EdState) -> EdState {
    let (from, to) = deleted_range(s.text, s.cur);
    let t2 = s.text.subrange(0, from) + s.text.subrange(to, s.text.len() as int);
    EdState { text: t2, cur: clamped(t2, line_start(t2, min(from, t2.len() as int))), ..s }
}

/// The state on entering insert mode: a snapshot taken, the mode set.
pub open spec fn entered_insert(s: EdState) -> EdState {
    EdState { mode: Mode::Insert, ..snapshot(s) }
}

/// One key typed in normal mode while the first key of `dd` or `gg` is pending:
/// the pending key is dropped, and `dd` or `gg` takes effect.
pub open spec fn pending_step(s: EdState, p: char, k: Seq<char>) -> EdState {
    let s0 = EdState { pending: None, ..s };
    if p == 'd' && k == "d"@ {
        line_deleted(snapshot(s0))
    } else if p == 'g' && k == "g"@ {
        s0.with_cur(0)
    } else {
        s0
    }
}

/// The editing keys `x`, `u` and the keys that enter insert or command mode.
pub open spec fn edit_step(s: EdState, k: Seq<char>) -> (EdState, Action) {
    let t = s.text;
    let c = s.cur;
    let ls = line_start(t, c);
    let le = line_end(t, c);
    if k == "x"@ {
        if c < t.len() && t[c] != '\n' {
            let t2 = t.remove(c);
            (EdState { text: t2, cur: clamped(t2, c), ..snapshot(s) }, Action::Nothing)
        } else {
            (s, Action::Nothing)
        }
    } else if k == "d"@ {
        (EdState { pending: Some('d'), ..s }, Action::Nothing)
    } else if k == "g"@ {
        (EdState { pending: Some('g'), ..s }, Action::Nothing)
    } else if k == "u"@ {
        if s.hist.len() > 0 {
            let last = s.hist.last();
            (EdState { text: last.0, cur: last.1, hist: s.hist.drop_last(), ..s }, Action::Nothing)
        } else {
            (s, Action::Nothing)
        }
    } else if k == "i"@ {
        (entered_insert(s), Action::Insert)
    } else if k == "a"@ {
        let c1 = if c < t.len() && t[c] != '\n' { c + 1 } else { c };
        (entered_insert(s.with_cur(c1)), Action::Insert)
    } else if k == "A"@ {
        (entered_insert(s.with_cur(le)), Action::Insert)
    } else if k == "I"@ {
        (entered_insert(s.with_cur(ls)), Action::Insert)
    } else if k == "o"@ {
        (EdState { text: t.insert(le, '\n'), cur: le + 1, ..entered_insert(s) }, Action::Insert)
    } else if k == "O"@ {
        (EdState { text: t.insert(ls, '\n'), cur: ls, ..entered_insert(s) }, Action::Insert)
    } else if k == ":"@ {
        (EdState { mode: Mode::Command, ..s }, Action::Command)
    } else {
        (s, Action::Nothing)
    }
}

/// The cursor after a motion key `k`, or `None` when `k` is not a motion key.
pub open spec fn motion(t: Seq<char>, c: int, k: Seq<char>) -> Option<int> {
    let ls = line_start(t, c);
    let le = line_end(t, c);
    if k == "h"@ || k == "ArrowLeft"@ {
        Some(max(c, ls + 1) - 1)
    } else if k == "l"@ || k == "ArrowRight"@ {
        Some(min(c + 1, max(le, ls + 1) - 1))
    } else if k == "j"@ || k == "ArrowDown"@ {
        Some(line_moved(t, c, true))
    } else if k == "k"@ || k == "ArrowUp"@ {
        Some(line_moved(t, c, false))
    } else if k == "0"@ || k == "Home"@ {
        Some(ls)
    } else if k == "$"@ || k == "End"@ {
        Some(max(le, ls + 1) - 1)
    } else if k == "w"@ {
        Some(word_forward(t, c))
    } else if k == "b"@ {
        Some(word_backward(t, c))
    } else if k == "G"@ {
        Some(clamped(t, line_start(t, t.len() as int)))
    } else {
        None
    }
}

/// One key typed in normal mode: the next state and what the host has to do.
pub open spec fn key_step(s: EdState, k: Seq<char>) -> (EdState, Action) {
    match s.pending {
        Some(p) => (pending_step(s, p, k), Action::Nothing),
        None => match motion(s.text, s.cur, k) {
            Some(c) => (s.with_cur(c), Action::Nothing),
            None => edit_step(s, k),
        },
    }
}

/// What an ex command (typed after ':') asks of the host. The command is trimmed;
/// `e name` opens `name`, trimmed, when that is not empty.
pub open spec fn command_action(cmd: Seq<char>) -> Action {
    let c = trimmed(cmd);
    if c == "w"@ {
        Action::Write
    } else if c == "q"@ {
        Action::Quit
    } else if c == "wq"@ || c == "x"@ {
        Action::WriteQuit
    } else if c.len() >= 2 && c[0] == 'e' && c[1] == ' ' && trimmed(c.skip(2)).len() > 0 {
        Action::Edit(trimmed(c.skip(2)))
    } else {
        Action::Unknown(c)
    }
}

/// The state of a freshly loaded buffer.
pub open spec fn loaded(t: Seq<char>) -> EdState {
    EdState { text: t, cur: 0, mode: Mode::Normal, pending: None, hist: Seq::empty() }
}

pub proof fn lemma_skip_bounds(t: Seq<char>, i: int)
    requires
        0 <= i <= t.len(),
    ensures
        i <= skip_word(t, i) <= t.len(),
        i <= skip_space(t, i) <= t.len(),
    decreases t.len() - i,
{
    if i < t.len() {
        lemma_skip_bounds(t, i + 1);
    }
}

pub proof fn lemma_back_bounds(t: Seq<char>, i: int)
    requires
        0 <= i <= t.len(),
    ensures
        0 <= back_space(t, i) <= i,
        0 <= back_word(t, i) <= i,
    decreases i,
{
    if i > 0 {
        lemma_back_bounds(t, i - 1);
    }
}

pub proof fn lemma_snapshot_wf(s: EdState)
    requires
        state_wf(s),
    ensures
        state_wf(snapshot(s)),
        snapshot(s).text == s.text,
        snapshot(s).cur == s.cur,
        snapshot(s).hist.last() == (s.text, s.cur),
{
    let h = s.hist.push((s.text, s.cur));
    assert forall|i: int| 0 <= i < h.len() implies 0 <= #[trigger] h[i].1 <= h[i].0.len() by {
        if i < s.hist.len() {
            assert(h[i] == s.hist[i]);
        }
    }
}

/// Each motion puts the cursor within the buffer.
pub proof fn lemma_motion_bounds(t: Seq<char>, c: int, k: Seq<char>)
    requires
        0 <= c <= t.len(),
    ensures
        motion(t, c, k) matches Some(c2) ==> 0 <= c2 <= t.len(),
{
    lemma_line_start(t, c);
    lemma_line_end(t, c);
    lemma_line_start(t, t.len() as int);
    lemma_clamped_rests(t, line_start(t, t.len() as int));
    lemma_skip_bounds(t, c);
    lemma_skip_bounds(t, skip_word(t, c));
    lemma_clamped_rests(t, skip_space(t, skip_word(t, c)));
    lemma_back_bounds(t, c);
    lemma_back_bounds(t, back_space(t, c));
    lemma_line_moved_bounds(t, c, true);
    lemma_line_moved_bounds(t, c, false);
}

pub proof fn lemma_line_moved_bounds(t: Seq<char>, c: int, down: bool)
    requires
        0 <= c <= t.len(),
    ensures
        0 <= line_moved(t, c, down) <= t.len(),
{
    let ls = line_start(t, c);
    let le = line_end(t, c);
    lemma_line_start(t, c);
    lemma_line_end(t, c);
    if down && le == t.len() {
    } else if !down && ls == 0 {
    } else {
        let nls = if down { le + 1 } else { line_start(t, ls - 1) };
        if !down {
            lemma_line_start(t, ls - 1);
        }
        lemma_line_end(t, nls);
        lemma_clamped_rests(t, min(nls + (c - ls), line_end(t, nls)));
    }
}

/// Every key keeps the editor in a state it can be in.
pub proof fn lemma_key_step_wf(s: EdState, k: Seq<char>)
    requires
        state_wf(s),
    ensures
        state_wf(key_step(s, k).0),
{
    let t = s.text;
    let c = s.cur;
    lemma_line_start(t, c);
    lemma_line_end(t, c);
    lemma_snapshot_wf(s);
    lemma_motion_bounds(t, c, k);
    match s.pending {
        Some(p) => {
            let s0 = EdState { pending: None, ..s };
            lemma_snapshot_wf(s0);
            lemma_line_deleted_wf(snapshot(s0));
        },
        None => {
            if motion(t, c, k) is None {
                if k == "x"@ && c < t.len() && t[c] != '\n' {
                    lemma_clamped_rests(t.remove(c), c);
                }
                let c1 = if c < t.len() && t[c] != '\n' { c + 1 } else { c };
                lemma_snapshot_wf(s.with_cur(c1));
                lemma_snapshot_wf(s.with_cur(line_end(t, c)));
                lemma_snapshot_wf(s.with_cur(line_start(t, c)));
                if k == "u"@ && s.hist.len() > 0 {
                    assert(s.hist.last() == s.hist[s.hist.len() - 1]);
                    let h2 = s.hist.drop_last();
                    assert forall|i: int| 0 <= i < h2.len() implies 0 <= #[trigger] h2[i].1
                        <= h2[i].0.len() by {
                        assert(h2[i] == s.hist[i]);
                    }
                }
            }
        },
    }
}

pub proof fn lemma_line_deleted_wf(s: EdState)
    requires
        state_wf(s),
    ensures
        state_wf(line_deleted(s)),
{
    let t = s.text;
    lemma_line_start(t, s.cur);
    lemma_line_end(t, s.cur);
    let (from, to) = deleted_range(t, s.cur);
    let t2 = t.subrange(0, from) + t.subrange(to, t.len() as int);
    lemma_line_start(t2, min(from, t2.len() as int));
    lemma_clamped_rests(t2, line_start(t2, min(from, t2.len() as int)));
}

/// A clamped cursor rests, and clamping a resting cursor leaves it where it is.
pub proof fn lemma_clamped_rests(t: Seq<char>, c: int)
    requires
        0 <= c,
    ensures
        rests(t, clamped(t, c)),
        rests(t, c) ==> clamped(t, c) == c,
{
    let c1 = min(c, t.len() as int);
    lemma_line_start(t, c1);
    if c1 > line_start(t, c1) && (c1 == t.len() || t[c1] == '\n') {
        assert(t[c1 - 1] != '\n');
    }
}

} // verus!
