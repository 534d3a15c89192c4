//! Properties of the editor across several keys: what undo gives back, where
//! motions leave the cursor, and how the two-key commands behave.

use vstd::prelude::*;
use crate::keymap::{
    clamped,
    min, line_start, line_end, lemma_line_start, lemma_line_end, rests, insert_left, line_moved,
    command_action, skip_word, skip_space, back_space, back_word, word_backward, snapshot, motion, key_step, loaded, lemma_skip_bounds,
    lemma_snapshot_wf, lemma_clamped_rests,
};
use crate::text::{all_white, is_white_space, lemma_trimmed_around};
use crate::vim::{Action, EdState, HIST_MAX, Mode, state_wf};

verus! {

/// The state after leaving insert mode with the text area holding `t` and the caret at `caret`.
pub open spec fn left_insert(s: EdState, t: Seq<char>, caret: int) -> EdState {
    EdState { text: t, cur: insert_left(t, caret), mode: Mode::Normal, ..s }
}

/// The keys that enter insert mode.
pub open spec fn is_insert_key(k: Seq<char>) -> bool {
    k == "i"@ || k == "a"@ || k == "A"@ || k == "I"@ || k == "o"@ || k == "O"@
}

/// The one-character key names that normal mode knows, and the lengths of the longer ones.
pub proof fn reveal_key_names()
    ensures
        "h"@.len() == 1 && "h"@[0] == 'h',
        "ArrowLeft"@.len() == 9,
        "l"@.len() == 1 && "l"@[0] == 'l',
        "ArrowRight"@.len() == 10,
        "j"@.len() == 1 && "j"@[0] == 'j',
        "ArrowDown"@.len() == 9,
        "k"@.len() == 1 && "k"@[0] == 'k',
        "ArrowUp"@.len() == 7,
        "0"@.len() == 1 && "0"@[0] == '0',
        "Home"@.len() == 4,
        "$"@.len() == 1 && "$"@[0] == '$',
        "End"@.len() == 3,
        "w"@.len() == 1 && "w"@[0] == 'w',
        "b"@.len() == 1 && "b"@[0] == 'b',
        "G"@.len() == 1 && "G"@[0] == 'G',
        "x"@.len() == 1 && "x"@[0] == 'x',
        "d"@.len() == 1 && "d"@[0] == 'd',
        "g"@.len() == 1 && "g"@[0] == 'g',
        "u"@.len() == 1 && "u"@[0] == 'u',
        "i"@.len() == 1 && "i"@[0] == 'i',
        "a"@.len() == 1 && "a"@[0] == 'a',
        "A"@.len() == 1 && "A"@[0] == 'A',
        "I"@.len() == 1 && "I"@[0] == 'I',
        "o"@.len() == 1 && "o"@[0] == 'o',
        "O"@.len() == 1 && "O"@[0] == 'O',
        ":"@.len() == 1 && ":"@[0] == ':',
{
    reveal_strlit("h");
    reveal_strlit("ArrowLeft");
    reveal_strlit("l");
    reveal_strlit("ArrowRight");
    reveal_strlit("j");
    reveal_strlit("ArrowDown");
    reveal_strlit("k");
    reveal_strlit("ArrowUp");
    reveal_strlit("0");
    reveal_strlit("Home");
    reveal_strlit("$");
    reveal_strlit("End");
    reveal_strlit("w");
    reveal_strlit("b");
    reveal_strlit("G");
    reveal_strlit("x");
    reveal_strlit("d");
    reveal_strlit("g");
    reveal_strlit("u");
    reveal_strlit("i");
    reveal_strlit("a");
    reveal_strlit("A");
    reveal_strlit("I");
    reveal_strlit("o");
    reveal_strlit("O");
    reveal_strlit(":");
}

/// `u` with a snapshot on top of the history brings back the buffer and cursor of
/// that snapshot, and the history from before it while the history was not full.
pub proof fn lemma_undo_snapshot(s: EdState, s1: EdState)
    requires
        state_wf(s),
        s1.pending is None,
        s1.hist == snapshot(s).hist,
    ensures
        key_step(s1, "u"@).0.text == s.text,
        key_step(s1, "u"@).0.cur == s.cur,
        key_step(s1, "u"@).1 == Action::Nothing,
        s.hist.len() < HIST_MAX ==> key_step(s1, "u"@).0.hist == s.hist,
{
    reveal_key_names();
    lemma_snapshot_wf(s);
    assert(motion(s1.text, s1.cur, "u"@) is None);
    if s.hist.len() < HIST_MAX {
        assert(snapshot(s).hist.drop_last() == s.hist);
    }
}

/// `x` followed by `u` gives back the buffer and the cursor.
pub proof fn lemma_undo_x(s: EdState)
    requires
        state_wf(s),
        s.pending is None,
        s.cur < s.text.len(),
        s.text[s.cur] != '\n',
    ensures
        key_step(key_step(s, "x"@).0, "u"@).0.text == s.text,
        key_step(key_step(s, "x"@).0, "u"@).0.cur == s.cur,
        s.hist.len() < HIST_MAX ==> key_step(key_step(s, "x"@).0, "u"@).0.hist == s.hist,
{
    reveal_key_names();
    assert(motion(s.text, s.cur, "x"@) is None);
    lemma_undo_snapshot(s, key_step(s, "x"@).0);
}

/// `dd` followed by `u` gives back the buffer and the cursor.
pub proof fn lemma_undo_dd(s: EdState)
    requires
        state_wf(s),
        s.pending is None,
    ensures
        key_step(key_step(key_step(s, "d"@).0, "d"@).0, "u"@).0.text == s.text,
        key_step(key_step(key_step(s, "d"@).0, "d"@).0, "u"@).0.cur == s.cur,
        s.hist.len() < HIST_MAX ==> key_step(key_step(key_step(s, "d"@).0, "d"@).0, "u"@).0.hist
            == s.hist,
{
    reveal_key_names();
    assert(motion(s.text, s.cur, "d"@) is None);
    let s1 = key_step(s, "d"@).0;
    assert(s1 == EdState { pending: Some('d'), ..s });
    let s0 = EdState { pending: None, ..s1 };
    assert(s0 == s);
    lemma_undo_snapshot(s, key_step(s1, "d"@).0);
}

/// A key that enters insert mode, whatever the insert session then leaves in the
/// buffer, followed by `u`, gives back the buffer from before that key; after `i`,
/// `o` and `O` the cursor comes back too.
pub proof fn lemma_undo_insert_session(s: EdState, k: Seq<char>, t: Seq<char>, caret: int)
    requires
        state_wf(s),
        s.pending is None,
        is_insert_key(k),
    ensures
        key_step(left_insert(key_step(s, k).0, t, caret), "u"@).0.text == s.text,
        (k == "i"@ || k == "o"@ || k == "O"@) ==> key_step(
            left_insert(key_step(s, k).0, t, caret),
            "u"@,
        ).0.cur == s.cur,
        key_step(s, k).1 == Action::Insert,
{
    reveal_key_names();
    assert(motion(s.text, s.cur, k) is None);
    let t0 = s.text;
    let c = s.cur;
    lemma_line_start(t0, c);
    lemma_line_end(t0, c);
    let c1 = if k == "a"@ {
        if c < t0.len() && t0[c] != '\n' { c + 1 } else { c }
    } else if k == "A"@ {
        line_end(t0, c)
    } else if k == "I"@ {
        line_start(t0, c)
    } else {
        c
    };
    let s1 = key_step(s, k).0;
    assert(s1.hist == snapshot(s.with_cur(c1)).hist);
    lemma_undo_snapshot(s.with_cur(c1), left_insert(s1, t, caret));
}

/// The first key of `dd` or `gg` waits for exactly one more key.
pub proof fn lemma_pending_one_key(s: EdState, k: Seq<char>)
    requires
        state_wf(s),
        s.pending is Some,
    ensures
        key_step(s, k).0.pending is None,
        key_step(s, k).1 == Action::Nothing,
{
}

/// After a motion key the normal-mode cursor rests on a character, never on '\n' or
/// past the end unless its line is empty.
pub proof fn lemma_motion_rests(t: Seq<char>, c: int, k: Seq<char>)
    requires
        rests(t, c),
        motion(t, c, k) is Some,
    ensures
        rests(t, motion(t, c, k)->0),
{
    let ls = line_start(t, c);
    let le = line_end(t, c);
    lemma_line_start(t, c);
    lemma_line_end(t, c);
    lemma_line_start_of_start(t, c);
    lemma_line_start(t, t.len() as int);
    lemma_clamped_rests(t, line_start(t, t.len() as int));
    lemma_skip_bounds(t, c);
    lemma_skip_bounds(t, skip_word(t, c));
    lemma_clamped_rests(t, skip_space(t, skip_word(t, c)));
    lemma_line_moved_rests(t, c, true);
    lemma_line_moved_rests(t, c, false);
    lemma_word_backward_start(t, c);
    assert(is_white_space('\n'));
    let r = motion(t, c, k)->0;
    if ls <= r < c || ls <= r < le {
        lemma_in_line_start(t, c, r);
    }
}

/// Every position of a line before its end, or before `c`, has that line's start.
proof fn lemma_in_line_start(t: Seq<char>, c: int, r: int)
    requires
        0 <= c <= t.len(),
        line_start(t, c) <= r < c || line_start(t, c) <= r < line_end(t, c),
    ensures
        line_start(t, r) == line_start(t, c),
        r < t.len(),
        t[r] != '\n',
    decreases r - line_start(t, c),
{
    lemma_line_start(t, c);
    lemma_line_end(t, c);
    if r > line_start(t, c) {
        lemma_in_line_start(t, c, r - 1);
    }
}

/// A line start is its own line's start.
proof fn lemma_line_start_of_start(t: Seq<char>, c: int)
    requires
        0 <= c <= t.len(),
    ensures
        line_start(t, line_start(t, c)) == line_start(t, c),
        rests(t, line_start(t, c)),
{
    lemma_line_start(t, c);
}

proof fn lemma_line_moved_rests(t: Seq<char>, c: int, down: bool)
    requires
        rests(t, c),
    ensures
        rests(t, line_moved(t, c, down)),
{
    let ls = line_start(t, c);
    let le = line_end(t, c);
    lemma_line_start(t, c);
    lemma_line_end(t, c);
    if down && le == t.len() {
    } else if !down && ls == 0 {
    } else {
        let nls = if down { le + 1 } else { line_start(t, ls - 1) };
        if !down {
            lemma_line_start(t, ls - 1);
        }
        lemma_line_end(t, nls);
        lemma_clamped_rests(t, min(nls + (c - ls), line_end(t, nls)));
    }
}

/// A loaded buffer holds exactly the loaded text, in a state the editor can be in.
pub proof fn lemma_loaded(t: Seq<char>)
    ensures
        loaded(t).text == t,
        state_wf(loaded(t)),
        rests(t, loaded(t).cur),
{
}

/// `gg` puts the cursor at the start of the buffer.
pub proof fn lemma_gg(s: EdState)
    requires
        state_wf(s),
        s.pending is None,
    ensures
        key_step(key_step(s, "g"@).0, "g"@).0.cur == 0,
        key_step(key_step(s, "g"@).0, "g"@).0.text == s.text,
        rests(s.text, 0),
{
    reveal_key_names();
    assert(motion(s.text, s.cur, "g"@) is None);
}

/// `b` goes back to the start of a word: the buffer's start, or a character that is
/// not white space just after white space.
pub proof fn lemma_word_backward_start(t: Seq<char>, c: int)
    requires
        0 <= c <= t.len(),
    ensures
        0 <= word_backward(t, c) <= c,
        word_backward(t, c) == 0 || is_white_space(t[word_backward(t, c) - 1]),
        word_backward(t, c) > 0 ==> word_backward(t, c) < c && !is_white_space(
            t[word_backward(t, c)],
        ),
        forall|q: int| word_backward(t, c) < q < c ==> !#[trigger] word_start(t, q),
{
    lemma_back_space_stops(t, c);
    lemma_back_word_stops(t, back_space(t, c));
}

/// A word starts at `q`: a character that is not white space just after white space.
pub open spec fn word_start(t: Seq<char>, q: int) -> bool {
    0 < q < t.len() && is_white_space(t[q - 1]) && !is_white_space(t[q])
}

/// `w` goes to the start of the next word, or to the end of the buffer when no word
/// follows, then rests there.
pub proof fn lemma_word_forward_next(s: EdState)
    requires
        state_wf(s),
        s.pending is None,
    ensures
        exists|p: int|
            {
                &&& s.cur <= p <= s.text.len()
                &&& s.cur < s.text.len() ==> s.cur < p
                &&& p == s.text.len() || word_start(s.text, p)
                &&& forall|q: int| s.cur < q < p ==> !#[trigger] word_start(s.text, q)
                &&& key_step(s, "w"@).0.cur == clamped(s.text, p)
            },
        key_step(s, "w"@).0.text == s.text,
{
    reveal_key_names();
    let t = s.text;
    let c = s.cur;
    lemma_skip_word_stops(t, c);
    let sw = skip_word(t, c);
    lemma_skip_space_stops(t, sw);
    let p = skip_space(t, sw);
    assert forall|q: int| c < q < p implies !#[trigger] word_start(t, q) by {
        if q <= sw {
            assert(!is_white_space(t[q - 1]));
        } else {
            assert(is_white_space(t[q]));
        }
    }
    assert(key_step(s, "w"@).0.cur == clamped(t, p));
}

proof fn lemma_skip_word_stops(t: Seq<char>, i: int)
    requires
        0 <= i <= t.len(),
    ensures
        i <= skip_word(t, i) <= t.len(),
        skip_word(t, i) == t.len() || is_white_space(t[skip_word(t, i)]),
        forall|j: int| i <= j < skip_word(t, i) ==> !is_white_space(#[trigger] t[j]),
    decreases t.len() - i,
{
    if i < t.len() && !is_white_space(t[i]) {
        lemma_skip_word_stops(t, i + 1);
    }
}

proof fn lemma_skip_space_stops(t: Seq<char>, i: int)
    requires
        0 <= i <= t.len(),
    ensures
        i <= skip_space(t, i) <= t.len(),
        skip_space(t, i) == t.len() || !is_white_space(t[skip_space(t, i)]),
        forall|j: int| i <= j < skip_space(t, i) ==> is_white_space(#[trigger] t[j]),
    decreases t.len() - i,
{
    if i < t.len() && is_white_space(t[i]) {
        lemma_skip_space_stops(t, i + 1);
    }
}

proof fn lemma_back_space_stops(t: Seq<char>, i: int)
    requires
        0 <= i <= t.len(),
    ensures
        0 <= back_space(t, i) <= i,
        back_space(t, i) == 0 || !is_white_space(t[back_space(t, i) - 1]),
        forall|j: int| back_space(t, i) <= j < i ==> is_white_space(#[trigger] t[j]),
    decreases i,
{
    if i > 0 && is_white_space(t[i - 1]) {
        lemma_back_space_stops(t, i - 1);
    }
}

proof fn lemma_back_word_stops(t: Seq<char>, i: int)
    requires
        0 <= i <= t.len(),
    ensures
        0 <= back_word(t, i) <= i,
        back_word(t, i) == 0 || is_white_space(t[back_word(t, i) - 1]),
        back_word(t, i) < i ==> !is_white_space(t[back_word(t, i)]),
        i > 0 && !is_white_space(t[i - 1]) ==> back_word(t, i) < i,
        forall|j: int| back_word(t, i) <= j < i ==> !is_white_space(#[trigger] t[j]),
    decreases i,
{
    if i > 0 && !is_white_space(t[i - 1]) {
        lemma_back_word_stops(t, i - 1);
    }
}

/// `j` then `k` comes back to the same position when the cursor is on a character
/// of its line and the next line is longer than the cursor's column.
pub proof fn lemma_down_up(s: EdState)
    requires
        state_wf(s),
        s.pending is None,
        s.cur < line_end(s.text, s.cur),
        line_end(s.text, s.cur) < s.text.len(),
        line_end(s.text, s.cur) + 1 + (s.cur - line_start(s.text, s.cur)) < line_end(
            s.text,
            line_end(s.text, s.cur) + 1,
        ),
    ensures
        key_step(key_step(s, "j"@).0, "k"@).0.cur == s.cur,
        key_step(key_step(s, "j"@).0, "k"@).0.text == s.text,
{
    reveal_key_names();
    let t = s.text;
    let c = s.cur;
    let ls = line_start(t, c);
    let le = line_end(t, c);
    let nls = le + 1;
    let nle = line_end(t, nls);
    let d = nls + (c - ls);
    lemma_line_start(t, c);
    lemma_line_end(t, c);
    lemma_line_end(t, nls);
    assert(line_start(t, nls) == nls);
    lemma_in_line_start(t, nls, d);
    lemma_clamped_rests(t, d);
    assert(line_moved(t, c, true) == d);
    let s1 = key_step(s, "j"@).0;
    assert(s1 == s.with_cur(d));
    lemma_in_line_start(t, c, le - 1);
    assert(line_start(t, nls - 1) == ls);
    lemma_line_end_within(t, ls, c);
    lemma_in_line_start(t, c, c);
    lemma_clamped_rests(t, c);
    assert(line_moved(t, d, false) == c);
}

/// Within a line, every position before the cursor has the cursor's line end.
proof fn lemma_line_end_within(t: Seq<char>, x: int, c: int)
    requires
        0 <= x <= c <= t.len(),
        forall|j: int| x <= j < c ==> t[j] != '\n',
    ensures
        line_end(t, x) == line_end(t, c),
    decreases c - x,
{
    if x < c {
        lemma_line_end_within(t, x + 1, c);
    }
}

/// `dd` removes the cursor's line: with its '\n' when another line follows (the
/// first line too), else, for the last line, with the '\n' before it.
pub proof fn lemma_dd_removes_line(s: EdState)
    requires
        state_wf(s),
        s.pending is None,
    ensures
        line_end(s.text, s.cur) < s.text.len() ==> key_step(key_step(s, "d"@).0, "d"@).0.text
            == s.text.subrange(0, line_start(s.text, s.cur)) + s.text.subrange(
            line_end(s.text, s.cur) + 1,
            s.text.len() as int,
        ),
        line_end(s.text, s.cur) == s.text.len() && line_start(s.text, s.cur) > 0 ==> key_step(
            key_step(s, "d"@).0,
            "d"@,
        ).0.text == s.text.subrange(0, line_start(s.text, s.cur) - 1),
        line_end(s.text, s.cur) == s.text.len() && line_start(s.text, s.cur) == 0 ==> key_step(
            key_step(s, "d"@).0,
            "d"@,
        ).0.text.len() == 0,
{
    reveal_key_names();
    let t = s.text;
    lemma_line_start(t, s.cur);
    lemma_line_end(t, s.cur);
    assert(motion(t, s.cur, "d"@) is None);
    let s1 = key_step(s, "d"@).0;
    assert(s1 == EdState { pending: Some('d'), ..s });
    let s0 = EdState { pending: None, ..s1 };
    assert(s0 == s);
    lemma_snapshot_wf(s);
    let ls = line_start(t, s.cur);
    let le = line_end(t, s.cur);
    if le == t.len() {
        assert(t.subrange(le, t.len() as int) =~= Seq::<char>::empty());
        if ls > 0 {
            assert(t.subrange(0, ls - 1) + t.subrange(le, t.len() as int) =~= t.subrange(0, ls - 1));
        } else {
            assert((t.subrange(0, 0) + t.subrange(le, t.len() as int)).len() == 0);
        }
    }
}

/// `a` enters insert mode one step to the right when the cursor is on a character
/// other than '\n' (the last one of a line or of the buffer too), and in place
/// otherwise.
pub proof fn lemma_append_cursor(s: EdState)
    requires
        state_wf(s),
        s.pending is None,
    ensures
        key_step(s, "a"@).0.cur == (if s.cur < s.text.len() && s.text[s.cur] != '\n' {
            s.cur + 1
        } else {
            s.cur
        }),
        key_step(s, "a"@).0.text == s.text,
        key_step(s, "a"@).0.mode == Mode::Insert,
        key_step(s, "a"@).1 == Action::Insert,
{
    reveal_key_names();
    assert(motion(s.text, s.cur, "a"@) is None);
}

/// Leaving insert mode steps the caret one left, but never off its line: the cursor
/// stays on the caret's line, one left of the caret, or on the caret when that is
/// at the start of its line.
pub proof fn lemma_insert_left_same_line(t: Seq<char>, caret: int)
    requires
        0 <= caret,
    ensures
        line_start(t, insert_left(t, caret)) == line_start(t, min(caret, t.len() as int)),
        insert_left(t, caret) == (if min(caret, t.len() as int) == line_start(
            t,
            min(caret, t.len() as int),
        ) {
            min(caret, t.len() as int)
        } else {
            min(caret, t.len() as int) - 1
        }),
        0 <= insert_left(t, caret) <= t.len(),
{
    let c = min(caret, t.len() as int);
    lemma_line_start(t, c);
    if c > line_start(t, c) {
        lemma_in_line_start(t, c, c - 1);
    }
}

/// `x` removes the character under the cursor when it is not '\n' and leaves the
/// buffer alone otherwise; the cursor stays on the line it was on.
pub proof fn lemma_x_removes_char(s: EdState)
    requires
        state_wf(s),
        s.pending is None,
    ensures
        key_step(s, "x"@).0.text == (if s.cur < s.text.len() && s.text[s.cur] != '\n' {
            s.text.remove(s.cur)
        } else {
            s.text
        }),
        key_step(s, "x"@).0.mode == s.mode,
        key_step(s, "x"@).1 == Action::Nothing,
{
    reveal_key_names();
    assert(motion(s.text, s.cur, "x"@) is None);
}

/// The keys that enter insert mode put the cursor where typing goes and leave the
/// buffer alone, but `o` and `O`, which open an empty line below or above the
/// cursor's line and put the cursor on it.
pub proof fn lemma_insert_keys(s: EdState)
    requires
        state_wf(s),
        s.pending is None,
    ensures
        key_step(s, "i"@).0.cur == s.cur && key_step(s, "i"@).0.text == s.text,
        key_step(s, "A"@).0.cur == line_end(s.text, s.cur) && key_step(s, "A"@).0.text == s.text,
        key_step(s, "I"@).0.cur == line_start(s.text, s.cur) && key_step(s, "I"@).0.text
            == s.text,
        key_step(s, "o"@).0.text == s.text.insert(line_end(s.text, s.cur), '\n'),
        key_step(s, "o"@).0.cur == line_end(s.text, s.cur) + 1,
        key_step(s, "O"@).0.text == s.text.insert(line_start(s.text, s.cur), '\n'),
        key_step(s, "O"@).0.cur == line_start(s.text, s.cur),
        key_step(s, "i"@).0.mode == Mode::Insert && key_step(s, "A"@).0.mode == Mode::Insert
            && key_step(s, "I"@).0.mode == Mode::Insert && key_step(s, "o"@).0.mode == Mode::Insert
            && key_step(s, "O"@).0.mode == Mode::Insert,
{
    reveal_key_names();
    assert(motion(s.text, s.cur, "i"@) is None);
    assert(motion(s.text, s.cur, "A"@) is None);
    assert(motion(s.text, s.cur, "I"@) is None);
    assert(motion(s.text, s.cur, "o"@) is None);
    assert(motion(s.text, s.cur, "O"@) is None);
}

/// `h` steps one left and `l` one right, neither past the ends of the line; `0`
/// goes to the line's start and `$` to its last character.
pub proof fn lemma_line_motions(s: EdState)
    requires
        state_wf(s),
        s.pending is None,
    ensures
        key_step(s, "h"@).0.cur == (if s.cur > line_start(s.text, s.cur) {
            s.cur - 1
        } else {
            s.cur
        }),
        key_step(s, "l"@).0.cur == (if s.cur + 1 < line_end(s.text, s.cur) {
            s.cur + 1
        } else if line_end(s.text, s.cur) > line_start(s.text, s.cur) {
            line_end(s.text, s.cur) - 1
        } else {
            line_start(s.text, s.cur)
        }),
        key_step(s, "0"@).0.cur == line_start(s.text, s.cur),
        key_step(s, "$"@).0.cur == (if line_end(s.text, s.cur) > line_start(s.text, s.cur) {
            line_end(s.text, s.cur) - 1
        } else {
            line_start(s.text, s.cur)
        }),
        key_step(s, "h"@).0.text == s.text && key_step(s, "l"@).0.text == s.text,
{
    reveal_key_names();
    lemma_line_start(s.text, s.cur);
    lemma_line_end(s.text, s.cur);
}

/// `:e name`, with any white space around the command and before the name, opens
/// `name` (a name that neither starts nor ends with white space).
pub proof fn lemma_edit_command(w1: Seq<char>, w2: Seq<char>, name: Seq<char>, w3: Seq<char>)
    requires
        all_white(w1),
        all_white(w2),
        all_white(w3),
        name.len() > 0,
        !is_white_space(name[0]),
        !is_white_space(name.last()),
    ensures
        command_action(w1 + seq!['e', ' '] + w2 + name + w3) == Action::Edit(name),
{
    reveal_strlit("w");
    reveal_strlit("q");
    reveal_strlit("wq");
    reveal_strlit("x");
    let m = seq!['e', ' '] + w2 + name;
    assert(w1 + seq!['e', ' '] + w2 + name + w3 == w1 + m + w3);
    assert(m.last() == name.last());
    lemma_trimmed_around(w1, m, w3);
    assert(m.skip(2) == w2 + name);
    assert(w2 + name == w2 + name + Seq::<char>::empty());
    lemma_trimmed_around(w2, name, Seq::empty());
    assert(m.len() >= 3);
}

/// `:w`, `:q`, `:wq` and `:x`, with any white space around them, write, quit, or
/// write and quit.
pub proof fn lemma_write_quit_commands(w1: Seq<char>, w2: Seq<char>)
    requires
        all_white(w1),
        all_white(w2),
    ensures
        command_action(w1 + seq!['w'] + w2) == Action::Write,
        command_action(w1 + seq!['q'] + w2) == Action::Quit,
        command_action(w1 + seq!['w', 'q'] + w2) == Action::WriteQuit,
        command_action(w1 + seq!['x'] + w2) == Action::WriteQuit,
{
    reveal_strlit("w");
    reveal_strlit("q");
    reveal_strlit("wq");
    reveal_strlit("x");
    lemma_trimmed_around(w1, seq!['w'], w2);
    lemma_trimmed_around(w1, seq!['q'], w2);
    lemma_trimmed_around(w1, seq!['w', 'q'], w2);
    lemma_trimmed_around(w1, seq!['x'], w2);
    assert("w"@ == seq!['w']);
    assert("q"@ == seq!['q']);
    assert("wq"@ == seq!['w', 'q']);
    assert("x"@ == seq!['x']);
    assert(seq!['q'][0] != seq!['w'][0]);
    assert(seq!['x'][0] != seq!['w'][0]);
    assert(seq!['x'][0] != seq!['q'][0]);
    assert(seq!['q'] != "w"@);
    assert(seq!['x'] != "w"@);
    assert(seq!['x'] != "q"@);
}

/// Clamping a position of a line (its end included) keeps it, or, at the line's
/// end, takes it back onto the last character unless the line is empty.
proof fn lemma_clamp_in_line(t: Seq<char>, ls: int, x: int)
    requires
        0 <= ls <= x <= line_end(t, ls),
        ls <= t.len(),
        ls == 0 || t[ls - 1] == '\n',
    ensures
        clamped(t, x) == (if x < line_end(t, ls) {
            x
        } else if line_end(t, ls) > ls {
            line_end(t, ls) - 1
        } else {
            ls
        }),
{
    let le = line_end(t, ls);
    lemma_line_end(t, ls);
    assert(line_start(t, ls) == ls);
    if ls < x {
        lemma_in_line_start(t, ls, x - 1);
        assert(line_start(t, x) == line_start(t, x - 1));
    }
}

/// `j` goes to the same column of the next line, or to that line's last character
/// when it is shorter (its start when empty); on the last line it stays. `k` does
/// the same with the line above; on the first line it stays.
pub proof fn lemma_vertical_motions(s: EdState)
    requires
        state_wf(s),
        s.pending is None,
    ensures
        ({
            let t = s.text;
            let c = s.cur;
            let col = c - line_start(t, c);
            let le = line_end(t, c);
            let nle = line_end(t, le + 1);
            key_step(s, "j"@).0.cur == (if le == t.len() {
                c
            } else if le + 1 + col < nle {
                le + 1 + col
            } else if nle > le + 1 {
                nle - 1
            } else {
                le + 1
            })
        }),
        ({
            let t = s.text;
            let c = s.cur;
            let ls = line_start(t, c);
            let col = c - ls;
            let pls = line_start(t, ls - 1);
            key_step(s, "k"@).0.cur == (if ls == 0 {
                c
            } else if pls + col < ls - 1 {
                pls + col
            } else if ls - 1 > pls {
                ls - 2
            } else {
                pls
            })
        }),
        key_step(s, "j"@).0.text == s.text && key_step(s, "k"@).0.text == s.text,
{
    reveal_key_names();
    let t = s.text;
    let c = s.cur;
    let ls = line_start(t, c);
    let le = line_end(t, c);
    lemma_line_start(t, c);
    lemma_line_end(t, c);
    if le < t.len() {
        lemma_line_end(t, le + 1);
        let nle = line_end(t, le + 1);
        let x = if le + 1 + (c - ls) < nle { le + 1 + (c - ls) } else { nle };
        lemma_clamp_in_line(t, le + 1, x);
    }
    if ls > 0 {
        let pls = line_start(t, ls - 1);
        lemma_line_start(t, ls - 1);
        lemma_line_end_within(t, pls, ls - 1);
        assert(line_end(t, ls - 1) == ls - 1);
        let x = if pls + (c - ls) < ls - 1 { pls + (c - ls) } else { ls - 1 };
        lemma_clamp_in_line(t, pls, x);
    }
}

/// `G` goes to the start of the last line.
pub proof fn lemma_last_line(s: EdState)
    requires
        state_wf(s),
        s.pending is None,
    ensures
        key_step(s, "G"@).0.cur == line_start(s.text, s.text.len() as int),
        forall|j: int| key_step(s, "G"@).0.cur <= j < s.text.len() ==> s.text[j] != '\n',
        key_step(s, "G"@).0.text == s.text,
{
    reveal_key_names();
    let t = s.text;
    lemma_line_start(t, t.len() as int);
    lemma_line_end_within(t, line_start(t, t.len() as int), t.len() as int);
    assert(line_end(t, t.len() as int) == t.len());
    lemma_clamp_in_line(t, line_start(t, t.len() as int), line_start(t, t.len() as int));
}

} // verus!
