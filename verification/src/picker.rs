//! The note picker of insert mode: typing `[[` opens it; the arrows or Ctrl-n and
//! Ctrl-p move through the notes, Enter or Tab puts the chosen note's link in,
//! Escape closes it.

use vstd::prelude::*;
use crate::notes::{ends_with_md, note_file};
use crate::text::{chars_of, str_is, string_of};

verus! {

broadcast use vstd::string::group_string_axioms;

/// The picker: whether it is open, and which of the listed notes is chosen.
pub struct Picker {
    pub open: bool,
    pub sel: usize,
}

/// What the host does with a key typed while the picker is open.
#[derive(Debug, PartialEq, Eq, Clone, Copy, Structural)]
pub enum PickAct {
    /// The key is not the picker's: the text area takes it.
    Pass,
    /// The choice moved.
    Moved,
    /// Put in the link to the note at this index of the list.
    Insert(usize),
    /// The picker closed.
    Close,
}

/// Whether the two characters just before the caret are `[[`.
pub open spec fn after_open_brackets(t: Seq<char>, caret: int) -> bool {
    2 <= caret <= t.len() && t[caret - 2] == '[' && t[caret - 1] == '['
}

/// The next choice among `n` notes, going round at the end.
pub open spec fn next_sel(sel: int, n: int, down: bool) -> int {
    if n <= 0 {
        0
    } else if down {
        if sel + 1 < n { sel + 1 } else { 0 }
    } else {
        if sel > 0 { sel - 1 } else { n - 1 }
    }
}

/// A key typed while the picker is open, with `n` notes listed: ArrowDown or Ctrl-n
/// and ArrowUp or Ctrl-p move the choice round the list, Enter or Tab chooses and
/// closes, Escape closes, and any other key is passed on to the text area.
pub open spec fn pick_step(open: bool, sel: int, k: Seq<char>, ctrl: bool, n: int) -> (
    bool,
    int,
    PickAct,
) {
    if k == "ArrowDown"@ || (ctrl && k == "n"@) {
        (open, next_sel(sel, n, true), PickAct::Moved)
    } else if k == "ArrowUp"@ || (ctrl && k == "p"@) {
        (open, next_sel(sel, n, false), PickAct::Moved)
    } else if k == "Enter"@ || k == "Tab"@ {
        (false, sel, if n > 0 { PickAct::Insert(sel as usize) } else { PickAct::Close })
    } else if k == "Escape"@ {
        (false, sel, PickAct::Close)
    } else {
        (open, sel, PickAct::Pass)
    }
}

impl Picker {
    /// A closed picker.
    pub fn new() -> (p: Self)
        ensures
            !p.open,
            p.sel == 0,
    {
        Picker { open: false, sel: 0 }
    }

    /// After the text area's text or caret changed: the picker is open exactly when
    /// `[[` stands just before the caret; opening starts at the first note.
    pub fn on_input(&mut self, text: &str, caret: usize)
        ensures
            final(self).open == after_open_brackets(text@, caret as int),
            final(self).sel == (if final(self).open && !old(self).open {
                0
            } else {
                old(self).sel
            }),
    {
        let v = chars_of(text);
        let now = caret >= 2 && caret <= v.len() && v[caret - 2] == '[' && v[caret - 1] == '[';
        if now && !self.open {
            self.sel = 0;
        }
        self.open = now;
    }

    /// A key typed while the picker is open, with `n` notes listed: see `pick_step`.
    pub fn key(&mut self, k: &str, ctrl: bool, n: usize) -> (r: PickAct)
        requires
            old(self).sel < n || n == 0,
        ensures
            (final(self).open, final(self).sel as int, r) == pick_step(
                old(self).open,
                old(self).sel as int,
                k@,
                ctrl,
                n as int,
            ),
            final(self).sel < n || n == 0,
    {
        if str_is(k, "ArrowDown") || (ctrl && str_is(k, "n")) {
            self.sel = if n == 0 { 0 } else if self.sel + 1 < n { self.sel + 1 } else { 0 };
            PickAct::Moved
        } else if str_is(k, "ArrowUp") || (ctrl && str_is(k, "p")) {
            self.sel = if n == 0 { 0 } else if self.sel > 0 { self.sel - 1 } else { n - 1 };
            PickAct::Moved
        } else if str_is(k, "Enter") || str_is(k, "Tab") {
            self.open = false;
            if n > 0 {
                PickAct::Insert(self.sel)
            } else {
                PickAct::Close
            }
        } else if str_is(k, "Escape") {
            self.open = false;
            PickAct::Close
        } else {
            PickAct::Pass
        }
    }
}

/// The name a link uses for a note file: without its `.md`.
pub open spec fn link_name(file: Seq<char>) -> Seq<char> {
    if ends_with_md(file) {
        file.take(file.len() - 3)
    } else {
        file
    }
}

/// The text after putting in the link to the note file `file` at the caret (just
/// after `[[`): the name and the closing `]]`.
pub open spec fn completed(t: Seq<char>, caret: int, file: Seq<char>) -> Seq<char> {
    t.take(caret) + link_name(file) + seq![']', ']'] + t.skip(caret)
}

/// Put in the link to the note file `file` at the caret; returns the text and the
/// caret after the closing `]]`.
pub fn complete_link(text: &str, caret: usize, file: &str) -> (r: (String, usize))
    requires
        caret <= text@.len(),
    ensures
        r.0@ == completed(text@, caret as int, file@),
        r.1 == caret + link_name(file@).len() + 2,
{
    let t = chars_of(text);
    let f = chars_of(file);
    let m = f.len();
    let stem = if m >= 3 && f[m - 3] == '.' && f[m - 2] == 'm' && f[m - 1] == 'd' {
        m - 3
    } else {
        m
    };
    let mut out: Vec<char> = Vec::new();
    for i in 0..caret
        invariant
            caret <= t@.len(),
            out@ == t@.take(i as int),
    {
        out.push(t[i]);
        assert(t@.take(i + 1) == t@.take(i as int).push(t@[i as int]));
    }
    for i in 0..stem
        invariant
            stem <= f@.len(),
            out@ == t@.take(caret as int) + f@.take(i as int),
    {
        out.push(f[i]);
        assert(f@.take(i + 1) == f@.take(i as int).push(f@[i as int]));
    }
    assert(f@.take(stem as int) == link_name(f@));
    out.push(']');
    out.push(']');
    let c = out.len();
    let ghost head = out@;
    let n = t.len();
    for i in caret..n
        invariant
            caret <= n,
            n == t@.len(),
            out@ == head + t@.subrange(caret as int, i as int),
    {
        out.push(t[i]);
        assert(t@.subrange(caret as int, i + 1) == t@.subrange(caret as int, i as int).push(
            t@[i as int],
        ));
    }
    assert(t@.subrange(caret as int, n as int) == t@.skip(caret as int));
    (string_of(&out), c)
}

/// The link the picker puts in for a note file opens that file again, unless the
/// name without its `.md` still ends in `.md`.
pub proof fn lemma_picked_link_opens(file: Seq<char>)
    requires
        !ends_with_md(link_name(file)),
    ensures
        ends_with_md(file) ==> note_file(link_name(file)) == file,
{
    reveal_strlit(".md");
    if ends_with_md(file) {
        assert(file.take(file.len() - 3) + ".md"@ == file);
    }
}

/// Moving down then up, or up then down, comes back to the same note, and each
/// move stays within the list.
pub proof fn lemma_picker_moves(sel: int, n: int, down: bool)
    requires
        0 <= sel < n,
    ensures
        0 <= next_sel(sel, n, down) < n,
        next_sel(next_sel(sel, n, down), n, !down) == sel,
        n > 1 ==> next_sel(sel, n, down) != sel,
{
}

/// The link name of a note file is the file without its `.md`: adding `.md` back
/// gives the file; a file without `.md` is its own link name.
pub proof fn lemma_link_name_md(file: Seq<char>)
    ensures
        ends_with_md(file) ==> link_name(file) + ".md"@ == file,
        !ends_with_md(file) ==> link_name(file) == file,
{
    reveal_strlit(".md");
    if ends_with_md(file) {
        assert(link_name(file) + ".md"@ =~= file);
    }
}

/// Completing a link keeps the text before and after the caret, and puts the link
/// name and `]]` between them.
pub proof fn lemma_completed_parts(t: Seq<char>, caret: int, file: Seq<char>)
    requires
        0 <= caret <= t.len(),
    ensures
        completed(t, caret, file).take(caret) == t.take(caret),
        completed(t, caret, file).subrange(caret, caret + link_name(file).len()) == link_name(file),
        completed(t, caret, file)[caret + link_name(file).len()] == ']',
        completed(t, caret, file)[caret + link_name(file).len() + 1] == ']',
        completed(t, caret, file).skip(caret + link_name(file).len() + 2) == t.skip(caret),
{
    let r = completed(t, caret, file);
    let k = link_name(file).len() as int;
    assert(r.take(caret) =~= t.take(caret));
    assert(r.subrange(caret, caret + k) =~= link_name(file));
    assert(r.skip(caret + k + 2) =~= t.skip(caret));
}

} // verus!
