//! Wikilinks: `[[note]]` and `[[note|alias]]` in a note are rewritten into
//! markdown links `[alias](nyan:note)` before the markdown is rendered.

use vstd::prelude::*;
use crate::text::{
    all_white, chars_of, is_white_space, lemma_trimmed_around, push_char, string_of, trim_bounds,
    trimmed,
};

verus! {

broadcast use vstd::string::group_string_axioms;

/// The scheme of the links that name a note.
pub const NOTE_SCHEME: &'static str = "nyan:";

/// The first `i >= from` where `s` holds `c` twice in a row.
pub open spec fn find_pair(s: Seq<char>, c: char, from: int) -> Option<int>
    decreases s.len() - from,
{
    if from < 0 || from + 1 >= s.len() {
        None
    } else if s[from] == c && s[from + 1] == c {
        Some(from)
    } else {
        find_pair(s, c, from + 1)
    }
}

/// The first `i >= from` where `s` holds `c`.
pub open spec fn find_char(s: Seq<char>, c: char, from: int) -> Option<int>
    decreases s.len() - from,
{
    if from < 0 || from >= s.len() {
        None
    } else if s[from] == c {
        Some(from)
    } else {
        find_char(s, c, from + 1)
    }
}

pub proof fn lemma_find_pair(s: Seq<char>, c: char, from: int)
    ensures
        find_pair(s, c, from) matches Some(i) ==> from <= i && i + 1 < s.len() && s[i] == c
            && s[i + 1] == c,
    decreases s.len() - from,
{
    if !(from < 0 || from + 1 >= s.len()) && !(s[from] == c && s[from + 1] == c) {
        lemma_find_pair(s, c, from + 1);
    }
}

pub proof fn lemma_find_char(s: Seq<char>, c: char, from: int)
    ensures
        find_char(s, c, from) matches Some(i) ==> from <= i < s.len() && s[i] == c,
    decreases s.len() - from,
{
    if !(from < 0 || from >= s.len()) && s[from] != c {
        lemma_find_char(s, c, from + 1);
    }
}

/// The markdown link for the inside of `[[...]]`: `target|label` or just `target`,
/// both trimmed.
pub open spec fn wikilink(inner: Seq<char>) -> Seq<char> {
    let (target, label) = match find_char(inner, '|', 0) {
        Some(p) => (inner.take(p), inner.skip(p + 1)),
        None => (inner, inner),
    };
    seq!['['] + trimmed(label) + seq![']', '('] + NOTE_SCHEME@ + trimmed(target) + seq![')']
}

/// `s` from `pos` on, with every `[[inner]]` whose inner part is not empty and holds
/// no '\n' rewritten into a markdown link; other `[[` are kept as they are.
pub open spec fn expand_from(s: Seq<char>, pos: int) -> Seq<char>
    decreases s.len() - pos,
{
    if pos < 0 {
        Seq::empty()
    } else {
        match find_pair(s, '[', pos) {
            None => s.subrange(pos, s.len() as int),
            Some(start) => {
                proof {
                    lemma_find_pair(s, '[', pos);
                    lemma_find_pair(s, ']', start + 2);
                }
                let a = start + 2;
                let e = find_pair(s, ']', a);
                if e is Some && e->0 > a && !s.subrange(a, e->0).contains('\n') {
                    s.subrange(pos, start) + wikilink(s.subrange(a, e->0)) + expand_from(
                        s,
                        e->0 + 2,
                    )
                } else {
                    s.subrange(pos, a) + expand_from(s, a)
                }
            },
        }
    }
}

/// The whole text with its wikilinks rewritten.
pub open spec fn expanded(s: Seq<char>) -> Seq<char> {
    expand_from(s, 0)
}

fn find_pair_at(v: &Vec<char>, c: char, from: usize) -> (r: Option<usize>)
    requires
        from <= v@.len(),
    ensures
        r matches Some(i) ==> find_pair(v@, c, from as int) == Some(i as int),
        r is None ==> find_pair(v@, c, from as int) is None,
{
    let n = v.len();
    let mut i = from;
    while i < n && n - i > 1
        invariant
            from <= i <= n,
            n == v@.len(),
            find_pair(v@, c, i as int) == find_pair(v@, c, from as int),
        decreases n - i,
    {
        if v[i] == c && v[i + 1] == c {
            return Some(i);
        }
        i = i + 1;
    }
    None
}

fn find_char_in(v: &Vec<char>, c: char) -> (r: Option<usize>)
    ensures
        r matches Some(i) ==> find_char(v@, c, 0) == Some(i as int),
        r is None ==> find_char(v@, c, 0) is None,
{
    let n = v.len();
    let mut i: usize = 0;
    while i < n
        invariant
            i <= n,
            n == v@.len(),
            find_char(v@, c, i as int) == find_char(v@, c, 0),
        decreases n - i,
    {
        if v[i] == c {
            return Some(i);
        }
        i = i + 1;
    }
    None
}

fn has_char(v: &Vec<char>, from: usize, to: usize, c: char) -> (r: bool)
    requires
        from <= to <= v@.len(),
    ensures
        r == v@.subrange(from as int, to as int).contains(c),
{
    let mut i = from;
    while i < to
        invariant
            from <= i <= to <= v@.len(),
            forall|j: int| from <= j < i ==> v@[j] != c,
        decreases to - i,
    {
        if v[i] == c {
            assert(v@.subrange(from as int, to as int)[i - from] == c);
            return true;
        }
        i = i + 1;
    }
    false
}

fn push_range(out: &mut Vec<char>, v: &Vec<char>, from: usize, to: usize)
    requires
        from <= to <= v@.len(),
    ensures
        final(out)@ == old(out)@ + v@.subrange(from as int, to as int),
{
    let ghost o = out@;
    let mut i = from;
    while i < to
        invariant
            from <= i <= to <= v@.len(),
            out@ == o + v@.subrange(from as int, i as int),
        decreases to - i,
    {
        out.push(v[i]);
        assert(v@.subrange(from as int, i + 1) == v@.subrange(from as int, i as int).push(
            v@[i as int],
        ));
        i = i + 1;
    }
}

fn push_link(out: &mut Vec<char>, inner: &Vec<char>)
    ensures
        final(out)@ == old(out)@ + wikilink(inner@),
{
    let n = inner.len();
    let (t0, t1, l0, l1) = match find_char_in(inner, '|') {
        Some(p) => {
            proof {
                lemma_find_char(inner@, '|', 0);
            }
            (0, p, p + 1, n)
        },
        None => (0, n, 0, n),
    };
    let (ta, tb) = trim_bounds(inner, t0, t1);
    let (la, lb) = trim_bounds(inner, l0, l1);
    proof {
        assert(inner@.take(t1 as int) == inner@.subrange(0, t1 as int));
        assert(inner@.skip(l0 as int) == inner@.subrange(l0 as int, n as int));
        assert(inner@ == inner@.subrange(0, n as int));
    }
    let scheme = chars_of(NOTE_SCHEME);
    out.push('[');
    push_range(out, inner, la, lb);
    out.push(']');
    out.push('(');
    push_range(out, &scheme, 0, scheme.len());
    assert(scheme@.subrange(0, scheme@.len() as int) == scheme@);
    push_range(out, inner, ta, tb);
    out.push(')');
}

/// `[[note]]` and `[[note|alias]]` become `[alias](nyan:note)`, so that the markdown
/// renderer makes them links.
pub fn expand_wikilinks(src: &str) -> (out: String)
    ensures
        out@ == expanded(src@),
{
    let v = chars_of(src);
    let n = v.len();
    let mut out: Vec<char> = Vec::new();
    let mut pos: usize = 0;
    loop
        invariant_except_break
            out@ + expand_from(v@, pos as int) == expanded(v@),
        invariant
            n == v@.len(),
            v@ == src@,
            pos <= n,
        ensures
            out@ == expanded(v@),
        decreases n - pos,
    {
        match find_pair_at(&v, '[', pos) {
            None => {
                push_range(&mut out, &v, pos, n);
                break;
            },
            Some(start) => {
                proof {
                    lemma_find_pair(v@, '[', pos as int);
                }
                let a = start + 2;
                let e = find_pair_at(&v, ']', a);
                proof {
                    lemma_find_pair(v@, ']', a as int);
                }
                let mut linked = false;
                if let Some(end) = e {
                    if end > a && !has_char(&v, a, end, '\n') {
                        push_range(&mut out, &v, pos, start);
                        let mut inner: Vec<char> = Vec::new();
                        push_range(&mut inner, &v, a, end);
                        assert(inner@ == v@.subrange(a as int, end as int));
                        push_link(&mut out, &inner);
                        pos = end + 2;
                        linked = true;
                    }
                }
                if !linked {
                    push_range(&mut out, &v, pos, a);
                    pos = a;
                }
            },
        }
    }
    string_of(&out)
}

/// pulldown-cmark's `Options::ENABLE_TABLES` bit.
pub const MD_TABLES: u32 = 2;

/// pulldown-cmark's `Options::ENABLE_STRIKETHROUGH` bit.
pub const MD_STRIKETHROUGH: u32 = 8;

/// pulldown-cmark's `Options::ENABLE_TASKLISTS` bit.
pub const MD_TASKLISTS: u32 = 16;

/// The markdown extensions that notes are rendered with: tables, strikethrough, task lists.
pub const MD_OPTIONS: u32 = MD_TABLES | MD_STRIKETHROUGH | MD_TASKLISTS;

/// The HTML that pulldown-cmark renders from the markdown `src` with the extension
/// bits `options`.
pub uninterp spec fn markdown_html(src: Seq<char>, options: u32) -> Seq<char>;

/// Calls `pulldown_cmark::html::push_html` on an empty string with the events of
/// `pulldown_cmark::Parser::new_ext(src, Options::from_bits_truncate(options))`.
/// The contract claims only that the HTML is a function of `src` and `options`;
/// what that function is, the markdown grammar, is left unsaid, and so is freedom
/// from panics, which rests on pulldown-cmark's internal invariants.
#[verifier::external_body]
fn render_markdown(src: &str, options: u32) -> (html: String)
    ensures
        html@ == markdown_html(src@, options),
{
    let mut out = String::new();
    let opts = pulldown_cmark::Options::from_bits_truncate(options);
    pulldown_cmark::html::push_html(&mut out, pulldown_cmark::Parser::new_ext(src, opts));
    out
}

/// A note's markdown as HTML, its wikilinks made into links first.
pub fn md_to_html(src: &str) -> (html: String)
    ensures
        html@ == markdown_html(expanded(src@), MD_OPTIONS),
{
    let expanded_src = expand_wikilinks(src);
    render_markdown(expanded_src.as_str(), MD_OPTIONS)
}

/// Text in which `[[` never occurs comes through the rewriting unchanged.
pub proof fn lemma_no_wikilinks_unchanged(s: Seq<char>)
    requires
        find_pair(s, '[', 0) is None,
    ensures
        expanded(s) == s,
{
    assert(s.subrange(0, s.len() as int) == s);
}

/// The rewriting works link by link: the text before the first `[[`, the link or
/// the kept `[[`, then the rest rewritten on its own.
pub proof fn lemma_expand_prefix(s: Seq<char>, start: int)
    requires
        find_pair(s, '[', 0) == Some(start),
    ensures
        expanded(s).subrange(0, start) == s.subrange(0, start),
{
    lemma_find_pair(s, '[', 0);
    let a = start + 2;
    let e = find_pair(s, ']', a);
    lemma_find_pair(s, ']', a);
    if e is Some && e->0 > a && !s.subrange(a, e->0).contains('\n') {
        let w = wikilink(s.subrange(a, e->0));
        let r = expand_from(s, e->0 + 2);
        assert((s.subrange(0, start) + w + r).subrange(0, start) == s.subrange(0, start));
    } else {
        let r = expand_from(s, a);
        assert((s.subrange(0, a) + r).subrange(0, start) == s.subrange(0, start));
    }
}

/// `s` never holds `c` twice in a row.
pub open spec fn no_pair(s: Seq<char>, c: char) -> bool {
    forall|i: int| 0 <= i < s.len() - 1 ==> !(#[trigger] s[i] == c && s[i + 1] == c)
}

/// A link and the text after it: text without `[[` (not ending in '['), then
/// `[[inner]]` with a non-empty `inner` that holds no '\n' nor `]]` and does not
/// end in ']', then any text `b`, is rewritten into the text, the markdown link,
/// and `b` rewritten on its own.
pub proof fn lemma_expand_link(a: Seq<char>, inner: Seq<char>, b: Seq<char>)
    requires
        no_pair(a, '['),
        a.len() == 0 || a.last() != '[',
        inner.len() > 0,
        !inner.contains('\n'),
        no_pair(inner, ']'),
        inner.last() != ']',
    ensures
        expanded(a + seq!['[', '['] + inner + seq![']', ']'] + b) == a + wikilink(inner)
            + expanded(b),
{
    let p = a + seq!['[', '['] + inner + seq![']', ']'];
    let s = p + b;
    let n = a.len() as int;
    let a2 = n + 2;
    let e = a2 + inner.len();
    assert forall|i: int| 0 <= i < n implies !(#[trigger] s[i] == '[' && s[i + 1] == '[') by {
        if i < n - 1 {
            assert(s[i] == a[i] && s[i + 1] == a[i + 1]);
        } else {
            assert(s[i] == a.last());
        }
    }
    lemma_find_pair_skip(s, '[', 0, n);
    assert(find_pair(s, '[', 0) == Some(n));
    assert forall|i: int| a2 <= i < e implies !(#[trigger] s[i] == ']' && s[i + 1] == ']') by {
        assert(s[i] == inner[i - a2]);
        if i < e - 1 {
            assert(s[i + 1] == inner[i + 1 - a2]);
        }
    }
    lemma_find_pair_skip(s, ']', a2, e);
    assert(find_pair(s, ']', a2) == Some(e));
    assert(s.subrange(a2, e) == inner);
    assert(s.subrange(0, n) == a);
    lemma_expand_shift(p, b, 0);
    assert(p.len() == e + 2);
}

/// No pair of `c` starts in `from..to`: the search from `from` goes on at `to`.
proof fn lemma_find_pair_skip(s: Seq<char>, c: char, from: int, to: int)
    requires
        0 <= from <= to,
        forall|i: int| from <= i < to ==> !(#[trigger] s[i] == c && s[i + 1] == c),
    ensures
        to + 1 < s.len() ==> find_pair(s, c, from) == find_pair(s, c, to),
    decreases to - from,
{
    if from < to {
        lemma_find_pair_skip(s, c, from + 1, to);
    }
}

/// Searching `p + b` from inside `b` finds what searching `b` finds, shifted.
proof fn lemma_find_pair_shift(p: Seq<char>, b: Seq<char>, c: char, i: int)
    requires
        0 <= i,
    ensures
        find_pair(p + b, c, p.len() + i) == (match find_pair(b, c, i) {
            Some(j) => Some(j + p.len()),
            None => None,
        }),
    decreases b.len() - i,
{
    let s = p + b;
    if i + 1 < b.len() {
        assert(s[p.len() + i] == b[i] && s[p.len() + i + 1] == b[i + 1]);
        if !(b[i] == c && b[i + 1] == c) {
            lemma_find_pair_shift(p, b, c, i + 1);
        }
    }
}

/// Rewriting `p + b` from inside `b` is rewriting `b` on its own.
proof fn lemma_expand_shift(p: Seq<char>, b: Seq<char>, i: int)
    requires
        0 <= i <= b.len(),
    ensures
        expand_from(p + b, p.len() + i) == expand_from(b, i),
    decreases b.len() - i,
{
    let s = p + b;
    let m = p.len() as int;
    lemma_find_pair_shift(p, b, '[', i);
    lemma_find_pair(b, '[', i);
    match find_pair(b, '[', i) {
        None => {
            assert(s.subrange(m + i, s.len() as int) == b.subrange(i, b.len() as int));
        },
        Some(start) => {
            let a = start + 2;
            lemma_find_pair_shift(p, b, ']', a);
            lemma_find_pair(b, ']', a);
            assert(s.subrange(m + i, m + start) == b.subrange(i, start));
            match find_pair(b, ']', a) {
                Some(e) => {
                    assert(s.subrange(m + a, m + e) == b.subrange(a, e));
                    lemma_expand_shift(p, b, e + 2);
                },
                None => {},
            }
            assert(s.subrange(m + i, m + a) == b.subrange(i, a));
            lemma_expand_shift(p, b, a);
        },
    }
}

/// The note that the inside of `[[...]]` names: the part before '|' (or all of
/// it), trimmed.
pub open spec fn link_target_of(inner: Seq<char>) -> Seq<char> {
    match find_char(inner, '|', 0) {
        Some(p) => trimmed(inner.take(p)),
        None => trimmed(inner),
    }
}

/// The notes named by the wikilinks of `s` from `pos` on, in order: the links that
/// `expand_from` rewrites.
pub open spec fn targets_from(s: Seq<char>, pos: int) -> Seq<Seq<char>>
    decreases s.len() - pos,
{
    if pos < 0 {
        Seq::empty()
    } else {
        match find_pair(s, '[', pos) {
            None => Seq::empty(),
            Some(start) => {
                proof {
                    lemma_find_pair(s, '[', pos);
                    lemma_find_pair(s, ']', start + 2);
                }
                let a = start + 2;
                let e = find_pair(s, ']', a);
                if e is Some && e->0 > a && !s.subrange(a, e->0).contains('\n') {
                    seq![link_target_of(s.subrange(a, e->0))] + targets_from(s, e->0 + 2)
                } else {
                    targets_from(s, a)
                }
            },
        }
    }
}

/// The notes that the wikilinks of `s` name, in order.
pub open spec fn link_targets(s: Seq<char>) -> Seq<Seq<char>> {
    targets_from(s, 0)
}

/// The views of a vector of character vectors.
pub open spec fn char_vecs(v: Seq<Vec<char>>) -> Seq<Seq<char>> {
    v.map_values(|x: Vec<char>| x@)
}

/// The notes that the wikilinks of `src` name, in order.
pub fn wikilink_targets(src: &str) -> (r: Vec<Vec<char>>)
    ensures
        char_vecs(r@) == link_targets(src@),
{
    let v = chars_of(src);
    let n = v.len();
    let mut out: Vec<Vec<char>> = Vec::new();
    let mut pos: usize = 0;
    loop
        invariant_except_break
            char_vecs(out@) + targets_from(v@, pos as int) == link_targets(v@),
        invariant
            n == v@.len(),
            v@ == src@,
            pos <= n,
        ensures
            char_vecs(out@) == link_targets(v@),
        decreases n - pos,
    {
        match find_pair_at(&v, '[', pos) {
            None => {
                assert(targets_from(v@, pos as int) == Seq::<Seq<char>>::empty());
                break;
            },
            Some(start) => {
                proof {
                    lemma_find_pair(v@, '[', pos as int);
                }
                let a = start + 2;
                let e = find_pair_at(&v, ']', a);
                proof {
                    lemma_find_pair(v@, ']', a as int);
                }
                let mut linked = false;
                if let Some(end) = e {
                    if end > a && !has_char(&v, a, end, '\n') {
                        let mut inner: Vec<char> = Vec::new();
                        push_range(&mut inner, &v, a, end);
                        assert(inner@ == v@.subrange(a as int, end as int));
                        let t = target_chars(&inner);
                        let ghost o = char_vecs(out@);
                        out.push(t);
                        assert(char_vecs(out@) == o.push(link_target_of(inner@)));
                        assert(o.push(link_target_of(inner@)) + targets_from(v@, end + 2) == o + (
                        seq![link_target_of(inner@)] + targets_from(v@, end + 2)));
                        pos = end + 2;
                        linked = true;
                    }
                }
                if !linked {
                    pos = a;
                }
            },
        }
    }
    out
}

fn target_chars(inner: &Vec<char>) -> (r: Vec<char>)
    ensures
        r@ == link_target_of(inner@),
{
    let n = inner.len();
    let end = match find_char_in(inner, '|') {
        Some(p) => {
            proof {
                lemma_find_char(inner@, '|', 0);
            }
            p
        },
        None => n,
    };
    let (ta, tb) = trim_bounds(inner, 0, end);
    proof {
        assert(inner@.take(end as int) == inner@.subrange(0, end as int));
        assert(inner@ == inner@.subrange(0, n as int));
    }
    let mut r: Vec<char> = Vec::new();
    push_range(&mut r, inner, ta, tb);
    r
}

/// `s` holds no two `c` in a row from `from` on: the search finds nothing.
proof fn lemma_no_pair_none(s: Seq<char>, c: char, from: int)
    requires
        0 <= from,
        forall|i: int| from <= i < s.len() - 1 ==> !(#[trigger] s[i] == c && s[i + 1] == c),
    ensures
        find_pair(s, c, from) is None,
    decreases s.len() - from,
{
    if from + 1 < s.len() {
        lemma_no_pair_none(s, c, from + 1);
    }
}

/// Whether the first `]]` of `m` comes too early or too late to close a link: there
/// is none, it starts `m`, or a '\n' comes before it.
pub open spec fn no_link_close(m: Seq<char>) -> bool {
    ||| no_pair(m, ']')
    ||| m.len() >= 2 && m[0] == ']' && m[1] == ']'
    ||| exists|e: int|
        0 < e && e + 1 < m.len() && m[e] == ']' && m[e + 1] == ']' && no_pair(m.take(e + 1), ']')
            && #[trigger] m.take(e).contains('\n')
}

/// A `[[` that does not open a link is kept as it is, and the rewriting goes on
/// right after it: text without `[[` (not ending in '['), then `[[`, then `m` whose
/// first `]]` is missing, starts `m` or follows a '\n', is rewritten into the text,
/// `[[`, and `m` rewritten on its own.
pub proof fn lemma_expand_stray_open(a: Seq<char>, m: Seq<char>)
    requires
        no_pair(a, '['),
        a.len() == 0 || a.last() != '[',
        no_link_close(m),
    ensures
        expanded(a + seq!['[', '['] + m) == a + seq!['[', '['] + expanded(m),
        link_targets(a + seq!['[', '['] + m) == link_targets(m),
{
    let p = a + seq!['[', '['];
    let s = p + m;
    let n = a.len() as int;
    let a2 = n + 2;
    assert forall|i: int| 0 <= i < n implies !(#[trigger] s[i] == '[' && s[i + 1] == '[') by {
        if i < n - 1 {
            assert(s[i] == a[i] && s[i + 1] == a[i + 1]);
        } else {
            assert(s[i] == a.last());
        }
    }
    lemma_find_pair_skip(s, '[', 0, n);
    assert(find_pair(s, '[', 0) == Some(n));
    lemma_find_pair_shift(p, m, ']', 0);
    if no_pair(m, ']') {
        lemma_no_pair_none(m, ']', 0);
    } else if m.len() >= 2 && m[0] == ']' && m[1] == ']' {
        assert(find_pair(m, ']', 0) == Some(0int));
    } else {
        let e = choose|e: int|
            0 < e && e + 1 < m.len() && m[e] == ']' && m[e + 1] == ']' && no_pair(
                m.take(e + 1),
                ']',
            ) && #[trigger] m.take(e).contains('\n');
        assert forall|i: int| 0 <= i < e implies !(#[trigger] m[i] == ']' && m[i + 1] == ']') by {
            assert(m.take(e + 1)[i] == m[i] && m.take(e + 1)[i + 1] == m[i + 1]);
        }
        lemma_find_pair_skip(m, ']', 0, e);
        assert(find_pair(m, ']', 0) == Some(e));
        assert(s.subrange(a2, a2 + e) == m.take(e));
    }
    assert(s.subrange(0, a2) == p);
    assert(p.len() == a2);
    lemma_expand_shift(p, m, 0);
    lemma_targets_shift(p, m, 0);
}

/// Listing the links of `p + b` from inside `b` is listing those of `b`.
proof fn lemma_targets_shift(p: Seq<char>, b: Seq<char>, i: int)
    requires
        0 <= i <= b.len(),
    ensures
        targets_from(p + b, p.len() + i) == targets_from(b, i),
    decreases b.len() - i,
{
    let s = p + b;
    let m = p.len() as int;
    lemma_find_pair_shift(p, b, '[', i);
    lemma_find_pair(b, '[', i);
    match find_pair(b, '[', i) {
        None => {},
        Some(start) => {
            let a = start + 2;
            lemma_find_pair_shift(p, b, ']', a);
            lemma_find_pair(b, ']', a);
            match find_pair(b, ']', a) {
                Some(e) => {
                    assert(s.subrange(m + a, m + e) == b.subrange(a, e));
                    lemma_targets_shift(p, b, e + 2);
                },
                None => {},
            }
            lemma_targets_shift(p, b, a);
        },
    }
}

/// The links of text without `[[` (not ending in '['), then `[[inner]]` (as in
/// `lemma_expand_link`), then `b`, are the note that `inner` names, then the links
/// of `b`.
pub proof fn lemma_targets_link(a: Seq<char>, inner: Seq<char>, b: Seq<char>)
    requires
        no_pair(a, '['),
        a.len() == 0 || a.last() != '[',
        inner.len() > 0,
        !inner.contains('\n'),
        no_pair(inner, ']'),
        inner.last() != ']',
    ensures
        link_targets(a + seq!['[', '['] + inner + seq![']', ']'] + b) == seq![
            link_target_of(inner),
        ] + link_targets(b),
{
    let p = a + seq!['[', '['] + inner + seq![']', ']'];
    let s = p + b;
    let n = a.len() as int;
    let a2 = n + 2;
    let e = a2 + inner.len();
    assert forall|i: int| 0 <= i < n implies !(#[trigger] s[i] == '[' && s[i + 1] == '[') by {
        if i < n - 1 {
            assert(s[i] == a[i] && s[i + 1] == a[i + 1]);
        } else {
            assert(s[i] == a.last());
        }
    }
    lemma_find_pair_skip(s, '[', 0, n);
    assert(find_pair(s, '[', 0) == Some(n));
    assert forall|i: int| a2 <= i < e implies !(#[trigger] s[i] == ']' && s[i + 1] == ']') by {
        assert(s[i] == inner[i - a2]);
        if i < e - 1 {
            assert(s[i + 1] == inner[i + 1 - a2]);
        }
    }
    lemma_find_pair_skip(s, ']', a2, e);
    assert(find_pair(s, ']', a2) == Some(e));
    assert(s.subrange(a2, e) == inner);
    lemma_targets_shift(p, b, 0);
    assert(p.len() == e + 2);
}

/// The search for `c` from `from` finds the first one.
proof fn lemma_find_char_first(s: Seq<char>, c: char, from: int, k: int)
    requires
        0 <= from <= k <= s.len(),
        forall|i: int| from <= i < k ==> #[trigger] s[i] != c,
    ensures
        k < s.len() && s[k] == c ==> find_char(s, c, from) == Some(k),
        k == s.len() ==> find_char(s, c, from) is None,
    decreases k - from,
{
    if from < k {
        lemma_find_char_first(s, c, from + 1, k);
    }
}

/// A wikilink's target and label lose the white space around them: `[[ note | alias ]]`
/// becomes `[alias](nyan:note)`, and `[[ note ]]` becomes `[note](nyan:note)`; the
/// note the link names is `note`.
pub proof fn lemma_wikilink_parts(
    w1: Seq<char>,
    tg: Seq<char>,
    w2: Seq<char>,
    w3: Seq<char>,
    lb: Seq<char>,
    w4: Seq<char>,
)
    requires
        all_white(w1),
        all_white(w2),
        all_white(w3),
        all_white(w4),
        tg.len() > 0,
        !is_white_space(tg[0]),
        !is_white_space(tg.last()),
        !tg.contains('|'),
        lb.len() > 0,
        !is_white_space(lb[0]),
        !is_white_space(lb.last()),
    ensures
        wikilink(w1 + tg + w2 + seq!['|'] + w3 + lb + w4) == seq!['['] + lb + seq![']', '(']
            + NOTE_SCHEME@ + tg + seq![')'],
        link_target_of(w1 + tg + w2 + seq!['|'] + w3 + lb + w4) == tg,
        wikilink(w1 + tg + w2) == seq!['['] + tg + seq![']', '('] + NOTE_SCHEME@ + tg + seq![')'],
        link_target_of(w1 + tg + w2) == tg,
{
    let head = w1 + tg + w2;
    let s = head + seq!['|'] + w3 + lb + w4;
    assert(!is_white_space('|'));
    assert forall|i: int| 0 <= i < head.len() implies #[trigger] head[i] != '|' by {
        if i < w1.len() {
            assert(is_white_space(w1[i]));
        } else if i < w1.len() + tg.len() {
            assert(tg[i - w1.len()] == head[i]);
        } else {
            assert(is_white_space(w2[i - w1.len() - tg.len()]));
        }
    }
    assert forall|i: int| 0 <= i < head.len() implies #[trigger] s[i] != '|' by {
        assert(s[i] == head[i]);
    }
    lemma_find_char_first(s, '|', 0, head.len() as int);
    lemma_find_char_first(head, '|', 0, head.len() as int);
    assert(s.take(head.len() as int) == head);
    assert(s.skip(head.len() + 1int) == w3 + lb + w4);
    lemma_trimmed_around(w1, tg, w2);
    lemma_trimmed_around(w3, lb, w4);
}

} // verus!
