//! Note names: the file a name opens, the note a preview link names, and which
//! names stay inside the notes folder.

use vstd::prelude::*;
use crate::text::{chars_of, is_white_space, lemma_trimmed_around, trim_bounds, trimmed};
use crate::wiki::{
    NOTE_SCHEME, char_vecs, lemma_targets_link, link_target_of, link_targets, no_pair,
    wikilink_targets,
};

verus! {

broadcast use vstd::string::group_string_axioms;

/// Whether `p` ends in `.md`.
pub open spec fn ends_with_md(p: Seq<char>) -> bool {
    p.len() >= 3 && p[p.len() - 3] == '.' && p[p.len() - 2] == 'm' && p[p.len() - 1] == 'd'
}

/// The file that `:e name` or a click on a note opens: the name itself when it
/// ends in `.md`, else the name with `.md` added.
pub open spec fn note_file(p: Seq<char>) -> Seq<char> {
    if ends_with_md(p) {
        p
    } else {
        p + ".md"@
    }
}

/// The file a note name opens.
pub fn note_file_name(p: &str) -> (r: String)
    ensures
        r@ == note_file(p@),
{
    let v = chars_of(p);
    let n = v.len();
    let mut r = p.to_string();
    if !(n >= 3 && v[n - 3] == '.' && v[n - 2] == 'm' && v[n - 1] == 'd') {
        r.append(".md");
    }
    r
}

/// The note that a link of the preview names: what follows the note scheme, or
/// nothing when the link is not a note link.
pub open spec fn link_note(href: Seq<char>) -> Option<Seq<char>> {
    let m = NOTE_SCHEME@.len() as int;
    if href.len() >= m && href.take(m) == NOTE_SCHEME@ {
        Some(href.skip(m))
    } else {
        None
    }
}

/// The note a preview link names, still percent-encoded.
pub fn link_target(href: &str) -> (r: Option<String>)
    ensures
        r matches Some(s) ==> link_note(href@) == Some(s@),
        r is None ==> link_note(href@) is None,
{
    let v = chars_of(href);
    let scheme = chars_of(NOTE_SCHEME);
    let m = scheme.len();
    let n = v.len();
    if n < m {
        return None;
    }
    let mut i: usize = 0;
    while i < m
        invariant
            i <= m <= n,
            m == scheme@.len(),
            n == v@.len(),
            scheme@ == NOTE_SCHEME@,
            v@ == href@,
            forall|j: int| 0 <= j < i ==> v@[j] == scheme@[j],
        decreases m - i,
    {
        if v[i] != scheme[i] {
            assert(v@.take(m as int)[i as int] != scheme@[i as int]);
            return None;
        }
        i = i + 1;
    }
    assert(v@.take(m as int) == scheme@);
    Some(href.substring_char(m, n).to_string())
}

/// Whether `c` separates path components: '/' everywhere, and '\' too on Windows.
pub open spec fn is_separator(c: char, windows: bool) -> bool {
    c == '/' || (windows && c == '\\')
}

fn separator(c: char, windows: bool) -> (r: bool)
    ensures
        r == is_separator(c, windows),
{
    c == '/' || (windows && c == '\\')
}

/// Whether the name has a '..' component at `i`: a run `..` between separators or
/// the ends of the name.
pub open spec fn parent_component_at(r: Seq<char>, i: int, windows: bool) -> bool {
    &&& 0 <= i
    &&& i == 0 || is_separator(r[i - 1], windows)
    &&& i + 2 <= r.len()
    &&& r[i] == '.'
    &&& r[i + 1] == '.'
    &&& i + 2 == r.len() || is_separator(r[i + 2], windows)
}

/// Whether the name starts with a Windows drive prefix such as `C:`.
pub open spec fn has_drive_prefix(r: Seq<char>) -> bool {
    &&& r.len() >= 2
    &&& ('a' <= r[0] <= 'z' || 'A' <= r[0] <= 'Z')
    &&& r[1] == ':'
}

/// Whether a note name, read as a path of the host (`windows` says which kind),
/// could leave the notes folder: it starts at a root (a separator), starts with a
/// drive prefix on Windows, or has a '..' component. These are the names whose
/// `std::path` components are not all plain names or '.'.
pub open spec fn escapes_folder(r: Seq<char>, windows: bool) -> bool {
    ||| r.len() > 0 && is_separator(r[0], windows)
    ||| windows && has_drive_prefix(r)
    ||| exists|i: int| #[trigger] parent_component_at(r, i, windows)
}

/// A note name that may be read or written: not blank, and staying in the notes folder.
pub open spec fn note_name_ok(r: Seq<char>, windows: bool) -> bool {
    trimmed(r).len() > 0 && !escapes_folder(r, windows)
}

/// Refuse note names that are blank or could leave the notes folder, with the
/// message the host shows; `windows` tells whether the host reads paths as Windows does.
pub fn check_note_name(rel: &str, windows: bool) -> (r: Result<(), String>)
    ensures
        r is Ok <==> note_name_ok(rel@, windows),
        r matches Err(m) ==> m@ == "bad note path: "@ + rel@,
{
    let v = chars_of(rel);
    let n = v.len();
    let (a, b) = trim_bounds(&v, 0, n);
    assert(v@.subrange(0, n as int) == v@);
    let drive = windows && n >= 2 && (('a' <= v[0] && v[0] <= 'z') || ('A' <= v[0] && v[0]
        <= 'Z')) && v[1] == ':';
    let mut bad = a == b || (n > 0 && separator(v[0], windows)) || drive;
    let mut i: usize = 0;
    while i < n && !bad
        invariant
            i <= n,
            n == v@.len(),
            v@ == rel@,
            bad == (trimmed(rel@).len() == 0 || (n > 0 && is_separator(v@[0], windows)) || (
            windows && has_drive_prefix(v@)) || exists|j: int|
                0 <= j < i && #[trigger] parent_component_at(v@, j, windows)),
        decreases n - i,
    {
        if (i == 0 || separator(v[i - 1], windows)) && n - i >= 2 && v[i] == '.' && v[i + 1]
            == '.' && (n - i == 2 || separator(v[i + 2], windows)) {
            assert(parent_component_at(v@, i as int, windows));
            bad = true;
        }
        i = i + 1;
    }
    proof {
        if !bad {
            assert forall|j: int| !parent_component_at(v@, j, windows) by {
                if parent_component_at(v@, j, windows) {
                    assert(0 <= j < i);
                }
            }
        }
    }
    if bad {
        let mut m = "bad note path: ".to_string();
        m.append(rel);
        Err(m)
    } else {
        Ok(())
    }
}

/// `a` comes strictly before `b` in the order of strings: character by character,
/// a proper prefix first.
pub open spec fn chars_lt(a: Seq<char>, b: Seq<char>) -> bool
    decreases a.len(),
{
    if b.len() == 0 {
        false
    } else if a.len() == 0 {
        true
    } else if a[0] != b[0] {
        (a[0] as u32) < (b[0] as u32)
    } else {
        chars_lt(a.drop_first(), b.drop_first())
    }
}

/// The strings of `v` as character sequences.
pub open spec fn name_views(v: Seq<String>) -> Seq<Seq<char>> {
    v.map_values(|s: String| s@)
}

/// No name comes after a later one.
pub open spec fn names_sorted(s: Seq<Seq<char>>) -> bool {
    forall|i: int, j: int| 0 <= i < j < s.len() ==> !chars_lt(#[trigger] s[j], #[trigger] s[i])
}

pub proof fn lemma_chars_lt_irreflexive(a: Seq<char>)
    ensures
        !chars_lt(a, a),
    decreases a.len(),
{
    if a.len() > 0 {
        lemma_chars_lt_irreflexive(a.drop_first());
    }
}

pub proof fn lemma_chars_lt_transitive(a: Seq<char>, b: Seq<char>, c: Seq<char>)
    requires
        chars_lt(a, b),
        chars_lt(b, c),
    ensures
        chars_lt(a, c),
    decreases a.len(),
{
    if a.len() > 0 && a[0] == b[0] && b[0] == c[0] {
        lemma_chars_lt_transitive(a.drop_first(), b.drop_first(), c.drop_first());
    }
}

fn chars_less(a: &Vec<char>, b: &Vec<char>) -> (r: bool)
    ensures
        r == chars_lt(a@, b@),
{
    let mut i: usize = 0;
    assert(a@.skip(0) == a@);
    assert(b@.skip(0) == b@);
    loop
        invariant
            i <= a@.len(),
            i <= b@.len(),
            chars_lt(a@.skip(i as int), b@.skip(i as int)) == chars_lt(a@, b@),
        decreases a@.len() - i,
    {
        if i == b.len() {
            return false;
        }
        if i == a.len() {
            return true;
        }
        if a[i] != b[i] {
            return (a[i] as u32) < (b[i] as u32);
        }
        assert(a@.skip(i as int).drop_first() == a@.skip(i + 1));
        assert(b@.skip(i as int).drop_first() == b@.skip(i + 1));
        i = i + 1;
    }
}

/// The note names in order, as the note list shows them.
pub fn sort_names(names: Vec<String>) -> (r: Vec<String>)
    ensures
        names_sorted(name_views(r@)),
        name_views(r@).to_multiset() == name_views(names@).to_multiset(),
{
    broadcast use vstd::seq_lib::group_to_multiset_ensures;

    let mut rest = names;
    let mut res: Vec<String> = Vec::new();
    assert(name_views(res@) == Seq::<Seq<char>>::empty());
    while rest.len() > 0
        invariant
            names_sorted(name_views(res@)),
            name_views(res@).to_multiset().add(name_views(rest@).to_multiset()) == name_views(
                names@,
            ).to_multiset(),
        decreases rest@.len(),
    {
        let ghost rest0 = rest@;
        let x = rest.pop().unwrap();
        assert(name_views(rest0) == name_views(rest@).push(x@));
        let xv = chars_of(x.as_str());
        let ghost v = name_views(res@);
        let mut p: usize = 0;
        while p < res.len() && !chars_less(&xv, &chars_of(res[p].as_str()))
            invariant
                p <= res@.len(),
                xv@ == x@,
                v == name_views(res@),
                forall|i: int| 0 <= i < p ==> !chars_lt(x@, #[trigger] v[i]),
            decreases res@.len() - p,
        {
            p = p + 1;
        }
        let ghost n = v.insert(p as int, x@);
        res.insert(p, x);
        assert(name_views(res@) == n);
        proof {
            broadcast use vstd::multiset::group_multiset_axioms;

            let rm = name_views(rest@).to_multiset();
            vstd::seq_lib::to_multiset_build(name_views(rest@), x@);
            vstd::seq_lib::to_multiset_insert(v, p as int, x@);
            assert(name_views(rest0).to_multiset() == rm.insert(x@));
            assert(n.to_multiset() == v.to_multiset().insert(x@));
            assert(n.to_multiset().add(rm) =~= v.to_multiset().add(rm.insert(x@)));
        }
        proof {
            lemma_chars_lt_irreflexive(x@);
            assert forall|i: int, j: int| 0 <= i < j < n.len() implies !chars_lt(
                #[trigger] n[j],
                #[trigger] n[i],
            ) by {
                if i == p && j > p {
                    if chars_lt(n[j], x@) {
                        assert(chars_lt(x@, v[p as int]));
                        lemma_chars_lt_transitive(v[j - 1], x@, v[p as int]);
                        if j - 1 > p {
                            assert(!chars_lt(v[j - 1], v[p as int]));
                        } else {
                            lemma_chars_lt_irreflexive(v[p as int]);
                        }
                    }
                } else if i < p && j == p {
                } else if i < p && j > p {
                    assert(!chars_lt(v[j - 1], v[i]));
                } else if j < p {
                    assert(!chars_lt(v[j], v[i]));
                } else {
                    assert(!chars_lt(v[j - 1], v[i - 1]));
                }
            }
        }
    }
    assert(name_views(rest@) == Seq::<Seq<char>>::empty());
    res
}

/// Opening a note's file name opens that same file.
pub proof fn lemma_note_file_idempotent(p: Seq<char>)
    ensures
        note_file(note_file(p)) == note_file(p),
{
    reveal_strlit(".md");
    let q = p + ".md"@;
    assert(q[q.len() - 3] == '.' && q[q.len() - 2] == 'm' && q[q.len() - 1] == 'd');
}

/// A link that a wikilink to `target` becomes names `target` again.
pub proof fn lemma_link_note_of_link(target: Seq<char>)
    ensures
        link_note(NOTE_SCHEME@ + target) == Some(target),
{
    let m = NOTE_SCHEME@.len() as int;
    assert((NOTE_SCHEME@ + target).take(m) == NOTE_SCHEME@);
    assert((NOTE_SCHEME@ + target).skip(m) == target);
}

/// Whether the note text `text` links to the note file `note`: one of its wikilinks
/// names a note that opens `note`.
pub open spec fn links_to(text: Seq<char>, note: Seq<char>) -> bool {
    exists|i: int|
        0 <= i < link_targets(text).len() && note_file(#[trigger] link_targets(text)[i]) == note
}

fn chars_eq(a: &Vec<char>, b: &Vec<char>) -> (r: bool)
    ensures
        r == (a@ == b@),
{
    if a.len() != b.len() {
        return false;
    }
    let n = a.len();
    for i in 0..n
        invariant
            n == a@.len(),
            n == b@.len(),
            forall|j: int| 0 <= j < i ==> a@[j] == b@[j],
    {
        if a[i] != b[i] {
            assert(a@[i as int] != b@[i as int]);
            return false;
        }
    }
    assert(a@ == b@);
    true
}

fn note_file_is(t: &Vec<char>, note: &Vec<char>) -> (r: bool)
    ensures
        r == (note_file(t@) == note@),
{
    proof {
        reveal_strlit(".md");
    }
    let n = t.len();
    let mut f: Vec<char> = Vec::new();
    for i in 0..n
        invariant
            n == t@.len(),
            f@ == t@.take(i as int),
    {
        f.push(t[i]);
        assert(t@.take(i + 1) == t@.take(i as int).push(t@[i as int]));
    }
    assert(t@.take(n as int) == t@);
    if !(n >= 3 && t[n - 3] == '.' && t[n - 2] == 'm' && t[n - 1] == 'd') {
        f.push('.');
        f.push('m');
        f.push('d');
        assert(f@ == t@ + ".md"@);
    }
    chars_eq(&f, note)
}

/// Whether the note text `text` links to the note file `note`; the backlinks panel
/// lists the notes for which this holds.
pub fn links_to_note(text: &str, note: &str) -> (r: bool)
    ensures
        r == links_to(text@, note@),
{
    let ts = wikilink_targets(text);
    let nv = chars_of(note);
    let n = ts.len();
    for i in 0..n
        invariant
            n == ts@.len(),
            char_vecs(ts@) == link_targets(text@),
            nv@ == note@,
            forall|j: int| 0 <= j < i ==> note_file(#[trigger] char_vecs(ts@)[j]) != note@,
    {
        if note_file_is(&ts[i], &nv) {
            assert(char_vecs(ts@)[i as int] == ts@[i as int]@);
            return true;
        }
        assert(char_vecs(ts@)[i as int] == ts@[i as int]@);
    }
    false
}

/// Every wikilink of a note counts: when any of them names a note that opens
/// `note`, the note links to `note`, and when none does, it does not.
pub proof fn lemma_links_to_any(text: Seq<char>, note: Seq<char>, i: int)
    requires
        0 <= i < link_targets(text).len(),
    ensures
        note_file(link_targets(text)[i]) == note ==> links_to(text, note),
        links_to(text, note) <==> exists|j: int|
            0 <= j < link_targets(text).len() && note_file(#[trigger] link_targets(text)[j])
                == note,
{
}

/// A note links to whatever the link it starts with names, and to whatever the
/// rest of it links to.
pub proof fn lemma_links_to_after_link(
    a: Seq<char>,
    inner: Seq<char>,
    b: Seq<char>,
    note: Seq<char>,
)
    requires
        no_pair(a, '['),
        a.len() == 0 || a.last() != '[',
        inner.len() > 0,
        !inner.contains('\n'),
        no_pair(inner, ']'),
        inner.last() != ']',
    ensures
        links_to(a + seq!['[', '['] + inner + seq![']', ']'] + b, note) <==> (note_file(
            link_target_of(inner),
        ) == note || links_to(b, note)),
{
    let s = a + seq!['[', '['] + inner + seq![']', ']'] + b;
    lemma_targets_link(a, inner, b);
    let ts = link_targets(s);
    let tb = link_targets(b);
    if links_to(b, note) {
        let j = choose|j: int| 0 <= j < tb.len() && note_file(#[trigger] tb[j]) == note;
        assert(ts[j + 1] == tb[j]);
    }
    if links_to(s, note) {
        let j = choose|j: int| 0 <= j < ts.len() && note_file(#[trigger] ts[j]) == note;
        if j > 0 {
            assert(ts[j] == tb[j - 1]);
        }
    }
    if note_file(link_target_of(inner)) == note {
        assert(ts[0] == link_target_of(inner));
    }
}

/// The file a name opens ends in `.md`: it is the name itself when that ends in
/// `.md`, else the name with `.md` added.
pub proof fn lemma_note_file_md(p: Seq<char>)
    ensures
        ends_with_md(note_file(p)),
        ends_with_md(p) ==> note_file(p) == p,
        !ends_with_md(p) ==> note_file(p).take(p.len() as int) == p && note_file(p).len() == p.len()
            + 3,
{
    reveal_strlit(".md");
    let q = p + ".md"@;
    assert(q.take(p.len() as int) == p);
}

/// A preview link names a note exactly when it starts with the note scheme, and
/// the note is the rest of the link.
pub proof fn lemma_link_note_prefix(href: Seq<char>)
    ensures
        link_note(href) matches Some(x) ==> href == NOTE_SCHEME@ + x,
        (link_note(href) is None) ==> !(href.len() >= NOTE_SCHEME@.len() && href.take(
            NOTE_SCHEME@.len() as int,
        ) == NOTE_SCHEME@),
{
    let m = NOTE_SCHEME@.len() as int;
    if link_note(href) is Some {
        assert(href == href.take(m) + href.skip(m));
    }
}

/// Names that start at a root or climb out with a `..` component are refused,
/// whatever comes around them.
pub proof fn lemma_escaping_names_refused(a: Seq<char>, b: Seq<char>, windows: bool)
    requires
        b.len() == 0 || is_separator(b[0], windows),
    ensures
        !note_name_ok(seq!['/'] + a, windows),
        !note_name_ok(seq!['.', '.'] + b, windows),
        !note_name_ok(a + seq!['/', '.', '.'] + b, windows),
        windows ==> !note_name_ok(seq!['C', ':'] + a, windows),
{
    let r1 = seq!['/'] + a;
    assert(r1[0] == '/');
    let r2 = seq!['.', '.'] + b;
    assert(parent_component_at(r2, 0, windows));
    let r3 = a + seq!['/', '.', '.'] + b;
    let i = a.len() + 1int;
    assert(r3[i - 1] == '/' && r3[i] == '.' && r3[i + 1] == '.');
    if b.len() > 0 {
        assert(r3[i + 2] == b[0]);
    }
    assert(parent_component_at(r3, i, windows));
    let r4 = seq!['C', ':'] + a;
    assert(r4[0] == 'C' && r4[1] == ':');
}

/// A name of letters and digits only (not blank) stays in the notes folder.
pub proof fn lemma_plain_names_allowed(r: Seq<char>, windows: bool)
    requires
        r.len() > 0,
        forall|i: int| 0 <= i < r.len() ==> ('a' <= #[trigger] r[i] <= 'z' || 'A' <= r[i] <= 'Z'
            || '0' <= r[i] <= '9'),
        windows ==> r.len() < 2 || r[1] != ':',
    ensures
        note_name_ok(r, windows),
{
    assert(!is_white_space(r[0]));
    assert(!is_white_space(r.last()));
    lemma_trimmed_around(Seq::empty(), r, Seq::empty());
    assert(Seq::<char>::empty() + r + Seq::<char>::empty() == r);
    assert forall|i: int| !#[trigger] parent_component_at(r, i, windows) by {
        if parent_component_at(r, i, windows) {
            assert(r[i] == '.');
        }
    }
}

/// The order of names: a proper prefix comes first, else the first differing
/// character decides; any two different names are ordered one way or the other.
pub proof fn lemma_chars_lt_order(a: Seq<char>, b: Seq<char>)
    ensures
        a.len() < b.len() && b.take(a.len() as int) == a ==> chars_lt(a, b),
        forall|k: int|
            0 <= k < a.len() && k < b.len() && a.take(k) == b.take(k) && #[trigger] a[k] != b[k]
                ==> (chars_lt(a, b) <==> (a[k] as u32) < (b[k] as u32)),
        a != b ==> chars_lt(a, b) || chars_lt(b, a),
        !(chars_lt(a, b) && chars_lt(b, a)),
    decreases a.len(),
{
    if a.len() > 0 && b.len() > 0 {
        lemma_chars_lt_order(a.drop_first(), b.drop_first());
        if a.len() < b.len() && b.take(a.len() as int) == a {
            assert(b.drop_first().take(a.len() - 1) == a.drop_first());
            assert(b[0] == a[0]);
        }
        assert forall|k: int|
            0 <= k < a.len() && k < b.len() && a.take(k) == b.take(k) && #[trigger] a[k] != b[k]
                implies (chars_lt(a, b) <==> (a[k] as u32) < (b[k] as u32)) by {
            if k > 0 {
                assert(a[0] == a.take(k)[0] && b[0] == b.take(k)[0]);
                assert forall|j: int| 0 <= j < k - 1 implies #[trigger] a.drop_first()[j]
                    == b.drop_first()[j] by {
                    assert(a.take(k)[j + 1] == b.take(k)[j + 1]);
                }
                assert(a.drop_first().take(k - 1) =~= b.drop_first().take(k - 1));
                assert(a.drop_first()[k - 1] == a[k] && b.drop_first()[k - 1] == b[k]);
            }
        }
        if a[0] != b[0] {
            vstd::utf8::char_u32_cast(a[0], a[0] as u32);
            vstd::utf8::char_u32_cast(b[0], b[0] as u32);
            assert((a[0] as u32) != (b[0] as u32));
        }
        if a != b && a[0] == b[0] {
            assert(a.drop_first() != b.drop_first()) by {
                if a.drop_first() == b.drop_first() {
                    assert forall|i: int| 0 <= i < a.len() implies a[i] == b[i] by {
                        if i > 0 {
                            assert(a[i] == a.drop_first()[i - 1]);
                            assert(b[i] == b.drop_first()[i - 1]);
                        }
                    }
                    assert(a =~= b);
                }
            }
        }
    } else if a.len() == 0 && b.len() == 0 {
        assert(a =~= b);
    }
}

} // verus!
