use nyanmd::vim::{Act, Ed, Mode};

fn ed(s: &str) -> Ed {
    let mut e = Ed::new();
    e.load(s);
    e
}

fn keys(e: &mut Ed, ks: &str) {
    for k in ks.chars() {
        e.key(&k.to_string());
    }
}

#[test]
fn new_is_empty_normal() {
    let e = Ed::new();
    assert_eq!(e.string(), "");
    assert_eq!(e.cur, 0);
    assert_eq!(e.mode, Mode::Normal);
}

#[test]
fn arrows_and_home_end() {
    let mut e = ed("abc\nde");
    assert_eq!(e.key("End"), Act::Nothing);
    assert_eq!(e.cur, 2);
    e.key("ArrowLeft");
    assert_eq!(e.cur, 1);
    e.key("ArrowDown");
    assert_eq!(e.cur, 5);
    e.key("ArrowRight");
    assert_eq!(e.cur, 5);
    e.key("Home");
    assert_eq!(e.cur, 4);
    e.key("ArrowUp");
    assert_eq!(e.cur, 0);
    e.key("ArrowUp");
    assert_eq!(e.cur, 0, "k on the first line stays");
    e.key("h");
    assert_eq!(e.cur, 0, "h stops at line start");
}

#[test]
fn down_keeps_column_when_line_is_long_enough() {
    let mut e = ed("abcd\nxy\nlonger");
    keys(&mut e, "lll");
    assert_eq!(e.cur, 3);
    keys(&mut e, "j");
    assert_eq!(e.cur, 6, "clamped to the last char of a shorter line");
    keys(&mut e, "j");
    assert_eq!(e.cur, 9);
    keys(&mut e, "j");
    assert_eq!(e.cur, 9, "j on the last line stays");
}

#[test]
fn x_on_empty_line_does_nothing() {
    let mut e = ed("a\n\nb");
    keys(&mut e, "jx");
    assert_eq!(e.string(), "a\n\nb");
    keys(&mut e, "u");
    assert_eq!(e.string(), "a\n\nb", "nothing to undo");
}

#[test]
fn x_at_line_end_moves_left() {
    let mut e = ed("ab");
    keys(&mut e, "$x");
    assert_eq!(e.string(), "a");
    assert_eq!(e.cur, 0);
}

#[test]
fn dd_last_line_takes_newline_before() {
    let mut e = ed("one\ntwo");
    keys(&mut e, "jdd");
    assert_eq!(e.string(), "one");
    assert_eq!(e.cur, 0);
    keys(&mut e, "dd");
    assert_eq!(e.string(), "");
    keys(&mut e, "u");
    assert_eq!(e.string(), "one");
    keys(&mut e, "u");
    assert_eq!(e.string(), "one\ntwo");
    assert_eq!(e.cur, 4);
}

#[test]
fn pending_key_is_dropped_by_another_key() {
    let mut e = ed("ab\ncd");
    keys(&mut e, "jdx");
    assert_eq!(e.string(), "ab\ncd", "d then x is not an edit");
    keys(&mut e, "x");
    assert_eq!(e.string(), "ab\nd");
    keys(&mut e, "gj");
    assert_eq!(e.cur, 3, "g then j does not move");
}

#[test]
fn insert_keys_place_cursor_and_snapshot() {
    let mut e = ed("ab\ncd");
    assert_eq!(e.key("a"), Act::Insert);
    assert_eq!((e.cur, e.mode), (1, Mode::Insert));
    e.leave_insert("aXb\ncd", 2);
    assert_eq!(e.cur, 1);
    keys(&mut e, "u");
    assert_eq!(e.string(), "ab\ncd");
    assert_eq!(e.key("A"), Act::Insert);
    assert_eq!(e.cur, 2);
    e.leave_insert("ab\ncd", 2);
    assert_eq!(e.key("I"), Act::Insert);
    assert_eq!(e.cur, 0);
    e.leave_insert("ab\ncd", 0);
    assert_eq!(e.cur, 0, "no step left at a line start");
    assert_eq!(e.key("O"), Act::Insert);
    assert_eq!(e.string(), "\nab\ncd");
    assert_eq!(e.cur, 0);
    e.leave_insert("top\nab\ncd", 3);
    keys(&mut e, "u");
    assert_eq!(e.string(), "ab\ncd");
    assert_eq!(e.key("i"), Act::Insert);
    assert_eq!(e.mode, Mode::Insert);
}

#[test]
fn leave_insert_clamps_caret_to_text() {
    let mut e = ed("");
    e.leave_insert("abc", 99);
    assert_eq!((e.cur, e.mode), (2, Mode::Normal));
}

#[test]
fn clamp_moves_off_newline_and_end() {
    let mut e = ed("ab\n\ncd");
    e.cur = 2;
    e.clamp();
    assert_eq!(e.cur, 1);
    e.cur = 3;
    e.clamp();
    assert_eq!(e.cur, 3, "an empty line keeps the cursor at its start");
    e.cur = 100;
    e.clamp();
    assert_eq!(e.cur, 5);
}

#[test]
fn word_motions_cross_lines() {
    let mut e = ed("foo  bar\n  baz");
    keys(&mut e, "w");
    assert_eq!(e.cur, 5);
    keys(&mut e, "w");
    assert_eq!(e.cur, 11);
    keys(&mut e, "w");
    assert_eq!(e.cur, 13, "w at the last word clamps to the end");
    keys(&mut e, "b");
    assert_eq!(e.cur, 11);
    keys(&mut e, "bb");
    assert_eq!(e.cur, 0);
}

#[test]
fn unknown_key_does_nothing() {
    let mut e = ed("abc");
    assert_eq!(e.key("z"), Act::Nothing);
    assert_eq!(e.key("Escape"), Act::Nothing);
    assert_eq!(e.string(), "abc");
    assert_eq!(e.cur, 0);
}

#[test]
fn history_keeps_two_hundred_snapshots() {
    let text: String = "a".repeat(250);
    let mut e = ed(&text);
    for _ in 0..210 {
        e.key("x");
    }
    assert_eq!(e.string().len(), 40);
    for _ in 0..250 {
        e.key("u");
    }
    assert_eq!(e.string().len(), 240, "only the last 200 edits can be undone");
}

#[test]
fn exec_commands() {
    let mut e = ed("x");
    e.key(":");
    assert_eq!(e.mode, Mode::Command);
    assert_eq!(e.exec("w"), Act::Write);
    assert_eq!(e.mode, Mode::Normal);
    assert_eq!(e.exec(" q "), Act::Quit);
    assert_eq!(e.exec("x"), Act::WriteQuit);
    assert_eq!(e.exec("e   "), Act::Unknown("e".into()));
    assert_eq!(e.exec("e a b"), Act::Edit("a b".into()));
    assert_eq!(e.exec("edit"), Act::Unknown("edit".into()));
    assert_eq!(e.exec(""), Act::Unknown("".into()));
}

#[test]
fn down_then_up_returns() {
    let mut e = ed("hello\nworld!\nx");
    keys(&mut e, "ll");
    keys(&mut e, "jk");
    assert_eq!(e.cur, 2);
}
