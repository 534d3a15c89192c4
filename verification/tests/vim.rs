use nyanmd::vim::{Act, Ed, Mode};

fn ed(s: &str) -> Ed {
    let mut e = Ed::new();
    e.load(s);
    e
}

fn keys(e: &mut Ed, ks: &str) {
    for k in ks.chars() {
        e.key(&k.to_string());
    }
}

#[test]
fn motions() {
    let mut e = ed("ab\ncdef\n\nx");
    keys(&mut e, "lll");
    assert_eq!(e.cur, 1, "l stops at line end");
    keys(&mut e, "j$");
    assert_eq!(e.cur, 6);
    keys(&mut e, "j");
    assert_eq!(e.cur, 8, "empty line keeps cursor at its start");
    keys(&mut e, "k0");
    assert_eq!(e.cur, 3);
    keys(&mut e, "G");
    assert_eq!(e.cur, 9);
    keys(&mut e, "gg");
    assert_eq!(e.cur, 0);
    keys(&mut e, "ww");
    assert_eq!(e.cur, 9);
    keys(&mut e, "b");
    assert_eq!(e.cur, 3);
}

#[test]
fn edits_and_undo() {
    let mut e = ed("one\ntwo\nthree");
    keys(&mut e, "jdd");
    assert_eq!(e.string(), "one\nthree");
    assert_eq!(e.cur, 4);
    keys(&mut e, "dd");
    assert_eq!(e.string(), "one");
    keys(&mut e, "x");
    assert_eq!(e.string(), "ne");
    keys(&mut e, "uuu");
    assert_eq!(e.string(), "one\ntwo\nthree");
    assert_eq!(e.key("o"), Act::Insert);
    assert_eq!(e.string(), "one\ntwo\n\nthree");
    assert_eq!(e.cur, 8);
    e.leave_insert("one\ntwo\nnew\nthree", 11);
    assert_eq!((e.cur, e.mode), (10, Mode::Normal));
}

#[test]
fn commands() {
    let mut e = ed("");
    assert_eq!(e.key(":"), Act::Command);
    assert_eq!(e.exec("e  notes/todo "), Act::Edit("notes/todo".into()));
    assert_eq!(e.exec("wq"), Act::WriteQuit);
    assert_eq!(e.exec("zz"), Act::Unknown("zz".into()));
    assert_eq!(e.mode, Mode::Normal);
}
