use nyanmd::picker::{complete_link, PickAct, Picker};

#[test]
fn picker_opens_after_brackets() {
    let mut p = Picker::new();
    p.on_input("see [[", 6);
    assert!(p.open);
    assert_eq!(p.sel, 0);
    p.on_input("see [[x", 7);
    assert!(!p.open);
    p.on_input("[", 1);
    assert!(!p.open);
}

#[test]
fn picker_moves_round_and_chooses() {
    let mut p = Picker::new();
    p.on_input("[[", 2);
    assert_eq!(p.key("ArrowDown", false, 3), PickAct::Moved);
    assert_eq!(p.sel, 1);
    assert_eq!(p.key("n", true, 3), PickAct::Moved);
    assert_eq!(p.key("ArrowDown", false, 3), PickAct::Moved);
    assert_eq!(p.sel, 0, "goes round");
    assert_eq!(p.key("p", true, 3), PickAct::Moved);
    assert_eq!(p.sel, 2);
    assert_eq!(p.key("n", false, 3), PickAct::Pass, "plain n is typed");
    assert_eq!(p.key("Tab", false, 3), PickAct::Insert(2));
    assert!(!p.open);
    p.on_input("[[", 2);
    assert_eq!(p.key("Escape", false, 3), PickAct::Close);
    assert!(!p.open);
    assert_eq!(p.key("Enter", false, 0), PickAct::Close);
}

#[test]
fn completing_a_link() {
    assert_eq!(complete_link("see [[ ok", 6, "a/todo.md"), ("see [[a/todo]] ok".to_string(), 14));
    assert_eq!(complete_link("[[", 2, "x"), ("[[x]]".to_string(), 5));
}
