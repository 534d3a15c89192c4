use nyanmd::notes::{check_note_name, link_target, links_to_note, note_file_name, sort_names};

#[test]
fn note_file_names() {
    assert_eq!(note_file_name("todo"), "todo.md");
    assert_eq!(note_file_name("a/b.md"), "a/b.md");
    assert_eq!(note_file_name("x.m"), "x.m.md");
    assert_eq!(note_file_name(""), ".md");
}

#[test]
fn link_targets() {
    assert_eq!(link_target("nyan:a/b"), Some("a/b".to_string()));
    assert_eq!(link_target("nyan:"), Some("".to_string()));
    assert_eq!(link_target("https://x"), None);
    assert_eq!(link_target("nya"), None);
}

#[test]
fn note_names_that_stay_in_the_folder() {
    assert_eq!(check_note_name("todo", false), Ok(()));
    assert_eq!(check_note_name("a/b.md", false), Ok(()));
    assert_eq!(check_note_name("./a", false), Ok(()));
    assert_eq!(check_note_name("a..b", false), Ok(()));
    assert_eq!(check_note_name("..a/b", false), Ok(()));
}

#[test]
fn note_names_refused() {
    assert_eq!(check_note_name("  ", false), Err("bad note path:   ".to_string()));
    assert_eq!(check_note_name("/etc/passwd", false), Err("bad note path: /etc/passwd".to_string()));
    assert_eq!(check_note_name("../x", false), Err("bad note path: ../x".to_string()));
    assert_eq!(check_note_name("a/..", false), Err("bad note path: a/..".to_string()));
    assert_eq!(check_note_name("a/../b", false), Err("bad note path: a/../b".to_string()));
}

#[test]
fn names_sorted() {
    let v = vec!["b.md".to_string(), "a/z.md".to_string(), "a.md".to_string(), "B.md".to_string(), "a.md".to_string()];
    let mut expected = v.clone();
    expected.sort();
    assert_eq!(sort_names(v), expected);
    assert_eq!(sort_names(Vec::new()), Vec::<String>::new());
}

#[test]
fn edit_command_opens_md_file() {
    let mut e = nyanmd::vim::Ed::new();
    match e.exec("e todo") {
        nyanmd::vim::Act::Edit(name) => assert_eq!(note_file_name(&name), "todo.md"),
        other => panic!("unexpected {:?}", other),
    }
}

#[test]
fn windows_note_names() {
    assert_eq!(check_note_name("..\\x", true), Err("bad note path: ..\\x".to_string()));
    assert_eq!(check_note_name("C:\\x", true), Err("bad note path: C:\\x".to_string()));
    assert_eq!(check_note_name("c:x", true), Err("bad note path: c:x".to_string()));
    assert_eq!(check_note_name("\\x", true), Err("bad note path: \\x".to_string()));
    assert_eq!(check_note_name("a\\b", true), Ok(()));
    assert_eq!(check_note_name("a/../b", true), Err("bad note path: a/../b".to_string()));
    assert_eq!(check_note_name("a\\..\\b", false), Ok(()), "'\\' is a plain character on Unix");
    assert_eq!(check_note_name("C:\\x", false), Ok(()));
}

#[test]
fn backlink_detection() {
    assert!(links_to_note("see [[todo]] now", "todo.md"));
    assert!(links_to_note("see [[ a/b.md | B ]]", "a/b.md"));
    assert!(!links_to_note("see [[todo]]", "other.md"));
    assert!(!links_to_note("see [[to\ndo]] [todo](x)", "todo.md"));
    assert!(!links_to_note("", "todo.md"));
}
