use nyanmd::wiki::{expand_wikilinks, md_to_html};

#[test]
fn wikilinks() {
    assert_eq!(expand_wikilinks("see [[todo]] and [[a/b|B]]"), "see [todo](nyan:todo) and [B](nyan:a/b)");
    assert_eq!(expand_wikilinks("[[open\nline]] [[]] [[x"), "[[open\nline]] [[]] [[x");
    assert!(md_to_html("[[ жагсаалт ]]").contains(r#"href="nyan:%D0%B6"#));
}

#[test]
fn wikilink_alias_and_trim() {
    assert_eq!(expand_wikilinks("[[ a | b ]]"), "[b](nyan:a)");
    assert_eq!(expand_wikilinks("x [[a]][[b]] y"), "x [a](nyan:a)[b](nyan:b) y");
    assert_eq!(expand_wikilinks("[[[a]]]"), "[[a](nyan:[a)]");
    assert_eq!(expand_wikilinks("no links"), "no links");
    assert_eq!(expand_wikilinks(""), "");
}

#[test]
fn markdown_renders_html() {
    let html = md_to_html("# Title\n\n~~old~~ [[note]]");
    assert!(html.contains("<h1>Title</h1>"));
    assert!(html.contains("<del>old</del>"));
    assert!(html.contains(r#"<a href="nyan:note">note</a>"#));
}

#[test]
fn link_then_rest_on_its_own() {
    let b = "tail [[c|d]] [[";
    assert_eq!(
        expand_wikilinks(&format!("pre [[ x | y ]]{}", b)),
        format!("pre [y](nyan:x){}", expand_wikilinks(b))
    );
}
