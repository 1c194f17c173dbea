use blog_tools::common::preview::{get_preview, preview_of_nodes, HtmlNode};

fn node(tag: Option<&str>, text: &str) -> HtmlNode {
    HtmlNode { tag: tag.map(|t| t.to_string()), text: text.to_string() }
}

#[test]
fn the_preview_is_the_text_of_the_paragraphs() {
    let html = "<h1>Title</h1>\n<p>Hello <em>world</em></p>\n<ul><li>no</li></ul>\n<p>Again</p>".to_string();
    assert_eq!(get_preview(&html, None), "Hello worldAgain");
}

#[test]
fn the_preview_is_cut_at_the_budget() {
    let html = "<p>Hello world</p><p>Again</p>".to_string();
    assert_eq!(get_preview(&html, Some(5)), "Hello");
    assert_eq!(get_preview(&html, Some(11)), "Hello world");
    assert_eq!(get_preview(&html, Some(13)), "Hello worldAg");
    assert_eq!(get_preview(&html, Some(0)), "");
    assert_eq!(get_preview(&html, Some(1000)), "Hello worldAgain");
}

#[test]
fn the_default_budget_is_320_characters() {
    let long = "x".repeat(500);
    let html = format!("<p>{}</p>", long);
    let preview = get_preview(&html, None);
    assert_eq!(preview.chars().count(), 320);
    assert_eq!(preview, "x".repeat(320));
}

#[test]
fn the_preview_is_never_longer_than_the_budget() {
    let htmls = [
        "<p>one</p><p>two</p><p>three</p>",
        "<div><p>nested <b>bold</b> text</p></div>",
        "no paragraphs at all",
        "<p>unclosed paragraph",
        "",
        "<p></p>",
        "<p>caf\u{e9} \u{65e5}\u{672c}\u{8a9e} text</p>",
    ];
    for html in htmls {
        for n in 0..12 {
            let preview = get_preview(&html.to_string(), Some(n));
            assert!(preview.chars().count() <= n, "{:?} {}", html, n);
        }
    }
}

#[test]
fn the_budget_counts_characters_not_bytes() {
    let html = "<p>\u{65e5}\u{672c}\u{8a9e}\u{306e}\u{30c6}\u{30ad}\u{30b9}\u{30c8}</p>".to_string();
    assert_eq!(get_preview(&html, Some(3)), "\u{65e5}\u{672c}\u{8a9e}");
}

#[test]
fn html_without_paragraphs_has_an_empty_preview() {
    assert_eq!(get_preview(&"<h1>Only a title</h1>".to_string(), None), "");
    assert_eq!(get_preview(&"".to_string(), None), "");
    assert_eq!(get_preview(&"<<<>>> not html".to_string(), Some(10)), "");
}

#[test]
fn the_preview_of_nodes_is_the_text_of_those_named_p() {
    let nodes = vec![
        node(Some("h1"), "Title"),
        node(None, "Title"),
        node(Some("p"), "Hello world"),
        node(None, "Hello "),
        node(Some("em"), "world"),
        node(Some("P"), "not this"),
        node(Some("pre"), "nor this"),
        node(Some("p"), "Again"),
    ];
    assert_eq!(preview_of_nodes(&nodes, None), "Hello worldAgain");
    assert_eq!(preview_of_nodes(&nodes, Some(13)), "Hello worldAg");
    assert_eq!(preview_of_nodes(&nodes, Some(11)), "Hello world");
    assert_eq!(preview_of_nodes(&nodes, Some(0)), "");
    assert_eq!(preview_of_nodes(&vec![], Some(5)), "");
}
