use blog_tools::common::types::{BlogError, BlogJson};
use blog_tools::common::{no_function, render_markdown, toc, RawPost};
use blog_tools::date::Date;
use blog_tools::high::HighBlogEntry;
use blog_tools::low::LowBlogEntry;
use blog_tools::medium::MediumBlogEntry;
use blog_tools::types::Blog;
use markdown::mdast::Node;

fn json(title: &str, date: (i32, u32, u32), slug: &str, tags: &[&str]) -> BlogJson {
    BlogJson {
        title: title.to_string(),
        date: Date::new(date.0, date.1, date.2).unwrap(),
        desc: Some("A description".to_string()),
        slug: slug.to_string(),
        tags: tags.iter().map(|t| t.to_string()).collect(),
        keywords: Some(vec!["k1".to_string(), "k2".to_string()]),
        canonical_link: Some("https://example.com/canonical".to_string()),
        author_name: Some("Ada".to_string()),
        author_webpage: None,
        last_modified: Some(Date::new(2024, 4, 1).unwrap()),
        priority: Some("0.8".to_string()),
    }
}

fn post(markdown: &str) -> RawPost {
    RawPost {
        path: "post.md".to_string(),
        metadata: Ok(json("Hi", (2024, 3, 19), "post", &["x"])),
        content: Ok(markdown.to_string()),
    }
}

fn headings(tree: &Node) -> String {
    let mut out = String::new();
    for child in tree.children().unwrap() {
        if let Node::Heading(h) = child {
            out.push_str(&format!("h{};", h.depth));
        }
    }
    out
}

fn unused(_tree: &Node) -> String {
    String::new()
}

const MARKDOWN: &str = "# Hi\n\nHello *world*\n\n## More\n\nSecond paragraph";

#[test]
fn markdown_is_rendered_to_html() {
    assert_eq!(render_markdown("# Hi Mercury!").unwrap(), "<h1>Hi Mercury!</h1>");
    assert_eq!(
        render_markdown("Hello *world*").unwrap(),
        "<p>Hello <em>world</em></p>"
    );
}

#[test]
fn raw_html_and_every_protocol_pass_through() {
    assert_eq!(
        render_markdown("<div>\n\n# Hi Jupiter!\n\n</div>").unwrap(),
        "<div>\n<h1>Hi Jupiter!</h1>\n</div>"
    );
    assert_eq!(
        render_markdown("[x](javascript:alert(1))").unwrap(),
        "<p><a href=\"javascript:alert(1)\">x</a></p>"
    );
}

#[test]
fn the_table_of_contents_is_made_of_the_tree() {
    let made = toc(&MARKDOWN.to_string(), Some(&headings)).unwrap();
    assert_eq!(made, Some("h1;h2;".to_string()));
}

#[test]
fn without_a_function_there_is_no_table_of_contents() {
    let made = toc(&MARKDOWN.to_string(), no_function(&unused)).unwrap();
    assert_eq!(made, None);
}

#[test]
fn an_entry_with_everything_holds_what_the_post_gives() {
    let entry = HighBlogEntry::create(post(MARKDOWN), Some(&headings), Some(8)).unwrap();
    assert_eq!(entry.get_title(), "Hi");
    assert_eq!(entry.get_date_listed(), Date::new(2024, 3, 19).unwrap());
    assert_eq!(entry.get_description(), Some("A description".to_string()));
    assert_eq!(
        entry.get_html(),
        "<h1>Hi</h1>\n<p>Hello <em>world</em></p>\n<h2>More</h2>\n<p>Second paragraph</p>"
    );
    assert_eq!(entry.get_full_slug(), "2024-03-19/post");
    assert_eq!(entry.get_part_slug(), "post");
    assert_eq!(entry.get_tags(), vec!["x".to_string()]);
    assert_eq!(entry.get_table_of_contents(), Some("h1;h2;".to_string()));
    assert_eq!(entry.get_keywords(), Some(vec!["k1".to_string(), "k2".to_string()]));
    assert_eq!(entry.get_canonicle_link(), Some("https://example.com/canonical".to_string()));
    assert_eq!(entry.get_author_name(), Some("Ada".to_string()));
    assert_eq!(entry.get_author_webpage(), None);
    assert_eq!(entry.get_preview(), "Hello wo");
    assert_eq!(entry.get_last_modified(), Some(Date::new(2024, 4, 1).unwrap()));
    assert_eq!(entry.get_priority(), Some("0.8".to_string()));
}

#[test]
fn the_full_slug_is_the_date_a_slash_and_the_partial_slug() {
    for (date, slug, full) in [
        ((2024, 3, 19), "post", "2024-03-19/post"),
        ((2023, 12, 1), "a/b", "2023-12-01/a/b"),
        ((999, 1, 2), "", "0999-01-02/"),
    ] {
        let metadata = json("T", date, slug, &[]);
        assert_eq!(metadata.full_slug(), full);
        let raw = RawPost {
            path: "p.md".to_string(),
            metadata: Ok(metadata),
            content: Ok("text".to_string()),
        };
        let entry = MediumBlogEntry::create(raw, no_function(&unused), None).unwrap();
        assert_eq!(entry.get_full_slug(), full);
    }
}

#[test]
fn an_entry_without_html_keeps_the_path_of_its_file() {
    let entry = MediumBlogEntry::create(post(MARKDOWN), Some(&headings), None).unwrap();
    assert_eq!(entry.path, "post.md");
    assert_eq!(entry.get_preview(), "Hello worldSecond paragraph");
    assert_eq!(entry.get_table_of_contents(), Some("h1;h2;".to_string()));
    assert_eq!(entry.source_path(), "post.md");
}

#[test]
fn rendering_an_entry_gives_what_is_kept_in_a_whole_blog() {
    for toc_wanted in [false, true] {
        let toc_fn = if toc_wanted { Some(&headings) } else { None };
        let high = HighBlogEntry::create(post(MARKDOWN), toc_fn, Some(12)).unwrap();
        let medium = MediumBlogEntry::create(post(MARKDOWN), toc_fn, Some(12)).unwrap();
        let rendered = medium.render("post.md", Ok(MARKDOWN.to_string())).unwrap();
        assert_eq!(rendered.get_html(), high.get_html());
        assert_eq!(rendered.get_full_slug(), high.get_full_slug());
        assert_eq!(rendered.get_title(), high.get_title());
        assert_eq!(rendered.get_tags(), high.get_tags());
        assert_eq!(rendered.get_preview(), high.get_preview());
        assert_eq!(rendered.get_table_of_contents(), high.get_table_of_contents());
        assert_eq!(rendered.get_priority(), high.get_priority());
        assert_eq!(rendered.get_last_modified(), high.get_last_modified());
    }
}

#[test]
fn an_entry_of_a_blog_not_kept_makes_its_preview_when_asked() {
    let entry = LowBlogEntry::create(post(MARKDOWN), no_function(&unused), Some(5)).unwrap();
    assert_eq!(entry.get_preview(), "Hello");
    assert_eq!(entry.get_table_of_contents(), None);
    assert_eq!(
        entry.get_html(),
        "<h1>Hi</h1>\n<p>Hello <em>world</em></p>\n<h2>More</h2>\n<p>Second paragraph</p>"
    );
    let plain = LowBlogEntry::new(json("T", (2024, 1, 1), "s", &[]), format!("<p>{}</p>", "y".repeat(400)), None);
    assert_eq!(plain.get_preview().len(), 320);
}

#[test]
fn a_post_without_metadata_makes_no_entry() {
    let raw = RawPost {
        path: "post.md".to_string(),
        metadata: Err(BlogError::MetadataInvalid("missing field `title`".to_string())),
        content: Ok("text".to_string()),
    };
    match HighBlogEntry::create(raw, no_function(&unused), None) {
        Err(BlogError::MetadataInvalid(reason)) => assert_eq!(reason, "missing field `title`"),
        other => panic!("{:?}", other.map(|e| e.get_title())),
    }
}

#[test]
fn a_post_without_content_makes_no_entry() {
    let raw = RawPost {
        path: "post.md".to_string(),
        metadata: Ok(json("T", (2024, 1, 1), "s", &[])),
        content: Err(BlogError::File("permission denied".to_string())),
    };
    match MediumBlogEntry::create(raw, no_function(&unused), None) {
        Err(BlogError::File(reason)) => assert_eq!(reason, "permission denied"),
        other => panic!("{:?}", other.map(|e| e.get_title())),
    }
}

#[test]
fn the_failure_of_the_metadata_comes_before_that_of_the_content() {
    let raw = RawPost {
        path: "post.md".to_string(),
        metadata: Err(BlogError::File("json unreadable".to_string())),
        content: Err(BlogError::File("markdown unreadable".to_string())),
    };
    match LowBlogEntry::create(raw, no_function(&unused), None) {
        Err(BlogError::File(reason)) => assert_eq!(reason, "json unreadable"),
        other => panic!("{:?}", other.map(|e| e.get_title())),
    }
}

#[test]
fn a_copy_of_an_entry_holds_the_same() {
    let entry = HighBlogEntry::create(post(MARKDOWN), Some(&headings), None).unwrap();
    let copy = entry.clone();
    assert_eq!(copy.get_html(), entry.get_html());
    assert_eq!(copy.get_full_slug(), entry.get_full_slug());
    assert_eq!(copy.get_tags(), entry.get_tags());
    assert_eq!(copy.get_keywords(), entry.get_keywords());
    assert_eq!(copy.get_table_of_contents(), entry.get_table_of_contents());
}

#[test]
fn a_post_is_rendered_again_from_where_it_was_found() {
    let raw = RawPost {
        path: "posts/deep/p.md".to_string(),
        metadata: Ok(json("Hi", (2024, 3, 19), "post", &["x"])),
        content: Ok("Hello".to_string()),
    };
    let entry = MediumBlogEntry::create(raw, no_function(&unused), None).unwrap();
    assert_eq!(entry.source_path(), "posts/deep/p.md");
    let rendered = entry.render("posts/deep/p.md", Ok("Hello".to_string())).unwrap();
    assert_eq!(rendered.get_html(), "<p>Hello</p>");
    assert_eq!(rendered.get_full_slug(), "2024-03-19/post");
}

#[test]
fn another_file_than_the_source_of_the_post_is_refused() {
    let entry = MediumBlogEntry::create(post(MARKDOWN), no_function(&unused), None).unwrap();
    match entry.render("2024/2024-03-19/post.md", Ok(MARKDOWN.to_string())) {
        Err(BlogError::FileNotFound) => {}
        other => panic!("{:?}", other.map(|e| e.get_title())),
    }
}

#[test]
fn a_source_that_cannot_be_read_fails_the_rendering() {
    let entry = MediumBlogEntry::create(post(MARKDOWN), no_function(&unused), None).unwrap();
    match entry.render("post.md", Err(BlogError::File("gone".to_string()))) {
        Err(BlogError::File(reason)) => assert_eq!(reason, "gone"),
        other => panic!("{:?}", other.map(|e| e.get_title())),
    }
}
