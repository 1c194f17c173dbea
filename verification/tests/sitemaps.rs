use blog_tools::common::types::{BlogError, BlogJson};
use blog_tools::common::{no_function, RawPost};
use blog_tools::date::Date;
use blog_tools::high::HighBlogEntry;
use blog_tools::sitemap::document::FragmentEvent;
use blog_tools::sitemap::{assemble_sitemap, create_sitemap, create_sitemap_inner, SitemapOptions};
use blog_tools::types::Blog;
use markdown::mdast::Node;

fn unused(_tree: &Node) -> String {
    String::new()
}

fn entry(date: (i32, u32, u32), slug: &str, priority: Option<&str>, modified: Option<(i32, u32, u32)>) -> HighBlogEntry {
    let json = BlogJson {
        title: "Hi".to_string(),
        date: Date::new(date.0, date.1, date.2).unwrap(),
        desc: None,
        slug: slug.to_string(),
        tags: vec![],
        keywords: None,
        canonical_link: None,
        author_name: None,
        author_webpage: None,
        last_modified: modified.map(|m| Date::new(m.0, m.1, m.2).unwrap()),
        priority: priority.map(|p| p.to_string()),
    };
    HighBlogEntry::new(json, "<p>Hi</p>".to_string(), None, "Hi".to_string())
}

fn base() -> String {
    "www.example.com".to_string()
}

fn count(text: &str, part: &str) -> usize {
    text.matches(part).count()
}

#[test]
fn test_sitemap() {
    let posts = vec![RawPost {
        path: "post.md".to_string(),
        metadata: Ok(BlogJson {
            title: "Hi".to_string(),
            date: Date::new(2024, 3, 19).unwrap(),
            desc: None,
            slug: "post".to_string(),
            tags: vec!["x".to_string()],
            keywords: None,
            canonical_link: None,
            author_name: None,
            author_webpage: None,
            last_modified: None,
            priority: None,
        }),
        content: Ok("Hello".to_string()),
    }];
    let base = "www.example.com".to_string();
    let sitemap = create_sitemap(posts, &base, &SitemapOptions::default()).unwrap();
    println!("{}", sitemap);
    assert_eq!(
        sitemap,
        "<?xml version=\"1.0\" encoding=\"UTF-8\"?>\n\
         <urlset xmlns=\"http://www.sitemaps.org/schemas/sitemap/0.9\">\n  \
         <url>\n    \
         <loc>www.example.com/blog/2024-03-19/post</loc>\n    \
         <lastmod>19-03-2024</lastmod>\n    \
         <priority>0.5</priority>\n  \
         </url>\n\
         </urlset>"
    );
}

#[test]
fn the_default_options_are_those_of_a_plain_blog() {
    let options = SitemapOptions::default();
    assert_eq!(options.default_priority, "0.5");
    assert!(!options.include_tags);
    assert_eq!(options.blog_root_slug, "blog");
    assert_eq!(options.tag_root_slug, "blog/tag");
    assert_eq!(options.sitemap_base, None);
}

#[test]
fn a_priority_of_one_and_a_half_fails_the_sitemap() {
    let entries = vec![entry((2024, 1, 1), "a", Some("0.5"), None), entry((2024, 1, 2), "b", Some("1.5"), None)];
    match create_sitemap_inner(&entries, None, &base(), &SitemapOptions::default()) {
        Err(BlogError::PriorityOutOfRange(p)) => assert_eq!(p, "1.5"),
        other => panic!("{:?}", other),
    }
}

#[test]
fn a_priority_of_a_half_stands_in_the_sitemap() {
    let entries = vec![entry((2024, 1, 1), "a", Some("0.5"), None)];
    let mut options = SitemapOptions::default();
    options.default_priority = "0.3".to_string();
    let sitemap = create_sitemap_inner(&entries, None, &base(), &options).unwrap();
    assert!(sitemap.contains("<priority>0.5</priority>"));
    assert!(!sitemap.contains("0.3"));
}

#[test]
fn a_default_priority_out_of_range_fails_the_sitemap() {
    let mut options = SitemapOptions::default();
    options.default_priority = "-0.1".to_string();
    let none: Vec<HighBlogEntry> = vec![];
    match create_sitemap_inner(&none, None, &base(), &options) {
        Err(BlogError::PriorityOutOfRange(p)) => assert_eq!(p, "-0.1"),
        other => panic!("{:?}", other),
    }
}

#[test]
fn the_first_bad_priority_is_reported() {
    let entries = vec![
        entry((2024, 1, 1), "a", None, None),
        entry((2024, 1, 2), "b", Some("7"), None),
        entry((2024, 1, 3), "c", Some("8"), None),
    ];
    match create_sitemap_inner(&entries, None, &base(), &SitemapOptions::default()) {
        Err(BlogError::PriorityOutOfRange(p)) => assert_eq!(p, "7"),
        other => panic!("{:?}", other),
    }
}

#[test]
fn a_post_without_a_priority_gets_the_default() {
    let entries = vec![entry((2024, 1, 1), "a", None, None)];
    let mut options = SitemapOptions::default();
    options.default_priority = "0.7".to_string();
    let sitemap = create_sitemap_inner(&entries, None, &base(), &options).unwrap();
    assert!(sitemap.contains("<priority>0.7</priority>"));
}

#[test]
fn the_day_of_the_last_change_stands_in_for_the_date() {
    let entries = vec![
        entry((2024, 1, 1), "a", None, Some((2024, 2, 3))),
        entry((2023, 12, 31), "b", None, None),
    ];
    let sitemap = create_sitemap_inner(&entries, None, &base(), &SitemapOptions::default()).unwrap();
    assert!(sitemap.contains("<lastmod>03-02-2024</lastmod>"));
    assert!(sitemap.contains("<lastmod>31-12-2023</lastmod>"));
    assert!(!sitemap.contains("01-01-2024"));
}

#[test]
fn entries_are_listed_in_the_order_given() {
    let entries = vec![entry((2020, 1, 1), "old", None, None), entry((2024, 1, 1), "new", None, None)];
    let sitemap = create_sitemap_inner(&entries, None, &base(), &SitemapOptions::default()).unwrap();
    let old = sitemap.find("2020-01-01/old").unwrap();
    let new = sitemap.find("2024-01-01/new").unwrap();
    assert!(old < new);
}

#[test]
fn the_roots_of_the_options_stand_in_the_addresses() {
    let entries = vec![entry((2024, 1, 1), "a", None, None)];
    let tags = vec!["science".to_string()];
    let options = SitemapOptions {
        default_priority: "0.5".to_string(),
        include_tags: true,
        blog_root_slug: "blog-home".to_string(),
        tag_root_slug: "topics".to_string(),
        sitemap_base: None,
    };
    let sitemap = create_sitemap_inner(&entries, Some(&tags), &"https://example.org".to_string(), &options).unwrap();
    assert!(sitemap.contains("<loc>https://example.org/blog-home/2024-01-01/a</loc>"));
    assert!(sitemap.contains("<loc>https://example.org/topics/science</loc>"));
}

#[test]
fn tag_pages_are_listed_with_the_day_of_the_call() {
    let entries = vec![entry((2024, 1, 1), "a", Some("0.9"), None)];
    let tags = vec!["a".to_string(), "b".to_string()];
    let mut options = SitemapOptions::default();
    options.include_tags = true;
    let before = chrono::offset::Utc::now().date_naive().format("%d-%m-%Y").to_string();
    let sitemap = create_sitemap_inner(&entries, Some(&tags), &base(), &options).unwrap();
    let after = chrono::offset::Utc::now().date_naive().format("%d-%m-%Y").to_string();
    assert_eq!(count(&sitemap, "<url>"), 3);
    assert!(sitemap.contains("<loc>www.example.com/blog/tag/a</loc>"));
    assert!(sitemap.contains("<loc>www.example.com/blog/tag/b</loc>"));
    assert!(
        count(&sitemap, &format!("<lastmod>{}</lastmod>", before)) == 2
            || count(&sitemap, &format!("<lastmod>{}</lastmod>", after)) == 2
    );
    assert_eq!(count(&sitemap, "<priority>0.5</priority>"), 2);
}

#[test]
fn tag_pages_are_left_out_unless_asked_for() {
    let entries = vec![entry((2024, 1, 1), "a", None, None)];
    let tags = vec!["a".to_string()];
    let sitemap = create_sitemap_inner(&entries, Some(&tags), &base(), &SitemapOptions::default()).unwrap();
    assert_eq!(count(&sitemap, "<url>"), 1);
    let mut options = SitemapOptions::default();
    options.include_tags = true;
    let sitemap = create_sitemap_inner(&entries, None, &base(), &options).unwrap();
    assert_eq!(count(&sitemap, "<url>"), 1);
}

#[test]
fn the_records_of_another_sitemap_are_merged_in() {
    let entries = vec![entry((2024, 3, 19), "post", None, None)];
    let mut options = SitemapOptions::default();
    options.sitemap_base = Some(
        "<urlset><url><loc>https://example.com/about</loc><lastmod>01-01-2024</lastmod><priority>1.0</priority></url></urlset>"
            .to_string(),
    );
    let sitemap = create_sitemap_inner(&entries, None, &base(), &options).unwrap();
    assert!(sitemap.contains("<loc>www.example.com/blog/2024-03-19/post</loc>"));
    assert!(sitemap.contains("<loc>https://example.com/about</loc>"));
    assert!(sitemap.contains("<priority>1.0</priority>"));
    assert_eq!(count(&sitemap, "<urlset"), 1);
    assert_eq!(count(&sitemap, "</urlset>"), 1);
    assert_eq!(count(&sitemap, "<url>"), 2);
    assert_eq!(count(&sitemap, "</url>"), 2);
    assert!(sitemap.find("blog/2024-03-19/post").unwrap() < sitemap.find("example.com/about").unwrap());
}

#[test]
fn a_sitemap_with_its_namespace_is_merged_in_too() {
    let entries = vec![entry((2024, 3, 19), "post", None, None)];
    let mut options = SitemapOptions::default();
    options.sitemap_base = Some(
        "<?xml version=\"1.0\" encoding=\"UTF-8\"?>\n<urlset xmlns=\"http://www.sitemaps.org/schemas/sitemap/0.9\">\n  <url>\n    <loc>https://example.com/about</loc>\n  </url>\n</urlset>"
            .to_string(),
    );
    let sitemap = create_sitemap_inner(&entries, None, &base(), &options).unwrap();
    assert!(sitemap.contains("<loc>https://example.com/about</loc>"));
    assert_eq!(count(&sitemap, "<urlset"), 1);
    assert_eq!(count(&sitemap, "</urlset>"), 1);
    assert_eq!(count(&sitemap, "<url>"), 2);
}

#[test]
fn a_broken_sitemap_is_merged_in_up_to_the_break() {
    let entries = vec![entry((2024, 3, 19), "post", None, None)];
    let mut options = SitemapOptions::default();
    options.sitemap_base = Some("<urlset><url><loc>https://example.com/about</loc></url><url><loc>broken".to_string());
    let sitemap = create_sitemap_inner(&entries, None, &base(), &options).unwrap();
    assert!(sitemap.contains("<loc>https://example.com/about</loc>"));
    assert!(sitemap.contains("www.example.com/blog/2024-03-19/post"));
}

#[test]
fn the_same_sitemap_is_made_of_the_events_of_the_other() {
    let entries = vec![entry((2024, 3, 19), "post", None, None)];
    let events = vec![
        FragmentEvent::Other,
        FragmentEvent::Start("urlset".to_string()),
        FragmentEvent::Start("url".to_string()),
        FragmentEvent::Start("loc".to_string()),
        FragmentEvent::Text("https://example.com/about".to_string()),
        FragmentEvent::End("loc".to_string()),
        FragmentEvent::End("url".to_string()),
        FragmentEvent::End("urlset".to_string()),
        FragmentEvent::Other,
    ];
    let tags = vec!["t".to_string()];
    let mut options = SitemapOptions::default();
    options.include_tags = true;
    let sitemap = assemble_sitemap(&entries, Some(&tags), &base(), &options, "05-06-2024", &events).unwrap();
    assert_eq!(
        sitemap,
        "<?xml version=\"1.0\" encoding=\"UTF-8\"?>\n\
         <urlset xmlns=\"http://www.sitemaps.org/schemas/sitemap/0.9\">\n  \
         <url>\n    \
         <loc>www.example.com/blog/2024-03-19/post</loc>\n    \
         <lastmod>19-03-2024</lastmod>\n    \
         <priority>0.5</priority>\n  \
         </url>\n  \
         <url>\n    \
         <loc>www.example.com/blog/tag/t</loc>\n    \
         <lastmod>05-06-2024</lastmod>\n    \
         <priority>0.5</priority>\n  \
         </url>\n  \
         <url>\n    \
         <loc>https://example.com/about</loc>\n  \
         </url>\n\
         </urlset>"
    );
}

#[test]
fn events_behind_a_failure_and_ends_without_a_start_are_left_out() {
    let none: Vec<HighBlogEntry> = vec![];
    let events = vec![
        FragmentEvent::End("url".to_string()),
        FragmentEvent::Start("url".to_string()),
        FragmentEvent::Text("kept".to_string()),
        FragmentEvent::End("url".to_string()),
        FragmentEvent::End("url".to_string()),
        FragmentEvent::Failed,
        FragmentEvent::Start("late".to_string()),
        FragmentEvent::Text("dropped".to_string()),
    ];
    let sitemap = assemble_sitemap(&none, None, &base(), &SitemapOptions::default(), "01-01-2024", &events).unwrap();
    assert_eq!(
        sitemap,
        "<?xml version=\"1.0\" encoding=\"UTF-8\"?>\n\
         <urlset xmlns=\"http://www.sitemaps.org/schemas/sitemap/0.9\">\n  \
         <url>kept</url>\n\
         </urlset>"
    );
}

#[test]
fn text_is_escaped_in_the_sitemap() {
    let entries = vec![entry((2024, 1, 1), "a&b<c", None, None)];
    let sitemap = create_sitemap_inner(&entries, None, &base(), &SitemapOptions::default()).unwrap();
    assert!(sitemap.contains("<loc>www.example.com/blog/2024-01-01/a&amp;b&lt;c</loc>"));
}

#[test]
fn an_empty_blog_has_an_empty_sitemap() {
    let sitemap = create_sitemap(vec![], &base(), &SitemapOptions::default()).unwrap();
    assert_eq!(
        sitemap,
        "<?xml version=\"1.0\" encoding=\"UTF-8\"?>\n<urlset xmlns=\"http://www.sitemaps.org/schemas/sitemap/0.9\" />"
    );
}

#[test]
fn the_sitemap_of_posts_lists_them_as_they_come_and_their_tags() {
    let make = |slug: &str, date: (i32, u32, u32), tags: &[&str]| RawPost {
        path: format!("{}.md", slug),
        metadata: Ok(BlogJson {
            title: slug.to_string(),
            date: Date::new(date.0, date.1, date.2).unwrap(),
            desc: None,
            slug: slug.to_string(),
            tags: tags.iter().map(|t| t.to_string()).collect(),
            keywords: None,
            canonical_link: None,
            author_name: None,
            author_webpage: None,
            last_modified: None,
            priority: None,
        }),
        content: Ok("text".to_string()),
    };
    let posts = vec![make("old", (2020, 1, 1), &["a"]), make("new", (2024, 1, 1), &["b", "a"])];
    let mut options = SitemapOptions::default();
    options.include_tags = true;
    let sitemap = create_sitemap(posts, &base(), &options).unwrap();
    assert_eq!(count(&sitemap, "<url>"), 4);
    assert!(sitemap.find("2020-01-01/old").unwrap() < sitemap.find("2024-01-01/new").unwrap());
    assert!(sitemap.find("blog/tag/a").unwrap() < sitemap.find("blog/tag/b").unwrap());
    let plain = HighBlogEntry::create(make("x", (2024, 1, 1), &[]), no_function(&unused), None).unwrap();
    assert_eq!(plain.get_priority(), None);
}
