use blog_tools::common::types::{BlogError, BlogJson};
use blog_tools::common::{add_tags, get_blog_paths, has_tag, no_function, parse_blogs, FoundFile,
    RawPost};
use blog_tools::date::Date;
use blog_tools::high::{get_high_blog, HighBlogEntry};
use blog_tools::medium::{get_medium_blog, MediumBlogEntry};
use blog_tools::sitemap::SitemapOptions;
use blog_tools::types::Blog;
use markdown::mdast::Node;

fn json(title: &str, date: (i32, u32, u32), slug: &str, tags: &[&str]) -> BlogJson {
    BlogJson {
        title: title.to_string(),
        date: Date::new(date.0, date.1, date.2).unwrap(),
        desc: None,
        slug: slug.to_string(),
        tags: tags.iter().map(|t| t.to_string()).collect(),
        keywords: None,
        canonical_link: None,
        author_name: None,
        author_webpage: None,
        last_modified: None,
        priority: None,
    }
}

fn post(file: &str, title: &str, date: (i32, u32, u32), slug: &str, tags: &[&str]) -> RawPost {
    RawPost {
        path: file.to_string(),
        metadata: Ok(json(title, date, slug, tags)),
        content: Ok(format!("# {}\n\nThe text of {}.", title, title)),
    }
}

fn orphan(file: &str) -> RawPost {
    RawPost {
        path: file.to_string(),
        metadata: Err(BlogError::FileNotFound),
        content: Ok("stray text".to_string()),
    }
}

fn unused(_tree: &Node) -> String {
    String::new()
}

fn url() -> String {
    "www.example.com".to_string()
}

fn titles(entries: &Vec<HighBlogEntry>) -> Vec<String> {
    entries.iter().map(|e| e.get_title()).collect()
}

#[test]
fn the_newest_post_comes_first_and_posts_of_one_day_keep_their_order() {
    // The posts come in the order of their paths, from the largest.
    let posts = vec![
        post("b.md", "June", (2024, 6, 1), "june", &[]),
        post("b.md", "January b", (2024, 1, 1), "b", &[]),
        post("a.md", "January a", (2024, 1, 1), "a", &[]),
    ];
    let blog = get_high_blog(posts, no_function(&unused), None, &url(), &SitemapOptions::default()).unwrap();
    assert_eq!(titles(&blog.entries), vec!["June", "January b", "January a"]);
}

#[test]
fn posts_are_sorted_by_date_whatever_their_paths() {
    let posts = vec![
        post("z.md", "Old", (2020, 1, 1), "old", &[]),
        post("y.md", "Tie 1", (2022, 5, 5), "t1", &[]),
        post("x.md", "New", (2024, 1, 1), "new", &[]),
        post("w.md", "Tie 2", (2022, 5, 5), "t2", &[]),
        post("v.md", "Tie 3", (2022, 5, 5), "t3", &[]),
    ];
    let blog = get_high_blog(posts, no_function(&unused), None, &url(), &SitemapOptions::default()).unwrap();
    assert_eq!(titles(&blog.entries), vec!["New", "Tie 1", "Tie 2", "Tie 3", "Old"]);
}

#[test]
fn every_tag_is_listed_once_in_the_order_of_its_first_use() {
    let posts = vec![
        post("1.md", "One", (2024, 1, 1), "one", &["a", "b"]),
        post("2.md", "Two", (2024, 1, 2), "two", &["b", "c"]),
    ];
    let blog = get_high_blog(posts, no_function(&unused), None, &url(), &SitemapOptions::default()).unwrap();
    assert_eq!(blog.tags, vec!["a", "b", "c"]);
}

#[test]
fn tags_follow_the_order_of_the_posts_not_of_the_dates() {
    let posts = vec![
        post("1.md", "Older", (2020, 1, 1), "older", &["old", "both", "old"]),
        post("2.md", "Newer", (2024, 1, 2), "newer", &["both", "new"]),
    ];
    let blog = get_medium_blog(posts, no_function(&unused), None, &url(), &SitemapOptions::default()).unwrap();
    assert_eq!(blog.tags, vec!["old", "both", "new"]);
    assert_eq!(blog.entries[0].get_title(), "Newer");
}

#[test]
fn a_post_is_found_by_its_full_slug() {
    let mut metadata = json("Hi", (2024, 3, 19), "post", &["x"]);
    metadata.desc = Some("d".to_string());
    let posts = vec![
        RawPost { path: "post.md".to_string(), metadata: Ok(metadata), content: Ok("Hello".to_string()) },
        post("other.md", "Other", (2024, 3, 20), "other", &["y"]),
    ];
    let blog = get_high_blog(posts, no_function(&unused), None, &url(), &SitemapOptions::default()).unwrap();
    let found = blog.hash.get("2024-03-19/post").unwrap();
    assert_eq!(found.get_title(), "Hi");
    assert_eq!(found.get_tags(), vec!["x"]);
    assert_eq!(found.get_html(), "<p>Hello</p>");
    assert!(blog.hash.get("2024-03-19/other").is_none());
    assert!(blog.hash.get("post").is_none());
    assert_eq!(blog.hash.len(), 2);
}

#[test]
fn every_entry_is_found_under_its_own_full_slug() {
    let posts = vec![
        post("1.md", "One", (2024, 1, 1), "one", &[]),
        post("2.md", "Two", (2024, 1, 1), "two", &[]),
        post("3.md", "Three", (2023, 1, 1), "one", &[]),
    ];
    let blog = get_medium_blog(posts, no_function(&unused), None, &url(), &SitemapOptions::default()).unwrap();
    assert_eq!(blog.hash.len(), 3);
    for entry in &blog.entries {
        let slug = entry.get_full_slug();
        assert_eq!(slug, format!("{}/{}", entry.get_date_listed().to_iso(), entry.get_part_slug()));
        assert_eq!(blog.hash.get(&slug).unwrap().get_title(), entry.get_title());
    }
}

#[test]
fn of_two_posts_with_one_full_slug_the_later_is_found() {
    let posts = vec![
        post("1.md", "First", (2024, 1, 1), "same", &[]),
        post("2.md", "Second", (2024, 1, 1), "same", &[]),
    ];
    let blog = get_high_blog(posts, no_function(&unused), None, &url(), &SitemapOptions::default()).unwrap();
    assert_eq!(blog.entries.len(), 2);
    assert_eq!(blog.hash.len(), 1);
    assert_eq!(blog.hash.get("2024-01-01/same").unwrap().get_title(), "Second");
}

#[test]
fn a_post_without_a_json_file_is_left_out() {
    let posts = vec![
        post("1.md", "One", (2024, 1, 1), "one", &["a"]),
        orphan("orphan.md"),
        post("2.md", "Two", (2024, 1, 2), "two", &["b"]),
    ];
    let blog = get_high_blog(posts, no_function(&unused), None, &url(), &SitemapOptions::default()).unwrap();
    assert_eq!(titles(&blog.entries), vec!["Two", "One"]);
    assert_eq!(blog.tags, vec!["a", "b"]);
    assert_eq!(blog.hash.len(), 2);
}

#[test]
fn a_blog_of_strays_only_is_empty() {
    let blog = get_medium_blog(vec![orphan("a.md"), orphan("b.md")], no_function(&unused), None, &url(), &SitemapOptions::default()).unwrap();
    assert!(blog.entries.is_empty());
    assert!(blog.tags.is_empty());
    assert_eq!(blog.hash.len(), 0);
}

#[test]
fn the_first_failing_post_fails_the_blog() {
    let posts = vec![
        post("1.md", "One", (2024, 1, 1), "one", &[]),
        RawPost {
            path: "2.md".to_string(),
            metadata: Ok(json("Two", (2024, 1, 2), "two", &[])),
            content: Err(BlogError::File("first".to_string())),
        },
        RawPost {
            path: "3.md".to_string(),
            metadata: Err(BlogError::MetadataInvalid("second".to_string())),
            content: Ok("text".to_string()),
        },
    ];
    match get_high_blog(posts, no_function(&unused), None, &url(), &SitemapOptions::default()) {
        Err(BlogError::File(reason)) => assert_eq!(reason, "first"),
        Err(other) => panic!("{:?}", other),
        Ok(_) => panic!("the blog was loaded"),
    }
}

#[test]
fn a_bad_priority_fails_the_blog() {
    let mut metadata = json("One", (2024, 1, 1), "one", &[]);
    metadata.priority = Some("1.5".to_string());
    let posts = vec![RawPost { path: "1.md".to_string(), metadata: Ok(metadata), content: Ok("x".to_string()) }];
    match get_medium_blog(posts, no_function(&unused), None, &url(), &SitemapOptions::default()) {
        Err(BlogError::PriorityOutOfRange(p)) => assert_eq!(p, "1.5"),
        Err(other) => panic!("{:?}", other),
        Ok(_) => panic!("the blog was loaded"),
    }
}

#[test]
fn both_strategies_hold_the_same_posts() {
    let make = || {
        vec![
            post("c.md", "C", (2024, 6, 1), "c", &["x", "y"]),
            orphan("stray.md"),
            post("b.md", "B", (2024, 1, 1), "b", &["y"]),
            post("a.md", "A", (2024, 1, 1), "a", &[]),
        ]
    };
    let high = get_high_blog(make(), no_function(&unused), Some(10), &url(), &SitemapOptions::default()).unwrap();
    let medium = get_medium_blog(make(), no_function(&unused), Some(10), &url(), &SitemapOptions::default()).unwrap();
    assert_eq!(high.tags, medium.tags);
    assert_eq!(high.sitemap, medium.sitemap);
    assert_eq!(high.entries.len(), medium.entries.len());
    for (h, m) in high.entries.iter().zip(medium.entries.iter()) {
        let source = format!("# {}\n\nThe text of {}.", m.get_title(), m.get_title());
        let rendered = m.render(&m.source_path(), Ok(source)).unwrap();
        assert_eq!(rendered.get_full_slug(), h.get_full_slug());
        assert_eq!(rendered.get_title(), h.get_title());
        assert_eq!(rendered.get_tags(), h.get_tags());
        assert_eq!(rendered.get_html(), h.get_html());
        assert_eq!(rendered.get_preview(), h.get_preview());
    }
}

#[test]
fn the_blog_holds_its_sitemap() {
    let posts = vec![post("1.md", "One", (2024, 1, 1), "one", &["a"])];
    let blog = get_high_blog(posts, no_function(&unused), None, &url(), &SitemapOptions::default()).unwrap();
    assert!(blog.sitemap.contains("<loc>www.example.com/blog/2024-01-01/one</loc>"));
    assert!(blog.sitemap.contains("<lastmod>01-01-2024</lastmod>"));
}

#[test]
fn posts_are_parsed_in_the_order_given() {
    let posts = vec![
        post("1.md", "One", (2020, 1, 1), "one", &["a"]),
        orphan("x.md"),
        post("2.md", "Two", (2024, 1, 2), "two", &["b", "a"]),
    ];
    let (entries, tags): (Vec<MediumBlogEntry>, Vec<String>) = parse_blogs(posts, no_function(&unused), None).unwrap();
    assert_eq!(entries.iter().map(|e| e.get_title()).collect::<Vec<_>>(), vec!["One", "Two"]);
    assert_eq!(tags, vec!["a", "b"]);
}

#[test]
fn tags_are_added_once() {
    let mut tags = vec!["a".to_string()];
    add_tags(&mut tags, &vec!["b".to_string(), "a".to_string(), "b".to_string(), "c".to_string()]);
    assert_eq!(tags, vec!["a", "b", "c"]);
    assert!(has_tag(&tags, &"b".to_string()));
    assert!(!has_tag(&tags, &"B".to_string()));
}

#[test]
fn the_posts_with_a_tag_are_listed_from_the_newest() {
    let posts = vec![
        post("1.md", "Old", (2020, 1, 1), "old", &["a", "b"]),
        post("2.md", "New", (2024, 1, 1), "new", &["b"]),
        post("3.md", "Other", (2022, 1, 1), "other", &["c"]),
    ];
    let blog = get_high_blog(posts, no_function(&unused), None, &url(), &SitemapOptions::default()).unwrap();
    assert_eq!(titles(&blog.list_by_tag(&"b".to_string())), vec!["New", "Old"]);
    assert_eq!(titles(&blog.list_by_tag(&"c".to_string())), vec!["Other"]);
    assert!(blog.list_by_tag(&"d".to_string()).is_empty());
    assert_eq!(blog.list_tags(), vec!["a", "b", "c"]);
    assert_eq!(blog.lookup_by_slug("2022-01-01/other").unwrap().get_title(), "Other");
    assert!(blog.lookup_by_slug("2022-01-01/none").is_none());
}

#[test]
fn a_blog_without_html_answers_the_same_questions() {
    let posts = vec![
        post("1.md", "Old", (2020, 1, 1), "old", &["a", "b"]),
        post("2.md", "New", (2024, 1, 1), "new", &["b"]),
    ];
    let blog = get_medium_blog(posts, no_function(&unused), None, &url(), &SitemapOptions::default()).unwrap();
    let listed: Vec<String> = blog.list_by_tag(&"b".to_string()).iter().map(|e| e.get_title()).collect();
    assert_eq!(listed, vec!["New", "Old"]);
    assert_eq!(blog.list_tags(), vec!["a", "b"]);
    assert_eq!(blog.lookup_by_slug("2020-01-01/old").unwrap().path, "1.md");
}

#[test]
fn posts_of_one_day_come_in_the_order_of_their_paths_from_the_largest() {
    let files = [
        ("blog/2024/2024-01-01/a.md", "January a", (2024, 1, 1), "a"),
        ("blog/2024/2024-06-01/c.md", "June", (2024, 6, 1), "c"),
        ("blog/2024/2024-01-01/b.md", "January b", (2024, 1, 1), "b"),
    ];
    let mut found = Vec::new();
    for (path, _, _, slug) in files {
        found.push(FoundFile { path: path.to_string(), name: format!("{}.md", slug), is_file: true });
        found.push(FoundFile { path: path.replace(".md", ".json"), name: format!("{}.json", slug), is_file: true });
    }
    let paths = get_blog_paths(found);
    assert_eq!(paths.len(), 3);
    let posts: Vec<RawPost> = paths
        .iter()
        .map(|path| {
            let (_, title, date, slug) = files.iter().find(|f| f.0 == path).unwrap();
            post(&format!("{}.md", slug), title, *date, slug, &[])
        })
        .collect();
    let blog = get_high_blog(posts, no_function(&unused), None, &url(), &SitemapOptions::default()).unwrap();
    assert_eq!(titles(&blog.entries), vec!["June", "January b", "January a"]);
}
