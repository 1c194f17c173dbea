use blog_tools::common::types::{BlogError, BlogJson};
use blog_tools::common::{no_function, RawPost};
use blog_tools::date::Date;
use blog_tools::low::{date_folder, get_blog_tag_list, preview_blogs, preview_blogs_tagged,
    render_blog_post, PreviewBlogEntry};
use blog_tools::types::Blog;
use markdown::mdast::Node;

fn post(title: &str, date: (i32, u32, u32), slug: &str, tags: &[&str]) -> RawPost {
    RawPost {
        path: format!("{}.md", slug),
        metadata: Ok(BlogJson {
            title: title.to_string(),
            date: Date::new(date.0, date.1, date.2).unwrap(),
            desc: None,
            slug: slug.to_string(),
            tags: tags.iter().map(|t| t.to_string()).collect(),
            keywords: None,
            canonical_link: None,
            author_name: None,
            author_webpage: None,
            last_modified: None,
            priority: None,
        }),
        content: Ok(format!("# {}\n\nThe text of {}.", title, title)),
    }
}

fn failing(metadata: Result<BlogJson, BlogError>, content: Result<String, BlogError>) -> RawPost {
    RawPost { path: "f.md".to_string(), metadata, content }
}

fn metadata_of(raw: RawPost) -> BlogJson {
    raw.metadata.unwrap()
}

fn unused(_tree: &Node) -> String {
    String::new()
}

fn count_nodes(tree: &Node) -> String {
    format!("{} blocks", tree.children().map(|c| c.len()).unwrap_or(0))
}

fn titles(entries: &Vec<PreviewBlogEntry>) -> Vec<String> {
    entries.iter().map(|e| e.json.title.clone()).collect()
}

#[test]
fn the_tags_of_the_blog_are_listed_once() {
    let posts = vec![
        post("One", (2024, 1, 1), "one", &["a", "b"]),
        post("Two", (2024, 1, 2), "two", &["b", "c"]),
    ];
    assert_eq!(get_blog_tag_list(posts).unwrap(), vec!["a", "b", "c"]);
}

#[test]
fn a_json_file_without_its_markdown_file_gives_no_tags() {
    let posts = vec![
        post("One", (2024, 1, 1), "one", &["a"]),
        failing(Ok(metadata_of(post("Lonely", (2024, 1, 1), "l", &["lonely"]))), Err(BlogError::FileNotFound)),
        failing(Err(BlogError::MetadataInvalid("broken".to_string())), Err(BlogError::FileNotFound)),
        failing(Err(BlogError::FileNotFound), Ok("stray".to_string())),
        post("Two", (2024, 1, 2), "two", &["b"]),
    ];
    assert_eq!(get_blog_tag_list(posts).unwrap(), vec!["a", "b"]);
}

#[test]
fn broken_metadata_fails_the_tag_list() {
    let posts = vec![
        post("One", (2024, 1, 1), "one", &["a"]),
        failing(Err(BlogError::MetadataInvalid("broken".to_string())), Ok("x".to_string())),
        failing(Err(BlogError::File("later".to_string())), Ok("x".to_string())),
    ];
    match get_blog_tag_list(posts) {
        Err(BlogError::MetadataInvalid(reason)) => assert_eq!(reason, "broken"),
        other => panic!("{:?}", other),
    }
}

#[test]
fn the_newest_posts_are_previewed_from_the_newest() {
    let posts = vec![
        post("Old", (2020, 1, 1), "old", &[]),
        post("New", (2024, 1, 1), "new", &[]),
        post("Middle a", (2022, 1, 1), "ma", &[]),
        post("Middle b", (2022, 1, 1), "mb", &[]),
    ];
    let previews = preview_blogs(posts, 3, None).unwrap();
    assert_eq!(titles(&previews), vec!["New", "Middle a", "Middle b"]);
    assert_eq!(previews[0].preview, "The text of New.");
}

#[test]
fn fewer_posts_than_asked_for_are_all_previewed() {
    let posts = vec![post("Old", (2020, 1, 1), "old", &[]), post("New", (2024, 1, 1), "new", &[])];
    assert_eq!(titles(&preview_blogs(posts, 10, Some(3)).unwrap()), vec!["New", "Old"]);
    let posts = vec![post("Old", (2020, 1, 1), "old", &[])];
    assert!(preview_blogs(posts, 0, None).unwrap().is_empty());
    assert!(preview_blogs(vec![], 2, None).unwrap().is_empty());
}

#[test]
fn previews_are_cut_at_the_length_given() {
    let posts = vec![post("Old", (2020, 1, 1), "old", &[])];
    let previews = preview_blogs(posts, 1, Some(8)).unwrap();
    assert_eq!(previews[0].preview, "The text");
}

#[test]
fn only_the_posts_that_are_previewed_have_to_render() {
    let posts = vec![
        post("New", (2024, 1, 1), "new", &[]),
        failing(Ok(metadata_of(post("Old", (2020, 1, 1), "old", &[]))), Err(BlogError::File("gone".to_string()))),
    ];
    assert_eq!(titles(&preview_blogs(posts, 1, None).unwrap()), vec!["New"]);
    let posts = vec![
        post("New", (2024, 1, 1), "new", &[]),
        failing(Ok(metadata_of(post("Old", (2020, 1, 1), "old", &[]))), Err(BlogError::File("gone".to_string()))),
    ];
    match preview_blogs(posts, 2, None) {
        Err(BlogError::File(reason)) => assert_eq!(reason, "gone"),
        other => panic!("{:?}", other.map(|v| titles(&v))),
    }
}

#[test]
fn broken_metadata_fails_the_previews_of_the_newest() {
    let posts = vec![
        post("New", (2024, 1, 1), "new", &[]),
        failing(Err(BlogError::MetadataInvalid("broken".to_string())), Ok("x".to_string())),
    ];
    match preview_blogs(posts, 1, None) {
        Err(BlogError::MetadataInvalid(reason)) => assert_eq!(reason, "broken"),
        other => panic!("{:?}", other.map(|v| titles(&v))),
    }
}

#[test]
fn the_posts_with_a_tag_are_previewed_in_their_order() {
    let posts = vec![
        post("One", (2020, 1, 1), "one", &["a", "b"]),
        post("Two", (2024, 1, 2), "two", &["c"]),
        failing(Err(BlogError::FileNotFound), Ok("stray".to_string())),
        post("Three", (2022, 1, 2), "three", &["b"]),
    ];
    let previews = preview_blogs_tagged(posts, "b".to_string(), Some(12)).unwrap();
    assert_eq!(titles(&previews), vec!["One", "Three"]);
    assert_eq!(previews[1].preview, "The text of ");
    assert_eq!(previews[0].json.tags, vec!["a", "b"]);
}

#[test]
fn a_tag_that_no_post_has_gives_no_previews() {
    let posts = vec![post("One", (2020, 1, 1), "one", &["a"])];
    assert!(preview_blogs_tagged(posts, "A".to_string(), None).unwrap().is_empty());
}

#[test]
fn a_post_with_the_tag_that_cannot_be_read_fails_the_list() {
    let posts = vec![
        failing(Ok(metadata_of(post("Other", (2020, 1, 1), "o", &["z"]))), Err(BlogError::File("not asked".to_string()))),
        failing(Ok(metadata_of(post("Tagged", (2020, 1, 1), "t", &["a"]))), Err(BlogError::File("asked".to_string()))),
    ];
    match preview_blogs_tagged(posts, "a".to_string(), None) {
        Err(BlogError::File(reason)) => assert_eq!(reason, "asked"),
        other => panic!("{:?}", other.map(|v| titles(&v))),
    }
}

#[test]
fn a_post_is_rendered_by_date_and_slug() {
    let posts = vec![
        post("Other", (2024, 3, 19), "other", &[]),
        post("Hi", (2024, 3, 19), "post", &["x"]),
        post("Same slug, other day", (2024, 3, 20), "post", &[]),
    ];
    let entry = render_blog_post(posts, "2024-03-19".to_string(), "post".to_string(), Some(&count_nodes))
        .unwrap()
        .unwrap();
    assert_eq!(entry.get_title(), "Hi");
    assert_eq!(entry.get_tags(), vec!["x"]);
    assert_eq!(entry.get_html(), "<h1>Hi</h1>\n<p>The text of Hi.</p>");
    assert_eq!(entry.get_table_of_contents(), Some("2 blocks".to_string()));
    assert_eq!(entry.get_full_slug(), "2024-03-19/post");
}

#[test]
fn a_post_that_is_not_there_is_not_found() {
    let posts = vec![post("Hi", (2024, 3, 19), "post", &[])];
    assert!(render_blog_post(posts, "2024-03-19".to_string(), "other".to_string(), no_function(&unused)).unwrap().is_none());
    let posts = vec![post("Hi", (2024, 3, 19), "post", &[])];
    assert!(render_blog_post(posts, "2024-03-20".to_string(), "post".to_string(), no_function(&unused)).unwrap().is_none());
    assert!(render_blog_post(vec![], "2024-03-20".to_string(), "post".to_string(), no_function(&unused)).unwrap().is_none());
}

#[test]
fn an_improper_date_is_refused() {
    for date in ["19-03-2024", "2024-3-19", "yesterday", "", "2024-02-30"] {
        let posts = vec![post("Hi", (2024, 3, 19), "post", &[])];
        match render_blog_post(posts, date.to_string(), "post".to_string(), no_function(&unused)) {
            Err(BlogError::ImproperDate(text)) => assert_eq!(text, date),
            other => panic!("{:?}", other.map(|e| e.map(|x| x.get_title()))),
        }
        assert!(matches!(date_folder(date), Err(BlogError::ImproperDate(_))));
    }
}

#[test]
fn the_posts_of_a_date_lie_in_the_folder_of_their_year() {
    let folder = date_folder("2024-03-19").unwrap();
    assert_eq!(folder.year, "2024");
    assert_eq!(folder.date, "2024-03-19");
    let folder = date_folder("0987-01-02").unwrap();
    assert_eq!(folder.year, "0987");
}

#[test]
fn the_first_of_two_posts_with_one_date_and_slug_is_rendered() {
    let posts = vec![post("First", (2024, 3, 19), "post", &[]), post("Second", (2024, 3, 19), "post", &[])];
    let entry = render_blog_post(posts, "2024-03-19".to_string(), "post".to_string(), no_function(&unused)).unwrap().unwrap();
    assert_eq!(entry.get_title(), "First");
}

#[test]
fn broken_metadata_before_the_post_fails_the_search() {
    let posts = vec![
        failing(Err(BlogError::MetadataInvalid("broken".to_string())), Ok("x".to_string())),
        post("Hi", (2024, 3, 19), "post", &[]),
    ];
    match render_blog_post(posts, "2024-03-19".to_string(), "post".to_string(), no_function(&unused)) {
        Err(BlogError::MetadataInvalid(reason)) => assert_eq!(reason, "broken"),
        other => panic!("{:?}", other.map(|e| e.map(|x| x.get_title()))),
    }
    let posts = vec![
        post("Hi", (2024, 3, 19), "post", &[]),
        failing(Err(BlogError::MetadataInvalid("broken".to_string())), Ok("x".to_string())),
    ];
    assert!(render_blog_post(posts, "2024-03-19".to_string(), "post".to_string(), no_function(&unused)).unwrap().is_some());
}
