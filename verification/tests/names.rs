use blog_tools::common::types::BlogError;
use blog_tools::common::{content_file_name, get_blog_paths, sidecar, sidecar_file_name,
    source_name, split_name, FoundFile};

fn found(path: &str) -> FoundFile {
    let name = path.rsplit('/').next().unwrap().to_string();
    FoundFile { path: path.to_string(), name, is_file: true }
}

fn folder(path: &str) -> FoundFile {
    let name = path.rsplit('/').next().unwrap().to_string();
    FoundFile { path: path.to_string(), name, is_file: false }
}

#[test]
fn the_json_file_of_a_post_shares_its_stem() {
    assert_eq!(sidecar_file_name("post.md").unwrap(), "post.json");
    assert_eq!(sidecar_file_name("post.html").unwrap(), "post.json");
    assert_eq!(sidecar_file_name("my_first_blog.md").unwrap(), "my_first_blog.json");
    assert_eq!(sidecar_file_name("post.json").unwrap(), "post.json");
    assert_eq!(sidecar_file_name("post").unwrap(), "post.json");
}

#[test]
fn only_the_extension_is_replaced() {
    assert_eq!(sidecar_file_name("my.post.md").unwrap(), "my.post.json");
    assert_eq!(content_file_name("my.post.json").unwrap(), "my.post.md");
    assert_eq!(sidecar_file_name("2024.01.01.notes.html").unwrap(), "2024.01.01.notes.json");
    assert_eq!(sidecar_file_name("post.").unwrap(), "post.json");
    assert_eq!(sidecar_file_name(".hidden.md").unwrap(), ".hidden.json");
}

#[test]
fn a_name_is_cut_at_its_last_dot() {
    let parts = split_name("my.post.md");
    assert_eq!(parts.stem, "my.post");
    assert_eq!(parts.extension, ".md");
    let parts = split_name("post");
    assert_eq!(parts.stem, "post");
    assert_eq!(parts.extension, "");
    let parts = split_name(".md");
    assert_eq!(parts.stem, "");
    assert_eq!(parts.extension, ".md");
    let parts = split_name("post.");
    assert_eq!(parts.stem, "post");
    assert_eq!(parts.extension, ".");
    let parts = split_name("");
    assert_eq!(parts.stem, "");
    assert_eq!(parts.extension, "");
}

#[test]
fn the_markdown_file_of_a_json_file_shares_its_stem() {
    assert_eq!(content_file_name("post.json").unwrap(), "post.md");
    assert_eq!(content_file_name("post.md").unwrap(), "post.md");
}

#[test]
fn a_name_without_a_stem_is_improper() {
    match sidecar_file_name(".md") {
        Err(BlogError::ImproperFileName(name)) => assert_eq!(name, ".md"),
        other => panic!("{:?}", other),
    }
    match sidecar_file_name("") {
        Err(BlogError::ImproperFileName(name)) => assert_eq!(name, ""),
        other => panic!("{:?}", other),
    }
    assert!(matches!(content_file_name(".json"), Err(BlogError::ImproperFileName(_))));
}

#[test]
fn posts_end_with_md_or_html() {
    assert!(source_name("post.md"));
    assert!(source_name("post.html"));
    assert!(source_name("my.post.md"));
    assert!(!source_name("post.md.bak"));
    assert!(!source_name("a.mdx"));
    assert!(!source_name("post.json"));
    assert!(!source_name("post.md.json"));
    assert!(!source_name("post.txt"));
    assert!(!source_name("md"));
    assert!(!source_name(".md"));
    assert!(!source_name(".html"));
    assert!(!source_name("post.MD"));
    assert!(!source_name(""));
}

#[test]
fn json_files_end_with_json() {
    assert!(sidecar("post.json"));
    assert!(sidecar("my.post.json"));
    assert!(!sidecar(".json"));
    assert!(!sidecar("post.json.bak"));
    assert!(!sidecar("post.md"));
}

#[test]
fn paths_come_from_the_largest_to_the_smallest() {
    let paths = get_blog_paths(vec![
        found("blog/2023/2023-05-01/a.md"),
        found("blog/2024/2024-01-01/b.md"),
        found("blog/2024/2024-01-01/a.md"),
        found("blog/2024/2024-06-01/c.md"),
    ]);
    assert_eq!(
        paths,
        vec![
            "blog/2024/2024-06-01/c.md",
            "blog/2024/2024-01-01/b.md",
            "blog/2024/2024-01-01/a.md",
            "blog/2023/2023-05-01/a.md",
        ]
    );
}

#[test]
fn only_the_paths_of_posts_are_kept() {
    let paths = get_blog_paths(vec![
        found("blog/2024/2024-01-01/a.json"),
        found("blog/2024/2024-01-01/a.md"),
        folder("blog/2024/2024-01-01"),
        found("blog/2024/2024-01-01/picture.png"),
        found("blog/2024/2024-01-01/a.md.bak"),
        found("blog/2024/2024-01-02/page.html"),
    ]);
    assert_eq!(paths, vec!["blog/2024/2024-01-02/page.html", "blog/2024/2024-01-01/a.md"]);
}

#[test]
fn a_directory_is_no_post_whatever_its_name() {
    let paths = get_blog_paths(vec![
        folder("blog/drafts.md"),
        found("blog/drafts.md/real.md"),
        folder("blog/pages.html"),
    ]);
    assert_eq!(paths, vec!["blog/drafts.md/real.md"]);
}

#[test]
fn the_order_of_paths_is_that_of_sorting_and_reversing() {
    let names = ["b/z.md", "a/z.md", "a.md", "a/a.md", "B.md", "ab.md", "a-b.md", "a.b.md"];
    let mut expected: Vec<String> = names.iter().map(|s| s.to_string()).collect();
    expected.sort();
    expected.reverse();
    let paths = get_blog_paths(names.iter().map(|s| found(s)).collect());
    assert_eq!(paths, expected);
}

#[test]
fn no_files_give_no_paths() {
    assert!(get_blog_paths(vec![]).is_empty());
}
