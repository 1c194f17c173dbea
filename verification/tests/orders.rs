use blog_tools::common::types::BlogJson;
use blog_tools::common::{FoundFile, RawPost};
use blog_tools::date::Date;
use blog_tools::order::{sort_ranked, Pending, Ranked};

fn file(path: &str) -> FoundFile {
    FoundFile { path: path.to_string(), name: path.to_string(), is_file: true }
}

fn post(name: &str, date: (i32, u32, u32)) -> RawPost {
    RawPost {
        path: name.to_string(),
        metadata: Ok(BlogJson {
            title: name.to_string(),
            date: Date::new(date.0, date.1, date.2).unwrap(),
            desc: None,
            slug: name.to_string(),
            tags: vec![],
            keywords: None,
            canonical_link: None,
            author_name: None,
            author_webpage: None,
            last_modified: None,
            priority: None,
        }),
        content: Ok(String::new()),
    }
}

#[test]
fn a_list_is_used_up_from_its_front() {
    let mut rest = Pending::new(vec![1, 2, 3]);
    assert!(!rest.is_empty());
    assert_eq!(rest.next(), 1);
    assert_eq!(rest.next(), 2);
    assert_eq!(rest.next(), 3);
    assert!(rest.is_empty());
    assert!(Pending::<u8>::new(vec![]).is_empty());
}

#[test]
fn files_stand_before_those_with_a_smaller_path() {
    assert!(file("b").stands_before(&file("a")));
    assert!(!file("a").stands_before(&file("b")));
    assert!(!file("a").stands_before(&file("a")));
    let sorted = sort_ranked(vec![file("b"), file("a"), file("c"), file("a")]);
    let paths: Vec<String> = sorted.into_iter().map(|f| f.path).collect();
    assert_eq!(paths, vec!["c", "b", "a", "a"]);
}

#[test]
fn posts_of_one_day_keep_their_order_when_sorted() {
    let posts = vec![
        post("first of the old", (2020, 1, 1)),
        post("first of the new", (2024, 1, 1)),
        post("second of the old", (2020, 1, 1)),
        post("second of the new", (2024, 1, 1)),
        post("third of the old", (2020, 1, 1)),
    ];
    let names: Vec<String> = sort_ranked(posts).into_iter().map(|p| p.path).collect();
    assert_eq!(
        names,
        vec![
            "first of the new",
            "second of the new",
            "first of the old",
            "second of the old",
            "third of the old",
        ]
    );
}

#[test]
fn sorting_nothing_gives_nothing() {
    let none: Vec<FoundFile> = vec![];
    assert!(sort_ranked(none).is_empty());
}
