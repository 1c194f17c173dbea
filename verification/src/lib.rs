//! # Blog Tools
//!
//! Tools for making a blog of a folder of posts: rendered HTML, previews,
//! tag lists and XML sitemaps.
//!
//! ## The folder of a blog
//!
//! A blog is a folder, the root, in which every post is a pair of files with
//! one stem: `<stem>.md` with the text and `<stem>.json` with the metadata.
//! By convention the posts lie in folders by year and date:
//!
//! - blog
//!     - 2023
//!         - 2023-01-01
//!             - my_first_blog.json
//!             - my_first_blog.md
//!
//! The JSON holds `title`, `date` (`YYYY-MM-DD`), `slug` and `tags`, and may
//! hold `desc`, `keywords`, `canonical_link`, `author_name`,
//! `author_webpage`, `last_modified` and `priority`.
//!
//! This crate reads no files.  Its functions take the posts as they were
//! read: a [`common::RawPost`] for each, in the order that
//! [`common::get_blog_paths`] gives to the files that were found.
//!
//! ## Slugs
//!
//! The full slug of a post is `{date}/{slug}`, such as `2024-03-19/my-blog`.
//! The `slug` of the JSON is the last part alone.
//!
//! ## Three ways to serve a blog
//!
//! - [`high`] keeps the whole blog in memory, the HTML of every post too.
//! - [`medium`] keeps all but the HTML, and renders a post when it is asked
//!   for.
//! - [`low`] keeps nothing: every question is answered from the posts as
//!   they were read for it.
//!
//! All three hold the same of a post; [`sitemap`] makes the sitemap of
//! each.
//!
//! ## What is proved, and what is trusted
//!
//! Every function states what it returns, over the texts, dates and lists
//! that its arguments stand for, and is proved to keep to it.  Four outside
//! libraries do what only they can do, behind functions whose contracts are
//! taken on trust: `chrono` writes dates and reads the clock, `markdown`
//! renders and parses Markdown, `tl` parses HTML, and `xml-rs` reads and
//! writes XML.  Their doc comments begin with `Trusted:`.

pub mod common;
pub mod date;
pub mod high;
pub mod low;
pub mod medium;
pub mod order;
pub mod priority;
pub mod sitemap;
pub mod text;
pub mod types;

pub use types::Blog;

