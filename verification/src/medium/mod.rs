//! All but the HTML of the posts in memory: a post is rendered when it is
//! asked for.

pub mod parse;
pub mod types;

pub use crate::common::blog::get_blog_entries;
pub use parse::get_medium_blog;
pub use types::{MediumBlog, MediumBlogEntry};
