//! Nothing in memory: every call works on the posts as they were read for
//! it.

pub mod parse;
pub mod types;

pub use parse::{date_folder, get_blog_tag_list, preview_blogs, preview_blogs_tagged,
    render_blog_post};
pub use types::{LowBlogEntry, PreviewBlogEntry};

