//! The whole blog in memory: the highest speed at the highest use of memory.

pub mod parse;
pub mod types;

pub use parse::get_high_blog;
pub use types::{HighBlog, HighBlogEntry};
