//! XML sitemaps of a blog.

pub mod document;
pub mod sitemap;
pub mod types;

pub use sitemap::{assemble_sitemap, create_sitemap, create_sitemap_inner};
pub use types::SitemapOptions;

