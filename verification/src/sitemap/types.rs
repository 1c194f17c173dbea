//! The options of a sitemap.

use vstd::prelude::*;
use crate::common::types::opt_view;

verus! {

/// How a sitemap is made.
///
/// The crate knows the posts and the tags of the blog and nothing of the
/// other pages of the site.  Where `sitemap_base` holds a sitemap of those,
/// its records are put into the sitemap that is made.
pub struct SitemapOptions {
    /// The priority of a post whose metadata gives none, and of every tag
    /// page, as decimal text.  `0.5` by default.
    pub default_priority: String,
    /// Whether the sitemap lists a page for each tag.  Not by default.
    pub include_tags: bool,
    /// Where the posts stand in the URL.  By default `blog`, which puts a
    /// post at `www.example.com/blog/2024-05-12/my-blog`.
    pub blog_root_slug: String,
    /// Where the tag pages stand in the URL.  By default `blog/tag`, which
    /// puts the tag `science` at `www.example.com/blog/tag/science`.  Unused
    /// where `include_tags` is not set.
    pub tag_root_slug: String,
    /// An XML sitemap whose records are put into the one that is made.
    pub sitemap_base: Option<String>,
}

/// The mathematical value of `SitemapOptions`.
pub struct Settings {
    pub default_priority: Seq<char>,
    pub include_tags: bool,
    pub blog_root_slug: Seq<char>,
    pub tag_root_slug: Seq<char>,
    pub sitemap_base: Option<Seq<char>>,
}

impl View for SitemapOptions {
    type V = Settings;

    open spec fn view(&self) -> Settings {
        Settings {
            default_priority: self.default_priority@,
            include_tags: self.include_tags,
            blog_root_slug: self.blog_root_slug@,
            tag_root_slug: self.tag_root_slug@,
            sitemap_base: opt_view(self.sitemap_base),
        }
    }
}

impl Default for SitemapOptions {
    fn default() -> (r: Self)
        ensures
            r@ == (Settings {
                default_priority: "0.5"@,
                include_tags: false,
                blog_root_slug: "blog"@,
                tag_root_slug: "blog/tag"@,
                sitemap_base: None,
            }),
    {
        Self {
            default_priority: "0.5".to_string(),
            include_tags: false,
            blog_root_slug: "blog".to_string(),
            tag_root_slug: "blog/tag".to_string(),
            sitemap_base: None,
        }
    }
}

} // verus!
