//! The loading of a blog that is kept whole in memory.

use vstd::prelude::*;
use markdown::mdast::Node;
use crate::common::RawPost;
use crate::common::blog::{get_blog_entries, is_blog_of};
use crate::common::types::BlogError;
use crate::order::view_seq;
use crate::sitemap::sitemap::blog_failure;
use crate::sitemap::types::SitemapOptions;
use crate::types::toc_callable;
use super::types::HighBlog;

verus! {

/// Loads the whole blog: the entry of every post with its HTML, the tags,
/// and the sitemap.
///
/// `posts` holds the posts as they were read from disk, in the order of
/// `get_blog_paths`.  A post whose JSON file does not exist is left out.
///
/// - `toc_generation_func`: makes a table of contents of a document tree.
///   Optional.
/// - `preview_chars`: the number of characters of a preview.  320 where none
///   is given.
/// - `url`: the URL of the site, for the sitemap.
///
/// The first post that fails otherwise fails the blog; so does a priority
/// that is no number from 0 to 1.
pub fn get_high_blog<F: Fn(&Node) -> String>(
    posts: Vec<RawPost>,
    toc_generation_func: Option<&F>,
    preview_chars: Option<usize>,
    url: &String,
    sitemap_options: &SitemapOptions,
) -> (r: Result<HighBlog, BlogError>)
    requires
        toc_callable(toc_generation_func),
    ensures
        match r {
            Ok(blog) => {
                &&& blog_failure(
                    view_seq(posts@),
                    toc_generation_func is Some,
                    sitemap_options@,
                ) is None
                &&& is_blog_of(
                    blog,
                    view_seq(posts@),
                    toc_generation_func,
                    preview_chars,
                    url@,
                    sitemap_options@,
                )
            },
            Err(e) => blog_failure(
                view_seq(posts@),
                toc_generation_func is Some,
                sitemap_options@,
            ) == Some(e@),
        },
{
    get_blog_entries(posts, toc_generation_func, preview_chars, url, sitemap_options)
}

} // verus!
