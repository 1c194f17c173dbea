//! The loading of a blog of which all but the HTML is kept in memory.

use vstd::prelude::*;
use markdown::mdast::Node;
use crate::common::{newest, RawPost, Source};
use crate::common::blog::{get_blog_entries, is_blog_of, is_entry_of};
use crate::common::types::{views, BlogError};
use crate::high::types::HighBlog;
use crate::order::view_seq;
use crate::sitemap::sitemap::blog_failure;
use crate::sitemap::types::{Settings, SitemapOptions};
use crate::types::{html_of, toc_callable};
use super::types::{lemma_rendered_is_high_entry, MediumBlog};

verus! {

/// Loads the blog: the entry of every post without its HTML, the tags, and
/// the sitemap.  `MediumBlogEntry::render` makes the HTML of a post when it is
/// asked for.
///
/// `posts` holds the posts as they were read from disk, in the order of
/// `get_blog_paths`.  A post whose JSON file does not exist is left out.
///
/// - `toc_generation_func`: makes a table of contents of a document tree.
///   Optional.
/// - `preview_chars`: the number of characters of a preview.  320 where none
///   is given.
/// - `url`: the URL of the site, for the sitemap.
///
/// The first post that fails otherwise fails the blog; so does a priority
/// that is no number from 0 to 1.
pub fn get_medium_blog<F: Fn(&Node) -> String>(
    posts: Vec<RawPost>,
    toc_generation_func: Option<&F>,
    preview_chars: Option<usize>,
    url: &String,
    sitemap_options: &SitemapOptions,
) -> (r: Result<MediumBlog, BlogError>)
    requires
        toc_callable(toc_generation_func),
    ensures
        match r {
            Ok(blog) => {
                &&& blog_failure(
                    view_seq(posts@),
                    toc_generation_func is Some,
                    sitemap_options@,
                ) is None
                &&& is_blog_of(
                    blog,
                    view_seq(posts@),
                    toc_generation_func,
                    preview_chars,
                    url@,
                    sitemap_options@,
                )
            },
            Err(e) => blog_failure(
                view_seq(posts@),
                toc_generation_func is Some,
                sitemap_options@,
            ) == Some(e@),
        },
{
    get_blog_entries(posts, toc_generation_func, preview_chars, url, sitemap_options)
}

/// A blog that is kept whole and a blog that is kept without HTML, loaded
/// from the same posts without a function for tables of contents, hold the
/// same: as many entries, the same tags, and each entry of the second, once
/// rendered, is the entry of the first that stands at its place.
pub proof fn lemma_blogs_agree<F: Fn(&Node) -> String>(
    high: HighBlog,
    medium: MediumBlog,
    sources: Seq<Source>,
    toc_generation_func: Option<&F>,
    preview_chars: Option<usize>,
    url: Seq<char>,
    settings: Settings,
)
    requires
        toc_generation_func is None,
        is_blog_of(high, sources, toc_generation_func, preview_chars, url, settings),
        is_blog_of(medium, sources, toc_generation_func, preview_chars, url, settings),
    ensures
        high.entries@.len() == medium.entries@.len(),
        views(high.tags@) == views(medium.tags@),
        forall|i: int|
            0 <= i < medium.entries@.len() ==> (#[trigger] medium.entries@[i])@.rendered(
                html_of(newest(sources)[i]),
            ) == high.entries@[i]@,
{
    assert forall|i: int| 0 <= i < medium.entries@.len() implies (
    #[trigger] medium.entries@[i])@.rendered(html_of(newest(sources)[i])) == high.entries@[i]@ by {
        assert(is_entry_of(
            high.entries@[i],
            newest(sources)[i],
            toc_generation_func,
            preview_chars,
        ));
        assert(is_entry_of(
            medium.entries@[i],
            newest(sources)[i],
            toc_generation_func,
            preview_chars,
        ));
        lemma_rendered_is_high_entry(
            high.entries@[i],
            medium.entries@[i],
            newest(sources)[i],
            toc_generation_func,
            preview_chars,
        );
    }
}

} // verus!
