//! What every kind of post entry can do.

use vstd::prelude::*;
use markdown::mdast::Node;
use crate::common::{markdown_html, markdown_tree, RawPost, Source};
use crate::common::preview::{preview_budget, preview_of};
use crate::common::types::{opt_view, opt_views, views, BlogError, Failure, Metadata};
use crate::date::Date;

verus! {

/// Whether the function that makes tables of contents, where there is one,
/// may be called on every document tree.
pub open spec fn toc_callable<F: Fn(&Node) -> String>(toc_generation_func: Option<&F>) -> bool {
    toc_generation_func matches Some(f) ==> forall|tree: &Node| f.requires((tree,))
}

/// Whether `toc` is the table of contents of the Markdown text: none where
/// no function is given, else a text that the function gives for the tree
/// of the Markdown text.
pub open spec fn is_toc_of<F: Fn(&Node) -> String>(
    toc: Option<Seq<char>>,
    markdown: Seq<char>,
    toc_generation_func: Option<&F>,
) -> bool {
    match toc_generation_func {
        None => toc is None,
        Some(f) => {
            &&& markdown_tree(markdown) matches Ok(tree)
            &&& toc matches Some(text)
            &&& exists|made: String| made@ == text && f.ensures((&tree,), made)
        },
    }
}

/// Why no entry can be made of a post: the failure of its metadata, else
/// that of its content, else the refusal of the renderer, else, where a
/// table of contents is asked for, the refusal of the Markdown parser.
/// `None` where an entry can be made.
pub open spec fn creation_failure(source: Source, with_toc: bool) -> Option<Failure> {
    match source.metadata {
        Err(e) => Some(e),
        Ok(_) => match source.content {
            Err(e) => Some(e),
            Ok(markdown) => match markdown_html(markdown) {
                Err(m) => Some(Failure::Markdown(m)),
                Ok(_) => if with_toc {
                    match markdown_tree(markdown) {
                        Err(m) => Some(Failure::Markdown(m)),
                        Ok(_) => None,
                    }
                } else {
                    None
                },
            },
        },
    }
}

/// The Markdown text of a post whose content was read.
pub open spec fn markdown_of(source: Source) -> Seq<char> {
    match source.content {
        Ok(markdown) => markdown,
        Err(_) => Seq::empty(),
    }
}

/// The HTML of a post whose content was read and rendered.
pub open spec fn html_of(source: Source) -> Seq<char> {
    match markdown_html(markdown_of(source)) {
        Ok(html) => html,
        Err(_) => Seq::empty(),
    }
}

/// The metadata of a post whose metadata was read.
pub open spec fn metadata_of(source: Source) -> Metadata {
    match source.metadata {
        Ok(metadata) => metadata,
        Err(_) => arbitrary(),
    }
}

/// Whether `entry` is the entry of the post `source`: it has the metadata
/// of the post, the preview of its HTML, and its table of contents.
pub open spec fn made_of<T: Blog, F: Fn(&Node) -> String>(
    entry: T,
    source: Source,
    toc_generation_func: Option<&F>,
    preview_chars: Option<usize>,
) -> bool {
    &&& entry.metadata() == metadata_of(source)
    &&& entry.preview_text() == preview_of(html_of(source), preview_budget(preview_chars))
    &&& is_toc_of(entry.contents(), markdown_of(source), toc_generation_func)
    &&& entry.keeps(source)
}

/// An entry of a blog: one post, with its metadata, its preview and its
/// table of contents.  What else an entry keeps depends on its kind.
pub trait Blog: Sized {
    /// The metadata of the post.
    spec fn metadata(&self) -> Metadata;

    /// The preview of the post.
    spec fn preview_text(&self) -> Seq<char>;

    /// The table of contents of the post, where one was made.
    spec fn contents(&self) -> Option<Seq<char>>;

    /// Whether the entry holds what its kind keeps of the post besides: the
    /// HTML of the post, or the path of its Markdown file.
    spec fn keeps(&self, source: Source) -> bool;

    /// Makes the entry of a post that was read from disk: renders its
    /// Markdown, takes the preview from the HTML and, where a function is
    /// given, makes the table of contents of the Markdown's tree.
    ///
    /// - `toc_generation_func`: makes a table of contents of a document
    ///   tree.  Optional.
    /// - `preview_chars`: the number of characters of the preview, 320 where
    ///   none is given.
    fn create<F: Fn(&Node) -> String>(
        post: RawPost,
        toc_generation_func: Option<&F>,
        preview_chars: Option<usize>,
    ) -> (r: Result<Self, BlogError>)
        requires
            toc_callable(toc_generation_func),
        ensures
            match r {
                Ok(entry) => {
                    &&& creation_failure(post@, toc_generation_func is Some) is None
                    &&& entry.metadata() == metadata_of(post@)
                    &&& entry.preview_text() == preview_of(
                        html_of(post@),
                        preview_budget(preview_chars),
                    )
                    &&& is_toc_of(entry.contents(), markdown_of(post@), toc_generation_func)
                    &&& entry.keeps(post@)
                },
                Err(e) => creation_failure(post@, toc_generation_func is Some) == Some(e@),
            },
    ;

    /// The title.
    fn get_title(&self) -> (r: String)
        ensures
            r@ == self.metadata().title,
    ;

    /// The day of publication.
    fn get_date_listed(&self) -> (r: Date)
        ensures
            r == self.metadata().date,
    ;

    /// The description.
    fn get_description(&self) -> (r: Option<String>)
        ensures
            opt_view(r) == self.metadata().desc,
    ;

    /// The full slug, such as `2024-03-19/my-blog`: the date, a slash and
    /// the partial slug.
    fn get_full_slug(&self) -> (r: String)
        ensures
            r@ == self.metadata().full_slug(),
    ;

    /// The partial slug, the `slug` of the metadata.
    fn get_part_slug(&self) -> (r: String)
        ensures
            r@ == self.metadata().slug,
    ;

    /// The tags.
    fn get_tags(&self) -> (r: Vec<String>)
        ensures
            views(r@) == self.metadata().tags,
    ;

    /// The table of contents, where a function that makes one was given.
    fn get_table_of_contents(&self) -> (r: Option<String>)
        ensures
            opt_view(r) == self.contents(),
    ;

    /// The keywords.
    fn get_keywords(&self) -> (r: Option<Vec<String>>)
        ensures
            opt_views(r) == self.metadata().keywords,
    ;

    /// The canonical link.
    fn get_canonicle_link(&self) -> (r: Option<String>)
        ensures
            opt_view(r) == self.metadata().canonical_link,
    ;

    /// The author's name.
    fn get_author_name(&self) -> (r: Option<String>)
        ensures
            opt_view(r) == self.metadata().author_name,
    ;

    /// The author's web page.
    fn get_author_webpage(&self) -> (r: Option<String>)
        ensures
            opt_view(r) == self.metadata().author_webpage,
    ;

    /// The preview: the first characters of the post, for an index page.
    fn get_preview(&self) -> (r: String)
        ensures
            r@ == self.preview_text(),
    ;

    /// The day of the last change, where the metadata gives one.
    fn get_last_modified(&self) -> (r: Option<Date>)
        ensures
            r == self.metadata().last_modified,
    ;

    /// The sitemap priority, where the metadata gives one.
    fn get_priority(&self) -> (r: Option<String>)
        ensures
            opt_view(r) == self.metadata().priority,
    ;
}

/// The metadata of a list of entries.
pub open spec fn metadata_seq<T: Blog>(entries: Seq<T>) -> Seq<Metadata> {
    Seq::new(entries.len(), |i: int| entries[i].metadata())
}

} // verus!
