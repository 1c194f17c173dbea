//! The entries of a blog of which all but the HTML is kept in memory.

use vstd::prelude::*;
use markdown::mdast::Node;
use crate::common::{markdown_html, render_markdown, text_or_failure, toc, RawPost, Source};
use crate::common::blog::{BlogIndex, Kept};
use crate::common::preview::get_preview;
use crate::common::types::{clone_opt_text, clone_opt_texts, clone_texts, opt_view, BlogError,
    BlogJson, Failure, Metadata};
use crate::date::Date;
use crate::high::types::{HighBlogEntry, HighEntry};
use crate::order::Ranked;
use crate::text::same_text;
use crate::types::{html_of, Blog};

verus! {

/// The blog in memory without the HTML of its posts.
pub type MediumBlog = BlogIndex<MediumBlogEntry>;

/// One post, without its HTML.  `render` makes the HTML when it is asked
/// for.
#[derive(Debug)]
pub struct MediumBlogEntry {
    /// The metadata of the post.
    pub json: BlogJson,
    /// The table of contents.
    pub toc: Option<String>,
    /// The preview of the post, for index pages.
    pub preview: String,
    /// The path of the Markdown file of the post, as it was found: where
    /// `render` wants the text to be read from.
    pub path: String,
}

/// The mathematical value of a `MediumBlogEntry`.
pub struct MediumEntry {
    pub metadata: Metadata,
    pub toc: Option<Seq<char>>,
    pub preview: Seq<char>,
    pub path: Seq<char>,
}

impl MediumEntry {
    /// The entry with the HTML of the post: what a blog that is kept whole
    /// in memory holds for the post.
    pub open spec fn rendered(self, html: Seq<char>) -> HighEntry {
        HighEntry { metadata: self.metadata, html, toc: self.toc, preview: self.preview }
    }
}

impl View for MediumBlogEntry {
    type V = MediumEntry;

    open spec fn view(&self) -> MediumEntry {
        MediumEntry {
            metadata: self.json@,
            toc: opt_view(self.toc),
            preview: self.preview@,
            path: self.path@,
        }
    }
}

impl Clone for MediumBlogEntry {
    fn clone(&self) -> (r: Self)
        ensures
            r@ == self@,
    {
        MediumBlogEntry {
            json: self.json.clone(),
            toc: clone_opt_text(&self.toc),
            preview: self.preview.clone(),
            path: self.path.clone(),
        }
    }
}

impl Ranked for MediumBlogEntry {
    /// A post stands before those of an earlier day.
    open spec fn before(&self, other: &Self) -> bool {
        other.json.date.earlier(self.json.date)
    }

    fn stands_before(&self, other: &Self) -> (b: bool) {
        other.json.date.is_before(&self.json.date)
    }
}

impl Kept for MediumBlogEntry {
    proof fn lemma_copy(entry: Self, copy: Self) {
    }

    proof fn lemma_rank(a: Self, b: Self) {
    }
}

impl Blog for MediumBlogEntry {
    open spec fn metadata(&self) -> Metadata {
        self.json@
    }

    open spec fn preview_text(&self) -> Seq<char> {
        self.preview@
    }

    open spec fn contents(&self) -> Option<Seq<char>> {
        opt_view(self.toc)
    }

    open spec fn keeps(&self, source: Source) -> bool {
        self.path@ == source.path
    }

    fn create<F: Fn(&Node) -> String>(
        post: RawPost,
        toc_generation_func: Option<&F>,
        preview_chars: Option<usize>,
    ) -> (r: Result<Self, BlogError>) {
        let json = match post.metadata {
            Ok(x) => x,
            Err(y) => {
                return Err(y);
            },
        };
        let markdown = match post.content {
            Ok(x) => x,
            Err(y) => {
                return Err(y);
            },
        };
        let html = match render_markdown(markdown.as_str()) {
            Ok(x) => x,
            Err(y) => {
                return Err(y);
            },
        };
        let preview = get_preview(&html, preview_chars);
        let toc = match toc(&markdown, toc_generation_func) {
            Ok(x) => x,
            Err(y) => {
                return Err(y);
            },
        };
        Ok(MediumBlogEntry::new(json, toc, preview, post.path))
    }

    fn get_title(&self) -> (r: String) {
        self.json.title.clone()
    }

    fn get_date_listed(&self) -> (r: Date) {
        self.json.date
    }

    fn get_description(&self) -> (r: Option<String>) {
        clone_opt_text(&self.json.desc)
    }

    fn get_full_slug(&self) -> (r: String) {
        self.json.full_slug()
    }

    fn get_part_slug(&self) -> (r: String) {
        self.json.slug.clone()
    }

    fn get_tags(&self) -> (r: Vec<String>) {
        clone_texts(&self.json.tags)
    }

    fn get_table_of_contents(&self) -> (r: Option<String>) {
        clone_opt_text(&self.toc)
    }

    fn get_keywords(&self) -> (r: Option<Vec<String>>) {
        clone_opt_texts(&self.json.keywords)
    }

    fn get_canonicle_link(&self) -> (r: Option<String>) {
        clone_opt_text(&self.json.canonical_link)
    }

    fn get_author_name(&self) -> (r: Option<String>) {
        clone_opt_text(&self.json.author_name)
    }

    fn get_author_webpage(&self) -> (r: Option<String>) {
        clone_opt_text(&self.json.author_webpage)
    }

    fn get_preview(&self) -> (r: String) {
        self.preview.clone()
    }

    fn get_last_modified(&self) -> (r: Option<Date>) {
        self.json.last_modified
    }

    fn get_priority(&self) -> (r: Option<String>) {
        clone_opt_text(&self.json.priority)
    }
}

impl MediumEntry {
    /// Why the post cannot be rendered from what was read at `path`: the
    /// file is not the Markdown file of the post, else reading it failed,
    /// else the renderer refused the text.  `None` where it can be rendered.
    pub open spec fn render_failure(
        self,
        path: Seq<char>,
        content: Result<Seq<char>, Failure>,
    ) -> Option<Failure> {
        if path != self.path {
            Some(Failure::FileNotFound)
        } else {
            match content {
                Err(e) => Some(e),
                Ok(markdown) => match markdown_html(markdown) {
                    Err(m) => Some(Failure::Markdown(m)),
                    Ok(_) => None,
                },
            }
        }
    }
}

impl MediumBlogEntry {
    /// The entry of a post with the given metadata, table of contents and
    /// preview, whose Markdown file was found at the given path.
    pub fn new(json: BlogJson, toc: Option<String>, preview: String, path: String) -> (r: Self)
        ensures
            r.json == json,
            r.toc == toc,
            r.preview == preview,
            r.path == path,
    {
        MediumBlogEntry { json, toc, preview, path }
    }

    /// The path of the Markdown file of the post, as it was found.
    pub fn source_path(&self) -> (r: String)
        ensures
            r@ == self@.path,
    {
        self.path.clone()
    }

    /// Renders the post again from its Markdown file: `path` is the file
    /// that was read, `content` what reading it gave.  The result is the
    /// entry with the HTML of the post, as a blog that is kept whole holds
    /// it.
    ///
    /// A file other than the one at `source_path` is refused with
    /// `FileNotFound`; a failure to read is handed on.
    pub fn render(&self, path: &str, content: Result<String, BlogError>) -> (r: Result<
        HighBlogEntry,
        BlogError,
    >)
        ensures
            match r {
                Ok(high) => {
                    &&& self@.render_failure(path@, text_or_failure(content)) is None
                    &&& content matches Ok(markdown)
                    &&& markdown_html(markdown@) matches Ok(html)
                    &&& high@ == self@.rendered(html)
                },
                Err(e) => self@.render_failure(path@, text_or_failure(content)) == Some(e@),
            },
    {
        if !same_text(path, self.path.as_str()) {
            return Err(BlogError::FileNotFound);
        }
        let markdown = match content {
            Ok(x) => x,
            Err(y) => {
                return Err(y);
            },
        };
        let html = match render_markdown(markdown.as_str()) {
            Ok(x) => x,
            Err(y) => {
                return Err(y);
            },
        };
        let high = HighBlogEntry::new_from_medium(self, html);
        Ok(high)
    }
}

/// Both kinds of blog hold the same of a post: the entry that is kept
/// without HTML, once rendered, is the entry that is kept with HTML.  Where
/// a function makes the tables of contents, this holds where it made the same
/// for both.
pub proof fn lemma_rendered_is_high_entry<F: Fn(&Node) -> String>(
    high: HighBlogEntry,
    medium: MediumBlogEntry,
    source: Source,
    toc_generation_func: Option<&F>,
    preview_chars: Option<usize>,
)
    requires
        crate::types::made_of(high, source, toc_generation_func, preview_chars),
        crate::types::made_of(medium, source, toc_generation_func, preview_chars),
        toc_generation_func is Some ==> high.contents() == medium.contents(),
    ensures
        medium@.rendered(html_of(source)) == high@,
        medium@.metadata.full_slug() == high@.metadata.full_slug(),
{
}

/// An entry that was made of a post can be rendered again from the file of
/// the post, wherever under the root it was found: what reading that file
/// gave when the blog was loaded is rendered to the HTML of the post.
pub proof fn lemma_render_again<F: Fn(&Node) -> String>(
    medium: MediumBlogEntry,
    source: Source,
    toc_generation_func: Option<&F>,
    preview_chars: Option<usize>,
)
    requires
        crate::types::made_of(medium, source, toc_generation_func, preview_chars),
        crate::types::creation_failure(source, toc_generation_func is Some) is None,
    ensures
        medium@.render_failure(source.path, source.content) is None,
        source.content matches Ok(markdown) && markdown_html(markdown) == Ok::<
            Seq<char>,
            Seq<char>,
        >(html_of(source)),
        medium@.rendered(html_of(source)).html == html_of(source),
{
}

} // verus!
