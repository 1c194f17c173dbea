//! The entries of a blog that is kept whole in memory.

use vstd::prelude::*;
use markdown::mdast::Node;
use crate::common::{render_markdown, toc, RawPost, Source};
use crate::common::preview::get_preview;
use crate::common::types::{clone_opt_text, clone_opt_texts, clone_texts, opt_view, BlogError,
    BlogJson, Metadata};
use crate::common::blog::{BlogIndex, Kept};
use crate::date::Date;
use crate::medium::types::MediumBlogEntry;
use crate::order::Ranked;
use crate::types::{html_of, Blog};

verus! {

/// The whole blog in memory, with the HTML of every post.
pub type HighBlog = BlogIndex<HighBlogEntry>;

/// One post, with its rendered HTML.
#[derive(Debug)]
pub struct HighBlogEntry {
    /// The metadata of the post.
    pub json: BlogJson,
    /// The HTML of the post, to be put into a template.
    pub html: String,
    /// The table of contents.
    pub toc: Option<String>,
    /// The preview of the post, for index pages.
    pub preview: String,
}

/// The mathematical value of a `HighBlogEntry`.
pub struct HighEntry {
    pub metadata: Metadata,
    pub html: Seq<char>,
    pub toc: Option<Seq<char>>,
    pub preview: Seq<char>,
}

impl View for HighBlogEntry {
    type V = HighEntry;

    open spec fn view(&self) -> HighEntry {
        HighEntry {
            metadata: self.json@,
            html: self.html@,
            toc: opt_view(self.toc),
            preview: self.preview@,
        }
    }
}

impl Clone for HighBlogEntry {
    fn clone(&self) -> (r: Self)
        ensures
            r@ == self@,
    {
        HighBlogEntry {
            json: self.json.clone(),
            html: self.html.clone(),
            toc: clone_opt_text(&self.toc),
            preview: self.preview.clone(),
        }
    }
}

impl Ranked for HighBlogEntry {
    /// A post stands before those of an earlier day.
    open spec fn before(&self, other: &Self) -> bool {
        other.json.date.earlier(self.json.date)
    }

    fn stands_before(&self, other: &Self) -> (b: bool) {
        other.json.date.is_before(&self.json.date)
    }
}

impl Kept for HighBlogEntry {
    proof fn lemma_copy(entry: Self, copy: Self) {
    }

    proof fn lemma_rank(a: Self, b: Self) {
    }
}

impl Blog for HighBlogEntry {
    open spec fn metadata(&self) -> Metadata {
        self.json@
    }

    open spec fn preview_text(&self) -> Seq<char> {
        self.preview@
    }

    open spec fn contents(&self) -> Option<Seq<char>> {
        opt_view(self.toc)
    }

    open spec fn keeps(&self, source: Source) -> bool {
        self.html@ == html_of(source)
    }

    fn create<F: Fn(&Node) -> String>(
        post: RawPost,
        toc_generation_func: Option<&F>,
        preview_chars: Option<usize>,
    ) -> (r: Result<Self, BlogError>) {
        let json = match post.metadata {
            Ok(x) => x,
            Err(y) => {
                return Err(y);
            },
        };
        let markdown = match post.content {
            Ok(x) => x,
            Err(y) => {
                return Err(y);
            },
        };
        let html = match render_markdown(markdown.as_str()) {
            Ok(x) => x,
            Err(y) => {
                return Err(y);
            },
        };
        let preview = get_preview(&html, preview_chars);
        let toc = match toc(&markdown, toc_generation_func) {
            Ok(x) => x,
            Err(y) => {
                return Err(y);
            },
        };
        Ok(HighBlogEntry::new(json, html, toc, preview))
    }

    fn get_title(&self) -> (r: String) {
        self.json.title.clone()
    }

    fn get_date_listed(&self) -> (r: Date) {
        self.json.date
    }

    fn get_description(&self) -> (r: Option<String>) {
        clone_opt_text(&self.json.desc)
    }

    fn get_full_slug(&self) -> (r: String) {
        self.json.full_slug()
    }

    fn get_part_slug(&self) -> (r: String) {
        self.json.slug.clone()
    }

    fn get_tags(&self) -> (r: Vec<String>) {
        clone_texts(&self.json.tags)
    }

    fn get_table_of_contents(&self) -> (r: Option<String>) {
        clone_opt_text(&self.toc)
    }

    fn get_keywords(&self) -> (r: Option<Vec<String>>) {
        clone_opt_texts(&self.json.keywords)
    }

    fn get_canonicle_link(&self) -> (r: Option<String>) {
        clone_opt_text(&self.json.canonical_link)
    }

    fn get_author_name(&self) -> (r: Option<String>) {
        clone_opt_text(&self.json.author_name)
    }

    fn get_author_webpage(&self) -> (r: Option<String>) {
        clone_opt_text(&self.json.author_webpage)
    }

    fn get_preview(&self) -> (r: String) {
        self.preview.clone()
    }

    fn get_last_modified(&self) -> (r: Option<Date>) {
        self.json.last_modified
    }

    fn get_priority(&self) -> (r: Option<String>) {
        clone_opt_text(&self.json.priority)
    }
}

impl HighBlogEntry {
    /// The entry of a post with the given metadata, HTML, table of contents
    /// and preview.
    pub fn new(json: BlogJson, html: String, toc: Option<String>, preview: String) -> (r: Self)
        ensures
            r.json == json,
            r.html == html,
            r.toc == toc,
            r.preview == preview,
    {
        HighBlogEntry { json, html, toc, preview }
    }

    /// The entry of a post of which all but the HTML is kept in memory, with
    /// its HTML.
    pub fn new_from_medium(medium: &MediumBlogEntry, html: String) -> (r: Self)
        ensures
            r@ == medium@.rendered(html@),
    {
        HighBlogEntry {
            json: medium.json.clone(),
            html,
            toc: clone_opt_text(&medium.toc),
            preview: medium.preview.clone(),
        }
    }

    /// The HTML of the post.
    pub fn get_html(&self) -> (r: String)
        ensures
            r@ == self@.html,
    {
        self.html.clone()
    }
}

} // verus!
