//! The entries of a blog of which nothing is kept in memory.

use vstd::prelude::*;
use markdown::mdast::Node;
use crate::common::{render_markdown, toc, RawPost, Source};
use crate::common::preview::{get_preview, preview_budget, preview_of};
use crate::common::types::{clone_opt_text, clone_opt_texts, clone_texts, opt_view, BlogError,
    BlogJson, Metadata};
use crate::date::Date;
use crate::types::{html_of, Blog};

verus! {

/// One post, with its rendered HTML.
#[derive(Debug)]
pub struct LowBlogEntry {
    /// The metadata of the post.
    pub json: BlogJson,
    /// The HTML of the post, to be put into a template.
    pub html: String,
    /// The table of contents.
    pub toc: Option<String>,
    /// The number of characters of the preview; 320 where there is none.
    pub preview_chars: Option<usize>,
}

/// The mathematical value of a `LowBlogEntry`.
pub struct LowEntry {
    pub metadata: Metadata,
    pub html: Seq<char>,
    pub toc: Option<Seq<char>>,
    pub preview_chars: Option<usize>,
}

impl View for LowBlogEntry {
    type V = LowEntry;

    open spec fn view(&self) -> LowEntry {
        LowEntry {
            metadata: self.json@,
            html: self.html@,
            toc: opt_view(self.toc),
            preview_chars: self.preview_chars,
        }
    }
}

impl Clone for LowBlogEntry {
    fn clone(&self) -> (r: Self)
        ensures
            r@ == self@,
    {
        LowBlogEntry {
            json: self.json.clone(),
            html: self.html.clone(),
            toc: clone_opt_text(&self.toc),
            preview_chars: self.preview_chars,
        }
    }
}

impl Blog for LowBlogEntry {
    open spec fn metadata(&self) -> Metadata {
        self.json@
    }

    open spec fn preview_text(&self) -> Seq<char> {
        preview_of(self.html@, preview_budget(self.preview_chars))
    }

    open spec fn contents(&self) -> Option<Seq<char>> {
        opt_view(self.toc)
    }

    open spec fn keeps(&self, source: Source) -> bool {
        self.html@ == html_of(source)
    }

    fn create<F: Fn(&Node) -> String>(
        post: RawPost,
        toc_generation_func: Option<&F>,
        preview_chars: Option<usize>,
    ) -> (r: Result<Self, BlogError>) {
        let json = match post.metadata {
            Ok(x) => x,
            Err(y) => {
                return Err(y);
            },
        };
        let markdown = match post.content {
            Ok(x) => x,
            Err(y) => {
                return Err(y);
            },
        };
        let html = match render_markdown(markdown.as_str()) {
            Ok(x) => x,
            Err(y) => {
                return Err(y);
            },
        };
        let toc = match toc(&markdown, toc_generation_func) {
            Ok(x) => x,
            Err(y) => {
                return Err(y);
            },
        };
        Ok(LowBlogEntry { json, html, toc, preview_chars })
    }

    fn get_title(&self) -> (r: String) {
        self.json.title.clone()
    }

    fn get_date_listed(&self) -> (r: Date) {
        self.json.date
    }

    fn get_description(&self) -> (r: Option<String>) {
        clone_opt_text(&self.json.desc)
    }

    fn get_full_slug(&self) -> (r: String) {
        self.json.full_slug()
    }

    fn get_part_slug(&self) -> (r: String) {
        self.json.slug.clone()
    }

    fn get_tags(&self) -> (r: Vec<String>) {
        clone_texts(&self.json.tags)
    }

    fn get_table_of_contents(&self) -> (r: Option<String>) {
        clone_opt_text(&self.toc)
    }

    fn get_keywords(&self) -> (r: Option<Vec<String>>) {
        clone_opt_texts(&self.json.keywords)
    }

    fn get_canonicle_link(&self) -> (r: Option<String>) {
        clone_opt_text(&self.json.canonical_link)
    }

    fn get_author_name(&self) -> (r: Option<String>) {
        clone_opt_text(&self.json.author_name)
    }

    fn get_author_webpage(&self) -> (r: Option<String>) {
        clone_opt_text(&self.json.author_webpage)
    }

    fn get_preview(&self) -> (r: String) {
        get_preview(&self.html, self.preview_chars)
    }

    fn get_last_modified(&self) -> (r: Option<Date>) {
        self.json.last_modified
    }

    fn get_priority(&self) -> (r: Option<String>) {
        clone_opt_text(&self.json.priority)
    }
}

impl LowBlogEntry {
    /// The entry of a post with the given metadata, HTML and table of
    /// contents.  Its preview has 320 characters.
    pub fn new(json: BlogJson, html: String, toc: Option<String>) -> (r: Self)
        ensures
            r.json == json,
            r.html == html,
            r.toc == toc,
            r.preview_chars == None::<usize>,
    {
        LowBlogEntry { json, html, toc, preview_chars: None }
    }

    /// The HTML of the post.
    pub fn get_html(&self) -> (r: String)
        ensures
            r@ == self@.html,
    {
        self.html.clone()
    }
}

/// One post as an index page shows it: its metadata and its preview.
#[derive(Debug)]
pub struct PreviewBlogEntry {
    /// The metadata of the post.
    pub json: BlogJson,
    /// The preview of the post.
    pub preview: String,
}

/// The mathematical value of a `PreviewBlogEntry`.
pub struct PreviewEntry {
    pub metadata: Metadata,
    pub preview: Seq<char>,
}

impl View for PreviewBlogEntry {
    type V = PreviewEntry;

    open spec fn view(&self) -> PreviewEntry {
        PreviewEntry { metadata: self.json@, preview: self.preview@ }
    }
}

impl PreviewBlogEntry {
    /// The entry of a post with the given metadata and preview.
    pub fn new(json: BlogJson, preview: String) -> (r: Self)
        ensures
            r.json == json,
            r.preview == preview,
    {
        PreviewBlogEntry { json, preview }
    }
}

} // verus!
