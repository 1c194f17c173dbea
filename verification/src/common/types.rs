//! The metadata of a post, a post as it was read, and the errors of the
//! crate, each with the mathematical value that the contracts speak of.

use vstd::prelude::*;
use crate::date::Date;
use crate::text::{concat2, concat3};

verus! {

/// The texts of a list of strings.
pub open spec fn views(v: Seq<String>) -> Seq<Seq<char>> {
    Seq::new(v.len(), |i: int| v[i]@)
}

/// The text of an optional string.
pub open spec fn opt_view(o: Option<String>) -> Option<Seq<char>> {
    match o {
        Some(s) => Some(s@),
        None => None,
    }
}

/// The texts of an optional list of strings.
pub open spec fn opt_views(o: Option<Vec<String>>) -> Option<Seq<Seq<char>>> {
    match o {
        Some(v) => Some(views(v@)),
        None => None,
    }
}

/// A copy of an optional string.
pub fn clone_opt_text(o: &Option<String>) -> (r: Option<String>)
    ensures
        opt_view(r) == opt_view(*o),
{
    match o {
        Some(s) => Some(s.clone()),
        None => None,
    }
}

/// A copy of a list of strings.
pub fn clone_texts(v: &Vec<String>) -> (r: Vec<String>)
    ensures
        views(r@) == views(v@),
{
    let mut r: Vec<String> = Vec::new();
    let mut i: usize = 0;
    while i < v.len()
        invariant
            i <= v.len(),
            r@.len() == i,
            forall|j: int| 0 <= j < i ==> r@[j]@ == v@[j]@,
        decreases v.len() - i,
    {
        r.push(v[i].clone());
        i += 1;
    }
    assert(views(r@) =~= views(v@));
    r
}

/// A copy of an optional list of strings.
pub fn clone_opt_texts(o: &Option<Vec<String>>) -> (r: Option<Vec<String>>)
    ensures
        opt_views(r) == opt_views(*o),
{
    match o {
        Some(v) => Some(clone_texts(v)),
        None => None,
    }
}

/// What can go wrong while a blog is loaded or a sitemap is made.
#[derive(Debug)]
pub enum BlogError {
    /// The root of the blog does not exist or is no directory.
    NotADirectory,
    /// A file could not be read; with the reason.
    File(String),
    /// A file, its parent directory or its name is missing.
    FileNotFound,
    /// A file name without a stem; with the name.
    ImproperFileName(String),
    /// Metadata that is no valid JSON or lacks a required field; with the
    /// reason.
    MetadataInvalid(String),
    /// Markdown that the renderer rejected; with its message.
    Markdown(String),
    /// A date that is not written as `yyyy-mm-dd`; with the text found.
    ImproperDate(String),
    /// A sitemap priority that is no number from 0.0 to 1.0; with the text
    /// found.
    PriorityOutOfRange(String),
}

/// The mathematical value of a `BlogError`.
pub enum Failure {
    NotADirectory,
    File(Seq<char>),
    FileNotFound,
    ImproperFileName(Seq<char>),
    MetadataInvalid(Seq<char>),
    Markdown(Seq<char>),
    ImproperDate(Seq<char>),
    PriorityOutOfRange(Seq<char>),
}

impl View for BlogError {
    type V = Failure;

    open spec fn view(&self) -> Failure {
        match self {
            BlogError::NotADirectory => Failure::NotADirectory,
            BlogError::File(s) => Failure::File(s@),
            BlogError::FileNotFound => Failure::FileNotFound,
            BlogError::ImproperFileName(s) => Failure::ImproperFileName(s@),
            BlogError::MetadataInvalid(s) => Failure::MetadataInvalid(s@),
            BlogError::Markdown(s) => Failure::Markdown(s@),
            BlogError::ImproperDate(s) => Failure::ImproperDate(s@),
            BlogError::PriorityOutOfRange(s) => Failure::PriorityOutOfRange(s@),
        }
    }
}

impl Failure {
    /// The sentence that describes the failure.
    pub open spec fn message(self) -> Seq<char> {
        match self {
            Failure::NotADirectory => "The blog root is not a directory"@,
            Failure::File(a) => "File read error caused by: "@ + a,
            Failure::FileNotFound => "File not found"@,
            Failure::ImproperFileName(a) => "Found file name `"@ + a
                + "` from which no stem can be taken"@,
            Failure::MetadataInvalid(a) => "Metadata error caused by: "@ + a,
            Failure::Markdown(a) => "Markdown rendering error caused by: "@ + a,
            Failure::ImproperDate(a) => "Found date `"@ + a
                + "` which appears to be improper - dates should be in the yyyy-mm-dd format"@,
            Failure::PriorityOutOfRange(a) => "Priority must be between 0.0 and 1.0, got `"@ + a
                + "`"@,
        }
    }
}

impl BlogError {
    /// The sentence that describes the error.
    pub fn message(&self) -> (s: String)
        ensures
            s@ == self@.message(),
    {
        match self {
            BlogError::NotADirectory => "The blog root is not a directory".to_string(),
            BlogError::File(a) => concat2("File read error caused by: ", a.as_str()),
            BlogError::FileNotFound => "File not found".to_string(),
            BlogError::ImproperFileName(a) => concat3(
                "Found file name `",
                a.as_str(),
                "` from which no stem can be taken",
            ),
            BlogError::MetadataInvalid(a) => concat2("Metadata error caused by: ", a.as_str()),
            BlogError::Markdown(a) => concat2("Markdown rendering error caused by: ", a.as_str()),
            BlogError::ImproperDate(a) => concat3(
                "Found date `",
                a.as_str(),
                "` which appears to be improper - dates should be in the yyyy-mm-dd format",
            ),
            BlogError::PriorityOutOfRange(a) => concat3(
                "Priority must be between 0.0 and 1.0, got `",
                a.as_str(),
                "`",
            ),
        }
    }
}

impl Clone for BlogError {
    fn clone(&self) -> (r: Self)
        ensures
            r@ == self@,
    {
        match self {
            BlogError::NotADirectory => BlogError::NotADirectory,
            BlogError::File(s) => BlogError::File(s.clone()),
            BlogError::FileNotFound => BlogError::FileNotFound,
            BlogError::ImproperFileName(s) => BlogError::ImproperFileName(s.clone()),
            BlogError::MetadataInvalid(s) => BlogError::MetadataInvalid(s.clone()),
            BlogError::Markdown(s) => BlogError::Markdown(s.clone()),
            BlogError::ImproperDate(s) => BlogError::ImproperDate(s.clone()),
            BlogError::PriorityOutOfRange(s) => BlogError::PriorityOutOfRange(s.clone()),
        }
    }
}

/// The metadata of a post, as its JSON file gives it.
#[derive(Debug)]
pub struct BlogJson {
    /// The title.
    pub title: String,
    /// The day of publication.
    pub date: Date,
    /// The description.
    pub desc: Option<String>,
    /// The partial slug: the last part of the URL, without the date.
    pub slug: String,
    /// The tags, in the order written.
    pub tags: Vec<String>,
    /// Keywords.
    pub keywords: Option<Vec<String>>,
    /// The canonical link.
    pub canonical_link: Option<String>,
    /// The author's name.
    pub author_name: Option<String>,
    /// The author's web page.
    pub author_webpage: Option<String>,
    /// The day of the last change; the day of publication stands in for it.
    pub last_modified: Option<Date>,
    /// The sitemap priority, as decimal text; a default stands in for it.
    pub priority: Option<String>,
}

/// The mathematical value of a `BlogJson`.
pub struct Metadata {
    pub title: Seq<char>,
    pub date: Date,
    pub desc: Option<Seq<char>>,
    pub slug: Seq<char>,
    pub tags: Seq<Seq<char>>,
    pub keywords: Option<Seq<Seq<char>>>,
    pub canonical_link: Option<Seq<char>>,
    pub author_name: Option<Seq<char>>,
    pub author_webpage: Option<Seq<char>>,
    pub last_modified: Option<Date>,
    pub priority: Option<Seq<char>>,
}

impl Metadata {
    /// The full slug of the post: its date as `YYYY-MM-DD`, a slash and its
    /// partial slug.
    pub open spec fn full_slug(self) -> Seq<char> {
        self.date.iso() + seq!['/'] + self.slug
    }

    /// The day that a sitemap gives for the last change.
    pub open spec fn changed(self) -> Date {
        match self.last_modified {
            Some(d) => d,
            None => self.date,
        }
    }
}

impl View for BlogJson {
    type V = Metadata;

    open spec fn view(&self) -> Metadata {
        Metadata {
            title: self.title@,
            date: self.date,
            desc: opt_view(self.desc),
            slug: self.slug@,
            tags: views(self.tags@),
            keywords: opt_views(self.keywords),
            canonical_link: opt_view(self.canonical_link),
            author_name: opt_view(self.author_name),
            author_webpage: opt_view(self.author_webpage),
            last_modified: self.last_modified,
            priority: opt_view(self.priority),
        }
    }
}

impl Clone for BlogJson {
    fn clone(&self) -> (r: Self)
        ensures
            r@ == self@,
    {
        BlogJson {
            title: self.title.clone(),
            date: self.date,
            desc: clone_opt_text(&self.desc),
            slug: self.slug.clone(),
            tags: clone_texts(&self.tags),
            keywords: clone_opt_texts(&self.keywords),
            canonical_link: clone_opt_text(&self.canonical_link),
            author_name: clone_opt_text(&self.author_name),
            author_webpage: clone_opt_text(&self.author_webpage),
            last_modified: self.last_modified,
            priority: clone_opt_text(&self.priority),
        }
    }
}

impl BlogJson {
    /// The full slug: the date as `YYYY-MM-DD`, a slash and the partial slug.
    pub fn full_slug(&self) -> (s: String)
        ensures
            s@ == self@.full_slug(),
    {
        let date = self.date.to_iso();
        proof {
            reveal_strlit("/");
            assert("/"@ =~= seq!['/']);
        }
        concat3(date.as_str(), "/", self.slug.as_str())
    }
}

} // verus!
