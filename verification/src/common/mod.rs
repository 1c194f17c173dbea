//! What the three strategies share: a post as it was read from disk,
//! rendering, tables of contents and the loading of all posts.

pub mod blog;
pub mod files;
pub mod index;
pub mod preview;
pub mod tags;
pub mod types;

pub use blog::{get_blog_entries, BlogIndex, Kept};
pub use files::{content_file_name, get_blog_paths, sidecar, sidecar_file_name, source_name,
    split_name, FoundFile};
pub use index::{last_with_slug, metadatas, newer, newest, newest_first};
pub use tags::{add_tags, has_tag};
pub use types::{BlogError, BlogJson};

use vstd::prelude::*;
use markdown::mdast::Node;
use crate::order::{lemma_next_item, view_seq, Pending};
use crate::types::{creation_failure, made_of, metadata_of, toc_callable, Blog};
use tags::{add_all_new, lemma_add_all_new};
use types::{views, Failure, Metadata};

verus! {

/// A post as it was read from disk: the path of its Markdown file, and what
/// reading its JSON file and its Markdown file gave.
pub struct RawPost {
    /// The path of the Markdown file, as it was found.  Posts may lie
    /// anywhere under the root of the blog.
    pub path: String,
    /// The metadata, or why there is none.  `BlogError::FileNotFound` stands
    /// for a JSON file that does not exist.
    pub metadata: Result<BlogJson, BlogError>,
    /// The Markdown text, or why there is none.
    pub content: Result<String, BlogError>,
}

/// The mathematical value of a `RawPost`.
pub struct Source {
    pub path: Seq<char>,
    pub metadata: Result<Metadata, Failure>,
    pub content: Result<Seq<char>, Failure>,
}

/// The text that reading a file gave, or why there is none.
pub open spec fn text_or_failure(content: Result<String, BlogError>) -> Result<Seq<char>, Failure> {
    match content {
        Ok(text) => Ok(text@),
        Err(e) => Err(e@),
    }
}

impl View for RawPost {
    type V = Source;

    open spec fn view(&self) -> Source {
        Source {
            path: self.path@,
            metadata: match self.metadata {
                Ok(json) => Ok(json@),
                Err(e) => Err(e@),
            },
            content: text_or_failure(self.content),
        }
    }
}

/// The HTML that `markdown` makes of a Markdown text, or the message with
/// which it refuses the text.  The two flags say whether raw HTML and whether
/// every link protocol is let through.
pub uninterp spec fn markdown_output(
    markdown: Seq<char>,
    allow_html: bool,
    allow_protocol: bool,
) -> Result<Seq<char>, Seq<char>>;

/// The HTML of a post: that of its Markdown text, with raw HTML and every
/// link protocol let through.  Posts are taken to be written by the owner
/// of the blog.
pub open spec fn markdown_html(markdown: Seq<char>) -> Result<Seq<char>, Seq<char>> {
    markdown_output(markdown, true, true)
}

/// The document tree that `markdown` makes of a Markdown text, or the
/// message with which it refuses the text.
pub uninterp spec fn markdown_tree(markdown: Seq<char>) -> Result<Node, Seq<char>>;

/// Trusted: the document tree of `markdown::mdast`, which is carried from
/// the parser to the function that makes a table of contents and never
/// looked into.
#[verifier::external_type_specification]
#[verifier::external_body]
pub struct ExNode(markdown::mdast::Node);

/// Trusted: `markdown::to_html_with_options`, called with the default
/// options but for `allow_dangerous_html` and `allow_dangerous_protocol`,
/// which are as given.  Its result is a function of the text and the two
/// flags alone; its error is handed on as the text of its `Display`.
#[verifier::external_body]
fn markdown_to_html(markdown: &str, allow_html: bool, allow_protocol: bool) -> (r: Result<
    String,
    String,
>)
    ensures
        match r {
            Ok(html) => markdown_output(markdown@, allow_html, allow_protocol) == Ok::<
                Seq<char>,
                Seq<char>,
            >(html@),
            Err(m) => markdown_output(markdown@, allow_html, allow_protocol) == Err::<
                Seq<char>,
                Seq<char>,
            >(m@),
        },
{
    let compile = markdown::CompileOptions {
        allow_dangerous_html: allow_html,
        allow_dangerous_protocol: allow_protocol,
        ..markdown::CompileOptions::default()
    };
    let options = markdown::Options { compile, ..markdown::Options::default() };
    markdown::to_html_with_options(markdown, &options).map_err(|m| m.to_string())
}

/// Trusted: `markdown::to_mdast` with the default options.  Its result is a
/// function of the text alone; its error is handed on as the text of its
/// `Display`.
#[verifier::external_body]
fn markdown_to_tree(markdown: &str) -> (r: Result<Node, String>)
    ensures
        match r {
            Ok(tree) => markdown_tree(markdown@) == Ok::<Node, Seq<char>>(tree),
            Err(m) => markdown_tree(markdown@) == Err::<Node, Seq<char>>(m@),
        },
{
    markdown::to_mdast(markdown, &markdown::ParseOptions::default()).map_err(|m| m.to_string())
}

/// Renders Markdown to HTML.  Raw HTML and every link protocol pass
/// through: posts are taken to be written by the owner of the blog.
pub fn render_markdown(markdown: &str) -> (r: Result<String, BlogError>)
    ensures
        match r {
            Ok(html) => markdown_html(markdown@) == Ok::<Seq<char>, Seq<char>>(html@),
            Err(e) => markdown_html(markdown@) matches Err(m) && e@ == Failure::Markdown(m),
        },
{
    match markdown_to_html(markdown, true, true) {
        Ok(html) => Ok(html),
        Err(m) => Err(BlogError::Markdown(m)),
    }
}

/// No function to make tables of contents, of the type of `f`.
pub fn no_function<F: Fn(&Node) -> String>(f: &F) -> (r: Option<&F>)
    ensures
        r is None,
{
    None
}

/// Makes the table of contents of a Markdown text: parses the text and
/// hands the tree to `toc_generation_func`.  Without a function there is no
/// table of contents, and the text is not parsed.
pub fn toc<F: Fn(&Node) -> String>(
    markdown: &String,
    toc_generation_func: Option<&F>,
) -> (r: Result<Option<String>, BlogError>)
    requires
        toc_callable(toc_generation_func),
    ensures
        match toc_generation_func {
            None => r matches Ok(None),
            Some(f) => match markdown_tree(markdown@) {
                Ok(tree) => r matches Ok(Some(made)) && f.ensures((&tree,), made),
                Err(m) => r matches Err(e) && e@ == Failure::Markdown(m),
            },
        },
{
    match toc_generation_func {
        None => Ok(None),
        Some(f) => match markdown_to_tree(markdown.as_str()) {
            Ok(tree) => Ok(Some(f(&tree))),
            Err(m) => Err(BlogError::Markdown(m)),
        },
    }
}

/// Whether a post is passed over when a blog is loaded: its JSON file does
/// not exist.
pub open spec fn is_skipped(source: Source) -> bool {
    source.metadata == Err::<Metadata, Failure>(Failure::FileNotFound)
}

/// The posts that are not passed over, in order.
pub open spec fn loaded(sources: Seq<Source>) -> Seq<Source>
    decreases sources.len(),
{
    if sources.len() == 0 {
        Seq::empty()
    } else if is_skipped(sources.last()) {
        loaded(sources.drop_last())
    } else {
        loaded(sources.drop_last()).push(sources.last())
    }
}

/// The failure of the first post of which no entry can be made, apart from
/// those that are passed over; `None` where there is no such post.
pub open spec fn first_failure(sources: Seq<Source>, with_toc: bool) -> Option<Failure>
    decreases sources.len(),
{
    if sources.len() == 0 {
        None
    } else {
        match first_failure(sources.drop_last(), with_toc) {
            Some(e) => Some(e),
            None => if is_skipped(sources.last()) {
                None
            } else {
                creation_failure(sources.last(), with_toc)
            },
        }
    }
}

/// The tags of the posts, each once, in the order in which they come
/// first.
pub open spec fn distinct_tags(sources: Seq<Source>) -> Seq<Seq<char>>
    decreases sources.len(),
{
    if sources.len() == 0 {
        Seq::empty()
    } else {
        add_all_new(
            distinct_tags(sources.drop_last()),
            metadata_of(sources.last()).tags,
        )
    }
}

/// Where no post fails, an entry can be made of every loaded post.
pub proof fn lemma_no_failure(sources: Seq<Source>, with_toc: bool)
    requires
        first_failure(sources, with_toc) is None,
    ensures
        forall|i: int|
            0 <= i < loaded(sources).len() ==> creation_failure(
                #[trigger] loaded(sources)[i],
                with_toc,
            ) is None,
    decreases sources.len(),
{
    if sources.len() > 0 {
        lemma_no_failure(sources.drop_last(), with_toc);
        let front = loaded(sources.drop_last());
        assert forall|i: int| 0 <= i < loaded(sources).len() implies creation_failure(
            #[trigger] loaded(sources)[i],
            with_toc,
        ) is None by {
            if i < front.len() {
                assert(loaded(sources)[i] == front[i]);
            }
        }
    }
}

/// A failure among the first posts is the failure of all.
pub proof fn lemma_first_failure_prefix(sources: Seq<Source>, with_toc: bool, k: int)
    requires
        0 <= k <= sources.len(),
        first_failure(sources.take(k), with_toc) is Some,
    ensures
        first_failure(sources, with_toc) == first_failure(sources.take(k), with_toc),
    decreases sources.len() - k,
{
    if k == sources.len() {
        assert(sources.take(k) =~= sources);
    } else {
        assert(sources.take(k + 1).drop_last() =~= sources.take(k));
        lemma_first_failure_prefix(sources, with_toc, k + 1);
    }
}

/// Loads a blog: makes the entry of each post, in the order given, and
/// collects the tags of the posts, each once, in the order in which they
/// come first.
///
/// A post whose JSON file does not exist is passed over.  Any other failure
/// of a post fails the whole blog, with the failure of the first such post.
pub fn parse_blogs<U: Blog, F: Fn(&Node) -> String>(
    posts: Vec<RawPost>,
    toc_generation_func: Option<&F>,
    preview_chars: Option<usize>,
) -> (r: Result<(Vec<U>, Vec<String>), BlogError>)
    requires
        toc_callable(toc_generation_func),
    ensures
        match r {
            Ok((entries, tags)) => {
                &&& first_failure(view_seq(posts@), toc_generation_func is Some) is None
                &&& entries@.len() == loaded(view_seq(posts@)).len()
                &&& forall|i: int|
                    0 <= i < entries@.len() ==> made_of(
                        #[trigger] entries@[i],
                        loaded(view_seq(posts@))[i],
                        toc_generation_func,
                        preview_chars,
                    )
                &&& views(tags@) == distinct_tags(loaded(view_seq(posts@)))
            },
            Err(e) => first_failure(view_seq(posts@), toc_generation_func is Some) == Some(e@),
        },
{
    let ghost sources = view_seq(posts@);
    let ghost with_toc = toc_generation_func is Some;
    let mut rest = Pending::new(posts);
    let mut entries: Vec<U> = Vec::new();
    let mut tags: Vec<String> = Vec::new();
    let ghost mut taken: int = 0;
    proof {
        assert(sources.take(0) =~= Seq::<Source>::empty());
        assert(sources.skip(0) =~= sources);
        assert(views(tags@) =~= Seq::<Seq<char>>::empty());
    }
    while !rest.is_empty()
        invariant
            0 <= taken <= sources.len(),
            sources == view_seq(posts@),
            with_toc == (toc_generation_func is Some),
            toc_callable(toc_generation_func),
            view_seq(rest@) == sources.skip(taken),
            first_failure(sources.take(taken), with_toc) is None,
            entries@.len() == loaded(sources.take(taken)).len(),
            forall|i: int|
                0 <= i < entries@.len() ==> made_of(
                    #[trigger] entries@[i],
                    loaded(sources.take(taken))[i],
                    toc_generation_func,
                    preview_chars,
                ),
            views(tags@) == distinct_tags(loaded(sources.take(taken))),
        decreases rest@.len(),
    {
        let ghost before = rest@;
        let post = rest.next();
        proof {
            lemma_next_item(before, rest@, post, sources, taken);
        }
        let skipped: bool = match &post.metadata {
            Err(BlogError::FileNotFound) => true,
            _ => false,
        };
        assert(skipped == is_skipped(post@));
        if !skipped {
            let ghost source = post@;
            let ghost done = loaded(sources.take(taken));
            let ghost old_entries = entries@;
            match U::create(post, toc_generation_func, preview_chars) {
                Ok(entry) => {
                    let new_tags = entry.get_tags();
                    add_tags(&mut tags, &new_tags);
                    entries.push(entry);
                    proof {
                        assert(loaded(sources.take(taken + 1)) == done.push(source));
                        assert(done.push(source).drop_last() =~= done);
                        assert forall|i: int| 0 <= i < entries@.len() implies made_of(
                            #[trigger] entries@[i],
                            loaded(sources.take(taken + 1))[i],
                            toc_generation_func,
                            preview_chars,
                        ) by {
                            if i < old_entries.len() {
                                assert(entries@[i] == old_entries[i]);
                            }
                        }
                    }
                },
                Err(e) => {
                    proof {
                        assert(first_failure(sources.take(taken + 1), with_toc) == Some(e@));
                        lemma_first_failure_prefix(sources, with_toc, taken + 1);
                    }
                    return Err(e);
                },
            }
        }
        proof {
            taken = taken + 1;
        }
    }
    proof {
        assert(sources.take(taken) =~= sources);
    }
    Ok((entries, tags))
}

/// The list of the tags of a blog holds no tag twice, and holds exactly the
/// tags of its posts.
pub proof fn lemma_distinct_tags(sources: Seq<Source>)
    ensures
        distinct_tags(sources).no_duplicates(),
        forall|tag: Seq<char>|
            distinct_tags(sources).contains(tag) <==> exists|i: int|
                0 <= i < sources.len() && (#[trigger] metadata_of(
                    sources[i],
                )).tags.contains(tag),
    decreases sources.len(),
{
    if sources.len() == 0 {
        assert forall|tag: Seq<char>| !distinct_tags(sources).contains(tag) by {}
    } else {
        let front = sources.drop_last();
        let last_tags = metadata_of(sources.last()).tags;
        lemma_distinct_tags(front);
        lemma_add_all_new(distinct_tags(front), last_tags);
        assert forall|tag: Seq<char>|
            distinct_tags(sources).contains(tag) <==> exists|i: int|
                0 <= i < sources.len() && (#[trigger] metadata_of(
                    sources[i],
                )).tags.contains(tag) by {
            if distinct_tags(front).contains(tag) {
                let i = choose|i: int|
                    0 <= i < front.len() && (#[trigger] metadata_of(
                        front[i],
                    )).tags.contains(tag);
                assert(front[i] == sources[i]);
            }
            if last_tags.contains(tag) {
                assert(metadata_of(sources[sources.len() - 1]).tags.contains(tag));
            }
            if exists|i: int|
                0 <= i < sources.len() && (#[trigger] metadata_of(
                    sources[i],
                )).tags.contains(tag) {
                let i = choose|i: int|
                    0 <= i < sources.len() && (#[trigger] metadata_of(
                        sources[i],
                    )).tags.contains(tag);
                if i < front.len() {
                    assert(front[i] == sources[i]);
                    assert(metadata_of(front[i]).tags.contains(tag));
                }
            }
        }
    }
}

/// A post whose JSON file does not exist changes nothing: the posts that
/// are loaded, the tags and the failure of the blog are those of the blog
/// without it.
pub proof fn lemma_stray_post(
    before: Seq<Source>,
    stray: Source,
    after: Seq<Source>,
    with_toc: bool,
)
    requires
        is_skipped(stray),
    ensures
        loaded(before + seq![stray] + after) == loaded(before + after),
        first_failure(before + seq![stray] + after, with_toc) == first_failure(
            before + after,
            with_toc,
        ),
    decreases after.len(),
{
    let with = before + seq![stray] + after;
    let without = before + after;
    if after.len() == 0 {
        assert(with.drop_last() =~= before);
        assert(without =~= before);
        assert(with.last() == stray);
    } else {
        lemma_stray_post(before, stray, after.drop_last(), with_toc);
        assert(with.drop_last() =~= before + seq![stray] + after.drop_last());
        assert(without.drop_last() =~= before + after.drop_last());
        assert(with.last() == after.last() && without.last() == after.last());
    }
}

} // verus!
