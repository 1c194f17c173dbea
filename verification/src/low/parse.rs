//! What a blog of which nothing is kept in memory can be asked: its tags,
//! the previews of its newest posts or of the posts with a tag, and one
//! post.

use vstd::prelude::*;
use markdown::mdast::Node;
use crate::common::{add_tags, distinct_tags, first_failure, has_tag, is_skipped, last_with_slug,
    lemma_first_failure_prefix, loaded, newer, newest_first, render_markdown, RawPost, Source};
use crate::common::preview::{get_preview, preview_budget, preview_of};
use crate::common::types::{views, BlogError, Failure, Metadata};
use crate::date::Date;
use crate::order::{lemma_next_item, lemma_sorted_keeps, lemma_sorted_len, lemma_sorted_values,
    ranked_order, sort_ranked, sorted_by, view_seq, Pending, Ranked};
use crate::text::{from_chars, same_text, to_chars};
use crate::types::{creation_failure, html_of, made_of, metadata_of, toc_callable, Blog};
use super::types::{LowBlogEntry, PreviewBlogEntry, PreviewEntry};

verus! {

/// Whether the Markdown file of a post exists.
pub open spec fn has_content_file(source: Source) -> bool {
    source.content != Err::<Seq<char>, Failure>(Failure::FileNotFound)
}

/// The posts of which both files exist, in order.
pub open spec fn paired(sources: Seq<Source>) -> Seq<Source>
    decreases sources.len(),
{
    if sources.len() == 0 {
        Seq::empty()
    } else if has_content_file(sources.last()) && !is_skipped(sources.last()) {
        paired(sources.drop_last()).push(sources.last())
    } else {
        paired(sources.drop_last())
    }
}

/// The failure of the first post whose metadata failed.
pub open spec fn first_metadata_failure(sources: Seq<Source>) -> Option<Failure>
    decreases sources.len(),
{
    if sources.len() == 0 {
        None
    } else {
        match first_metadata_failure(sources.drop_last()) {
            Some(e) => Some(e),
            None => match sources.last().metadata {
                Err(e) => Some(e),
                Ok(_) => None,
            },
        }
    }
}

/// A failure of the metadata among the first posts is the failure of all.
pub proof fn lemma_first_metadata_failure_prefix(sources: Seq<Source>, k: int)
    requires
        0 <= k <= sources.len(),
        first_metadata_failure(sources.take(k)) is Some,
    ensures
        first_metadata_failure(sources) == first_metadata_failure(sources.take(k)),
    decreases sources.len() - k,
{
    if k == sources.len() {
        assert(sources.take(k) =~= sources);
    } else {
        assert(sources.take(k + 1).drop_last() =~= sources.take(k));
        lemma_first_metadata_failure_prefix(sources, k + 1);
    }
}

/// The tags of the blog, each once, in the order in which they come first.
///
/// A post whose Markdown file or JSON file does not exist is passed over.
/// The first post whose metadata failed otherwise fails the list.
///
/// With many posts this is slow, and a list of words is small: it may be
/// worth keeping, even where nothing else is kept.
pub fn get_blog_tag_list(posts: Vec<RawPost>) -> (r: Result<Vec<String>, BlogError>)
    ensures
        match r {
            Ok(tags) => {
                &&& first_metadata_failure(paired(view_seq(posts@))) is None
                &&& views(tags@) == distinct_tags(paired(view_seq(posts@)))
            },
            Err(e) => first_metadata_failure(paired(view_seq(posts@))) == Some(e@),
        },
{
    let ghost sources = view_seq(posts@);
    let mut rest = Pending::new(posts);
    let mut tags: Vec<String> = Vec::new();
    let ghost mut taken: int = 0;
    proof {
        assert(sources.take(0) =~= Seq::<Source>::empty());
        assert(sources.skip(0) =~= sources);
        assert(views(tags@) =~= Seq::<Seq<char>>::empty());
    }
    while !rest.is_empty()
        invariant
            0 <= taken <= sources.len(),
            sources == view_seq(posts@),
            view_seq(rest@) == sources.skip(taken),
            first_metadata_failure(paired(sources.take(taken))) is None,
            views(tags@) == distinct_tags(paired(sources.take(taken))),
        decreases rest@.len(),
    {
        let ghost before = rest@;
        let post = rest.next();
        proof {
            lemma_next_item(before, rest@, post, sources, taken);
        }
        let ghost done = paired(sources.take(taken));
        let missing: bool = match &post.content {
            Err(BlogError::FileNotFound) => true,
            _ => false,
        };
        assert(missing == !has_content_file(post@));
        if !missing {
            match post.metadata {
                Err(BlogError::FileNotFound) => {},
                Err(e) => {
                    proof {
                        assert(!is_skipped(post@));
                        assert(paired(sources.take(taken + 1)) == done.push(post@));
                        assert(done.push(post@).drop_last() =~= done);
                        lemma_paired_prefix(sources, taken + 1);
                        lemma_first_metadata_failure_prefix(
                            paired(sources),
                            paired(sources.take(taken + 1)).len() as int,
                        );
                    }
                    return Err(e);
                },
                Ok(json) => {
                    add_tags(&mut tags, &json.tags);
                    proof {
                        assert(paired(sources.take(taken + 1)) == done.push(post@));
                        assert(done.push(post@).drop_last() =~= done);
                    }
                },
            }
        }
        proof {
            taken = taken + 1;
        }
    }
    proof {
        assert(sources.take(taken) =~= sources);
    }
    Ok(tags)
}

/// The paired posts among the first posts start the paired posts of all.
pub proof fn lemma_paired_prefix(sources: Seq<Source>, k: int)
    requires
        0 <= k <= sources.len(),
    ensures
        paired(sources.take(k)).len() <= paired(sources).len(),
        paired(sources).take(paired(sources.take(k)).len() as int) == paired(sources.take(k)),
    decreases sources.len() - k,
{
    if k == sources.len() {
        assert(sources.take(k) =~= sources);
        assert(paired(sources).take(paired(sources).len() as int) =~= paired(sources));
    } else {
        lemma_paired_prefix(sources, k + 1);
        assert(sources.take(k + 1).drop_last() =~= sources.take(k));
        let shorter = paired(sources.take(k));
        let longer = paired(sources.take(k + 1));
        assert(longer.take(shorter.len() as int) =~= shorter);
        assert(paired(sources).take(longer.len() as int).take(shorter.len() as int) =~= paired(
            sources,
        ).take(shorter.len() as int));
    }
}

/// The preview entry of a post.
pub open spec fn preview_entry(source: Source, budget: nat) -> PreviewEntry {
    PreviewEntry { metadata: metadata_of(source), preview: preview_of(html_of(source), budget) }
}

/// The preview entries of posts, in order.
pub open spec fn preview_entries(sources: Seq<Source>, budget: nat) -> Seq<PreviewEntry> {
    Seq::new(sources.len(), |i: int| preview_entry(sources[i], budget))
}

/// Makes the preview entry of a post: renders its Markdown and takes the
/// preview from the HTML.
pub fn preview_post(post: RawPost, preview_length: Option<usize>) -> (r: Result<
    PreviewBlogEntry,
    BlogError,
>)
    ensures
        match r {
            Ok(entry) => {
                &&& creation_failure(post@, false) is None
                &&& entry@ == preview_entry(post@, preview_budget(preview_length))
            },
            Err(e) => creation_failure(post@, false) == Some(e@),
        },
{
    let json = match post.metadata {
        Ok(x) => x,
        Err(y) => {
            return Err(y);
        },
    };
    let markdown = match post.content {
        Ok(x) => x,
        Err(y) => {
            return Err(y);
        },
    };
    let html = match render_markdown(markdown.as_str()) {
        Ok(x) => x,
        Err(y) => {
            return Err(y);
        },
    };
    let preview = get_preview(&html, preview_length);
    Ok(PreviewBlogEntry::new(json, preview))
}

/// Makes the preview entries of posts, in order.  A post whose JSON file
/// does not exist is passed over; the first post that fails otherwise fails
/// them all.
pub fn preview_all(posts: Vec<RawPost>, preview_length: Option<usize>) -> (r: Result<
    Vec<PreviewBlogEntry>,
    BlogError,
>)
    ensures
        match r {
            Ok(entries) => {
                &&& first_failure(view_seq(posts@), false) is None
                &&& view_seq(entries@) == preview_entries(
                    loaded(view_seq(posts@)),
                    preview_budget(preview_length),
                )
            },
            Err(e) => first_failure(view_seq(posts@), false) == Some(e@),
        },
{
    let ghost sources = view_seq(posts@);
    let ghost budget = preview_budget(preview_length);
    let mut rest = Pending::new(posts);
    let mut entries: Vec<PreviewBlogEntry> = Vec::new();
    let ghost mut taken: int = 0;
    proof {
        assert(sources.take(0) =~= Seq::<Source>::empty());
        assert(sources.skip(0) =~= sources);
        assert(view_seq(entries@) =~= preview_entries(loaded(sources.take(0)), budget));
    }
    while !rest.is_empty()
        invariant
            0 <= taken <= sources.len(),
            sources == view_seq(posts@),
            budget == preview_budget(preview_length),
            view_seq(rest@) == sources.skip(taken),
            first_failure(sources.take(taken), false) is None,
            view_seq(entries@) == preview_entries(loaded(sources.take(taken)), budget),
        decreases rest@.len(),
    {
        let ghost before = rest@;
        let post = rest.next();
        proof {
            lemma_next_item(before, rest@, post, sources, taken);
        }
        let skipped: bool = match &post.metadata {
            Err(BlogError::FileNotFound) => true,
            _ => false,
        };
        assert(skipped == is_skipped(post@));
        if !skipped {
            let ghost source = post@;
            let ghost done = loaded(sources.take(taken));
            let ghost old_entries = entries@;
            match preview_post(post, preview_length) {
                Ok(entry) => {
                    entries.push(entry);
                    proof {
                        assert(loaded(sources.take(taken + 1)) == done.push(source));
                        assert(view_seq(old_entries).len() == old_entries.len());
                        assert forall|i: int| 0 <= i < entries@.len() implies view_seq(entries@)[i]
                            == preview_entries(done.push(source), budget)[i] by {
                            if i < old_entries.len() {
                                assert(entries@[i] == old_entries[i]);
                                assert(view_seq(old_entries)[i] == preview_entries(done, budget)[i]);
                            }
                        }
                        assert(view_seq(entries@) =~= preview_entries(done.push(source), budget));
                    }
                },
                Err(e) => {
                    proof {
                        assert(first_failure(sources.take(taken + 1), false) == Some(e@));
                        lemma_first_failure_prefix(sources, false, taken + 1);
                    }
                    return Err(e);
                },
            }
        }
        proof {
            taken = taken + 1;
        }
    }
    proof {
        assert(sources.take(taken) =~= sources);
    }
    Ok(entries)
}

/// Whether a post counts when the posts with a tag are listed: its metadata
/// failed, or holds the tag.  A post whose JSON file does not exist does
/// not count.
pub open spec fn counts_for_tag(source: Source, tag: Seq<char>) -> bool {
    match source.metadata {
        Ok(metadata) => metadata.tags.contains(tag),
        Err(e) => e != Failure::FileNotFound,
    }
}

/// The posts that count for a tag, in order.
pub open spec fn tagged(sources: Seq<Source>, tag: Seq<char>) -> Seq<Source>
    decreases sources.len(),
{
    if sources.len() == 0 {
        Seq::empty()
    } else if counts_for_tag(sources.last(), tag) {
        tagged(sources.drop_last(), tag).push(sources.last())
    } else {
        tagged(sources.drop_last(), tag)
    }
}

/// No post that counts for a tag is passed over, so all of them are loaded.
pub proof fn lemma_tagged_loaded(sources: Seq<Source>, tag: Seq<char>)
    ensures
        loaded(tagged(sources, tag)) == tagged(sources, tag),
    decreases sources.len(),
{
    if sources.len() > 0 {
        lemma_tagged_loaded(sources.drop_last(), tag);
        if counts_for_tag(sources.last(), tag) {
            let front = tagged(sources.drop_last(), tag);
            assert(front.push(sources.last()).drop_last() =~= front);
        }
    }
}

/// The posts that count for a tag.
fn select_tagged(posts: Vec<RawPost>, tag: &String) -> (r: Vec<RawPost>)
    ensures
        view_seq(r@) == tagged(view_seq(posts@), tag@),
{
    let ghost sources = view_seq(posts@);
    let mut rest = Pending::new(posts);
    let mut chosen: Vec<RawPost> = Vec::new();
    let ghost mut taken: int = 0;
    proof {
        assert(sources.take(0) =~= Seq::<Source>::empty());
        assert(sources.skip(0) =~= sources);
        assert(view_seq(chosen@) =~= Seq::<Source>::empty());
    }
    while !rest.is_empty()
        invariant
            0 <= taken <= sources.len(),
            view_seq(rest@) == sources.skip(taken),
            view_seq(chosen@) == tagged(sources.take(taken), tag@),
        decreases rest@.len(),
    {
        let ghost before = rest@;
        let post = rest.next();
        proof {
            lemma_next_item(before, rest@, post, sources, taken);
        }
        let counts: bool = match &post.metadata {
            Ok(json) => has_tag(&json.tags, tag),
            Err(BlogError::FileNotFound) => false,
            Err(_) => true,
        };
        assert(counts == counts_for_tag(post@, tag@));
        if counts {
            let ghost old_chosen = chosen@;
            chosen.push(post);
            proof {
                assert(view_seq(old_chosen).len() == old_chosen.len());
                assert forall|i: int| 0 <= i < chosen@.len() implies view_seq(chosen@)[i] == tagged(
                    sources.take(taken),
                    tag@,
                ).push(post@)[i] by {
                    if i < old_chosen.len() {
                        assert(chosen@[i] == old_chosen[i]);
                        assert(view_seq(old_chosen)[i] == tagged(sources.take(taken), tag@)[i]);
                    }
                }
                assert(view_seq(chosen@) =~= tagged(sources.take(taken), tag@).push(post@));
            }
        }
        proof {
            taken = taken + 1;
        }
    }
    proof {
        assert(sources.take(taken) =~= sources);
    }
    chosen
}

/// The previews of the posts with the given tag, in the order of the posts,
/// for a page that lists them.  They hold no HTML.
///
/// `preview_length` is the number of characters of a preview, 320 where none
/// is given.  The first post whose metadata failed, or that has the tag and
/// cannot be rendered, fails the list.
pub fn preview_blogs_tagged(posts: Vec<RawPost>, tag: String, preview_length: Option<usize>) -> (r:
    Result<Vec<PreviewBlogEntry>, BlogError>)
    ensures
        match r {
            Ok(entries) => {
                &&& first_failure(tagged(view_seq(posts@), tag@), false) is None
                &&& view_seq(entries@) == preview_entries(
                    tagged(view_seq(posts@), tag@),
                    preview_budget(preview_length),
                )
            },
            Err(e) => first_failure(tagged(view_seq(posts@), tag@), false) == Some(e@),
        },
{
    proof {
        lemma_tagged_loaded(view_seq(posts@), tag@);
    }
    let chosen = select_tagged(posts, &tag);
    preview_all(chosen, preview_length)
}

/// The value of a post.
pub open spec fn source_of() -> spec_fn(RawPost) -> Source {
    |post: RawPost| post@
}

impl Ranked for RawPost {
    /// A post stands before those that are older.
    open spec fn before(&self, other: &Self) -> bool {
        newer(self@, other@)
    }

    fn stands_before(&self, other: &Self) -> (b: bool) {
        match (&self.metadata, &other.metadata) {
            (Ok(a), Ok(b)) => b.date.is_before(&a.date),
            _ => false,
        }
    }
}

/// The `num` newest posts, from the newest to the oldest; posts of one day
/// in the order in which they were given.  All posts where there are no
/// more than `num`.
pub open spec fn most_recent(sources: Seq<Source>, num: nat) -> Seq<Source> {
    let ordered = sorted_by(loaded(sources), newest_first());
    if num < ordered.len() {
        ordered.take(num as int)
    } else {
        ordered
    }
}

/// A list without a post that is passed over is loaded whole.
pub proof fn lemma_loaded_all(sources: Seq<Source>)
    requires
        forall|i: int| 0 <= i < sources.len() ==> !is_skipped(#[trigger] sources[i]),
    ensures
        loaded(sources) == sources,
    decreases sources.len(),
{
    if sources.len() > 0 {
        assert forall|i: int| 0 <= i < sources.drop_last().len() implies !is_skipped(
            #[trigger] sources.drop_last()[i],
        ) by {
            assert(sources.drop_last()[i] == sources[i]);
        }
        lemma_loaded_all(sources.drop_last());
        assert(!is_skipped(sources[sources.len() - 1]));
        assert(sources.drop_last().push(sources.last()) =~= sources);
    } else {
        assert(loaded(sources) =~= sources);
    }
}

/// No loaded post is passed over.
pub proof fn lemma_loaded_none_skipped(sources: Seq<Source>)
    ensures
        forall|i: int| 0 <= i < loaded(sources).len() ==> !is_skipped(#[trigger] loaded(sources)[i]),
    decreases sources.len(),
{
    if sources.len() > 0 {
        lemma_loaded_none_skipped(sources.drop_last());
        let front = loaded(sources.drop_last());
        assert forall|i: int| 0 <= i < loaded(sources).len() implies !is_skipped(
            #[trigger] loaded(sources)[i],
        ) by {
            if i < front.len() {
                assert(loaded(sources)[i] == front[i]);
            }
        }
    }
}

/// The posts that are not passed over, where the metadata of each was read.
fn select_loaded(posts: Vec<RawPost>) -> (r: Result<Vec<RawPost>, BlogError>)
    ensures
        match r {
            Ok(kept) => {
                &&& first_metadata_failure(loaded(view_seq(posts@))) is None
                &&& view_seq(kept@) == loaded(view_seq(posts@))
            },
            Err(e) => first_metadata_failure(loaded(view_seq(posts@))) == Some(e@),
        },
{
    let ghost sources = view_seq(posts@);
    let mut rest = Pending::new(posts);
    let mut kept: Vec<RawPost> = Vec::new();
    let ghost mut taken: int = 0;
    proof {
        assert(sources.take(0) =~= Seq::<Source>::empty());
        assert(sources.skip(0) =~= sources);
        assert(view_seq(kept@) =~= Seq::<Source>::empty());
    }
    while !rest.is_empty()
        invariant
            0 <= taken <= sources.len(),
            sources == view_seq(posts@),
            view_seq(rest@) == sources.skip(taken),
            first_metadata_failure(loaded(sources.take(taken))) is None,
            view_seq(kept@) == loaded(sources.take(taken)),
        decreases rest@.len(),
    {
        let ghost before = rest@;
        let post = rest.next();
        proof {
            lemma_next_item(before, rest@, post, sources, taken);
        }
        let ghost done = loaded(sources.take(taken));
        match &post.metadata {
            Err(BlogError::FileNotFound) => {},
            Err(e) => {
                let failure = e.clone();
                proof {
                    assert(loaded(sources.take(taken + 1)) == done.push(post@));
                    assert(done.push(post@).drop_last() =~= done);
                    lemma_loaded_prefix(sources, taken + 1);
                    lemma_first_metadata_failure_prefix(
                        loaded(sources),
                        loaded(sources.take(taken + 1)).len() as int,
                    );
                }
                return Err(failure);
            },
            Ok(_) => {
                let ghost old_kept = kept@;
                kept.push(post);
                proof {
                    assert(loaded(sources.take(taken + 1)) == done.push(post@));
                    assert(done.push(post@).drop_last() =~= done);
                    assert(view_seq(old_kept).len() == old_kept.len());
                    assert forall|i: int| 0 <= i < kept@.len() implies view_seq(kept@)[i]
                        == done.push(post@)[i] by {
                        if i < old_kept.len() {
                            assert(kept@[i] == old_kept[i]);
                            assert(view_seq(old_kept)[i] == done[i]);
                        }
                    }
                    assert(view_seq(kept@) =~= done.push(post@));
                }
            },
        }
        proof {
            taken = taken + 1;
        }
    }
    proof {
        assert(sources.take(taken) =~= sources);
    }
    Ok(kept)
}

/// The loaded posts among the first posts start the loaded posts of all.
pub proof fn lemma_loaded_prefix(sources: Seq<Source>, k: int)
    requires
        0 <= k <= sources.len(),
    ensures
        loaded(sources.take(k)).len() <= loaded(sources).len(),
        loaded(sources).take(loaded(sources.take(k)).len() as int) == loaded(sources.take(k)),
    decreases sources.len() - k,
{
    if k == sources.len() {
        assert(sources.take(k) =~= sources);
        assert(loaded(sources).take(loaded(sources).len() as int) =~= loaded(sources));
    } else {
        lemma_loaded_prefix(sources, k + 1);
        assert(sources.take(k + 1).drop_last() =~= sources.take(k));
        let shorter = loaded(sources.take(k));
        let longer = loaded(sources.take(k + 1));
        assert(longer.take(shorter.len() as int) =~= shorter);
        assert(loaded(sources).take(longer.len() as int).take(shorter.len() as int) =~= loaded(
            sources,
        ).take(shorter.len() as int));
    }
}

/// The previews of the `num` newest posts, from the newest to the oldest,
/// for an index page.
///
/// `preview_length` is the number of characters of a preview, 320 where none
/// is given.  A post whose JSON file does not exist is passed over.  The
/// first post whose metadata failed fails the list; so does the first of the
/// newest posts that cannot be rendered.
pub fn preview_blogs(posts: Vec<RawPost>, num: usize, preview_length: Option<usize>) -> (r: Result<
    Vec<PreviewBlogEntry>,
    BlogError,
>)
    ensures
        match r {
            Ok(entries) => {
                &&& first_metadata_failure(loaded(view_seq(posts@))) is None
                &&& first_failure(most_recent(view_seq(posts@), num as nat), false) is None
                &&& view_seq(entries@) == preview_entries(
                    most_recent(view_seq(posts@), num as nat),
                    preview_budget(preview_length),
                )
            },
            Err(e) => match first_metadata_failure(loaded(view_seq(posts@))) {
                Some(failure) => e@ == failure,
                None => first_failure(most_recent(view_seq(posts@), num as nat), false) == Some(
                    e@,
                ),
            },
        },
{
    let ghost sources = view_seq(posts@);
    let kept = match select_loaded(posts) {
        Ok(x) => x,
        Err(y) => {
            return Err(y);
        },
    };
    let ghost unsorted = kept@;
    let mut ordered = sort_ranked(kept);
    proof {
        lemma_sorted_values(unsorted, source_of(), ranked_order::<RawPost>(), newest_first());
        lemma_sorted_len(unsorted, ranked_order::<RawPost>());
        assert(unsorted.map_values(source_of()) =~= loaded(sources));
        assert(view_seq(ordered@) =~= ordered@.map_values(source_of()));
    }
    ordered.truncate(num);
    proof {
        let recent = most_recent(sources, num as nat);
        assert(view_seq(ordered@) =~= recent);
        lemma_loaded_none_skipped(sources);
        lemma_sorted_keeps(loaded(sources), newest_first(), |s: Source| !is_skipped(s));
        assert forall|i: int| 0 <= i < recent.len() implies !is_skipped(#[trigger] recent[i]) by {
            assert(recent[i] == sorted_by(loaded(sources), newest_first())[i]);
        }
        lemma_loaded_all(recent);
    }
    preview_all(ordered, preview_length)
}

/// Whether a text is no date written as `YYYY-MM-DD`.
pub open spec fn is_improper_date(text: Seq<char>) -> bool {
    forall|d: Date| d.valid() ==> text != d.iso()
}

/// A date as a folder of the blog: the folder of the year, and in it that of
/// the date.
pub struct DateFolder {
    /// The name of the folder of the year: the four digits of the year.
    pub year: String,
    /// The name of the folder of the date: the date as `YYYY-MM-DD`.
    pub date: String,
}

/// The folders in which the posts of a date lie, `root/<year>/<date>`.  A
/// text that is no date written as `YYYY-MM-DD` is refused.
pub fn date_folder(date: &str) -> (r: Result<DateFolder, BlogError>)
    ensures
        match r {
            Ok(folder) => {
                &&& !is_improper_date(date@)
                &&& folder.year@ == date@.take(4)
                &&& folder.date@ == date@
            },
            Err(e) => is_improper_date(date@) && e@ == Failure::ImproperDate(date@),
        },
{
    match Date::parse(date) {
        None => Err(BlogError::ImproperDate(date.to_string())),
        Some(day) => {
            proof {
                crate::date::lemma_iso_shape(day);
            }
            let chars = to_chars(date);
            let year = from_chars(&chars, 0, 4);
            assert(chars@.subrange(0, 4) =~= date@.take(4));
            Ok(DateFolder { year, date: date.to_string() })
        },
    }
}

/// Whether a post decides the search for the post of a date and a partial
/// slug: its metadata failed, or names that date and that slug.  A post
/// whose JSON file does not exist decides nothing.
pub open spec fn is_candidate(source: Source, date: Date, slug: Seq<char>) -> bool {
    match source.metadata {
        Ok(metadata) => metadata.date == date && metadata.slug == slug,
        Err(e) => e != Failure::FileNotFound,
    }
}

/// The first post that decides the search.
pub open spec fn first_candidate(sources: Seq<Source>, date: Date, slug: Seq<char>) -> Option<
    Source,
>
    decreases sources.len(),
{
    if sources.len() == 0 {
        None
    } else if is_candidate(sources[0], date, slug) {
        Some(sources[0])
    } else {
        first_candidate(sources.drop_first(), date, slug)
    }
}

/// Renders one post: the first of the posts given whose metadata names the
/// date and the partial slug, the `slug` of its JSON.
///
/// `date` is written as `YYYY-MM-DD`; any other text is refused.  The
/// result is `None` where no post has that date and slug.  A post whose
/// metadata failed, met before the post is found, fails the search.
pub fn render_blog_post<F: Fn(&Node) -> String>(
    posts: Vec<RawPost>,
    date: String,
    slug: String,
    toc_generation_func: Option<&F>,
) -> (r: Result<Option<LowBlogEntry>, BlogError>)
    requires
        toc_callable(toc_generation_func),
    ensures
        is_improper_date(date@) ==> (r matches Err(e) && e@ == Failure::ImproperDate(date@)),
        forall|day: Date|
            day.valid() && date@ == #[trigger] day.iso() ==> match first_candidate(
                view_seq(posts@),
                day,
                slug@,
            ) {
                None => r matches Ok(None),
                Some(found) => match creation_failure(found, toc_generation_func is Some) {
                    Some(failure) => r matches Err(e) && e@ == failure,
                    None => {
                        &&& r matches Ok(Some(entry))
                        &&& made_of(entry, found, toc_generation_func, None::<usize>)
                    },
                },
            },
{
    let wanted = match Date::parse(date.as_str()) {
        Some(x) => x,
        None => {
            return Err(BlogError::ImproperDate(date));
        },
    };
    proof {
        assert forall|day: Date| day.valid() && date@ == #[trigger] day.iso() implies day
            == wanted by {
            crate::date::lemma_iso_injective(day, wanted);
        }
    }
    let ghost sources = view_seq(posts@);
    let mut rest = Pending::new(posts);
    let ghost mut taken: int = 0;
    proof {
        assert(sources.skip(0) =~= sources);
    }
    while !rest.is_empty()
        invariant
            0 <= taken <= sources.len(),
            sources == view_seq(posts@),
            wanted.valid(),
            date@ == wanted.iso(),
            toc_callable(toc_generation_func),
            view_seq(rest@) == sources.skip(taken),
            first_candidate(sources, wanted, slug@) == first_candidate(
                sources.skip(taken),
                wanted,
                slug@,
            ),
        decreases rest@.len(),
    {
        let ghost before = rest@;
        let post = rest.next();
        proof {
            lemma_next_item(before, rest@, post, sources, taken);
            assert(sources.skip(taken)[0] == post@);
            assert(sources.skip(taken).drop_first() =~= sources.skip(taken + 1));
        }
        let decides: bool = match &post.metadata {
            Ok(json) => json.date == wanted && same_text(json.slug.as_str(), slug.as_str()),
            Err(BlogError::FileNotFound) => false,
            Err(_) => true,
        };
        assert(decides == is_candidate(post@, wanted, slug@));
        if decides {
            proof {
                assert forall|day: Date| day.valid() && date@ == #[trigger] day.iso() implies day
                    == wanted by {
                    crate::date::lemma_iso_injective(day, wanted);
                }
            }
            return match LowBlogEntry::create(post, toc_generation_func, None) {
                Ok(entry) => Ok(Some(entry)),
                Err(e) => Err(e),
            };
        }
        proof {
            taken = taken + 1;
        }
    }
    proof {
        assert(sources.skip(taken) =~= Seq::<Source>::empty());
    }
    Ok(None)
}

/// What `first_candidate` finds: the first post that decides the search,
/// where there is one.
pub proof fn lemma_first_candidate(sources: Seq<Source>, date: Date, slug: Seq<char>)
    ensures
        match first_candidate(sources, date, slug) {
            Some(found) => exists|j: int|
                0 <= j < sources.len() && #[trigger] sources[j] == found && is_candidate(
                    sources[j],
                    date,
                    slug,
                ) && forall|k: int| 0 <= k < j ==> !is_candidate(#[trigger] sources[k], date, slug),
            None => forall|k: int|
                0 <= k < sources.len() ==> !is_candidate(#[trigger] sources[k], date, slug),
        },
    decreases sources.len(),
{
    if sources.len() > 0 {
        if is_candidate(sources[0], date, slug) {
            assert(sources[0] == sources[0]);
        } else {
            let rest = sources.drop_first();
            lemma_first_candidate(rest, date, slug);
            match first_candidate(rest, date, slug) {
                Some(found) => {
                    let j = choose|j: int|
                        0 <= j < rest.len() && #[trigger] rest[j] == found && is_candidate(
                            rest[j],
                            date,
                            slug,
                        ) && forall|k: int|
                            0 <= k < j ==> !is_candidate(#[trigger] rest[k], date, slug);
                    assert(sources[j + 1] == found);
                    assert forall|k: int| 0 <= k < j + 1 implies !is_candidate(
                        #[trigger] sources[k],
                        date,
                        slug,
                    ) by {
                        if k > 0 {
                            assert(sources[k] == rest[k - 1]);
                        }
                    }
                },
                None => {
                    assert forall|k: int| 0 <= k < sources.len() implies !is_candidate(
                        #[trigger] sources[k],
                        date,
                        slug,
                    ) by {
                        if k > 0 {
                            assert(sources[k] == rest[k - 1]);
                        }
                    }
                },
            }
        }
    }
}

/// Where the metadata of every post was read and no two posts have the same
/// date and partial slug, the search by date and partial slug finds the post
/// that a blog kept in memory holds under the full slug.
pub proof fn lemma_lookups_agree(sources: Seq<Source>, date: Date, slug: Seq<char>)
    requires
        date.valid(),
        forall|j: int|
            0 <= j < sources.len() ==> (#[trigger] sources[j]).metadata is Ok && metadata_of(
                sources[j],
            ).date.valid(),
        forall|j: int, k: int|
            0 <= j < k < sources.len() ==> {
                let a = #[trigger] metadata_of(sources[j]);
                let b = #[trigger] metadata_of(sources[k]);
                a.date != b.date || a.slug != b.slug
            },
    ensures
        first_candidate(sources, date, slug) == last_with_slug(
            sources,
            date.iso() + seq!['/'] + slug,
        ),
{
    let full = date.iso() + seq!['/'] + slug;
    let wanted = Metadata {
        title: Seq::empty(),
        date,
        desc: None,
        slug,
        tags: Seq::empty(),
        keywords: None,
        canonical_link: None,
        author_name: None,
        author_webpage: None,
        last_modified: None,
        priority: None,
    };
    assert(wanted.full_slug() == full);
    assert forall|j: int| 0 <= j < sources.len() implies (is_candidate(
        #[trigger] sources[j],
        date,
        slug,
    ) <==> metadata_of(sources[j]).full_slug() == full) by {
        if metadata_of(sources[j]).full_slug() == full {
            crate::common::index::lemma_full_slug_unique(metadata_of(sources[j]), wanted);
        }
    }
    lemma_first_candidate(sources, date, slug);
    match first_candidate(sources, date, slug) {
        Some(found) => {
            let j = choose|j: int|
                0 <= j < sources.len() && #[trigger] sources[j] == found && is_candidate(
                    sources[j],
                    date,
                    slug,
                ) && forall|k: int|
                    0 <= k < j ==> !is_candidate(#[trigger] sources[k], date, slug);
            assert(forall|a: int|
                0 <= a < sources.len() ==> (#[trigger] metadata_of(sources[a])).date.valid());
            crate::common::index::lemma_each_post_is_found(sources, j);
        },
        None => {
            lemma_no_post_with_slug(sources, full);
        },
    }
}

/// A full slug that no post has finds no post.
pub proof fn lemma_no_post_with_slug(sources: Seq<Source>, full_slug: Seq<char>)
    requires
        forall|j: int|
            0 <= j < sources.len() ==> (#[trigger] metadata_of(sources[j])).full_slug()
                != full_slug,
    ensures
        last_with_slug(sources, full_slug) is None,
    decreases sources.len(),
{
    if sources.len() > 0 {
        assert forall|j: int| 0 <= j < sources.drop_last().len() implies (#[trigger] metadata_of(
            sources.drop_last()[j],
        )).full_slug() != full_slug by {
            assert(sources.drop_last()[j] == sources[j]);
        }
        lemma_no_post_with_slug(sources.drop_last(), full_slug);
        assert(metadata_of(sources[sources.len() - 1]).full_slug() != full_slug);
    }
}

} // verus!
