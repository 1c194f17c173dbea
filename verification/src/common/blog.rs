//! A blog that is kept in memory, whatever its entries keep of a post: how
//! it is loaded, and what it can be asked.

use vstd::hash_map::StringHashMap;
use vstd::prelude::*;
use markdown::mdast::Node;
use crate::common::{distinct_tags, lemma_distinct_tags, lemma_no_failure, loaded, parse_blogs,
    RawPost, Source};
use crate::common::index::{last_with_slug, metadatas, newest, newest_first};
use crate::common::tags::has_tag;
use crate::common::types::{clone_texts, views, BlogError};
use crate::date::{lemma_earlier_total, lemma_earlier_transitive};
use crate::order::{lemma_sorted_holds_each, lemma_sorted_in_order, lemma_sorted_keeps,
    lemma_sorted_together, ranked_order, sort_ranked, sorted_by, view_seq, Ranked};
use crate::sitemap::document::document_text;
use crate::sitemap::sitemap::{base_events, blog_failure, create_sitemap_inner, is_day_text,
    sitemap_tokens};
use crate::sitemap::types::{Settings, SitemapOptions};
use crate::types::{creation_failure, made_of, metadata_of, metadata_seq, toc_callable, Blog};

verus! {

/// Whether two entries say the same of a post.
pub open spec fn same_entry<T: Blog>(a: T, b: T) -> bool {
    &&& a.metadata() == b.metadata()
    &&& a.preview_text() == b.preview_text()
    &&& a.contents() == b.contents()
    &&& forall|source: Source| #[trigger] a.keeps(source) == b.keeps(source)
}

/// An entry that a blog keeps in memory: it can be copied, and it has its
/// place among the others by its day.
pub trait Kept: Blog + Ranked + Clone {
    /// A copy says the same as the entry it was made of.
    proof fn lemma_copy(entry: Self, copy: Self)
        requires
            cloned(entry, copy),
        ensures
            same_entry(entry, copy),
    ;

    /// An entry stands before those of an earlier day.
    proof fn lemma_rank(a: Self, b: Self)
        ensures
            a.before(&b) == b.metadata().date.earlier(a.metadata().date),
    ;
}

/// Whether `entry` is the entry of the post `source`, whose metadata was
/// read.
pub open spec fn is_entry_of<T: Blog, F: Fn(&Node) -> String>(
    entry: T,
    source: Source,
    toc_generation_func: Option<&F>,
    preview_chars: Option<usize>,
) -> bool {
    &&& source.metadata is Ok
    &&& made_of(entry, source, toc_generation_func, preview_chars)
}

/// The entries with a tag.
pub open spec fn tagged_with<T: Blog>(tag: Seq<char>) -> spec_fn(T) -> bool {
    |entry: T| entry.metadata().tags.contains(tag)
}

/// A blog in memory.
///
/// `hash` and `entries` hold the same posts: `hash` finds one by its full
/// slug, `entries` lists them from the newest to the oldest.
#[verifier::reject_recursive_types(T)]
pub struct BlogIndex<T> {
    /// From the full slug of a post, such as `2024-03-19/my-blog`, to the
    /// post: what a request for `/blog/<date>/<slug>` needs.  Of two posts
    /// with one full slug the later one is found.
    pub hash: StringHashMap<T>,
    /// The posts from the newest to the oldest: what an index page needs.
    pub entries: Vec<T>,
    /// The tags of the blog, each once, in the order in which they come
    /// first.
    pub tags: Vec<String>,
    /// The XML of the sitemap.
    pub sitemap: String,
}

impl<T: Blog> BlogIndex<T> {
    /// What holds of a blog that was loaded: `hash` and `entries` hold the
    /// same posts, each post is found under its own full slug, no post of an
    /// earlier day stands before one of a later day, and no tag is listed
    /// twice.
    pub open spec fn wf(&self) -> bool {
        &&& forall|i: int|
            0 <= i < self.entries@.len() ==> self.hash@.contains_key(
                (#[trigger] self.entries@[i]).metadata().full_slug(),
            )
        &&& forall|slug: Seq<char>| #[trigger]
            self.hash@.contains_key(slug) ==> {
                &&& self.hash@[slug].metadata().full_slug() == slug
                &&& exists|i: int|
                    0 <= i < self.entries@.len() && same_entry(
                        #[trigger] self.entries@[i],
                        self.hash@[slug],
                    )
            }
        &&& forall|i: int, j: int|
            0 <= i < j < self.entries@.len() ==> !(
            #[trigger] self.entries@[i]).metadata().date.earlier(
                (#[trigger] self.entries@[j]).metadata().date,
            )
        &&& views(self.tags@).no_duplicates()
    }

    /// The post with the given full slug, such as `2024-03-19/my-blog`;
    /// `None` where the blog has no such post.
    pub fn lookup_by_slug(&self, full_slug: &str) -> (r: Option<&T>)
        ensures
            match r {
                Some(entry) => {
                    &&& self.hash@.contains_key(full_slug@)
                    &&& *entry == self.hash@[full_slug@]
                },
                None => !self.hash@.contains_key(full_slug@),
            },
    {
        self.hash.get(full_slug)
    }

    /// The tags of the blog, each once.
    pub fn list_tags(&self) -> (r: Vec<String>)
        ensures
            views(r@) == views(self.tags@),
    {
        clone_texts(&self.tags)
    }
}

impl<T: Blog + Clone> BlogIndex<T> {
    /// The posts with the given tag, from the newest to the oldest: a copy
    /// of each entry that has the tag, in the order of `entries`.
    pub fn list_by_tag(&self, tag: &String) -> (r: Vec<T>)
        ensures
            r@.len() == self.entries@.filter(tagged_with::<T>(tag@)).len(),
            forall|k: int|
                0 <= k < r@.len() ==> cloned(
                    self.entries@.filter(tagged_with::<T>(tag@))[k],
                    #[trigger] r@[k],
                ),
    {
        let ghost all = self.entries@;
        let ghost wanted = tagged_with::<T>(tag@);
        let mut found: Vec<T> = Vec::new();
        let mut i: usize = 0;
        proof {
            reveal(Seq::filter);
            assert(all.take(0) =~= Seq::<T>::empty());
        }
        while i < self.entries.len()
            invariant
                i <= self.entries.len(),
                all == self.entries@,
                wanted == tagged_with::<T>(tag@),
                found@.len() == all.take(i as int).filter(wanted).len(),
                forall|k: int|
                    0 <= k < found@.len() ==> cloned(
                        all.take(i as int).filter(wanted)[k],
                        #[trigger] found@[k],
                    ),
            decreases self.entries.len() - i,
        {
            let entry = &self.entries[i];
            let tags = entry.get_tags();
            proof {
                reveal(Seq::filter);
                assert(all.take(i + 1).drop_last() =~= all.take(i as int));
                assert(all.take(i + 1).last() == *entry);
            }
            if has_tag(&tags, tag) {
                let ghost old_found = found@;
                found.push(entry.clone());
                proof {
                    let picked = all.take(i as int).filter(wanted);
                    assert(all.take(i + 1).filter(wanted) == picked.push(*entry));
                    assert forall|k: int| 0 <= k < found@.len() implies cloned(
                        picked.push(*entry)[k],
                        #[trigger] found@[k],
                    ) by {
                        if k < old_found.len() {
                            assert(found@[k] == old_found[k]);
                        }
                    }
                }
            }
            i += 1;
        }
        proof {
            assert(all.take(i as int) =~= all);
        }
        found
    }
}

/// Whether `blog` is the blog of the posts `sources`: its entries are those
/// of the posts that are not passed over, from the newest to the oldest; a
/// full slug finds the entry of the last post that has it; its tags are those
/// of the posts; and its sitemap lists the entries and the tags, for the day
/// on which it was made.
pub open spec fn is_blog_of<T: Blog, F: Fn(&Node) -> String>(
    blog: BlogIndex<T>,
    sources: Seq<Source>,
    toc_generation_func: Option<&F>,
    preview_chars: Option<usize>,
    url: Seq<char>,
    settings: Settings,
) -> bool {
    &&& blog.wf()
    &&& blog.entries@.len() == newest(sources).len()
    &&& forall|i: int|
        0 <= i < blog.entries@.len() ==> is_entry_of(
            #[trigger] blog.entries@[i],
            newest(sources)[i],
            toc_generation_func,
            preview_chars,
        )
    &&& forall|slug: Seq<char>|
        match #[trigger] last_with_slug(loaded(sources), slug) {
            Some(source) => {
                &&& blog.hash@.contains_key(slug)
                &&& is_entry_of(blog.hash@[slug], source, toc_generation_func, preview_chars)
            },
            None => !blog.hash@.contains_key(slug),
        }
    &&& views(blog.tags@) == distinct_tags(loaded(sources))
    &&& exists|today: Seq<char>|
        is_day_text(today) && blog.sitemap@ == document_text(
            #[trigger] sitemap_tokens(
                metadatas(newest(sources)),
                Some(distinct_tags(loaded(sources))),
                url,
                settings,
                today,
                base_events(settings),
            ),
        )
}

/// The order of entries is a strict order.
proof fn lemma_ranked_by_day<T: Kept>()
    ensures
        crate::order::is_strict_order(ranked_order::<T>(), |entry: T| true),
{
    let order = ranked_order::<T>();
    assert forall|a: T, b: T| #[trigger] order(a, b) implies !order(b, a) by {
        T::lemma_rank(a, b);
        T::lemma_rank(b, a);
        lemma_earlier_total(a.metadata().date, b.metadata().date);
    }
    assert forall|a: T, b: T, c: T| #[trigger] order(a, b) && #[trigger] order(b, c) implies order(
        a,
        c,
    ) by {
        T::lemma_rank(a, b);
        T::lemma_rank(b, c);
        T::lemma_rank(a, c);
        lemma_earlier_transitive(c.metadata().date, b.metadata().date, a.metadata().date);
    }
}

/// Loads a blog into memory: makes the entry of every post, finds each
/// under its full slug, puts the entries in order from the newest to the
/// oldest, collects the tags and makes the sitemap.
///
/// `posts` holds the posts as they were read from disk, in the order of
/// `get_blog_paths`.  A post whose JSON file does not exist is left out.
/// The first post that fails otherwise fails the blog; so does a priority
/// that is no number from 0 to 1.
pub fn get_blog_entries<T: Kept, F: Fn(&Node) -> String>(
    posts: Vec<RawPost>,
    toc_generation_func: Option<&F>,
    preview_chars: Option<usize>,
    url: &String,
    sitemap_options: &SitemapOptions,
) -> (r: Result<BlogIndex<T>, BlogError>)
    requires
        toc_callable(toc_generation_func),
    ensures
        match r {
            Ok(blog) => {
                &&& blog_failure(
                    view_seq(posts@),
                    toc_generation_func is Some,
                    sitemap_options@,
                ) is None
                &&& is_blog_of(
                    blog,
                    view_seq(posts@),
                    toc_generation_func,
                    preview_chars,
                    url@,
                    sitemap_options@,
                )
            },
            Err(e) => blog_failure(
                view_seq(posts@),
                toc_generation_func is Some,
                sitemap_options@,
            ) == Some(e@),
        },
{
    let ghost sources = view_seq(posts@);
    let ghost found = loaded(sources);
    let ghost with_toc = toc_generation_func is Some;
    let (entries, tags) = match parse_blogs::<T, F>(posts, toc_generation_func, preview_chars) {
        Ok(x) => x,
        Err(y) => {
            return Err(y);
        },
    };
    let ghost related = |entry: T, source: Source|
        is_entry_of(entry, source, toc_generation_func, preview_chars);
    proof {
        lemma_no_failure(sources, with_toc);
        assert forall|i: int| 0 <= i < entries@.len() implies related(
            #[trigger] entries@[i],
            found[i],
        ) by {
            assert(creation_failure(found[i], with_toc) is None);
        }
    }
    let mut hashes: StringHashMap<T> = StringHashMap::new();
    let mut i: usize = 0;
    proof {
        assert(found.take(0) =~= Seq::<Source>::empty());
    }
    while i < entries.len()
        invariant
            i <= entries.len(),
            entries@.len() == found.len(),
            forall|j: int|
                0 <= j < entries@.len() ==> is_entry_of(
                    #[trigger] entries@[j],
                    found[j],
                    toc_generation_func,
                    preview_chars,
                ),
            forall|slug: Seq<char>|
                match #[trigger] last_with_slug(found.take(i as int), slug) {
                    Some(source) => {
                        &&& hashes@.contains_key(slug)
                        &&& is_entry_of(hashes@[slug], source, toc_generation_func, preview_chars)
                    },
                    None => !hashes@.contains_key(slug),
                },
            forall|j: int|
                0 <= j < i ==> hashes@.contains_key(
                    (#[trigger] entries@[j]).metadata().full_slug(),
                ),
            forall|slug: Seq<char>| #[trigger]
                hashes@.contains_key(slug) ==> {
                    &&& hashes@[slug].metadata().full_slug() == slug
                    &&& exists|j: int|
                        0 <= j < i && same_entry(#[trigger] entries@[j], hashes@[slug])
                },
        decreases entries.len() - i,
    {
        let entry = &entries[i];
        let key = entry.get_full_slug();
        let copy = entry.clone();
        let ghost old_hashes = hashes@;
        hashes.insert(key, copy);
        proof {
            let source = found[i as int];
            T::lemma_copy(*entry, copy);
            assert(found.take(i + 1).drop_last() =~= found.take(i as int));
            assert(found.take(i + 1).last() == source);
            assert(is_entry_of(entries@[i as int], source, toc_generation_func, preview_chars));
            assert(key@ == metadata_of(source).full_slug());
            assert(entries@[i as int].keeps(source) == copy.keeps(source));
            assert(is_entry_of(copy, source, toc_generation_func, preview_chars));
            assert forall|slug: Seq<char>|
                match #[trigger] last_with_slug(found.take(i + 1), slug) {
                    Some(s) => {
                        &&& hashes@.contains_key(slug)
                        &&& is_entry_of(hashes@[slug], s, toc_generation_func, preview_chars)
                    },
                    None => !hashes@.contains_key(slug),
                } by {
                if slug != key@ {
                    assert(last_with_slug(found.take(i + 1), slug) == last_with_slug(
                        found.take(i as int),
                        slug,
                    ));
                }
            }
            assert forall|slug: Seq<char>| #[trigger] hashes@.contains_key(slug) implies {
                &&& hashes@[slug].metadata().full_slug() == slug
                &&& exists|j: int|
                    0 <= j < i + 1 && same_entry(#[trigger] entries@[j], hashes@[slug])
            } by {
                if slug == key@ {
                    assert(same_entry(entries@[i as int], hashes@[slug]));
                } else {
                    assert(old_hashes.contains_key(slug));
                    let j = choose|j: int|
                        0 <= j < i && same_entry(#[trigger] entries@[j], old_hashes[slug]);
                    assert(same_entry(entries@[j], hashes@[slug]));
                }
            }
        }
        i += 1;
    }
    proof {
        assert(found.take(i as int) =~= found);
    }
    let ghost parsed = entries@;
    let entries = sort_ranked(entries);
    proof {
        let order = ranked_order::<T>();
        let indexed = |entry: T| hashes@.contains_key(entry.metadata().full_slug());
        lemma_sorted_keeps(parsed, order, indexed);
        assert forall|slug: Seq<char>| #[trigger] hashes@.contains_key(slug) implies exists|k: int|
            0 <= k < entries@.len() && same_entry(#[trigger] entries@[k], hashes@[slug]) by {
            let j = choose|j: int|
                0 <= j < parsed.len() && same_entry(#[trigger] parsed[j], hashes@[slug]);
            lemma_sorted_holds_each(parsed, order, j);
            let k = choose|k: int|
                0 <= k < sorted_by(parsed, order).len() && #[trigger] sorted_by(parsed, order)[k]
                    == parsed[j];
            assert(same_entry(entries@[k], hashes@[slug]));
        }
        let any = |entry: T| true;
        lemma_ranked_by_day::<T>();
        lemma_sorted_in_order(parsed, order, any);
        assert forall|a: int, b: int| 0 <= a < b < entries@.len() implies !(
        #[trigger] entries@[a]).metadata().date.earlier(
            (#[trigger] entries@[b]).metadata().date,
        ) by {
            T::lemma_rank(entries@[b], entries@[a]);
            assert(!order(entries@[b], entries@[a]));
        }
        lemma_distinct_tags(found);
        assert forall|x: T, y: T, s: Source, t: Source| #[trigger]
            related(x, s) && #[trigger] related(y, t) implies order(x, y) == newest_first()(
            s,
            t,
        ) by {
            T::lemma_rank(x, y);
        }
        lemma_sorted_together(parsed, found, order, newest_first(), related);
        assert(metadata_seq(entries@) =~= metadatas(newest(sources)));
    }
    let sitemap = match create_sitemap_inner(&entries, Some(&tags), url, sitemap_options) {
        Ok(x) => x,
        Err(y) => {
            return Err(y);
        },
    };
    Ok(BlogIndex { hash: hashes, entries, tags, sitemap })
}

} // verus!
