//! The order of the posts of a blog and the slugs under which they are
//! found.

use vstd::prelude::*;
use crate::common::{loaded, Source};
use crate::common::types::Metadata;
use crate::date::{lemma_earlier_total, lemma_earlier_transitive, lemma_iso_injective,
    lemma_iso_shape, Date};
use crate::order::{all_hold, is_strict_order, lemma_filter_agree, lemma_sorted_in_order,
    lemma_sorted_len, lemma_sorted_permutes, lemma_sorted_stable, sorted_by, tied,
    ties_are_transitive};
use crate::types::metadata_of;

verus! {

/// Whether the post `a` is newer than the post `b`: both have metadata, and
/// the day of `b` is earlier than that of `a`.
pub open spec fn newer(a: Source, b: Source) -> bool {
    &&& a.metadata matches Ok(x)
    &&& b.metadata matches Ok(y)
    &&& y.date.earlier(x.date)
}

/// The order of posts from the newest to the oldest.
pub open spec fn newest_first() -> spec_fn(Source, Source) -> bool {
    |a: Source, b: Source| newer(a, b)
}

/// The posts that are not passed over, from the newest to the oldest;
/// posts of one day in the order in which they were given.
pub open spec fn newest(sources: Seq<Source>) -> Seq<Source> {
    sorted_by(loaded(sources), newest_first())
}

/// The metadata of posts, in order.
pub open spec fn metadatas(sources: Seq<Source>) -> Seq<Metadata> {
    Seq::new(sources.len(), |i: int| metadata_of(sources[i]))
}

/// The post that is found under a full slug: the last of the posts with
/// that full slug.
pub open spec fn last_with_slug(sources: Seq<Source>, full_slug: Seq<char>) -> Option<Source>
    decreases sources.len(),
{
    if sources.len() == 0 {
        None
    } else if metadata_of(sources.last()).full_slug() == full_slug {
        Some(sources.last())
    } else {
        last_with_slug(sources.drop_last(), full_slug)
    }
}

/// Two posts with the same full slug have the same date and the same
/// partial slug.
pub proof fn lemma_full_slug_unique(a: Metadata, b: Metadata)
    requires
        a.date.valid(),
        b.date.valid(),
        a.full_slug() == b.full_slug(),
    ensures
        a.date == b.date,
        a.slug == b.slug,
{
    lemma_iso_shape(a.date);
    lemma_iso_shape(b.date);
    let x = a.full_slug();
    let y = b.full_slug();
    assert(x.take(10) =~= a.date.iso());
    assert(y.take(10) =~= b.date.iso());
    assert(x.skip(11) =~= a.slug);
    assert(y.skip(11) =~= b.slug);
    lemma_iso_injective(a.date, b.date);
}

/// Where no two posts have the same date and partial slug, no two have the
/// same full slug, and each is found under its own.
pub proof fn lemma_each_post_is_found(sources: Seq<Source>, i: int)
    requires
        0 <= i < sources.len(),
        forall|j: int|
            0 <= j < sources.len() ==> (#[trigger] metadata_of(
                sources[j],
            )).date.valid(),
        forall|j: int, k: int|
            0 <= j < k < sources.len() ==> {
                let a = #[trigger] metadata_of(sources[j]);
                let b = #[trigger] metadata_of(sources[k]);
                a.date != b.date || a.slug != b.slug
            },
    ensures
        forall|j: int|
            0 <= j < sources.len() && j != i ==> (#[trigger] metadata_of(
                sources[j],
            )).full_slug() != metadata_of(sources[i]).full_slug(),
        last_with_slug(sources, metadata_of(sources[i]).full_slug()) == Some(
            sources[i],
        ),
    decreases sources.len(),
{
    let wanted = metadata_of(sources[i]);
    assert forall|j: int| 0 <= j < sources.len() && j != i implies (
    #[trigger] metadata_of(sources[j])).full_slug() != wanted.full_slug() by {
        let other = metadata_of(sources[j]);
        if other.full_slug() == wanted.full_slug() {
            lemma_full_slug_unique(other, wanted);
            if j < i {
                assert(other.date != wanted.date || other.slug != wanted.slug);
            } else {
                assert(wanted.date != other.date || wanted.slug != other.slug);
            }
        }
    }
    if i < sources.len() - 1 {
        let front = sources.drop_last();
        assert(front[i] == sources[i]);
        assert forall|j: int| 0 <= j < front.len() implies (#[trigger] metadata_of(
            front[j],
        )).date.valid() by {
            assert(front[j] == sources[j]);
        }
        assert forall|j: int, k: int| 0 <= j < k < front.len() implies {
            let a = #[trigger] metadata_of(front[j]);
            let b = #[trigger] metadata_of(front[k]);
            a.date != b.date || a.slug != b.slug
        } by {
            assert(front[j] == sources[j] && front[k] == sources[k]);
        }
        lemma_each_post_is_found(front, i);
        assert(metadata_of(sources[sources.len() - 1]).full_slug()
            != wanted.full_slug());
    }
}

/// Whether a post has metadata.
pub open spec fn has_metadata() -> spec_fn(Source) -> bool {
    |source: Source| source.metadata is Ok
}

/// The posts with metadata that were published on a day, in order.
pub open spec fn posts_of_day(sources: Seq<Source>, day: Date) -> Seq<Source> {
    sources.filter(
        |source: Source| source.metadata is Ok && metadata_of(source).date == day,
    )
}

/// Among posts with metadata, the order from the newest to the oldest is a
/// strict order, in which the posts of one day are tied.
pub proof fn lemma_newest_first_is_order()
    ensures
        is_strict_order(newest_first(), has_metadata()),
        ties_are_transitive(newest_first(), has_metadata()),
        forall|a: Source, b: Source|
            a.metadata is Ok && b.metadata is Ok ==> (#[trigger] tied(a, b, newest_first()) <==> (
            metadata_of(a).date == metadata_of(b).date)),
{
    let order = newest_first();
    let holds = has_metadata();
    assert forall|a: Source, b: Source|
        a.metadata is Ok && b.metadata is Ok implies (#[trigger] tied(a, b, order) <==> (
        metadata_of(a).date == metadata_of(b).date)) by {
        lemma_earlier_total(
            metadata_of(a).date,
            metadata_of(b).date,
        );
    }
    assert forall|a: Source, b: Source| holds(a) && holds(b) && #[trigger] order(a, b) implies !order(
        b,
        a,
    ) by {
        lemma_earlier_total(
            metadata_of(a).date,
            metadata_of(b).date,
        );
    }
    assert forall|a: Source, b: Source, c: Source|
        holds(a) && holds(b) && holds(c) && #[trigger] order(a, b) && #[trigger] order(
            b,
            c,
        ) implies order(a, c) by {
        lemma_earlier_transitive(
            metadata_of(c).date,
            metadata_of(b).date,
            metadata_of(a).date,
        );
    }
    assert forall|a: Source, b: Source, c: Source|
        holds(a) && holds(b) && holds(c) && #[trigger] tied(a, b, order) && #[trigger] tied(
            b,
            c,
            order,
        ) implies tied(a, c, order) by {
        assert(tied(a, c, order) <==> (metadata_of(a).date
            == metadata_of(c).date));
    }
}

/// The posts of a blog from the newest to the oldest: the same posts as
/// were loaded, none of an earlier day before one of a later day, and the
/// posts of each day in the order in which they were given.
pub proof fn lemma_newest(sources: Seq<Source>)
    requires
        all_hold(loaded(sources), has_metadata()),
    ensures
        newest(sources).len() == loaded(sources).len(),
        newest(sources).to_multiset() == loaded(sources).to_multiset(),
        forall|i: int, j: int|
            0 <= i < j < newest(sources).len() ==> !(#[trigger] metadata_of(
                newest(sources)[i],
            )).date.earlier((#[trigger] metadata_of(newest(sources)[j])).date),
        forall|day: Date|
            day.valid() ==> #[trigger] posts_of_day(newest(sources), day) == posts_of_day(
                loaded(sources),
                day,
            ),
{
    let found = loaded(sources);
    let order = newest_first();
    let holds = has_metadata();
    let sorted = newest(sources);
    lemma_newest_first_is_order();
    lemma_sorted_len(found, order);
    lemma_sorted_permutes(found, order);
    lemma_sorted_in_order(found, order, holds);
    assert forall|i: int, j: int| 0 <= i < j < sorted.len() implies !(
    #[trigger] metadata_of(sorted[i])).date.earlier(
        (#[trigger] metadata_of(sorted[j])).date,
    ) by {
        assert(holds(sorted[i]) && holds(sorted[j]));
        assert(!order(sorted[j], sorted[i]));
    }
    assert forall|day: Date| day.valid() implies #[trigger] posts_of_day(sorted, day)
        == posts_of_day(found, day) by {
        let witness = Source {
            path: Seq::empty(),
            metadata: Ok(
                Metadata {
                    title: Seq::empty(),
                    date: day,
                    desc: None,
                    slug: Seq::empty(),
                    tags: Seq::empty(),
                    keywords: None,
                    canonical_link: None,
                    author_name: None,
                    author_webpage: None,
                    last_modified: None,
                    priority: None,
                },
            ),
            content: Ok(Seq::empty()),
        };
        assert(holds(witness));
        lemma_sorted_stable(found, order, holds, witness);
        let same_day = |source: Source|
            source.metadata is Ok && metadata_of(source).date == day;
        let tie = |e: Source| tied(e, witness, order);
        assert forall|i: int| 0 <= i < sorted.len() implies same_day(#[trigger] sorted[i]) == tie(
            sorted[i],
        ) by {
            assert(holds(sorted[i]));
        }
        assert forall|i: int| 0 <= i < found.len() implies same_day(#[trigger] found[i]) == tie(
            found[i],
        ) by {
            assert(holds(found[i]));
        }
        lemma_filter_agree(sorted, same_day, tie);
        lemma_filter_agree(found, same_day, tie);
    }
}

} // verus!
