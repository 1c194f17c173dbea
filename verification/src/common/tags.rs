//! Lists of tags that hold no tag twice.

use vstd::prelude::*;
use crate::common::types::views;
use crate::text::same_text;

verus! {

/// A list of tags with one more tag, which is added at the end where the
/// list does not hold it.
pub open spec fn add_new(list: Seq<Seq<char>>, tag: Seq<char>) -> Seq<Seq<char>> {
    if list.contains(tag) {
        list
    } else {
        list.push(tag)
    }
}

/// A list of tags with more tags, each added in turn.
pub open spec fn add_all_new(list: Seq<Seq<char>>, tags: Seq<Seq<char>>) -> Seq<Seq<char>>
    decreases tags.len(),
{
    if tags.len() == 0 {
        list
    } else {
        add_new(add_all_new(list, tags.drop_last()), tags.last())
    }
}

/// Whether the list holds the tag.
pub fn has_tag(tags: &Vec<String>, tag: &String) -> (b: bool)
    ensures
        b == views(tags@).contains(tag@),
{
    let mut i: usize = 0;
    while i < tags.len()
        invariant
            i <= tags.len(),
            forall|j: int| 0 <= j < i ==> views(tags@)[j] != tag@,
        decreases tags.len() - i,
    {
        if same_text(tags[i].as_str(), tag.as_str()) {
            assert(views(tags@)[i as int] == tag@);
            return true;
        }
        i += 1;
    }
    false
}

/// Adds to a list of tags those of `new_tags` that it does not hold yet, in
/// their order.
pub fn add_tags(tags: &mut Vec<String>, new_tags: &Vec<String>)
    ensures
        views(final(tags)@) == add_all_new(views(old(tags)@), views(new_tags@)),
{
    let ghost start = views(tags@);
    let ghost added = views(new_tags@);
    let mut i: usize = 0;
    proof {
        assert(added.take(0) =~= Seq::<Seq<char>>::empty());
    }
    while i < new_tags.len()
        invariant
            i <= new_tags.len(),
            added == views(new_tags@),
            views(tags@) == add_all_new(start, added.take(i as int)),
        decreases new_tags.len() - i,
    {
        proof {
            assert(added.take(i + 1).drop_last() =~= added.take(i as int));
            assert(added.take(i + 1).last() == new_tags@[i as int]@);
        }
        if !has_tag(tags, &new_tags[i]) {
            let ghost old_tags = tags@;
            tags.push(new_tags[i].clone());
            assert(views(tags@) =~= views(old_tags).push(new_tags@[i as int]@));
        }
        i += 1;
    }
    proof {
        assert(added.take(i as int) =~= added);
    }
}

/// What adding new tags gives: the list stays free of duplicates, keeps what
/// it held in front, and holds besides exactly the tags added.
pub proof fn lemma_add_all_new(list: Seq<Seq<char>>, tags: Seq<Seq<char>>)
    requires
        list.no_duplicates(),
    ensures
        add_all_new(list, tags).no_duplicates(),
        list.len() <= add_all_new(list, tags).len(),
        add_all_new(list, tags).take(list.len() as int) == list,
        forall|tag: Seq<char>|
            add_all_new(list, tags).contains(tag) <==> (list.contains(tag) || tags.contains(tag)),
    decreases tags.len(),
{
    if tags.len() == 0 {
        assert(list.take(list.len() as int) =~= list);
    } else {
        let front = add_all_new(list, tags.drop_last());
        let last = tags.last();
        lemma_add_all_new(list, tags.drop_last());
        let all = add_all_new(list, tags);
        assert(all.take(list.len() as int) =~= front.take(list.len() as int));
        assert forall|tag: Seq<char>| all.contains(tag) <==> (list.contains(tag) || tags.contains(
            tag,
        )) by {
            if tags.contains(tag) {
                let i = choose|i: int| 0 <= i < tags.len() && tags[i] == tag;
                if i < tags.len() - 1 {
                    assert(tags.drop_last()[i] == tag);
                    assert(tags.drop_last().contains(tag));
                }
            }
            if tags.drop_last().contains(tag) {
                let i = choose|i: int| 0 <= i < tags.drop_last().len() && tags.drop_last()[i] == tag;
                assert(tags[i] == tag);
            }
            if front.contains(last) {
            } else {
                assert(all == front.push(last));
                assert(all[front.len() as int] == last);
                if front.contains(tag) {
                    let i = choose|i: int| 0 <= i < front.len() && front[i] == tag;
                    assert(all[i] == tag);
                }
                if all.contains(tag) {
                    let i = choose|i: int| 0 <= i < all.len() && all[i] == tag;
                    if i < front.len() {
                        assert(front[i] == tag);
                    } else {
                        assert(tag == tags[tags.len() - 1]);
                    }
                }
            }
        }
    }
}

} // verus!
