//! The making of a sitemap.

use vstd::prelude::*;
use markdown::mdast::Node;
use xml::writer::EventWriter;
use crate::common::{distinct_tags, first_failure, loaded, metadatas, newest, no_function,
    parse_blogs, RawPost, Source};
use crate::common::types::{views, BlogError, Failure, Metadata};
use crate::date::Date;
use crate::low::types::LowBlogEntry;
use crate::order::view_seq;
use crate::priority::{in_unit_interval, priority_in_range};
use crate::text::{concat3, is_digit, same_text};
use crate::types::{metadata_seq, Blog};
use super::document::{document_text, emit_end, emit_start, emit_start_with, emit_text, emitted,
    events_of, finish, lemma_nesting_push, lemma_well_nested_empty, lemma_well_nested_push, nesting,
    new_writer, read_events, well_nested, xml_events, Event, FragmentEvent, Token};
use super::types::{Settings, SitemapOptions};

verus! {

/// The namespace of sitemaps.
pub open spec fn sitemap_namespace() -> Seq<char> {
    "http://www.sitemaps.org/schemas/sitemap/0.9"@
}

/// The tokens of one record: a `url` element that holds `loc`, `lastmod`
/// and `priority`.
pub open spec fn url_tokens(loc: Seq<char>, lastmod: Seq<char>, priority: Seq<char>) -> Seq<
    Token,
> {
    seq![
        Token::Start("url"@),
        Token::Start("loc"@),
        Token::Text(loc),
        Token::End,
        Token::Start("lastmod"@),
        Token::Text(lastmod),
        Token::End,
        Token::Start("priority"@),
        Token::Text(priority),
        Token::End,
        Token::End,
    ]
}

/// The address of a page: the base, a slash, the root, a slash and the last
/// part.
pub open spec fn location(url_base: Seq<char>, root: Seq<char>, last: Seq<char>) -> Seq<char> {
    url_base + seq!['/'] + root + seq!['/'] + last
}

/// The priority of a post in the sitemap: its own, else the default.
pub open spec fn priority_of(metadata: Metadata, settings: Settings) -> Seq<char> {
    match metadata.priority {
        Some(p) => p,
        None => settings.default_priority,
    }
}

/// The record of a post: its address under the root of the blog, the day of
/// its last change as `DD-MM-YYYY`, and its priority.
pub open spec fn post_tokens(metadata: Metadata, url_base: Seq<char>, settings: Settings) -> Seq<
    Token,
> {
    url_tokens(
        location(url_base, settings.blog_root_slug, metadata.full_slug()),
        metadata.changed().dmy(),
        priority_of(metadata, settings),
    )
}

/// The records of the posts, in the order given.
pub open spec fn posts_tokens(posts: Seq<Metadata>, url_base: Seq<char>, settings: Settings) -> Seq<
    Token,
>
    decreases posts.len(),
{
    if posts.len() == 0 {
        Seq::empty()
    } else {
        posts_tokens(posts.drop_last(), url_base, settings) + post_tokens(
            posts.last(),
            url_base,
            settings,
        )
    }
}

/// The record of a tag page: its address under the root of the tags, the
/// day on which the sitemap is made, and the default priority.
pub open spec fn tag_tokens(
    tag: Seq<char>,
    url_base: Seq<char>,
    settings: Settings,
    today: Seq<char>,
) -> Seq<Token> {
    url_tokens(location(url_base, settings.tag_root_slug, tag), today, settings.default_priority)
}

/// The records of the tag pages, in the order given.
pub open spec fn tags_tokens(
    tags: Seq<Seq<char>>,
    url_base: Seq<char>,
    settings: Settings,
    today: Seq<char>,
) -> Seq<Token>
    decreases tags.len(),
{
    if tags.len() == 0 {
        Seq::empty()
    } else {
        tags_tokens(tags.drop_last(), url_base, settings, today) + tag_tokens(
            tags.last(),
            url_base,
            settings,
            today,
        )
    }
}

/// Whether one of the events is `Failed`.
pub open spec fn has_failure(events: Seq<Event>) -> bool
    decreases events.len(),
{
    if events.len() == 0 {
        false
    } else {
        has_failure(events.drop_last()) || events.last() is Failed
    }
}

/// What a sitemap that is merged in adds: every element but those named
/// `urlset`, with its text, up to the first failure.  An end that has no
/// start of its own to close is left out.
pub open spec fn spliced(events: Seq<Event>) -> Seq<Token>
    decreases events.len(),
{
    if events.len() == 0 {
        Seq::empty()
    } else {
        let front = spliced(events.drop_last());
        if has_failure(events.drop_last()) {
            front
        } else {
            match events.last() {
                Event::Start(name) => if name == "urlset"@ {
                    front
                } else {
                    front.push(Token::Start(name))
                },
                Event::Text(text) => front.push(Token::Text(text)),
                Event::End(name) => if name == "urlset"@ || nesting(front) <= 0 {
                    front
                } else {
                    front.push(Token::End)
                },
                Event::Other => front,
                Event::Failed => front,
            }
        }
    }
}

/// The tokens of a sitemap: the root `urlset` with its namespace, the
/// records of the posts, those of the tag pages where they are asked for and
/// a list of tags is given, what the merged sitemap adds, and the end of the
/// root.
pub open spec fn sitemap_tokens(
    posts: Seq<Metadata>,
    tags: Option<Seq<Seq<char>>>,
    url_base: Seq<char>,
    settings: Settings,
    today: Seq<char>,
    base_events: Seq<Event>,
) -> Seq<Token> {
    seq![Token::StartWith("urlset"@, "xmlns"@, sitemap_namespace())] + posts_tokens(
        posts,
        url_base,
        settings,
    ) + (match tags {
        Some(list) => if settings.include_tags {
            tags_tokens(list, url_base, settings, today)
        } else {
            Seq::empty()
        },
        None => Seq::empty(),
    }) + spliced(base_events) + seq![Token::End]
}

/// The first priority that is no number from 0 to 1: the default, else
/// that of the first post whose own is none.  `None` where every priority is
/// in range.
pub open spec fn first_bad_priority(posts: Seq<Metadata>, settings: Settings) -> Option<
    Seq<char>,
> {
    if !in_unit_interval(settings.default_priority) {
        Some(settings.default_priority)
    } else {
        first_bad_own_priority(posts)
    }
}

/// The first priority among those of the posts that is no number from 0 to
/// 1.
pub open spec fn first_bad_own_priority(posts: Seq<Metadata>) -> Option<Seq<char>>
    decreases posts.len(),
{
    if posts.len() == 0 {
        None
    } else {
        match first_bad_own_priority(posts.drop_last()) {
            Some(p) => Some(p),
            None => match posts.last().priority {
                Some(p) => if in_unit_interval(p) {
                    None
                } else {
                    Some(p)
                },
                None => None,
            },
        }
    }
}

/// Why a blog of the posts `sources` cannot be loaded: the failure of its
/// first failing post, else the first priority that is no number from 0 to
/// 1.  `None` where it can be loaded.
pub open spec fn blog_failure(sources: Seq<Source>, with_toc: bool, settings: Settings) -> Option<
    Failure,
> {
    match first_failure(sources, with_toc) {
        Some(failure) => Some(failure),
        None => match first_bad_priority(metadatas(newest(sources)), settings) {
            Some(p) => Some(Failure::PriorityOutOfRange(p)),
            None => None,
        },
    }
}

/// The events of the sitemap that the options name, none where they name
/// none.
pub open spec fn base_events(settings: Settings) -> Seq<Event> {
    match settings.sitemap_base {
        Some(text) => xml_events(text),
        None => Seq::empty(),
    }
}

/// The texts of an optional list of tags.
pub open spec fn tag_views(maybe_tags: Option<&Vec<String>>) -> Option<Seq<Seq<char>>> {
    match maybe_tags {
        Some(tags) => Some(views(tags@)),
        None => None,
    }
}

/// Once an event has failed, later events add nothing.
pub proof fn lemma_spliced_after_failure(events: Seq<Event>, k: int)
    requires
        0 <= k <= events.len(),
        has_failure(events.take(k)),
    ensures
        has_failure(events),
        spliced(events) == spliced(events.take(k)),
    decreases events.len() - k,
{
    if k == events.len() {
        assert(events.take(k) =~= events);
    } else {
        assert(events.take(k + 1).drop_last() =~= events.take(k));
        lemma_spliced_after_failure(events, k + 1);
    }
}

/// The tokens of a merged sitemap are well nested, and none of them starts
/// an element named `urlset`.
pub proof fn lemma_spliced_nested(events: Seq<Event>)
    ensures
        well_nested(spliced(events)),
        nesting(spliced(events)) >= 0,
        forall|i: int|
            0 <= i < spliced(events).len() ==> !starts_urlset(#[trigger] spliced(events)[i]),
    decreases events.len(),
{
    if events.len() == 0 {
        lemma_well_nested_empty();
    } else {
        let front = spliced(events.drop_last());
        lemma_spliced_nested(events.drop_last());
        if !has_failure(events.drop_last()) {
            match events.last() {
                Event::Start(name) => {
                    if name != "urlset"@ {
                        lemma_well_nested_push(front, Token::Start(name));
                    }
                },
                Event::Text(text) => {
                    lemma_well_nested_push(front, Token::Text(text));
                },
                Event::End(name) => {
                    if !(name == "urlset"@ || nesting(front) <= 0) {
                        lemma_well_nested_push(front, Token::End);
                    }
                },
                Event::Other => {},
                Event::Failed => {},
            }
        }
    }
}

/// Whether a token starts an element named `urlset`.
pub open spec fn starts_urlset(token: Token) -> bool {
    match token {
        Token::Start(name) => name == "urlset"@,
        Token::StartWith(name, _, _) => name == "urlset"@,
        _ => false,
    }
}

/// Writes one record.
fn write_url(w: &mut EventWriter<Vec<u8>>, loc: &str, lastmod: &str, priority: &str)
    requires
        well_nested(emitted(*old(w))),
        nesting(emitted(*old(w))) >= 0,
    ensures
        emitted(*final(w)) == emitted(*old(w)) + url_tokens(loc@, lastmod@, priority@),
        well_nested(emitted(*final(w))),
        nesting(emitted(*final(w))) == nesting(emitted(*old(w))),
{
    let ghost t0 = emitted(*w);
    emit_start(w, "url");
    proof {
        lemma_well_nested_push(t0, Token::Start("url"@));
    }
    let ghost t1 = emitted(*w);
    emit_start(w, "loc");
    proof {
        lemma_well_nested_push(t1, Token::Start("loc"@));
    }
    let ghost t2 = emitted(*w);
    emit_text(w, loc);
    proof {
        lemma_well_nested_push(t2, Token::Text(loc@));
    }
    let ghost t3 = emitted(*w);
    emit_end(w);
    proof {
        lemma_well_nested_push(t3, Token::End);
    }
    let ghost t4 = emitted(*w);
    emit_start(w, "lastmod");
    proof {
        lemma_well_nested_push(t4, Token::Start("lastmod"@));
    }
    let ghost t5 = emitted(*w);
    emit_text(w, lastmod);
    proof {
        lemma_well_nested_push(t5, Token::Text(lastmod@));
    }
    let ghost t6 = emitted(*w);
    emit_end(w);
    proof {
        lemma_well_nested_push(t6, Token::End);
    }
    let ghost t7 = emitted(*w);
    emit_start(w, "priority");
    proof {
        lemma_well_nested_push(t7, Token::Start("priority"@));
    }
    let ghost t8 = emitted(*w);
    emit_text(w, priority);
    proof {
        lemma_well_nested_push(t8, Token::Text(priority@));
    }
    let ghost t9 = emitted(*w);
    emit_end(w);
    proof {
        lemma_well_nested_push(t9, Token::End);
    }
    let ghost t10 = emitted(*w);
    emit_end(w);
    proof {
        lemma_well_nested_push(t10, Token::End);
        assert(emitted(*w) =~= t0 + url_tokens(loc@, lastmod@, priority@));
    }
}

/// Builds the address of a page.
fn make_location(url_base: &str, root: &str, last: &str) -> (r: String)
    ensures
        r@ == location(url_base@, root@, last@),
{
    proof {
        reveal_strlit("/");
        assert("/"@ =~= seq!['/']);
    }
    let front = concat3(url_base, "/", root);
    concat3(front.as_str(), "/", last)
}

/// Writes what a merged sitemap adds.
fn write_spliced(w: &mut EventWriter<Vec<u8>>, events: &Vec<FragmentEvent>)
    requires
        well_nested(emitted(*old(w))),
        nesting(emitted(*old(w))) >= 0,
    ensures
        emitted(*final(w)) == emitted(*old(w)) + spliced(events_of(events@)),
        well_nested(emitted(*final(w))),
        nesting(emitted(*final(w))) == nesting(emitted(*old(w))) + nesting(
            spliced(events_of(events@)),
        ),
        nesting(spliced(events_of(events@))) >= 0,
{
    let ghost start = emitted(*w);
    let ghost all = events_of(events@);
    let mut i: usize = 0;
    let mut depth: usize = 0;
    proof {
        assert(all.take(0) =~= Seq::<Event>::empty());
        assert(start + Seq::<Token>::empty() =~= start);
        lemma_spliced_nested(all);
    }
    while i < events.len()
        invariant
            i <= events.len(),
            depth <= i,
            depth == nesting(spliced(all.take(i as int))),
            start == emitted(*old(w)),
            all == events_of(events@),
            !has_failure(all.take(i as int)),
            emitted(*w) == start + spliced(all.take(i as int)),
            well_nested(emitted(*w)),
            nesting(emitted(*w)) == nesting(start) + nesting(spliced(all.take(i as int))),
            nesting(spliced(all.take(i as int))) >= 0,
            nesting(start) >= 0,
        decreases events.len() - i,
    {
        let ghost front = spliced(all.take(i as int));
        let ghost before = emitted(*w);
        proof {
            assert(all.take(i + 1).drop_last() =~= all.take(i as int));
            assert(all.take(i + 1).last() == events@[i as int]@);
            lemma_spliced_nested(all.take(i + 1));
        }
        match &events[i] {
            FragmentEvent::Start(name) => {
                if !same_text(name.as_str(), "urlset") {
                    emit_start(w, name.as_str());
                    depth += 1;
                    proof {
                        lemma_well_nested_push(before, Token::Start(name@));
                        lemma_nesting_push(front, Token::Start(name@));
                        assert(emitted(*w) =~= start + front.push(Token::Start(name@)));
                    }
                }
            },
            FragmentEvent::Text(text) => {
                emit_text(w, text.as_str());
                proof {
                    lemma_well_nested_push(before, Token::Text(text@));
                    lemma_nesting_push(front, Token::Text(text@));
                    assert(emitted(*w) =~= start + front.push(Token::Text(text@)));
                }
            },
            FragmentEvent::End(name) => {
                if !same_text(name.as_str(), "urlset") && depth > 0 {
                    emit_end(w);
                    depth -= 1;
                    proof {
                        lemma_well_nested_push(before, Token::End);
                        lemma_nesting_push(front, Token::End);
                        assert(emitted(*w) =~= start + front.push(Token::End));
                    }
                }
            },
            FragmentEvent::Other => {},
            FragmentEvent::Failed => {
                proof {
                    assert(all.take(i + 1).last() is Failed);
                    assert(has_failure(all.take(i + 1)));
                    assert(spliced(all.take(i + 1)) == front);
                    lemma_spliced_after_failure(all, i + 1);
                }
                return ;
            },
        }
        i += 1;
    }
    proof {
        assert(all.take(i as int) =~= all);
    }
}

/// A failure among the first posts is the failure of all.
pub proof fn lemma_first_bad_prefix(posts: Seq<Metadata>, k: int)
    requires
        0 <= k <= posts.len(),
        first_bad_own_priority(posts.take(k)) is Some,
    ensures
        first_bad_own_priority(posts) == first_bad_own_priority(posts.take(k)),
    decreases posts.len() - k,
{
    if k == posts.len() {
        assert(posts.take(k) =~= posts);
    } else {
        assert(posts.take(k + 1).drop_last() =~= posts.take(k));
        lemma_first_bad_prefix(posts, k + 1);
    }
}

/// Makes the sitemap of the given entries and tags for a given day and a
/// given sequence of events of the sitemap to merge in.
///
/// The entries are written in the order given.  Every priority, the default
/// and those of the entries, has to be a number from 0 to 1: the first that
/// is not fails the sitemap.  `options.sitemap_base` is not read here:
/// `base` holds its events.
pub fn assemble_sitemap<T: Blog>(
    entries: &Vec<T>,
    maybe_tags: Option<&Vec<String>>,
    url_base: &String,
    options: &SitemapOptions,
    today: &str,
    base: &Vec<FragmentEvent>,
) -> (r: Result<String, BlogError>)
    ensures
        match r {
            Ok(text) => {
                &&& first_bad_priority(metadata_seq(entries@), options@) is None
                &&& text@ == document_text(
                    sitemap_tokens(
                        metadata_seq(entries@),
                        tag_views(maybe_tags),
                        url_base@,
                        options@,
                        today@,
                        events_of(base@),
                    ),
                )
            },
            Err(e) => {
                &&& first_bad_priority(metadata_seq(entries@), options@) matches Some(p)
                &&& e@ == Failure::PriorityOutOfRange(p)
            },
        },
{
    let ghost posts = metadata_seq(entries@);
    let ghost settings = options@;
    if !priority_in_range(options.default_priority.as_str()) {
        return Err(BlogError::PriorityOutOfRange(options.default_priority.clone()));
    }
    let mut w = new_writer();
    proof {
        lemma_well_nested_empty();
        lemma_well_nested_push(
            emitted(w),
            Token::StartWith("urlset"@, "xmlns"@, sitemap_namespace()),
        );
    }
    emit_start_with(&mut w, "urlset", "xmlns", "http://www.sitemaps.org/schemas/sitemap/0.9");
    let ghost root = seq![Token::StartWith("urlset"@, "xmlns"@, sitemap_namespace())];
    proof {
        assert(emitted(w) =~= root);
        assert(posts.take(0) =~= Seq::<Metadata>::empty());
        assert(root + Seq::<Token>::empty() =~= root);
    }
    // The posts.
    let mut i: usize = 0;
    while i < entries.len()
        invariant
            i <= entries.len(),
            posts == metadata_seq(entries@),
            settings == options@,
            in_unit_interval(settings.default_priority),
            first_bad_own_priority(posts.take(i as int)) is None,
            emitted(w) == root + posts_tokens(posts.take(i as int), url_base@, settings),
            well_nested(emitted(w)),
            nesting(emitted(w)) == 1,
        decreases entries.len() - i,
    {
        let entry = &entries[i];
        let ghost before = emitted(w);
        proof {
            assert(posts.take(i + 1).drop_last() =~= posts.take(i as int));
            assert(posts.take(i + 1).last() == entry.metadata());
        }
        let slug = entry.get_full_slug();
        let loc = make_location(url_base.as_str(), options.blog_root_slug.as_str(), slug.as_str());
        let lastmod = match entry.get_last_modified() {
            Some(day) => day.to_dmy(),
            None => entry.get_date_listed().to_dmy(),
        };
        let priority = match entry.get_priority() {
            None => options.default_priority.clone(),
            Some(own) => {
                if !priority_in_range(own.as_str()) {
                    proof {
                        lemma_first_bad_prefix(posts, i + 1);
                    }
                    return Err(BlogError::PriorityOutOfRange(own));
                }
                own
            },
        };
        write_url(&mut w, loc.as_str(), lastmod.as_str(), priority.as_str());
        proof {
            assert(emitted(w) =~= root + posts_tokens(posts.take(i + 1), url_base@, settings));
        }
        i += 1;
    }
    proof {
        assert(posts.take(i as int) =~= posts);
    }
    let ghost with_posts = emitted(w);
    let ghost tag_part = match tag_views(maybe_tags) {
        Some(list) => if settings.include_tags {
            tags_tokens(list, url_base@, settings, today@)
        } else {
            Seq::empty()
        },
        None => Seq::empty(),
    };
    // The tag pages.
    match maybe_tags {
        Some(tags) => {
            if options.include_tags {
                let ghost list = views(tags@);
                let mut j: usize = 0;
                proof {
                    assert(list.take(0) =~= Seq::<Seq<char>>::empty());
                    assert(with_posts + Seq::<Token>::empty() =~= with_posts);
                }
                while j < tags.len()
                    invariant
                        j <= tags.len(),
                        list == views(tags@),
                        settings == options@,
                        emitted(w) == with_posts + tags_tokens(
                            list.take(j as int),
                            url_base@,
                            settings,
                            today@,
                        ),
                        well_nested(emitted(w)),
                        nesting(emitted(w)) == 1,
                    decreases tags.len() - j,
                {
                    proof {
                        assert(list.take(j + 1).drop_last() =~= list.take(j as int));
                        assert(list.take(j + 1).last() == tags@[j as int]@);
                    }
                    let loc = make_location(
                        url_base.as_str(),
                        options.tag_root_slug.as_str(),
                        tags[j].as_str(),
                    );
                    write_url(&mut w, loc.as_str(), today, options.default_priority.as_str());
                    proof {
                        assert(emitted(w) =~= with_posts + tags_tokens(
                            list.take(j + 1),
                            url_base@,
                            settings,
                            today@,
                        ));
                    }
                    j += 1;
                }
                proof {
                    assert(list.take(j as int) =~= list);
                }
            } else {
                proof {
                    assert(with_posts + Seq::<Token>::empty() =~= with_posts);
                }
            }
        },
        None => {
            proof {
                assert(with_posts + Seq::<Token>::empty() =~= with_posts);
            }
        },
    }
    assert(emitted(w) == with_posts + tag_part);
    // The sitemap that is merged in, and the end of the root.
    write_spliced(&mut w, base);
    let ghost open = emitted(w);
    emit_end(&mut w);
    proof {
        assert(emitted(w) =~= sitemap_tokens(
            posts,
            tag_views(maybe_tags),
            url_base@,
            settings,
            today@,
            events_of(base@),
        ));
    }
    Ok(finish(w))
}

/// Whether a text has the shape of a day in a sitemap: the day in two
/// digits, a hyphen, the month in two digits, a hyphen, and a year of four
/// characters or more.
pub open spec fn is_day_text(text: Seq<char>) -> bool {
    &&& text.len() >= 10
    &&& is_digit(text[0])
    &&& is_digit(text[1])
    &&& text[2] == '-'
    &&& is_digit(text[3])
    &&& is_digit(text[4])
    &&& text[5] == '-'
}

/// The text that a sitemap gives for a date has the shape of a day.
pub proof fn lemma_dmy_is_day_text(day: Date)
    requires
        day.valid(),
    ensures
        is_day_text(day.dmy()),
{
    crate::date::lemma_dmy_shape(day);
    assert(is_digit(day.dmy()[0]) && is_digit(day.dmy()[1]));
    assert(is_digit(day.dmy()[3]) && is_digit(day.dmy()[4]));
}

/// Trusted: `chrono::Utc::now`, the day of the moment of the call in UTC,
/// formatted by `NaiveDate::format` with the pattern `%d-%m-%Y`.  Which day
/// it is depends on the clock; of every day the pattern writes the day and
/// the month in two digits each and the year in four characters or more.
#[verifier::external_body]
fn today_dmy() -> (text: String)
    ensures
        is_day_text(text@),
{
    chrono::offset::Utc::now().date_naive().format("%d-%m-%Y").to_string()
}

/// Makes the sitemap of the given entries and tags.
///
/// Each entry gets a record with its address, `{url_base}/{blog root}/{full
/// slug}`, the day of its last change and its priority.  Where
/// `options.include_tags` is set and tags are given, each tag gets a record
/// with its address, `{url_base}/{tag root}/{tag}`, the day of the call and
/// the default priority.  Where `options.sitemap_base` holds a sitemap, its
/// elements, but for `urlset`, follow.
///
/// Parameters
///
/// - `entries`: the entries, in the order in which they are to be listed
/// - `maybe_tags`: the tags of the blog
/// - `url_base`: the URL of the site, such as `www.example.com`
/// - `options`: `SitemapOptions`
pub fn create_sitemap_inner<T: Blog>(
    entries: &Vec<T>,
    maybe_tags: Option<&Vec<String>>,
    url_base: &String,
    options: &SitemapOptions,
) -> (r: Result<String, BlogError>)
    ensures
        match r {
            Ok(text) => {
                &&& first_bad_priority(metadata_seq(entries@), options@) is None
                &&& exists|today: Seq<char>|
                    is_day_text(today) && text@ == document_text(
                        #[trigger] sitemap_tokens(
                            metadata_seq(entries@),
                            tag_views(maybe_tags),
                            url_base@,
                            options@,
                            today,
                            base_events(options@),
                        ),
                    )
            },
            Err(e) => {
                &&& first_bad_priority(metadata_seq(entries@), options@) matches Some(p)
                &&& e@ == Failure::PriorityOutOfRange(p)
            },
        },
{
    let today = today_dmy();
    let base = match &options.sitemap_base {
        Some(text) => read_events(text.as_str()),
        None => Vec::new(),
    };
    assert(events_of(base@) =~= base_events(options@));
    assemble_sitemap(entries, maybe_tags, url_base, options, today.as_str(), &base)
}

/// Makes the sitemap of a blog of which nothing is kept in memory.
///
/// Parameters
///
/// - `posts`: the posts as they were read from disk, in the order of
///   `get_blog_paths`
/// - `url_base`: the URL of the site, such as `www.example.com`
/// - `options`: `SitemapOptions`
///
/// The posts are listed in the order given, and then the tags.  A post
/// whose JSON file does not exist is left out; the first post that fails
/// otherwise fails the sitemap, and so does a priority that is no number
/// from 0 to 1.
pub fn create_sitemap(posts: Vec<RawPost>, url_base: &String, options: &SitemapOptions) -> (r:
    Result<String, BlogError>)
    ensures
        match r {
            Ok(text) => {
                &&& first_failure(view_seq(posts@), false) is None
                &&& first_bad_priority(metadatas(loaded(view_seq(posts@))), options@) is None
                &&& exists|today: Seq<char>|
                    is_day_text(today) && text@ == document_text(
                        #[trigger] sitemap_tokens(
                            metadatas(loaded(view_seq(posts@))),
                            Some(distinct_tags(loaded(view_seq(posts@)))),
                            url_base@,
                            options@,
                            today,
                            base_events(options@),
                        ),
                    )
            },
            Err(e) => match first_failure(view_seq(posts@), false) {
                Some(failure) => e@ == failure,
                None => {
                    &&& first_bad_priority(
                        metadatas(loaded(view_seq(posts@))),
                        options@,
                    ) matches Some(p)
                    &&& e@ == Failure::PriorityOutOfRange(p)
                },
            },
        },
{
    let unused = |tree: &Node| -> (text: String) { String::new() };
    let (entries, tags) = match parse_blogs::<LowBlogEntry, _>(posts, no_function(&unused), None) {
        Ok(x) => x,
        Err(y) => {
            return Err(y);
        },
    };
    assert(metadata_seq(entries@) =~= metadatas(loaded(view_seq(posts@))));
    create_sitemap_inner(&entries, Some(&tags), url_base, options)
}

/// The number of tokens that start an element named `urlset`.
pub open spec fn urlset_starts(tokens: Seq<Token>) -> nat
    decreases tokens.len(),
{
    if tokens.len() == 0 {
        0
    } else if starts_urlset(tokens.last()) {
        urlset_starts(tokens.drop_last()) + 1
    } else {
        urlset_starts(tokens.drop_last())
    }
}

/// Whether `part` stands in `whole` in one piece.
pub open spec fn is_block_of(part: Seq<Token>, whole: Seq<Token>) -> bool {
    exists|k: int| 0 <= k && k + part.len() <= whole.len() && #[trigger] whole.subrange(
        k,
        k + part.len(),
    ) == part
}

/// The starts of `urlset` in two sequences of tokens, one after the other,
/// are those of both.
pub proof fn lemma_urlset_starts_add(a: Seq<Token>, b: Seq<Token>)
    ensures
        urlset_starts(a + b) == urlset_starts(a) + urlset_starts(b),
    decreases b.len(),
{
    if b.len() == 0 {
        assert(a + b =~= a);
    } else {
        lemma_urlset_starts_add(a, b.drop_last());
        assert((a + b).drop_last() =~= a + b.drop_last());
        assert((a + b).last() == b.last());
    }
}

/// Tokens of which none starts `urlset` hold no start of `urlset`.
pub proof fn lemma_no_urlset_starts(tokens: Seq<Token>)
    requires
        forall|i: int| 0 <= i < tokens.len() ==> !starts_urlset(#[trigger] tokens[i]),
    ensures
        urlset_starts(tokens) == 0,
    decreases tokens.len(),
{
    if tokens.len() > 0 {
        assert forall|i: int| 0 <= i < tokens.drop_last().len() implies !starts_urlset(
            #[trigger] tokens.drop_last()[i],
        ) by {
            assert(tokens.drop_last()[i] == tokens[i]);
        }
        lemma_no_urlset_starts(tokens.drop_last());
        assert(!starts_urlset(tokens[tokens.len() - 1]));
    }
}

/// A record has eleven tokens, opens and closes as many elements, and
/// starts no `urlset`.
pub proof fn lemma_url_tokens(loc: Seq<char>, lastmod: Seq<char>, priority: Seq<char>)
    ensures
        url_tokens(loc, lastmod, priority).len() == 11,
        nesting(url_tokens(loc, lastmod, priority)) == 0,
        urlset_starts(url_tokens(loc, lastmod, priority)) == 0,
{
    let t = url_tokens(loc, lastmod, priority);
    reveal_strlit("url");
    reveal_strlit("loc");
    reveal_strlit("lastmod");
    reveal_strlit("priority");
    reveal_strlit("urlset");
    assert("url"@.len() != "urlset"@.len());
    assert("loc"@.len() != "urlset"@.len());
    assert("lastmod"@.len() != "urlset"@.len());
    assert("priority"@.len() != "urlset"@.len());
    lemma_no_urlset_starts(t);
    reveal_with_fuel(nesting, 12);
    assert(t.take(11) =~= t);
    assert(nesting(t) == 0) by {
        let t10 = t.drop_last();
        let t9 = t10.drop_last();
        let t8 = t9.drop_last();
        let t7 = t8.drop_last();
        let t6 = t7.drop_last();
        let t5 = t6.drop_last();
        let t4 = t5.drop_last();
        let t3 = t4.drop_last();
        let t2 = t3.drop_last();
        let t1 = t2.drop_last();
        let t0 = t1.drop_last();
        assert(t0.len() == 0);
        assert(nesting(t1) == 1);
        assert(nesting(t2) == 2);
        assert(nesting(t3) == 2);
        assert(nesting(t4) == 1);
        assert(nesting(t5) == 2);
        assert(nesting(t6) == 2);
        assert(nesting(t7) == 1);
        assert(nesting(t8) == 2);
        assert(nesting(t9) == 2);
        assert(nesting(t10) == 1);
    }
}

/// The records of the posts: eleven tokens each, the record of each post in
/// its place, all elements closed, no `urlset` started.
pub proof fn lemma_posts_tokens(posts: Seq<Metadata>, url_base: Seq<char>, settings: Settings)
    ensures
        posts_tokens(posts, url_base, settings).len() == 11 * posts.len(),
        nesting(posts_tokens(posts, url_base, settings)) == 0,
        urlset_starts(posts_tokens(posts, url_base, settings)) == 0,
        forall|i: int|
            0 <= i < posts.len() ==> #[trigger] posts_tokens(posts, url_base, settings).subrange(
                11 * i,
                11 * i + 11,
            ) == post_tokens(posts[i], url_base, settings),
    decreases posts.len(),
{
    if posts.len() > 0 {
        let front = posts_tokens(posts.drop_last(), url_base, settings);
        let last = post_tokens(posts.last(), url_base, settings);
        lemma_posts_tokens(posts.drop_last(), url_base, settings);
        lemma_url_tokens(
            location(url_base, settings.blog_root_slug, posts.last().full_slug()),
            posts.last().changed().dmy(),
            priority_of(posts.last(), settings),
        );
        crate::sitemap::document::lemma_nesting_add(front, last);
        lemma_urlset_starts_add(front, last);
        let all = posts_tokens(posts, url_base, settings);
        assert forall|i: int| 0 <= i < posts.len() implies #[trigger] all.subrange(
            11 * i,
            11 * i + 11,
        ) == post_tokens(posts[i], url_base, settings) by {
            if i < posts.len() - 1 {
                assert(all.subrange(11 * i, 11 * i + 11) =~= front.subrange(11 * i, 11 * i + 11));
                assert(posts.drop_last()[i] == posts[i]);
            } else {
                assert(all.subrange(11 * i, 11 * i + 11) =~= last);
            }
        }
    }
}

/// The records of the tag pages close all their elements and start no
/// `urlset`.
pub proof fn lemma_tags_tokens(
    tags: Seq<Seq<char>>,
    url_base: Seq<char>,
    settings: Settings,
    today: Seq<char>,
)
    ensures
        tags_tokens(tags, url_base, settings, today).len() == 11 * tags.len(),
        nesting(tags_tokens(tags, url_base, settings, today)) == 0,
        urlset_starts(tags_tokens(tags, url_base, settings, today)) == 0,
    decreases tags.len(),
{
    if tags.len() > 0 {
        let front = tags_tokens(tags.drop_last(), url_base, settings, today);
        let last = tag_tokens(tags.last(), url_base, settings, today);
        lemma_tags_tokens(tags.drop_last(), url_base, settings, today);
        lemma_url_tokens(
            location(url_base, settings.tag_root_slug, tags.last()),
            today,
            settings.default_priority,
        );
        crate::sitemap::document::lemma_nesting_add(front, last);
        lemma_urlset_starts_add(front, last);
    }
}

/// The shape of a sitemap: it starts `urlset` once, as its first token, and
/// ends with an end; it holds the record of every post and what the merged
/// sitemap adds, each in one piece; and it leaves open only what the merged
/// sitemap leaves open.
pub proof fn lemma_sitemap_shape(
    posts: Seq<Metadata>,
    tags: Option<Seq<Seq<char>>>,
    url_base: Seq<char>,
    settings: Settings,
    today: Seq<char>,
    events: Seq<Event>,
)
    ensures
        ({
            let tokens = sitemap_tokens(posts, tags, url_base, settings, today, events);
            &&& urlset_starts(tokens) == 1
            &&& starts_urlset(tokens.first())
            &&& tokens.last() == Token::End
            &&& nesting(tokens) == nesting(spliced(events))
            &&& nesting(spliced(events)) >= 0
            &&& is_block_of(spliced(events), tokens)
            &&& forall|i: int|
                0 <= i < posts.len() ==> is_block_of(
                    #[trigger] post_tokens(posts[i], url_base, settings),
                    tokens,
                )
        }),
{
    let root = seq![Token::StartWith("urlset"@, "xmlns"@, sitemap_namespace())];
    let records = posts_tokens(posts, url_base, settings);
    let pages = match tags {
        Some(list) => if settings.include_tags {
            tags_tokens(list, url_base, settings, today)
        } else {
            Seq::empty()
        },
        None => Seq::empty(),
    };
    let merged = spliced(events);
    let end = seq![Token::End];
    let tokens = sitemap_tokens(posts, tags, url_base, settings, today, events);
    assert(tokens == root + records + pages + merged + end);
    lemma_posts_tokens(posts, url_base, settings);
    match tags {
        Some(list) => {
            lemma_tags_tokens(list, url_base, settings, today);
        },
        None => {},
    }
    lemma_spliced_nested(events);
    lemma_no_urlset_starts(merged);
    assert(urlset_starts(root) == 1 && nesting(root) == 1) by {
        assert(root.len() == 1);
        assert(root.drop_last() =~= Seq::<Token>::empty());
        assert(root.last() == Token::StartWith("urlset"@, "xmlns"@, sitemap_namespace()));
        assert(starts_urlset(root.last()));
        assert(urlset_starts(root.drop_last()) == 0);
        assert(nesting(root.drop_last()) == 0);
    }
    assert(urlset_starts(end) == 0 && nesting(end) == -1) by {
        assert(end.len() == 1);
        assert(end.drop_last() =~= Seq::<Token>::empty());
        assert(end.last() == Token::End);
        assert(urlset_starts(end.drop_last()) == 0);
        assert(nesting(end.drop_last()) == 0);
    }
    assert(urlset_starts(Seq::<Token>::empty()) == 0 && nesting(Seq::<Token>::empty()) == 0);
    lemma_urlset_starts_add(root, records);
    lemma_urlset_starts_add(root + records, pages);
    lemma_urlset_starts_add(root + records + pages, merged);
    lemma_urlset_starts_add(root + records + pages + merged, end);
    crate::sitemap::document::lemma_nesting_add(root, records);
    crate::sitemap::document::lemma_nesting_add(root + records, pages);
    crate::sitemap::document::lemma_nesting_add(root + records + pages, merged);
    crate::sitemap::document::lemma_nesting_add(root + records + pages + merged, end);
    assert(tokens.first() == root[0]);
    let at = (1 + records.len() + pages.len()) as int;
    assert(tokens.subrange(at, at + merged.len()) =~= merged);
    assert forall|i: int| 0 <= i < posts.len() implies is_block_of(
        #[trigger] post_tokens(posts[i], url_base, settings),
        tokens,
    ) by {
        let record = post_tokens(posts[i], url_base, settings);
        assert(records.subrange(11 * i, 11 * i + 11) == record);
        assert(record.len() == 11);
        assert(tokens.subrange(1 + 11 * i, 1 + 11 * i + 11) =~= record);
    }
}

} // verus!
