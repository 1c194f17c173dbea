//! The files of a blog: which of them are posts, the names of the files that
//! belong to a post, and the order in which the posts are read.

use vstd::prelude::*;
use crate::common::types::{views, BlogError, Failure};
use crate::order::{lemma_next_item, lemma_sorted_in_order, lemma_sorted_len, lemma_sorted_permutes,
    lemma_sorted_values, ranked_order, sort_ranked, sorted_by, view_seq, Pending, Ranked};
use crate::text::{char_count, concat2, find_last_char, from_chars, last_index_of,
    lemma_last_index_is, lemma_lex_less_asymmetric, lemma_lex_less_total,
    lemma_lex_less_transitive, lex_less, same_text, text_less, to_chars};

verus! {

/// The stem of a file name: what stands before its last `.`, the whole
/// name where it holds none.
pub open spec fn file_stem(name: Seq<char>) -> Seq<char> {
    if last_index_of(name, '.') < 0 {
        name
    } else {
        name.take(last_index_of(name, '.'))
    }
}

/// The extension of a file name: its last `.` and what stands behind it,
/// nothing where it holds no `.`.
pub open spec fn file_extension(name: Seq<char>) -> Seq<char> {
    if last_index_of(name, '.') < 0 {
        Seq::empty()
    } else {
        name.skip(last_index_of(name, '.'))
    }
}

/// The name of the JSON file that belongs to a file: its stem and `.json`.
pub open spec fn sidecar_name(name: Seq<char>) -> Seq<char> {
    file_stem(name) + ".json"@
}

/// The name of the Markdown file that belongs to a file: its stem and `.md`.
pub open spec fn content_name(name: Seq<char>) -> Seq<char> {
    file_stem(name) + ".md"@
}

/// Whether a file name is that of a post: a stem followed by `.md` or by
/// `.html`.
pub open spec fn is_source_name(name: Seq<char>) -> bool {
    &&& file_stem(name).len() > 0
    &&& (file_extension(name) == ".md"@ || file_extension(name) == ".html"@)
}

/// Whether a file name is that of a JSON file: a stem followed by `.json`.
pub open spec fn is_sidecar_name(name: Seq<char>) -> bool {
    &&& file_stem(name).len() > 0
    &&& file_extension(name) == ".json"@
}

/// A file name in its two parts.
pub struct NameParts {
    /// What stands before the last `.`.
    pub stem: String,
    /// The last `.` and what stands behind it.
    pub extension: String,
}

/// Cuts a file name into its stem and its extension.
pub fn split_name(file_name: &str) -> (r: NameParts)
    ensures
        r.stem@ == file_stem(file_name@),
        r.extension@ == file_extension(file_name@),
{
    let chars = to_chars(file_name);
    match find_last_char(&chars, '.') {
        Some(dot) => {
            let stem = from_chars(&chars, 0, dot);
            let extension = from_chars(&chars, dot, chars.len());
            assert(chars@.subrange(0, dot as int) =~= file_stem(file_name@));
            assert(chars@.subrange(dot as int, chars.len() as int) =~= file_extension(
                file_name@,
            ));
            NameParts { stem, extension }
        },
        None => NameParts { stem: file_name.to_string(), extension: String::new() },
    }
}

/// The stem of a file name, followed by an extension.
fn with_extension(file_name: &str, extension: &str) -> (r: Result<String, BlogError>)
    ensures
        match r {
            Ok(s) => file_stem(file_name@).len() > 0 && s@ == file_stem(file_name@) + extension@,
            Err(e) => file_stem(file_name@).len() == 0 && e@ == Failure::ImproperFileName(
                file_name@,
            ),
        },
{
    let parts = split_name(file_name);
    if char_count(parts.stem.as_str()) == 0 {
        return Err(BlogError::ImproperFileName(file_name.to_string()));
    }
    Ok(concat2(parts.stem.as_str(), extension))
}

/// The name of the JSON file with the metadata of a post: the name of the
/// post with `.json` in place of its extension.  It stands in the same
/// directory as the post.  A name without a stem is refused.
pub fn sidecar_file_name(file_name: &str) -> (r: Result<String, BlogError>)
    ensures
        match r {
            Ok(s) => file_stem(file_name@).len() > 0 && s@ == sidecar_name(file_name@),
            Err(e) => file_stem(file_name@).len() == 0 && e@ == Failure::ImproperFileName(
                file_name@,
            ),
        },
{
    with_extension(file_name, ".json")
}

/// The name of the Markdown file of a post, given the name of one of its
/// files: that name with `.md` in place of its extension.  A name without a
/// stem is refused.
pub fn content_file_name(file_name: &str) -> (r: Result<String, BlogError>)
    ensures
        match r {
            Ok(s) => file_stem(file_name@).len() > 0 && s@ == content_name(file_name@),
            Err(e) => file_stem(file_name@).len() == 0 && e@ == Failure::ImproperFileName(
                file_name@,
            ),
        },
{
    with_extension(file_name, ".md")
}

/// Whether a file of the given name is a post.
pub fn source_name(name: &str) -> (b: bool)
    ensures
        b == is_source_name(name@),
{
    let parts = split_name(name);
    char_count(parts.stem.as_str()) > 0 && (same_text(parts.extension.as_str(), ".md")
        || same_text(parts.extension.as_str(), ".html"))
}

/// Whether a file of the given name is a JSON file.
pub fn sidecar(name: &str) -> (b: bool)
    ensures
        b == is_sidecar_name(name@),
{
    let parts = split_name(name);
    char_count(parts.stem.as_str()) > 0 && same_text(parts.extension.as_str(), ".json")
}

/// A stem that holds no `.`, followed by `.` and an extension that holds no
/// `.`, is a name with that stem and that extension.
pub proof fn lemma_name_of_parts(stem: Seq<char>, rest: Seq<char>)
    requires
        forall|i: int| 0 <= i < rest.len() ==> rest[i] != '.',
    ensures
        file_stem(stem + seq!['.'] + rest) == stem,
        file_extension(stem + seq!['.'] + rest) == seq!['.'] + rest,
{
    let name = stem + seq!['.'] + rest;
    lemma_last_index_is(name, '.', stem.len() as int);
    assert(name.take(stem.len() as int) =~= stem);
    assert(name.skip(stem.len() as int) =~= seq!['.'] + rest);
}

/// The JSON file and the Markdown file of a post share the stem of the
/// post, and are a JSON file and a post by their names.
pub proof fn lemma_paired_names(name: Seq<char>)
    requires
        file_stem(name).len() > 0,
    ensures
        file_stem(sidecar_name(name)) == file_stem(name),
        file_stem(content_name(name)) == file_stem(name),
        is_sidecar_name(sidecar_name(name)),
        is_source_name(content_name(name)),
        sidecar_name(content_name(name)) == sidecar_name(name),
        content_name(sidecar_name(name)) == content_name(name),
{
    reveal_strlit(".json");
    reveal_strlit(".md");
    let stem = file_stem(name);
    assert(".json"@ =~= seq!['.'] + seq!['j', 's', 'o', 'n']);
    assert(".md"@ =~= seq!['.'] + seq!['m', 'd']);
    lemma_name_of_parts(stem, seq!['j', 's', 'o', 'n']);
    lemma_name_of_parts(stem, seq!['m', 'd']);
    assert(sidecar_name(name) =~= stem + seq!['.'] + seq!['j', 's', 'o', 'n']);
    assert(content_name(name) =~= stem + seq!['.'] + seq!['m', 'd']);
}

/// What was found under the root of the blog: a file or a directory.
pub struct FoundFile {
    /// The whole path.
    pub path: String,
    /// The name, the last part of the path.
    pub name: String,
    /// Whether it is a file, and no directory.
    pub is_file: bool,
}

/// The mathematical value of a `FoundFile`.
pub struct Found {
    pub path: Seq<char>,
    pub name: Seq<char>,
    pub is_file: bool,
}

impl View for FoundFile {
    type V = Found;

    open spec fn view(&self) -> Found {
        Found { path: self.path@, name: self.name@, is_file: self.is_file }
    }
}

/// Whether what was found is a post: a file whose name is that of a post.
pub open spec fn is_post(found: Found) -> bool {
    found.is_file && is_source_name(found.name)
}

impl Ranked for FoundFile {
    /// A file stands before those whose path is smaller.
    open spec fn before(&self, other: &Self) -> bool {
        lex_less(other.path@, self.path@)
    }

    fn stands_before(&self, other: &Self) -> (b: bool) {
        text_less(other.path.as_str(), self.path.as_str())
    }
}

/// The path of a file.
pub open spec fn path_of() -> spec_fn(FoundFile) -> Seq<char> {
    |f: FoundFile| f.path@
}

/// The order of paths from the largest to the smallest.
pub open spec fn descending() -> spec_fn(Seq<char>, Seq<char>) -> bool {
    |a: Seq<char>, b: Seq<char>| lex_less(b, a)
}

/// The paths of the posts among what was found, in the order given.
pub open spec fn source_paths(found: Seq<Found>) -> Seq<Seq<char>>
    decreases found.len(),
{
    if found.len() == 0 {
        Seq::empty()
    } else if is_post(found.last()) {
        source_paths(found.drop_last()).push(found.last().path)
    } else {
        source_paths(found.drop_last())
    }
}

/// The paths of the posts among what was found under the root of the blog:
/// those of the files whose name ends with `.md` or `.html`, from the
/// lexicographically largest path to the smallest.  Directories and JSON
/// files are never among them.
///
/// Posts lie in directories named by year and date, so this order is close
/// to the order from the newest to the oldest.
pub fn get_blog_paths(found: Vec<FoundFile>) -> (paths: Vec<String>)
    ensures
        views(paths@) == sorted_by(source_paths(view_seq(found@)), descending()),
{
    let ghost all = view_seq(found@);
    let mut rest = Pending::new(found);
    let mut posts: Vec<FoundFile> = Vec::new();
    let ghost mut taken: int = 0;
    proof {
        assert(all.take(0) =~= Seq::<Found>::empty());
        assert(posts@.map_values(path_of()) =~= Seq::<Seq<char>>::empty());
    }
    while !rest.is_empty()
        invariant
            0 <= taken <= all.len(),
            view_seq(rest@) == all.skip(taken),
            posts@.map_values(path_of()) == source_paths(all.take(taken)),
        decreases rest@.len(),
    {
        let ghost before = rest@;
        let file = rest.next();
        proof {
            lemma_next_item(before, rest@, file, all, taken);
        }
        if file.is_file && source_name(file.name.as_str()) {
            let ghost old_posts = posts@;
            posts.push(file);
            proof {
                assert(posts@.map_values(path_of()) =~= old_posts.map_values(path_of()).push(
                    file.path@,
                ));
            }
        }
        proof {
            taken = taken + 1;
        }
    }
    proof {
        assert(all.take(taken) =~= all);
    }
    let ghost unsorted = posts@;
    let sorted = sort_ranked(posts);
    proof {
        lemma_sorted_values(unsorted, path_of(), ranked_order::<FoundFile>(), descending());
        lemma_sorted_len(unsorted, ranked_order::<FoundFile>());
    }
    let mut paths: Vec<String> = Vec::new();
    let mut rest = Pending::new(sorted);
    let ghost ordered = rest@;
    let ghost mut moved: int = 0;
    proof {
        assert(ordered.skip(0) =~= ordered);
    }
    while !rest.is_empty()
        invariant
            0 <= moved <= ordered.len(),
            rest@ == ordered.skip(moved),
            views(paths@) == ordered.take(moved).map_values(path_of()),
        decreases rest@.len(),
    {
        let file = rest.next();
        let ghost old_paths = paths@;
        paths.push(file.path);
        proof {
            assert(file == ordered[moved]);
            assert(rest@ =~= ordered.skip(moved + 1));
            let target = ordered.take(moved + 1).map_values(path_of());
            assert(paths@.len() == moved + 1) by {
                assert(views(old_paths).len() == old_paths.len());
            }
            assert forall|k: int| 0 <= k < moved + 1 implies views(paths@)[k] == target[k] by {
                assert(views(paths@)[k] == paths@[k]@);
                assert(target[k] == ordered[k].path@);
                if k < moved {
                    assert(paths@[k] == old_paths[k]);
                    assert(views(old_paths)[k] == old_paths[k]@);
                    assert(ordered.take(moved).map_values(path_of())[k] == ordered[k].path@);
                }
            }
            assert(views(paths@) =~= target);
            moved = moved + 1;
        }
    }
    proof {
        assert(ordered.take(moved) =~= ordered);
    }
    paths
}

/// A post is no JSON file: no name is that of a post and that of a JSON
/// file.
pub proof fn lemma_post_is_no_sidecar(name: Seq<char>)
    ensures
        !(is_source_name(name) && is_sidecar_name(name)),
{
    reveal_strlit(".json");
    reveal_strlit(".md");
    reveal_strlit(".html");
    assert(".md"@.len() != ".json"@.len());
    assert(".html"@[1] != ".json"@[1]);
}

/// The paths of the posts are exactly the paths of what was found and is a
/// post: a file whose name ends with `.md` or `.html`.
pub proof fn lemma_source_paths(found: Seq<Found>)
    ensures
        forall|path: Seq<char>|
            source_paths(found).contains(path) <==> exists|i: int|
                0 <= i < found.len() && is_post(#[trigger] found[i]) && found[i].path == path,
    decreases found.len(),
{
    if found.len() == 0 {
        assert forall|path: Seq<char>| !source_paths(found).contains(path) by {}
    } else {
        let front = found.drop_last();
        let last = found.last();
        lemma_source_paths(front);
        assert forall|path: Seq<char>|
            source_paths(found).contains(path) <==> exists|i: int|
                0 <= i < found.len() && is_post(#[trigger] found[i]) && found[i].path
                    == path by {
            let all = source_paths(found);
            let before = source_paths(front);
            if before.contains(path) {
                let i = choose|i: int|
                    0 <= i < front.len() && is_post(#[trigger] front[i]) && front[i].path == path;
                assert(found[i] == front[i]);
                let k = choose|k: int| 0 <= k < before.len() && before[k] == path;
                assert(all[k] == path);
            }
            if is_post(last) && last.path == path {
                assert(found[found.len() - 1] == last);
                assert(all[before.len() as int] == path);
            }
            if all.contains(path) {
                let k = choose|k: int| 0 <= k < all.len() && all[k] == path;
                if k < before.len() {
                    assert(before[k] == path);
                } else {
                    assert(is_post(last) && last.path == path);
                    assert(is_post(found[found.len() - 1]));
                }
            }
            if exists|i: int|
                0 <= i < found.len() && is_post(#[trigger] found[i]) && found[i].path == path {
                let i = choose|i: int|
                    0 <= i < found.len() && is_post(#[trigger] found[i]) && found[i].path
                        == path;
                if i < front.len() {
                    assert(front[i] == found[i]);
                    assert(is_post(front[i]) && front[i].path == path);
                }
            }
        }
    }
}

/// What `get_blog_paths` gives: the paths of the posts, each as often as it
/// was found, and each path before those that are smaller or the same.
pub proof fn lemma_blog_paths(found: Seq<Found>)
    ensures
        ({
            let paths = sorted_by(source_paths(found), descending());
            &&& paths.len() == source_paths(found).len()
            &&& paths.to_multiset() == source_paths(found).to_multiset()
            &&& forall|i: int, j: int|
                0 <= i < j < paths.len() ==> (#[trigger] paths[i] == #[trigger] paths[j]
                    || lex_less(paths[j], paths[i]))
        }),
{
    let order = descending();
    let any = |path: Seq<char>| true;
    assert forall|a: Seq<char>, b: Seq<char>| #[trigger] order(a, b) implies !order(b, a) by {
        lemma_lex_less_asymmetric(a, b);
    }
    assert forall|a: Seq<char>, b: Seq<char>, c: Seq<char>| #[trigger]
        order(a, b) && #[trigger] order(b, c) implies order(a, c) by {
        lemma_lex_less_transitive(c, b, a);
    }
    lemma_sorted_len(source_paths(found), order);
    lemma_sorted_permutes(source_paths(found), order);
    lemma_sorted_in_order(source_paths(found), order, any);
    let paths = sorted_by(source_paths(found), order);
    assert forall|i: int, j: int| 0 <= i < j < paths.len() implies (#[trigger] paths[i]
        == #[trigger] paths[j] || lex_less(paths[j], paths[i])) by {
        lemma_lex_less_total(paths[i], paths[j]);
        assert(!order(paths[j], paths[i]));
    }
}

} // verus!
