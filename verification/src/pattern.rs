//! Plain substring matching of file names: case-sensitive, no wildcards.

use rayon::iter::{IntoParallelRefIterator, ParallelIterator};
use vstd::prelude::*;
use vstd::std_specs::iter::IteratorSpec;
use crate::text::texts;
use crate::tree::{EnumerationError, FileEntry, FsNode, leaves};
use crate::walker::{ActiveTaskCounter, find_directories_for_path};

verus! {

/// `term` stands in `text` from position `i` on.
pub open spec fn occurs_at(text: Seq<char>, term: Seq<char>, i: int) -> bool {
    &&& 0 <= i
    &&& i + term.len() <= text.len()
    &&& text.subrange(i, i + term.len()) == term
}

/// `term` stands somewhere in `text`, character for character.
pub open spec fn contains_term(text: Seq<char>, term: Seq<char>) -> bool {
    exists|i: int| occurs_at(text, term, i)
}

/// The characters of `s`, one by one.
pub fn chars_of(s: &str) -> (chars: Vec<char>)
    ensures
        chars@ == s@,
{
    broadcast use vstd::string::group_string_axioms;

    let mut chars: Vec<char> = Vec::new();
    let mut it = s.chars();
    loop
        invariant
            chars@ + it.remaining() == s@,
            it.obeys_prophetic_iter_laws(),
            it.decrease() is Some,
        decreases it.decrease()->0,
    {
        let ghost before = it.remaining();
        match it.next() {
            Some(c) => {
                chars.push(c);
                assert(chars@ + it.remaining() == (chars@.drop_last() + before));
            },
            None => {
                assert(it.remaining().len() == 0);
                assert(chars@ + it.remaining() == chars@);
                return chars;
            },
        }
    }
}

/// Whether `term` stands in `text` from position `i` on.
pub fn matches_at(text: &Vec<char>, term: &Vec<char>, i: usize) -> (hit: bool)
    requires
        i + term.len() <= text.len(),
    ensures
        hit == occurs_at(text@, term@, i as int),
{
    let mut k: usize = 0;
    while k < term.len()
        invariant
            k <= term.len(),
            i + term.len() <= text.len(),
            forall|q: int| 0 <= q < k ==> text@[i + q] == term@[q],
        decreases term.len() - k,
    {
        if text[i + k] != term[k] {
            assert(text@.subrange(i as int, i + term.len())[k as int] != term@[k as int]);
            return false;
        }
        k = k + 1;
    }
    assert(text@.subrange(i as int, i + term.len()) =~= term@);
    true
}

/// Whether `name` holds `term` as a substring. The empty term is found in
/// every name.
pub fn name_contains(name: &str, term: &str) -> (found: bool)
    ensures
        found == contains_term(name@, term@),
{
    let text = chars_of(name);
    let pat = chars_of(term);
    if pat.len() == 0 {
        assert(occurs_at(text@, pat@, 0)) by {
            assert(text@.subrange(0, 0) =~= pat@);
        }
        return true;
    }
    if pat.len() > text.len() {
        return false;
    }
    let last: usize = text.len() - pat.len();
    let mut i: usize = 0;
    while i <= last
        invariant
            i <= last + 1,
            last == text.len() - pat.len(),
            pat.len() > 0,
            text@ == name@,
            pat@ == term@,
            forall|q: int| 0 <= q < i ==> !occurs_at(text@, pat@, q),
        decreases last + 1 - i,
    {
        if matches_at(&text, &pat, i) {
            return true;
        }
        i = i + 1;
    }
    false
}

/// A search for files by name.
pub struct GrepRequest<'a> {
    /// The directory at which the search starts.
    pub path: &'a str,
    /// What a file's name must hold.
    pub search_term: &'a str,
    /// Report the path of a match rather than its bare name.
    pub show_full_path: bool,
}

/// What is reported for a file that matches.
pub open spec fn reported(entry: FileEntry, show_full_path: bool) -> Seq<char> {
    if show_full_path {
        entry.path@
    } else {
        entry.name@
    }
}

/// The reports for those of `files` whose name holds `term`, in the order
/// of `files`.
pub open spec fn matches_among(files: Seq<FileEntry>, term: Seq<char>, show_full_path: bool) -> Seq<
    Seq<char>,
>
    decreases files.len(),
{
    if files.len() == 0 {
        Seq::empty()
    } else if contains_term(files.last().name@, term) {
        matches_among(files.drop_last(), term, show_full_path).push(
            reported(files.last(), show_full_path),
        )
    } else {
        matches_among(files.drop_last(), term, show_full_path)
    }
}

/// The report for `entry` if its name holds `term`.
pub fn match_entry(entry: &FileEntry, term: &str, show_full_path: bool) -> (hit: Option<String>)
    ensures
        hit is Some <==> contains_term(entry.name@, term@),
        hit is Some ==> hit->0@ == reported(*entry, show_full_path),
{
    if name_contains(entry.name.as_str(), term) {
        if show_full_path {
            Some(entry.path.clone())
        } else {
            Some(entry.name.clone())
        }
    } else {
        None
    }
}

/// `rayon`'s `par_iter`, `map` and `collect` over `files`, with
/// `match_entry` as the function that is mapped: one result for each file,
/// in the order of `files`, each what `match_entry` gives for that file.
#[verifier::external_body]
fn par_match(files: &Vec<FileEntry>, term: &str, show_full_path: bool) -> (hits: Vec<Option<String>>)
    ensures
        hits@.len() == files@.len(),
        forall|k: int|
            0 <= k < files@.len() ==> (#[trigger] hits@[k] is Some <==> contains_term(
                files@[k].name@,
                term@,
            )),
        forall|k: int|
            0 <= k < files@.len() && #[trigger] hits@[k] is Some ==> hits@[k]->0@ == reported(
                files@[k],
                show_full_path,
            ),
{
    files.par_iter().map(|entry| match_entry(entry, term, show_full_path)).collect()
}

/// The reports for those of `files` whose name holds `term`, in their
/// order. The names are tested side by side.
pub fn filter_matches(files: &Vec<FileEntry>, term: &str, show_full_path: bool) -> (found: Vec<String>)
    ensures
        texts(found@) == matches_among(files@, term@, show_full_path),
{
    let hits = par_match(files, term, show_full_path);
    let mut found: Vec<String> = Vec::new();
    let mut i: usize = 0;
    proof {
        assert(files@.take(0) == Seq::<FileEntry>::empty());
    }
    while i < hits.len()
        invariant
            i <= hits.len(),
            hits@.len() == files@.len(),
            forall|k: int|
                0 <= k < files@.len() ==> (#[trigger] hits@[k] is Some <==> contains_term(
                    files@[k].name@,
                    term@,
                )),
            forall|k: int|
                0 <= k < files@.len() && #[trigger] hits@[k] is Some ==> hits@[k]->0@ == reported(
                    files@[k],
                    show_full_path,
                ),
            texts(found@) == matches_among(files@.take(i as int), term@, show_full_path),
        decreases hits.len() - i,
    {
        proof {
            assert(files@.take(i + 1).drop_last() == files@.take(i as int));
            assert(files@.take(i + 1).last() == files@[i as int]);
        }
        match &hits[i] {
            Some(report) => {
                let ghost before = texts(found@);
                found.push(report.clone());
                assert(texts(found@) == before.push(report@));
            },
            None => {},
        }
        i = i + 1;
    }
    assert(files@.take(i as int) == files@);
    found
}

/// What makes a search at `request_path` fail: that what stands there is
/// no directory, or cannot be listed. Nothing below it does.
pub open spec fn grep_failure(request_path: Seq<char>, root: FsNode) -> Option<Seq<char>> {
    match root {
        FsNode::Dir { path, children } => None,
        _ => Some(request_path),
    }
}

/// Searches the tree `root`, listed at `request.path`, for files whose
/// name holds `request.search_term`, and reports each by its path or its
/// bare name as the request asks, in the order of a depth-first walk. A
/// directory below the root that could not be listed costs the matches
/// below it and no others; the search fails only where the root itself
/// could not be listed.
pub fn grep(request: GrepRequest, root: &FsNode) -> (found: Result<Vec<String>, EnumerationError>)
    ensures
        found is Ok <==> grep_failure(request.path@, *root) is None,
        found is Ok ==> texts(found->Ok_0@) == matches_among(
            leaves(*root),
            request.search_term@,
            request.show_full_path,
        ),
        found is Err ==> Some(found->Err_0.path@) == grep_failure(request.path@, *root),
{
    match root {
        FsNode::Dir { path, children } => {
            let mut files: Vec<FileEntry> = Vec::new();
            let mut thread_pool = ActiveTaskCounter::new();
            find_directories_for_path(root, &mut files, &mut thread_pool);
            assert(files@ == Seq::<FileEntry>::empty() + leaves(*root));
            assert(files@ == leaves(*root));
            Ok(filter_matches(&files, request.search_term, request.show_full_path))
        },
        _ => Err(EnumerationError { path: request.path.to_owned() }),
    }
}

} // verus!
