//! Search over the documents of the workspace, by name, by path and by text.
//!
//! Texts are compared in their normal form (see `normalize`), so that a query
//! finds what differs from it only in accents or in case. A search looks at
//! the workspace as it was read; nothing is kept between searches.

use vstd::prelude::*;
use crate::error::Error;
use crate::normalize::{normalize_for_search, normalized};
use crate::paths::{document, hidden, is_document, is_hidden, relative, relative_to};
use crate::snapshot::{DirEntry, Entry, FileEntry};
use crate::sorting::{
    is_ordered, lemma_lex_le_total, lemma_lex_le_transitive, lemma_sorted_map, lemma_total_add,
    lemma_total_sorted, lex_le, order_of, sort, sorted, str_le, total, Order,
};
use crate::text::{
    chars_of, contains, find, first_occurrence, lines, occurs_in, row_views, split_lines,
    string_of,
};

verus! {

/// What of a document matched the query.
#[derive(Debug, Clone, Copy, PartialEq, Eq, Structural)]
pub enum MatchKind {
    /// The document's name.
    Filename,
    /// The document's path below the root of the search, but not its name.
    Folder,
    /// A line of the document's text.
    Content,
}

/// One result of a search.
#[derive(Debug)]
pub struct FileSearchResult {
    /// The document's name.
    pub name: String,
    /// The document's path.
    pub path: String,
    pub match_type: MatchKind,
    /// For a match in the text, the line or the part of it around the match.
    pub snippet: Option<String>,
    /// For a match in the text, the number of the line, counted from 1.
    pub line_number: Option<usize>,
}

/// What a `FileSearchResult` says.
pub struct FileSearchResultView {
    pub name: Seq<char>,
    pub path: Seq<char>,
    pub match_type: MatchKind,
    pub snippet: Option<Seq<char>>,
    pub line_number: Option<usize>,
}

impl View for FileSearchResult {
    type V = FileSearchResultView;

    open spec fn view(&self) -> FileSearchResultView {
        FileSearchResultView {
            name: self.name@,
            path: self.path@,
            match_type: self.match_type,
            snippet: match self.snippet {
                Some(s) => Some(s@),
                None => None,
            },
            line_number: self.line_number,
        }
    }
}

/// What each of `results` says.
pub open spec fn result_views(results: Seq<FileSearchResult>) -> Seq<FileSearchResultView> {
    results.map_values(|r: FileSearchResult| r@)
}

/// A query of fewer bytes finds nothing.
pub const MIN_QUERY_BYTES: usize = 3;

/// A search returns at most this many results.
pub const MAX_RESULTS: usize = 50;

/// A document gives at most this many matches in its text.
pub const MAX_MATCHES_PER_FILE: usize = 5;

/// A line of more characters is shown in part.
pub const SNIPPET_LINE_CHARS: usize = 100;

/// The number of characters shown before and behind a match.
pub const SNIPPET_CONTEXT_CHARS: usize = 50;

/// The mark that stands where a snippet leaves out the rest of the line.
pub open spec fn ellipsis() -> Seq<char> {
    seq!['.', '.', '.']
}

/// What is shown of `line`, whose normal form `norm_line` holds `query`.
///
/// A line of at most `SNIPPET_LINE_CHARS` characters is shown whole. Of a
/// longer one the part is shown that begins `SNIPPET_CONTEXT_CHARS`
/// characters before the index of the first match in the normal form and
/// ends as many characters behind the match, both kept within the line, with
/// an ellipsis on each side on which something is left out.
pub open spec fn snippet_of(line: Seq<char>, norm_line: Seq<char>, query: Seq<char>) -> Seq<char> {
    if line.len() <= SNIPPET_LINE_CHARS {
        line
    } else {
        match first_occurrence(norm_line, query) {
            Some(at) => {
                let start = snippet_start(line.len() as int, at);
                let end = snippet_end(line.len() as int, at + query.len());
                let lead = if start > 0 {
                    ellipsis()
                } else {
                    Seq::empty()
                };
                let trail = if end < line.len() {
                    ellipsis()
                } else {
                    Seq::empty()
                };
                lead + line.subrange(start, end) + trail
            },
            None => line.take(SNIPPET_LINE_CHARS as int) + ellipsis(),
        }
    }
}

/// Where the snippet of a line of `len` characters begins, for a match at `at`.
pub open spec fn snippet_start(len: int, at: int) -> int {
    if at <= SNIPPET_CONTEXT_CHARS {
        0
    } else if at - SNIPPET_CONTEXT_CHARS >= len {
        len
    } else {
        at - SNIPPET_CONTEXT_CHARS
    }
}

/// Where the snippet of a line of `len` characters ends, for a match that
/// ends at `match_end`.
pub open spec fn snippet_end(len: int, match_end: int) -> int {
    if match_end + SNIPPET_CONTEXT_CHARS >= len {
        len
    } else {
        match_end + SNIPPET_CONTEXT_CHARS
    }
}

/// What is shown of `line`, whose normal form is `norm_line`, for `query`.
pub fn make_snippet(line: &Vec<char>, norm_line: &Vec<char>, query: &Vec<char>) -> (r: String)
    ensures
        r@ == snippet_of(line@, norm_line@, query@),
{
    if line.len() <= SNIPPET_LINE_CHARS {
        return string_of(line);
    }
    let mut out: Vec<char> = Vec::new();
    match find(norm_line, query) {
        Some(at) => {
            let total: usize = norm_line.len();
            assert(at + query.len() <= total);
            let match_end: usize = at + query.len();
            let start: usize = if at <= SNIPPET_CONTEXT_CHARS {
                0
            } else if at - SNIPPET_CONTEXT_CHARS >= line.len() {
                line.len()
            } else {
                at - SNIPPET_CONTEXT_CHARS
            };
            let end: usize = if match_end >= line.len() {
                line.len()
            } else if line.len() - match_end <= SNIPPET_CONTEXT_CHARS {
                line.len()
            } else {
                match_end + SNIPPET_CONTEXT_CHARS
            };
            if start > 0 {
                push_ellipsis(&mut out);
            }
            let ghost lead = out@;
            let mut k: usize = start;
            while k < end
                invariant
                    start <= k <= end <= line.len(),
                    out@ == lead + line@.subrange(start as int, k as int),
                decreases end - k,
            {
                out.push(line[k]);
                k += 1;
            }
            if end < line.len() {
                push_ellipsis(&mut out);
            }
            proof {
                assert(lead + line@.subrange(start as int, end as int) + Seq::<char>::empty()
                    == lead + line@.subrange(start as int, end as int));
                assert(Seq::<char>::empty() + line@.subrange(start as int, end as int)
                    == line@.subrange(start as int, end as int));
            }
        },
        None => {
            let mut k: usize = 0;
            while k < SNIPPET_LINE_CHARS
                invariant
                    k <= SNIPPET_LINE_CHARS < line.len(),
                    out@ == line@.take(k as int),
                decreases SNIPPET_LINE_CHARS - k,
            {
                out.push(line[k]);
                k += 1;
            }
            push_ellipsis(&mut out);
        },
    }
    string_of(&out)
}

fn push_ellipsis(out: &mut Vec<char>)
    ensures
        final(out)@ == old(out)@ + ellipsis(),
{
    out.push('.');
    out.push('.');
    out.push('.');
}

/// Whether a document is found by its name or by its path: by its name where
/// the normal form of the name holds the query, else by its path where the
/// normal form of the path below the root holds it.
pub open spec fn header_kind_of(
    norm_name: Seq<char>,
    norm_relative: Seq<char>,
    query: Seq<char>,
) -> Option<MatchKind> {
    if occurs_in(norm_name, query) {
        Some(MatchKind::Filename)
    } else if occurs_in(norm_relative, query) {
        Some(MatchKind::Folder)
    } else {
        None
    }
}

/// Whether a document with these normal forms of its name and of its path
/// below the root is found by its name or by its path.
pub fn header_kind(norm_name: &Vec<char>, norm_relative: &Vec<char>, query: &Vec<char>) -> (r:
    Option<MatchKind>)
    ensures
        r == header_kind_of(norm_name@, norm_relative@, query@),
{
    if contains(norm_name, query) {
        Some(MatchKind::Filename)
    } else if contains(norm_relative, query) {
        Some(MatchKind::Folder)
    } else {
        None
    }
}

/// The result that says that the document `f` was found by its name or by its
/// path below `root`, where it was.
pub open spec fn header_hit(f: FileEntry, root: Seq<char>, query: Seq<char>) -> Seq<
    FileSearchResultView,
> {
    match header_kind_of(normalized(f.name@), normalized(relative_to(f.path@, root)), query) {
        Some(kind) => seq![
            FileSearchResultView {
                name: f.name@,
                path: f.path@,
                match_type: kind,
                snippet: None,
                line_number: None,
            },
        ],
        None => Seq::empty(),
    }
}

/// The result for a match in line number `number` of the document at `path`.
pub open spec fn line_hit(
    name: Seq<char>,
    path: Seq<char>,
    line: Seq<char>,
    number: nat,
    query: Seq<char>,
) -> FileSearchResultView {
    FileSearchResultView {
        name,
        path,
        match_type: MatchKind::Content,
        snippet: Some(snippet_of(line, normalized(line), query)),
        line_number: Some(number as usize),
    }
}

/// The results for the first `limit` of `lines` whose normal form holds
/// `query`, in the order of the lines.
pub open spec fn content_hits(
    name: Seq<char>,
    path: Seq<char>,
    lines: Seq<Seq<char>>,
    query: Seq<char>,
    limit: nat,
) -> Seq<FileSearchResultView>
    decreases lines.len(),
{
    if lines.len() == 0 {
        Seq::empty()
    } else {
        let before = content_hits(name, path, lines.drop_last(), query, limit);
        if before.len() < limit && occurs_in(normalized(lines.last()), query) {
            before.push(line_hit(name, path, lines.last(), lines.len(), query))
        } else {
            before
        }
    }
}

/// The number of matches in the text that a document may still give when
/// `room` results may still be added and `taken` of them go to its name or path.
pub open spec fn content_limit(room: nat, taken: nat) -> nat {
    if room <= taken {
        0
    } else if room - taken < MAX_MATCHES_PER_FILE {
        (room - taken) as nat
    } else {
        MAX_MATCHES_PER_FILE as nat
    }
}

/// The results that the document `f` gives when `room` results may still be
/// added: one for its name or path, where that matches, then those for the
/// lines of its text, where that could be read.
pub open spec fn file_hits(f: FileEntry, root: Seq<char>, query: Seq<char>, room: nat) -> Seq<
    FileSearchResultView,
> {
    let head = header_hit(f, root, query);
    head + match f.content {
        Some(content) => content_hits(
            f.name@,
            f.path@,
            lines(content@),
            query,
            content_limit(room, head.len()),
        ),
        None => Seq::empty(),
    }
}

/// `found`, and behind it the results that a walk through `entries` adds
/// until `MAX_RESULTS` are found. The walk takes the entries in their order,
/// goes into each directory that is not hidden as it meets it, and passes
/// over what is no document.
pub open spec fn search_hits(
    entries: Seq<Entry>,
    root: Seq<char>,
    query: Seq<char>,
    found: Seq<FileSearchResultView>,
) -> Seq<FileSearchResultView>
    decreases entries,
{
    if entries.len() == 0 {
        found
    } else {
        let before = search_hits(entries.drop_last(), root, query, found);
        if before.len() >= MAX_RESULTS {
            before
        } else {
            match entries.last() {
                Entry::File(f) => if is_document(f.name@) {
                    before + file_hits(f, root, query, (MAX_RESULTS - before.len()) as nat)
                } else {
                    before
                },
                Entry::Dir(d) => if is_hidden(d.name@) {
                    before
                } else {
                    match d.entries {
                        Some(below) => search_hits(below@, root, query, before),
                        None => before,
                    }
                },
            }
        }
    }
}

/// Every directory that the walk of `search_hits` goes into could be read.
pub open spec fn search_readable(
    entries: Seq<Entry>,
    root: Seq<char>,
    query: Seq<char>,
    found: Seq<FileSearchResultView>,
) -> bool
    decreases entries,
{
    if entries.len() == 0 {
        true
    } else {
        let before = search_hits(entries.drop_last(), root, query, found);
        &&& search_readable(entries.drop_last(), root, query, found)
        &&& before.len() >= MAX_RESULTS || match entries.last() {
            Entry::File(_) => true,
            Entry::Dir(d) => is_hidden(d.name@) || match d.entries {
                Some(below) => search_readable(below@, root, query, before),
                None => false,
            },
        }
    }
}

/// `found`, and behind it what a search of `dir` adds.
pub open spec fn search_in(
    dir: DirEntry,
    root: Seq<char>,
    query: Seq<char>,
    found: Seq<FileSearchResultView>,
) -> Seq<FileSearchResultView> {
    if found.len() >= MAX_RESULTS {
        found
    } else {
        match dir.entries {
            Some(entries) => search_hits(entries@, root, query, found),
            None => found,
        }
    }
}

/// Every directory that a search of `dir` goes into could be read.
pub open spec fn search_in_readable(
    dir: DirEntry,
    root: Seq<char>,
    query: Seq<char>,
    found: Seq<FileSearchResultView>,
) -> bool {
    found.len() >= MAX_RESULTS || match dir.entries {
        Some(entries) => search_readable(entries@, root, query, found),
        None => false,
    }
}

/// The place of a kind of match in the results.
pub open spec fn rank(kind: MatchKind) -> nat {
    match kind {
        MatchKind::Filename => 0,
        MatchKind::Folder => 1,
        MatchKind::Content => 2,
    }
}

/// Matches of names first, then those of paths, then those of texts; within
/// each kind by the document's name.
pub open spec fn by_rank() -> spec_fn(FileSearchResultView, FileSearchResultView) -> bool {
    |a: FileSearchResultView, b: FileSearchResultView|
        rank(a.match_type) < rank(b.match_type) || (rank(a.match_type) == rank(b.match_type)
            && lex_le(a.name, b.name))
}

fn rank_of(kind: MatchKind) -> (r: u8)
    ensures
        r == rank(kind),
{
    match kind {
        MatchKind::Filename => 0,
        MatchKind::Folder => 1,
        MatchKind::Content => 2,
    }
}

/// The order of the results of a search.
pub struct ByRank;

impl Order<FileSearchResult> for ByRank {
    open spec fn le(a: FileSearchResult, b: FileSearchResult) -> bool {
        rank(a.match_type) < rank(b.match_type) || (rank(a.match_type) == rank(b.match_type)
            && lex_le(a.name@, b.name@))
    }

    proof fn lemma_total_preorder() {
        let le = |a: FileSearchResult, b: FileSearchResult| Self::le(a, b);
        assert forall|a: FileSearchResult, b: FileSearchResult| #[trigger]
            le(a, b) || le(b, a) by {
            lemma_lex_le_total(a.name@, b.name@);
        }
        assert forall|a: FileSearchResult, b: FileSearchResult, c: FileSearchResult| #[trigger]
            le(a, b) && #[trigger] le(b, c) implies le(a, c) by {
            if rank(a.match_type) == rank(b.match_type) && rank(b.match_type) == rank(
                c.match_type,
            ) {
                lemma_lex_le_transitive(a.name@, b.name@, c.name@);
            }
        }
    }

    fn test(a: &FileSearchResult, b: &FileSearchResult) -> (r: bool) {
        let x = rank_of(a.match_type);
        let y = rank_of(b.match_type);
        x < y || (x == y && str_le(a.name.as_str(), b.name.as_str()))
    }
}

/// Once the limit is reached, further lines add nothing.
pub proof fn lemma_content_hits_full(
    name: Seq<char>,
    path: Seq<char>,
    lines: Seq<Seq<char>>,
    query: Seq<char>,
    limit: nat,
    k: int,
)
    requires
        0 <= k <= lines.len(),
        content_hits(name, path, lines.take(k), query, limit).len() >= limit,
    ensures
        content_hits(name, path, lines, query, limit) == content_hits(
            name,
            path,
            lines.take(k),
            query,
            limit,
        ),
    decreases lines.len() - k,
{
    if k < lines.len() {
        assert(lines.drop_last().take(k) == lines.take(k));
        lemma_content_hits_full(name, path, lines.drop_last(), query, limit, k);
    } else {
        assert(lines.take(k) == lines);
    }
}

/// Adds to `results` what the document `f` gives for `query`, which is in
/// normal form, in a search below `root`. Nothing is added to a list that
/// holds `MAX_RESULTS` results or more.
pub fn search_file(
    f: &FileEntry,
    root: &str,
    query: &Vec<char>,
    results: &mut Vec<FileSearchResult>,
)
    ensures
        result_views(final(results)@) == if old(results)@.len() < MAX_RESULTS {
            result_views(old(results)@) + file_hits(
                *f,
                root@,
                query@,
                (MAX_RESULTS - old(results)@.len()) as nat,
            )
        } else {
            result_views(old(results)@)
        },
        old(results)@.len() <= MAX_RESULTS ==> final(results)@.len() <= MAX_RESULTS,
{
    if results.len() >= MAX_RESULTS {
        return ;
    }
    let ghost found = result_views(results@);
    let ghost room = (MAX_RESULTS - results@.len()) as nat;
    let norm_name = chars_of(normalize_for_search(f.name.as_str()).as_str());
    let below_root = relative(f.path.as_str(), root);
    let norm_relative = chars_of(normalize_for_search(below_root.as_str()).as_str());
    match header_kind(&norm_name, &norm_relative, query) {
        Some(kind) => {
            let ghost before = results@;
            let hit = FileSearchResult {
                name: f.name.clone(),
                path: f.path.clone(),
                match_type: kind,
                snippet: None,
                line_number: None,
            };
            let ghost added = hit@;
            results.push(hit);
            proof {
                assert(result_views(results@) == result_views(before).push(added));
                assert(found.push(added) == found + header_hit(*f, root@, query@));
            }
        },
        None => {
            proof {
                assert(found == found + header_hit(*f, root@, query@));
            }
        },
    }
    let ghost head = header_hit(*f, root@, query@);
    let content = match &f.content {
        Some(content) => content,
        None => {
            proof {
                assert(found + head + Seq::<FileSearchResultView>::empty() == found + head);
                assert(found + head == found + (head + Seq::<FileSearchResultView>::empty()));
            }
            return ;
        },
    };
    let room_left: usize = MAX_RESULTS - results.len();
    let limit: usize = if room_left < MAX_MATCHES_PER_FILE {
        room_left
    } else {
        MAX_MATCHES_PER_FILE
    };
    assert(limit == content_limit(room, head.len()));
    let chars = chars_of(content.as_str());
    let rows = split_lines(&chars);
    let ghost all = lines(content@);
    let mut count: usize = 0;
    let mut i: usize = 0;
    proof {
        assert(all.take(0) == Seq::<Seq<char>>::empty());
        assert(found + head + Seq::<FileSearchResultView>::empty() == found + head);
    }
    while i < rows.len() && count < limit
        invariant
            i <= rows.len(),
            count <= limit <= MAX_MATCHES_PER_FILE,
            row_views(rows@) == all,
            results@.len() + (limit - count) <= MAX_RESULTS,
            count == content_hits(f.name@, f.path@, all.take(i as int), query@, limit as nat).len(),
            result_views(results@) == found + head + content_hits(
                f.name@,
                f.path@,
                all.take(i as int),
                query@,
                limit as nat,
            ),
        decreases rows.len() - i,
    {
        proof {
            assert(all.take(i + 1).drop_last() == all.take(i as int));
            assert(all.take(i + 1).last() == rows@[i as int]@);
        }
        let line = &rows[i];
        let text = string_of(line);
        let norm_line = chars_of(normalize_for_search(text.as_str()).as_str());
        if contains(&norm_line, query) {
            let ghost before = results@;
            let ghost so_far = content_hits(
                f.name@,
                f.path@,
                all.take(i as int),
                query@,
                limit as nat,
            );
            let hit = FileSearchResult {
                name: f.name.clone(),
                path: f.path.clone(),
                match_type: MatchKind::Content,
                snippet: Some(make_snippet(line, &norm_line, query)),
                line_number: Some(i + 1),
            };
            let ghost added = hit@;
            results.push(hit);
            count += 1;
            proof {
                assert(added == line_hit(f.name@, f.path@, line@, (i + 1) as nat, query@));
                assert(result_views(results@) == result_views(before).push(added));
                assert((found + head + so_far).push(added) == found + head + so_far.push(added));
            }
        }
        i += 1;
    }
    proof {
        let hits = content_hits(f.name@, f.path@, all, query@, limit as nat);
        if i < rows.len() {
            lemma_content_hits_full(f.name@, f.path@, all, query@, limit as nat, i as int);
        } else {
            assert(all.take(i as int) == all);
        }
        assert(found + head + hits == found + (head + hits));
    }
}

fn search_entries(
    entries: &Vec<Entry>,
    root: &str,
    query: &Vec<char>,
    results: &mut Vec<FileSearchResult>,
) -> (r: Result<(), Error>)
    requires
        old(results)@.len() <= MAX_RESULTS,
    ensures
        r is Ok <==> search_readable(entries@, root@, query@, result_views(old(results)@)),
        r is Ok ==> result_views(final(results)@) == search_hits(
            entries@,
            root@,
            query@,
            result_views(old(results)@),
        ),
        r matches Err(e) ==> e == Error::DirectoryUnavailable,
        final(results)@.len() <= MAX_RESULTS,
    decreases entries,
{
    let ghost found = result_views(results@);
    let mut i: usize = 0;
    proof {
        assert(entries@.take(0) == Seq::<Entry>::empty());
    }
    while i < entries.len()
        invariant
            i <= entries.len(),
            results@.len() <= MAX_RESULTS,
            found == result_views(old(results)@),
            search_readable(entries@.take(i as int), root@, query@, found),
            result_views(results@) == search_hits(entries@.take(i as int), root@, query@, found),
        decreases entries.len() - i,
    {
        proof {
            assert(entries@.take(i + 1).drop_last() == entries@.take(i as int));
            assert(entries@.take(i + 1).last() == entries@[i as int]);
            lemma_search_readable_prefix(entries@, root@, query@, found, i + 1);
        }
        let ghost before = result_views(results@);
        if results.len() < MAX_RESULTS {
            match &entries[i] {
                Entry::File(f) => {
                    if document(f.name.as_str()) {
                        search_file(f, root, query, results);
                    }
                },
                Entry::Dir(d) => {
                    if !hidden(d.name.as_str()) {
                        let below = match &d.entries {
                            Some(below) => below,
                            None => {
                                assert(!search_readable(
                                    entries@.take(i + 1),
                                    root@,
                                    query@,
                                    found,
                                ));
                                return Err(Error::DirectoryUnavailable);
                            },
                        };
                        match search_entries(below, root, query, results) {
                            Ok(()) => {},
                            Err(e) => {
                                assert(!search_readable(below@, root@, query@, before));
                                assert(!search_readable(
                                    entries@.take(i + 1),
                                    root@,
                                    query@,
                                    found,
                                ));
                                return Err(e);
                            },
                        }
                    }
                },
            }
        }
        i += 1;
    }
    proof {
        assert(entries@.take(entries.len() as int) == entries@);
    }
    Ok(())
}

/// Where the walk could read all it went into, it could do so up to each
/// point on its way.
pub proof fn lemma_search_readable_prefix(
    entries: Seq<Entry>,
    root: Seq<char>,
    query: Seq<char>,
    found: Seq<FileSearchResultView>,
    k: int,
)
    requires
        0 <= k <= entries.len(),
    ensures
        search_readable(entries, root, query, found) ==> search_readable(
            entries.take(k),
            root,
            query,
            found,
        ),
    decreases entries.len(),
{
    if k < entries.len() {
        lemma_search_readable_prefix(entries.drop_last(), root, query, found, k);
        assert(entries.drop_last().take(k) == entries.take(k));
    } else {
        assert(entries.take(k) == entries);
    }
}

/// Adds to `results` what a search of `dir` finds for `query_normalized`,
/// until `MAX_RESULTS` are found. `docs_dir` is the path of the root of the
/// search, from which the paths of the documents are taken. Fails at the
/// first directory that the walk goes into and that could not be read.
pub fn search_files_recursive(
    dir: &DirEntry,
    docs_dir: &str,
    query_normalized: &str,
    results: &mut Vec<FileSearchResult>,
) -> (r: Result<(), Error>)
    ensures
        r is Ok <==> search_in_readable(
            *dir,
            docs_dir@,
            query_normalized@,
            result_views(old(results)@),
        ),
        r is Ok ==> result_views(final(results)@) == search_in(
            *dir,
            docs_dir@,
            query_normalized@,
            result_views(old(results)@),
        ),
        r matches Err(e) ==> e == Error::DirectoryUnavailable,
        old(results)@.len() <= MAX_RESULTS ==> final(results)@.len() <= MAX_RESULTS,
{
    if results.len() >= MAX_RESULTS {
        return Ok(());
    }
    let query = chars_of(query_normalized);
    match &dir.entries {
        Some(entries) => search_entries(entries, docs_dir, &query, results),
        None => Err(Error::DirectoryUnavailable),
    }
}

/// What a search of the workspace at `root` for `query` returns: nothing for
/// a query of fewer than `MIN_QUERY_BYTES` bytes, else what the walk finds
/// for the normal form of the query, in the order of `by_rank`.
pub open spec fn search_results(query: &str, root: DirEntry) -> Seq<FileSearchResultView> {
    if query.len() < MIN_QUERY_BYTES {
        Seq::empty()
    } else {
        sorted(search_in(root, root.path@, normalized(query@), Seq::empty()), by_rank())
    }
}

/// Searches the documents of the workspace at `root` for `query`.
///
/// A document is found by its name, else by its path below the root, and in
/// either case by each line of its text, up to `MAX_MATCHES_PER_FILE` lines.
/// At most `MAX_RESULTS` results are returned: matches of names first, then
/// those of paths, then those of texts, each kind by the document's name. A
/// query of fewer than `MIN_QUERY_BYTES` bytes finds nothing.
///
/// Fails where a directory that the search went into could not be read.
pub fn search_files(query: &str, root: &DirEntry) -> (r: Result<Vec<FileSearchResult>, Error>)
    ensures
        query.len() < MIN_QUERY_BYTES ==> (r matches Ok(results) && results@.len() == 0),
        query.len() >= MIN_QUERY_BYTES ==> (r is Ok <==> search_in_readable(
            *root,
            root.path@,
            normalized(query@),
            Seq::empty(),
        )),
        r matches Ok(results) ==> result_views(results@) == search_results(query, *root)
            && results@.len() <= MAX_RESULTS && is_ordered(result_views(results@), by_rank()),
        r matches Err(e) ==> e == Error::DirectoryUnavailable,
{
    if query.len() < MIN_QUERY_BYTES {
        let nothing: Vec<FileSearchResult> = Vec::new();
        assert(result_views(nothing@) == Seq::<FileSearchResultView>::empty());
        return Ok(nothing);
    }
    let mut results: Vec<FileSearchResult> = Vec::new();
    assert(result_views(results@) == Seq::<FileSearchResultView>::empty());
    let query_normalized = normalize_for_search(query);
    match search_files_recursive(root, root.path.as_str(), query_normalized.as_str(), &mut results) {
        Ok(()) => {},
        Err(e) => {
            return Err(e);
        },
    }
    let ghost unsorted = results@;
    let ranked = sort::<FileSearchResult, ByRank>(results);
    proof {
        let le = order_of::<FileSearchResult, ByRank>();
        lemma_sorted_map(unsorted, |r: FileSearchResult| r@, le, by_rank());
        assert forall|i: int, j: int| 0 <= i < j < ranked@.len() implies by_rank()(
            #[trigger] result_views(ranked@)[i],
            #[trigger] result_views(ranked@)[j],
        ) by {
            assert(le(ranked@[i], ranked@[j]));
        }
    }
    Ok(ranked)
}

/// A result for the document at `path`: for a line of its text where
/// `in_text` holds, else for its name or path.
pub open spec fn is_hit_of(result: FileSearchResultView, in_text: bool, path: Seq<char>) -> bool {
    (result.match_type == MatchKind::Content) == in_text && result.path == path
}

/// What a result counts for the document at `path`: one where it is for that
/// document, for a line of its text where `in_text` holds, else for its name
/// or path.
pub open spec fn hit_weight(in_text: bool, path: Seq<char>) -> spec_fn(FileSearchResultView) -> nat {
    |result: FileSearchResultView|
        if is_hit_of(result, in_text, path) {
            1nat
        } else {
            0nat
        }
}

/// The number of `results` for the document at `path` that are for lines of
/// its text, where `in_text` holds, or else for its name or path.
pub open spec fn hits_of(results: Seq<FileSearchResultView>, in_text: bool, path: Seq<char>) -> nat {
    total(results, hit_weight(in_text, path))
}

/// The number of `results` that are for lines of the text of the document at
/// `path`.
pub open spec fn content_count(results: Seq<FileSearchResultView>, path: Seq<char>) -> nat {
    hits_of(results, true, path)
}

/// The number of `results` that are for the name or the path of the document
/// at `path`.
pub open spec fn header_count(results: Seq<FileSearchResultView>, path: Seq<char>) -> nat {
    hits_of(results, false, path)
}

/// The number of results that one document gives at most: for lines of its
/// text where `in_text` holds, else for its name or path.
pub open spec fn per_document(in_text: bool) -> nat {
    if in_text {
        MAX_MATCHES_PER_FILE as nat
    } else {
        1
    }
}

/// The number of documents at `path` that a search of `entries` can meet:
/// those among `entries` and in the directories below them that are not
/// hidden.
pub open spec fn documents_at(entries: Seq<Entry>, path: Seq<char>) -> nat
    decreases entries,
{
    if entries.len() == 0 {
        0
    } else {
        documents_at(entries.drop_last(), path) + match entries.last() {
            Entry::File(f) => if is_document(f.name@) && f.path@ == path {
                1nat
            } else {
                0nat
            },
            Entry::Dir(d) => if is_hidden(d.name@) {
                0nat
            } else {
                match d.entries {
                    Some(below) => documents_at(below@, path),
                    None => 0nat,
                }
            },
        }
    }
}

/// The results for the lines of one text are for lines of the text at its
/// path only, and there are no more of them than the limit allows.
pub proof fn lemma_content_hits_count(
    name: Seq<char>,
    file_path: Seq<char>,
    lines: Seq<Seq<char>>,
    query: Seq<char>,
    limit: nat,
    in_text: bool,
    path: Seq<char>,
)
    ensures
        hits_of(content_hits(name, file_path, lines, query, limit), in_text, path) <= limit,
        file_path != path || !in_text ==> hits_of(
            content_hits(name, file_path, lines, query, limit),
            in_text,
            path,
        ) == 0,
    decreases lines.len(),
{
    if lines.len() > 0 {
        lemma_content_hits_count(name, file_path, lines.drop_last(), query, limit, in_text, path);
        let before = content_hits(name, file_path, lines.drop_last(), query, limit);
        if before.len() < limit && occurs_in(normalized(lines.last()), query) {
            let hit = line_hit(name, file_path, lines.last(), lines.len(), query);
            assert(before.push(hit).drop_last() == before);
            lemma_content_hits_len(name, file_path, lines.drop_last(), query, limit, in_text, path);
        }
    }
}

/// Of the results for the lines of one text, no more count than there are.
proof fn lemma_content_hits_len(
    name: Seq<char>,
    file_path: Seq<char>,
    lines: Seq<Seq<char>>,
    query: Seq<char>,
    limit: nat,
    in_text: bool,
    path: Seq<char>,
)
    ensures
        hits_of(content_hits(name, file_path, lines, query, limit), in_text, path)
            <= content_hits(name, file_path, lines, query, limit).len(),
    decreases lines.len(),
{
    if lines.len() > 0 {
        lemma_content_hits_len(name, file_path, lines.drop_last(), query, limit, in_text, path);
        let before = content_hits(name, file_path, lines.drop_last(), query, limit);
        if before.len() < limit && occurs_in(normalized(lines.last()), query) {
            let hit = line_hit(name, file_path, lines.last(), lines.len(), query);
            assert(before.push(hit).drop_last() == before);
        }
    }
}

/// One document gives at most `MAX_MATCHES_PER_FILE` results for lines of its
/// text and at most one for its name or path, and none for another path than
/// its own.
pub proof fn lemma_file_hits_count(
    f: FileEntry,
    root: Seq<char>,
    query: Seq<char>,
    room: nat,
    in_text: bool,
    path: Seq<char>,
)
    ensures
        hits_of(file_hits(f, root, query, room), in_text, path) <= if f.path@ == path {
            per_document(in_text)
        } else {
            0nat
        },
{
    let head = header_hit(f, root, query);
    let kind = header_kind_of(normalized(f.name@), normalized(relative_to(f.path@, root)), query);
    let for_head: nat = if !in_text && f.path@ == path {
        1
    } else {
        0
    };
    assert(hits_of(head, in_text, path) <= for_head) by {
        match kind {
            Some(k) => {
                assert(head.len() == 1);
                assert(head.last().match_type == k);
                assert(head.last().path == f.path@);
                assert(k != MatchKind::Content);
                assert(head.drop_last().len() == 0);
                assert(hits_of(head.drop_last(), in_text, path) == 0);
            },
            None => {
                assert(head.len() == 0);
            },
        }
    }
    match f.content {
        Some(content) => {
            let limit = content_limit(room, head.len());
            let hits = content_hits(f.name@, f.path@, lines(content@), query, limit);
            lemma_content_hits_count(f.name@, f.path@, lines(content@), query, limit, in_text, path);
            lemma_total_add(head, hits, hit_weight(in_text, path));
            assert(limit <= MAX_MATCHES_PER_FILE);
            assert(file_hits(f, root, query, room) == head + hits);
        },
        None => {
            assert(head + Seq::<FileSearchResultView>::empty() == head);
            assert(file_hits(f, root, query, room) == head);
        },
    }
}

/// A walk adds, for each document that it can meet at `path`, at most
/// `MAX_MATCHES_PER_FILE` results for lines of its text and at most one for
/// its name or path.
pub proof fn lemma_search_hits_count(
    entries: Seq<Entry>,
    root: Seq<char>,
    query: Seq<char>,
    found: Seq<FileSearchResultView>,
    in_text: bool,
    path: Seq<char>,
)
    ensures
        hits_of(search_hits(entries, root, query, found), in_text, path) <= hits_of(
            found,
            in_text,
            path,
        ) + per_document(in_text) * documents_at(entries, path),
    decreases entries,
{
    let each = per_document(in_text);
    if entries.len() > 0 {
        lemma_search_hits_count(entries.drop_last(), root, query, found, in_text, path);
        let before = search_hits(entries.drop_last(), root, query, found);
        let earlier = documents_at(entries.drop_last(), path);
        let here = (documents_at(entries, path) - earlier) as nat;
        assert(each * (earlier + here) == each * earlier + each * here) by (nonlinear_arith);
        assert(each * here >= 0) by (nonlinear_arith);
        if before.len() < MAX_RESULTS {
            match entries.last() {
                Entry::File(f) => {
                    if is_document(f.name@) {
                        let room = (MAX_RESULTS - before.len()) as nat;
                        lemma_file_hits_count(f, root, query, room, in_text, path);
                        lemma_total_add(before, file_hits(f, root, query, room), hit_weight(in_text, path));
                        if f.path@ == path {
                            assert(each * 1 == each) by (nonlinear_arith);
                        }
                    }
                },
                Entry::Dir(d) => {
                    if !is_hidden(d.name@) {
                        match d.entries {
                            Some(below) => {
                                lemma_search_hits_count(
                                    below@,
                                    root,
                                    query,
                                    before,
                                    in_text,
                                    path,
                                );
                            },
                            None => {},
                        }
                    }
                },
            }
        }
    } else {
        assert(each * 0 == 0) by (nonlinear_arith);
    }
}

/// No document gives more than its share of the results of a search: for
/// each path, the results for lines of the text at that path are at most
/// `MAX_MATCHES_PER_FILE` for each document that lies there, and the results
/// for the name or the path at most one for each. Where no two documents of
/// the workspace have one path, the results hold at most
/// `MAX_MATCHES_PER_FILE` matches in the text and one match of the name or
/// the path for each document.
pub proof fn lemma_matches_per_document(query: &str, root: DirEntry, path: Seq<char>)
    ensures
        content_count(search_results(query, root), path) <= MAX_MATCHES_PER_FILE * match root.entries {
            Some(entries) => documents_at(entries@, path),
            None => 0nat,
        },
        header_count(search_results(query, root), path) <= match root.entries {
            Some(entries) => documents_at(entries@, path),
            None => 0nat,
        },
{
    if query.len() >= MIN_QUERY_BYTES {
        let found = Seq::<FileSearchResultView>::empty();
        let hits = search_in(root, root.path@, normalized(query@), found);
        lemma_total_sorted(hits, by_rank(), hit_weight(true, path));
        lemma_total_sorted(hits, by_rank(), hit_weight(false, path));
        match root.entries {
            Some(entries) => {
                lemma_search_hits_count(entries@, root.path@, normalized(query@), found, true, path);
                lemma_search_hits_count(
                    entries@,
                    root.path@,
                    normalized(query@),
                    found,
                    false,
                    path,
                );
                assert(1 * documents_at(entries@, path) == documents_at(entries@, path))
                    by (nonlinear_arith);
            },
            None => {},
        }
    }
}

/// Where no two documents of the workspace have one path, the results of a
/// search hold for each path at most `MAX_MATCHES_PER_FILE` matches in the
/// text and at most one match of the name or the path.
pub proof fn lemma_matches_per_path(query: &str, root: DirEntry, path: Seq<char>)
    requires
        root.entries matches Some(entries) ==> documents_at(entries@, path) <= 1,
    ensures
        content_count(search_results(query, root), path) <= MAX_MATCHES_PER_FILE,
        header_count(search_results(query, root), path) <= 1,
{
    lemma_matches_per_document(query, root, path);
    match root.entries {
        Some(entries) => {
            let n = documents_at(entries@, path);
            assert(MAX_MATCHES_PER_FILE * n <= MAX_MATCHES_PER_FILE) by (nonlinear_arith)
                requires
                    n <= 1,
            ;
        },
        None => {},
    }
}

} // verus!
