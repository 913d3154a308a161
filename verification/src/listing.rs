//! Listings of the documents of a directory.

use vstd::prelude::*;
use crate::error::Error;
use crate::paths::{document, hidden, is_document, is_hidden};
use crate::snapshot::{DirEntry, Entry, FileEntry};
use crate::sorting::{
    is_ordered, lemma_lex_le_total, lemma_lex_le_transitive, lemma_sorted_map, lex_le, order_of,
    sort, sorted, str_le, Order,
};
use crate::text::{chars_of, string_of_range};

verus! {

/// A document in a listing.
#[derive(Debug)]
pub struct FileInfo {
    pub name: String,
    pub path: String,
    /// The size in bytes.
    pub size: u64,
    /// The time of the last change, in seconds since the epoch.
    pub modified: u64,
}

/// A document's text, with the path it was read from or is to be written to.
#[derive(Debug)]
pub struct FileContent {
    pub content: String,
    pub path: String,
}

/// A document in a listing, with the beginning of its text.
#[derive(Debug)]
pub struct FileInfoWithPreview {
    pub name: String,
    pub path: String,
    /// The size in bytes.
    pub size: u64,
    /// The time of the last change, in seconds since the epoch.
    pub modified: u64,
    /// The first characters of the text, at most `PREVIEW_CHARS` of them.
    pub preview: String,
}

/// What a `FileInfo` says.
pub struct FileInfoView {
    pub name: Seq<char>,
    pub path: Seq<char>,
    pub size: u64,
    pub modified: u64,
}

/// What a `FileInfoWithPreview` says.
pub struct FileInfoWithPreviewView {
    pub name: Seq<char>,
    pub path: Seq<char>,
    pub size: u64,
    pub modified: u64,
    pub preview: Seq<char>,
}

impl View for FileInfo {
    type V = FileInfoView;

    open spec fn view(&self) -> FileInfoView {
        FileInfoView {
            name: self.name@,
            path: self.path@,
            size: self.size,
            modified: self.modified,
        }
    }
}

impl View for FileInfoWithPreview {
    type V = FileInfoWithPreviewView;

    open spec fn view(&self) -> FileInfoWithPreviewView {
        FileInfoWithPreviewView {
            name: self.name@,
            path: self.path@,
            size: self.size,
            modified: self.modified,
            preview: self.preview@,
        }
    }
}

/// What each item of a listing says.
pub open spec fn info_views(s: Seq<FileInfo>) -> Seq<FileInfoView> {
    s.map_values(|f: FileInfo| f@)
}

/// What each item of a listing with previews says.
pub open spec fn preview_views(s: Seq<FileInfoWithPreview>) -> Seq<FileInfoWithPreviewView> {
    s.map_values(|f: FileInfoWithPreview| f@)
}

/// The number of characters a preview holds at most.
pub const PREVIEW_CHARS: usize = 800;

/// The beginning of `content` that a listing shows.
pub open spec fn preview_of(content: Seq<char>) -> Seq<char> {
    if content.len() <= PREVIEW_CHARS {
        content
    } else {
        content.take(PREVIEW_CHARS as int)
    }
}

/// The beginning of `content` that a listing shows.
pub fn preview(content: &str) -> (r: String)
    ensures
        r@ == preview_of(content@),
{
    let chars = chars_of(content);
    let end: usize = if chars.len() <= PREVIEW_CHARS {
        chars.len()
    } else {
        PREVIEW_CHARS
    };
    proof {
        assert(chars@.subrange(0, end as int) == preview_of(content@));
    }
    string_of_range(&chars, 0, end)
}

/// Later changes first.
pub open spec fn newest_first() -> spec_fn(FileInfoView, FileInfoView) -> bool {
    |a: FileInfoView, b: FileInfoView| a.modified >= b.modified
}

/// Later changes first.
pub open spec fn newest_preview_first() -> spec_fn(
    FileInfoWithPreviewView,
    FileInfoWithPreviewView,
) -> bool {
    |a: FileInfoWithPreviewView, b: FileInfoWithPreviewView| a.modified >= b.modified
}

/// By name, in lexicographic order of the code points.
pub open spec fn preview_by_name() -> spec_fn(
    FileInfoWithPreviewView,
    FileInfoWithPreviewView,
) -> bool {
    |a: FileInfoWithPreviewView, b: FileInfoWithPreviewView| lex_le(a.name, b.name)
}

/// The order of a listing by time of change, newest first.
pub struct NewestFirst;

/// The order of a listing by name.
pub struct ByName;

impl Order<FileInfo> for NewestFirst {
    open spec fn le(a: FileInfo, b: FileInfo) -> bool {
        a.modified >= b.modified
    }

    proof fn lemma_total_preorder() {
    }

    fn test(a: &FileInfo, b: &FileInfo) -> (r: bool) {
        a.modified >= b.modified
    }
}

impl Order<FileInfoWithPreview> for NewestFirst {
    open spec fn le(a: FileInfoWithPreview, b: FileInfoWithPreview) -> bool {
        a.modified >= b.modified
    }

    proof fn lemma_total_preorder() {
    }

    fn test(a: &FileInfoWithPreview, b: &FileInfoWithPreview) -> (r: bool) {
        a.modified >= b.modified
    }
}

impl Order<FileInfoWithPreview> for ByName {
    open spec fn le(a: FileInfoWithPreview, b: FileInfoWithPreview) -> bool {
        lex_le(a.name@, b.name@)
    }

    proof fn lemma_total_preorder() {
        let le = |a: FileInfoWithPreview, b: FileInfoWithPreview| Self::le(a, b);
        assert forall|a: FileInfoWithPreview, b: FileInfoWithPreview| #[trigger]
            le(a, b) || le(b, a) by {
            lemma_lex_le_total(a.name@, b.name@);
        }
        assert forall|a: FileInfoWithPreview, b: FileInfoWithPreview, c: FileInfoWithPreview|
            #[trigger] le(a, b) && #[trigger] le(b, c) implies le(a, c) by {
            lemma_lex_le_transitive(a.name@, b.name@, c.name@);
        }
    }

    fn test(a: &FileInfoWithPreview, b: &FileInfoWithPreview) -> (r: bool) {
        str_le(a.name.as_str(), b.name.as_str())
    }
}

/// What a listing says of the file `f`: it is listed where it is a document
/// whose metadata could be read.
pub open spec fn info_of(f: FileEntry) -> Option<FileInfoView> {
    if is_document(f.name@) && f.meta is Some {
        Some(
            FileInfoView {
                name: f.name@,
                path: f.path@,
                size: f.meta->0.size,
                modified: f.meta->0.modified,
            },
        )
    } else {
        None
    }
}

/// What a listing with previews says of the file `f`: it is listed where it
/// is a document whose metadata and text could be read.
pub open spec fn preview_info_of(f: FileEntry) -> Option<FileInfoWithPreviewView> {
    if is_document(f.name@) && f.meta is Some && f.content is Some {
        Some(
            FileInfoWithPreviewView {
                name: f.name@,
                path: f.path@,
                size: f.meta->0.size,
                modified: f.meta->0.modified,
                preview: preview_of(f.content->0@),
            },
        )
    } else {
        None
    }
}

/// The documents among `entries`, in the order of `entries`.
pub open spec fn file_infos(entries: Seq<Entry>) -> Seq<FileInfoView>
    decreases entries.len(),
{
    if entries.len() == 0 {
        Seq::empty()
    } else {
        let rest = file_infos(entries.drop_last());
        match entries.last() {
            Entry::File(f) => match info_of(f) {
                Some(info) => rest.push(info),
                None => rest,
            },
            Entry::Dir(_) => rest,
        }
    }
}

/// The documents among `entries` with their previews, in the order of `entries`.
pub open spec fn file_previews(entries: Seq<Entry>) -> Seq<FileInfoWithPreviewView>
    decreases entries.len(),
{
    if entries.len() == 0 {
        Seq::empty()
    } else {
        let rest = file_previews(entries.drop_last());
        match entries.last() {
            Entry::File(f) => match preview_info_of(f) {
                Some(info) => rest.push(info),
                None => rest,
            },
            Entry::Dir(_) => rest,
        }
    }
}

/// The documents among `entries` and in the directories below them that are
/// not hidden, with their previews, in the order in which a walk meets them.
pub open spec fn collected(entries: Seq<Entry>) -> Seq<FileInfoWithPreviewView>
    decreases entries,
{
    if entries.len() == 0 {
        Seq::empty()
    } else {
        let rest = collected(entries.drop_last());
        match entries.last() {
            Entry::File(f) => match preview_info_of(f) {
                Some(info) => rest.push(info),
                None => rest,
            },
            Entry::Dir(d) => if is_hidden(d.name@) {
                rest
            } else {
                match d.entries {
                    Some(below) => rest + collected(below@),
                    None => rest,
                }
            },
        }
    }
}

/// Every directory among `entries` and below them that is not hidden could
/// be read.
pub open spec fn all_readable(entries: Seq<Entry>) -> bool
    decreases entries,
{
    if entries.len() == 0 {
        true
    } else {
        &&& all_readable(entries.drop_last())
        &&& match entries.last() {
            Entry::File(_) => true,
            Entry::Dir(d) => is_hidden(d.name@) || match d.entries {
                Some(below) => all_readable(below@),
                None => false,
            },
        }
    }
}

/// `dir` and every directory below it that is not hidden could be read.
pub open spec fn readable(dir: DirEntry) -> bool {
    match dir.entries {
        Some(entries) => all_readable(entries@),
        None => false,
    }
}

fn file_info(f: &FileEntry) -> (r: Option<FileInfo>)
    ensures
        match r {
            Some(info) => info_of(*f) == Some(info@),
            None => info_of(*f) is None,
        },
{
    if !document(f.name.as_str()) {
        return None;
    }
    match &f.meta {
        Some(meta) => Some(
            FileInfo {
                name: f.name.clone(),
                path: f.path.clone(),
                size: meta.size,
                modified: meta.modified,
            },
        ),
        None => None,
    }
}

fn file_preview(f: &FileEntry) -> (r: Option<FileInfoWithPreview>)
    ensures
        match r {
            Some(info) => preview_info_of(*f) == Some(info@),
            None => preview_info_of(*f) is None,
        },
{
    if !document(f.name.as_str()) {
        return None;
    }
    match (&f.meta, &f.content) {
        (Some(meta), Some(content)) => Some(
            FileInfoWithPreview {
                name: f.name.clone(),
                path: f.path.clone(),
                size: meta.size,
                modified: meta.modified,
                preview: preview(content.as_str()),
            },
        ),
        _ => None,
    }
}

fn previews_unsorted(entries: &Vec<Entry>) -> (r: Vec<FileInfoWithPreview>)
    ensures
        preview_views(r@) == file_previews(entries@),
{
    let mut out: Vec<FileInfoWithPreview> = Vec::new();
    let mut i: usize = 0;
    assert(preview_views(out@) == file_previews(entries@.take(0)));
    while i < entries.len()
        invariant
            i <= entries.len(),
            preview_views(out@) == file_previews(entries@.take(i as int)),
        decreases entries.len() - i,
    {
        proof {
            assert(entries@.take(i + 1).drop_last() == entries@.take(i as int));
        }
        let ghost before = out@;
        match &entries[i] {
            Entry::File(f) => {
                match file_preview(f) {
                    Some(info) => {
                        out.push(info);
                        assert(preview_views(out@) == preview_views(before).push(info@));
                    },
                    None => {},
                }
            },
            Entry::Dir(_) => {},
        }
        i += 1;
    }
    proof {
        assert(entries@.take(entries.len() as int) == entries@);
    }
    out
}

/// The documents that lie in `dir` itself, newest first.
pub fn list_files(dir: &DirEntry) -> (r: Result<Vec<FileInfo>, Error>)
    ensures
        match r {
            Ok(files) => dir.entries is Some && info_views(files@) == sorted(
                file_infos(dir.entries->0@),
                newest_first(),
            ),
            Err(e) => dir.entries is None && e == Error::DirectoryUnavailable,
        },
        r matches Ok(files) ==> is_ordered(info_views(files@), newest_first()),
{
    let entries = match &dir.entries {
        Some(entries) => entries,
        None => {
            return Err(Error::DirectoryUnavailable);
        },
    };
    let mut out: Vec<FileInfo> = Vec::new();
    let mut i: usize = 0;
    assert(info_views(out@) == file_infos(entries@.take(0)));
    while i < entries.len()
        invariant
            i <= entries.len(),
            info_views(out@) == file_infos(entries@.take(i as int)),
        decreases entries.len() - i,
    {
        proof {
            assert(entries@.take(i + 1).drop_last() == entries@.take(i as int));
        }
        let ghost before = out@;
        match &entries[i] {
            Entry::File(f) => {
                match file_info(f) {
                    Some(info) => {
                        out.push(info);
                        assert(info_views(out@) == info_views(before).push(info@));
                    },
                    None => {},
                }
            },
            Entry::Dir(_) => {},
        }
        i += 1;
    }
    let ghost unsorted = out@;
    let files = sort::<FileInfo, NewestFirst>(out);
    proof {
        assert(entries@.take(entries.len() as int) == entries@);
        let le = order_of::<FileInfo, NewestFirst>();
        lemma_sorted_map(unsorted, |f: FileInfo| f@, le, newest_first());
        assert(is_ordered(info_views(files@), newest_first())) by {
            assert forall|i: int, j: int| 0 <= i < j < files@.len() implies newest_first()(
                #[trigger] info_views(files@)[i],
                #[trigger] info_views(files@)[j],
            ) by {
                assert(le(files@[i], files@[j]));
            }
        }
    }
    Ok(files)
}

/// The documents that lie in `dir` itself with their previews, newest first.
pub fn list_files_with_preview(dir: &DirEntry) -> (r: Result<Vec<FileInfoWithPreview>, Error>)
    ensures
        match r {
            Ok(files) => dir.entries is Some && preview_views(files@) == sorted(
                file_previews(dir.entries->0@),
                newest_preview_first(),
            ),
            Err(e) => dir.entries is None && e == Error::DirectoryUnavailable,
        },
        r matches Ok(files) ==> is_ordered(preview_views(files@), newest_preview_first()),
{
    let entries = match &dir.entries {
        Some(entries) => entries,
        None => {
            return Err(Error::DirectoryUnavailable);
        },
    };
    let out = previews_unsorted(entries);
    let ghost unsorted = out@;
    let files = sort::<FileInfoWithPreview, NewestFirst>(out);
    proof {
        let le = order_of::<FileInfoWithPreview, NewestFirst>();
        lemma_sorted_map(unsorted, |f: FileInfoWithPreview| f@, le, newest_preview_first());
        assert(is_ordered(preview_views(files@), newest_preview_first())) by {
            assert forall|i: int, j: int|
                0 <= i < j < files@.len() implies newest_preview_first()(
                #[trigger] preview_views(files@)[i],
                #[trigger] preview_views(files@)[j],
            ) by {
                assert(le(files@[i], files@[j]));
            }
        }
    }
    Ok(files)
}

/// Sorts a listing with previews by name.
pub fn sort_by_name(files: Vec<FileInfoWithPreview>) -> (r: Vec<FileInfoWithPreview>)
    ensures
        preview_views(r@) == sorted(preview_views(files@), preview_by_name()),
        is_ordered(preview_views(r@), preview_by_name()),
{
    let r = sort::<FileInfoWithPreview, ByName>(files);
    proof {
        let le = order_of::<FileInfoWithPreview, ByName>();
        lemma_sorted_map(files@, |f: FileInfoWithPreview| f@, le, preview_by_name());
        assert forall|i: int, j: int| 0 <= i < j < r@.len() implies preview_by_name()(
            #[trigger] preview_views(r@)[i],
            #[trigger] preview_views(r@)[j],
        ) by {
            assert(le(r@[i], r@[j]));
        }
    }
    r
}

/// The documents that lie in `dir` itself with their previews, by name.
pub fn list_files_in_folder(dir: &DirEntry) -> (r: Result<Vec<FileInfoWithPreview>, Error>)
    ensures
        match r {
            Ok(files) => dir.entries is Some && preview_views(files@) == sorted(
                file_previews(dir.entries->0@),
                preview_by_name(),
            ),
            Err(e) => dir.entries is None && e == Error::DirectoryUnavailable,
        },
        r matches Ok(files) ==> is_ordered(preview_views(files@), preview_by_name()),
{
    match &dir.entries {
        Some(entries) => Ok(sort_by_name(previews_unsorted(entries))),
        None => Err(Error::DirectoryUnavailable),
    }
}

fn collect_entries(entries: &Vec<Entry>, files: &mut Vec<FileInfoWithPreview>) -> (r: Result<
    (),
    Error,
>)
    ensures
        r is Ok <==> all_readable(entries@),
        r is Ok ==> preview_views(final(files)@) == preview_views(old(files)@) + collected(
            entries@,
        ),
        r matches Err(e) ==> e == Error::DirectoryUnavailable,
        old(files)@.len() <= final(files)@.len(),
        final(files)@.take(old(files)@.len() as int) == old(files)@,
    decreases entries,
{
    let mut i: usize = 0;
    proof {
        assert(entries@.take(0) == Seq::<Entry>::empty());
        assert(preview_views(files@) == preview_views(old(files)@) + collected(entries@.take(0)));
        assert(files@.take(files@.len() as int) == files@);
    }
    while i < entries.len()
        invariant
            i <= entries.len(),
            all_readable(entries@.take(i as int)),
            preview_views(files@) == preview_views(old(files)@) + collected(
                entries@.take(i as int),
            ),
            old(files)@.len() <= files@.len(),
            files@.take(old(files)@.len() as int) == old(files)@,
        decreases entries.len() - i,
    {
        proof {
            assert(entries@.take(i + 1).drop_last() == entries@.take(i as int));
            lemma_all_readable_prefix(entries@, i + 1);
        }
        let ghost before = files@;
        match &entries[i] {
            Entry::File(f) => {
                match file_preview(f) {
                    Some(info) => {
                        files.push(info);
                        assert(preview_views(files@) == preview_views(before).push(info@));
                        assert(files@.take(old(files)@.len() as int) == before.take(
                            old(files)@.len() as int,
                        ));
                    },
                    None => {},
                }
            },
            Entry::Dir(d) => {
                if !hidden(d.name.as_str()) {
                    let below = match &d.entries {
                        Some(below) => below,
                        None => {
                            return Err(Error::DirectoryUnavailable);
                        },
                    };
                    let walked = collect_entries(below, files);
                    assert(files@.take(old(files)@.len() as int) == files@.take(
                        before.len() as int,
                    ).take(old(files)@.len() as int));
                    match walked {
                        Ok(()) => {},
                        Err(e) => {
                            return Err(e);
                        },
                    }
                }
            },
        }
        i += 1;
    }
    proof {
        assert(entries@.take(entries.len() as int) == entries@);
    }
    Ok(())
}

/// Adds to `files` the documents in `dir` and in the directories below it
/// that are not hidden, in the order in which the walk meets them. Fails at
/// the first directory that could not be read; what was added until then stays.
pub fn collect_files_recursive(dir: &DirEntry, files: &mut Vec<FileInfoWithPreview>) -> (r: Result<
    (),
    Error,
>)
    ensures
        r is Ok <==> readable(*dir),
        r is Ok ==> preview_views(final(files)@) == preview_views(old(files)@) + collected(
            dir.entries->0@,
        ),
        r matches Err(e) ==> e == Error::DirectoryUnavailable,
        old(files)@.len() <= final(files)@.len(),
        final(files)@.take(old(files)@.len() as int) == old(files)@,
{
    match &dir.entries {
        Some(entries) => collect_entries(entries, files),
        None => {
            assert(files@.take(files@.len() as int) == files@);
            Err(Error::DirectoryUnavailable)
        },
    }
}

/// Where all of `entries` could be read, so could each beginning of them; and
/// where a beginning could not, neither could the whole.
pub proof fn lemma_all_readable_prefix(entries: Seq<Entry>, k: int)
    requires
        0 <= k <= entries.len(),
    ensures
        all_readable(entries) ==> all_readable(entries.take(k)),
    decreases entries.len(),
{
    if k < entries.len() {
        lemma_all_readable_prefix(entries.drop_last(), k);
        assert(entries.drop_last().take(k) == entries.take(k));
    } else {
        assert(entries.take(k) == entries);
    }
}

/// The documents in `dir` and in the directories below it that are not
/// hidden, with their previews, by name. Fails where one of these directories
/// could not be read.
pub fn list_files_with_preview_impl(dir: &DirEntry) -> (r: Result<Vec<FileInfoWithPreview>, Error>)
    ensures
        match r {
            Ok(files) => readable(*dir) && preview_views(files@) == sorted(
                collected(dir.entries->0@),
                preview_by_name(),
            ),
            Err(e) => !readable(*dir) && e == Error::DirectoryUnavailable,
        },
        r matches Ok(files) ==> is_ordered(preview_views(files@), preview_by_name()),
{
    let mut files: Vec<FileInfoWithPreview> = Vec::new();
    match collect_files_recursive(dir, &mut files) {
        Ok(()) => {
            assert(preview_views(files@) == collected(dir.entries->0@));
            Ok(sort_by_name(files))
        },
        Err(e) => Err(e),
    }
}

/// A document's text as it was read from `file_path`.
pub fn read_file(file_path: String, content: String) -> (r: FileContent)
    ensures
        r.content == content,
        r.path == file_path,
{
    FileContent { content, path: file_path }
}

} // verus!
