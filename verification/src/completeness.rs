//! The tree of the workspace shows what is on disk: each document and each
//! folder outside the hidden folders, as often as it is there.

use vstd::prelude::*;
use vstd::arithmetic::mul::lemma_mul_is_distributive_add_other_way;
use crate::listing::{collected, preview_by_name, preview_info_of, FileInfoWithPreviewView};
use crate::paths::{is_document, is_hidden, lies_in};
use crate::search::documents_at;
use crate::snapshot::{DirEntry, Entry};
use crate::sorting::{lemma_is_total, lemma_total_add, lemma_total_sorted, sorted, total};
use crate::tree::{
    at_root, file_item, files_in, folder_by_name, folder_item, folder_items, folder_nodes,
    folder_tree, merged, path_at_root, root_files, FolderNodeView, ItemKind, TreeItemView,
    MAX_DEPTH,
};

verus! {

/// The number of documents at `path` that the tree `items` shows.
pub open spec fn shown_files(items: Seq<TreeItemView>, path: Seq<char>) -> nat
    decreases items,
{
    if items.len() == 0 {
        0
    } else {
        shown_files(items.drop_last(), path) + match items.last().item_type {
            ItemKind::File => if items.last().path == path {
                1nat
            } else {
                0nat
            },
            ItemKind::Folder => match items.last().children {
                Some(below) => shown_files(below, path),
                None => 0nat,
            },
        }
    }
}

/// The number of documents at `path` that `item` is or holds: what it adds
/// to `shown_files`.
pub open spec fn files_below(item: TreeItemView, path: Seq<char>) -> nat {
    match item.item_type {
        ItemKind::File => if item.path == path {
            1nat
        } else {
            0nat
        },
        ItemKind::Folder => match item.children {
            Some(below) => shown_files(below, path),
            None => 0nat,
        },
    }
}

/// The number of folders at `path` that the tree `items` shows.
pub open spec fn shown_folders(items: Seq<TreeItemView>, path: Seq<char>) -> nat
    decreases items,
{
    if items.len() == 0 {
        0
    } else {
        shown_folders(items.drop_last(), path) + match items.last().item_type {
            ItemKind::File => 0nat,
            ItemKind::Folder => (if items.last().path == path {
                1nat
            } else {
                0nat
            }) + match items.last().children {
                Some(below) => shown_folders(below, path),
                None => 0nat,
            },
        }
    }
}

/// The number of folders at `path` that `item` is or holds: what it adds to
/// `shown_folders`.
pub open spec fn folders_below(item: TreeItemView, path: Seq<char>) -> nat {
    match item.item_type {
        ItemKind::File => 0nat,
        ItemKind::Folder => (if item.path == path {
            1nat
        } else {
            0nat
        }) + match item.children {
            Some(below) => shown_folders(below, path),
            None => 0nat,
        },
    }
}

/// The paths that are `path`.
pub open spec fn is_path(path: Seq<char>) -> spec_fn(Seq<char>) -> bool {
    |dir: Seq<char>| dir == path
}

/// The paths of the directories of which `path` names an entry.
pub open spec fn holds(path: Seq<char>) -> spec_fn(Seq<char>) -> bool {
    |dir: Seq<char>| lies_in(path, dir)
}

/// The number of folders on disk whose paths are among `wanted`, among
/// `entries` and below them, outside the hidden folders.
pub open spec fn folders_where(entries: Seq<Entry>, wanted: spec_fn(Seq<char>) -> bool) -> nat
    decreases entries,
{
    if entries.len() == 0 {
        0
    } else {
        folders_where(entries.drop_last(), wanted) + match entries.last() {
            Entry::File(_) => 0nat,
            Entry::Dir(d) => if is_hidden(d.name@) {
                0nat
            } else {
                (if wanted(d.path@) {
                    1nat
                } else {
                    0nat
                }) + match d.entries {
                    Some(below) => folders_where(below@, wanted),
                    None => 0nat,
                }
            },
        }
    }
}

/// The number of folders at `path` on disk, among `entries` and below them,
/// outside the hidden folders.
pub open spec fn disk_folders(entries: Seq<Entry>, path: Seq<char>) -> nat {
    folders_where(entries, is_path(path))
}

/// The number of folders on disk of which `path` names an entry, among
/// `entries` and below them, outside the hidden folders.
pub open spec fn folders_holding(entries: Seq<Entry>, path: Seq<char>) -> nat {
    folders_where(entries, holds(path))
}

/// Each document among `entries` and below them, outside the hidden folders,
/// could be read: its metadata and its text.
pub open spec fn documents_readable(entries: Seq<Entry>) -> bool
    decreases entries,
{
    entries.len() > 0 ==> documents_readable(entries.drop_last()) && match entries.last() {
        Entry::File(f) => is_document(f.name@) ==> f.meta is Some && f.content is Some,
        Entry::Dir(d) => is_hidden(d.name@) || match d.entries {
            Some(below) => documents_readable(below@),
            None => true,
        },
    }
}

/// Each folder among `entries`, which lie `depth` levels below the top, and
/// below them, outside the hidden folders, lies above level `MAX_DEPTH`.
pub open spec fn within_depth(entries: Seq<Entry>, depth: nat) -> bool
    decreases entries,
{
    entries.len() > 0 ==> within_depth(entries.drop_last(), depth) && match entries.last() {
        Entry::File(_) => true,
        Entry::Dir(d) => is_hidden(d.name@) || (depth < MAX_DEPTH && match d.entries {
            Some(below) => within_depth(below@, depth + 1),
            None => true,
        }),
    }
}

/// The path of each document among `entries`, which lie in the directory
/// `dir`, and below them, outside the hidden folders, names an entry of the
/// directory the document lies in.
pub open spec fn laid_out(entries: Seq<Entry>, dir: Seq<char>) -> bool
    decreases entries,
{
    entries.len() > 0 ==> laid_out(entries.drop_last(), dir) && match entries.last() {
        Entry::File(f) => is_document(f.name@) ==> lies_in(f.path@, dir),
        Entry::Dir(d) => is_hidden(d.name@) || match d.entries {
            Some(below) => laid_out(below@, d.path@),
            None => true,
        },
    }
}

/// What a file counts at `path`: one where it is there.
pub open spec fn at_path(path: Seq<char>) -> spec_fn(FileInfoWithPreviewView) -> nat {
    |f: FileInfoWithPreviewView|
        if f.path == path {
            1nat
        } else {
            0nat
        }
}

/// The number of `files` at `path`.
pub open spec fn listed(files: Seq<FileInfoWithPreviewView>, path: Seq<char>) -> nat {
    total(files, at_path(path))
}

/// The number of folders whose paths are among `wanted`, among `nodes` and
/// below them.
pub open spec fn nodes_where(nodes: Seq<FolderNodeView>, wanted: spec_fn(Seq<char>) -> bool) -> nat
    decreases nodes,
{
    if nodes.len() == 0 {
        0
    } else {
        nodes_where(nodes.drop_last(), wanted) + (if wanted(nodes.last().path) {
            1nat
        } else {
            0nat
        }) + nodes_where(nodes.last().children, wanted)
    }
}

/// The number of folders whose paths are among `wanted` that `node` is or
/// holds: what it adds to `nodes_where`.
pub open spec fn nodes_below(node: FolderNodeView, wanted: spec_fn(Seq<char>) -> bool) -> nat {
    (if wanted(node.path) {
        1nat
    } else {
        0nat
    }) + nodes_where(node.children, wanted)
}

/// The number of folders at `path` among `nodes` and below them.
pub open spec fn nodes_at(nodes: Seq<FolderNodeView>, path: Seq<char>) -> nat {
    nodes_where(nodes, is_path(path))
}

/// The number of `files` at `path` that folders show.
pub open spec fn listed_below_root(
    files: Seq<FileInfoWithPreviewView>,
    root: Seq<char>,
    path: Seq<char>,
) -> nat {
    if path_at_root(path, root) {
        0
    } else {
        listed(files, path)
    }
}

proof fn lemma_shown_files_add(a: Seq<TreeItemView>, b: Seq<TreeItemView>, path: Seq<char>)
    ensures
        shown_files(a + b, path) == shown_files(a, path) + shown_files(b, path),
{
    let count = |items: Seq<TreeItemView>| shown_files(items, path);
    let weight = |item: TreeItemView| files_below(item, path);
    lemma_is_total(count, weight, a);
    lemma_is_total(count, weight, b);
    lemma_is_total(count, weight, a + b);
    lemma_total_add(a, b, weight);
}

proof fn lemma_shown_folders_add(a: Seq<TreeItemView>, b: Seq<TreeItemView>, path: Seq<char>)
    ensures
        shown_folders(a + b, path) == shown_folders(a, path) + shown_folders(b, path),
{
    let count = |items: Seq<TreeItemView>| shown_folders(items, path);
    let weight = |item: TreeItemView| folders_below(item, path);
    lemma_is_total(count, weight, a);
    lemma_is_total(count, weight, b);
    lemma_is_total(count, weight, a + b);
    lemma_total_add(a, b, weight);
}

/// Sorting folders does not change how many of them are wanted.
proof fn lemma_nodes_where_sorted(
    s: Seq<FolderNodeView>,
    le: spec_fn(FolderNodeView, FolderNodeView) -> bool,
    wanted: spec_fn(Seq<char>) -> bool,
)
    ensures
        nodes_where(sorted(s, le), wanted) == nodes_where(s, wanted),
{
    let count = |nodes: Seq<FolderNodeView>| nodes_where(nodes, wanted);
    let weight = |node: FolderNodeView| nodes_below(node, wanted);
    lemma_is_total(count, weight, s);
    lemma_is_total(count, weight, sorted(s, le));
    lemma_total_sorted(s, le, weight);
}

/// The top level shows the files whose paths put them there, and no folders.
proof fn lemma_root_files_shown(
    files: Seq<FileInfoWithPreviewView>,
    root: Seq<char>,
    path: Seq<char>,
)
    ensures
        shown_files(root_files(files, root), path) == if path_at_root(path, root) {
            listed(files, path)
        } else {
            0nat
        },
        shown_folders(root_files(files, root), path) == 0,
    decreases files.len(),
{
    if files.len() > 0 {
        lemma_root_files_shown(files.drop_last(), root, path);
        let rest = root_files(files.drop_last(), root);
        if at_root(files.last(), root) {
            assert(rest.push(file_item(files.last())).drop_last() == rest);
        }
    }
}

/// A folder shows the files whose paths put them in it, and through them no
/// folders.
proof fn lemma_files_in_shown(
    files: Seq<FileInfoWithPreviewView>,
    dir: Seq<char>,
    root: Seq<char>,
    path: Seq<char>,
)
    ensures
        shown_files(files_in(files, dir, root), path) == if !path_at_root(path, root) && lies_in(
            path,
            dir,
        ) {
            listed(files, path)
        } else {
            0nat
        },
        shown_folders(files_in(files, dir, root), path) == 0,
    decreases files.len(),
{
    if files.len() > 0 {
        lemma_files_in_shown(files.drop_last(), dir, root, path);
        let rest = files_in(files.drop_last(), dir, root);
        if !at_root(files.last(), root) && lies_in(files.last().path, dir) {
            assert(rest.push(file_item(files.last())).drop_last() == rest);
        }
    }
}

/// The items for folders show each folder once, and each file that is not on
/// the top level once for each folder of which its path names an entry.
proof fn lemma_folder_items_shown(
    nodes: Seq<FolderNodeView>,
    files: Seq<FileInfoWithPreviewView>,
    root: Seq<char>,
    path: Seq<char>,
)
    ensures
        shown_files(folder_items(nodes, files, root), path) == nodes_where(nodes, holds(path))
            * listed_below_root(files, root, path),
        shown_folders(folder_items(nodes, files, root), path) == nodes_at(nodes, path),
    decreases nodes,
{
    let weight = listed_below_root(files, root, path);
    let holding = holds(path);
    if nodes.len() > 0 {
        let node = nodes.last();
        let rest = folder_items(nodes.drop_last(), files, root);
        lemma_folder_items_shown(nodes.drop_last(), files, root, path);
        lemma_folder_items_shown(node.children, files, root, path);
        lemma_files_in_shown(files, node.path, root, path);
        let below = folder_items(node.children, files, root);
        let own = files_in(files, node.path, root);
        lemma_shown_files_add(below, own, path);
        lemma_shown_folders_add(below, own, path);
        let item = folder_item(node, files, root);
        assert(folder_items(nodes, files, root).drop_last() == rest);
        assert(folder_items(nodes, files, root).last() == item);
        let here: nat = if holding(node.path) {
            1
        } else {
            0
        };
        assert(shown_files(below + own, path) == nodes_where(node.children, holding) * weight
            + here * weight) by {
            if holding(node.path) {
                assert(1 * weight == weight) by (nonlinear_arith);
            } else {
                assert(0 * weight == 0) by (nonlinear_arith);
            }
        }
        if (below + own).len() == 0 {
            assert(shown_files(below + own, path) == 0);
            assert(shown_folders(below + own, path) == 0);
        }
        lemma_mul_is_distributive_add_other_way(
            weight as int,
            nodes_where(nodes.drop_last(), holding) as int,
            here as int,
        );
        lemma_mul_is_distributive_add_other_way(
            weight as int,
            (nodes_where(nodes.drop_last(), holding) + here) as int,
            nodes_where(node.children, holding) as int,
        );
    } else {
        assert(0 * weight == 0) by (nonlinear_arith);
    }
}

/// The walk that collects the documents meets each document once that is on
/// disk outside the hidden folders.
proof fn lemma_collected_all(entries: Seq<Entry>, path: Seq<char>)
    requires
        documents_readable(entries),
    ensures
        listed(collected(entries), path) == documents_at(entries, path),
    decreases entries,
{
    if entries.len() > 0 {
        lemma_collected_all(entries.drop_last(), path);
        let rest = collected(entries.drop_last());
        match entries.last() {
            Entry::File(f) => {
                match preview_info_of(f) {
                    Some(info) => {
                        assert(rest.push(info).drop_last() == rest);
                    },
                    None => {},
                }
            },
            Entry::Dir(d) => {
                if !is_hidden(d.name@) {
                    match d.entries {
                        Some(below) => {
                            lemma_collected_all(below@, path);
                            lemma_total_add(rest, collected(below@), at_path(path));
                        },
                        None => {},
                    }
                }
            },
        }
    }
}

/// The folders that are shown are the folders on disk outside the hidden
/// folders, each once.
proof fn lemma_folder_nodes_all(entries: Seq<Entry>, depth: nat, wanted: spec_fn(Seq<char>) -> bool)
    requires
        within_depth(entries, depth),
    ensures
        depth < MAX_DEPTH ==> nodes_where(folder_nodes(entries, depth), wanted) == folders_where(
            entries,
            wanted,
        ),
        depth >= MAX_DEPTH ==> folders_where(entries, wanted) == 0,
    decreases entries,
{
    if entries.len() > 0 {
        lemma_folder_nodes_all(entries.drop_last(), depth, wanted);
        let rest = folder_nodes(entries.drop_last(), depth);
        match entries.last() {
            Entry::File(_) => {},
            Entry::Dir(d) => {
                if !is_hidden(d.name@) {
                    let nodes = folder_nodes(entries, depth);
                    assert(nodes.drop_last() == rest);
                    assert(nodes.last().path == d.path@);
                    match d.entries {
                        Some(below) => {
                            lemma_folder_nodes_all(below@, depth + 1, wanted);
                            if depth + 1 < MAX_DEPTH {
                                lemma_nodes_where_sorted(
                                    folder_nodes(below@, depth + 1),
                                    folder_by_name(),
                                    wanted,
                                );
                                assert(nodes.last().children == sorted(
                                    folder_nodes(below@, depth + 1),
                                    folder_by_name(),
                                ));
                            } else {
                                assert(nodes.last().children.len() == 0);
                                assert(nodes_where(nodes.last().children, wanted) == 0);
                            }
                        },
                        None => {
                            assert(nodes.last().children.len() == 0);
                            assert(nodes_where(nodes.last().children, wanted) == 0);
                        },
                    }
                }
            },
        }
    }
}

/// A document on disk is an entry of `dir` itself or of a folder.
proof fn lemma_document_has_folder(entries: Seq<Entry>, dir: Seq<char>, path: Seq<char>)
    requires
        laid_out(entries, dir),
        documents_at(entries, path) > 0,
    ensures
        lies_in(path, dir) || folders_holding(entries, path) >= 1,
    decreases entries,
{
    if entries.len() > 0 {
        if documents_at(entries.drop_last(), path) > 0 {
            lemma_document_has_folder(entries.drop_last(), dir, path);
        } else {
            match entries.last() {
                Entry::File(_) => {},
                Entry::Dir(d) => {
                    let below = d.entries->0;
                    lemma_document_has_folder(below@, d.path@, path);
                },
            }
        }
    }
}

/// The listing of a directory and of what is below it holds each document
/// once that is on disk outside the hidden folders.
///
/// Let each of these documents be readable. Then the listing holds each path
/// as often as a document is there on disk: none is left out, and none is
/// listed that is not there.
pub proof fn lemma_listing_holds_the_documents(dir: DirEntry, path: Seq<char>)
    requires
        dir.entries is Some,
        documents_readable(dir.entries->0@),
    ensures
        listed(sorted(collected(dir.entries->0@), preview_by_name()), path) == documents_at(
            dir.entries->0@,
            path,
        ),
{
    lemma_total_sorted(collected(dir.entries->0@), preview_by_name(), at_path(path));
    lemma_collected_all(dir.entries->0@, path);
}

/// The folder tree of a directory holds each folder once that is on disk
/// below it outside the hidden folders, and nothing else.
///
/// Let none of these folders lie on level `MAX_DEPTH` or deeper. Then the
/// folder tree holds each path as often as such a folder is there on disk.
pub proof fn lemma_folder_tree_holds_the_folders(dir: DirEntry, path: Seq<char>)
    requires
        dir.entries is Some,
        within_depth(dir.entries->0@, 0),
    ensures
        nodes_at(folder_tree(dir, 0), path) == disk_folders(dir.entries->0@, path),
{
    lemma_folder_nodes_all(dir.entries->0@, 0, is_path(path));
    lemma_nodes_where_sorted(folder_nodes(dir.entries->0@, 0), folder_by_name(), is_path(path));
}

/// The tree shows the folders that are on disk.
///
/// Let no folder of the workspace at `root`, outside the hidden folders, lie
/// on level `MAX_DEPTH` or deeper. Then the tree of the workspace shows each
/// path as a folder as often as a folder is there on disk outside the hidden
/// folders: none is left out, and none is shown twice. The root itself is
/// not shown.
pub proof fn lemma_tree_shows_the_folders(root: DirEntry, path: Seq<char>)
    requires
        root.entries is Some,
        within_depth(root.entries->0@, 0),
    ensures
        shown_folders(
            merged(
                root.path@,
                sorted(collected(root.entries->0@), preview_by_name()),
                folder_tree(root, 0),
            ),
            path,
        ) == disk_folders(root.entries->0@, path),
{
    let files = sorted(collected(root.entries->0@), preview_by_name());
    let folders = folder_tree(root, 0);
    let top = root_files(files, root.path@);
    let below = folder_items(folders, files, root.path@);
    lemma_shown_folders_add(top, below, path);
    lemma_root_files_shown(files, root.path@, path);
    lemma_folder_items_shown(folders, files, root.path@, path);
    lemma_folder_tree_holds_the_folders(root, path);
}

/// The tree shows the documents that are on disk.
///
/// Let the workspace at `root` be such that, outside its hidden folders,
/// each document could be read, no folder lies on level `MAX_DEPTH` or
/// deeper, the path of each document names an entry of the directory the
/// document lies in, and no path names an entry of two folders. Then the
/// tree of the workspace shows each path as a document as often as a
/// document is there on disk outside the hidden folders: none is left out,
/// and none is shown twice.
pub proof fn lemma_tree_shows_the_documents(root: DirEntry, path: Seq<char>)
    requires
        root.entries is Some,
        documents_readable(root.entries->0@),
        within_depth(root.entries->0@, 0),
        laid_out(root.entries->0@, root.path@),
        forall|p: Seq<char>| folders_holding(root.entries->0@, p) <= 1,
    ensures
        shown_files(
            merged(
                root.path@,
                sorted(collected(root.entries->0@), preview_by_name()),
                folder_tree(root, 0),
            ),
            path,
        ) == documents_at(root.entries->0@, path),
{
    let entries = root.entries->0@;
    let files = sorted(collected(entries), preview_by_name());
    let folders = folder_tree(root, 0);
    let top = root_files(files, root.path@);
    let below = folder_items(folders, files, root.path@);
    lemma_shown_files_add(top, below, path);
    lemma_root_files_shown(files, root.path@, path);
    lemma_folder_items_shown(folders, files, root.path@, path);
    lemma_listing_holds_the_documents(root, path);
    lemma_folder_nodes_all(entries, 0, holds(path));
    lemma_nodes_where_sorted(folder_nodes(entries, 0), folder_by_name(), holds(path));
    let on_disk = documents_at(entries, path);
    let holding = nodes_where(folders, holds(path));
    if path_at_root(path, root.path@) {
        assert(holding * 0 == 0) by (nonlinear_arith);
    } else if on_disk > 0 {
        lemma_document_has_folder(entries, root.path@, path);
        assert(folders_holding(entries, path) == 1);
        assert(1 * on_disk == on_disk) by (nonlinear_arith);
    } else {
        assert(holding * 0 == 0) by (nonlinear_arith);
    }
}

/// Each document among `items`, which stand below the folder at `dir`, and
/// below them stands in the folder of which its path names an entry, and is
/// none of those that the top level of the tree at `root` shows.
pub open spec fn stand_below(items: Seq<TreeItemView>, dir: Seq<char>, root: Seq<char>) -> bool
    decreases items,
{
    items.len() > 0 ==> stand_below(items.drop_last(), dir, root) && match items.last().item_type {
        ItemKind::File => lies_in(items.last().path, dir) && !path_at_root(
            items.last().path,
            root,
        ),
        ItemKind::Folder => match items.last().children {
            Some(below) => stand_below(below, items.last().path, root),
            None => true,
        },
    }
}

/// Each document among `items`, which stand on the top level of the tree at
/// `root`, belongs there, and each document below them stands in the folder
/// of which its path names an entry.
pub open spec fn stand_on_top(items: Seq<TreeItemView>, root: Seq<char>) -> bool
    decreases items,
{
    items.len() > 0 ==> stand_on_top(items.drop_last(), root) && match items.last().item_type {
        ItemKind::File => path_at_root(items.last().path, root),
        ItemKind::Folder => match items.last().children {
            Some(below) => stand_below(below, items.last().path, root),
            None => true,
        },
    }
}

proof fn lemma_stand_below_add(
    a: Seq<TreeItemView>,
    b: Seq<TreeItemView>,
    dir: Seq<char>,
    root: Seq<char>,
)
    requires
        stand_below(a, dir, root),
        stand_below(b, dir, root),
    ensures
        stand_below(a + b, dir, root),
    decreases b.len(),
{
    if b.len() == 0 {
        assert(a + b == a);
    } else {
        lemma_stand_below_add(a, b.drop_last(), dir, root);
        assert((a + b).drop_last() == a + b.drop_last());
    }
}

proof fn lemma_stand_on_top_add(a: Seq<TreeItemView>, b: Seq<TreeItemView>, root: Seq<char>)
    requires
        stand_on_top(a, root),
        stand_on_top(b, root),
    ensures
        stand_on_top(a + b, root),
    decreases b.len(),
{
    if b.len() == 0 {
        assert(a + b == a);
    } else {
        lemma_stand_on_top_add(a, b.drop_last(), root);
        assert((a + b).drop_last() == a + b.drop_last());
    }
}

proof fn lemma_root_files_stand(files: Seq<FileInfoWithPreviewView>, root: Seq<char>)
    ensures
        stand_on_top(root_files(files, root), root),
    decreases files.len(),
{
    if files.len() > 0 {
        lemma_root_files_stand(files.drop_last(), root);
        let rest = root_files(files.drop_last(), root);
        if at_root(files.last(), root) {
            assert(rest.push(file_item(files.last())).drop_last() == rest);
        }
    }
}

proof fn lemma_files_in_stand(
    files: Seq<FileInfoWithPreviewView>,
    dir: Seq<char>,
    root: Seq<char>,
)
    ensures
        stand_below(files_in(files, dir, root), dir, root),
    decreases files.len(),
{
    if files.len() > 0 {
        lemma_files_in_stand(files.drop_last(), dir, root);
        let rest = files_in(files.drop_last(), dir, root);
        if !at_root(files.last(), root) && lies_in(files.last().path, dir) {
            assert(rest.push(file_item(files.last())).drop_last() == rest);
        }
    }
}

proof fn lemma_folder_items_stand(
    nodes: Seq<FolderNodeView>,
    files: Seq<FileInfoWithPreviewView>,
    root: Seq<char>,
    dir: Seq<char>,
)
    ensures
        stand_below(folder_items(nodes, files, root), dir, root),
        stand_on_top(folder_items(nodes, files, root), root),
    decreases nodes,
{
    if nodes.len() > 0 {
        let node = nodes.last();
        lemma_folder_items_stand(nodes.drop_last(), files, root, dir);
        lemma_folder_items_stand(node.children, files, root, node.path);
        lemma_files_in_stand(files, node.path, root);
        lemma_stand_below_add(
            folder_items(node.children, files, root),
            files_in(files, node.path, root),
            node.path,
            root,
        );
        let items = folder_items(nodes, files, root);
        assert(items.drop_last() == folder_items(nodes.drop_last(), files, root));
        assert(items.last() == folder_item(node, files, root));
    }
}

/// In the tree each document stands where its path puts it: on the top
/// level where its path names an entry of the root or names no directory,
/// else below the folder of which its path names an entry. This holds of
/// every listing of documents and of every tree of folders.
pub proof fn lemma_documents_stand_where_they_lie(
    root: Seq<char>,
    files: Seq<FileInfoWithPreviewView>,
    folders: Seq<FolderNodeView>,
)
    ensures
        stand_on_top(merged(root, files, folders), root),
{
    lemma_root_files_stand(files, root);
    lemma_folder_items_stand(folders, files, root, root);
    lemma_stand_on_top_add(root_files(files, root), folder_items(folders, files, root), root);
}

/// The tree shows no path twice.
///
/// Let the workspace at `root` meet what `lemma_tree_shows_the_documents`
/// asks for, and let no path be there twice on disk outside the hidden
/// folders, be it as a document or as a folder. Then no path is shown twice
/// in the tree, be it as a document or as a folder.
pub proof fn lemma_no_path_is_shown_twice(root: DirEntry, path: Seq<char>)
    requires
        root.entries is Some,
        documents_readable(root.entries->0@),
        within_depth(root.entries->0@, 0),
        laid_out(root.entries->0@, root.path@),
        forall|p: Seq<char>| folders_holding(root.entries->0@, p) <= 1,
        documents_at(root.entries->0@, path) + disk_folders(root.entries->0@, path) <= 1,
    ensures
        shown_files(
            merged(
                root.path@,
                sorted(collected(root.entries->0@), preview_by_name()),
                folder_tree(root, 0),
            ),
            path,
        ) + shown_folders(
            merged(
                root.path@,
                sorted(collected(root.entries->0@), preview_by_name()),
                folder_tree(root, 0),
            ),
            path,
        ) <= 1,
{
    lemma_tree_shows_the_documents(root, path);
    lemma_tree_shows_the_folders(root, path);
}

} // verus!
