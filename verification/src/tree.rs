//! The workspace as a tree: its folders, and its folders with their documents.

use vstd::prelude::*;
use crate::error::Error;
use crate::listing::{
    all_readable, collected, list_files_with_preview_impl, preview_by_name, preview_views,
    readable, FileInfoWithPreview, FileInfoWithPreviewView,
};
use crate::paths::{hidden, inside, is_hidden, lies_in, names_no_directory, no_directory};
use crate::snapshot::{DirEntry, Entry};
use crate::sorting::{
    is_ordered, is_total_preorder, lemma_lex_le_total, lemma_lex_le_transitive,
    lemma_sorted_contains, lemma_sorted_map, lemma_sorted_ordered, lex_le, order_of, sort, sorted,
    str_le, Order,
};

verus! {

/// A folder with the folders below it.
#[derive(Debug)]
pub struct FolderNode {
    pub name: String,
    pub path: String,
    /// The folders that lie in this one, by name.
    pub children: Vec<FolderNode>,
}

/// What a `FolderNode` says.
pub struct FolderNodeView {
    pub name: Seq<char>,
    pub path: Seq<char>,
    pub children: Seq<FolderNodeView>,
}

/// Whether an item of the tree is a document or a folder.
#[derive(Debug, Clone, Copy, PartialEq, Eq, Structural)]
pub enum ItemKind {
    File,
    Folder,
}

/// A document or a folder in the tree of the workspace.
///
/// A document has a preview, a size and a time of change and no children. A
/// folder has none of the three, and has children unless nothing lies in it.
#[derive(Debug)]
pub struct TreeItem {
    pub item_type: ItemKind,
    pub name: String,
    pub path: String,
    pub preview: Option<String>,
    pub size: Option<u64>,
    pub modified: Option<u64>,
    pub children: Option<Vec<TreeItem>>,
}

/// What a `TreeItem` says.
pub struct TreeItemView {
    pub item_type: ItemKind,
    pub name: Seq<char>,
    pub path: Seq<char>,
    pub preview: Option<Seq<char>>,
    pub size: Option<u64>,
    pub modified: Option<u64>,
    pub children: Option<Seq<TreeItemView>>,
}

/// What each of `nodes` says.
pub open spec fn folder_views(nodes: Seq<FolderNode>) -> Seq<FolderNodeView>
    decreases nodes,
{
    if nodes.len() == 0 {
        Seq::empty()
    } else {
        folder_views(nodes.drop_last()).push(
            FolderNodeView {
                name: nodes.last().name@,
                path: nodes.last().path@,
                children: folder_views(nodes.last().children@),
            },
        )
    }
}

impl View for FolderNode {
    type V = FolderNodeView;

    open spec fn view(&self) -> FolderNodeView {
        FolderNodeView {
            name: self.name@,
            path: self.path@,
            children: folder_views(self.children@),
        }
    }
}

/// What each of `items` says.
pub open spec fn item_views(items: Seq<TreeItem>) -> Seq<TreeItemView>
    decreases items,
{
    if items.len() == 0 {
        Seq::empty()
    } else {
        item_views(items.drop_last()).push(
            TreeItemView {
                item_type: items.last().item_type,
                name: items.last().name@,
                path: items.last().path@,
                preview: match items.last().preview {
                    Some(p) => Some(p@),
                    None => None,
                },
                size: items.last().size,
                modified: items.last().modified,
                children: match items.last().children {
                    Some(below) => Some(item_views(below@)),
                    None => None,
                },
            },
        )
    }
}

impl View for TreeItem {
    type V = TreeItemView;

    open spec fn view(&self) -> TreeItemView {
        TreeItemView {
            item_type: self.item_type,
            name: self.name@,
            path: self.path@,
            preview: match self.preview {
                Some(p) => Some(p@),
                None => None,
            },
            size: self.size,
            modified: self.modified,
            children: match self.children {
                Some(below) => Some(item_views(below@)),
                None => None,
            },
        }
    }
}

/// `folder_views` is the view, item by item.
pub proof fn lemma_folder_views(nodes: Seq<FolderNode>)
    ensures
        folder_views(nodes) == nodes.map_values(|n: FolderNode| n@),
        folder_views(nodes).len() == nodes.len(),
    decreases nodes.len(),
{
    if nodes.len() > 0 {
        lemma_folder_views(nodes.drop_last());
        assert(nodes.drop_last().map_values(|n: FolderNode| n@).push(nodes.last()@)
            == nodes.map_values(|n: FolderNode| n@));
    } else {
        assert(nodes.map_values(|n: FolderNode| n@) == Seq::<FolderNodeView>::empty());
    }
}

/// `item_views` is the view, item by item.
pub proof fn lemma_item_views(items: Seq<TreeItem>)
    ensures
        item_views(items) == items.map_values(|t: TreeItem| t@),
        item_views(items).len() == items.len(),
    decreases items.len(),
{
    if items.len() > 0 {
        lemma_item_views(items.drop_last());
        assert(items.drop_last().map_values(|t: TreeItem| t@).push(items.last()@)
            == items.map_values(|t: TreeItem| t@));
    } else {
        assert(items.map_values(|t: TreeItem| t@) == Seq::<TreeItemView>::empty());
    }
}

/// The number of levels of folders that the tree shows.
pub const MAX_DEPTH: u32 = 10;

/// Folders by name, in lexicographic order of the code points.
pub open spec fn folder_by_name() -> spec_fn(FolderNodeView, FolderNodeView) -> bool {
    |a: FolderNodeView, b: FolderNodeView| lex_le(a.name, b.name)
}

/// The order of folders by name.
pub struct FoldersByName;

impl Order<FolderNode> for FoldersByName {
    open spec fn le(a: FolderNode, b: FolderNode) -> bool {
        lex_le(a.name@, b.name@)
    }

    proof fn lemma_total_preorder() {
        let le = |a: FolderNode, b: FolderNode| Self::le(a, b);
        assert forall|a: FolderNode, b: FolderNode| #[trigger] le(a, b) || le(b, a) by {
            lemma_lex_le_total(a.name@, b.name@);
        }
        assert forall|a: FolderNode, b: FolderNode, c: FolderNode| #[trigger]
            le(a, b) && #[trigger] le(b, c) implies le(a, c) by {
            lemma_lex_le_transitive(a.name@, b.name@, c.name@);
        }
    }

    fn test(a: &FolderNode, b: &FolderNode) -> (r: bool) {
        str_le(a.name.as_str(), b.name.as_str())
    }
}

/// `folder_by_name` is a total preorder.
pub proof fn lemma_folder_by_name_total_preorder()
    ensures
        is_total_preorder(folder_by_name()),
{
    let le = folder_by_name();
    assert forall|a: FolderNodeView, b: FolderNodeView| #[trigger] le(a, b) || le(b, a) by {
        lemma_lex_le_total(a.name, b.name);
    }
    assert forall|a: FolderNodeView, b: FolderNodeView, c: FolderNodeView| #[trigger]
        le(a, b) && #[trigger] le(b, c) implies le(a, c) by {
        lemma_lex_le_transitive(a.name, b.name, c.name);
    }
}

/// The folders among `entries` that are not hidden, in the order of
/// `entries`, each with the folders below it by name. `entries` lie `depth`
/// levels below the top; below level `MAX_DEPTH` nothing is shown.
pub open spec fn folder_nodes(entries: Seq<Entry>, depth: nat) -> Seq<FolderNodeView>
    decreases entries,
{
    if entries.len() == 0 {
        Seq::empty()
    } else {
        let rest = folder_nodes(entries.drop_last(), depth);
        match entries.last() {
            Entry::File(_) => rest,
            Entry::Dir(d) => if is_hidden(d.name@) {
                rest
            } else {
                rest.push(
                    FolderNodeView {
                        name: d.name@,
                        path: d.path@,
                        children: match d.entries {
                            Some(below) => if depth + 1 < MAX_DEPTH {
                                sorted(folder_nodes(below@, depth + 1), folder_by_name())
                            } else {
                                Seq::empty()
                            },
                            None => Seq::empty(),
                        },
                    },
                )
            },
        }
    }
}

/// Every folder that `folder_nodes` looks into could be read.
pub open spec fn folders_readable(entries: Seq<Entry>, depth: nat) -> bool
    decreases entries,
{
    if entries.len() == 0 {
        true
    } else {
        &&& folders_readable(entries.drop_last(), depth)
        &&& match entries.last() {
            Entry::File(_) => true,
            Entry::Dir(d) => is_hidden(d.name@) || depth + 1 >= MAX_DEPTH || match d.entries {
                Some(below) => folders_readable(below@, depth + 1),
                None => false,
            },
        }
    }
}

/// The folders of `dir`, which lies `depth` levels below the top, by name,
/// each with the folders below it.
pub open spec fn folder_tree(dir: DirEntry, depth: nat) -> Seq<FolderNodeView> {
    match dir.entries {
        Some(entries) => if depth < MAX_DEPTH {
            sorted(folder_nodes(entries@, depth), folder_by_name())
        } else {
            Seq::empty()
        },
        None => Seq::empty(),
    }
}

/// Every folder that `folder_tree` looks into could be read.
pub open spec fn tree_readable(dir: DirEntry, depth: nat) -> bool {
    depth >= MAX_DEPTH || match dir.entries {
        Some(entries) => folders_readable(entries@, depth),
        None => false,
    }
}

/// On every level the folders stand by name.
pub open spec fn ordered_throughout(nodes: Seq<FolderNodeView>) -> bool
    decreases nodes,
{
    &&& is_ordered(nodes, folder_by_name())
    &&& forall|i: int|
        0 <= i < nodes.len() ==> ordered_throughout((#[trigger] nodes[i]).children)
}

/// Where all of `entries` could be read, so could each beginning of them.
pub proof fn lemma_folders_readable_prefix(entries: Seq<Entry>, depth: nat, k: int)
    requires
        0 <= k <= entries.len(),
    ensures
        folders_readable(entries, depth) ==> folders_readable(entries.take(k), depth),
    decreases entries.len(),
{
    if k < entries.len() {
        lemma_folders_readable_prefix(entries.drop_last(), depth, k);
        assert(entries.drop_last().take(k) == entries.take(k));
    } else {
        assert(entries.take(k) == entries);
    }
}

/// Where every folder that is not hidden could be read, so could those that
/// the folder tree looks into.
pub proof fn lemma_readable_folders(entries: Seq<Entry>, depth: nat)
    requires
        all_readable(entries),
    ensures
        folders_readable(entries, depth),
    decreases entries,
{
    if entries.len() > 0 {
        lemma_readable_folders(entries.drop_last(), depth);
        match entries.last() {
            Entry::File(_) => {},
            Entry::Dir(d) => {
                if !is_hidden(d.name@) {
                    lemma_readable_folders(d.entries->0@, depth + 1);
                }
            },
        }
    }
}

fn build_nodes(entries: &Vec<Entry>, depth: u32) -> (r: Result<Vec<FolderNode>, Error>)
    requires
        depth < MAX_DEPTH,
    ensures
        r is Ok <==> folders_readable(entries@, depth as nat),
        r matches Ok(nodes) ==> folder_views(nodes@) == sorted(
            folder_nodes(entries@, depth as nat),
            folder_by_name(),
        ) && ordered_throughout(folder_views(nodes@)),
        r matches Err(e) ==> e == Error::DirectoryUnavailable,
    decreases entries,
{
    let mut nodes: Vec<FolderNode> = Vec::new();
    let mut i: usize = 0;
    proof {
        assert(entries@.take(0) == Seq::<Entry>::empty());
    }
    while i < entries.len()
        invariant
            i <= entries.len(),
            depth < MAX_DEPTH,
            folders_readable(entries@.take(i as int), depth as nat),
            folder_views(nodes@) == folder_nodes(entries@.take(i as int), depth as nat),
            forall|k: int|
                0 <= k < folder_views(nodes@).len() ==> ordered_throughout(
                    (#[trigger] folder_views(nodes@)[k]).children,
                ),
        decreases entries.len() - i,
    {
        proof {
            assert(entries@.take(i + 1).drop_last() == entries@.take(i as int));
            lemma_folders_readable_prefix(entries@, depth as nat, i + 1);
        }
        match &entries[i] {
            Entry::File(_) => {},
            Entry::Dir(d) => {
                if !hidden(d.name.as_str()) {
                    let children: Vec<FolderNode> = if depth + 1 < MAX_DEPTH {
                        match &d.entries {
                            Some(below) => match build_nodes(below, depth + 1) {
                                Ok(children) => children,
                                Err(e) => {
                                    return Err(e);
                                },
                            },
                            None => {
                                return Err(Error::DirectoryUnavailable);
                            },
                        }
                    } else {
                        Vec::new()
                    };
                    let ghost before = nodes@;
                    let node = FolderNode {
                        name: d.name.clone(),
                        path: d.path.clone(),
                        children,
                    };
                    let ghost added = node@;
                    nodes.push(node);
                    proof {
                        assert(nodes@.drop_last() == before);
                        assert(nodes@.last()@ == added);
                        assert(folder_views(nodes@) == folder_views(before).push(added));
                        assert(ordered_throughout(added.children));
                        assert forall|k: int|
                            0 <= k < folder_views(nodes@).len() implies ordered_throughout(
                            (#[trigger] folder_views(nodes@)[k]).children,
                        ) by {
                            if k < before.len() {
                                lemma_folder_views(before);
                                assert(folder_views(nodes@)[k] == folder_views(before)[k]);
                            }
                        }
                    }
                }
            },
        }
        i += 1;
    }
    let ghost unsorted = nodes@;
    let r = sort::<FolderNode, FoldersByName>(nodes);
    proof {
        assert(entries@.take(entries.len() as int) == entries@);
        let le = order_of::<FolderNode, FoldersByName>();
        lemma_folder_views(unsorted);
        lemma_folder_views(r@);
        lemma_sorted_map(unsorted, |n: FolderNode| n@, le, folder_by_name());
        lemma_folder_by_name_total_preorder();
        lemma_sorted_ordered(folder_views(unsorted), folder_by_name());
        lemma_sorted_contains(folder_views(unsorted), folder_by_name());
        assert forall|k: int| 0 <= k < folder_views(r@).len() implies ordered_throughout(
            (#[trigger] folder_views(r@)[k]).children,
        ) by {
            let node = folder_views(r@)[k];
            assert(folder_views(r@).contains(node));
            assert(folder_views(unsorted).contains(node));
        }
    }
    Ok(r)
}

/// The folders of `dir` that are not hidden, by name, each with the folders
/// below it. `dir` lies `current_depth` levels below the top; from level
/// `MAX_DEPTH` on no folder is looked into and none is shown. Fails where a
/// folder that is looked into could not be read.
pub fn build_folder_tree(dir: &DirEntry, current_depth: u32) -> (r: Result<Vec<FolderNode>, Error>)
    ensures
        r is Ok <==> tree_readable(*dir, current_depth as nat),
        r matches Ok(nodes) ==> folder_views(nodes@) == folder_tree(*dir, current_depth as nat)
            && ordered_throughout(folder_views(nodes@)),
        r matches Err(e) ==> e == Error::DirectoryUnavailable,
{
    if current_depth >= MAX_DEPTH {
        return Ok(Vec::new());
    }
    match &dir.entries {
        Some(entries) => build_nodes(entries, current_depth),
        None => Err(Error::DirectoryUnavailable),
    }
}

/// The folders of the workspace whose root is `root`.
pub fn list_folder_tree(root: &DirEntry) -> (r: Result<Vec<FolderNode>, Error>)
    ensures
        r is Ok <==> tree_readable(*root, 0),
        r matches Ok(nodes) ==> folder_views(nodes@) == folder_tree(*root, 0) && ordered_throughout(
            folder_views(nodes@),
        ),
        r matches Err(e) ==> e == Error::DirectoryUnavailable,
{
    build_folder_tree(root, 0)
}

/// The item that stands for a document.
pub open spec fn file_item(f: FileInfoWithPreviewView) -> TreeItemView {
    TreeItemView {
        item_type: ItemKind::File,
        name: f.name,
        path: f.path,
        preview: Some(f.preview),
        size: Some(f.size),
        modified: Some(f.modified),
        children: None,
    }
}

/// A document at `path` is shown on the top level of the tree at `root`:
/// the path names an entry of `root`, or names no directory.
pub open spec fn path_at_root(path: Seq<char>, root: Seq<char>) -> bool {
    lies_in(path, root) || names_no_directory(path)
}

/// A document that is shown on the top level of the tree at `root`.
pub open spec fn at_root(f: FileInfoWithPreviewView, root: Seq<char>) -> bool {
    path_at_root(f.path, root)
}

/// The items for those of `files` that are shown on the top level, in the
/// order of `files`.
pub open spec fn root_files(files: Seq<FileInfoWithPreviewView>, root: Seq<char>) -> Seq<
    TreeItemView,
>
    decreases files.len(),
{
    if files.len() == 0 {
        Seq::empty()
    } else {
        let rest = root_files(files.drop_last(), root);
        if at_root(files.last(), root) {
            rest.push(file_item(files.last()))
        } else {
            rest
        }
    }
}

/// The items for those of `files` whose paths name entries of the directory
/// `dir` and that are not shown on the top level, in the order of `files`.
pub open spec fn files_in(
    files: Seq<FileInfoWithPreviewView>,
    dir: Seq<char>,
    root: Seq<char>,
) -> Seq<TreeItemView>
    decreases files.len(),
{
    if files.len() == 0 {
        Seq::empty()
    } else {
        let rest = files_in(files.drop_last(), dir, root);
        if !at_root(files.last(), root) && lies_in(files.last().path, dir) {
            rest.push(file_item(files.last()))
        } else {
            rest
        }
    }
}

/// The item for the folder `node`: below it stand the items of its folders,
/// then the documents that lie in it. A folder in which nothing lies has no
/// list of children.
pub open spec fn folder_item(
    node: FolderNodeView,
    files: Seq<FileInfoWithPreviewView>,
    root: Seq<char>,
) -> TreeItemView
    decreases node,
{
    let children = folder_items(node.children, files, root) + files_in(files, node.path, root);
    TreeItemView {
        item_type: ItemKind::Folder,
        name: node.name,
        path: node.path,
        preview: None,
        size: None,
        modified: None,
        children: if children.len() == 0 {
            None
        } else {
            Some(children)
        },
    }
}

/// The items for the folders `nodes`, in the order of `nodes`.
pub open spec fn folder_items(
    nodes: Seq<FolderNodeView>,
    files: Seq<FileInfoWithPreviewView>,
    root: Seq<char>,
) -> Seq<TreeItemView>
    decreases nodes,
{
    if nodes.len() == 0 {
        Seq::empty()
    } else {
        folder_items(nodes.drop_last(), files, root).push(folder_item(nodes.last(), files, root))
    }
}

/// The tree of the workspace at `root`: the documents of the top level, then
/// the folders.
pub open spec fn merged(
    root: Seq<char>,
    files: Seq<FileInfoWithPreviewView>,
    folders: Seq<FolderNodeView>,
) -> Seq<TreeItemView> {
    root_files(files, root) + folder_items(folders, files, root)
}

fn file_to_item(f: &FileInfoWithPreview) -> (r: TreeItem)
    ensures
        r@ == file_item(f@),
{
    TreeItem {
        item_type: ItemKind::File,
        name: f.name.clone(),
        path: f.path.clone(),
        preview: Some(f.preview.clone()),
        size: Some(f.size),
        modified: Some(f.modified),
        children: None,
    }
}

fn is_at_root(f: &FileInfoWithPreview, root: &str) -> (r: bool)
    ensures
        r == at_root(f@, root@),
{
    inside(f.path.as_str(), root) || no_directory(f.path.as_str())
}

fn push_files_in(
    items: &mut Vec<TreeItem>,
    files: &Vec<FileInfoWithPreview>,
    dir: &str,
    root: &str,
)
    ensures
        item_views(final(items)@) == item_views(old(items)@) + files_in(
            preview_views(files@),
            dir@,
            root@,
        ),
{
    let mut i: usize = 0;
    proof {
        assert(preview_views(files@).take(0) == Seq::<FileInfoWithPreviewView>::empty());
        assert(item_views(items@) == item_views(old(items)@) + Seq::<TreeItemView>::empty());
    }
    while i < files.len()
        invariant
            i <= files.len(),
            item_views(items@) == item_views(old(items)@) + files_in(
                preview_views(files@).take(i as int),
                dir@,
                root@,
            ),
        decreases files.len() - i,
    {
        proof {
            assert(preview_views(files@).take(i + 1).drop_last() == preview_views(files@).take(
                i as int,
            ));
        }
        let f = &files[i];
        if !is_at_root(f, root) {
            if inside(f.path.as_str(), dir) {
                let ghost before = items@;
                let item = file_to_item(f);
                let ghost added = item@;
                items.push(item);
                proof {
                    assert(items@.drop_last() == before);
                    assert(items@.last()@ == added);
                    assert(item_views(items@) == item_views(before).push(added));
                }
            }
        }
        i += 1;
    }
    proof {
        assert(preview_views(files@).take(files.len() as int) == preview_views(files@));
    }
}

fn folders_to_items(nodes: &Vec<FolderNode>, files: &Vec<FileInfoWithPreview>, root: &str) -> (r:
    Vec<TreeItem>)
    ensures
        item_views(r@) == folder_items(folder_views(nodes@), preview_views(files@), root@),
    decreases nodes,
{
    let mut items: Vec<TreeItem> = Vec::new();
    let mut i: usize = 0;
    proof {
        lemma_folder_views(nodes@);
        assert(folder_views(nodes@).take(0) == Seq::<FolderNodeView>::empty());
    }
    while i < nodes.len()
        invariant
            i <= nodes.len(),
            folder_views(nodes@).len() == nodes.len(),
            item_views(items@) == folder_items(
                folder_views(nodes@).take(i as int),
                preview_views(files@),
                root@,
            ),
        decreases nodes.len() - i,
    {
        proof {
            lemma_folder_views(nodes@);
            assert(folder_views(nodes@).take(i + 1).drop_last() == folder_views(nodes@).take(
                i as int,
            ));
            assert(folder_views(nodes@).take(i + 1).last() == nodes@[i as int]@);
        }
        let item = folder_to_tree_item(&nodes[i], files, root);
        let ghost before = items@;
        let ghost added = item@;
        items.push(item);
        proof {
            assert(items@.drop_last() == before);
            assert(items@.last()@ == added);
            assert(item_views(items@) == item_views(before).push(added));
        }
        i += 1;
    }
    proof {
        assert(folder_views(nodes@).take(nodes.len() as int) == folder_views(nodes@));
    }
    items
}

/// The item for `folder`, with the items of its folders and, behind them,
/// those of `files` that lie in it.
pub fn folder_to_tree_item(folder: &FolderNode, files: &Vec<FileInfoWithPreview>, root: &str) -> (r:
    TreeItem)
    ensures
        r@ == folder_item(folder@, preview_views(files@), root@),
    decreases folder,
{
    let mut children = folders_to_items(&folder.children, files, root);
    push_files_in(&mut children, files, folder.path.as_str(), root);
    proof {
        lemma_item_views(children@);
    }
    TreeItem {
        item_type: ItemKind::Folder,
        name: folder.name.clone(),
        path: folder.path.clone(),
        preview: None,
        size: None,
        modified: None,
        children: if children.len() == 0 {
            None
        } else {
            Some(children)
        },
    }
}

/// The tree of the workspace whose root is `root`: first the documents that
/// lie in `root` itself, by name; then its folders, by name. Below a folder
/// stand its folders, by name, and behind them its documents, by name.
///
/// Fails where a directory that is not hidden could not be read.
pub fn list_files_and_folders_tree(root: &DirEntry) -> (r: Result<Vec<TreeItem>, Error>)
    ensures
        r is Ok <==> readable(*root),
        r matches Ok(items) ==> item_views(items@) == merged(
            root.path@,
            sorted(collected(root.entries->0@), preview_by_name()),
            folder_tree(*root, 0),
        ),
        r matches Err(e) ==> e == Error::DirectoryUnavailable,
{
    let files = match list_files_with_preview_impl(root) {
        Ok(files) => files,
        Err(e) => {
            return Err(e);
        },
    };
    proof {
        lemma_readable_folders(root.entries->0@, 0);
    }
    let folders = match build_folder_tree(root, 0) {
        Ok(folders) => folders,
        Err(e) => {
            return Err(e);
        },
    };
    let mut result: Vec<TreeItem> = Vec::new();
    let mut i: usize = 0;
    proof {
        assert(preview_views(files@).take(0) == Seq::<FileInfoWithPreviewView>::empty());
    }
    while i < files.len()
        invariant
            i <= files.len(),
            item_views(result@) == root_files(preview_views(files@).take(i as int), root.path@),
        decreases files.len() - i,
    {
        proof {
            assert(preview_views(files@).take(i + 1).drop_last() == preview_views(files@).take(
                i as int,
            ));
        }
        let f = &files[i];
        if is_at_root(f, root.path.as_str()) {
            let ghost before = result@;
            let item = file_to_item(f);
            let ghost added = item@;
            result.push(item);
            proof {
                assert(result@.drop_last() == before);
                assert(result@.last()@ == added);
                assert(item_views(result@) == item_views(before).push(added));
            }
        }
        i += 1;
    }
    proof {
        assert(preview_views(files@).take(files.len() as int) == preview_views(files@));
    }
    let mut below = folders_to_items(&folders, &files, root.path.as_str());
    let ghost top = result@;
    let ghost rest = below@;
    result.append(&mut below);
    proof {
        lemma_item_views(top);
        lemma_item_views(rest);
        lemma_item_views(result@);
        assert(item_views(result@) == item_views(top) + item_views(rest));
    }
    Ok(result)
}

} // verus!
