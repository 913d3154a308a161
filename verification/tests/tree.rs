use allein::error::Error;
use allein::listing::{
    collect_files_recursive, list_files, list_files_in_folder, list_files_with_preview,
    list_files_with_preview_impl, preview, read_file,
};
use allein::snapshot::{DirEntry, Entry, FileEntry, FileMeta};
use allein::tree::{
    build_folder_tree, folder_to_tree_item, list_files_and_folders_tree, list_folder_tree,
    FolderNode, ItemKind, TreeItem,
};

fn doc_at(dir: &str, name: &str, content: &str, modified: u64) -> Entry {
    Entry::File(FileEntry {
        name: name.to_string(),
        path: format!("{}/{}", dir, name),
        meta: Some(FileMeta { size: content.len() as u64, modified }),
        content: Some(content.to_string()),
    })
}

fn file_in(dir: &str, name: &str) -> Entry {
    doc_at(dir, name, "text", 1)
}

fn dir_in(parent: &str, name: &str, entries: Vec<Entry>) -> Entry {
    Entry::Dir(DirEntry {
        name: name.to_string(),
        path: format!("{}/{}", parent, name),
        entries: Some(entries),
    })
}

fn locked(parent: &str, name: &str) -> Entry {
    Entry::Dir(DirEntry { name: name.to_string(), path: format!("{}/{}", parent, name), entries: None })
}

fn root_of(entries: Vec<Entry>) -> DirEntry {
    DirEntry { name: "ws".to_string(), path: "/ws".to_string(), entries: Some(entries) }
}

/// The tree written out: one line per item, indented by its level.
fn outline(items: &[TreeItem], level: usize, out: &mut Vec<String>) {
    for item in items {
        let kind = match item.item_type {
            ItemKind::File => "file",
            ItemKind::Folder => "folder",
        };
        out.push(format!("{}{} {}", "  ".repeat(level), kind, item.path));
        if let Some(children) = &item.children {
            outline(children, level + 1, out);
        }
    }
}

fn folder_outline(nodes: &[FolderNode], level: usize, out: &mut Vec<String>) {
    for node in nodes {
        out.push(format!("{}{} {}", "  ".repeat(level), node.name, node.path));
        folder_outline(&node.children, level + 1, out);
    }
}

fn sample() -> DirEntry {
    root_of(vec![
        file_in("/ws", "b.md"),
        dir_in(
            "/ws",
            "zeta",
            vec![file_in("/ws/zeta", "z2.md"), file_in("/ws/zeta", "z1.md"), file_in("/ws/zeta", "skip.txt")],
        ),
        file_in("/ws", "notes.txt"),
        dir_in(
            "/ws",
            "alpha",
            vec![
                file_in("/ws/alpha", "x.md"),
                dir_in("/ws/alpha", "inner", vec![file_in("/ws/alpha/inner", "i.md")]),
                dir_in("/ws/alpha", "empty", vec![]),
            ],
        ),
        dir_in("/ws", ".hidden", vec![file_in("/ws/.hidden", "h.md")]),
        file_in("/ws", "a.md"),
    ])
}

#[test]
fn the_tree_shows_files_then_folders_and_folders_then_files_below() {
    let items = list_files_and_folders_tree(&sample()).unwrap();
    let mut got = Vec::new();
    outline(&items, 0, &mut got);
    assert_eq!(
        got,
        vec![
            "file /ws/a.md",
            "file /ws/b.md",
            "folder /ws/alpha",
            "  folder /ws/alpha/empty",
            "  folder /ws/alpha/inner",
            "    file /ws/alpha/inner/i.md",
            "  file /ws/alpha/x.md",
            "folder /ws/zeta",
            "  file /ws/zeta/z1.md",
            "  file /ws/zeta/z2.md",
        ]
    );
}

#[test]
fn the_tree_shows_each_document_and_each_visible_folder_once() {
    let root = root_of(vec![
        file_in("/ws", "a.md"),
        dir_in(
            "/ws",
            "one",
            vec![
                file_in("/ws/one", "a.md"),
                dir_in("/ws/one", "two", vec![file_in("/ws/one/two", "a.md"), file_in("/ws/one/two", "b.md")]),
            ],
        ),
        dir_in("/ws", "two", vec![file_in("/ws/two", "a.md")]),
    ]);
    let items = list_files_and_folders_tree(&root).unwrap();
    let mut got = Vec::new();
    outline(&items, 0, &mut got);
    let mut flat: Vec<String> = got.iter().map(|l| l.trim_start().to_string()).collect();
    flat.sort();
    assert_eq!(
        flat,
        vec![
            "file /ws/a.md",
            "file /ws/one/a.md",
            "file /ws/one/two/a.md",
            "file /ws/one/two/b.md",
            "file /ws/two/a.md",
            "folder /ws/one",
            "folder /ws/one/two",
            "folder /ws/two",
        ]
    );
}

#[test]
fn items_for_documents_and_folders_hold_what_their_kind_has() {
    let root = root_of(vec![
        doc_at("/ws", "a.md", "hello", 42),
        dir_in("/ws", "full", vec![file_in("/ws/full", "f.md")]),
        dir_in("/ws", "void", vec![]),
    ]);
    let items = list_files_and_folders_tree(&root).unwrap();
    assert_eq!(items.len(), 3);
    assert_eq!(items[0].item_type, ItemKind::File);
    assert_eq!(items[0].name, "a.md");
    assert_eq!(items[0].preview.as_deref(), Some("hello"));
    assert_eq!(items[0].size, Some(5));
    assert_eq!(items[0].modified, Some(42));
    assert!(items[0].children.is_none());
    assert_eq!(items[1].item_type, ItemKind::Folder);
    assert_eq!(items[1].name, "full");
    assert_eq!(items[1].preview, None);
    assert_eq!(items[1].size, None);
    assert_eq!(items[1].modified, None);
    assert_eq!(items[1].children.as_ref().map(|c| c.len()), Some(1));
    assert_eq!(items[2].name, "void");
    assert!(items[2].children.is_none());
}

#[test]
fn a_folder_with_only_hidden_or_foreign_content_has_no_children() {
    let root = root_of(vec![dir_in(
        "/ws",
        "a",
        vec![file_in("/ws/a", "x.txt"), dir_in("/ws/a", ".git", vec![file_in("/ws/a/.git", "y.md")])],
    )]);
    let items = list_files_and_folders_tree(&root).unwrap();
    assert_eq!(items.len(), 1);
    assert!(items[0].children.is_none());
}

#[test]
fn a_document_that_could_not_be_read_is_left_out_of_the_tree() {
    let root = root_of(vec![
        Entry::File(FileEntry {
            name: "binary.md".to_string(),
            path: "/ws/binary.md".to_string(),
            meta: Some(FileMeta { size: 3, modified: 1 }),
            content: None,
        }),
        Entry::File(FileEntry {
            name: "gone.md".to_string(),
            path: "/ws/gone.md".to_string(),
            meta: None,
            content: Some("x".to_string()),
        }),
        file_in("/ws", "ok.md"),
    ]);
    let items = list_files_and_folders_tree(&root).unwrap();
    assert_eq!(items.len(), 1);
    assert_eq!(items[0].name, "ok.md");
}

#[test]
fn a_folder_that_could_not_be_read_fails_the_tree() {
    let root = root_of(vec![file_in("/ws", "a.md"), dir_in("/ws", "a", vec![locked("/ws/a", "b")])]);
    assert_eq!(list_files_and_folders_tree(&root).map(|t| t.len()), Err(Error::DirectoryUnavailable));
    assert_eq!(list_folder_tree(&root).map(|t| t.len()), Err(Error::DirectoryUnavailable));
    assert_eq!(list_files_with_preview_impl(&root).map(|t| t.len()), Err(Error::DirectoryUnavailable));
    let unreadable = DirEntry { name: "ws".to_string(), path: "/ws".to_string(), entries: None };
    assert_eq!(list_files_and_folders_tree(&unreadable).map(|t| t.len()), Err(Error::DirectoryUnavailable));
}

#[test]
fn the_tree_passes_over_a_hidden_folder_that_could_not_be_read() {
    let root = root_of(vec![file_in("/ws", "a.md"), locked("/ws", ".trash")]);
    assert_eq!(list_files_and_folders_tree(&root).map(|t| t.len()), Ok(1));
    assert_eq!(list_folder_tree(&root).map(|t| t.len()), Ok(0));
}

#[test]
fn folders_stand_by_name_in_byte_order_on_every_level() {
    let root = root_of(vec![
        dir_in("/ws", "b", vec![dir_in("/ws/b", "y", vec![]), dir_in("/ws/b", "X", vec![])]),
        dir_in("/ws", "a", vec![]),
        dir_in("/ws", "Z", vec![]),
        dir_in("/ws", "é", vec![]),
        dir_in("/ws", "ab", vec![]),
        dir_in("/ws", ".dot", vec![]),
        file_in("/ws", "file.md"),
    ]);
    let nodes = list_folder_tree(&root).unwrap();
    let mut got = Vec::new();
    folder_outline(&nodes, 0, &mut got);
    assert_eq!(
        got,
        vec!["Z /ws/Z", "a /ws/a", "ab /ws/ab", "b /ws/b", "  X /ws/b/X", "  y /ws/b/y", "é /ws/é"]
    );
}

fn chain(parent: &str, level: usize, levels: usize) -> Vec<Entry> {
    if level == levels {
        return vec![];
    }
    let name = format!("d{}", level);
    let path = format!("{}/{}", parent, name);
    vec![dir_in(parent, &name, chain(&path, level + 1, levels))]
}

fn depth_of(nodes: &[FolderNode]) -> usize {
    nodes.iter().map(|n| 1 + depth_of(&n.children)).max().unwrap_or(0)
}

#[test]
fn the_folder_tree_ends_at_ten_levels() {
    let root = root_of(chain("/ws", 0, 9));
    assert_eq!(depth_of(&list_folder_tree(&root).unwrap()), 9);
    let root = root_of(chain("/ws", 0, 10));
    assert_eq!(depth_of(&list_folder_tree(&root).unwrap()), 10);
    let root = root_of(chain("/ws", 0, 14));
    assert_eq!(depth_of(&list_folder_tree(&root).unwrap()), 10);
}

#[test]
fn below_the_last_level_nothing_is_read() {
    let mut entries = vec![locked("/deep", "locked")];
    let mut path = "/ws".to_string();
    let mut names = Vec::new();
    for i in 0..10 {
        names.push(format!("d{}", i));
    }
    for name in &names {
        path = format!("{}/{}", path, name);
    }
    // build the chain from the inside out, with the unreadable folder at level 10
    for i in (0..10).rev() {
        let parent = names[..i].iter().fold("/ws".to_string(), |p, n| format!("{}/{}", p, n));
        entries = vec![dir_in(&parent, &names[i], entries)];
    }
    let root = root_of(entries);
    assert_eq!(list_folder_tree(&root).map(|n| depth_of(&n)), Ok(10));
    assert_eq!(build_folder_tree(&root, 10).map(|n| n.len()), Ok(0));
    let unreadable = DirEntry { name: "x".to_string(), path: "/x".to_string(), entries: None };
    assert_eq!(build_folder_tree(&unreadable, 10).map(|n| n.len()), Ok(0));
    assert_eq!(build_folder_tree(&unreadable, 9).map(|n| n.len()), Err(Error::DirectoryUnavailable));
}

#[test]
fn build_folder_tree_counts_the_levels_from_where_it_starts() {
    let root = root_of(chain("/ws", 0, 5));
    assert_eq!(build_folder_tree(&root, 0).map(|n| depth_of(&n)), Ok(5));
    assert_eq!(build_folder_tree(&root, 7).map(|n| depth_of(&n)), Ok(3));
    assert_eq!(build_folder_tree(&root, 9).map(|n| depth_of(&n)), Ok(1));
}

#[test]
fn documents_below_the_last_level_are_listed_but_not_shown() {
    let mut entries = vec![file_in("/ws/d0/d1/d2/d3/d4/d5/d6/d7/d8/d9/d10", "deep.md")];
    for i in (0..11).rev() {
        let parent = (0..i).fold("/ws".to_string(), |p, n| format!("{}/d{}", p, n));
        entries = vec![dir_in(&parent, &format!("d{}", i), entries)];
    }
    let root = root_of(entries);
    assert_eq!(list_files_with_preview_impl(&root).map(|f| f.len()), Ok(1));
    let items = list_files_and_folders_tree(&root).unwrap();
    let mut got = Vec::new();
    outline(&items, 0, &mut got);
    assert_eq!(got.len(), 10);
    assert!(got.iter().all(|l| l.trim_start().starts_with("folder")));
}

#[test]
fn a_document_whose_path_names_no_directory_is_shown_on_top() {
    let root = root_of(vec![
        Entry::File(FileEntry {
            name: "loose.md".to_string(),
            path: "loose.md".to_string(),
            meta: Some(FileMeta { size: 0, modified: 0 }),
            content: Some(String::new()),
        }),
        dir_in("/ws", "a", vec![]),
    ]);
    let items = list_files_and_folders_tree(&root).unwrap();
    let mut got = Vec::new();
    outline(&items, 0, &mut got);
    assert_eq!(got, vec!["file loose.md", "folder /ws/a"]);
}

#[test]
fn folder_to_tree_item_takes_the_files_of_the_folder() {
    let root = sample();
    let files = list_files_with_preview_impl(&root).unwrap();
    let folders = list_folder_tree(&root).unwrap();
    let item = folder_to_tree_item(&folders[1], &files, "/ws");
    let mut got = Vec::new();
    outline(std::slice::from_ref(&item), 0, &mut got);
    assert_eq!(got, vec!["folder /ws/zeta", "  file /ws/zeta/z1.md", "  file /ws/zeta/z2.md"]);
}

#[test]
fn list_files_shows_the_newest_first() {
    let dir = root_of(vec![
        doc_at("/ws", "old.md", "1", 100),
        doc_at("/ws", "new.md", "22", 300),
        dir_in("/ws", "sub", vec![doc_at("/ws/sub", "inner.md", "x", 999)]),
        doc_at("/ws", "mid.md", "333", 200),
        doc_at("/ws", "other.txt", "x", 500),
        doc_at("/ws", "far.md", "x", 20_000_000_000),
    ]);
    let files = list_files(&dir).unwrap();
    let got: Vec<(&str, u64, u64)> =
        files.iter().map(|f| (f.name.as_str(), f.size, f.modified)).collect();
    assert_eq!(
        got,
        vec![("far.md", 1, 20_000_000_000), ("new.md", 2, 300), ("mid.md", 3, 200), ("old.md", 1, 100)]
    );
    assert_eq!(files[1].path, "/ws/new.md");
}

#[test]
fn files_changed_at_the_same_time_keep_their_order() {
    let dir = root_of(vec![
        doc_at("/ws", "b.md", "", 5),
        doc_at("/ws", "a.md", "", 5),
        doc_at("/ws", "c.md", "", 7),
        doc_at("/ws", "d.md", "", 5),
    ]);
    let names: Vec<String> = list_files(&dir).unwrap().into_iter().map(|f| f.name).collect();
    assert_eq!(names, vec!["c.md", "b.md", "a.md", "d.md"]);
    let names: Vec<String> =
        list_files_with_preview(&dir).unwrap().into_iter().map(|f| f.name).collect();
    assert_eq!(names, vec!["c.md", "b.md", "a.md", "d.md"]);
}

#[test]
fn list_files_leaves_out_what_has_no_metadata() {
    let dir = root_of(vec![
        Entry::File(FileEntry {
            name: "a.md".to_string(),
            path: "/ws/a.md".to_string(),
            meta: None,
            content: Some("x".to_string()),
        }),
        Entry::File(FileEntry {
            name: "b.md".to_string(),
            path: "/ws/b.md".to_string(),
            meta: Some(FileMeta { size: 1, modified: 1 }),
            content: None,
        }),
    ]);
    let names: Vec<String> = list_files(&dir).unwrap().into_iter().map(|f| f.name).collect();
    assert_eq!(names, vec!["b.md"]);
    assert_eq!(list_files_with_preview(&dir).unwrap().len(), 0);
    assert_eq!(list_files_in_folder(&dir).unwrap().len(), 0);
}

#[test]
fn listings_of_a_folder_that_could_not_be_read_fail() {
    let dir = DirEntry { name: "ws".to_string(), path: "/ws".to_string(), entries: None };
    assert_eq!(list_files(&dir).map(|f| f.len()), Err(Error::DirectoryUnavailable));
    assert_eq!(list_files_with_preview(&dir).map(|f| f.len()), Err(Error::DirectoryUnavailable));
    assert_eq!(list_files_in_folder(&dir).map(|f| f.len()), Err(Error::DirectoryUnavailable));
}

#[test]
fn list_files_in_folder_shows_the_files_by_name() {
    let dir = root_of(vec![
        doc_at("/ws", "b.md", "bee", 1),
        doc_at("/ws", "a.md", "ay", 3),
        doc_at("/ws", "B.md", "Bee", 2),
        dir_in("/ws", "sub", vec![file_in("/ws/sub", "0.md")]),
    ]);
    let files = list_files_in_folder(&dir).unwrap();
    let got: Vec<(&str, &str)> = files.iter().map(|f| (f.name.as_str(), f.preview.as_str())).collect();
    assert_eq!(got, vec![("B.md", "Bee"), ("a.md", "ay"), ("b.md", "bee")]);
}

#[test]
fn the_recursive_listing_stands_by_name_whatever_the_folder() {
    let files = list_files_with_preview_impl(&sample()).unwrap();
    let paths: Vec<&str> = files.iter().map(|f| f.path.as_str()).collect();
    assert_eq!(
        paths,
        vec![
            "/ws/a.md",
            "/ws/b.md",
            "/ws/alpha/inner/i.md",
            "/ws/alpha/x.md",
            "/ws/zeta/z1.md",
            "/ws/zeta/z2.md"
        ]
    );
}

#[test]
fn documents_of_the_same_name_keep_the_order_of_the_walk() {
    let root = root_of(vec![
        dir_in("/ws", "z", vec![file_in("/ws/z", "same.md")]),
        file_in("/ws", "same.md"),
        dir_in("/ws", "a", vec![file_in("/ws/a", "same.md")]),
    ]);
    let files = list_files_with_preview_impl(&root).unwrap();
    let paths: Vec<&str> = files.iter().map(|f| f.path.as_str()).collect();
    assert_eq!(paths, vec!["/ws/z/same.md", "/ws/same.md", "/ws/a/same.md"]);
}

#[test]
fn collect_files_recursive_adds_in_the_order_of_the_walk() {
    let mut files = Vec::new();
    assert_eq!(collect_files_recursive(&sample(), &mut files), Ok(()));
    let names: Vec<&str> = files.iter().map(|f| f.name.as_str()).collect();
    assert_eq!(names, vec!["b.md", "z2.md", "z1.md", "x.md", "i.md", "a.md"]);
    assert_eq!(collect_files_recursive(&sample(), &mut files), Ok(()));
    assert_eq!(files.len(), 12);
}

#[test]
fn collect_files_recursive_keeps_what_it_found_before_it_failed() {
    let root = root_of(vec![file_in("/ws", "a.md"), locked("/ws", "x"), file_in("/ws", "b.md")]);
    let mut files = Vec::new();
    assert_eq!(collect_files_recursive(&root, &mut files), Err(Error::DirectoryUnavailable));
    let names: Vec<&str> = files.iter().map(|f| f.name.as_str()).collect();
    assert_eq!(names, vec!["a.md"]);
}

#[test]
fn a_preview_holds_the_first_eight_hundred_characters() {
    assert_eq!(preview("short"), "short");
    assert_eq!(preview(""), "");
    let exact = "x".repeat(800);
    assert_eq!(preview(&exact), exact);
    let long = "y".repeat(801);
    assert_eq!(preview(&long), "y".repeat(800));
    let accented = "é".repeat(1000);
    assert_eq!(preview(&accented), "é".repeat(800));
    let dir = root_of(vec![doc_at("/ws", "a.md", &accented, 1)]);
    let files = list_files_with_preview(&dir).unwrap();
    assert_eq!(files[0].preview.chars().count(), 800);
    assert_eq!(files[0].size, 2000);
}

#[test]
fn only_names_with_the_suffix_and_something_before_it_are_documents() {
    let dir = root_of(vec![
        file_in("/ws", "a.md"),
        file_in("/ws", ".md"),
        file_in("/ws", "md"),
        file_in("/ws", "a.MD"),
        file_in("/ws", "a.md.bak"),
        file_in("/ws", "a.b.md"),
        file_in("/ws", ".a.md"),
        file_in("/ws", "amd"),
    ]);
    let names: Vec<String> = list_files_in_folder(&dir).unwrap().into_iter().map(|f| f.name).collect();
    assert_eq!(names, vec![".a.md", "a.b.md", "a.md"]);
}

#[test]
fn read_file_keeps_path_and_text() {
    let file = read_file("/ws/a.md".to_string(), "text".to_string());
    assert_eq!(file.path, "/ws/a.md");
    assert_eq!(file.content, "text");
}

#[test]
fn a_root_written_with_a_separator_at_its_end_shows_its_documents() {
    let root = DirEntry {
        name: "ws".to_string(),
        path: "/ws/".to_string(),
        entries: Some(vec![
            file_in("/ws", "a.md"),
            dir_in("/ws", "sub", vec![file_in("/ws/sub", "b.md")]),
            file_in("/ws", "c.md"),
        ]),
    };
    let items = list_files_and_folders_tree(&root).unwrap();
    let mut got = Vec::new();
    outline(&items, 0, &mut got);
    assert_eq!(
        got,
        vec!["file /ws/a.md", "file /ws/c.md", "folder /ws/sub", "  file /ws/sub/b.md"]
    );
}

#[test]
fn a_folder_written_with_a_separator_at_its_end_shows_its_documents() {
    let root = root_of(vec![Entry::Dir(DirEntry {
        name: "sub".to_string(),
        path: "/ws/sub/".to_string(),
        entries: Some(vec![file_in("/ws/sub", "b.md")]),
    })]);
    let items = list_files_and_folders_tree(&root).unwrap();
    let mut got = Vec::new();
    outline(&items, 0, &mut got);
    assert_eq!(got, vec!["folder /ws/sub/", "  file /ws/sub/b.md"]);
}

#[test]
fn the_root_of_the_file_system_shows_its_documents() {
    let root = DirEntry {
        name: String::new(),
        path: "/".to_string(),
        entries: Some(vec![
            Entry::File(FileEntry {
                name: "a.md".to_string(),
                path: "/a.md".to_string(),
                meta: Some(FileMeta { size: 1, modified: 1 }),
                content: Some("x".to_string()),
            }),
            Entry::Dir(DirEntry {
                name: "d".to_string(),
                path: "/d".to_string(),
                entries: Some(vec![file_in("/d", "b.md")]),
            }),
        ]),
    };
    let items = list_files_and_folders_tree(&root).unwrap();
    let mut got = Vec::new();
    outline(&items, 0, &mut got);
    assert_eq!(got, vec!["file /a.md", "folder /d", "  file /d/b.md"]);
}

#[test]
fn a_document_in_a_folder_is_not_shown_on_top_as_well() {
    let root = root_of(vec![dir_in("/ws", "ws", vec![file_in("/ws/ws", "a.md")]), file_in("/ws", "a.md")]);
    let items = list_files_and_folders_tree(&root).unwrap();
    let mut got = Vec::new();
    outline(&items, 0, &mut got);
    assert_eq!(got, vec!["file /ws/a.md", "folder /ws/ws", "  file /ws/ws/a.md"]);
}
