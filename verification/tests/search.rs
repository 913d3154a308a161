use allein::error::Error;
use allein::normalize::normalize_for_search;
use allein::search::{
    header_kind, make_snippet, search_file, search_files, search_files_recursive,
    FileSearchResult, MatchKind,
};
use allein::snapshot::{DirEntry, Entry, FileEntry, FileMeta};

fn doc(dir: &str, name: &str, content: &str) -> Entry {
    Entry::File(FileEntry {
        name: name.to_string(),
        path: format!("{}/{}", dir, name),
        meta: Some(FileMeta { size: content.len() as u64, modified: 1_700_000_000 }),
        content: Some(content.to_string()),
    })
}

fn folder(parent: &str, name: &str, entries: Vec<Entry>) -> Entry {
    Entry::Dir(DirEntry {
        name: name.to_string(),
        path: format!("{}/{}", parent, name),
        entries: Some(entries),
    })
}

fn workspace(entries: Vec<Entry>) -> DirEntry {
    DirEntry { name: "ws".to_string(), path: "/ws".to_string(), entries: Some(entries) }
}

fn chars(s: &str) -> Vec<char> {
    s.chars().collect()
}

fn kinds(results: &[FileSearchResult]) -> Vec<MatchKind> {
    results.iter().map(|r| r.match_type).collect()
}

#[test]
fn normalize_strips_accents_and_case() {
    assert_eq!(normalize_for_search("héllo"), "hello");
    assert_eq!(normalize_for_search("Café"), "cafe");
    assert_eq!(normalize_for_search("CAFÉ"), "cafe");
    assert_eq!(normalize_for_search("naïve"), "naive");
    assert_eq!(normalize_for_search("plain text"), "plain text");
    assert_eq!(normalize_for_search(""), "");
}

#[test]
fn normalize_drops_marks_that_stand_alone() {
    assert_eq!(normalize_for_search("e\u{301}"), "e");
    assert_eq!(normalize_for_search("\u{301}\u{302}"), "");
}

#[test]
fn normalize_lowers_without_accents() {
    assert_eq!(normalize_for_search("ÅNGSTRÖM"), "angstrom");
}

#[test]
fn search_finds_accented_text_for_a_plain_query() {
    let root = workspace(vec![doc("/ws", "trip.md", "first line\nVisit the café today\n")]);
    let results = search_files("cafe", &root).unwrap();
    assert_eq!(results.len(), 1);
    assert_eq!(results[0].match_type, MatchKind::Content);
    assert_eq!(results[0].name, "trip.md");
    assert_eq!(results[0].path, "/ws/trip.md");
    assert_eq!(results[0].snippet.as_deref(), Some("Visit the café today"));
    assert_eq!(results[0].line_number, Some(2));
}

#[test]
fn search_finds_plain_and_capital_text_for_an_accented_query() {
    let root = workspace(vec![
        doc("/ws", "a.md", "a cafe nearby"),
        doc("/ws", "b.md", "THE CAFÉ IS OPEN"),
        doc("/ws", "c.md", "nothing here"),
    ]);
    let results = search_files("café", &root).unwrap();
    assert_eq!(results.len(), 2);
    assert_eq!(results[0].name, "a.md");
    assert_eq!(results[0].snippet.as_deref(), Some("a cafe nearby"));
    assert_eq!(results[1].name, "b.md");
    assert_eq!(results[1].snippet.as_deref(), Some("THE CAFÉ IS OPEN"));
}

#[test]
fn search_finds_a_document_by_its_name() {
    let root = workspace(vec![doc("/ws", "Café notes.md", "empty")]);
    let results = search_files("cafe", &root).unwrap();
    assert_eq!(results.len(), 1);
    assert_eq!(results[0].match_type, MatchKind::Filename);
    assert_eq!(results[0].name, "Café notes.md");
    assert_eq!(results[0].snippet, None);
    assert_eq!(results[0].line_number, None);
}

#[test]
fn search_finds_a_document_by_its_folder() {
    let root = workspace(vec![folder("/ws", "Recipes", vec![doc("/ws/Recipes", "soup.md", "boil")])]);
    let results = search_files("recipes", &root).unwrap();
    assert_eq!(results.len(), 1);
    assert_eq!(results[0].match_type, MatchKind::Folder);
    assert_eq!(results[0].name, "soup.md");
    assert_eq!(results[0].path, "/ws/Recipes/soup.md");
    assert_eq!(results[0].snippet, None);
}

#[test]
fn a_match_of_the_name_leaves_no_match_of_the_folder() {
    let root =
        workspace(vec![folder("/ws", "recipes", vec![doc("/ws/recipes", "recipes.md", "x")])]);
    let results = search_files("recipes", &root).unwrap();
    assert_eq!(kinds(&results), vec![MatchKind::Filename]);
}

#[test]
fn the_root_of_the_search_is_no_part_of_the_folder() {
    let root = workspace(vec![doc("/ws", "soup.md", "boil")]);
    assert!(search_files("/ws", &root).unwrap().is_empty());
}

#[test]
fn name_and_text_of_one_document_both_match() {
    let root = workspace(vec![doc("/ws", "soup.md", "soup is good\nno\nmore soup")]);
    let results = search_files("soup", &root).unwrap();
    assert_eq!(kinds(&results), vec![MatchKind::Filename, MatchKind::Content, MatchKind::Content]);
    assert_eq!(results[1].line_number, Some(1));
    assert_eq!(results[2].line_number, Some(3));
}

#[test]
fn short_queries_find_nothing() {
    let root = workspace(vec![doc("/ws", "ab.md", "ab ab ab")]);
    assert!(search_files("", &root).unwrap().is_empty());
    assert!(search_files("a", &root).unwrap().is_empty());
    assert!(search_files("ab", &root).unwrap().is_empty());
    assert_eq!(search_files("ab.", &root).unwrap().len(), 1);
}

#[test]
fn the_length_of_a_query_is_counted_in_bytes() {
    let root = workspace(vec![doc("/ws", "x.md", "été")]);
    // two bytes: one character of two bytes
    assert!(search_files("é", &root).unwrap().is_empty());
    // four bytes in two characters
    assert_eq!(search_files("ét", &root).unwrap().len(), 1);
}

#[test]
fn a_short_query_finds_nothing_even_where_the_root_is_unreadable() {
    let root = DirEntry { name: "ws".to_string(), path: "/ws".to_string(), entries: None };
    assert_eq!(search_files("ab", &root).map(|r| r.len()), Ok(0));
    assert_eq!(search_files("abc", &root).map(|r| r.len()), Err(Error::DirectoryUnavailable));
}

#[test]
fn a_document_gives_at_most_five_matches_in_its_text() {
    let text = "hit\n".repeat(10);
    let root = workspace(vec![doc("/ws", "many.md", &text)]);
    let results = search_files("hit", &root).unwrap();
    assert_eq!(results.len(), 5);
    let numbers: Vec<Option<usize>> = results.iter().map(|r| r.line_number).collect();
    assert_eq!(numbers, vec![Some(1), Some(2), Some(3), Some(4), Some(5)]);
}

#[test]
fn a_search_gives_at_most_fifty_results() {
    let text = "hit\n".repeat(10);
    let mut entries = Vec::new();
    for i in 0..20 {
        entries.push(doc("/ws", &format!("f{:02}.md", i), &text));
    }
    let root = workspace(entries);
    let results = search_files("hit", &root).unwrap();
    assert_eq!(results.len(), 50);
    for i in 0..10 {
        let name = format!("f{:02}.md", i);
        assert_eq!(results.iter().filter(|r| r.name == name).count(), 5);
    }
}

#[test]
fn the_last_document_gets_the_room_that_is_left() {
    let text = "hit\n".repeat(10);
    let mut entries = Vec::new();
    for i in 0..9 {
        entries.push(doc("/ws", &format!("f{}.md", i), &text));
    }
    // 45 results so far; this one matches by its name and in its text
    entries.push(doc("/ws", "hit.md", &text));
    entries.push(doc("/ws", "z.md", &text));
    let root = workspace(entries);
    let results = search_files("hit", &root).unwrap();
    assert_eq!(results.len(), 50);
    assert_eq!(results[0].match_type, MatchKind::Filename);
    assert_eq!(results.iter().filter(|r| r.name == "hit.md").count(), 5);
    assert_eq!(results.iter().filter(|r| r.name == "z.md").count(), 0);
}

#[test]
fn results_are_ranked_by_kind_and_then_by_name() {
    let root = workspace(vec![
        doc("/ws", "zz.md", "about tea"),
        folder("/ws", "tea", vec![doc("/ws/tea", "green.md", "leaf"), doc("/ws/tea", "black.md", "leaf")]),
        doc("/ws", "tea time.md", "x"),
        doc("/ws", "Tea.md", "x"),
        doc("/ws", "aa.md", "more tea"),
    ]);
    let results = search_files("tea", &root).unwrap();
    let got: Vec<(MatchKind, &str)> =
        results.iter().map(|r| (r.match_type, r.name.as_str())).collect();
    assert_eq!(
        got,
        vec![
            (MatchKind::Filename, "Tea.md"),
            (MatchKind::Filename, "tea time.md"),
            (MatchKind::Folder, "black.md"),
            (MatchKind::Folder, "green.md"),
            (MatchKind::Content, "aa.md"),
            (MatchKind::Content, "zz.md"),
        ]
    );
}

#[test]
fn results_of_one_document_keep_the_order_of_the_lines() {
    let root = workspace(vec![doc("/ws", "a.md", "tea 3\ntea 1\ntea 2")]);
    let results = search_files("tea", &root).unwrap();
    let snippets: Vec<&str> = results.iter().map(|r| r.snippet.as_deref().unwrap()).collect();
    assert_eq!(snippets, vec!["tea 3", "tea 1", "tea 2"]);
}

#[test]
fn search_passes_over_hidden_folders_and_other_files() {
    let root = workspace(vec![
        folder("/ws", ".git", vec![doc("/ws/.git", "needle.md", "needle")]),
        doc("/ws", "needle.txt", "needle"),
        doc("/ws", "needle", "needle"),
        doc("/ws", ".md", "needle"),
        doc("/ws", ".needle.md", "x"),
    ]);
    let results = search_files("needle", &root).unwrap();
    assert_eq!(results.len(), 1);
    assert_eq!(results[0].name, ".needle.md");
}

#[test]
fn a_document_that_could_not_be_read_is_still_found_by_name() {
    let root = workspace(vec![Entry::File(FileEntry {
        name: "needle.md".to_string(),
        path: "/ws/needle.md".to_string(),
        meta: None,
        content: None,
    })]);
    let results = search_files("needle", &root).unwrap();
    assert_eq!(kinds(&results), vec![MatchKind::Filename]);
}

#[test]
fn a_folder_that_could_not_be_read_fails_the_search() {
    let root = workspace(vec![
        doc("/ws", "a.md", "needle"),
        Entry::Dir(DirEntry { name: "locked".to_string(), path: "/ws/locked".to_string(), entries: None }),
    ]);
    assert_eq!(search_files("needle", &root).map(|r| r.len()), Err(Error::DirectoryUnavailable));
}

#[test]
fn a_hidden_folder_that_could_not_be_read_does_no_harm() {
    let root = workspace(vec![
        doc("/ws", "a.md", "needle"),
        Entry::Dir(DirEntry { name: ".locked".to_string(), path: "/ws/.locked".to_string(), entries: None }),
    ]);
    assert_eq!(search_files("needle", &root).map(|r| r.len()), Ok(1));
}

#[test]
fn a_folder_behind_the_last_result_is_not_looked_into() {
    let text = "hit\n".repeat(10);
    let mut entries = Vec::new();
    for i in 0..10 {
        entries.push(doc("/ws", &format!("f{}.md", i), &text));
    }
    entries.push(Entry::Dir(DirEntry {
        name: "locked".to_string(),
        path: "/ws/locked".to_string(),
        entries: None,
    }));
    let root = workspace(entries);
    assert_eq!(search_files("hit", &root).map(|r| r.len()), Ok(50));
}

#[test]
fn lines_end_at_line_feeds_with_or_without_carriage_return() {
    let root = workspace(vec![doc("/ws", "a.md", "one\r\ntwo tea\r\n\r\nthree tea\r")]);
    let results = search_files("tea", &root).unwrap();
    assert_eq!(results.len(), 2);
    assert_eq!(results[0].snippet.as_deref(), Some("two tea"));
    assert_eq!(results[0].line_number, Some(2));
    assert_eq!(results[1].snippet.as_deref(), Some("three tea\r"));
    assert_eq!(results[1].line_number, Some(4));
}

#[test]
fn short_lines_are_shown_whole() {
    let line = "x".repeat(94) + "needle";
    assert_eq!(line.chars().count(), 100);
    assert_eq!(make_snippet(&chars(&line), &chars(&line), &chars("needle")), line);
}

#[test]
fn long_lines_are_shown_around_the_match() {
    let line = "a".repeat(60) + "needle" + &"b".repeat(60);
    let expected = format!("...{}needle{}...", "a".repeat(50), "b".repeat(50));
    assert_eq!(make_snippet(&chars(&line), &chars(&line), &chars("needle")), expected);
}

#[test]
fn a_snippet_at_the_start_of_a_line_has_no_leading_mark() {
    let line = "needle".to_string() + &"b".repeat(120);
    let expected = format!("needle{}...", "b".repeat(50));
    assert_eq!(make_snippet(&chars(&line), &chars(&line), &chars("needle")), expected);
    let line = "a".repeat(50) + "needle" + &"b".repeat(120);
    let expected = format!("{}needle{}...", "a".repeat(50), "b".repeat(50));
    assert_eq!(make_snippet(&chars(&line), &chars(&line), &chars("needle")), expected);
}

#[test]
fn a_snippet_at_the_end_of_a_line_has_no_trailing_mark() {
    let line = "a".repeat(120) + "needle";
    let expected = format!("...{}needle", "a".repeat(50));
    assert_eq!(make_snippet(&chars(&line), &chars(&line), &chars("needle")), expected);
    let line = "a".repeat(120) + "needle" + &"b".repeat(50);
    let expected = format!("...{}needle{}", "a".repeat(50), "b".repeat(50));
    assert_eq!(make_snippet(&chars(&line), &chars(&line), &chars("needle")), expected);
}

#[test]
fn a_snippet_takes_the_first_match() {
    let line = "a".repeat(70) + "tea" + &"b".repeat(70) + "tea";
    let expected = format!("...{}tea{}...", "a".repeat(50), "b".repeat(50));
    assert_eq!(make_snippet(&chars(&line), &chars(&line), &chars("tea")), expected);
}

#[test]
fn a_snippet_keeps_the_accents_of_the_line() {
    let line = "é".repeat(60) + "Café" + &"ü".repeat(60);
    let norm = normalize_for_search(&line);
    let expected = format!("...{}Café{}...", "é".repeat(50), "ü".repeat(50));
    assert_eq!(make_snippet(&chars(&line), &chars(&norm), &chars("cafe")), expected);
}

#[test]
fn a_snippet_stays_within_the_line_where_the_normal_form_is_longer() {
    // the match lies behind the end of the line
    let line = "x".repeat(101);
    let norm = "y".repeat(200) + "needle";
    assert_eq!(make_snippet(&chars(&line), &chars(&norm), &chars("needle")), "...");
}

#[test]
fn a_snippet_without_a_match_shows_the_start_of_the_line() {
    let line = "x".repeat(150);
    let expected = "x".repeat(100) + "...";
    assert_eq!(make_snippet(&chars(&line), &chars(&line), &chars("needle")), expected);
}

#[test]
fn search_shows_long_lines_in_part() {
    let line = "a".repeat(60) + "Needle" + &"b".repeat(60);
    let root = workspace(vec![doc("/ws", "a.md", &line)]);
    let results = search_files("needle", &root).unwrap();
    let expected = format!("...{}Needle{}...", "a".repeat(50), "b".repeat(50));
    assert_eq!(results[0].snippet.as_deref(), Some(expected.as_str()));
}

#[test]
fn header_kind_prefers_the_name() {
    let q = chars("tea");
    assert_eq!(header_kind(&chars("tea.md"), &chars("tea/tea.md"), &q), Some(MatchKind::Filename));
    assert_eq!(header_kind(&chars("x.md"), &chars("tea/x.md"), &q), Some(MatchKind::Folder));
    assert_eq!(header_kind(&chars("x.md"), &chars("y/x.md"), &q), None);
    assert_eq!(header_kind(&chars("x.md"), &chars(""), &chars("")), Some(MatchKind::Filename));
}

#[test]
fn search_file_adds_behind_what_was_found() {
    let f = FileEntry {
        name: "tea.md".to_string(),
        path: "/ws/tea.md".to_string(),
        meta: None,
        content: Some("tea\ntea".to_string()),
    };
    let mut results = Vec::new();
    search_file(&f, "/ws", &chars("tea"), &mut results);
    search_file(&f, "/ws", &chars("tea"), &mut results);
    assert_eq!(results.len(), 6);
    assert_eq!(
        kinds(&results),
        vec![
            MatchKind::Filename,
            MatchKind::Content,
            MatchKind::Content,
            MatchKind::Filename,
            MatchKind::Content,
            MatchKind::Content
        ]
    );
}

#[test]
fn search_files_recursive_adds_nothing_to_a_full_list() {
    let root = workspace(vec![doc("/ws", "tea.md", "tea")]);
    let mut results = Vec::new();
    for _ in 0..50 {
        results.push(FileSearchResult {
            name: "x".to_string(),
            path: "x".to_string(),
            match_type: MatchKind::Content,
            snippet: None,
            line_number: None,
        });
    }
    assert_eq!(search_files_recursive(&root, "/ws", "tea", &mut results), Ok(()));
    assert_eq!(results.len(), 50);
    let unreadable = DirEntry { name: "ws".to_string(), path: "/ws".to_string(), entries: None };
    assert_eq!(search_files_recursive(&unreadable, "/ws", "tea", &mut results), Ok(()));
    results.pop();
    assert_eq!(
        search_files_recursive(&unreadable, "/ws", "tea", &mut results),
        Err(Error::DirectoryUnavailable)
    );
    assert_eq!(search_files_recursive(&root, "/ws", "tea", &mut results), Ok(()));
    assert_eq!(results.len(), 50);
    assert_eq!(results[49].match_type, MatchKind::Filename);
}

#[test]
fn a_search_goes_through_folders_in_the_order_of_the_entries() {
    let text = "hit\n".repeat(5);
    let mut inner = Vec::new();
    for i in 0..9 {
        inner.push(doc("/ws/sub", &format!("s{}.md", i), &text));
    }
    let root = workspace(vec![
        doc("/ws", "first.md", &text),
        folder("/ws", "sub", inner),
        doc("/ws", "last.md", &text),
        doc("/ws", "never.md", &text),
    ]);
    let results = search_files("hit", &root).unwrap();
    assert_eq!(results.len(), 50);
    assert_eq!(results.iter().filter(|r| r.name == "first.md").count(), 5);
    assert_eq!(results.iter().filter(|r| r.name == "never.md").count(), 0);
}

#[test]
fn search_and_tree_agree_on_a_root_with_a_separator_at_its_end() {
    let root = DirEntry {
        name: "ws".to_string(),
        path: "/ws/".to_string(),
        entries: Some(vec![folder("/ws", "tea", vec![doc("/ws/tea", "green.md", "leaf")])]),
    };
    let results = search_files("tea", &root).unwrap();
    assert_eq!(kinds(&results), vec![MatchKind::Folder]);
    assert!(search_files("/ws", &root).unwrap().is_empty());
}

#[test]
fn a_document_gives_one_result_for_its_name_or_path() {
    let root = workspace(vec![folder("/ws", "tea", vec![doc("/ws/tea", "tea.md", "tea\ntea")])]);
    let results = search_files("tea", &root).unwrap();
    assert_eq!(kinds(&results), vec![MatchKind::Filename, MatchKind::Content, MatchKind::Content]);
}
