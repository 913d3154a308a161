use allein::paths::{
    document, entry_name, file_name, hidden, inside, join, last_name, no_directory,
    parent_dir_of, parent_of, path_components, relative, same_path, trim_end, under,
};
use allein::listing::{FileInfo, NewestFirst};
use allein::sorting::{chars_le, sort, str_le};
use allein::text::{
    appended, chars_of, contains, decimal_chars, find, has_prefix, has_suffix, rfind_char,
    same_chars, same_text, split_lines, string_of, string_of_range,
};

fn cs(s: &str) -> Vec<char> {
    s.chars().collect()
}

#[test]
fn strings_and_characters_convert_both_ways() {
    assert_eq!(chars_of("aé✨"), vec!['a', 'é', '✨']);
    assert_eq!(chars_of(""), Vec::<char>::new());
    assert_eq!(string_of(&cs("aé✨")), "aé✨");
    assert_eq!(string_of_range(&cs("hello"), 1, 3), "el");
    assert_eq!(string_of_range(&cs("hello"), 2, 2), "");
    assert_eq!(appended("ab", "cd"), "abcd");
}

#[test]
fn find_returns_the_first_place() {
    assert_eq!(find(&cs("abcabc"), &cs("bc")), Some(1));
    assert_eq!(find(&cs("abcabc"), &cs("abc")), Some(0));
    assert_eq!(find(&cs("abcabc"), &cs("cab")), Some(2));
    assert_eq!(find(&cs("abcabc"), &cs("abcabc")), Some(0));
    assert_eq!(find(&cs("abc"), &cs("abcd")), None);
    assert_eq!(find(&cs("abc"), &cs("x")), None);
    assert_eq!(find(&cs("abc"), &cs("")), Some(0));
    assert_eq!(find(&cs(""), &cs("")), Some(0));
    assert_eq!(find(&cs("aab"), &cs("ab")), Some(1));
    // places are counted in characters
    assert_eq!(find(&cs("ééx"), &cs("x")), Some(2));
    assert!(contains(&cs("hello"), &cs("ell")));
    assert!(!contains(&cs("hello"), &cs("elo")));
}

#[test]
fn prefixes_and_suffixes() {
    assert!(has_prefix(&cs("hello"), &cs("he")));
    assert!(has_prefix(&cs("hello"), &cs("")));
    assert!(!has_prefix(&cs("he"), &cs("hello")));
    assert!(!has_prefix(&cs("hello"), &cs("el")));
    assert!(has_suffix(&cs("hello"), &cs("llo")));
    assert!(!has_suffix(&cs("hello"), &cs("hell")));
    assert!(same_chars(&cs("a"), &cs("a")));
    assert!(!same_chars(&cs("a"), &cs("ab")));
    assert!(same_text("é", "é"));
    assert!(!same_text("e", "é"));
    assert_eq!(rfind_char(&cs("a/b/c"), '/'), Some(3));
    assert_eq!(rfind_char(&cs("abc"), '/'), None);
    assert_eq!(rfind_char(&cs("/"), '/'), Some(0));
}

#[test]
fn numbers_are_written_in_decimal() {
    assert_eq!(string_of(&decimal_chars(0)), "0");
    assert_eq!(string_of(&decimal_chars(7)), "7");
    assert_eq!(string_of(&decimal_chars(10)), "10");
    assert_eq!(string_of(&decimal_chars(1905)), "1905");
    assert_eq!(string_of(&decimal_chars(u128::MAX)), u128::MAX.to_string());
}

fn lines_of(s: &str) -> Vec<String> {
    split_lines(&cs(s)).iter().map(string_of).collect()
}

#[test]
fn lines_are_split_as_the_standard_library_does() {
    for text in [
        "",
        "a",
        "a\n",
        "a\nb",
        "a\n\nb\n",
        "\n",
        "\n\n",
        "a\r\nb\r\n",
        "a\rb\n",
        "a\r",
        "\r\n",
        "\r",
        "a\n\r\nb",
        "é\n✨",
    ] {
        let expected: Vec<String> = text.lines().map(|l| l.to_string()).collect();
        assert_eq!(lines_of(text), expected, "for {:?}", text);
    }
    assert_eq!(lines_of("a\r\nb\r"), vec!["a", "b\r"]);
}

#[test]
fn names_are_ordered_by_code_point() {
    assert!(str_le("", ""));
    assert!(str_le("", "a"));
    assert!(!str_le("a", ""));
    assert!(str_le("a", "a"));
    assert!(str_le("a", "ab"));
    assert!(!str_le("ab", "a"));
    assert!(str_le("B", "a"));
    assert!(!str_le("a", "B"));
    assert!(str_le("z", "é"));
    assert!(str_le("é", "✨"));
    assert!(chars_le(&cs("abc"), &cs("abd")));
    assert!(!chars_le(&cs("abd"), &cs("abc")));
    for (a, b) in [("a", "b"), ("B", "a"), ("é", "z"), ("ab", "a"), ("", "x"), ("✨", "é")] {
        assert_eq!(str_le(a, b), a <= b, "{:?} and {:?}", a, b);
        assert_eq!(str_le(b, a), b <= a, "{:?} and {:?}", b, a);
    }
}

fn info(name: &str, modified: u64) -> FileInfo {
    FileInfo { name: name.to_string(), path: format!("/ws/{}", name), size: 0, modified }
}

#[test]
fn sorting_is_stable() {
    let files = vec![info("a", 3), info("b", 1), info("c", 3), info("d", 2), info("e", 1)];
    let names: Vec<String> =
        sort::<FileInfo, NewestFirst>(files).into_iter().map(|f| f.name).collect();
    assert_eq!(names, vec!["a", "c", "d", "b", "e"]);
    assert!(sort::<FileInfo, NewestFirst>(vec![]).is_empty());
    assert_eq!(sort::<FileInfo, NewestFirst>(vec![info("x", 1)]).len(), 1);
}

#[test]
fn the_parts_of_a_path() {
    assert_eq!(file_name("/a/b/c.md"), "c.md");
    assert_eq!(file_name("c.md"), "c.md");
    assert_eq!(file_name("/a/b/"), "");
    assert_eq!(file_name(""), "");
    assert_eq!(parent_of("/a/b/c.md"), "/a/b");
    assert_eq!(parent_of("/c.md"), "");
    assert_eq!(parent_of("c.md"), "");
    assert_eq!(join("/a", "b"), "/a/b");
    assert_eq!(join("/a/", "b"), "/a/b");
    assert_eq!(join("", "b"), "b");
    assert_eq!(join("/", "b"), "/b");
}

#[test]
fn names_that_are_hidden_documents_or_no_names() {
    assert!(hidden(".git"));
    assert!(hidden("."));
    assert!(!hidden("git"));
    assert!(!hidden(""));
    assert!(document("a.md"));
    assert!(!document(".md"));
    assert!(!document("a.mdx"));
    assert!(!document("a.Md"));
    assert!(entry_name("a"));
    assert!(entry_name("..."));
    assert!(!entry_name(""));
    assert!(!entry_name("."));
    assert!(!entry_name(".."));
}

#[test]
fn a_path_below_another() {
    assert!(under("/a/b", "/a"));
    assert!(under("/a", "/a"));
    assert!(under("/a/b/c", "/a"));
    assert!(!under("/ab", "/a"));
    assert!(!under("/a", "/a/b"));
    assert!(!under("/b/a", "/a"));
    assert_eq!(relative("/ws/a/b.md", "/ws"), "a/b.md");
    assert_eq!(relative("/ws/b.md", "/ws"), "b.md");
    assert_eq!(relative("/ws/b.md", "/ws/"), "b.md");
    assert_eq!(relative("/wsx/b.md", "/ws"), "");
    assert_eq!(relative("/ws", "/ws"), "");
    assert_eq!(relative("/other/b.md", "/ws"), "");
}

#[test]
fn a_path_names_an_entry_of_a_directory() {
    assert!(inside("/ws/a.md", "/ws"));
    assert!(inside("/ws/a.md", "/ws/"));
    assert!(inside("/a.md", "/"));
    assert!(inside("a.md", ""));
    assert!(!inside("/ws/sub/a.md", "/ws"));
    assert!(!inside("/ws/a.md", "/ws/sub"));
    assert!(!inside("/wsx/a.md", "/ws"));
    assert!(!inside("/ws/a.md", ""));
    assert!(!inside("/ws//a.md", "/ws"));
    assert!(no_directory("a.md"));
    assert!(no_directory("/a.md"));
    assert!(!no_directory("/ws/a.md"));
    assert!(!no_directory("ws/a.md"));
}

#[test]
fn the_end_of_a_path_is_trimmed() {
    assert_eq!(trim_end("/a/b"), "/a/b");
    assert_eq!(trim_end("/a/b/"), "/a/b");
    assert_eq!(trim_end("/a/b///"), "/a/b");
    assert_eq!(trim_end("/a/b/."), "/a/b");
    assert_eq!(trim_end("/a/b/./"), "/a/b");
    assert_eq!(trim_end("/a/b/././/"), "/a/b");
    assert_eq!(trim_end("/a/b/.."), "/a/b/..");
    assert_eq!(trim_end("/a/b."), "/a/b.");
    assert_eq!(trim_end("/"), "");
    assert_eq!(trim_end(""), "");
    assert_eq!(trim_end("."), ".");
    assert_eq!(trim_end("./"), ".");
    assert_eq!(trim_end("/."), "");
}

fn parts(path: &str) -> Vec<String> {
    path_components(path).iter().map(string_of).collect()
}

#[test]
fn the_components_of_a_path_leave_out_what_says_nothing() {
    assert_eq!(parts("/a/b/c.md"), vec!["a", "b", "c.md"]);
    assert_eq!(parts("a/b"), vec!["a", "b"]);
    assert_eq!(parts("/a//b/"), vec!["a", "b"]);
    assert_eq!(parts("/a/./b/."), vec!["a", "b"]);
    assert_eq!(parts("./a"), vec!["a"]);
    assert_eq!(parts("/a/../b"), vec!["a", "..", "b"]);
    assert_eq!(parts("/a/.b/c."), vec!["a", ".b", "c."]);
    assert_eq!(parts("/a/.../b"), vec!["a", "...", "b"]);
    assert_eq!(parts(""), Vec::<String>::new());
    assert_eq!(parts("/"), Vec::<String>::new());
    assert_eq!(parts("///"), Vec::<String>::new());
    assert_eq!(parts("."), Vec::<String>::new());
    assert_eq!(parts("/./."), Vec::<String>::new());
    assert_eq!(parts("é/✨"), vec!["é", "✨"]);
}

#[test]
fn components_agree_with_the_standard_library() {
    for path in ["/a/b", "a//b/", "/a/./b", "/a/../b", "a/b/.", "/", "", "//a", "/a/.b", "a/b/.."] {
        let expected: Vec<String> = std::path::Path::new(path)
            .components()
            .filter_map(|c| match c {
                std::path::Component::Normal(n) => Some(n.to_string_lossy().to_string()),
                std::path::Component::ParentDir => Some("..".to_string()),
                _ => None,
            })
            .collect();
        assert_eq!(parts(path), expected, "for {:?}", path);
    }
}

#[test]
fn places_are_told_by_components() {
    let pairs = [
        ("/a/b", "/a/b"),
        ("/a//b", "/a/b"),
        ("/a/b/", "/a/b"),
        ("/a/./b", "/a/b"),
        ("/a/b", "a/b"),
        ("./a", "a"),
        ("./a", "./a/."),
        ("/a/b", "/a/c"),
        ("/a", "/a/b"),
        ("/a/../b", "/b"),
        ("", ""),
        ("/", "//"),
    ];
    for (a, b) in pairs {
        let expected = std::path::Path::new(a) == std::path::Path::new(b);
        assert_eq!(same_path(a, b), expected, "{:?} and {:?}", a, b);
        assert_eq!(same_path(b, a), expected, "{:?} and {:?}", b, a);
    }
}

#[test]
fn below_is_told_by_components() {
    let pairs = [
        ("/a/b", "/a"),
        ("/a//b", "/a/"),
        ("/a/./b/c", "/a/b"),
        ("/ab", "/a"),
        ("/a", "/a/b"),
        ("/a/b", "a"),
        ("a/b", "a"),
        ("./a/b", "./a"),
        ("./a/b", "a"),
        ("/a/b", "/a/b"),
        ("/a/b/..", "/a/b"),
        ("/a", "/"),
        ("/r//A/B/A", "/r/A"),
    ];
    for (path, ancestor) in pairs {
        let expected = std::path::Path::new(path).starts_with(ancestor);
        assert_eq!(under(path, ancestor), expected, "{:?} below {:?}", path, ancestor);
    }
}

#[test]
fn the_last_component_names_the_entry() {
    for path in ["/a/b.md", "/a/b/", "/a/b/.", "a", "/a//b", "/", "", ".", "..", "/a/..", "/..", "a/./"] {
        let expected =
            std::path::Path::new(path).file_name().map(|n| n.to_string_lossy().to_string());
        assert_eq!(last_name(path), expected, "for {:?}", path);
    }
}

#[test]
fn the_directory_of_the_last_component() {
    for path in ["/a/b.md", "/a/b/", "/a//b", "/a/./b", "/b", "//b", "b", "./b", "a/b/c/.", "a/b"] {
        let expected = std::path::Path::new(path).parent().unwrap().to_string_lossy().to_string();
        assert_eq!(parent_dir_of(path), expected, "for {:?}", path);
    }
}
