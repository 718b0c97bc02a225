use fix_engine::paths::{
    extension, file_name, file_stem, has_component, is_absolute, join as join_paths, parent, parts,
};
use fix_engine::table::{PathTable, TextTable};
use fix_engine::text::{
    byte_length, contains, decimal_of, join, lines, replace, replace_first, trim, trim_end,
    trim_start,
};
use fix_engine::workspace::{Node, Workspace};

#[test]
fn lines_of_a_text() {
    assert_eq!(lines("a\nb\n"), vec!["a", "b"]);
    assert_eq!(lines("a\r\nb\r"), vec!["a", "b\r"]);
    assert_eq!(lines("\n\n"), vec!["", ""]);
    assert!(lines("").is_empty());
}

#[test]
fn texts_of_lines() {
    let all = lines("a\n\nb");
    assert_eq!(join(&all, "\n"), "a\n\nb");
    assert_eq!(join(&Vec::new(), ","), "");
}

#[test]
fn replacing_texts() {
    assert_eq!(replace("aaa", "aa", "b"), "ba");
    assert_eq!(replace("abc", "", "-"), "-a-b-c-");
    assert_eq!(replace_first("abab", "ab", "x"), "xab");
    assert_eq!(replace_first("abab", "q", "x"), "abab");
    assert_eq!(replace_first("ab", "", "x"), "xab");
    assert!(contains("abc", ""));
    assert!(!contains("abc", "ac"));
}

#[test]
fn trimming_texts() {
    assert_eq!(trim("  a b\t\n"), "a b");
    assert_eq!(trim_start("\u{a0} a "), "a ");
    assert_eq!(trim_end(" a \u{3000}"), " a");
    assert_eq!(trim(" \n"), "");
}

#[test]
fn numbers_and_lengths() {
    assert_eq!(decimal_of(0), "0");
    assert_eq!(decimal_of(18446744073709551615), "18446744073709551615");
    assert_eq!(byte_length("aé€"), 6);
}

#[test]
fn parts_of_paths() {
    assert_eq!(file_name("/a/b.tsx"), Some("b.tsx".to_string()));
    assert_eq!(file_name("/a/b/"), Some("b".to_string()));
    assert_eq!(file_name("/a/.."), None);
    assert_eq!(file_name("/"), None);
    assert_eq!(parent("/a/b"), Some("/a".to_string()));
    assert_eq!(parent("/a"), Some("/".to_string()));
    assert_eq!(parent("/"), None);
    assert_eq!(parent("a"), Some("".to_string()));
    assert_eq!(extension("/a/b.test.tsx"), Some("tsx".to_string()));
    assert_eq!(extension("/a/.hidden"), None);
    assert_eq!(file_stem("/a/b.test.tsx"), Some("b.test".to_string()));
    assert_eq!(parts("/a//b/./c"), vec!["/", "a", "b", "c"]);
    assert!(has_component("/a/node_modules/b", "node_modules"));
    assert!(!has_component("/a/my_node_modules/b", "node_modules"));
    assert!(is_absolute("/a"));
    assert!(!is_absolute("a"));
    assert_eq!(join_paths("/a", "b"), "/a/b");
    assert_eq!(join_paths("/a/", "b"), "/a/b");
    assert_eq!(join_paths("/a", "/b"), "/b");
    assert_eq!(join_paths("", "b"), "b");
}

#[test]
fn tables_are_walked_in_order() {
    let mut table: TextTable<u32> = TextTable::new();
    table.insert("b".to_string(), 1);
    table.insert("a".to_string(), 2);
    table.insert("b".to_string(), 3);
    assert_eq!(table.len(), 2);
    assert_eq!(table.key(0), "a");
    assert_eq!(*table.value(1), 3);
    assert_eq!(table.get("b"), Some(&3));
    assert!(table.get("c").is_none());
}

#[test]
fn path_tables_go_by_components() {
    let mut table: PathTable<u32> = PathTable::new();
    table.insert("/a.b".to_string(), 1);
    table.insert("/a/b".to_string(), 2);
    table.insert("/a//b".to_string(), 3);
    assert_eq!(table.len(), 2);
    assert_eq!(table.key(0), "/a/b");
    assert_eq!(*table.value(0), 3);
}

#[test]
fn a_workspace_knows_files_and_directories() {
    let mut ws = Workspace::new();
    ws.nodes
        .insert("/p".to_string(), Node::Directory(vec!["a".to_string()]));
    ws.nodes
        .insert("/p/a".to_string(), Node::File("text".to_string()));
    ws.nodes
        .insert("/p/b".to_string(), Node::Unreadable("denied".to_string()));
    assert_eq!(ws.read("/p/a"), Ok("text"));
    assert_eq!(ws.read("/p/b"), Err("denied".to_string()));
    assert!(ws.read("/p/c").is_err());
    assert!(ws.is_dir("/p"));
    assert!(!ws.is_file("/p"));
    assert!(ws.is_file("/p/a"));
    assert!(ws.has("/p/b"));
    assert!(!ws.has("/p/c"));
    assert_eq!(ws.list("/p"), vec!["a"]);
    assert!(ws.list("/p/a").is_empty());
    assert!(ws.registry_answer("x").is_none());
}
