use netsandbox::order::{stable_sort, text_less, OrderedMap};
use netsandbox::path::{add_path, contains_path, drop_path, FsPath};
use netsandbox::text::{
    contains_substring, join, number_text, pad, parse_unsigned, rsplit_once, split, split_lines,
    split_once, split_words, trim, Separator,
};

#[test]
fn texts_are_split() {
    assert_eq!(split("a,b,,c", Separator::Char(',')), ["a", "b", "", "c"]);
    assert_eq!(split_words("  a \t b\n"), ["a", "b"]);
    assert_eq!(split_lines("a\r\nb\n"), ["a", "b"]);
    assert_eq!(split_lines("a\n\n"), ["a", ""]);
    assert!(split_lines("").is_empty());
    assert_eq!(split_once("k=v=w", '='), Some(("k".to_owned(), "v=w".to_owned())));
    assert_eq!(rsplit_once("k=v=w", '='), Some(("k=v".to_owned(), "w".to_owned())));
    assert_eq!(split_once("k", '='), None);
    assert_eq!(trim(" \u{2003}x\n"), "x");
}

#[test]
fn texts_are_put_together() {
    assert_eq!(join(&vec!["a".to_owned(), "b".to_owned()], ", "), "a, b");
    assert_eq!(join(&Vec::new(), ", "), "");
    assert_eq!(pad("ab", 4), "ab  ");
    assert_eq!(pad("abcde", 4), "abcde");
    assert_eq!(number_text(0), "0");
    assert_eq!(number_text(u64::MAX), "18446744073709551615");
    assert!(contains_substring("nodev overlay", "overlay"));
    assert!(!contains_substring("over", "overlay"));
}

#[test]
fn numbers_are_read() {
    assert_eq!(parse_unsigned("755", 8, u32::MAX as u64), Some(0o755));
    assert_eq!(parse_unsigned("+7", 10, 9), Some(7));
    assert_eq!(parse_unsigned("10", 10, 9), None);
    assert_eq!(parse_unsigned("8", 8, 9), None);
    assert_eq!(parse_unsigned("", 10, 9), None);
    assert_eq!(parse_unsigned("+", 10, 9), None);
    assert_eq!(parse_unsigned("-1", 10, 9), None);
    assert_eq!(parse_unsigned("fF", 16, 255), Some(255));
}

#[test]
fn texts_are_ordered_like_their_bytes() {
    assert!(text_less("Zeta", "alpha"));
    assert!(text_less("a", "aa"));
    assert!(!text_less("a", "a"));
    assert!(text_less("\u{7f}", "\u{e9}"));
    let sorted = stable_sort(vec!["b".to_owned(), "a".to_owned(), "ab".to_owned()]);
    assert_eq!(sorted, ["a", "ab", "b"]);
}

#[test]
fn maps_keep_one_value_for_each_key() {
    let mut map: OrderedMap<String, String> = OrderedMap::new();
    map.insert("b".to_owned(), "1".to_owned());
    map.insert("a".to_owned(), "2".to_owned());
    map.insert("b".to_owned(), "3".to_owned());
    assert_eq!(map.len(), 2);
    assert_eq!(map.key_at(0), "a");
    assert_eq!(map.get(&"b".to_owned()).unwrap(), "3");
    map.remove(&"a".to_owned());
    assert!(!map.contains(&"a".to_owned()));
    assert!(map.get(&"c".to_owned()).is_none());
}

#[test]
fn paths_are_compared_part_by_part() {
    assert!(FsPath::new("etc//hosts/.").same(&FsPath::new("etc/hosts")));
    assert!(!FsPath::new("./etc").same(&FsPath::new("etc")));
    assert!(!FsPath::new("/etc").same(&FsPath::new("etc")));
    assert!(FsPath::new("/etc/hosts").starts_with(&FsPath::new("/etc")));
    assert!(!FsPath::new("/etcetera").starts_with(&FsPath::new("/etc")));
    assert_eq!(FsPath::new("/base").join("etc/hosts").display(), "/base/etc/hosts");
    assert_eq!(FsPath::new("/base/").join("etc").display(), "/base/etc");
    assert_eq!(FsPath::new("/base").join("/etc").display(), "/etc");
    assert_eq!(FsPath::new("//etc//hosts").strip_root().display(), "etc//hosts");
}

#[test]
fn path_lists_hold_each_path_once() {
    let mut list = vec![FsPath::new("a")];
    add_path(&mut list, &FsPath::new("a/"));
    assert_eq!(list.len(), 1);
    add_path(&mut list, &FsPath::new("b"));
    assert!(contains_path(&list, &FsPath::new("b")));
    drop_path(&mut list, &FsPath::new("a"));
    assert_eq!(list.len(), 1);
    assert_eq!(list[0].display(), "b");
}
