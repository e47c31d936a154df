use epub::io::{basename_and_ext, create_dirs, split_path};
use epub::path::text_before;

#[test]
fn test_split_path() {
    let s = String::from("/this/path/is/here.txt");
    let vec = split_path(&s);
    assert_eq!(vec.len(), 4);
    assert_eq!(vec[0], "this");
    assert_eq!(vec[1], "path");
    assert_eq!(vec[2], "is");
    assert_eq!(vec[3], "here.txt");
}

#[test]
fn test_split_path_start() {
    let s = String::from("here.txt");
    let vec = split_path(&s);
    assert_eq!(vec.len(), 1);
    assert_eq!(vec[0], "here.txt");
}

#[test]
fn test_split_path_end() {
    let s = String::from("/start/end/");
    let vec = split_path(&s);
    assert_eq!(vec.len(), 2);
    assert_eq!(vec[0], "start");
    assert_eq!(vec[1], "end");
}

#[test]
fn test_extension() {
    let s = String::from("/a/start/end.txt");
    let (base_vec, ext_vec) = basename_and_ext(&s);
    assert_eq!(base_vec, "end");
    assert_eq!(ext_vec, ".txt");
}

#[test]
fn test_no_extension() {
    let s = String::from("/start/end");
    let (base_vec, ext_vec) = basename_and_ext(&s);
    assert_eq!(base_vec, "end");
    assert_eq!(ext_vec.len(), 0);
}

#[test]
fn split_path_drops_empty_parts() {
    assert!(split_path("").is_empty());
    assert!(split_path("///").is_empty());
    assert_eq!(split_path("a//b"), vec!["a", "b"]);
    assert_eq!(split_path("//a"), vec!["a"]);
    assert_eq!(split_path("größe/ß"), vec!["größe", "ß"]);
}

#[test]
fn basename_is_cut_at_the_first_dot() {
    assert_eq!(basename_and_ext("a/b.tar.gz"), ("b".to_string(), ".tar.gz".to_string()));
    assert_eq!(basename_and_ext(".hidden"), ("".to_string(), ".hidden".to_string()));
    assert_eq!(basename_and_ext("dir.d/name"), ("name".to_string(), "".to_string()));
    assert_eq!(basename_and_ext(""), ("".to_string(), "".to_string()));
    assert_eq!(basename_and_ext("/"), ("".to_string(), "".to_string()));
}

#[test]
fn text_before_stops_at_the_first_occurrence() {
    assert_eq!(text_before("/expanded/OEBPS/content.opf", "content"), "/expanded/OEBPS/");
    assert_eq!(text_before("abcabc", "bc"), "a");
    assert_eq!(text_before("abc", "x"), "abc");
    assert_eq!(text_before("abc", ""), "");
    assert_eq!(text_before("ab", "abc"), "ab");
    assert_eq!(text_before("", ""), "");
    assert_eq!(text_before("aab", "ab"), "a");
}

#[test]
fn directories_are_listed_from_the_outermost() {
    assert_eq!(create_dirs("/CUR_BOOK/expanded/"), vec!["CUR_BOOK", "CUR_BOOK/expanded"]);
    assert_eq!(create_dirs("a//b/c"), vec!["a", "a/b", "a/b/c"]);
    assert_eq!(create_dirs("one"), vec!["one"]);
    assert!(create_dirs("/").is_empty());
    assert!(create_dirs("").is_empty());
}
