use immich_cli::ids::IdSet;
use immich_cli::json::{read_json, write_field, write_object, write_optional, Json};
use immich_cli::table::{render_table, TableLine};
use immich_cli::text::{
    after_last, before_first, before_last, blank, comes_before, equal_ignoring_case, insert_sorted,
    joined, numeral, padded_start, rest_after, rest_before, trimmed, trimmed_end, without_leading,
    without_trailing,
};

#[test]
fn trimming_cuts_all_unicode_white_space() {
    assert_eq!(trimmed("\u{3000} a b\t\n"), "a b");
    assert_eq!(trimmed(" \u{a0}\u{2003}"), "");
    assert_eq!(trimmed_end(" a \r\n"), " a");
    assert!(blank("\u{85}\u{2028}"));
    assert!(blank(""));
    assert!(!blank("\u{200b}"));
}

#[test]
fn runs_of_a_character_are_cut_at_the_ends() {
    assert_eq!(without_leading("//a//", '/'), "a//");
    assert_eq!(without_trailing("//a//", '/'), "//a");
    assert_eq!(without_trailing("///", '/'), "");
}

#[test]
fn prefixes_and_suffixes_are_cut_whole() {
    assert_eq!(rest_after("~/a", "~/"), Some("a"));
    assert_eq!(rest_after("a", "~/"), None);
    assert_eq!(rest_before("a```", "```"), Some("a"));
    assert_eq!(rest_before("a``", "```"), None);
}

#[test]
fn texts_are_parted_at_a_character() {
    assert_eq!(before_first("2025-01-01T00:00", 'T'), "2025-01-01");
    assert_eq!(before_first("none", 'T'), "none");
    assert_eq!(before_last("/a/b/c", '/'), "/a/b");
    assert_eq!(after_last("/a/b/c", '/'), "c");
    assert_eq!(after_last("c", '/'), "c");
}

#[test]
fn letters_match_in_either_case() {
    assert!(equal_ignoring_case("IMG_1.JPG", "img_1.jpg"));
    assert!(!equal_ignoring_case("é", "É"));
    assert!(!equal_ignoring_case("a", "ab"));
}

#[test]
fn numerals_are_decimal() {
    assert_eq!(numeral(0), "0");
    assert_eq!(numeral(1024), "1024");
    assert_eq!(numeral(u128::MAX), u128::MAX.to_string());
}

#[test]
fn pieces_are_joined_and_padded() {
    let pieces: Vec<String> = vec!["a".into(), "b".into(), "c".into()];
    assert_eq!(joined(&pieces, ", "), "a, b, c");
    assert_eq!(joined(&vec![], ", "), "");
    assert_eq!(padded_start("99", 3), " 99");
    assert_eq!(padded_start("1000", 3), "1000");
}

#[test]
fn texts_are_ordered_by_code_point() {
    assert!(comes_before("A", "a"));
    assert!(comes_before("a", "ab"));
    assert!(!comes_before("b", "ab"));
    assert!(!comes_before("a", "a"));
    assert!(comes_before("z", "上"));
    let mut list = Vec::new();
    for name in ["b", "a", "c", "a"] {
        insert_sorted(&mut list, name);
    }
    assert_eq!(list, vec!["a", "b", "c"]);
}

#[test]
fn columns_are_as_wide_as_their_longest_cell() {
    let line = |cells: [&str; 3]| TableLine {
        mark: String::new(),
        cells: cells.iter().map(|c| c.to_string()).collect(),
    };
    let lines = vec![line(["A", "BB", "C"]), line(["上海", "x", "longer than C"])];
    assert_eq!(
        render_table(&lines, 3),
        "A   BB  C\n上海  x   longer than C\n"
    );
}

#[test]
fn ids_are_kept_once() {
    let mut ids = IdSet::new();
    assert!(ids.is_empty());
    assert!(ids.insert("a"));
    assert!(!ids.insert("a"));
    assert!(ids.insert("b"));
    assert_eq!(ids.len(), 2);
    assert!(ids.contains("a") && !ids.contains("c"));
}

#[test]
fn documents_are_read_as_they_are_written() {
    let doc = read_json(r#" {"a": [1, -2.5, true, null, "x\n上"], "b": {}} "#).unwrap();
    match doc.get("a") {
        Some(Json::List(items)) => {
            assert!(matches!(&items[0], Json::Number(n) if n.unsigned == Some(1) && n.text == "1"));
            assert!(matches!(&items[1], Json::Number(n) if n.unsigned.is_none() && n.text == "-2.5"));
            assert!(matches!(items[2], Json::Bool(true)));
            assert!(matches!(items[3], Json::Null));
            assert!(matches!(&items[4], Json::Text(t) if t == "x\n上"));
        }
        other => panic!("{other:?}"),
    }
    assert!(matches!(doc.get("b"), Some(Json::Fields(f)) if f.is_empty()));
    assert!(doc.get("c").is_none());
    assert_eq!(
        read_json("{").unwrap_err(),
        "EOF while parsing an object at line 1 column 1"
    );
    assert!(read_json("1 2").is_err());
}

#[test]
fn lists_of_texts_are_read_whole_or_not_at_all() {
    let doc = read_json(r#"{"ids":["a","b"]}"#).unwrap();
    assert_eq!(doc.texts_in("ids").unwrap(), vec!["a", "b"]);
    assert!(read_json(r#"{"ids":["a",1]}"#).unwrap().texts_in("ids").is_none());
    assert!(read_json(r#"{"ids":null}"#).unwrap().texts_in("ids").is_none());
    assert!(read_json(r#"{}"#).unwrap().texts_in("ids").unwrap().is_empty());
    assert!(read_json(r#"["a"]"#).unwrap().texts().is_some());
}

#[test]
fn strings_are_escaped() {
    assert_eq!(
        write_optional(Some("a\"b\\c\n\u{1}\u{7f}上")),
        "\"a\\\"b\\\\c\\n\\u0001\u{7f}上\""
    );
    assert_eq!(write_optional(None), "null");
    let fields = vec![write_field("a", "1"), write_field("b", "[]")];
    assert_eq!(write_object(&fields), "{\"a\":1,\"b\":[]}");
}
