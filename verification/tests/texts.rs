use talos::error::TalosError;
use talos::model::Document;
use talos::paths::{extract_file_name, path_relative_to};
use talos::signature_set::SignatureSet;
use talos::text::{compare, compare_bytes, joined, same_text, Order};

#[test]
fn byte_order_of_texts() {
    assert_eq!(compare("a", "b"), Order::Less);
    assert_eq!(compare("b", "a"), Order::Greater);
    assert_eq!(compare("a", "a"), Order::Equal);
    assert_eq!(compare("", ""), Order::Equal);
    assert_eq!(compare("", "a"), Order::Less);
    assert_eq!(compare("a", ""), Order::Greater);
    assert_eq!(compare("ab", "abc"), Order::Less);
    assert_eq!(compare("abd", "abc"), Order::Greater);
    assert_eq!(compare("Z", "a"), Order::Less);
    assert_eq!(compare("#id", ".card"), Order::Less);
    assert_eq!(compare(".card", "@media"), Order::Less);
    assert_eq!(compare("a-b", "a/b"), Order::Less);
    assert_eq!(compare("z", "é"), Order::Less);
    assert_eq!(compare("é", "z"), Order::Greater);
}

#[test]
fn byte_order_of_bytes() {
    assert_eq!(compare_bytes(&[1, 2, 3], &[1, 2, 4]), Order::Less);
    assert_eq!(compare_bytes(&[1, 2, 3], &[1, 2]), Order::Greater);
    assert_eq!(compare_bytes(&[255], &[0, 0]), Order::Greater);
    assert_eq!(compare_bytes(&[], &[]), Order::Equal);
    assert_eq!(compare_bytes(&[7, 7], &[7, 7]), Order::Equal);
}

#[test]
fn byte_order_agrees_with_the_standard_order() {
    let samples = ["", "a", "A", "ab", "b", "é", "日本", "a b", "a\u{0}", "~", "class Foo"];
    for x in samples {
        for y in samples {
            let expected = match x.as_bytes().cmp(y.as_bytes()) {
                std::cmp::Ordering::Less => Order::Less,
                std::cmp::Ordering::Equal => Order::Equal,
                std::cmp::Ordering::Greater => Order::Greater,
            };
            assert_eq!(compare(x, y), expected);
            assert_eq!(same_text(x, y), x == y);
        }
    }
}

#[test]
fn texts_are_joined() {
    assert_eq!(joined("class ", "Foo"), "class Foo");
    assert_eq!(joined("", ""), "");
    assert_eq!(joined("a", ""), "a");
    assert_eq!(joined("", "b"), "b");
}

#[test]
fn a_signature_set_keeps_each_text_once_in_order() {
    let mut set = SignatureSet::new();
    assert_eq!(set.len(), 0);
    for text in ["m", "b", "z", "b", "a", "m", "", "aa"] {
        set.insert(text.to_string());
    }
    assert_eq!(set.len(), 6);
    assert_eq!(set.into_vec(), vec!["", "a", "aa", "b", "m", "z"]);
    assert_eq!(SignatureSet::new().into_vec(), Vec::<String>::new());
}

#[test]
fn the_text_of_each_error() {
    let s = |t: &str| t.to_string();
    assert_eq!(TalosError::Io(s("gone")).to_string(), "IO error: gone");
    assert_eq!(TalosError::Serialization(s("bad")).to_string(), "Serialization error: bad");
    assert_eq!(TalosError::TreeSitter(s("q")).to_string(), "Tree-sitter query error: q");
    assert_eq!(TalosError::InvalidInput(s("x")).to_string(), "Invalid input: x");
    assert_eq!(TalosError::ScanError(s("y")).to_string(), "Scan error: y");
    assert_eq!(TalosError::ScanError(s("")).to_string(), "Scan error: ");
}

#[test]
fn the_empty_document() {
    let doc = Document::default();
    assert_eq!(doc.schema_version, "");
    assert_eq!(doc.last_updated, "");
    assert!(doc.directories.is_empty());
    assert!(doc.errors.is_empty());
}

#[test]
fn paths_as_seen_from_the_root() {
    assert_eq!(path_relative_to("/proj/src/a.js", "/proj"), "src/a.js");
    assert_eq!(path_relative_to("/proj/a.js", "/proj"), "a.js");
    assert_eq!(path_relative_to("/proj", "/proj"), ".");
    assert_eq!(path_relative_to("/proj/", "/proj"), ".");
    assert_eq!(path_relative_to("/other/a.js", "/proj"), "/other/a.js");
    assert_eq!(path_relative_to("/project/a.js", "/proj"), "/project/a.js");
    assert_eq!(path_relative_to("a.js", ""), "a.js");
}

#[test]
fn the_name_shown_for_a_file() {
    assert_eq!(extract_file_name("/proj/src/a.js", "src/a.js"), "a.js");
    assert_eq!(extract_file_name("a.js", "a.js"), "a.js");
    assert_eq!(extract_file_name("/proj/src/..", "src/.."), "src/..");
    assert_eq!(extract_file_name("/", "."), ".");
}
