use thicket::clean::{clean_given_document, clean_source_code, unescape};
use thicket::json::{print, Json};

#[test]
fn simple_escapes_are_replaced() {
    assert_eq!(unescape(r#"a\nb\tc\rd\\e\"f\'g"#), "a\nb\tc\rd\\e\"f'g");
}

#[test]
fn unicode_escapes_are_replaced() {
    assert_eq!(unescape(r"\u0041\u00e9\u2603"), "A\u{e9}\u{2603}");
    assert_eq!(unescape(r"\uABcd!"), "\u{abcd}!");
    assert_eq!(unescape(r"\u00410"), "A0");
    assert_eq!(unescape(r"\ud7ff\ue000"), "\u{d7ff}\u{e000}");
}

#[test]
fn bad_unicode_escapes_are_dropped() {
    assert_eq!(unescape(r"a\ud800b"), "ab");
    assert_eq!(unescape(r"a\udfffb"), "ab");
    assert_eq!(unescape(r"a\u12xyz"), "axyz");
    assert_eq!(unescape(r"a\u"), "a");
    assert_eq!(unescape(r"a\u004"), "a");
    assert_eq!(unescape(r"a\uA"), "a");
}

#[test]
fn stray_backslashes_are_dropped() {
    assert_eq!(unescape(r"a\qb"), "aqb");
    assert_eq!(unescape(r"a\"), "a");
    assert_eq!(unescape(r"\\\"), "\\");
}

#[test]
fn unescape_undoes_escape() {
    let text = "(ok \"it's\")\n\tno \\ more\r";
    let escaped = text
        .replace('\\', "\\\\")
        .replace('\n', "\\n")
        .replace('\t', "\\t")
        .replace('\r', "\\r")
        .replace('"', "\\\"")
        .replace('\'', "\\'");
    assert_eq!(unescape(&escaped), text);
}

#[test]
fn plain_source_is_clean() {
    let source = "  (define-public (f) (ok true))\n";
    assert_eq!(clean_source_code(source), source);
    assert_eq!(clean_source_code(""), "");
}

#[test]
fn json_strings_are_taken_apart() {
    assert_eq!(clean_source_code(r#" "(ok 1)\n\u0041" "#), "(ok 1)\nA");
    assert_eq!(clean_source_code(r#""\ud83d\ude00""#), "\u{1f600}");
    assert_eq!(clean_source_code("\"\""), "");
}

#[test]
fn quoted_text_that_is_no_json_string_is_unescaped() {
    assert_eq!(clean_source_code(r#" "a" "b\n" "#), " \"a\" \"b\n\" ");
    assert_eq!(clean_source_code("\""), "\"");
    assert_eq!(clean_source_code(r#""a\q""#), "\"aq\"");
}

#[test]
fn unescape_never_grows() {
    for text in ["", "\\", "a\\nb", "\\u0041", "\\u00", "plain"] {
        assert!(unescape(text).chars().count() <= text.chars().count());
    }
}

#[test]
fn source_is_cleaned_given_its_document() {
    let text = || Some(Json::Text("inner".to_string()));
    assert_eq!(clean_given_document(" \"x\" ", text()), "inner");
    assert_eq!(clean_given_document("x\\n", text()), "x\n");
    assert_eq!(clean_given_document("\"x\"", None), "\"x\"");
    assert_eq!(clean_given_document("\"x\"", Some(Json::Null)), "\"x\"");
}

#[test]
fn cleaning_opens_what_was_written_as_a_json_string() {
    for source in ["", " (ok 1) ", "\"quoted\"", "a\\nb\n\t'c'", "\u{1}\u{e9}\u{1f600}"] {
        let written = print(&Json::Text(source.to_string())).unwrap();
        for (left, right) in [("", ""), (" \n", "\u{3000}"), ("\t", "")] {
            assert_eq!(
                clean_source_code(&format!("{}{}{}", left, written, right)),
                source
            );
        }
    }
}
