use thicket::json::parse;
use thicket::source::{
    defines_contract, extract_from_script_tags, find_code_in_script, find_contract_in_elements,
    find_contract_in_groups, find_first_contract, find_source_given_document, find_source_in_json,
    find_source_in_page, find_source_in_script,
};

fn found(document: &str) -> Option<String> {
    find_source_in_json(&parse(document).unwrap())
}

#[test]
fn sources_are_found_under_each_key() {
    assert_eq!(found(r#"{"source":"a"}"#), Some("a".to_string()));
    assert_eq!(found(r#"{"sourceCode":"a"}"#), Some("a".to_string()));
    assert_eq!(found(r#"{"source_code":"a"}"#), Some("a".to_string()));
    assert_eq!(found(r#"{"Source":"a"}"#), None);
}

#[test]
fn sources_are_found_at_any_depth() {
    assert_eq!(found(r#"[1,[{"x":{"source":"a"}}]]"#), Some("a".to_string()));
    assert_eq!(found(r#"{"source":{"source":"a"}}"#), Some("a".to_string()));
    assert_eq!(found(r#"{"source":["a"]}"#), None);
    assert_eq!(found(r#""source""#), None);
}

#[test]
fn the_first_source_is_found() {
    assert_eq!(
        found(r#"{"z":{"source":"inner"},"source":"outer"}"#),
        Some("outer".to_string())
    );
    assert_eq!(
        found(r#"{"a":{"source":"inner"},"source":"outer"}"#),
        Some("inner".to_string())
    );
    assert_eq!(
        found(r#"[{"source":1},{"source":"b"},{"source":"c"}]"#),
        Some("b".to_string())
    );
}

#[test]
fn code_in_a_script_runs_to_the_last_bracket() {
    let code = "define-public (transfer (amount uint)) (begin (ok true) (ok 1))";
    let script = format!("x = `({} rest", code);
    assert_eq!(find_code_in_script(&script), Some(code.to_string()));
    assert_eq!(find_code_in_script("define-public (short))"), None);
    assert_eq!(find_code_in_script(&"define-private (f) ".repeat(9)), None);
    assert_eq!(find_code_in_script(&"define-public ".repeat(9)), None);
}

#[test]
fn code_in_a_script_is_measured_in_bytes() {
    let fifty = format!("define-public{})", "x".repeat(36));
    assert_eq!(fifty.len(), 50);
    assert_eq!(find_code_in_script(&fifty), None);
    let fifty_one = format!("define-public{})", "x".repeat(37));
    assert_eq!(find_code_in_script(&fifty_one), Some(fifty_one.clone()));
    let accented = format!("define-public{})", "\u{e9}".repeat(19));
    assert_eq!(accented.len(), 52);
    assert_eq!(find_code_in_script(&accented), Some(accented.clone()));
}

#[test]
fn a_script_that_is_json_is_searched_first() {
    let code = format!("define-public{})", "x".repeat(60));
    let script = format!(r#"{{"source":"y","other":"{}"}}"#, code);
    assert_eq!(find_source_in_script(&script), Some("y".to_string()));
    let script = format!(r#"{{"other":"{}"}}"#, code);
    assert_eq!(find_source_in_script(&script), Some(code));
    assert_eq!(find_source_in_script("{}"), None);
}

#[test]
fn scripts_are_taken_from_the_page() {
    assert_eq!(
        extract_from_script_tags(r#"<script>{"source":"a"}</script>"#),
        Some("a".to_string())
    );
    assert_eq!(
        extract_from_script_tags(
            "<p><script type=\"x\"\n id=1>\n{\"source\":\"a\"}\n</script><script>{\"source\":\"b\"}</script>"
        ),
        Some("a".to_string())
    );
    assert_eq!(
        extract_from_script_tags(r#"<script></script><scripted>{"source":"b"}</script>"#),
        Some("b".to_string())
    );
    assert_eq!(
        extract_from_script_tags(r#"<script>no</script> <script a>{"source":"c"}</script>"#),
        Some("c".to_string())
    );
}

#[test]
fn scripts_end_at_the_first_closing_tag() {
    assert_eq!(
        extract_from_script_tags(r#"<script><script>{"source":"a"}</script>"#),
        None
    );
    assert_eq!(
        extract_from_script_tags(r#"<script>{"source":"a"}</SCRIPT>"#),
        None
    );
    assert_eq!(extract_from_script_tags(r#"<script {"source":"a"}"#), None);
    assert_eq!(
        extract_from_script_tags(r#"</script><script>{"source":"</script>"}</script>"#),
        None
    );
    assert_eq!(extract_from_script_tags(""), None);
}

#[test]
fn definitions_are_recognized() {
    for word in [
        "define-public",
        "define-private",
        "define-read-only",
        "define-map",
        "define-constant",
    ] {
        assert!(defines_contract(&format!("({} x)", word)));
    }
    assert!(!defines_contract("(define-data-var x uint u0)"));
    assert!(!defines_contract(""));
}

#[test]
fn the_first_contract_is_chosen() {
    let found = vec![
        "nothing".to_string(),
        " (define-map a b c) ".to_string(),
        "(define-public x)".to_string(),
    ];
    assert_eq!(
        find_first_contract(&found),
        Some("(define-map a b c)".to_string())
    );
    assert_eq!(find_first_contract(&vec![]), None);
}

#[test]
fn elements_are_searched_by_selector() {
    let page = "<html><body><pre>(define-map p)</pre><code>(define-map c)</code>\
                <div data-source-code='1'>(define-map d)</div></body></html>";
    assert_eq!(
        find_contract_in_elements(page),
        Some("(define-map d)".to_string())
    );
    let page = "<pre>(define-map p)</pre><code>(define-map c)</code>";
    assert_eq!(
        find_contract_in_elements(page),
        Some("(define-map c)".to_string())
    );
    let page = "<code>(define-map c)</code><pre><code> (define-map &lt;<b>x</b>) </code></pre>";
    assert_eq!(
        find_contract_in_elements(page),
        Some("(define-map <x)".to_string())
    );
    let page = "<pre class='source-code'>(define-map q)</pre>\
                <code class='source-code'>(define-map r)</code>";
    assert_eq!(
        find_contract_in_elements(page),
        Some("(define-map r)".to_string())
    );
    assert_eq!(find_contract_in_elements("<p>(define-map x)</p>"), None);
}

#[test]
fn pages_are_searched_and_what_is_found_is_cleaned() {
    assert_eq!(
        find_source_in_page(r#"<script>{"source":"a\\nb"}</script><pre>(define-map x)</pre>"#),
        Some("a\nb".to_string())
    );
    assert_eq!(
        find_source_in_page(r"<script>1</script><pre> (define-map\n x) </pre>"),
        Some("(define-map\n x)".to_string())
    );
    assert_eq!(find_source_in_page("<html></html>"), None);
}

#[test]
fn a_script_is_searched_given_its_document() {
    let code = format!("define-public{})", "x".repeat(60));
    assert_eq!(
        find_source_given_document(&code, parse(r#"[{"source":"y"}]"#)),
        Some("y".to_string())
    );
    assert_eq!(
        find_source_given_document(&code, parse("[]")),
        Some(code.clone())
    );
    assert_eq!(find_source_given_document(&code, None), Some(code.clone()));
    assert_eq!(find_source_given_document("", None), None);
}

#[test]
fn groups_are_tried_one_after_the_other() {
    let group = |words: &[&str]| words.iter().map(|w| w.to_string()).collect::<Vec<String>>();
    let groups = vec![
        group(&["nothing"]),
        group(&["nothing", " (define-map a)"]),
        group(&["(define-map b)"]),
    ];
    assert_eq!(
        find_contract_in_groups(&groups),
        Some("(define-map a)".to_string())
    );
    assert_eq!(find_contract_in_groups(&vec![group(&["x"])]), None);
    assert_eq!(find_contract_in_groups(&vec![]), None);
}

fn script_contents(page: &str) -> Vec<String> {
    let mut contents = Vec::new();
    let mut from = 0;
    while from < page.len() {
        let rest = &page[from..];
        let mut next = from + 1;
        if rest.starts_with("<script") {
            if let Some(open) = rest.find('>') {
                if let Some(close) = rest[open + 1..].find("</script>") {
                    contents.push(rest[open + 1..open + 1 + close].to_string());
                    next = from + open + 1 + close + 9;
                }
            }
        }
        from = next;
    }
    contents
}

#[test]
fn scripts_are_found_in_every_arrangement() {
    let parts = ["<script", ">", "</script>", r#"{"source":"a"}"#, r#"{"source":"b"}"#];
    let mut pages: Vec<String> = vec![String::new()];
    let mut longest = pages.clone();
    for _ in 0..5 {
        let mut longer = Vec::new();
        for page in &longest {
            for part in parts {
                longer.push(format!("{}{}", page, part));
            }
        }
        pages.extend(longer.clone());
        longest = longer;
    }
    for page in pages {
        let expected = script_contents(&page)
            .into_iter()
            .find_map(|content| find_source_in_script(&content));
        assert_eq!(extract_from_script_tags(&page), expected, "{}", page);
    }
}
