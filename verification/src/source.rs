//! Finding the source code of a contract in what a server sent.

use crate::clean::{clean_source_code, cleaned};
use crate::json::{document_view, json_parse, parse, Json, JsonTree};
use crate::text::{
    chars_of, contains, find_from, find_last, first_at, has_text, last_at, law_contains, law_last_at,
    law_occurrence_parts_text, law_occurs_between, lemma_first_at, lemma_first_at_behind,
    lemma_first_at_is, occurs_at, same_text, text_between, text_view, trim, trimmed,
};
use regex::Regex;
use scraper::{Html, Selector};
use vstd::prelude::*;
use vstd::utf8::encode_utf8;

verus! {

/// The key of a JSON object under which source code is looked for.
pub open spec fn is_source_key(key: Seq<char>) -> bool {
    key == "source"@ || key == "sourceCode"@ || key == "source_code"@
}

/// The first text under a source key, walking the document from the outside in
/// and from front to back.
pub open spec fn find_source(tree: JsonTree) -> Option<Seq<char>>
    decreases tree,
{
    match tree {
        JsonTree::Object(entries) => find_source_in_entries(entries),
        JsonTree::Array(items) => find_source_in_items(items),
        _ => None,
    }
}

/// [`find_source`] among the entries of an object: each entry is looked at
/// before the entries inside it.
pub open spec fn find_source_in_entries(entries: Seq<(Seq<char>, JsonTree)>) -> Option<Seq<char>>
    decreases entries,
{
    if entries.len() == 0 {
        None
    } else if is_source_key(entries[0].0) && entries[0].1 is Text {
        Some(entries[0].1->Text_0)
    } else if find_source(entries[0].1) is Some {
        find_source(entries[0].1)
    } else {
        find_source_in_entries(entries.drop_first())
    }
}

/// [`find_source`] among the items of an array.
pub open spec fn find_source_in_items(items: Seq<JsonTree>) -> Option<Seq<char>>
    decreases items,
{
    if items.len() == 0 {
        None
    } else if find_source(items[0]) is Some {
        find_source(items[0])
    } else {
        find_source_in_items(items.drop_first())
    }
}

/// Whether source code is looked for under `key`.
fn source_key(key: &str) -> (r: bool)
    ensures
        r == is_source_key(key@),
{
    same_text(key, "source") || same_text(key, "sourceCode") || same_text(key, "source_code")
}

/// Finds the first text under a source key in a document.
pub fn find_source_in_json(json: &Json) -> (r: Option<String>)
    ensures
        text_view(r) == find_source(json@),
    decreases *json,
{
    match json {
        Json::Object(entries) => {
            let ghost all = json@->Object_0;
            let mut i: usize = 0;
            assert(all.skip(0) =~= all);
            while i < entries.len()
                invariant
                    i <= entries@.len(),
                    *json == Json::Object(*entries),
                    all == json@->Object_0,
                    find_source(json@) == find_source_in_entries(all.skip(i as int)),
                decreases entries@.len() - i,
            {
                let entry = &entries[i];
                assert(all.skip(i as int)[0] == (entry.0@, entry.1@));
                assert(all.skip(i as int).drop_first() =~= all.skip(i + 1));
                if source_key(entry.0.as_str()) {
                    if let Some(s) = entry.1.as_text() {
                        return Some(s);
                    }
                }
                if let Some(s) = find_source_in_json(&entry.1) {
                    return Some(s);
                }
                i += 1;
            }
            None
        },
        Json::Array(items) => {
            let ghost all = json@->Array_0;
            let mut i: usize = 0;
            assert(all.skip(0) =~= all);
            while i < items.len()
                invariant
                    i <= items@.len(),
                    *json == Json::Array(*items),
                    all == json@->Array_0,
                    find_source(json@) == find_source_in_items(all.skip(i as int)),
                decreases items@.len() - i,
            {
                assert(all.skip(i as int)[0] == items@[i as int]@);
                assert(all.skip(i as int).drop_first() =~= all.skip(i + 1));
                if let Some(s) = find_source_in_json(&items[i]) {
                    return Some(s);
                }
                i += 1;
            }
            None
        },
        _ => None,
    }
}

/// The texts of a list of strings.
pub open spec fn texts(strings: Seq<String>) -> Seq<Seq<char>> {
    strings.map_values(|s: String| s@)
}

/// A script element of a page, with its content as the first group.
pub const SCRIPT_PATTERN: &'static str = r"(?s)<script[^>]*>(.*?)</script>";

/// Where the content of the script element that starts at position `i` starts
/// and ends: behind the first `>` that follows, and at the first closing tag
/// behind that.
pub open spec fn script_at(page: Seq<char>, i: int) -> Option<(int, int)> {
    if occurs_at(page, "<script"@, i) {
        match first_at(page, ">"@, i + 7) {
            Some(open) => match first_at(page, "</script>"@, open + 1) {
                Some(close) => Some((open + 1, close)),
                None => None,
            },
            None => None,
        }
    } else {
        None
    }
}

/// A script element and its content lie behind the position where it starts, and
/// within the page.
pub proof fn lemma_script_at(page: Seq<char>, i: int)
    ensures
        script_at(page, i) matches Some((start, end)) ==> i < start <= end && end + 9 <= page.len(),
{
    reveal_strlit("</script>");
    if occurs_at(page, "<script"@, i) {
        lemma_first_at(page, ">"@, i + 7);
        if let Some(open) = first_at(page, ">"@, i + 7) {
            lemma_first_at(page, "</script>"@, open + 1);
        }
    }
}

/// The contents of the script elements from position `from` on, from front to
/// back. The next one is looked for behind the closing tag of the last.
pub open spec fn script_contents(page: Seq<char>, from: int) -> Seq<Seq<char>>
    decreases page.len() - from,
{
    if from < 0 || from >= page.len() {
        Seq::empty()
    } else {
        match script_at(page, from) {
            Some((start, end)) => {
                proof {
                    lemma_script_at(page, from);
                }
                seq![page.subrange(start, end)] + script_contents(page, end + 9)
            },
            None => script_contents(page, from + 1),
        }
    }
}

/// `regex::Regex::captures_iter` walks the matches of a pattern in a text: each
/// starts as early as it can, behind the one before it, and the groups of
/// [`SCRIPT_PATTERN`] then match as [`script_at`] says, because `[^>]*` ends at
/// the first `>` and `.*?` at the first closing tag.
#[verifier::external_body]
fn all_first_groups(pattern: &str, text: &str) -> (groups: Vec<String>)
    requires
        pattern@ == SCRIPT_PATTERN@,
    ensures
        texts(groups@) == script_contents(text@, 0),
{
    Regex::new(pattern).unwrap().captures_iter(text).map(|c| c[1].to_string()).collect()
}

/// The part of a script from the first public function on up to the last closing
/// bracket, where it is longer than 50 bytes.
pub open spec fn code_in_script(script: Seq<char>) -> Option<Seq<char>> {
    match first_at(script, "define-public"@, 0) {
        Some(start) => match last_at(script.skip(start), ')') {
            Some(end) => {
                let code = script.skip(start).take(end + 1);
                if encode_utf8(code).len() > 50 {
                    Some(code)
                } else {
                    None
                }
            },
            None => None,
        },
        None => None,
    }
}

/// The source code in a script, given the JSON document that it is, if it is one:
/// in that document, or as it stands in the script.
pub open spec fn source_in_script_given(
    script: Seq<char>,
    document: Option<JsonTree>,
) -> Option<Seq<char>> {
    match document {
        Some(tree) if find_source(tree) is Some => find_source(tree),
        _ => code_in_script(script),
    }
}

/// The source code in a script.
pub open spec fn source_in_script(script: Seq<char>) -> Option<Seq<char>> {
    source_in_script_given(script, json_parse(script))
}

/// The source code in the first script that holds some.
pub open spec fn source_in_scripts(scripts: Seq<Seq<char>>) -> Option<Seq<char>>
    decreases scripts.len(),
{
    if scripts.len() == 0 {
        None
    } else if source_in_script(scripts[0]) is Some {
        source_in_script(scripts[0])
    } else {
        source_in_scripts(scripts.drop_first())
    }
}

/// Finds contract code that stands in a script as it is.
pub fn find_code_in_script(script: &str) -> (r: Option<String>)
    ensures
        text_view(r) == code_in_script(script@),
{
    let chars = chars_of(script);
    let start: usize = match find_from(&chars, &chars_of("define-public"), 0) {
        Some(start) => start,
        None => {
            return None;
        },
    };
    proof {
        lemma_first_at(script@, "define-public"@, 0);
    }
    match find_last(&chars, ')', start) {
        Some(end) => {
            let code = text_between(&chars, start, start + end + 1);
            assert(code@ =~= script@.skip(start as int).take(end + 1));
            if code.as_str().as_bytes().len() > 50 {
                Some(code)
            } else {
                None
            }
        },
        None => None,
    }
}

/// Finds the source code in a script, given the JSON document that it is, if it is
/// one.
pub fn find_source_given_document(script: &str, document: Option<Json>) -> (r: Option<String>)
    ensures
        text_view(r) == source_in_script_given(script@, document_view(document)),
{
    if let Some(json) = document {
        if let Some(found) = find_source_in_json(&json) {
            return Some(found);
        }
    }
    find_code_in_script(script)
}

/// Finds the source code in a script.
pub fn find_source_in_script(script: &str) -> (r: Option<String>)
    ensures
        text_view(r) == source_in_script(script@),
{
    find_source_given_document(script, parse(script))
}

/// Finds the source code in the scripts of a page.
pub fn extract_from_script_tags(html: &str) -> (r: Option<String>)
    ensures
        text_view(r) == source_in_scripts(script_contents(html@, 0)),
{
    let scripts = all_first_groups(SCRIPT_PATTERN, html);
    let ghost all = texts(scripts@);
    let mut i: usize = 0;
    assert(all.skip(0) =~= all);
    while i < scripts.len()
        invariant
            i <= scripts@.len(),
            all == texts(scripts@),
            source_in_scripts(all) == source_in_scripts(all.skip(i as int)),
            all == script_contents(html@, 0),
        decreases scripts@.len() - i,
    {
        assert(all.skip(i as int)[0] == scripts@[i as int]@);
        assert(all.skip(i as int).drop_first() =~= all.skip(i + 1));
        if let Some(found) = find_source_in_script(scripts[i].as_str()) {
            return Some(found);
        }
        i += 1;
    }
    None
}

/// The elements of a page that may hold source code, in the order in which they
/// are tried.
pub open spec fn page_selectors() -> Seq<Seq<char>> {
    seq![
        "pre code"@,
        "code.source-code"@,
        "pre.source-code"@,
        "[data-source-code]"@,
        "code"@,
        "pre"@,
    ]
}

/// The text of each element of a page that a selector picks, as `scraper` finds
/// them.
pub uninterp spec fn selected_texts(html: Seq<char>, selector: Seq<char>) -> Seq<Seq<char>>;

/// `scraper::Html::select` picks the elements of a page that match a selector,
/// and `scraper::ElementRef::text` walks the text inside each. What they give
/// is named by [`selected_texts`].
#[verifier::external_body]
fn select_texts(html: &str, selector: &str) -> (found: Vec<String>)
    requires
        page_selectors().contains(selector@),
    ensures
        texts(found@) == selected_texts(html@, selector@),
{
    let selector = Selector::parse(selector).unwrap();
    Html::parse_document(html).select(&selector).map(|e| e.text().collect::<String>()).collect()
}

/// The text defines part of a contract.
pub open spec fn has_definition(text: Seq<char>) -> bool {
    ||| contains(text, "define-public"@)
    ||| contains(text, "define-private"@)
    ||| contains(text, "define-read-only"@)
    ||| contains(text, "define-map"@)
    ||| contains(text, "define-constant"@)
}

/// The first of the texts that, trimmed, defines part of a contract.
pub open spec fn first_contract(found: Seq<Seq<char>>) -> Option<Seq<char>>
    decreases found.len(),
{
    if found.len() == 0 {
        None
    } else if has_definition(trimmed(found[0])) {
        Some(trimmed(found[0]))
    } else {
        first_contract(found.drop_first())
    }
}

/// The first contract in the first of the groups that has one.
pub open spec fn contract_in_groups(groups: Seq<Seq<Seq<char>>>) -> Option<Seq<char>>
    decreases groups.len(),
{
    if groups.len() == 0 {
        None
    } else if first_contract(groups[0]) is Some {
        first_contract(groups[0])
    } else {
        contract_in_groups(groups.drop_first())
    }
}

/// The first contract among the elements of a page, trying one selector after
/// the other.
pub open spec fn contract_in_elements(html: Seq<char>) -> Option<Seq<char>> {
    contract_in_groups(page_selectors().map_values(|s: Seq<char>| selected_texts(html, s)))
}

/// The cleaned source code in a page: from its scripts, or else from its
/// elements.
pub open spec fn source_in_page(html: Seq<char>) -> Option<Seq<char>> {
    let found = match source_in_scripts(script_contents(html, 0)) {
        Some(source) => Some(source),
        None => contract_in_elements(html),
    };
    match found {
        Some(source) => Some(cleaned(source)),
        None => None,
    }
}

/// Whether the text defines part of a contract.
pub fn defines_contract(text: &str) -> (r: bool)
    ensures
        r == has_definition(text@),
{
    has_text(text, "define-public") || has_text(text, "define-private") || has_text(
        text,
        "define-read-only",
    ) || has_text(text, "define-map") || has_text(text, "define-constant")
}

/// Finds the first of the texts that, trimmed, defines part of a contract.
pub fn find_first_contract(found: &Vec<String>) -> (r: Option<String>)
    ensures
        text_view(r) == first_contract(texts(found@)),
{
    let ghost all = texts(found@);
    let mut i: usize = 0;
    assert(all.skip(0) =~= all);
    while i < found.len()
        invariant
            i <= found@.len(),
            all == texts(found@),
            first_contract(all) == first_contract(all.skip(i as int)),
        decreases found@.len() - i,
    {
        assert(all.skip(i as int)[0] == found@[i as int]@);
        assert(all.skip(i as int).drop_first() =~= all.skip(i + 1));
        let text = trim(found[i].as_str());
        if defines_contract(text.as_str()) {
            return Some(text);
        }
        i += 1;
    }
    None
}

/// The texts of a list of lists of strings.
pub open spec fn group_texts(groups: Seq<Vec<String>>) -> Seq<Seq<Seq<char>>> {
    groups.map_values(|g: Vec<String>| texts(g@))
}

/// Finds the first contract in the first of the groups that has one.
pub fn find_contract_in_groups(groups: &Vec<Vec<String>>) -> (r: Option<String>)
    ensures
        text_view(r) == contract_in_groups(group_texts(groups@)),
{
    let ghost all = group_texts(groups@);
    let mut i: usize = 0;
    assert(all.skip(0) =~= all);
    while i < groups.len()
        invariant
            i <= groups@.len(),
            all == group_texts(groups@),
            contract_in_groups(all) == contract_in_groups(all.skip(i as int)),
        decreases groups@.len() - i,
    {
        assert(all.skip(i as int)[0] == texts(groups@[i as int]@));
        assert(all.skip(i as int).drop_first() =~= all.skip(i + 1));
        if let Some(contract) = find_first_contract(&groups[i]) {
            return Some(contract);
        }
        i += 1;
    }
    None
}

/// Finds the first contract among the elements of a page.
pub fn find_contract_in_elements(html: &str) -> (r: Option<String>)
    ensures
        text_view(r) == contract_in_elements(html@),
{
    let selectors: [&str; 6] = [
        "pre code",
        "code.source-code",
        "pre.source-code",
        "[data-source-code]",
        "code",
        "pre",
    ];
    let mut groups: Vec<Vec<String>> = Vec::new();
    let mut i: usize = 0;
    while i < 6
        invariant
            i <= 6,
            groups@.len() == i,
            forall|j: int| 0 <= j < 6 ==> (#[trigger] selectors@[j])@ == page_selectors()[j],
            forall|j: int|
                0 <= j < i ==> texts((#[trigger] groups@[j])@) == selected_texts(
                    html@,
                    page_selectors()[j],
                ),
        decreases 6 - i,
    {
        assert(page_selectors().contains(selectors@[i as int]@));
        groups.push(select_texts(html, selectors[i]));
        i += 1;
    }
    assert(group_texts(groups@) =~= page_selectors().map_values(
        |s: Seq<char>| selected_texts(html@, s),
    ));
    find_contract_in_groups(&groups)
}

/// Finds the source code in a page and cleans it.
pub fn find_source_in_page(html: &str) -> (r: Option<String>)
    ensures
        text_view(r) == source_in_page(html@),
{
    if let Some(source) = extract_from_script_tags(html) {
        return Some(clean_source_code(source.as_str()));
    }
    if let Some(source) = find_contract_in_elements(html) {
        return Some(clean_source_code(source.as_str()));
    }
    None
}

/// The document has the text `source` under a source key, at any depth.
pub open spec fn holds_source(tree: JsonTree, source: Seq<char>) -> bool
    decreases tree,
{
    match tree {
        JsonTree::Object(entries) => exists|i: int|
            0 <= i < entries.len() && ((is_source_key(entries[i].0) && (#[trigger] entries[i]).1
                == JsonTree::Text(source)) || holds_source(entries[i].1, source)),
        JsonTree::Array(items) => exists|i: int|
            0 <= i < items.len() && holds_source(#[trigger] items[i], source),
        _ => false,
    }
}

/// What is found in a document is a text that it has under a source key.
pub proof fn law_found_source_is_there(tree: JsonTree)
    ensures
        find_source(tree) matches Some(source) ==> holds_source(tree, source),
    decreases tree,
{
    match tree {
        JsonTree::Object(entries) => lemma_found_in_entries(entries),
        JsonTree::Array(items) => lemma_found_in_items(items),
        _ => {},
    }
}

proof fn lemma_found_in_entries(entries: Seq<(Seq<char>, JsonTree)>)
    ensures
        find_source_in_entries(entries) matches Some(source) ==> holds_source(
            JsonTree::Object(entries),
            source,
        ),
    decreases entries,
{
    if entries.len() > 0 {
        law_found_source_is_there(entries[0].1);
        let rest = entries.drop_first();
        lemma_found_in_entries(rest);
        if let Some(source) = find_source_in_entries(entries) {
            if find_source_in_entries(rest) == Some(source) {
                let i = choose|i: int|
                    0 <= i < rest.len() && ((is_source_key(rest[i].0) && (#[trigger] rest[i]).1
                        == JsonTree::Text(source)) || holds_source(rest[i].1, source));
                assert(rest[i] == entries[i + 1]);
            }
        }
    }
}

proof fn lemma_found_in_items(items: Seq<JsonTree>)
    ensures
        find_source_in_items(items) matches Some(source) ==> holds_source(
            JsonTree::Array(items),
            source,
        ),
    decreases items,
{
    if items.len() > 0 {
        law_found_source_is_there(items[0]);
        let rest = items.drop_first();
        lemma_found_in_items(rest);
        if let Some(source) = find_source_in_items(items) {
            let k = if find_source(items[0]) is Some {
                0
            } else {
                assert(holds_source(JsonTree::Array(rest), source));
                1 + choose|i: int|
                    0 <= i < rest.len() && holds_source(#[trigger] rest[i], source)
            };
            assert(0 <= k < items.len());
            assert(holds_source(items[k], source));
            let tree = JsonTree::Array(items);
            assert(tree->Array_0 == items);
            assert(holds_source(tree->Array_0[k], source));
            assert(holds_source(tree, source));
        }
    }
}

/// Where a document has a text under a source key, one is found.
pub proof fn law_no_source_is_missed(tree: JsonTree, source: Seq<char>)
    requires
        holds_source(tree, source),
    ensures
        find_source(tree) is Some,
    decreases tree,
{
    match tree {
        JsonTree::Object(entries) => {
            let i = choose|i: int|
                0 <= i < entries.len() && ((is_source_key(entries[i].0) && (#[trigger] entries[i]).1
                    == JsonTree::Text(source)) || holds_source(entries[i].1, source));
            if holds_source(entries[i].1, source) {
                law_no_source_is_missed(entries[i].1, source);
            }
            lemma_entry_is_found(entries, i);
        },
        JsonTree::Array(items) => {
            let i = choose|i: int|
                0 <= i < items.len() && holds_source(#[trigger] items[i], source);
            law_no_source_is_missed(items[i], source);
            lemma_item_is_found(items, i);
        },
        _ => {},
    }
}

proof fn lemma_entry_is_found(entries: Seq<(Seq<char>, JsonTree)>, i: int)
    requires
        0 <= i < entries.len(),
        is_source_key(entries[i].0) && entries[i].1 is Text || find_source(entries[i].1) is Some,
    ensures
        find_source_in_entries(entries) is Some,
    decreases i,
{
    if i > 0 {
        assert(entries.drop_first()[i - 1] == entries[i]);
        lemma_entry_is_found(entries.drop_first(), i - 1);
    }
}

proof fn lemma_item_is_found(items: Seq<JsonTree>, i: int)
    requires
        0 <= i < items.len(),
        find_source(items[i]) is Some,
    ensures
        find_source_in_items(items) is Some,
    decreases i,
{
    if i > 0 {
        assert(items.drop_first()[i - 1] == items[i]);
        lemma_item_is_found(items.drop_first(), i - 1);
    }
}

/// The contents of the scripts of a page are parts of the page, and none reaches
/// past a closing tag.
pub proof fn law_script_contents_are_parts(page: Seq<char>, from: int, i: int)
    requires
        0 <= from,
        0 <= i < script_contents(page, from).len(),
    ensures
        contains(page, script_contents(page, from)[i]),
        !contains(script_contents(page, from)[i], "</script>"@),
    decreases page.len() - from,
{
    lemma_script_at(page, from);
    match script_at(page, from) {
        Some((start, end)) => {
            let content = page.subrange(start, end);
            if i == 0 {
                assert(occurs_at(page, content, start));
                lemma_first_at(page, "</script>"@, start);
                assert forall|j: int| !occurs_at(content, "</script>"@, j) by {
                    if occurs_at(content, "</script>"@, j) {
                        reveal_strlit("</script>");
                        assert(page.subrange(start + j, start + j + 9) =~= content.subrange(
                            j,
                            j + 9,
                        ));
                        assert(occurs_at(page, "</script>"@, start + j));
                    }
                }
            } else {
                law_script_contents_are_parts(page, end + 9, i - 1);
                assert(script_contents(page, from)[i] == script_contents(page, end + 9)[i - 1]);
            }
        },
        None => {
            law_script_contents_are_parts(page, from + 1, i);
        },
    }
}

/// Code taken from a script as it stands is a part of the script that starts
/// with a public function and ends with a closing bracket.
pub proof fn law_script_code_is_part_of_script(script: Seq<char>)
    ensures
        code_in_script(script) matches Some(code) ==> {
            &&& contains(script, code)
            &&& occurs_at(code, "define-public"@, 0)
            &&& code.last() == ')'
        },
{
    reveal_strlit("define-public");
    lemma_first_at(script, "define-public"@, 0);
    if let Some(start) = first_at(script, "define-public"@, 0) {
        let tail = script.skip(start);
        law_last_at(tail, ')');
        if let Some(end) = last_at(tail, ')') {
            let code = tail.take(end + 1);
            if code_in_script(script) is Some {
                assert(script.subrange(start, start + code.len()) =~= code);
                assert(occurs_at(script, code, start));
                if end < 13 {
                    assert(tail[end] == "define-public"@[end]);
                }
                assert(code.subrange(0, 13) =~= script.subrange(start, start + 13));
            }
        }
    }
}

/// A text under one of the three keys that source code has is found where no
/// entry in front of it has source code, whatever stands behind it.
pub proof fn law_source_is_found_under_its_keys(
    front: Seq<(Seq<char>, JsonTree)>,
    key: Seq<char>,
    source: Seq<char>,
    back: Seq<(Seq<char>, JsonTree)>,
)
    requires
        find_source(JsonTree::Object(front)) is None,
        key == "source"@ || key == "sourceCode"@ || key == "source_code"@,
    ensures
        find_source(JsonTree::Object(front + seq![(key, JsonTree::Text(source))] + back)) == Some(
            source,
        ),
{
    let entries = seq![(key, JsonTree::Text(source))] + back;
    lemma_entries_behind(front, entries);
    assert(front + entries =~= front + seq![(key, JsonTree::Text(source))] + back);
}

/// A text under any other key is passed over, and so is a value that is no text
/// and has no source code inside.
pub proof fn law_other_entries_are_passed_over(
    front: Seq<(Seq<char>, JsonTree)>,
    key: Seq<char>,
    value: JsonTree,
    back: Seq<(Seq<char>, JsonTree)>,
)
    requires
        find_source(JsonTree::Object(front)) is None,
        find_source(value) is None,
        key != "source"@ && key != "sourceCode"@ && key != "source_code"@ || !(value is Text),
    ensures
        find_source(JsonTree::Object(front + seq![(key, value)] + back)) == find_source(
            JsonTree::Object(back),
        ),
{
    let entries = seq![(key, value)] + back;
    lemma_entries_behind(front, entries);
    assert(front + entries =~= front + seq![(key, value)] + back);
    assert(entries.drop_first() =~= back);
}

/// Source code inside a value is found where no entry in front of it has any,
/// whatever stands behind it.
pub proof fn law_source_is_found_inside_values(
    front: Seq<(Seq<char>, JsonTree)>,
    key: Seq<char>,
    value: JsonTree,
    back: Seq<(Seq<char>, JsonTree)>,
)
    requires
        find_source(JsonTree::Object(front)) is None,
        find_source(value) is Some,
    ensures
        find_source(JsonTree::Object(front + seq![(key, value)] + back)) == find_source(value),
{
    let entries = seq![(key, value)] + back;
    lemma_entries_behind(front, entries);
    assert(front + entries =~= front + seq![(key, value)] + back);
}

/// What has no entries and no items has no source code.
pub proof fn law_plain_values_have_no_source(tree: JsonTree)
    requires
        tree is Object ==> tree->Object_0.len() == 0,
        tree is Array ==> tree->Array_0.len() == 0,
    ensures
        find_source(tree) is None,
{
}

proof fn lemma_entries_behind(
    front: Seq<(Seq<char>, JsonTree)>,
    entries: Seq<(Seq<char>, JsonTree)>,
)
    requires
        find_source_in_entries(front) is None,
    ensures
        find_source_in_entries(front + entries) == find_source_in_entries(entries),
    decreases front.len(),
{
    if front.len() == 0 {
        assert(front + entries =~= entries);
    } else {
        assert((front + entries).drop_first() =~= front.drop_first() + entries);
        lemma_entries_behind(front.drop_first(), entries);
    }
}

/// In an array the source code of the first item that has some is found.
pub proof fn law_items_are_searched_in_order(items: Seq<JsonTree>, i: int)
    requires
        0 <= i <= items.len(),
        forall|j: int| 0 <= j < i ==> find_source(#[trigger] items[j]) is None,
    ensures
        i == items.len() ==> find_source(JsonTree::Array(items)) is None,
        i < items.len() && find_source(items[i]) is Some ==> find_source(JsonTree::Array(items))
            == find_source(items[i]),
    decreases i,
{
    if i > 0 {
        let rest = items.drop_first();
        assert(find_source(items[0]) is None);
        assert forall|j: int| 0 <= j < i - 1 implies find_source(#[trigger] rest[j]) is None by {
            assert(find_source(items[j + 1]) is None);
        }
        law_items_are_searched_in_order(rest, i - 1);
    }
}

/// Every script is searched: where one of them holds source code, some is found.
pub proof fn law_every_script_is_searched(scripts: Seq<Seq<char>>, i: int)
    requires
        0 <= i < scripts.len(),
        source_in_script(scripts[i]) is Some,
    ensures
        source_in_scripts(scripts) is Some,
    decreases i,
{
    if i > 0 {
        assert(scripts.drop_first()[i - 1] == scripts[i]);
        law_every_script_is_searched(scripts.drop_first(), i - 1);
    }
}

/// What is found in the scripts is what the first script that holds source code
/// holds, and nothing where none does.
pub proof fn law_first_script_with_source_wins(scripts: Seq<Seq<char>>, i: int)
    requires
        0 <= i <= scripts.len(),
        forall|j: int| 0 <= j < i ==> source_in_script(#[trigger] scripts[j]) is None,
    ensures
        i == scripts.len() ==> source_in_scripts(scripts) is None,
        i < scripts.len() && source_in_script(scripts[i]) is Some ==> source_in_scripts(scripts)
            == source_in_script(scripts[i]),
    decreases i,
{
    if i > 0 {
        let rest = scripts.drop_first();
        assert(source_in_script(scripts[0]) is None);
        assert forall|j: int| 0 <= j < i - 1 implies source_in_script(
            #[trigger] rest[j],
        ) is None by {
            assert(source_in_script(scripts[j + 1]) is None);
        }
        law_first_script_with_source_wins(rest, i - 1);
    }
}

/// Where any script of a page holds source code, the page has source code.
pub proof fn law_every_script_of_page_is_searched(html: Seq<char>, i: int)
    requires
        0 <= i < script_contents(html, 0).len(),
        source_in_script(script_contents(html, 0)[i]) is Some,
    ensures
        source_in_page(html) is Some,
{
    law_every_script_is_searched(script_contents(html, 0), i);
}

/// The text of a script element: what stands in its opening tag, and its content.
pub open spec fn script_element(attributes: Seq<char>, content: Seq<char>) -> Seq<char> {
    "<script"@ + attributes + ">"@ + content + "</script>"@
}

/// The first script element of a page gives the first of its scripts, and what
/// stands behind the element gives the rest.
pub proof fn law_script_elements_are_read_in_order(
    front: Seq<char>,
    attributes: Seq<char>,
    content: Seq<char>,
    back: Seq<char>,
)
    requires
        !contains(front, "<script"@),
        !attributes.contains('>'),
        !contains(content, "</script>"@),
    ensures
        script_contents(front + script_element(attributes, content) + back, 0) == seq![content]
            + script_contents(back, 0),
{
    reveal_strlit("<script");
    reveal_strlit(">");
    reveal_strlit("</script>");
    let page = front + script_element(attributes, content) + back;
    let start = front.len() as int;
    let open = start + 7 + attributes.len();
    let close = open + 1 + content.len();
    assert(occurs_at(page, "<script"@, start)) by {
        assert(page.subrange(start, start + 7) =~= "<script"@);
    }
    assert(first_at(page, ">"@, start + 7) == Some(open)) by {
        assert(page.subrange(open, open + 1) =~= ">"@);
        assert forall|j: int| start + 7 <= j < open implies !occurs_at(page, ">"@, j) by {
            if occurs_at(page, ">"@, j) {
                assert(page.subrange(j, j + 1)[0] == page[j]);
                assert(page[j] == attributes[j - start - 7]);
                assert(attributes.contains('>'));
            }
        }
        lemma_first_at_is(page, ">"@, start + 7, open);
    }
    assert(first_at(page, "</script>"@, open + 1) == Some(close)) by {
        assert(page.subrange(close, close + 9) =~= "</script>"@);
        assert forall|j: int| open + 1 <= j < close implies !occurs_at(page, "</script>"@, j) by {
            if occurs_at(page, "</script>"@, j) {
                let k = j - open - 1;
                if j + 9 <= close {
                    assert(content.subrange(k, k + 9) =~= page.subrange(j, j + 9));
                    assert(occurs_at(content, "</script>"@, k));
                } else {
                    assert(page.subrange(j, j + 9)[close - j] == page[close]);
                    assert(page[close] == '<');
                }
            }
        }
        lemma_first_at_is(page, "</script>"@, open + 1, close);
    }
    assert(page.subrange(open + 1, close) =~= content);
    let before = page.take(close + 9);
    assert(page =~= before + back);
    lemma_script_contents_behind(before, back, 0);
    assert(script_contents(page, start) == seq![content] + script_contents(back, 0));
    assert forall|i: int| 0 <= i < start implies !occurs_at(page, "<script"@, i) by {
        if occurs_at(page, "<script"@, i) {
            if i + 7 <= start {
                assert(front.subrange(i, i + 7) =~= page.subrange(i, i + 7));
                assert(occurs_at(front, "<script"@, i));
            } else {
                assert(page.subrange(i, i + 7)[start - i] == page[start]);
                assert(page[start] == '<');
            }
        }
    }
    lemma_scripts_start_at(page, 0, start);
}

proof fn lemma_scripts_start_at(page: Seq<char>, from: int, start: int)
    requires
        0 <= from <= start <= page.len(),
        forall|i: int| from <= i < start ==> !occurs_at(page, "<script"@, i),
    ensures
        script_contents(page, from) == script_contents(page, start),
    decreases start - from,
{
    if from < start {
        lemma_scripts_start_at(page, from + 1, start);
    }
}

proof fn lemma_script_contents_behind(front: Seq<char>, page: Seq<char>, from: int)
    requires
        0 <= from,
    ensures
        script_contents(front + page, front.len() + from) == script_contents(page, from),
    decreases page.len() - from,
{
    let whole = front + page;
    let n = front.len() as int;
    if from < page.len() {
        lemma_first_at_behind(front, page, "<script"@, from);
        lemma_first_at_behind(front, page, ">"@, from + 7);
        if let Some(open) = first_at(page, ">"@, from + 7) {
            lemma_first_at(page, ">"@, from + 7);
            lemma_first_at_behind(front, page, "</script>"@, open + 1);
        }
        lemma_script_at(page, from);
        match script_at(page, from) {
            Some((start, end)) => {
                assert(whole.subrange(n + start, n + end) =~= page.subrange(start, end));
                lemma_script_contents_behind(front, page, end + 9);
            },
            None => {
                lemma_script_contents_behind(front, page, from + 1);
            },
        }
    }
}

/// A page in which no script element stands has no scripts.
pub proof fn law_page_without_script_elements(page: Seq<char>)
    requires
        forall|front: Seq<char>, attributes: Seq<char>, content: Seq<char>, back: Seq<char>|
            page != #[trigger] (front + script_element(attributes, content) + back),
    ensures
        script_contents(page, 0).len() == 0,
{
    if script_contents(page, 0).len() > 0 {
        lemma_scripts_are_elements(page, 0);
    }
}

proof fn lemma_scripts_are_elements(page: Seq<char>, from: int)
    requires
        0 <= from,
        script_contents(page, from).len() > 0,
    ensures
        exists|front: Seq<char>, attributes: Seq<char>, content: Seq<char>, back: Seq<char>|
            page == #[trigger] (front + script_element(attributes, content) + back),
    decreases page.len() - from,
{
    match script_at(page, from) {
        Some((start, end)) => {
            reveal_strlit("<script");
            reveal_strlit(">");
            reveal_strlit("</script>");
            lemma_first_at(page, ">"@, from + 7);
            lemma_first_at(page, "</script>"@, start);
            law_occurrence_parts_text(page, "<script"@, from);
            law_occurrence_parts_text(page, ">"@, start - 1);
            law_occurrence_parts_text(page, "</script>"@, end);
            let attributes = page.subrange(from + 7, start - 1);
            let content = page.subrange(start, end);
            let front = page.take(from);
            let back = page.skip(end + 9);
            assert(page.subrange(from, from + 7) == "<script"@);
            assert(page.subrange(start - 1, start) == ">"@);
            assert(page.subrange(end, end + 9) == "</script>"@);
            assert(page =~= front + (page.subrange(from, from + 7) + attributes + page.subrange(
                start - 1,
                start,
            ) + content + page.subrange(end, end + 9)) + back);
            assert(page == front + script_element(attributes, content) + back);
        },
        None => {
            lemma_scripts_are_elements(page, from + 1);
        },
    }
}

/// The source code of a script is what its document holds, where it is a document
/// that holds some, and otherwise the code that stands in it.
pub proof fn law_documents_come_before_code(script: Seq<char>, document: Option<JsonTree>)
    ensures
        source_in_script(script) == source_in_script_given(script, json_parse(script)),
        document matches Some(tree) ==> find_source(tree) is Some ==> source_in_script_given(
            script,
            document,
        ) == find_source(tree),
        document matches Some(tree) ==> find_source(tree) is None ==> source_in_script_given(
            script,
            document,
        ) == code_in_script(script),
        document is None ==> source_in_script_given(script, document) == code_in_script(script),
{
}

/// The code in a script reaches from the first `define-public` to the last closing
/// bracket. It is taken where it is longer than 50 bytes.
pub proof fn law_script_code_reaches_to_last_bracket(
    front: Seq<char>,
    middle: Seq<char>,
    back: Seq<char>,
)
    requires
        !contains(front, "define-public"@),
        !back.contains(')'),
    ensures
        ({
            let code = "define-public"@ + middle + seq![')'];
            let found = code_in_script(front + code + back);
            &&& encode_utf8(code).len() > 50 ==> found == Some(code)
            &&& encode_utf8(code).len() <= 50 ==> found is None
        }),
{
    let code = "define-public"@ + middle + seq![')'];
    let script = front + code + back;
    let start = front.len() as int;
    let tail = script.skip(start);
    assert(script =~= front + "define-public"@ + (middle + seq![')'] + back));
    lemma_first_definition_at(front, middle + seq![')'] + back);
    assert(tail =~= code + back);
    let last = code.len() - 1;
    assert(tail[last] == ')');
    assert(last_at(tail, ')') == Some(last)) by {
        law_last_at(tail, ')');
        match last_at(tail, ')') {
            Some(i) => {
                if i > last {
                    assert(tail[i] == back[i - code.len()]);
                    assert(back.contains(')'));
                }
            },
            None => {
                assert(tail.contains(tail[last]));
            },
        }
    }
    assert(tail.take(last + 1) =~= code);
}

proof fn lemma_first_definition_at(front: Seq<char>, back: Seq<char>)
    requires
        !contains(front, "define-public"@),
    ensures
        first_at(front + "define-public"@ + back, "define-public"@, 0) == Some(front.len() as int),
{
    reveal_strlit("define-public");
    let script = front + "define-public"@ + back;
    let start = front.len() as int;
    law_occurs_between(front, "define-public"@, back);
    assert forall|i: int| 0 <= i < start implies !occurs_at(script, "define-public"@, i) by {
        if occurs_at(script, "define-public"@, i) {
            if i + 13 <= start {
                assert(front.subrange(i, i + 13) =~= script.subrange(i, i + 13));
                assert(occurs_at(front, "define-public"@, i));
            } else {
                assert(script.subrange(i, i + 13)[start - i] == script[start]);
                assert(script[start] == 'd');
            }
        }
    }
    lemma_first_at_is(script, "define-public"@, 0, start);
}

/// There is no code in a script without `define-public`, nor in one without a
/// closing bracket behind the first.
pub proof fn law_script_without_code(script: Seq<char>, front: Seq<char>, back: Seq<char>)
    ensures
        !contains(script, "define-public"@) ==> code_in_script(script) is None,
        !contains(front, "define-public"@) && !back.contains(')') ==> code_in_script(
            front + "define-public"@ + back,
        ) is None,
{
    reveal_strlit("define-public");
    lemma_first_at(script, "define-public"@, 0);
    let other = front + "define-public"@ + back;
    let start = front.len() as int;
    if !contains(front, "define-public"@) && !back.contains(')') {
        lemma_first_definition_at(front, back);
        let tail = other.skip(start);
        law_last_at(tail, ')');
        assert(tail =~= "define-public"@ + back);
        if let Some(i) = last_at(tail, ')') {
            if i >= 13 {
                assert(back[i - 13] == ')');
            }
        }
    }
}

/// A text defines part of a contract exactly where one of the five words of a
/// definition stands in it.
pub proof fn law_definitions_are_five_words(text: Seq<char>)
    ensures
        has_definition(text) <==> exists|left: Seq<char>, word: Seq<char>, right: Seq<char>|
            text == #[trigger] (left + word + right) && (word == "define-public"@ || word
                == "define-private"@ || word == "define-read-only"@ || word == "define-map"@ || word
                == "define-constant"@),
{
    law_contains(text, "define-public"@);
    law_contains(text, "define-private"@);
    law_contains(text, "define-read-only"@);
    law_contains(text, "define-map"@);
    law_contains(text, "define-constant"@);
}

/// The first text that, trimmed, defines part of a contract is taken, trimmed,
/// and nothing where none does.
pub proof fn law_first_definition_wins(found: Seq<Seq<char>>, i: int)
    requires
        0 <= i <= found.len(),
        forall|j: int| 0 <= j < i ==> !has_definition(trimmed(#[trigger] found[j])),
    ensures
        i == found.len() ==> first_contract(found) is None,
        i < found.len() && has_definition(trimmed(found[i])) ==> first_contract(found) == Some(
            trimmed(found[i]),
        ),
    decreases i,
{
    if i > 0 {
        let rest = found.drop_first();
        assert(!has_definition(trimmed(found[0])));
        assert forall|j: int| 0 <= j < i - 1 implies !has_definition(
            trimmed(#[trigger] rest[j]),
        ) by {
            assert(!has_definition(trimmed(found[j + 1])));
        }
        law_first_definition_wins(rest, i - 1);
    }
}

/// The contract of the first group that has one is taken, and nothing where none
/// has.
pub proof fn law_first_group_wins(groups: Seq<Seq<Seq<char>>>, i: int)
    requires
        0 <= i <= groups.len(),
        forall|j: int| 0 <= j < i ==> first_contract(#[trigger] groups[j]) is None,
    ensures
        i == groups.len() ==> contract_in_groups(groups) is None,
        i < groups.len() && first_contract(groups[i]) is Some ==> contract_in_groups(groups)
            == first_contract(groups[i]),
    decreases i,
{
    if i > 0 {
        let rest = groups.drop_first();
        assert(first_contract(groups[0]) is None);
        assert forall|j: int| 0 <= j < i - 1 implies first_contract(#[trigger] rest[j]) is None by {
            assert(first_contract(groups[j + 1]) is None);
        }
        law_first_group_wins(rest, i - 1);
    }
}

/// The elements of a page are tried selector by selector: the contract is that of
/// the first of the six selectors that leads to one.
pub proof fn law_selectors_are_tried_in_order(html: Seq<char>)
    ensures
        ({
            let a = first_contract(selected_texts(html, "pre code"@));
            let b = first_contract(selected_texts(html, "code.source-code"@));
            let c = first_contract(selected_texts(html, "pre.source-code"@));
            let d = first_contract(selected_texts(html, "[data-source-code]"@));
            let e = first_contract(selected_texts(html, "code"@));
            let f = first_contract(selected_texts(html, "pre"@));
            let found = contract_in_elements(html);
            &&& a is Some ==> found == a
            &&& a is None && b is Some ==> found == b
            &&& a is None && b is None && c is Some ==> found == c
            &&& a is None && b is None && c is None && d is Some ==> found == d
            &&& a is None && b is None && c is None && d is None && e is Some ==> found == e
            &&& a is None && b is None && c is None && d is None && e is None ==> found == f
        }),
{
    let groups = page_selectors().map_values(|s: Seq<char>| selected_texts(html, s));
    assert(groups[0] == selected_texts(html, "pre code"@));
    assert(groups[1] == selected_texts(html, "code.source-code"@));
    assert(groups[2] == selected_texts(html, "pre.source-code"@));
    assert(groups[3] == selected_texts(html, "[data-source-code]"@));
    assert(groups[4] == selected_texts(html, "code"@));
    assert(groups[5] == selected_texts(html, "pre"@));
    let i = if first_contract(groups[0]) is Some {
        0int
    } else if first_contract(groups[1]) is Some {
        1
    } else if first_contract(groups[2]) is Some {
        2
    } else if first_contract(groups[3]) is Some {
        3
    } else if first_contract(groups[4]) is Some {
        4
    } else if first_contract(groups[5]) is Some {
        5
    } else {
        6
    };
    law_first_group_wins(groups, i);
}

/// The source code of a page is what its scripts hold, and only where they hold
/// none, what its elements hold. It is cleaned either way.
pub proof fn law_scripts_come_before_elements(html: Seq<char>)
    ensures
        source_in_scripts(script_contents(html, 0)) matches Some(source) ==> source_in_page(html)
            == Some(cleaned(source)),
        source_in_scripts(script_contents(html, 0)) is None ==> (contract_in_elements(
            html,
        ) matches Some(source) ==> source_in_page(html) == Some(cleaned(source))),
        source_in_scripts(script_contents(html, 0)) is None && contract_in_elements(html) is None
            ==> source_in_page(html) is None,
{
}

/// A list of texts is, text by text, the list of their characters.
pub proof fn law_texts(strings: Seq<String>, groups: Seq<Vec<String>>)
    ensures
        texts(strings).len() == strings.len(),
        forall|i: int| 0 <= i < strings.len() ==> #[trigger] texts(strings)[i] == strings[i]@,
        group_texts(groups).len() == groups.len(),
        forall|i: int|
            0 <= i < groups.len() ==> #[trigger] group_texts(groups)[i] == texts(groups[i]@),
{
}

/// Scripts are looked for by this pattern, over line breaks and up to the nearest
/// closing tag.
pub proof fn law_script_pattern()
    ensures
        SCRIPT_PATTERN@ == r"(?s)<script[^>]*>(.*?)</script>"@,
{
}

} // verus!
