//! Fetching the source code of a contract, given the address of its page in the
//! explorer.
//!
//! The source code is asked of the API first: by the contract that the address
//! names, and then by the transaction that it names. When that leads nowhere,
//! the page itself is searched. [`begin`] says what to request first, and
//! [`resume`] what to do with each reply.

use crate::clean::{clean_source_code, cleaned, hex_digit};
use crate::failure::{Failure, FailureView};
use crate::json::{document_view, json_parse_bytes, parse_bytes, Json, JsonTree};
use crate::source::{find_source_in_page, source_in_page};
use crate::text::{
    chars_of, contains, find_from, first_at, has_text, joined, lemma_first_at, lemma_first_at_is,
    occurs_at, text_between, text_view,
};
use regex::Regex;
use vstd::prelude::*;

verus! {

/// A contract in an address: who deployed it, and its name.
pub const CONTRACT_PATTERN: &'static str = r"/([A-Z0-9]{39,41})\.([a-zA-Z0-9_-]+)";

/// A transaction in an address.
pub const TRANSACTION_PATTERN: &'static str = r"/txid/(0x[a-fA-F0-9]+)";

/// A character of the account that deployed a contract.
pub open spec fn account_char(c: char) -> bool {
    'A' <= c <= 'Z' || '0' <= c <= '9'
}

/// A character of the name of a contract.
pub open spec fn name_char(c: char) -> bool {
    'a' <= c <= 'z' || 'A' <= c <= 'Z' || '0' <= c <= '9' || c == '_' || c == '-'
}

/// How many characters of a class follow one another from position `from` on.
pub open spec fn run(text: Seq<char>, class: spec_fn(char) -> bool, from: int) -> int
    decreases text.len() - from,
{
    if 0 <= from < text.len() && class(text[from]) {
        1 + run(text, class, from + 1)
    } else {
        0
    }
}

/// The contract that stands in an address at position `i`: a slash, 39 to 41
/// characters of an account, a dot, and a name as long as it goes.
pub open spec fn contract_at(url: Seq<char>, i: int) -> Option<(Seq<char>, Seq<char>)> {
    let n = run(url, |c: char| account_char(c), i + 1);
    let dot = i + 1 + n;
    let m = run(url, |c: char| name_char(c), dot + 1);
    if 0 <= i < url.len() && url[i] == '/' && 39 <= n <= 41 && dot < url.len() && url[dot] == '.'
        && m > 0 {
        Some((url.subrange(i + 1, dot), url.subrange(dot + 1, dot + 1 + m)))
    } else {
        None
    }
}

/// The first contract in an address from position `from` on.
pub open spec fn contract_in(url: Seq<char>, from: int) -> Option<(Seq<char>, Seq<char>)>
    decreases url.len() - from,
{
    if from < 0 || from >= url.len() {
        None
    } else if contract_at(url, from) is Some {
        contract_at(url, from)
    } else {
        contract_in(url, from + 1)
    }
}

/// The transaction that stands in an address at position `i`: its hexadecimal
/// digits as far as they go, with the `0x` before them.
pub open spec fn transaction_at(url: Seq<char>, i: int) -> Option<Seq<char>> {
    let n = run(url, |c: char| hex_digit(c) is Some, i + 8);
    if occurs_at(url, "/txid/0x"@, i) && n > 0 {
        Some(url.subrange(i + 6, i + 8 + n))
    } else {
        None
    }
}

/// The first transaction in an address from position `from` on.
pub open spec fn transaction_in(url: Seq<char>, from: int) -> Option<Seq<char>>
    decreases url.len() - from,
{
    if from < 0 || from >= url.len() {
        None
    } else if transaction_at(url, from) is Some {
        transaction_at(url, from)
    } else {
        transaction_in(url, from + 1)
    }
}

/// `regex::Regex::captures` finds the match of a pattern that starts earliest in
/// a text, and `regex::Captures::extract` gives its groups. The claim is that
/// the groups of the two patterns are what [`contract_in`] and
/// [`transaction_in`] say. The digits and letters of each class are ASCII, and a
/// repetition takes as many characters as it can; an account is followed by a
/// dot, which is no character of an account, so it takes all that there are.
#[verifier::external_body]
fn first_groups<const N: usize>(pattern: &str, text: &str) -> (groups: Option<[String; N]>)
    requires
        pattern@ == CONTRACT_PATTERN@ && N == 2 || pattern@ == TRANSACTION_PATTERN@ && N == 1,
    ensures
        pattern@ == CONTRACT_PATTERN@ ==> match groups {
            Some(g) => contract_in(text@, 0) == Some((g@[0]@, g@[1]@)),
            None => contract_in(text@, 0) is None,
        },
        pattern@ == TRANSACTION_PATTERN@ ==> match groups {
            Some(g) => transaction_in(text@, 0) == Some(g@[0]@),
            None => transaction_in(text@, 0) is None,
        },
{
    Regex::new(pattern).unwrap().captures(text).map(|c| c.extract::<N>().1.map(str::to_string))
}

/// The API that knows the contracts of the chain that an address is about.
pub open spec fn api_base(url: Seq<char>) -> Seq<char> {
    if contains(url, "chain=mainnet"@) {
        "https://api.hiro.so"@
    } else {
        "https://api.testnet.hiro.so"@
    }
}

/// Where the API gives the source code of a contract.
pub open spec fn source_address(base: Seq<char>, account: Seq<char>, name: Seq<char>) -> Seq<char> {
    base + "/v2/contracts/source/"@ + account + "/"@ + name
}

/// Where the API gives a transaction.
pub open spec fn transaction_address(base: Seq<char>, transaction: Seq<char>) -> Seq<char> {
    base + "/extended/v1/tx/"@ + transaction
}

/// The account and the name in the identifier of a contract, which the first dot
/// parts.
pub open spec fn split_identifier(identifier: Seq<char>) -> Option<(Seq<char>, Seq<char>)> {
    match first_at(identifier, "."@, 0) {
        Some(dot) => Some((identifier.take(dot), identifier.skip(dot + 1))),
        None => None,
    }
}

/// The contract that a transaction calls.
pub open spec fn called_contract(transaction: JsonTree) -> Option<(Seq<char>, Seq<char>)> {
    match transaction.get("contract_call"@) {
        Some(call) => match call.get_text("contract_id"@) {
            Some(identifier) => split_identifier(identifier),
            None => None,
        },
        None => None,
    }
}

/// What a request asks for.
#[derive(Debug, Clone, Copy, PartialEq, Eq, Structural)]
pub enum Stage {
    /// The source code of the contract that the address names.
    Contract,
    /// The transaction that the address names.
    Transaction,
    /// The source code of the contract that the transaction calls.
    Called,
    /// The page itself.
    Page,
}

/// What to do next to get the source code.
#[derive(Debug, PartialEq, Eq)]
pub enum Fetch {
    /// Request what stands at an address.
    Get { stage: Stage, address: String },
    /// The source code, cleaned.
    Found(String),
    /// There is none to be had.
    Failed(Failure),
}

/// The model of a [`Fetch`].
pub enum FetchView {
    Get { stage: Stage, address: Seq<char> },
    Found(Seq<char>),
    Failed(FailureView),
}

impl View for Fetch {
    type V = FetchView;

    open spec fn view(&self) -> FetchView {
        match self {
            Fetch::Get { stage, address } => FetchView::Get { stage: *stage, address: address@ },
            Fetch::Found(source) => FetchView::Found(source@),
            Fetch::Failed(failure) => FetchView::Failed(failure@),
        }
    }
}

/// What came of a request.
#[derive(Debug, PartialEq, Eq)]
pub enum Reply {
    /// No reply, or one that could not be read, with the reason.
    Failed(String),
    /// A reply of the API: whether its status is one of success, and its body.
    Api { success: bool, body: Vec<u8> },
    /// The text of the page.
    Page(String),
}

/// The model of a [`Reply`].
pub enum ReplyView {
    Failed(Seq<char>),
    Api { success: bool, body: Seq<u8> },
    Page(Seq<char>),
}

impl View for Reply {
    type V = ReplyView;

    open spec fn view(&self) -> ReplyView {
        match self {
            Reply::Failed(reason) => ReplyView::Failed(reason@),
            Reply::Api { success, body } => ReplyView::Api { success: *success, body: body@ },
            Reply::Page(html) => ReplyView::Page(html@),
        }
    }
}

/// The reply is of the kind that a request of the stage gets.
pub open spec fn answers(stage: Stage, reply: ReplyView) -> bool {
    reply is Failed || (reply is Page <==> stage == Stage::Page)
}

/// Request the page.
pub open spec fn page_request(url: Seq<char>) -> FetchView {
    FetchView::Get { stage: Stage::Page, address: url }
}

/// Request the transaction that the address names, or else the page.
pub open spec fn transaction_request(url: Seq<char>) -> FetchView {
    match transaction_in(url, 0) {
        Some(transaction) => FetchView::Get {
            stage: Stage::Transaction,
            address: transaction_address(api_base(url), transaction),
        },
        None => page_request(url),
    }
}

/// The first request: for the contract that the address names, or else for the
/// transaction that it names, or else for the page.
pub open spec fn first_request(url: Seq<char>) -> FetchView {
    match contract_in(url, 0) {
        Some((account, name)) => FetchView::Get {
            stage: Stage::Contract,
            address: source_address(api_base(url), account, name),
        },
        None => transaction_request(url),
    }
}

/// What follows a document that was asked for the source code of a contract:
/// `otherwise`, unless it gives the source code.
pub open spec fn after_source(tree: JsonTree, otherwise: FetchView) -> FetchView {
    match tree.get_text("source"@) {
        Some(source) => FetchView::Found(cleaned(source)),
        None => otherwise,
    }
}

/// What follows a transaction: a request for the contract that it calls, or else
/// for the page.
pub open spec fn after_transaction(url: Seq<char>, tree: JsonTree) -> FetchView {
    match called_contract(tree) {
        Some((account, name)) => FetchView::Get {
            stage: Stage::Called,
            address: source_address(api_base(url), account, name),
        },
        None => page_request(url),
    }
}

/// What follows the document in a successful reply of the API. A reply without
/// one ends the questions to the API.
pub open spec fn after_document(
    url: Seq<char>,
    stage: Stage,
    document: Option<JsonTree>,
) -> FetchView {
    match document {
        Some(tree) => match stage {
            Stage::Contract => after_source(tree, transaction_request(url)),
            Stage::Transaction => after_transaction(url, tree),
            _ => after_source(tree, page_request(url)),
        },
        None => page_request(url),
    }
}

/// What follows a reply of the API.
pub open spec fn after_api(
    url: Seq<char>,
    stage: Stage,
    success: bool,
    document: Option<JsonTree>,
) -> FetchView {
    if success {
        after_document(url, stage, document)
    } else if stage == Stage::Contract {
        transaction_request(url)
    } else {
        page_request(url)
    }
}

/// What follows the text of the page.
pub open spec fn after_page(html: Seq<char>) -> FetchView {
    match source_in_page(html) {
        Some(source) => FetchView::Found(source),
        None => FetchView::Failed(FailureView::NoSource),
    }
}

/// What follows the reply to a request. A request to the API that got no reply
/// ends the questions to the API; one for the page ends the search.
pub open spec fn after_reply(url: Seq<char>, stage: Stage, reply: ReplyView) -> FetchView {
    match reply {
        ReplyView::Failed(reason) => if stage == Stage::Page {
            FetchView::Failed(FailureView::Request(reason))
        } else {
            page_request(url)
        },
        ReplyView::Api { success, body } => after_api(url, stage, success, json_parse_bytes(body)),
        ReplyView::Page(html) => after_page(html),
    }
}

/// The API that knows the contracts of the chain that an address is about.
pub fn choose_api(url: &str) -> (r: &'static str)
    ensures
        r@ == api_base(url@),
{
    if has_text(url, "chain=mainnet") {
        "https://api.hiro.so"
    } else {
        "https://api.testnet.hiro.so"
    }
}

/// Where the API gives the source code of a contract.
pub fn make_source_address(base: &str, account: &str, name: &str) -> (r: String)
    ensures
        r@ == source_address(base@, account@, name@),
{
    let mut address = joined(base, "/v2/contracts/source/");
    address = joined(address.as_str(), account);
    address = joined(address.as_str(), "/");
    joined(address.as_str(), name)
}

/// Where the API gives a transaction.
pub fn make_transaction_address(base: &str, transaction: &str) -> (r: String)
    ensures
        r@ == transaction_address(base@, transaction@),
{
    let address = joined(base, "/extended/v1/tx/");
    joined(address.as_str(), transaction)
}

/// Splits the identifier of a contract at its first dot.
pub fn split_contract_identifier(identifier: &str) -> (r: Option<(String, String)>)
    ensures
        match r {
            Some((account, name)) => split_identifier(identifier@) == Some((account@, name@)),
            None => split_identifier(identifier@) is None,
        },
{
    let chars = chars_of(identifier);
    let size: usize = chars.len();
    match find_from(&chars, &chars_of("."), 0) {
        Some(dot) => {
            proof {
                reveal_strlit(".");
                lemma_first_at(identifier@, "."@, 0);
                assert(identifier@.take(dot as int) =~= identifier@.subrange(0, dot as int));
                assert(identifier@.skip(dot + 1) =~= identifier@.subrange(
                    dot + 1,
                    identifier@.len() as int,
                ));
            }
            let account = text_between(&chars, 0, dot);
            let name = text_between(&chars, dot + 1, size);
            Some((account, name))
        },
        None => None,
    }
}

/// The contract that a transaction calls.
pub fn find_called_contract(transaction: &Json) -> (r: Option<(String, String)>)
    ensures
        match r {
            Some((account, name)) => called_contract(transaction@) == Some((account@, name@)),
            None => called_contract(transaction@) is None,
        },
{
    match transaction.get("contract_call") {
        Some(call) => match call.get_text("contract_id") {
            Some(identifier) => split_contract_identifier(identifier.as_str()),
            None => None,
        },
        None => None,
    }
}

/// The contract that an address names.
pub fn find_contract_in_url(url: &str) -> (r: Option<(String, String)>)
    ensures
        match r {
            Some((account, name)) => contract_in(url@, 0) == Some((account@, name@)),
            None => contract_in(url@, 0) is None,
        },
{
    match first_groups::<2>(CONTRACT_PATTERN, url) {
        Some(groups) => Some((groups[0].clone(), groups[1].clone())),
        None => None,
    }
}

/// The transaction that an address names.
pub fn find_transaction_in_url(url: &str) -> (r: Option<String>)
    ensures
        text_view(r) == transaction_in(url@, 0),
{
    match first_groups::<1>(TRANSACTION_PATTERN, url) {
        Some(groups) => Some(groups[0].clone()),
        None => None,
    }
}

/// Requests the page.
fn request_page(url: &str) -> (r: Fetch)
    ensures
        r@ == page_request(url@),
{
    Fetch::Get { stage: Stage::Page, address: url.to_owned() }
}

/// Requests the transaction that the address names, or else the page.
fn request_transaction(url: &str) -> (r: Fetch)
    ensures
        r@ == transaction_request(url@),
{
    match find_transaction_in_url(url) {
        Some(transaction) => Fetch::Get {
            stage: Stage::Transaction,
            address: make_transaction_address(choose_api(url), transaction.as_str()),
        },
        None => request_page(url),
    }
}

/// The first request for the source code of a contract.
pub fn begin(url: &str) -> (r: Fetch)
    ensures
        r@ == first_request(url@),
{
    match find_contract_in_url(url) {
        Some((account, name)) => Fetch::Get {
            stage: Stage::Contract,
            address: make_source_address(choose_api(url), account.as_str(), name.as_str()),
        },
        None => request_transaction(url),
    }
}

/// What to do after a reply of the API with, or without, a document.
pub fn resume_after_api(url: &str, stage: Stage, success: bool, document: Option<Json>) -> (r:
    Fetch)
    requires
        stage != Stage::Page,
    ensures
        r@ == after_api(url@, stage, success, document_view(document)),
{
    if !success {
        return match stage {
            Stage::Contract => request_transaction(url),
            _ => request_page(url),
        };
    }
    let json = match document {
        Some(json) => json,
        None => {
            return request_page(url);
        },
    };
    match stage {
        Stage::Transaction => match find_called_contract(&json) {
            Some((account, name)) => Fetch::Get {
                stage: Stage::Called,
                address: make_source_address(choose_api(url), account.as_str(), name.as_str()),
            },
            None => request_page(url),
        },
        _ => match json.get_text("source") {
            Some(source) => Fetch::Found(clean_source_code(source.as_str())),
            None => match stage {
                Stage::Contract => request_transaction(url),
                _ => request_page(url),
            },
        },
    }
}

/// What to do after the reply to a request.
pub fn resume(url: &str, stage: Stage, reply: Reply) -> (r: Fetch)
    requires
        answers(stage, reply@),
    ensures
        r@ == after_reply(url@, stage, reply@),
{
    match reply {
        Reply::Failed(reason) => match stage {
            Stage::Page => Fetch::Failed(Failure::Request(reason)),
            _ => request_page(url),
        },
        Reply::Api { success, body } => {
            let document = parse_bytes(body.as_slice());
            resume_after_api(url, stage, success, document)
        },
        Reply::Page(html) => match find_source_in_page(html.as_str()) {
            Some(source) => Fetch::Found(source),
            None => Fetch::Failed(Failure::NoSource),
        },
    }
}

proof fn lemma_run(text: Seq<char>, class: spec_fn(char) -> bool, from: int)
    requires
        0 <= from,
    ensures
        0 <= run(text, class, from),
        from <= text.len() ==> from + run(text, class, from) <= text.len(),
        forall|i: int| from <= i < from + run(text, class, from) ==> class(#[trigger] text[i]),
    decreases text.len() - from,
{
    if from < text.len() && class(text[from]) {
        lemma_run(text, class, from + 1);
    }
}

/// An account is 39 to 41 characters of an account, and a name is one or more
/// characters of a name.
pub open spec fn contract_shaped(account: Seq<char>, name: Seq<char>) -> bool {
    &&& 39 <= account.len() <= 41
    &&& forall|i: int| 0 <= i < account.len() ==> account_char(#[trigger] account[i])
    &&& name.len() > 0
    &&& forall|i: int| 0 <= i < name.len() ==> name_char(#[trigger] name[i])
}

/// A contract found in an address has the shape of a contract, and it stands in
/// the address behind a slash and with a dot between its parts.
pub proof fn law_found_contract(url: Seq<char>, from: int)
    requires
        0 <= from,
    ensures
        contract_in(url, from) matches Some((account, name)) ==> contract_shaped(account, name)
            && contains(url, seq!['/'] + account + seq!['.'] + name),
    decreases url.len() - from,
{
    if from < url.len() {
        if let Some((account, name)) = contract_at(url, from) {
            let n = run(url, |c: char| account_char(c), from + 1);
            let dot = from + 1 + n;
            lemma_run(url, |c: char| account_char(c), from + 1);
            lemma_run(url, |c: char| name_char(c), dot + 1);
            let whole = seq!['/'] + account + seq!['.'] + name;
            assert(url.subrange(from, from + whole.len()) =~= whole);
            assert(occurs_at(url, whole, from));
        } else {
            law_found_contract(url, from + 1);
        }
    }
}

/// A transaction found in an address is `0x` with one or more hexadecimal digits
/// behind it.
pub proof fn law_found_transaction(url: Seq<char>, from: int)
    requires
        0 <= from,
    ensures
        transaction_in(url, from) matches Some(transaction) ==> transaction.len() > 2
            && transaction[0] == '0' && transaction[1] == 'x' && (forall|i: int|
            2 <= i < transaction.len() ==> hex_digit(#[trigger] transaction[i]) is Some)
            && contains(url, transaction),
    decreases url.len() - from,
{
    if from < url.len() {
        if let Some(transaction) = transaction_at(url, from) {
            reveal_strlit("/txid/0x");
            let class = |c: char| hex_digit(c) is Some;
            lemma_run(url, class, from + 8);
            let head = url.subrange(from, from + 8);
            assert(head[6] == url[from + 6] && head[7] == url[from + 7]);
            assert(occurs_at(url, transaction, from + 6));
            assert forall|i: int| 2 <= i < transaction.len() implies hex_digit(
                #[trigger] transaction[i],
            ) is Some by {
                assert(class(url[from + 6 + i]));
            }
        } else {
            law_found_transaction(url, from + 1);
        }
    }
}

/// How far a stage is along the way from the first request to the last.
pub open spec fn rank(stage: Stage) -> int {
    match stage {
        Stage::Contract => 0,
        Stage::Transaction => 1,
        Stage::Called => 2,
        Stage::Page => 3,
    }
}

/// A request is only ever followed by one further along the way, so there are
/// four requests at most.
pub proof fn law_requests_advance(url: Seq<char>, stage: Stage, reply: ReplyView)
    requires
        answers(stage, reply),
    ensures
        after_reply(url, stage, reply) matches FetchView::Get { stage: next, .. } ==> rank(stage)
            < rank(next),
{
}

/// The search gives up only on the page: until then every reply leads to source
/// code or to another request.
pub proof fn law_only_the_page_fails(url: Seq<char>, stage: Stage, reply: ReplyView)
    requires
        answers(stage, reply),
    ensures
        first_request(url) is Get,
        after_reply(url, stage, reply) is Failed ==> stage == Stage::Page,
{
}

/// A request goes to the page, and then to its very address, or to a path of the
/// API of the chain that the address is about.
pub open spec fn in_bounds(url: Seq<char>, next: FetchView) -> bool {
    match next {
        FetchView::Get { stage: Stage::Page, address } => address == url,
        FetchView::Get { address, .. } => (api_base(url) + "/"@).is_prefix_of(address),
        _ => true,
    }
}

/// No request leaves the page and the API, whatever is replied.
pub proof fn law_requests_stay_in_bounds(url: Seq<char>, stage: Stage, reply: ReplyView)
    requires
        answers(stage, reply),
    ensures
        in_bounds(url, first_request(url)),
        in_bounds(url, after_reply(url, stage, reply)),
{
    let base = api_base(url);
    let host = base + "/"@;
    reveal_strlit("/");
    reveal_strlit("/v2/contracts/source/");
    reveal_strlit("/extended/v1/tx/");
    assert forall|account: Seq<char>, name: Seq<char>| host.is_prefix_of(
        #[trigger] source_address(base, account, name),
    ) by {
        assert(host =~= source_address(base, account, name).subrange(0, host.len() as int));
    }
    assert forall|transaction: Seq<char>| host.is_prefix_of(
        #[trigger] transaction_address(base, transaction),
    ) by {
        assert(host =~= transaction_address(base, transaction).subrange(0, host.len() as int));
    }
}

/// The character is a capital letter or a digit.
pub open spec fn capital_or_digit(c: char) -> bool {
    'A' <= c <= 'Z' || '0' <= c <= '9'
}

/// The character is a letter, a digit, an underscore or a hyphen.
pub open spec fn word_char(c: char) -> bool {
    capital_or_digit(c) || 'a' <= c <= 'z' || c == '_' || c == '-'
}

/// A contract is written in an address behind its first `i` characters: a slash,
/// an account of 39 to 41 capital letters and digits, a dot, and a name of one or
/// more letters, digits, underscores and hyphens, with `back` behind it.
pub open spec fn contract_written(
    url: Seq<char>,
    i: int,
    account: Seq<char>,
    name: Seq<char>,
    back: Seq<char>,
) -> bool {
    &&& 0 <= i <= url.len()
    &&& url == url.take(i) + seq!['/'] + account + seq!['.'] + name + back
    &&& 39 <= account.len() <= 41
    &&& name.len() > 0
    &&& forall|k: int| 0 <= k < account.len() ==> capital_or_digit(#[trigger] account[k])
    &&& forall|k: int| 0 <= k < name.len() ==> word_char(#[trigger] name[k])
}

/// The contract that an address names is the first that is written in it, with
/// the name as long as it goes. An address in which none is written names none.
pub proof fn law_url_names_first_contract(url: Seq<char>)
    ensures
        contract_in(url, 0) matches Some((account, name)) ==> exists|i: int, back: Seq<char>|
            {
                &&& #[trigger] contract_written(url, i, account, name, back)
                &&& back.len() > 0 ==> !word_char(back[0])
                &&& forall|j: int, a: Seq<char>, n: Seq<char>, b: Seq<char>|
                    j < i ==> !#[trigger] contract_written(url, j, a, n, b)
            },
        contract_in(url, 0) is None ==> forall|j: int, a: Seq<char>, n: Seq<char>, b: Seq<char>|
            !#[trigger] contract_written(url, j, a, n, b),
{
    lemma_first_contract(url, 0);
}

proof fn lemma_first_contract(url: Seq<char>, from: int)
    requires
        0 <= from,
        forall|j: int, a: Seq<char>, n: Seq<char>, b: Seq<char>|
            j < from ==> !#[trigger] contract_written(url, j, a, n, b),
    ensures
        contract_in(url, from) matches Some((account, name)) ==> exists|i: int, back: Seq<char>|
            {
                &&& #[trigger] contract_written(url, i, account, name, back)
                &&& back.len() > 0 ==> !word_char(back[0])
                &&& forall|j: int, a: Seq<char>, n: Seq<char>, b: Seq<char>|
                    j < i ==> !#[trigger] contract_written(url, j, a, n, b)
            },
        contract_in(url, from) is None ==> forall|j: int, a: Seq<char>, n: Seq<char>, b: Seq<char>|
            !#[trigger] contract_written(url, j, a, n, b),
    decreases url.len() - from,
{
    if from < url.len() {
        match contract_at(url, from) {
            Some((account, name)) => {
                let of_account = |c: char| account_char(c);
                let of_name = |c: char| name_char(c);
                let dot = from + 1 + run(url, of_account, from + 1);
                let end = dot + 1 + run(url, of_name, dot + 1);
                lemma_run(url, of_account, from + 1);
                lemma_run(url, of_name, dot + 1);
                lemma_run_ends(url, of_name, dot + 1);
                let back = url.skip(end);
                assert(url =~= url.take(from) + seq!['/'] + account + seq!['.'] + name + back);
                assert forall|k: int| 0 <= k < account.len() implies capital_or_digit(
                    #[trigger] account[k],
                ) by {
                    assert(of_account(url[from + 1 + k]));
                }
                assert forall|k: int| 0 <= k < name.len() implies word_char(#[trigger] name[k]) by {
                    assert(of_name(url[dot + 1 + k]));
                }
                assert(contract_written(url, from, account, name, back));
            },
            None => {
                assert forall|a: Seq<char>, n: Seq<char>, b: Seq<char>| !#[trigger]
                    contract_written(url, from, a, n, b) by {
                    if contract_written(url, from, a, n, b) {
                        lemma_written_contract(url, from, a, n, b);
                    }
                }
                lemma_first_contract(url, from + 1);
            },
        }
    } else {
        assert forall|j: int, a: Seq<char>, n: Seq<char>, b: Seq<char>| !#[trigger] contract_written(
            url,
            j,
            a,
            n,
            b,
        ) by {
            if contract_written(url, j, a, n, b) {
                assert(url.len() == j + 2 + a.len() + n.len() + b.len());
            }
        }
    }
}

proof fn lemma_written_contract(
    url: Seq<char>,
    i: int,
    account: Seq<char>,
    name: Seq<char>,
    back: Seq<char>,
)
    requires
        contract_written(url, i, account, name, back),
    ensures
        contract_at(url, i) is Some,
{
    let of_account = |c: char| account_char(c);
    let of_name = |c: char| name_char(c);
    let dot = i + 1 + account.len();
    assert(url[i] == '/');
    assert(url[dot] == '.');
    assert forall|k: int| i + 1 <= k < dot implies of_account(#[trigger] url[k]) by {
        assert(url[k] == account[k - i - 1]);
        assert(capital_or_digit(account[k - i - 1]));
    }
    lemma_run_is(url, of_account, i + 1, dot);
    assert(url[dot + 1] == name[0]);
    assert(word_char(name[0]));
    lemma_run(url, of_name, dot + 2);
}

proof fn lemma_run_ends(text: Seq<char>, class: spec_fn(char) -> bool, from: int)
    requires
        0 <= from,
    ensures
        from + run(text, class, from) < text.len() ==> !class(text[from + run(text, class, from)]),
    decreases text.len() - from,
{
    if from < text.len() && class(text[from]) {
        lemma_run_ends(text, class, from + 1);
    }
}

proof fn lemma_run_is(text: Seq<char>, class: spec_fn(char) -> bool, from: int, end: int)
    requires
        0 <= from <= end <= text.len(),
        forall|k: int| from <= k < end ==> class(#[trigger] text[k]),
        end < text.len() ==> !class(text[end]),
    ensures
        run(text, class, from) == end - from,
    decreases end - from,
{
    if from < end {
        assert(class(text[from]));
        lemma_run_is(text, class, from + 1, end);
    }
}

/// A transaction is written in an address behind its first `i` characters: `/txid/`,
/// and then the transaction, which is `0x` and one or more hexadecimal digits, with
/// `back` behind it.
pub open spec fn transaction_written(
    url: Seq<char>,
    i: int,
    transaction: Seq<char>,
    back: Seq<char>,
) -> bool {
    &&& 0 <= i <= url.len()
    &&& url == url.take(i) + "/txid/"@ + transaction + back
    &&& transaction.len() > 2
    &&& transaction[0] == '0'
    &&& transaction[1] == 'x'
    &&& forall|k: int| 2 <= k < transaction.len() ==> hexadecimal(#[trigger] transaction[k])
}

/// The character is a hexadecimal digit.
pub open spec fn hexadecimal(c: char) -> bool {
    '0' <= c <= '9' || 'a' <= c <= 'f' || 'A' <= c <= 'F'
}

/// The transaction that an address names is the first that is written in it, with
/// all its digits. An address in which none is written names none.
pub proof fn law_url_names_first_transaction(url: Seq<char>)
    ensures
        transaction_in(url, 0) matches Some(transaction) ==> exists|i: int, back: Seq<char>|
            {
                &&& #[trigger] transaction_written(url, i, transaction, back)
                &&& back.len() > 0 ==> !hexadecimal(back[0])
                &&& forall|j: int, t: Seq<char>, b: Seq<char>|
                    j < i ==> !#[trigger] transaction_written(url, j, t, b)
            },
        transaction_in(url, 0) is None ==> forall|j: int, t: Seq<char>, b: Seq<char>|
            !#[trigger] transaction_written(url, j, t, b),
{
    lemma_first_transaction(url, 0);
}

proof fn lemma_first_transaction(url: Seq<char>, from: int)
    requires
        0 <= from,
        forall|j: int, t: Seq<char>, b: Seq<char>|
            j < from ==> !#[trigger] transaction_written(url, j, t, b),
    ensures
        transaction_in(url, from) matches Some(transaction) ==> exists|i: int, back: Seq<char>|
            {
                &&& #[trigger] transaction_written(url, i, transaction, back)
                &&& back.len() > 0 ==> !hexadecimal(back[0])
                &&& forall|j: int, t: Seq<char>, b: Seq<char>|
                    j < i ==> !#[trigger] transaction_written(url, j, t, b)
            },
        transaction_in(url, from) is None ==> forall|j: int, t: Seq<char>, b: Seq<char>|
            !#[trigger] transaction_written(url, j, t, b),
    decreases url.len() - from,
{
    reveal_strlit("/txid/");
    reveal_strlit("/txid/0x");
    if from < url.len() {
        match transaction_at(url, from) {
            Some(transaction) => {
                let digit = |c: char| hex_digit(c) is Some;
                let end = from + 8 + run(url, digit, from + 8);
                lemma_run(url, digit, from + 8);
                lemma_run_ends(url, digit, from + 8);
                let back = url.skip(end);
                let head = url.subrange(from, from + 8);
                assert(head == "/txid/0x"@);
                assert(head[6] == transaction[0] && head[7] == transaction[1]);
                assert(url.subrange(from, from + 6) =~= "/txid/"@);
                assert(url =~= url.take(from) + url.subrange(from, from + 6) + transaction + back);
                assert forall|k: int| 2 <= k < transaction.len() implies hexadecimal(
                    #[trigger] transaction[k],
                ) by {
                    assert(digit(url[from + 6 + k]));
                }
                assert(transaction_written(url, from, transaction, back));
            },
            None => {
                assert forall|t: Seq<char>, b: Seq<char>| !#[trigger] transaction_written(
                    url,
                    from,
                    t,
                    b,
                ) by {
                    if transaction_written(url, from, t, b) {
                        lemma_written_transaction(url, from, t, b);
                    }
                }
                lemma_first_transaction(url, from + 1);
            },
        }
    } else {
        assert forall|j: int, t: Seq<char>, b: Seq<char>| !#[trigger] transaction_written(
            url,
            j,
            t,
            b,
        ) by {
            if transaction_written(url, j, t, b) {
                assert(url.len() == j + 6 + t.len() + b.len());
            }
        }
    }
}

proof fn lemma_written_transaction(
    url: Seq<char>,
    i: int,
    transaction: Seq<char>,
    back: Seq<char>,
)
    requires
        transaction_written(url, i, transaction, back),
    ensures
        transaction_at(url, i) is Some,
{
    reveal_strlit("/txid/");
    reveal_strlit("/txid/0x");
    let digit = |c: char| hex_digit(c) is Some;
    assert(url.subrange(i, i + 8) =~= "/txid/0x"@);
    assert(url[i + 8] == transaction[2]);
    assert(hexadecimal(transaction[2]));
    lemma_run(url, digit, i + 9);
}

/// The identifier of a contract is split at its first dot: an account without a
/// dot comes out whole, and so does the name behind it, whatever its characters.
/// An identifier without a dot is not split.
pub proof fn law_identifier_is_split_at_first_dot(account: Seq<char>, name: Seq<char>)
    requires
        !account.contains('.'),
    ensures
        split_identifier(account + seq!['.'] + name) == Some((account, name)),
        split_identifier(account) is None,
{
    reveal_strlit(".");
    let whole = account + seq!['.'] + name;
    let dot = account.len() as int;
    assert(whole.subrange(dot, dot + 1) =~= "."@);
    assert forall|j: int| 0 <= j < dot implies !occurs_at(whole, "."@, j) by {
        if occurs_at(whole, "."@, j) {
            assert(whole.subrange(j, j + 1)[0] == account[j]);
        }
    }
    lemma_first_at_is(whole, "."@, 0, dot);
    assert(whole.take(dot) =~= account);
    assert(whole.skip(dot + 1) =~= name);
    lemma_first_at(account, "."@, 0);
    if let Some(j) = first_at(account, "."@, 0) {
        assert(account.subrange(j, j + 1)[0] == account[j]);
        assert(account.contains('.'));
    }
}

/// The next step asks the API of the chain: that of the main chain where the
/// address says so, and otherwise that of the test chain.
pub open spec fn asks_chain(url: Seq<char>, next: FetchView) -> bool {
    next matches FetchView::Get { stage, address } ==> stage != Stage::Page ==> {
        &&& contains(url, "chain=mainnet"@) ==> "https://api.hiro.so/"@.is_prefix_of(address)
        &&& !contains(url, "chain=mainnet"@) ==> "https://api.testnet.hiro.so/"@.is_prefix_of(
            address,
        )
    }
}

/// The API is asked about the main chain exactly for the addresses that have
/// `chain=mainnet` in them, and about the test chain for all others.
pub proof fn law_address_decides_chain(url: Seq<char>, stage: Stage, reply: ReplyView)
    ensures
        asks_chain(url, first_request(url)),
        asks_chain(url, after_reply(url, stage, reply)),
        contains(url, "chain=mainnet"@) ==> api_base(url) == "https://api.hiro.so"@,
        !contains(url, "chain=mainnet"@) ==> api_base(url) == "https://api.testnet.hiro.so"@,
{
    let base = api_base(url);
    let host = if contains(url, "chain=mainnet"@) {
        "https://api.hiro.so/"@
    } else {
        "https://api.testnet.hiro.so/"@
    };
    reveal_strlit("/v2/contracts/source/");
    reveal_strlit("/extended/v1/tx/");
    reveal_strlit("https://api.hiro.so");
    reveal_strlit("https://api.hiro.so/");
    reveal_strlit("https://api.testnet.hiro.so");
    reveal_strlit("https://api.testnet.hiro.so/");
    assert forall|account: Seq<char>, name: Seq<char>| host.is_prefix_of(
        #[trigger] source_address(base, account, name),
    ) by {
        assert(host =~= source_address(base, account, name).subrange(0, host.len() as int));
    }
    assert forall|transaction: Seq<char>| host.is_prefix_of(
        #[trigger] transaction_address(base, transaction),
    ) by {
        assert(host =~= transaction_address(base, transaction).subrange(0, host.len() as int));
    }
}

/// The request for the source code of a contract, to the API of the chain that an
/// address is about.
pub open spec fn requests_contract(
    url: Seq<char>,
    next: FetchView,
    stage: Stage,
    account: Seq<char>,
    name: Seq<char>,
) -> bool {
    next == if contains(url, "chain=mainnet"@) {
        FetchView::Get {
            stage,
            address: "https://api.hiro.so/v2/contracts/source/"@ + account + seq!['/'] + name,
        }
    } else {
        FetchView::Get {
            stage,
            address: "https://api.testnet.hiro.so/v2/contracts/source/"@ + account + seq!['/']
                + name,
        }
    }
}

/// The request for the transaction that an address names, to the API of the chain
/// that the address is about, or for the page, where the address names none.
pub open spec fn requests_transaction(url: Seq<char>, next: FetchView) -> bool {
    match transaction_in(url, 0) {
        Some(transaction) => next == if contains(url, "chain=mainnet"@) {
            FetchView::Get {
                stage: Stage::Transaction,
                address: "https://api.hiro.so/extended/v1/tx/"@ + transaction,
            }
        } else {
            FetchView::Get {
                stage: Stage::Transaction,
                address: "https://api.testnet.hiro.so/extended/v1/tx/"@ + transaction,
            }
        },
        None => requests_page(url, next),
    }
}

/// The request for the page.
pub open spec fn requests_page(url: Seq<char>, next: FetchView) -> bool {
    next == (FetchView::Get { stage: Stage::Page, address: url })
}

proof fn lemma_addresses(url: Seq<char>, stage: Stage, account: Seq<char>, name: Seq<char>)
    ensures
        requests_contract(
            url,
            FetchView::Get { stage, address: source_address(api_base(url), account, name) },
            stage,
            account,
            name,
        ),
        requests_transaction(url, transaction_request(url)),
{
    reveal_strlit("/");
    reveal_strlit("/v2/contracts/source/");
    reveal_strlit("/extended/v1/tx/");
    reveal_strlit("https://api.hiro.so");
    reveal_strlit("https://api.testnet.hiro.so");
    reveal_strlit("https://api.hiro.so/v2/contracts/source/");
    reveal_strlit("https://api.testnet.hiro.so/v2/contracts/source/");
    reveal_strlit("https://api.hiro.so/extended/v1/tx/");
    reveal_strlit("https://api.testnet.hiro.so/extended/v1/tx/");
    assert("https://api.hiro.so"@ + "/v2/contracts/source/"@
        =~= "https://api.hiro.so/v2/contracts/source/"@);
    assert("https://api.testnet.hiro.so"@ + "/v2/contracts/source/"@
        =~= "https://api.testnet.hiro.so/v2/contracts/source/"@);
    assert("https://api.hiro.so"@ + "/extended/v1/tx/"@ =~= "https://api.hiro.so/extended/v1/tx/"@);
    assert("https://api.testnet.hiro.so"@ + "/extended/v1/tx/"@
        =~= "https://api.testnet.hiro.so/extended/v1/tx/"@);
    assert("/"@ =~= seq!['/']);
}

/// The search starts with the contract that the address names, or else with the
/// transaction that it names, or else with the page.
pub proof fn law_search_starts_with_what_url_names(url: Seq<char>)
    ensures
        contract_in(url, 0) matches Some((account, name)) ==> requests_contract(
            url,
            first_request(url),
            Stage::Contract,
            account,
            name,
        ),
        contract_in(url, 0) is None ==> requests_transaction(url, first_request(url)),
{
    lemma_addresses(
        url,
        Stage::Contract,
        contract_in(url, 0)->Some_0.0,
        contract_in(url, 0)->Some_0.1,
    );
}

/// Source code in a successful reply about a contract is found and cleaned. A
/// reply that has none leads on: from the contract that the address names to the
/// transaction that it names, and from the contract that was called to the page.
pub proof fn law_contract_reply(url: Seq<char>, stage: Stage, success: bool, body: Seq<u8>)
    requires
        stage == Stage::Contract || stage == Stage::Called,
    ensures
        ({
            let next = after_reply(url, stage, ReplyView::Api { success, body });
            let document = json_parse_bytes(body);
            let source = match document {
                Some(tree) => tree.get_text("source"@),
                None => None,
            };
            &&& next == after_api(url, stage, success, document)
            &&& success && source is Some ==> next == FetchView::Found(cleaned(source->0))
            &&& (!success || document is Some && source is None) && stage == Stage::Contract
                ==> requests_transaction(url, next)
            &&& (!success || source is None) && stage == Stage::Called ==> requests_page(url, next)
            &&& success && document is None ==> requests_page(url, next)
        }),
{
    lemma_addresses(url, stage, Seq::empty(), Seq::empty());
}

/// A successful reply about a transaction leads to the contract that the
/// transaction calls, whose identifier is an account, a dot and a name. A reply
/// that tells of no such contract leads to the page.
pub proof fn law_transaction_reply(
    url: Seq<char>,
    success: bool,
    body: Seq<u8>,
    account: Seq<char>,
    name: Seq<char>,
)
    requires
        !account.contains('.'),
    ensures
        ({
            let next = after_reply(url, Stage::Transaction, ReplyView::Api { success, body });
            let document = json_parse_bytes(body);
            let call = match document {
                Some(tree) => tree.get("contract_call"@),
                None => None,
            };
            let identifier = match call {
                Some(tree) => tree.get_text("contract_id"@),
                None => None,
            };
            &&& next == after_api(url, Stage::Transaction, success, document)
            &&& success && identifier == Some(account + seq!['.'] + name) ==> requests_contract(
                url,
                next,
                Stage::Called,
                account,
                name,
            )
            &&& !success || identifier is None ==> requests_page(url, next)
            &&& identifier matches Some(text) ==> !text.contains('.') ==> requests_page(url, next)
        }),
{
    law_identifier_is_split_at_first_dot(account, name);
    lemma_addresses(url, Stage::Called, account, name);
    if let Some(tree) = json_parse_bytes(body) {
        if let Some(call) = tree.get("contract_call"@) {
            if let Some(text) = call.get_text("contract_id"@) {
                if !text.contains('.') {
                    law_identifier_is_split_at_first_dot(text, name);
                }
            }
        }
    }
}

/// A request to the API that got no reply leads to the page. One for the page that
/// got none ends the search with the reason that was given.
pub proof fn law_missing_reply(url: Seq<char>, stage: Stage, reason: Seq<char>)
    ensures
        stage != Stage::Page ==> requests_page(
            url,
            after_reply(url, stage, ReplyView::Failed(reason)),
        ),
        stage == Stage::Page ==> after_reply(url, stage, ReplyView::Failed(reason))
            == FetchView::Failed(FailureView::Request(reason)),
{
}

/// The page ends the search: with the source code in it, or for want of any.
pub proof fn law_page_reply(url: Seq<char>, html: Seq<char>)
    ensures
        source_in_page(html) matches Some(source) ==> after_reply(
            url,
            Stage::Page,
            ReplyView::Page(html),
        ) == FetchView::Found(source),
        source_in_page(html) is None ==> after_reply(url, Stage::Page, ReplyView::Page(html))
            == FetchView::Failed(FailureView::NoSource),
{
}

/// The models of a step and of a reply have what the step and the reply have.
pub proof fn law_fetch_and_reply_views(fetch: Fetch, reply: Reply)
    ensures
        match fetch {
            Fetch::Get { stage, address } => fetch@ == (FetchView::Get { stage, address: address@ }),
            Fetch::Found(source) => fetch@ == FetchView::Found(source@),
            Fetch::Failed(failure) => fetch@ == FetchView::Failed(failure@),
        },
        match reply {
            Reply::Failed(reason) => reply@ == ReplyView::Failed(reason@),
            Reply::Api { success, body } => reply@ == (ReplyView::Api { success, body: body@ }),
            Reply::Page(html) => reply@ == ReplyView::Page(html@),
        },
{
}

/// The addresses of the API are paths behind its base, made of nothing but what is
/// asked for.
pub proof fn law_addresses_are_paths(
    base: Seq<char>,
    account: Seq<char>,
    name: Seq<char>,
    transaction: Seq<char>,
)
    ensures
        source_address(base, account, name) == base + "/v2/contracts/source/"@ + account + "/"@
            + name,
        transaction_address(base, transaction) == base + "/extended/v1/tx/"@ + transaction,
{
}

/// A contract that a transaction calls is what the identifier under `contract_id`
/// in its `contract_call` names.
pub proof fn law_called_contract(
    transaction: JsonTree,
    call: JsonTree,
    account: Seq<char>,
    name: Seq<char>,
)
    requires
        !account.contains('.'),
    ensures
        transaction.get("contract_call"@) == Some(call) && call.get("contract_id"@) == Some(
            JsonTree::Text(account + seq!['.'] + name),
        ) ==> called_contract(transaction) == Some((account, name)),
        transaction.get("contract_call"@) is None ==> called_contract(transaction) is None,
        transaction.get("contract_call"@) == Some(call) && !(call.get("contract_id"@) matches Some(
            JsonTree::Text(_),
        )) ==> called_contract(transaction) is None,
        transaction.get("contract_call"@) == Some(call) && call.get("contract_id"@) == Some(
            JsonTree::Text(account),
        ) ==> called_contract(transaction) is None,
{
    law_identifier_is_split_at_first_dot(account, name);
}

/// Contracts and transactions are looked for in an address by these patterns.
pub proof fn law_address_patterns()
    ensures
        CONTRACT_PATTERN@ == r"/([A-Z0-9]{39,41})\.([a-zA-Z0-9_-]+)"@,
        TRANSACTION_PATTERN@ == r"/txid/(0x[a-fA-F0-9]+)"@,
{
}

} // verus!
