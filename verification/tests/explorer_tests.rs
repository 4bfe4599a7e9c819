use thicket::explorer::{
    begin, choose_api, find_called_contract, find_contract_in_url, find_transaction_in_url,
    make_source_address, make_transaction_address, resume, resume_after_api,
    split_contract_identifier, Fetch, Reply, Stage,
};
use thicket::failure::Failure;
use thicket::json::parse;

const CONTRACT_URL: &str = "https://explorer.hiro.so/txid/SP3YBY0BH4ANC0Q35QB6PD163F943FVFVDFM1SH7S.gl-api?chain=mainnet&tab=sourceCode";
const TRANSACTION_URL: &str = "https://explorer.hiro.so/txid/0x586ed2f2f2f7cfed9d6f1b8812c49a581edc40cf809659d6ad5f8293a3b26b3a?chain=mainnet&tab=sourceCode";

fn get(stage: Stage, address: &str) -> Fetch {
    Fetch::Get {
        stage,
        address: address.to_string(),
    }
}

fn api(success: bool, body: &str) -> Reply {
    Reply::Api {
        success,
        body: body.as_bytes().to_vec(),
    }
}

fn pair(a: &str, b: &str) -> Option<(String, String)> {
    Some((a.to_string(), b.to_string()))
}

#[test]
fn contracts_are_found_in_addresses() {
    assert_eq!(
        find_contract_in_url(CONTRACT_URL),
        pair("SP3YBY0BH4ANC0Q35QB6PD163F943FVFVDFM1SH7S", "gl-api")
    );
    assert_eq!(find_contract_in_url(TRANSACTION_URL), None);
    assert_eq!(find_contract_in_url(""), None);
}

#[test]
fn accounts_have_39_to_41_characters() {
    for n in 37..44 {
        let account = "A".repeat(n);
        let url = format!("/{}.name", account);
        let expected = if (39..=41).contains(&n) {
            pair(&account, "name")
        } else {
            None
        };
        assert_eq!(find_contract_in_url(&url), expected, "{}", n);
    }
}

#[test]
fn the_first_contract_in_an_address_is_taken() {
    let a = "A".repeat(40);
    let b = "9".repeat(39);
    assert_eq!(
        find_contract_in_url(&format!("x/{}.//{}.n_-9Z+/{}.m", a, b, a)),
        pair(&b, "n_-9Z")
    );
    assert_eq!(find_contract_in_url(&format!("/{}.\u{e9}", a)), None);
    assert_eq!(find_contract_in_url(&format!("{}.n", a)), None);
    assert_eq!(find_contract_in_url(&format!("/a{}.n", a)), None);
    assert_eq!(
        find_contract_in_url(&format!("/{}.n", "\u{661}".repeat(40))),
        None
    );
    assert_eq!(
        find_contract_in_url(&format!("\u{1f600}/{}.n\u{e9}", a)),
        pair(&a, "n")
    );
}

#[test]
fn transactions_are_found_in_addresses() {
    assert_eq!(
        find_transaction_in_url(TRANSACTION_URL),
        Some("0x586ed2f2f2f7cfed9d6f1b8812c49a581edc40cf809659d6ad5f8293a3b26b3a".to_string())
    );
    assert_eq!(
        find_transaction_in_url("/txid/0xg/txid/0xaFg/txid/0x1"),
        Some("0xaF".to_string())
    );
    assert_eq!(find_transaction_in_url("/txid/0x"), None);
    assert_eq!(find_transaction_in_url("/txid/0X1"), None);
    assert_eq!(find_transaction_in_url("txid/0x1"), None);
}

#[test]
fn the_chain_decides_the_api() {
    assert_eq!(choose_api("x?chain=mainnet"), "https://api.hiro.so");
    assert_eq!(choose_api("x?chain=testnet"), "https://api.testnet.hiro.so");
    assert_eq!(choose_api(""), "https://api.testnet.hiro.so");
}

#[test]
fn addresses_are_made() {
    assert_eq!(
        make_source_address("b", "SP1", "n"),
        "b/v2/contracts/source/SP1/n"
    );
    assert_eq!(make_transaction_address("b", "0x1"), "b/extended/v1/tx/0x1");
}

#[test]
fn identifiers_are_split_at_the_first_dot() {
    assert_eq!(split_contract_identifier("a.b.c"), pair("a", "b.c"));
    assert_eq!(split_contract_identifier("."), pair("", ""));
    assert_eq!(split_contract_identifier("ab"), None);
}

#[test]
fn called_contracts_are_found() {
    let called = |text: &str| find_called_contract(&parse(text).unwrap());
    assert_eq!(
        called(r#"{"contract_call":{"contract_id":"SP1.vault"}}"#),
        pair("SP1", "vault")
    );
    assert_eq!(called(r#"{"contract_call":{"contract_id":1}}"#), None);
    assert_eq!(called(r#"{"contract_call":[]}"#), None);
    assert_eq!(called("{}"), None);
}

#[test]
fn the_first_request_depends_on_the_address() {
    assert_eq!(
        begin(CONTRACT_URL),
        get(
            Stage::Contract,
            "https://api.hiro.so/v2/contracts/source/SP3YBY0BH4ANC0Q35QB6PD163F943FVFVDFM1SH7S/gl-api"
        )
    );
    assert_eq!(
        begin(TRANSACTION_URL),
        get(
            Stage::Transaction,
            "https://api.hiro.so/extended/v1/tx/0x586ed2f2f2f7cfed9d6f1b8812c49a581edc40cf809659d6ad5f8293a3b26b3a"
        )
    );
    assert_eq!(begin("http://x"), get(Stage::Page, "http://x"));
}

#[test]
fn a_contract_reply_gives_the_source() {
    assert_eq!(
        resume(CONTRACT_URL, Stage::Contract, api(true, r#"{"source":"a\\nb"}"#)),
        Fetch::Found("a\nb".to_string())
    );
}

#[test]
fn a_contract_reply_without_source_leads_on() {
    let both = format!("{}/txid/0xab", CONTRACT_URL);
    let transaction = get(
        Stage::Transaction,
        "https://api.hiro.so/extended/v1/tx/0xab",
    );
    assert_eq!(resume(&both, Stage::Contract, api(true, "{}")), transaction);
    assert_eq!(resume(&both, Stage::Contract, api(false, "")), transaction);
    assert_eq!(
        resume(CONTRACT_URL, Stage::Contract, api(false, "")),
        get(Stage::Page, CONTRACT_URL)
    );
}

#[test]
fn a_contract_reply_that_cannot_be_read_leads_to_the_page() {
    let both = format!("{}/txid/0xab", CONTRACT_URL);
    let page = get(Stage::Page, &both);
    assert_eq!(resume(&both, Stage::Contract, api(true, "{")), page);
    assert_eq!(
        resume(&both, Stage::Contract, Reply::Failed("down".to_string())),
        page
    );
}

#[test]
fn a_transaction_reply_leads_to_the_called_contract() {
    assert_eq!(
        resume(
            TRANSACTION_URL,
            Stage::Transaction,
            api(true, r#"{"contract_call":{"contract_id":"SP1.vault"}}"#)
        ),
        get(
            Stage::Called,
            "https://api.hiro.so/v2/contracts/source/SP1/vault"
        )
    );
    let page = get(Stage::Page, TRANSACTION_URL);
    for reply in [
        api(true, "{}"),
        api(true, "x"),
        api(false, ""),
        Reply::Failed("down".to_string()),
    ] {
        assert_eq!(resume(TRANSACTION_URL, Stage::Transaction, reply), page);
    }
}

#[test]
fn a_called_contract_reply_gives_the_source_or_leads_to_the_page() {
    assert_eq!(
        resume(TRANSACTION_URL, Stage::Called, api(true, r#"{"source":"(ok 1)"}"#)),
        Fetch::Found("(ok 1)".to_string())
    );
    let page = get(Stage::Page, TRANSACTION_URL);
    for reply in [
        api(true, r#"{"source":1}"#),
        api(true, ""),
        api(false, ""),
        Reply::Failed("down".to_string()),
    ] {
        assert_eq!(resume(TRANSACTION_URL, Stage::Called, reply), page);
    }
}

#[test]
fn the_page_is_the_last_resort() {
    assert_eq!(
        resume(
            "u",
            Stage::Page,
            Reply::Page("<pre>(define-map x)</pre>".to_string())
        ),
        Fetch::Found("(define-map x)".to_string())
    );
    assert_eq!(
        resume("u", Stage::Page, Reply::Page("<p>".to_string())),
        Fetch::Failed(Failure::NoSource)
    );
    assert_eq!(
        resume("u", Stage::Page, Reply::Failed("down".to_string())),
        Fetch::Failed(Failure::Request("down".to_string()))
    );
}

#[test]
fn a_document_is_followed_without_its_bytes() {
    let document = parse(r#"{"source":"(ok 1)"}"#);
    assert_eq!(
        resume_after_api(CONTRACT_URL, Stage::Contract, true, document),
        Fetch::Found("(ok 1)".to_string())
    );
    assert_eq!(
        resume_after_api(CONTRACT_URL, Stage::Contract, true, None),
        get(Stage::Page, CONTRACT_URL)
    );
}

fn contract_in(url: &str) -> Option<(String, String)> {
    let chars: Vec<char> = url.chars().collect();
    for i in 0..chars.len() {
        if chars[i] != '/' {
            continue;
        }
        let account: String = chars[i + 1..]
            .iter()
            .take_while(|c| c.is_ascii_uppercase() || c.is_ascii_digit())
            .collect();
        let dot = i + 1 + account.len();
        if !(39..=41).contains(&account.len()) || chars.get(dot) != Some(&'.') {
            continue;
        }
        let name: String = chars[dot + 1..]
            .iter()
            .take_while(|c| c.is_ascii_alphanumeric() || **c == '_' || **c == '-')
            .collect();
        if !name.is_empty() {
            return Some((account, name));
        }
    }
    None
}

#[test]
fn contracts_are_found_in_every_arrangement() {
    let forty = "B".repeat(40);
    let parts = ["/", ".", "A", "-", forty.as_str(), "\u{e9}"];
    let mut urls: Vec<String> = vec![String::new()];
    for _ in 0..4 {
        let mut longer = Vec::new();
        for url in &urls {
            for part in parts {
                longer.push(format!("{}{}", url, part));
            }
        }
        urls.extend(longer);
    }
    urls.sort();
    urls.dedup();
    for url in urls {
        assert_eq!(find_contract_in_url(&url), contract_in(&url), "{}", url);
    }
}
