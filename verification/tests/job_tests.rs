use thicket::cache::{decode_record, encode_record, Record};
use thicket::cost::{cost_report, ExecutionCost, FunctionCost};
use thicket::explorer::{Reply, Stage};
use thicket::failure::Failure;
use thicket::job::{
    advance, process_contract_source, process_contract_url, respond, Event, Job, Origin,
};
use thicket::json::{parse, print, Json};

fn costs() -> Vec<FunctionCost> {
    let cost = ExecutionCost {
        runtime: 1,
        read_count: 2,
        read_length: 3,
        write_count: 4,
        write_length: 5,
    };
    vec![FunctionCost {
        name: "f".to_string(),
        min: cost,
        max: cost,
        trait_count: Json::Null,
    }]
}

fn text(s: &str) -> String {
    s.to_string()
}

#[test]
fn jobs_begin_with_a_lookup() {
    assert_eq!(
        process_contract_url("u"),
        Job::Lookup {
            origin: Origin::Url,
            key: text("u")
        }
    );
    assert_eq!(
        process_contract_source("s"),
        Job::Lookup {
            origin: Origin::Source,
            key: text("s")
        }
    );
}

#[test]
fn a_hit_is_answered_with_limits() {
    let hit = Event::Hit {
        source: text("(ok 1)"),
        cost_map: parse(r#"{"f":{}}"#).unwrap(),
    };
    match advance(process_contract_url("u"), hit) {
        Job::Answer(answer) => {
            assert_eq!(answer.get_text("source_code"), Some(text("(ok 1)")));
            let cost_map = answer.get("cost_map").unwrap();
            assert!(cost_map.get("f").is_some());
            let limits = cost_map.get("block_limits").unwrap();
            assert_eq!(limits.get("runtime"), Some(&Json::Count(5_000_000_000)));
        }
        other => panic!("{:?}", other),
    }
}

#[test]
fn a_failed_lookup_fails_the_job() {
    assert_eq!(
        advance(
            process_contract_source("s"),
            Event::LookupFailed(text("gone"))
        ),
        Job::Failed(Failure::CacheLookup(text("gone")))
    );
}

#[test]
fn given_source_is_cleaned_and_analyzed() {
    assert_eq!(
        advance(process_contract_source("a\\nb"), Event::Missed),
        Job::Analyze {
            key: text("a\\nb"),
            source: text("a\nb")
        }
    );
}

#[test]
fn a_missed_address_is_fetched() {
    let request = advance(process_contract_url("http://x"), Event::Missed);
    assert_eq!(
        request,
        Job::Request {
            url: text("http://x"),
            stage: Stage::Page,
            address: text("http://x")
        }
    );
    let page = Reply::Page(text("<pre>(define-map x)</pre>"));
    assert_eq!(
        advance(request, Event::Replied(page)),
        Job::Analyze {
            key: text("http://x"),
            source: text("(define-map x)")
        }
    );
}

#[test]
fn a_page_without_source_fails_the_job() {
    let request = advance(process_contract_url("http://x"), Event::Missed);
    let page = Reply::Page(text(""));
    assert_eq!(
        advance(request, Event::Replied(page)),
        Job::Failed(Failure::NoSource)
    );
}

#[test]
fn failed_analyses_fail_the_job() {
    let analyze = || advance(process_contract_source("s"), Event::Missed);
    assert_eq!(
        advance(analyze(), Event::SyntaxFailed(text("e"))),
        Job::Failed(Failure::Syntax(text("e")))
    );
    assert_eq!(
        advance(analyze(), Event::CostFailed(text("e"))),
        Job::Failed(Failure::StaticCost(text("e")))
    );
}

#[test]
fn an_analysis_is_stored_and_answered() {
    let analyze = advance(process_contract_source(" s"), Event::Missed);
    let store = advance(analyze, Event::Analyzed(costs()));
    assert_eq!(
        store,
        Job::Store {
            key: text(" s"),
            source: text(" s"),
            cost_map: cost_report(costs())
        }
    );
    match advance(store, Event::Stored) {
        Job::Answer(answer) => {
            let expected = format!(
                r#"{{"cost_map":{},"source_code":" s"}}"#,
                print(&cost_report(costs())).unwrap()
            );
            assert_eq!(print(&answer).unwrap(), expected);
        }
        other => panic!("{:?}", other),
    }
}

#[test]
fn a_cached_answer_is_the_fresh_answer() {
    let record = encode_record("s", &cost_report(costs())).unwrap();
    let (source, cost_map) = decode_record(record).unwrap();
    let cached = advance(process_contract_source("s"), Event::Hit { source, cost_map });
    let store = Job::Store {
        key: text("s"),
        source: text("s"),
        cost_map: cost_report(costs()),
    };
    match (cached, advance(store, Event::Stored)) {
        (Job::Answer(a), Job::Answer(b)) => assert_eq!(print(&a), print(&b)),
        other => panic!("{:?}", other),
    }
}

#[test]
fn rows_keep_negative_numbers() {
    let report = parse(r#"{"f":[-1,-9223372036854775808,18446744073709551615]}"#).unwrap();
    let record = encode_record("s", &report).unwrap();
    assert_eq!(decode_record(record), Some((text("s"), report)));
}

#[test]
fn rows_keep_a_reserved_key_that_is_not_the_first() {
    let report = parse(r#"{"$serde_json::private::RawValue":1}"#);
    assert_eq!(report, None);
    let report = parse(r#"{"!":{"":0,"$serde_json::private::RawValue":[]}}"#).unwrap();
    let record = encode_record("s", &report).unwrap();
    assert_eq!(decode_record(record), Some((text("s"), report)));
}

#[test]
fn rows_keep_source_and_report() {
    let report = cost_report(costs());
    let record = encode_record("(ok 1)", &report).unwrap();
    assert_eq!(record.source_code, "(ok 1)");
    assert_eq!(Some(record.cost_map.clone()), print(&report));
    let (source, cost_map) = decode_record(record).unwrap();
    assert_eq!(source, "(ok 1)");
    assert_eq!(print(&cost_map), print(&report));
}

#[test]
fn rows_without_a_document_hold_nothing() {
    let record = Record {
        source_code: text("s"),
        cost_map: text("not json"),
    };
    assert_eq!(decode_record(record), None);
}

#[test]
fn failures_are_told_in_words() {
    assert_eq!(
        Failure::CacheLookup(text("e")).message(),
        "Cache lookup error: e"
    );
    assert_eq!(Failure::Request(text("e")).message(), "e");
    assert_eq!(
        Failure::NoSource.message(),
        "Could not find source code in the HTML page. The page may load content dynamically via JavaScript."
    );
    assert_eq!(Failure::Syntax(text("e")).message(), "Failed to build AST: e");
    assert_eq!(
        Failure::StaticCost(text("e")).message(),
        "Failed to get static cost map: e"
    );
}

#[test]
fn outcomes_become_responses() {
    let ok = respond(Ok(Json::Count(1)));
    assert_eq!(ok.status, 200);
    assert_eq!(ok.body, Json::Count(1));
    let failed = respond(Err(Failure::Request(text("down"))));
    assert_eq!(failed.status, 500);
    assert_eq!(print(&failed.body).unwrap(), r#"{"error":"down"}"#);
}
