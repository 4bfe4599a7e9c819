use thicket::cost::{
    cost_json, cost_report, ensure_block_limits, get_block_limits, ExecutionCost, FunctionCost,
};
use thicket::json::{parse, print, Json};

fn cost(n: u64) -> ExecutionCost {
    ExecutionCost {
        runtime: n,
        read_count: n + 1,
        read_length: n + 2,
        write_count: n + 3,
        write_length: n + 4,
    }
}

fn function(name: &str, n: u64) -> FunctionCost {
    FunctionCost {
        name: name.to_string(),
        min: cost(n),
        max: cost(n + 10),
        trait_count: Json::Null,
    }
}

const LIMITS: &str = r#"{"read_count":7300,"read_length":100000000,"runtime":5000000000,"write_count":7300,"write_length":15000000}"#;

#[test]
fn block_limits_are_those_of_the_main_chain() {
    let limits = get_block_limits();
    assert_eq!(limits.runtime, 5_000_000_000);
    assert_eq!(limits.read_count, 7_300);
    assert_eq!(limits.read_length, 100_000_000);
    assert_eq!(limits.write_count, 7_300);
    assert_eq!(limits.write_length, 15_000_000);
    assert_eq!(print(&cost_json(&limits)).unwrap(), LIMITS);
}

#[test]
fn reports_list_functions_and_limits() {
    let mut f = function("f", 0);
    f.trait_count = parse(r#"{"t":[1,2]}"#).unwrap();
    let report = cost_report(vec![f]);
    assert_eq!(
        print(&report).unwrap(),
        format!(
            "{}{}{}",
            r#"{"block_limits":"#,
            LIMITS,
            r#","f":{"cost":{"max":{"read_count":11,"read_length":12,"runtime":10,"write_count":13,"write_length":14},"min":{"read_count":1,"read_length":2,"runtime":0,"write_count":3,"write_length":4}},"trait_count":{"t":[1,2]}}}"#
        )
    );
}

#[test]
fn reports_without_functions_have_limits() {
    let report = cost_report(vec![]);
    assert_eq!(
        print(&report).unwrap(),
        format!(r#"{{"block_limits":{}}}"#, LIMITS)
    );
}

#[test]
fn limits_take_the_place_of_a_function_named_like_them() {
    let report = cost_report(vec![function("block_limits", 1)]);
    assert_eq!(report, cost_report(vec![]));
}

#[test]
fn order_of_functions_makes_no_difference() {
    let one = cost_report(vec![function("b", 1), function("a", 2), function("c", 3)]);
    let two = cost_report(vec![function("c", 3), function("b", 1), function("a", 2)]);
    assert_eq!(one, two);
}

#[test]
fn missing_limits_are_added() {
    let mut report = parse(r#"{"f":1}"#).unwrap();
    ensure_block_limits(&mut report);
    assert_eq!(
        print(&report).unwrap(),
        format!(r#"{{"block_limits":{},"f":1}}"#, LIMITS)
    );
    let mut null = Json::Null;
    ensure_block_limits(&mut null);
    assert_eq!(
        print(&null).unwrap(),
        format!(r#"{{"block_limits":{}}}"#, LIMITS)
    );
}

#[test]
fn limits_that_are_there_are_kept() {
    let mut report = parse(r#"{"block_limits":null,"f":1}"#).unwrap();
    ensure_block_limits(&mut report);
    assert_eq!(print(&report).unwrap(), r#"{"block_limits":null,"f":1}"#);
}

#[test]
fn limits_are_added_once() {
    let mut once = Json::Null;
    ensure_block_limits(&mut once);
    let mut twice = Json::Null;
    ensure_block_limits(&mut twice);
    ensure_block_limits(&mut twice);
    assert_eq!(once, twice);
    let mut fresh = cost_report(vec![function("f", 1)]);
    ensure_block_limits(&mut fresh);
    assert_eq!(fresh, cost_report(vec![function("f", 1)]));
}
