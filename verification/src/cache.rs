//! How a cost report is kept in the cache.

use crate::cost::{
    law_report_has_block_limits, law_report_storable, report_tree, storable_costs, FunctionCostView,
};
use crate::job::{awaits, next_job, EventView, JobView, Origin};
use crate::json::{json_parse, json_print, parse, print, storable, Json, JsonTree, MAX_DEPTH};
use vstd::prelude::*;

verus! {

/// A cost report as a row of the cache: the source code and the text of the
/// report.
#[derive(Debug, PartialEq, Eq)]
pub struct Record {
    pub source_code: String,
    pub cost_map: String,
}

/// The source code and the cost report that a row holds. A row whose text is no
/// JSON document holds none.
pub open spec fn decoded(source_code: Seq<char>, cost_map: Seq<char>) -> Option<
    (Seq<char>, JsonTree),
> {
    match json_parse(cost_map) {
        Some(tree) => Some((source_code, tree)),
        None => None,
    }
}

/// What a lookup that comes upon a row leads to.
pub open spec fn row_event(source_code: Seq<char>, cost_map: Seq<char>) -> EventView {
    match decoded(source_code, cost_map) {
        Some((source, tree)) => EventView::Hit { source, cost_map: tree },
        None => EventView::Missed,
    }
}

/// Looking up a key, and coming upon the row, leads to the very answer that was
/// given when the report was stored under that key.
pub open spec fn answers_as_stored(
    row: (Seq<char>, Seq<char>),
    source: Seq<char>,
    cost_map: JsonTree,
) -> bool {
    let event = row_event(row.0, row.1);
    forall|origin: Origin, key: Seq<char>|
        awaits(JobView::Lookup { origin, key }, event) && #[trigger] next_job(
            JobView::Lookup { origin, key },
            event,
        ) == next_job(JobView::Store { key, source, cost_map }, EventView::Stored)
}

/// The report has the limits of a block, and it can be read back from its row.
pub open spec fn lasting(cost_map: JsonTree) -> bool {
    storable(cost_map, MAX_DEPTH as nat) && cost_map.get("block_limits"@) is Some
}

/// A fresh report lasts, where what is known of the traits can be stored two
/// levels further in and the least name of a function is not reserved.
pub proof fn law_fresh_report_lasts(costs: Seq<FunctionCostView>)
    requires
        storable_costs(costs, (MAX_DEPTH - 2) as nat),
    ensures
        lasting(report_tree(costs)),
{
    law_report_storable(costs, (MAX_DEPTH - 2) as nat);
    law_report_has_block_limits(costs);
}

/// Makes the row for a cost report. Where the report is [`storable`],
/// [`decode_record`] gives it back. Where it is [`lasting`], as fresh reports are,
/// the row is answered as the report was when it was stored.
pub fn encode_record(source_code: &str, cost_map: &Json) -> (r: Option<Record>)
    requires
        cost_map@.well_formed(),
    ensures
        r is Some,
        r->0.source_code@ == source_code@,
        r->0.cost_map@ == json_print(cost_map@),
        storable(cost_map@, MAX_DEPTH as nat) ==> decoded(
            r->0.source_code@,
            r->0.cost_map@,
        ) == Some((source_code@, cost_map@)),
        lasting(cost_map@) ==> answers_as_stored(
            (r->0.source_code@, r->0.cost_map@),
            source_code@,
            cost_map@,
        ),
{
    match print(cost_map) {
        Some(text) => Some(Record { source_code: source_code.to_owned(), cost_map: text }),
        None => None,
    }
}

/// Reads the cost report that a row holds.
pub fn decode_record(record: Record) -> (r: Option<(String, Json)>)
    ensures
        match r {
            Some((source_code, cost_map)) => cost_map@.well_formed() && decoded(
                record.source_code@,
                record.cost_map@,
            ) == Some((source_code@, cost_map@)),
            None => decoded(record.source_code@, record.cost_map@) is None,
        },
        match r {
            Some((source_code, cost_map)) => source_code@ == record.source_code@ && json_parse(
                record.cost_map@,
            ) == Some(cost_map@),
            None => json_parse(record.cost_map@) is None,
        },
{
    match parse(record.cost_map.as_str()) {
        Some(cost_map) => Some((record.source_code, cost_map)),
        None => None,
    }
}

} // verus!
