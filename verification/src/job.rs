//! From a request for a contract to the answer.
//!
//! A [`Job`] says what is to be done next. Whoever does it reports what came of
//! it as an [`Event`], and [`advance`] gives the job that follows.

use crate::clean::{clean_source_code, cleaned};
use crate::cost::{
    cost_report, cost_views, ensure_block_limits, law_block_limits_are_present,
    law_block_limits_keep_the_rest, law_fresh_report_is_complete, law_missing_limits_are_added,
    law_present_limits_are_kept, law_report_has_block_limits, law_report_is_object, report_tree,
    shows_limits, with_block_limits, FunctionCost, FunctionCostView,
};
use crate::explorer::{
    after_reply, answers, begin, first_request, rank, resume, Fetch, FetchView, Reply, ReplyView,
    Stage,
};
use crate::failure::{Failure, FailureView};
use crate::json::{
    field_views, law_object_of_has_fields, law_object_of_has_no_more, law_object_of_well_formed,
    object, object_of, Json, JsonTree,
};
use crate::source::source_in_page;
use vstd::prelude::*;

verus! {

/// What a contract is given by. It is also the key of its report in the cache.
#[derive(Debug, Clone, Copy, PartialEq, Eq, Structural)]
pub enum Origin {
    /// The address of its page.
    Url,
    /// Its source code.
    Source,
}

/// What is to be done next for a contract.
#[derive(Debug, PartialEq, Eq)]
pub enum Job {
    /// Look the key up in the cache.
    Lookup { origin: Origin, key: String },
    /// Request what stands at an address.
    Request { url: String, stage: Stage, address: String },
    /// Determine what the functions of the source code cost.
    Analyze { key: String, source: String },
    /// Store the report in the cache, if that is possible.
    Store { key: String, source: String, cost_map: Json },
    /// Nothing: this is the answer.
    Answer(Json),
    /// Nothing: there is no answer.
    Failed(Failure),
}

/// The model of a [`Job`].
pub enum JobView {
    Lookup { origin: Origin, key: Seq<char> },
    Request { url: Seq<char>, stage: Stage, address: Seq<char> },
    Analyze { key: Seq<char>, source: Seq<char> },
    Store { key: Seq<char>, source: Seq<char>, cost_map: JsonTree },
    Answer(JsonTree),
    Failed(FailureView),
}

impl View for Job {
    type V = JobView;

    open spec fn view(&self) -> JobView {
        match self {
            Job::Lookup { origin, key } => JobView::Lookup { origin: *origin, key: key@ },
            Job::Request { url, stage, address } => JobView::Request {
                url: url@,
                stage: *stage,
                address: address@,
            },
            Job::Analyze { key, source } => JobView::Analyze { key: key@, source: source@ },
            Job::Store { key, source, cost_map } => JobView::Store {
                key: key@,
                source: source@,
                cost_map: cost_map@,
            },
            Job::Answer(json) => JobView::Answer(json@),
            Job::Failed(failure) => JobView::Failed(failure@),
        }
    }
}

/// What came of the last thing that was done.
#[derive(Debug, PartialEq, Eq)]
pub enum Event {
    /// The cache could not be asked, with the reason.
    LookupFailed(String),
    /// The cache has no report, or none that can be read.
    Missed,
    /// The report in the cache, with its source code.
    Hit { source: String, cost_map: Json },
    /// The reply to a request.
    Replied(Reply),
    /// The source code could not be parsed, with the reason.
    SyntaxFailed(String),
    /// The costs could not be determined, with the reason.
    CostFailed(String),
    /// What the functions cost.
    Analyzed(Vec<FunctionCost>),
    /// The report is in the cache, or could not be stored there.
    Stored,
}

/// The model of an [`Event`].
pub enum EventView {
    LookupFailed(Seq<char>),
    Missed,
    Hit { source: Seq<char>, cost_map: JsonTree },
    Replied(ReplyView),
    SyntaxFailed(Seq<char>),
    CostFailed(Seq<char>),
    Analyzed(Seq<FunctionCostView>),
    Stored,
}

impl View for Event {
    type V = EventView;

    open spec fn view(&self) -> EventView {
        match self {
            Event::LookupFailed(reason) => EventView::LookupFailed(reason@),
            Event::Missed => EventView::Missed,
            Event::Hit { source, cost_map } => EventView::Hit {
                source: source@,
                cost_map: cost_map@,
            },
            Event::Replied(reply) => EventView::Replied(reply@),
            Event::SyntaxFailed(reason) => EventView::SyntaxFailed(reason@),
            Event::CostFailed(reason) => EventView::CostFailed(reason@),
            Event::Analyzed(costs) => EventView::Analyzed(cost_views(costs@)),
            Event::Stored => EventView::Stored,
        }
    }
}

impl JobView {
    /// The documents of the job are well-formed.
    pub open spec fn well_formed(self) -> bool {
        match self {
            JobView::Store { cost_map, .. } => cost_map.well_formed(),
            JobView::Answer(json) => json.well_formed(),
            _ => true,
        }
    }
}

impl EventView {
    /// The documents of the event are well-formed.
    pub open spec fn well_formed(self) -> bool {
        match self {
            EventView::Hit { cost_map, .. } => cost_map.well_formed(),
            EventView::Analyzed(costs) => forall|i: int|
                0 <= i < costs.len() ==> (#[trigger] costs[i]).trait_count.well_formed(),
            _ => true,
        }
    }
}

/// The event is one that can come of the job. A report in the cache is an
/// object, or null.
pub open spec fn awaits(job: JobView, event: EventView) -> bool {
    match job {
        JobView::Lookup { .. } => match event {
            EventView::LookupFailed(_) => true,
            EventView::Missed => true,
            EventView::Hit { cost_map, .. } => cost_map is Object || cost_map is Null,
            _ => false,
        },
        JobView::Request { stage, .. } => match event {
            EventView::Replied(reply) => answers(stage, reply),
            _ => false,
        },
        JobView::Analyze { .. } => event is SyntaxFailed || event is CostFailed || event is Analyzed,
        JobView::Store { .. } => event is Stored,
        _ => false,
    }
}

/// The answer to a request: the source code and what it costs.
pub open spec fn answer_tree(source: Seq<char>, cost_map: JsonTree) -> JsonTree {
    object_of(seq![("source_code"@, JsonTree::Text(source)), ("cost_map"@, cost_map)])
}

/// The job that follows from the search for source code.
pub open spec fn after_fetch(url: Seq<char>, next: FetchView) -> JobView {
    match next {
        FetchView::Get { stage, address } => JobView::Request { url, stage, address },
        FetchView::Found(source) => JobView::Analyze { key: url, source },
        FetchView::Failed(failure) => JobView::Failed(failure),
    }
}

/// The job that follows when the cache has no report.
pub open spec fn after_miss(origin: Origin, key: Seq<char>) -> JobView {
    match origin {
        Origin::Url => after_fetch(key, first_request(key)),
        Origin::Source => JobView::Analyze { key, source: cleaned(key) },
    }
}

/// The job that follows an event.
pub open spec fn next_job(job: JobView, event: EventView) -> JobView
    recommends
        awaits(job, event),
{
    match (job, event) {
        (JobView::Lookup { .. }, EventView::LookupFailed(reason)) => JobView::Failed(
            FailureView::CacheLookup(reason),
        ),
        (JobView::Lookup { origin, key }, EventView::Missed) => after_miss(origin, key),
        (JobView::Lookup { .. }, EventView::Hit { source, cost_map }) => JobView::Answer(
            answer_tree(source, with_block_limits(cost_map)),
        ),
        (JobView::Request { url, stage, .. }, EventView::Replied(reply)) => after_fetch(
            url,
            after_reply(url, stage, reply),
        ),
        (JobView::Analyze { .. }, EventView::SyntaxFailed(reason)) => JobView::Failed(
            FailureView::Syntax(reason),
        ),
        (JobView::Analyze { .. }, EventView::CostFailed(reason)) => JobView::Failed(
            FailureView::StaticCost(reason),
        ),
        (JobView::Analyze { key, source }, EventView::Analyzed(costs)) => JobView::Store {
            key,
            source,
            cost_map: report_tree(costs),
        },
        (JobView::Store { source, cost_map, .. }, EventView::Stored) => JobView::Answer(
            answer_tree(source, cost_map),
        ),
        _ => job,
    }
}

/// Begins the job for a contract whose page has the address `url`.
pub fn process_contract_url(url: &str) -> (r: Job)
    ensures
        r@ == (JobView::Lookup { origin: Origin::Url, key: url@ }),
{
    Job::Lookup { origin: Origin::Url, key: url.to_owned() }
}

/// Begins the job for a contract with the given source code.
pub fn process_contract_source(source_code: &str) -> (r: Job)
    ensures
        r@ == (JobView::Lookup { origin: Origin::Source, key: source_code@ }),
{
    Job::Lookup { origin: Origin::Source, key: source_code.to_owned() }
}

/// The answer to a request.
fn answer(source: String, cost_map: Json) -> (json: Json)
    requires
        cost_map@.well_formed(),
    ensures
        json@ == answer_tree(source@, cost_map@),
        json@.well_formed(),
{
    let fields: Vec<(&str, Json)> = vec![
        ("source_code", Json::Text(source)),
        ("cost_map", cost_map),
    ];
    proof {
        let pairs = seq![("source_code"@, JsonTree::Text(source@)), ("cost_map"@, cost_map@)];
        assert(field_views(fields@) =~= pairs);
        law_object_of_well_formed(pairs);
    }
    object(fields)
}

/// The job that follows from the search for source code.
fn follow_fetch(url: String, next: Fetch) -> (r: Job)
    ensures
        r@ == after_fetch(url@, next@),
{
    match next {
        Fetch::Get { stage, address } => Job::Request { url, stage, address },
        Fetch::Found(source) => Job::Analyze { key: url, source },
        Fetch::Failed(failure) => Job::Failed(failure),
    }
}

/// Gives the job that follows when the last one led to an event.
pub fn advance(job: Job, event: Event) -> (r: Job)
    requires
        awaits(job@, event@),
        job@.well_formed(),
        event@.well_formed(),
    ensures
        r@ == next_job(job@, event@),
        r@.well_formed(),
{
    match job {
        Job::Lookup { origin, key } => match event {
            Event::LookupFailed(reason) => Job::Failed(Failure::CacheLookup(reason)),
            Event::Hit { source, cost_map } => {
                let mut complete = cost_map;
                ensure_block_limits(&mut complete);
                Job::Answer(answer(source, complete))
            },
            _ => match origin {
                Origin::Url => {
                    let next = begin(key.as_str());
                    follow_fetch(key, next)
                },
                Origin::Source => {
                    let source = clean_source_code(key.as_str());
                    Job::Analyze { key, source }
                },
            },
        },
        Job::Request { url, stage, address } => match event {
            Event::Replied(reply) => {
                let next = resume(url.as_str(), stage, reply);
                follow_fetch(url, next)
            },
            _ => Job::Request { url, stage, address },
        },
        Job::Analyze { key, source } => match event {
            Event::SyntaxFailed(reason) => Job::Failed(Failure::Syntax(reason)),
            Event::CostFailed(reason) => Job::Failed(Failure::StaticCost(reason)),
            Event::Analyzed(costs) => {
                proof {
                    assert forall|i: int| 0 <= i < costs@.len() implies (#[trigger] costs@[i])
                        .trait_count@.well_formed() by {
                        assert(cost_views(costs@)[i].trait_count.well_formed());
                    }
                }
                let cost_map = cost_report(costs);
                Job::Store { key, source, cost_map }
            },
            _ => Job::Analyze { key, source },
        },
        Job::Store { source, cost_map, .. } => Job::Answer(answer(source, cost_map)),
        finished => finished,
    }
}

/// The reply to whoever asked for a contract: a status of HTTP and a document.
#[derive(Debug, PartialEq, Eq)]
pub struct Response {
    pub status: u16,
    pub body: Json,
}

/// The status of a reply that gives an answer.
pub const STATUS_OK: u16 = 200;

/// The status of a reply that gives none.
pub const STATUS_INTERNAL_SERVER_ERROR: u16 = 500;

/// The document that tells of a failure.
pub open spec fn error_tree(failure: FailureView) -> JsonTree {
    object_of(seq![("error"@, JsonTree::Text(failure.message()))])
}

/// Makes the reply to whoever asked for a contract, once the job is done.
pub fn respond(outcome: Result<Json, Failure>) -> (r: Response)
    requires
        outcome matches Ok(json) ==> json@.well_formed(),
    ensures
        match outcome {
            Ok(json) => r.status == STATUS_OK && r.body == json,
            Err(failure) => r.status == STATUS_INTERNAL_SERVER_ERROR && r.body@ == error_tree(
                failure@,
            ),
        },
        outcome is Ok ==> r.status == 200,
        outcome matches Err(failure) ==> r.status == 500 && r.body@.get_text("error"@) == Some(
            failure@.message(),
        ),
        r.body@.well_formed(),
{
    match outcome {
        Ok(json) => Response { status: STATUS_OK, body: json },
        Err(failure) => {
            let fields: Vec<(&str, Json)> = vec![("error", Json::Text(failure.message()))];
            proof {
                let pairs = seq![("error"@, JsonTree::Text(failure@.message()))];
                assert(field_views(fields@) =~= pairs);
                law_object_of_well_formed(pairs);
                law_failure_is_told(failure@);
            }
            Response { status: STATUS_INTERNAL_SERVER_ERROR, body: object(fields) }
        },
    }
}

proof fn lemma_answer_fields(source: Seq<char>, cost_map: JsonTree)
    ensures
        answer_tree(source, cost_map).get("source_code"@) == Some(JsonTree::Text(source)),
        answer_tree(source, cost_map).get("cost_map"@) == Some(cost_map),
{
    reveal_strlit("source_code");
    reveal_strlit("cost_map");
    assert("source_code"@.len() != "cost_map"@.len());
    let fields = seq![("source_code"@, JsonTree::Text(source)), ("cost_map"@, cost_map)];
    law_object_of_has_fields(fields, 0);
    law_object_of_has_fields(fields, 1);
}

/// The answer has the source code and the cost report, and nothing else.
pub proof fn law_answer_has_source_and_report(source: Seq<char>, cost_map: JsonTree)
    ensures
        answer_tree(source, cost_map).get_text("source_code"@) == Some(source),
        answer_tree(source, cost_map).get("cost_map"@) == Some(cost_map),
        forall|key: Seq<char>| #[trigger]
            answer_tree(source, cost_map).get(key) is Some ==> key == "source_code"@ || key
                == "cost_map"@,
{
    let tree = answer_tree(source, cost_map);
    let fields = seq![("source_code"@, JsonTree::Text(source)), ("cost_map"@, cost_map)];
    lemma_answer_fields(source, cost_map);
    assert forall|key: Seq<char>| #[trigger] tree.get(key) is Some implies key == "source_code"@
        || key == "cost_map"@ by {
        if key != "source_code"@ && key != "cost_map"@ {
            law_object_of_has_no_more(fields, key);
        }
    }
}

/// The answer has a cost report with limits of a block.
pub open spec fn has_limits(answer: JsonTree) -> bool {
    answer.get("cost_map"@) matches Some(cost_map) && cost_map.get("block_limits"@) is Some
}

/// A report in the cache is the answer at once, with the limits of a block even
/// where it was stored without.
pub proof fn law_hit_is_answered(
    origin: Origin,
    key: Seq<char>,
    source: Seq<char>,
    cost_map: JsonTree,
)
    requires
        awaits(JobView::Lookup { origin, key }, EventView::Hit { source, cost_map }),
    ensures
        next_job(JobView::Lookup { origin, key }, EventView::Hit { source, cost_map })
            matches JobView::Answer(answer) && answer.get_text("source_code"@) == Some(source)
            && has_limits(answer),
{
    law_block_limits_are_present(cost_map);
    lemma_answer_fields(source, with_block_limits(cost_map));
}

/// A contract that has been analyzed is answered with its source code and a
/// report that has the limits of a block.
pub proof fn law_analysis_is_answered(
    key: Seq<char>,
    source: Seq<char>,
    costs: Seq<FunctionCostView>,
)
    ensures
        next_job(
            next_job(JobView::Analyze { key, source }, EventView::Analyzed(costs)),
            EventView::Stored,
        ) matches JobView::Answer(answer) && answer.get_text("source_code"@) == Some(source)
            && answer.get("cost_map"@) == Some(report_tree(costs)) && has_limits(answer),
{
    law_report_has_block_limits(costs);
    lemma_answer_fields(source, report_tree(costs));
}

/// What is stored for a key is, when the key is looked up again, answered
/// exactly as it was answered when it was stored.
pub proof fn law_cached_answer_is_the_fresh_answer(
    origin: Origin,
    key: Seq<char>,
    source: Seq<char>,
    costs: Seq<FunctionCostView>,
)
    ensures
        next_job(JobView::Analyze { key, source }, EventView::Analyzed(costs))
            matches JobView::Store { key: stored_key, source: stored_source, cost_map }
            && stored_key == key && stored_source == source && awaits(
            JobView::Lookup { origin, key },
            EventView::Hit { source: stored_source, cost_map },
        ) && next_job(
            JobView::Lookup { origin, key },
            EventView::Hit { source: stored_source, cost_map },
        ) == next_job(
            JobView::Store { key: stored_key, source: stored_source, cost_map },
            EventView::Stored,
        ),
{
    law_fresh_report_is_complete(costs);
    law_report_is_object(costs);
}

/// How far a job is along the way from the lookup to the end.
pub open spec fn progress(job: JobView) -> int {
    match job {
        JobView::Lookup { .. } => 0,
        JobView::Request { stage, .. } => 1 + rank(stage),
        JobView::Analyze { .. } => 5,
        JobView::Store { .. } => 6,
        _ => 7,
    }
}

/// Every event brings a job further along, so a job is done after seven events
/// at most.
pub proof fn law_jobs_advance(job: JobView, event: EventView)
    requires
        awaits(job, event),
    ensures
        progress(job) < progress(next_job(job, event)) <= 7,
{
}

/// A job that waits for nothing is done, and one that is done waits for nothing.
pub proof fn law_jobs_end(job: JobView)
    ensures
        (exists|event: EventView| awaits(job, event)) <==> !(job is Answer || job is Failed),
{
    match job {
        JobView::Lookup { .. } => {
            assert(awaits(job, EventView::Missed));
        },
        JobView::Request { .. } => {
            assert(awaits(job, EventView::Replied(ReplyView::Failed(Seq::empty()))));
        },
        JobView::Analyze { .. } => {
            assert(awaits(job, EventView::Analyzed(Seq::empty())));
        },
        JobView::Store { .. } => {
            assert(awaits(job, EventView::Stored));
        },
        _ => {},
    }
}

/// A report is stored under the key that was looked up.
pub open spec fn keeps_key(job: JobView, key: Seq<char>) -> bool {
    match job {
        JobView::Lookup { key: k, .. } => k == key,
        JobView::Request { url, .. } => url == key,
        JobView::Analyze { key: k, .. } => k == key,
        JobView::Store { key: k, .. } => k == key,
        _ => true,
    }
}

/// A job never changes its key.
pub proof fn law_jobs_keep_their_key(job: JobView, event: EventView, key: Seq<char>)
    requires
        awaits(job, event),
        keeps_key(job, key),
    ensures
        keeps_key(next_job(job, event), key),
{
}

/// Source code is never fetched when it was given.
pub proof fn law_given_source_is_not_fetched(key: Seq<char>)
    ensures
        next_job(JobView::Lookup { origin: Origin::Source, key }, EventView::Missed) == (
        JobView::Analyze { key, source: cleaned(key) }),
{
}

/// Whoever asked for a contract that failed is told why.
pub proof fn law_failure_is_told(failure: FailureView)
    ensures
        error_tree(failure).get_text("error"@) == Some(failure.message()),
        forall|key: Seq<char>| #[trigger] error_tree(failure).get(key) is Some ==> key == "error"@,
{
    let fields = seq![("error"@, JsonTree::Text(failure.message()))];
    law_object_of_has_fields(fields, 0);
    assert forall|key: Seq<char>| #[trigger] error_tree(failure).get(key) is Some implies key
        == "error"@ by {
        if key != "error"@ {
            law_object_of_has_no_more(fields, key);
        }
    }
}

/// A report in the cache is answered as it is, except that limits of a block are
/// added where it has none.
pub proof fn law_hit_answers_with_the_stored_report(
    origin: Origin,
    key: Seq<char>,
    source: Seq<char>,
    cost_map: JsonTree,
)
    requires
        cost_map is Object || cost_map is Null,
    ensures
        next_job(JobView::Lookup { origin, key }, EventView::Hit { source, cost_map })
            matches JobView::Answer(answer) && answer.get_text("source_code"@) == Some(source) && (
        answer.get("cost_map"@) matches Some(report) && {
            &&& cost_map.get("block_limits"@) is Some ==> report == cost_map
            &&& cost_map.get("block_limits"@) is None ==> (report.get("block_limits"@) matches Some(
                limits,
            ) && shows_limits(limits))
            &&& forall|name: Seq<char>|
                name != "block_limits"@ ==> #[trigger] report.get(name) == cost_map.get(name)
        }),
{
    let report = with_block_limits(cost_map);
    lemma_answer_fields(source, report);
    if cost_map.get("block_limits"@) is None {
        law_missing_limits_are_added(cost_map);
    } else {
        law_present_limits_are_kept(cost_map);
    }
    assert forall|name: Seq<char>| name != "block_limits"@ implies #[trigger] report.get(name)
        == cost_map.get(name) by {
        law_block_limits_keep_the_rest(cost_map, name);
    }
}

/// A contract that is given by the address of its page and is not in the cache is
/// searched for, and what the search gives is analyzed under that address.
pub proof fn law_search_is_followed(
    url: Seq<char>,
    stage: Stage,
    address: Seq<char>,
    reply: ReplyView,
)
    ensures
        ({
            let start = next_job(JobView::Lookup { origin: Origin::Url, key: url }, EventView::Missed);
            &&& first_request(url) matches FetchView::Get { stage: s, address: a } && start == (
            JobView::Request { url, stage: s, address: a })
        }),
        ({
            let next = next_job(
                JobView::Request { url, stage, address },
                EventView::Replied(reply),
            );
            match after_reply(url, stage, reply) {
                FetchView::Get { stage: s, address: a } => next == (JobView::Request {
                    url,
                    stage: s,
                    address: a,
                }),
                FetchView::Found(source) => next == (JobView::Analyze { key: url, source }),
                FetchView::Failed(failure) => next == JobView::Failed(failure),
            }
        }),
{
}

/// The job has failed, and whoever asked is told so in these words.
pub open spec fn fails_with(job: JobView, message: Seq<char>) -> bool {
    job matches JobView::Failed(failure) && error_tree(failure).get_text("error"@) == Some(message)
}

/// Whatever makes a job fail, whoever asked is told what failed, and the reason
/// that was given for it.
pub proof fn law_failures_are_told(
    origin: Origin,
    key: Seq<char>,
    source: Seq<char>,
    address: Seq<char>,
    reason: Seq<char>,
    html: Seq<char>,
)
    ensures
        fails_with(
            next_job(JobView::Lookup { origin, key }, EventView::LookupFailed(reason)),
            "Cache lookup error: "@ + reason,
        ),
        fails_with(
            next_job(
                JobView::Request { url: key, stage: Stage::Page, address },
                EventView::Replied(ReplyView::Failed(reason)),
            ),
            reason,
        ),
        source_in_page(html) is None ==> fails_with(
            next_job(
                JobView::Request { url: key, stage: Stage::Page, address },
                EventView::Replied(ReplyView::Page(html)),
            ),
            "Could not find source code in the HTML page. The page may load content dynamically via JavaScript."@,
        ),
        fails_with(
            next_job(JobView::Analyze { key, source }, EventView::SyntaxFailed(reason)),
            "Failed to build AST: "@ + reason,
        ),
        fails_with(
            next_job(JobView::Analyze { key, source }, EventView::CostFailed(reason)),
            "Failed to get static cost map: "@ + reason,
        ),
{
    law_failure_is_told(FailureView::CacheLookup(reason));
    law_failure_is_told(FailureView::Request(reason));
    law_failure_is_told(FailureView::NoSource);
    law_failure_is_told(FailureView::Syntax(reason));
    law_failure_is_told(FailureView::StaticCost(reason));
}

/// What is stored is answered as it was stored.
pub proof fn law_stored_report_is_answered(key: Seq<char>, source: Seq<char>, cost_map: JsonTree)
    ensures
        next_job(JobView::Store { key, source, cost_map }, EventView::Stored)
            matches JobView::Answer(answer) && answer.get_text("source_code"@) == Some(source)
            && answer.get("cost_map"@) == Some(cost_map),
{
    lemma_answer_fields(source, cost_map);
}

/// The models of a job and of an event have what the job and the event have.
pub proof fn law_job_and_event_views(job: Job, event: Event)
    ensures
        match job {
            Job::Lookup { origin, key } => job@ == (JobView::Lookup { origin, key: key@ }),
            Job::Request { url, stage, address } => job@ == (JobView::Request {
                url: url@,
                stage,
                address: address@,
            }),
            Job::Analyze { key, source } => job@ == (JobView::Analyze { key: key@, source: source@ }),
            Job::Store { key, source, cost_map } => job@ == (JobView::Store {
                key: key@,
                source: source@,
                cost_map: cost_map@,
            }),
            Job::Answer(json) => job@ == JobView::Answer(json@),
            Job::Failed(failure) => job@ == JobView::Failed(failure@),
        },
        match event {
            Event::LookupFailed(reason) => event@ == EventView::LookupFailed(reason@),
            Event::Missed => event@ == EventView::Missed,
            Event::Hit { source, cost_map } => event@ == (EventView::Hit {
                source: source@,
                cost_map: cost_map@,
            }),
            Event::Replied(reply) => event@ == EventView::Replied(reply@),
            Event::SyntaxFailed(reason) => event@ == EventView::SyntaxFailed(reason@),
            Event::CostFailed(reason) => event@ == EventView::CostFailed(reason@),
            Event::Analyzed(costs) => event@ == EventView::Analyzed(cost_views(costs@)),
            Event::Stored => event@ == EventView::Stored,
        },
{
}

} // verus!
