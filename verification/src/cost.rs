//! Cost reports: what the functions of a contract cost, as a JSON document.

use crate::json::{
    ascending, field, field_views, law_fields_determine_entries, law_get_after_set,
    law_object_of_has_fields, law_object_of_has_no_more, law_object_of_well_formed,
    law_set_keeps_other_keys, law_set_keeps_well_formed, least_key_is_free,
    lemma_object_of_ascending, lemma_object_of_storable, lemma_storable_deeper, object, object_of,
    reserved_key, storable, Json, JsonTree,
};
use crate::text::before;
use vstd::prelude::*;

verus! {

/// What running a piece of code costs.
#[derive(Debug, Clone, Copy, PartialEq, Eq, Structural)]
pub struct ExecutionCost {
    pub runtime: u64,
    pub read_count: u64,
    pub read_length: u64,
    pub write_count: u64,
    pub write_length: u64,
}

/// What a function of a contract costs at least and at most, and what is known
/// of the traits that it uses.
#[derive(Debug, PartialEq, Eq)]
pub struct FunctionCost {
    pub name: String,
    pub min: ExecutionCost,
    pub max: ExecutionCost,
    pub trait_count: Json,
}

/// The model of a [`FunctionCost`].
pub struct FunctionCostView {
    pub name: Seq<char>,
    pub min: ExecutionCost,
    pub max: ExecutionCost,
    pub trait_count: JsonTree,
}

impl View for FunctionCost {
    type V = FunctionCostView;

    open spec fn view(&self) -> FunctionCostView {
        FunctionCostView {
            name: self.name@,
            min: self.min,
            max: self.max,
            trait_count: self.trait_count@,
        }
    }
}

/// The models of a list of function costs.
pub open spec fn cost_views(costs: Seq<FunctionCost>) -> Seq<FunctionCostView> {
    costs.map_values(|c: FunctionCost| c@)
}

/// What a block may cost on the main chain.
pub open spec fn block_limits() -> ExecutionCost {
    ExecutionCost {
        runtime: 5_000_000_000,
        read_count: 7_300,
        read_length: 100_000_000,
        write_count: 7_300,
        write_length: 15_000_000,
    }
}

/// The fields of a cost.
pub open spec fn cost_fields(cost: ExecutionCost) -> Seq<(Seq<char>, JsonTree)> {
    seq![
        ("runtime"@, JsonTree::Count(cost.runtime)),
        ("read_count"@, JsonTree::Count(cost.read_count)),
        ("read_length"@, JsonTree::Count(cost.read_length)),
        ("write_count"@, JsonTree::Count(cost.write_count)),
        ("write_length"@, JsonTree::Count(cost.write_length)),
    ]
}

/// A cost as a document.
pub open spec fn cost_tree(cost: ExecutionCost) -> JsonTree {
    object_of(cost_fields(cost))
}

/// What is reported of a function.
pub open spec fn function_tree(cost: FunctionCostView) -> JsonTree {
    object_of(
        seq![
            (
                "cost"@,
                object_of(seq![("min"@, cost_tree(cost.min)), ("max"@, cost_tree(cost.max))]),
            ),
            ("trait_count"@, cost.trait_count),
        ],
    )
}

/// What is reported of the functions, each under its name.
pub open spec fn functions_tree(costs: Seq<FunctionCostView>) -> JsonTree {
    object_of(function_fields(costs))
}

/// The cost report of a contract: its functions and the limits of a block.
pub open spec fn report_tree(costs: Seq<FunctionCostView>) -> JsonTree {
    functions_tree(costs).set("block_limits"@, cost_tree(block_limits()))
}

/// A cost report with the limits of a block, which are added where it has none.
pub open spec fn with_block_limits(cost_map: JsonTree) -> JsonTree {
    if cost_map.get("block_limits"@) is Some {
        cost_map
    } else {
        cost_map.set("block_limits"@, cost_tree(block_limits()))
    }
}

/// What a block may cost on the main chain.
pub fn get_block_limits() -> (r: ExecutionCost)
    ensures
        r == block_limits(),
{
    ExecutionCost {
        runtime: 5_000_000_000,
        read_count: 7_300,
        read_length: 100_000_000,
        write_count: 7_300,
        write_length: 15_000_000,
    }
}

/// A cost as a document.
pub fn cost_json(cost: &ExecutionCost) -> (json: Json)
    ensures
        json@ == cost_tree(*cost),
        json@.well_formed(),
{
    let fields: Vec<(&str, Json)> = vec![
        ("runtime", Json::Count(cost.runtime)),
        ("read_count", Json::Count(cost.read_count)),
        ("read_length", Json::Count(cost.read_length)),
        ("write_count", Json::Count(cost.write_count)),
        ("write_length", Json::Count(cost.write_length)),
    ];
    proof {
        lemma_cost_tree(*cost);
        assert(field_views(fields@) =~= cost_fields(*cost));
    }
    object(fields)
}

/// What is reported of a function.
fn function_json(cost: FunctionCost) -> (json: Json)
    ensures
        json@ == function_tree(cost@),
{
    let bounds: Vec<(&str, Json)> = vec![
        ("min", cost_json(&cost.min)),
        ("max", cost_json(&cost.max)),
    ];
    let ghost bound_fields = seq![
        ("min"@, cost_tree(cost.min)),
        ("max"@, cost_tree(cost.max)),
    ];
    assert(field_views(bounds@) =~= bound_fields);
    let fields: Vec<(&str, Json)> = vec![
        ("cost", object(bounds)),
        ("trait_count", cost.trait_count),
    ];
    assert(field_views(fields@) =~= seq![
        ("cost"@, object_of(bound_fields)),
        ("trait_count"@, cost.trait_count@),
    ]);
    object(fields)
}

/// Makes the cost report of a contract from what its functions cost.
pub fn cost_report(costs: Vec<FunctionCost>) -> (json: Json)
    requires
        forall|i: int| 0 <= i < costs@.len() ==> (#[trigger] costs@[i]).trait_count@.well_formed(),
    ensures
        json@ == report_tree(cost_views(costs@)),
        json@.well_formed(),
{
    let ghost given = costs@;
    let ghost all = function_fields(cost_views(costs@));
    let mut json = Json::Object(Vec::new());
    assert(json@->Object_0 =~= Seq::empty());
    assert(all.take(0) =~= Seq::empty());
    for c in it: costs.into_iter()
        invariant
            it.seq() == given,
            all == function_fields(cost_views(given)),
            json@ == object_of(all.take(it.index())),
            json@ is Object,
    {
        assert(all.take(it.index() + 1).drop_last() =~= all.take(it.index()));
        assert(all.take(it.index() + 1).last() == (c@.name, function_tree(c@)));
        let name = c.name.clone();
        json.set(name.as_str(), function_json(c));
    }
    assert(all.take(all.len() as int) =~= all);
    json.set("block_limits", cost_json(&get_block_limits()));
    proof {
        assert forall|i: int| 0 <= i < cost_views(given).len() implies (#[trigger] cost_views(
            given,
        )[i]).trait_count.well_formed() by {
            assert(given[i].trait_count@.well_formed());
        }
        law_report_well_formed(cost_views(given));
    }
    json
}

/// Adds the limits of a block to a cost report that has none. The report is an
/// object, or null, which then becomes one.
pub fn ensure_block_limits(cost_map: &mut Json)
    requires
        old(cost_map)@ is Object || old(cost_map)@ is Null,
    ensures
        final(cost_map)@ == with_block_limits(old(cost_map)@),
        final(cost_map)@ is Object,
        old(cost_map)@.well_formed() ==> final(cost_map)@.well_formed(),
{
    proof {
        lemma_cost_tree(block_limits());
        if old(cost_map)@.well_formed() {
            law_set_keeps_well_formed(
                old(cost_map)@,
                "block_limits"@,
                cost_tree(block_limits()),
            );
        }
    }
    if cost_map.get("block_limits").is_none() {
        cost_map.set("block_limits", cost_json(&get_block_limits()));
    }
}

/// What is reported of each function, with its name.
pub open spec fn function_fields(costs: Seq<FunctionCostView>) -> Seq<(Seq<char>, JsonTree)> {
    costs.map_values(|c: FunctionCostView| (c.name, function_tree(c)))
}

/// None of the keys that a report is made with is reserved.
proof fn lemma_keys_are_free()
    ensures
        forall|key: Seq<char>| #[trigger] key.len() < 20 ==> key != reserved_key(),
        "runtime"@.len() < 20,
        "read_count"@.len() < 20,
        "read_length"@.len() < 20,
        "write_count"@.len() < 20,
        "write_length"@.len() < 20,
        "min"@.len() < 20,
        "max"@.len() < 20,
        "cost"@.len() < 20,
        "trait_count"@.len() < 20,
        "block_limits"@.len() < 20,
{
    reveal_strlit("$serde_json::private::RawValue");
    reveal_strlit("runtime");
    reveal_strlit("read_count");
    reveal_strlit("read_length");
    reveal_strlit("write_count");
    reveal_strlit("write_length");
    reveal_strlit("min");
    reveal_strlit("max");
    reveal_strlit("cost");
    reveal_strlit("trait_count");
    reveal_strlit("block_limits");
}

proof fn lemma_cost_tree(cost: ExecutionCost)
    ensures
        cost_tree(cost).well_formed(),
        storable(cost_tree(cost), 1),
{
    lemma_keys_are_free();
    law_object_of_well_formed(cost_fields(cost));
    lemma_object_of_storable(cost_fields(cost), 1);
}

proof fn lemma_function_tree(cost: FunctionCostView, depth: nat)
    requires
        depth >= 2,
    ensures
        cost.trait_count.well_formed() ==> function_tree(cost).well_formed(),
        storable(cost.trait_count, depth) ==> storable(function_tree(cost), depth + 1),
{
    lemma_keys_are_free();
    lemma_cost_tree(cost.min);
    lemma_cost_tree(cost.max);
    let bounds = seq![("min"@, cost_tree(cost.min)), ("max"@, cost_tree(cost.max))];
    let fields = seq![("cost"@, object_of(bounds)), ("trait_count"@, cost.trait_count)];
    law_object_of_well_formed(bounds);
    if cost.trait_count.well_formed() {
        law_object_of_well_formed(fields);
    }
    lemma_storable_deeper(cost_tree(cost.min), 1, (depth - 1) as nat);
    lemma_storable_deeper(cost_tree(cost.max), 1, (depth - 1) as nat);
    lemma_object_of_storable(bounds, depth);
    if storable(cost.trait_count, depth) {
        lemma_object_of_storable(fields, depth + 1);
    }
}

/// A cost report is a well-formed document.
pub proof fn law_report_well_formed(costs: Seq<FunctionCostView>)
    requires
        forall|i: int| 0 <= i < costs.len() ==> (#[trigger] costs[i]).trait_count.well_formed(),
    ensures
        report_tree(costs) is Object,
        report_tree(costs).well_formed(),
{
    let fields = function_fields(costs);
    assert forall|i: int| 0 <= i < fields.len() implies (#[trigger] fields[i]).1.well_formed() by {
        lemma_function_tree(costs[i], 2);
    }
    law_object_of_well_formed(fields);
    lemma_cost_tree(block_limits());
    law_set_keeps_well_formed(functions_tree(costs), "block_limits"@, cost_tree(block_limits()));
}

/// Every cost report has the limits of a block.
pub proof fn law_report_has_block_limits(costs: Seq<FunctionCostView>)
    ensures
        report_tree(costs).get("block_limits"@) == Some(cost_tree(block_limits())),
{
    lemma_object_of_ascending(function_fields(costs));
    law_get_after_set(functions_tree(costs), "block_limits"@, cost_tree(block_limits()));
}

/// The document has the five counts of a cost, each under its own name, and
/// nothing else.
pub open spec fn shows_cost(tree: JsonTree, cost: ExecutionCost) -> bool {
    &&& tree.get("runtime"@) == Some(JsonTree::Count(cost.runtime))
    &&& tree.get("read_count"@) == Some(JsonTree::Count(cost.read_count))
    &&& tree.get("read_length"@) == Some(JsonTree::Count(cost.read_length))
    &&& tree.get("write_count"@) == Some(JsonTree::Count(cost.write_count))
    &&& tree.get("write_length"@) == Some(JsonTree::Count(cost.write_length))
    &&& forall|key: Seq<char>| #[trigger]
        tree.get(key) is Some ==> key == "runtime"@ || key == "read_count"@ || key
            == "read_length"@ || key == "write_count"@ || key == "write_length"@
}

/// The document has, under `cost`, what a function costs at least under `min` and
/// at most under `max`, and what is known of its traits under `trait_count`. It
/// has nothing else.
pub open spec fn shows_function(tree: JsonTree, cost: FunctionCostView) -> bool {
    &&& tree.get("cost"@) matches Some(bounds) && {
        &&& bounds.get("min"@) matches Some(least) && shows_cost(least, cost.min)
        &&& bounds.get("max"@) matches Some(most) && shows_cost(most, cost.max)
        &&& forall|key: Seq<char>| #[trigger]
            bounds.get(key) is Some ==> key == "min"@ || key == "max"@
    }
    &&& tree.get("trait_count"@) == Some(cost.trait_count)
    &&& forall|key: Seq<char>| #[trigger]
        tree.get(key) is Some ==> key == "cost"@ || key == "trait_count"@
}

/// A cost as a document has each of its five counts under the name of the count,
/// and nothing else.
pub proof fn law_cost_is_shown(cost: ExecutionCost)
    ensures
        shows_cost(cost_tree(cost), cost),
{
    let fields = cost_fields(cost);
    let tree = cost_tree(cost);
    lemma_names_differ();
    law_object_of_has_fields(fields, 0);
    law_object_of_has_fields(fields, 1);
    law_object_of_has_fields(fields, 2);
    law_object_of_has_fields(fields, 3);
    law_object_of_has_fields(fields, 4);
    assert forall|key: Seq<char>| #[trigger] tree.get(key) is Some implies key == "runtime"@ || key
        == "read_count"@ || key == "read_length"@ || key == "write_count"@ || key
        == "write_length"@ by {
        if key != "runtime"@ && key != "read_count"@ && key != "read_length"@ && key
            != "write_count"@ && key != "write_length"@ {
            law_object_of_has_no_more(fields, key);
        }
    }
}

proof fn lemma_names_differ()
    ensures
        forall|i: int, j: int, cost: ExecutionCost|
            0 <= i < j < 5 ==> (#[trigger] cost_fields(cost)[i]).0 != (#[trigger] cost_fields(
                cost,
            )[j]).0,
        "min"@ != "max"@,
        "cost"@ != "trait_count"@,
{
    reveal_strlit("runtime");
    reveal_strlit("read_count");
    reveal_strlit("read_length");
    reveal_strlit("write_count");
    reveal_strlit("write_length");
    reveal_strlit("min");
    reveal_strlit("max");
    reveal_strlit("cost");
    reveal_strlit("trait_count");
    assert("read_length"@[0] != "write_count"@[0]);
    assert("min"@[1] != "max"@[1]);
    assert("runtime"@.len() == 7 && "read_count"@.len() == 10 && "read_length"@.len() == 11
        && "write_count"@.len() == 11 && "write_length"@.len() == 12 && "cost"@.len() == 4
        && "trait_count"@.len() == 11);
}

/// What is reported of a function is its least cost, its highest cost and what is
/// known of its traits, each at its place, whatever they are.
pub proof fn law_function_is_shown(cost: FunctionCostView)
    ensures
        shows_function(function_tree(cost), cost),
{
    let bounds = seq![("min"@, cost_tree(cost.min)), ("max"@, cost_tree(cost.max))];
    let fields = seq![("cost"@, object_of(bounds)), ("trait_count"@, cost.trait_count)];
    let inner = object_of(bounds);
    let tree = function_tree(cost);
    lemma_names_differ();
    law_cost_is_shown(cost.min);
    law_cost_is_shown(cost.max);
    law_object_of_has_fields(bounds, 0);
    law_object_of_has_fields(bounds, 1);
    law_object_of_has_fields(fields, 0);
    law_object_of_has_fields(fields, 1);
    assert forall|key: Seq<char>| #[trigger] inner.get(key) is Some implies key == "min"@ || key
        == "max"@ by {
        if key != "min"@ && key != "max"@ {
            law_object_of_has_no_more(bounds, key);
        }
    }
    assert forall|key: Seq<char>| #[trigger] tree.get(key) is Some implies key == "cost"@ || key
        == "trait_count"@ by {
        if key != "cost"@ && key != "trait_count"@ {
            law_object_of_has_no_more(fields, key);
        }
    }
}

/// The document has the limits of a block on the main chain.
pub open spec fn shows_limits(tree: JsonTree) -> bool {
    shows_cost(
        tree,
        ExecutionCost {
            runtime: 5_000_000_000,
            read_count: 7_300,
            read_length: 100_000_000,
            write_count: 7_300,
            write_length: 15_000_000,
        },
    )
}

/// A cost report shows each function under its name and the limits of a block
/// under theirs.
pub proof fn law_report_shows_all(costs: Seq<FunctionCostView>)
    requires
        distinct_names(costs),
    ensures
        report_tree(costs).get("block_limits"@) matches Some(limits) && shows_limits(limits),
        forall|i: int|
            0 <= i < costs.len() && (#[trigger] costs[i]).name != "block_limits"@ ==> (report_tree(
                costs,
            ).get(costs[i].name) matches Some(function) && shows_function(function, costs[i])),
{
    law_report_has_block_limits(costs);
    law_cost_is_shown(block_limits());
    assert forall|i: int|
        0 <= i < costs.len() && (#[trigger] costs[i]).name != "block_limits"@ implies (report_tree(
        costs,
    ).get(costs[i].name) matches Some(function) && shows_function(function, costs[i])) by {
        law_report_has_functions(costs, i);
        law_function_is_shown(costs[i]);
    }
}

/// A report without limits of a block is given those of the main chain.
pub proof fn law_missing_limits_are_added(cost_map: JsonTree)
    requires
        cost_map is Object || cost_map is Null,
        cost_map.get("block_limits"@) is None,
    ensures
        with_block_limits(cost_map).get("block_limits"@) matches Some(limits) && shows_limits(
            limits,
        ),
{
    law_get_after_set(cost_map, "block_limits"@, cost_tree(block_limits()));
    law_cost_is_shown(block_limits());
}

/// A report that has limits of a block stays as it is.
pub proof fn law_present_limits_are_kept(cost_map: JsonTree)
    requires
        cost_map.get("block_limits"@) is Some,
    ensures
        with_block_limits(cost_map) == cost_map,
{
}

/// No two functions of the list have the same name.
pub open spec fn distinct_names(costs: Seq<FunctionCostView>) -> bool {
    forall|i: int, j: int| 0 <= i < j < costs.len() ==> costs[i].name != costs[j].name
}

/// A cost report has what each function costs under the name of the function,
/// unless a later function of the list has the same name. The limits of a block
/// take the place of a function that is named like them.
pub proof fn law_report_has_functions(costs: Seq<FunctionCostView>, i: int)
    requires
        0 <= i < costs.len(),
        forall|j: int| i < j < costs.len() ==> costs[i].name != (#[trigger] costs[j]).name,
        costs[i].name != "block_limits"@,
    ensures
        report_tree(costs).get(costs[i].name) == Some(function_tree(costs[i])),
{
    let fields = function_fields(costs);
    assert forall|j: int| i < j < fields.len() implies fields[i].0 != (#[trigger] fields[j]).0 by {
        assert(costs[i].name != costs[j].name);
    }
    law_object_of_has_fields(fields, i);
    lemma_object_of_ascending(fields);
    law_set_keeps_other_keys(
        functions_tree(costs),
        "block_limits"@,
        cost_tree(block_limits()),
        costs[i].name,
    );
}

/// A cost report has nothing but its functions and the limits of a block.
pub proof fn law_report_has_no_more(costs: Seq<FunctionCostView>, key: Seq<char>)
    requires
        key != "block_limits"@,
        forall|i: int| 0 <= i < costs.len() ==> (#[trigger] costs[i]).name != key,
    ensures
        report_tree(costs).get(key) is None,
{
    let fields = function_fields(costs);
    assert forall|i: int| 0 <= i < fields.len() implies fields[i].0 != key by {
        assert(costs[i].name != key);
    }
    law_object_of_has_no_more(fields, key);
    lemma_object_of_ascending(fields);
    law_set_keeps_other_keys(
        functions_tree(costs),
        "block_limits"@,
        cost_tree(block_limits()),
        key,
    );
}

/// The order in which the functions are listed makes no difference to a cost
/// report.
pub proof fn law_report_ignores_order(a: Seq<FunctionCostView>, b: Seq<FunctionCostView>)
    requires
        distinct_names(a),
        distinct_names(b),
        forall|c: FunctionCostView| a.contains(c) <==> b.contains(c),
    ensures
        report_tree(a) == report_tree(b),
{
    lemma_report_ascending(a);
    lemma_report_ascending(b);
    let x = report_tree(a)->Object_0;
    let y = report_tree(b)->Object_0;
    assert forall|key: Seq<char>| field(x, key) == field(y, key) by {
        assert(field(x, key) == report_tree(a).get(key));
        assert(field(y, key) == report_tree(b).get(key));
        law_report_has_block_limits(a);
        law_report_has_block_limits(b);
        if key != "block_limits"@ {
            if exists|i: int| 0 <= i < a.len() && (#[trigger] a[i]).name == key {
                let i = choose|i: int| 0 <= i < a.len() && (#[trigger] a[i]).name == key;
                assert(a.contains(a[i]));
                assert(b.contains(a[i]));
                let j = choose|j: int| 0 <= j < b.len() && b[j] == a[i];
                law_report_has_functions(a, i);
                law_report_has_functions(b, j);
            } else {
                assert forall|j: int| 0 <= j < b.len() implies (#[trigger] b[j]).name != key by {
                    assert(b.contains(b[j]));
                    assert(a.contains(b[j]));
                    let i = choose|i: int| 0 <= i < a.len() && a[i] == b[j];
                    assert(a[i].name != key);
                }
                law_report_has_no_more(a, key);
                law_report_has_no_more(b, key);
            }
        }
    }
    law_fields_determine_entries(x, y);
}

/// A cost report is an object.
pub proof fn law_report_is_object(costs: Seq<FunctionCostView>)
    ensures
        report_tree(costs) is Object,
{
    lemma_report_ascending(costs);
}

proof fn lemma_report_ascending(costs: Seq<FunctionCostView>)
    ensures
        report_tree(costs) matches JsonTree::Object(entries) && ascending(entries),
{
    let fields = function_fields(costs).push(("block_limits"@, cost_tree(block_limits())));
    assert(fields.drop_last() =~= function_fields(costs));
    assert(object_of(fields) == report_tree(costs));
    lemma_object_of_ascending(fields);
}

/// A report that comes out of [`with_block_limits`] has limits of a block.
pub proof fn law_block_limits_are_present(cost_map: JsonTree)
    requires
        cost_map is Object || cost_map is Null,
    ensures
        with_block_limits(cost_map).get("block_limits"@) is Some,
{
    law_get_after_set(cost_map, "block_limits"@, cost_tree(block_limits()));
}

/// Limits of a block that a report has are kept, and so is everything else in
/// it.
pub proof fn law_block_limits_keep_the_rest(cost_map: JsonTree, key: Seq<char>)
    requires
        cost_map is Object || cost_map is Null,
        cost_map.get(key) is Some || key != "block_limits"@,
    ensures
        with_block_limits(cost_map).get(key) == cost_map.get(key),
{
    if cost_map.get("block_limits"@) is None {
        law_set_keeps_other_keys(cost_map, "block_limits"@, cost_tree(block_limits()), key);
    }
}

/// Adding the limits of a block twice is adding them once.
pub proof fn law_block_limits_idempotent(cost_map: JsonTree)
    requires
        cost_map is Object || cost_map is Null,
    ensures
        with_block_limits(with_block_limits(cost_map)) == with_block_limits(cost_map),
{
    law_block_limits_are_present(cost_map);
}

/// A fresh cost report needs no limits added.
pub proof fn law_fresh_report_is_complete(costs: Seq<FunctionCostView>)
    ensures
        with_block_limits(report_tree(costs)) == report_tree(costs),
{
    law_report_has_block_limits(costs);
}

/// What is known of the traits is [`storable`] within `depth` levels, and the
/// least name of a function is not reserved.
pub open spec fn storable_costs(costs: Seq<FunctionCostView>, depth: nat) -> bool {
    &&& least_key_is_free(function_fields(costs))
    &&& forall|i: int|
        0 <= i < costs.len() ==> storable((#[trigger] costs[i]).trait_count, depth)
}

/// A cost report can be stored and read back where what is known of the traits
/// can, two levels further in, and the least name of a function is not reserved.
pub proof fn law_report_storable(costs: Seq<FunctionCostView>, depth: nat)
    requires
        depth >= 2,
        storable_costs(costs, depth),
    ensures
        storable(report_tree(costs), depth + 2),
{
    let functions = function_fields(costs);
    let fields = functions.push(("block_limits"@, cost_tree(block_limits())));
    assert(fields.drop_last() =~= functions);
    assert(object_of(fields) == report_tree(costs));
    lemma_keys_are_free();
    lemma_cost_tree(block_limits());
    lemma_storable_deeper(cost_tree(block_limits()), 1, depth + 1);
    assert forall|i: int| 0 <= i < fields.len() implies storable(
        (#[trigger] fields[i]).1,
        depth + 1,
    ) by {
        if i < costs.len() {
            assert(fields[i] == functions[i]);
            lemma_function_tree(costs[i], depth);
            assert(storable(costs[i].trait_count, depth));
        }
    }
    assert(least_key_is_free(fields)) by {
        if exists|i: int|
            0 <= i < functions.len() && before((#[trigger] functions[i]).0, reserved_key()) {
            let i = choose|i: int|
                0 <= i < functions.len() && before((#[trigger] functions[i]).0, reserved_key());
            assert(before(fields[i].0, reserved_key()));
        } else {
            assert forall|i: int| 0 <= i < fields.len() implies (#[trigger] fields[i]).0
                != reserved_key() by {
                if i < functions.len() {
                    assert(fields[i] == functions[i]);
                }
            }
        }
    }
    lemma_object_of_storable(fields, depth + 2);
}

/// The model of what a function costs has the name, the least cost, the highest
/// cost and what is known of the traits as they are.
pub proof fn law_function_cost_view(cost: FunctionCost, costs: Seq<FunctionCost>)
    ensures
        cost@.name == cost.name@,
        cost@.min == cost.min,
        cost@.max == cost.max,
        cost@.trait_count == cost.trait_count@,
        cost_views(costs).len() == costs.len(),
        forall|i: int| 0 <= i < costs.len() ==> #[trigger] cost_views(costs)[i] == costs[i]@,
{
}

} // verus!
