//! Support for module based generations, for large data sets.
//!
//! Resources are taken in discovery order and written into numbered modules
//! `set_1`, `set_2`, ...; the split strategy decides where each module ends.
use vstd::prelude::*;
use vstd::string::StringExecFns;
use vstd::arithmetic::div_mod::{
    lemma_fundamental_div_mod, lemma_fundamental_div_mod_converse, lemma_mod_pos_bound,
};
use vstd::seq_lib::lemma_flatten_concat;
use crate::strategy::{ResourceInfo, SetSplitStrategie, SplitByCount};
use crate::text::{
    aggregator_source, aggregator_text, function_header, module_call, module_declaration,
    root_shim_source, root_shim_text, set_module_text, AGGREGATOR_USES, FUNCTION_END,
    SET_MODULE_PROLOGUE, VARIABLE_HEADER, VARIABLE_RETURN,
};

verus! {

broadcast use vstd::seq_lib::group_seq_properties;

/// Replays the generation loop over `items`, starting from strategy state
/// `start`, and returns the strategy's final state, whether a split is
/// pending, and the modules: for each, the indices of the resources it holds.
///
/// Before the first resource the pending flag is read from `start`. For each
/// resource, a pending split resets the strategy and opens a new module; then
/// the resource is registered, the flag is read again, and the resource is
/// written into the module that is open.
pub open spec fn split_run<S: SetSplitStrategie>(start: S, items: Seq<ResourceInfo>) -> (S, bool, Seq<Seq<int>>)
    decreases items.len(),
{
    if items.len() == 0 {
        (start, start.split_due(), seq![Seq::<int>::empty()])
    } else {
        let prev = split_run(start, items.drop_last());
        let opened = if prev.1 { prev.0.cleared() } else { prev.0 };
        let groups = if prev.1 { prev.2.push(Seq::<int>::empty()) } else { prev.2 };
        let now = opened.registered(items.last());
        let last = groups.len() - 1;
        (now, now.split_due(), groups.update(last, groups[last].push(items.len() - 1)))
    }
}

/// The modules that generation fills from `items`, in order: module `m + 1`
/// holds the resources whose indices `module_groups(start, items)[m]` lists.
pub open spec fn module_groups<S: SetSplitStrategie>(start: S, items: Seq<ResourceInfo>) -> Seq<Seq<int>> {
    split_run(start, items).2
}

/// The inserts of one module: the insert statements of its resources, in order.
pub open spec fn module_body(group: Seq<int>, inserts: Seq<Seq<char>>) -> Seq<char> {
    group.map_values(|i: int| inserts[i]).flatten()
}

/// The views of a list of strings.
pub open spec fn string_views(v: Seq<String>) -> Seq<Seq<char>> {
    v.map_values(|s: String| s@)
}

/// The text of every file that one generation writes.
pub struct GeneratedSets {
    /// The root shim, which re-exports the aggregated function.
    pub root: String,
    /// The aggregator module, which declares and calls every module.
    pub aggregator: String,
    /// The modules, in order: `modules[m]` is the file `set_<m + 1>`.
    pub modules: Vec<String>,
}

/// Generate the files for `resources`, in discovery order, breaking them into
/// separate modules using `set_split_strategy`. `inserts[i]` is the insert
/// statement for `resources[i]`.
///
/// The result is saved in a module named `module_name`, which exports only
/// one function, named `fn_name`; the root shim re-exports it. There are
/// fewer than `usize::MAX` resources, so that the number of modules fits.
pub fn generate_resources_sets<S: SetSplitStrategie>(
    resources: &Vec<ResourceInfo>,
    inserts: &Vec<String>,
    module_name: &str,
    fn_name: &str,
    set_split_strategy: &mut S,
) -> (r: GeneratedSets)
    requires
        inserts@.len() == resources@.len(),
        resources@.len() < usize::MAX,
    ensures
        *final(set_split_strategy) == split_run(*old(set_split_strategy), resources@).0,
        r.modules@.len() == module_groups(*old(set_split_strategy), resources@).len(),
        forall|m: int|
            0 <= m < r.modules@.len() ==> #[trigger] r.modules@[m]@ == set_module_text(
                module_body(module_groups(*old(set_split_strategy), resources@)[m], string_views(inserts@)),
            ),
        r.aggregator@ == aggregator_text(fn_name@, r.modules@.len() as nat),
        r.root@ == root_shim_text(module_name@, fn_name@),
{
    let ghost start = *set_split_strategy;
    let ghost ins = string_views(inserts@);
    let mut modules: Vec<String> = Vec::new();
    let mut modules_count: usize = 1;
    let mut set_file = String::from_str(SET_MODULE_PROLOGUE);
    let mut should_split = set_split_strategy.should_split();
    let mut i: usize = 0;
    assert(resources@.take(0) =~= Seq::<ResourceInfo>::empty());
    assert(module_body(Seq::<int>::empty(), ins) =~= Seq::<char>::empty());
    while i < resources.len()
        invariant
            i <= resources@.len(),
            inserts@.len() == resources@.len(),
            resources@.len() < usize::MAX,
            ins == string_views(inserts@),
            *set_split_strategy == split_run(start, resources@.take(i as int)).0,
            should_split == split_run(start, resources@.take(i as int)).1,
            modules@.len() + 1 == split_run(start, resources@.take(i as int)).2.len(),
            modules_count == modules@.len() + 1,
            modules@.len() <= i,
            forall|m: int|
                0 <= m < modules@.len() ==> #[trigger] modules@[m]@ == set_module_text(
                    module_body(split_run(start, resources@.take(i as int)).2[m], ins),
                ),
            set_file@ == SET_MODULE_PROLOGUE@ + module_body(
                split_run(start, resources@.take(i as int)).2[modules@.len() as int],
                ins,
            ),
        decreases resources@.len() - i,
    {
        let ghost prev = split_run(start, resources@.take(i as int));
        if should_split {
            set_split_strategy.reset();
            modules_count = modules_count + 1;
            set_file.append(FUNCTION_END);
            modules.push(set_file);
            set_file = String::from_str(SET_MODULE_PROLOGUE);
        }
        set_split_strategy.register(&resources[i]);
        should_split = set_split_strategy.should_split();
        set_file.append(inserts[i].as_str());
        proof {
            let items = resources@.take(i + 1);
            assert(items.drop_last() =~= resources@.take(i as int));
            assert(items.last() == resources@[i as int]);
            let groups = if prev.1 { prev.2.push(Seq::<int>::empty()) } else { prev.2 };
            let last = groups.len() - 1;
            let f = |k: int| ins[k];
            assert(groups[last].push(i as int).map_values(f) =~= groups[last].map_values(f).push(ins[i as int]));
            groups[last].map_values(f).lemma_flatten_push(ins[i as int]);
            assert(module_body(Seq::<int>::empty(), ins) =~= Seq::<char>::empty());
            assert(set_file@ =~= SET_MODULE_PROLOGUE@ + module_body(split_run(start, items).2[modules@.len() as int], ins));
        }
        i = i + 1;
    }
    set_file.append(FUNCTION_END);
    modules.push(set_file);
    assert(resources@.take(resources@.len() as int) =~= resources@);
    let aggregator = aggregator_source(fn_name, modules_count);
    let root = root_shim_source(module_name, fn_name);
    GeneratedSets { root, aggregator, modules }
}

/// Every resource is written exactly once and in discovery order: read module
/// after module, the modules list the indices `0, 1, ..., n - 1`. There is at
/// least one module, and at most one more than there are resources.
pub proof fn lemma_each_resource_once<S: SetSplitStrategie>(start: S, items: Seq<ResourceInfo>)
    ensures
        module_groups(start, items).len() >= 1,
        module_groups(start, items).len() <= items.len() + 1,
        module_groups(start, items).flatten() == Seq::new(items.len(), |i: int| i),
    decreases items.len(),
{
    if items.len() == 0 {
        let g = seq![Seq::<int>::empty()];
        assert(g =~= Seq::<Seq<int>>::empty().push(Seq::<int>::empty()));
        Seq::<Seq<int>>::empty().lemma_flatten_push(Seq::<int>::empty());
        assert(g.flatten() =~= Seq::new(0, |i: int| i));
    } else {
        let n = items.len();
        let prev = split_run(start, items.drop_last());
        lemma_each_resource_once(start, items.drop_last());
        let groups = if prev.1 { prev.2.push(Seq::<int>::empty()) } else { prev.2 };
        prev.2.lemma_flatten_push(Seq::<int>::empty());
        assert(groups.flatten() =~= prev.2.flatten());
        let last = groups.len() - 1;
        let rest = groups.drop_last();
        assert(groups =~= rest.push(groups[last]));
        rest.lemma_flatten_push(groups[last]);
        let updated = groups.update(last, groups[last].push(n - 1));
        assert(updated =~= rest.push(groups[last].push(n - 1)));
        rest.lemma_flatten_push(groups[last].push(n - 1));
        assert(groups.flatten() == Seq::new((n - 1) as nat, |i: int| i));
        assert(updated.flatten() =~= groups.flatten().push(n - 1));
        assert(updated.flatten() =~= Seq::new(n, |i: int| i));
    }
}

/// Reading the bodies of the modules in order gives each group's inserts.
proof fn lemma_bodies_in_order(groups: Seq<Seq<int>>, inserts: Seq<Seq<char>>)
    ensures
        Seq::new(groups.len(), |m: int| module_body(groups[m], inserts)).flatten()
            == groups.flatten().map_values(|i: int| inserts[i]).flatten(),
    decreases groups.len(),
{
    let f = |i: int| inserts[i];
    if groups.len() == 0 {
        assert(Seq::new(groups.len(), |m: int| module_body(groups[m], inserts)) =~= Seq::<Seq<char>>::empty());
        assert(groups.flatten().map_values(f) =~= Seq::<Seq<char>>::empty());
    } else {
        let rest = groups.drop_last();
        let tail = groups.last();
        lemma_bodies_in_order(rest, inserts);
        let bodies = Seq::new(groups.len(), |m: int| module_body(groups[m], inserts));
        let rest_bodies = Seq::new(rest.len(), |m: int| module_body(rest[m], inserts));
        assert(bodies =~= rest_bodies.push(module_body(tail, inserts)));
        rest_bodies.lemma_flatten_push(module_body(tail, inserts));
        assert(groups =~= rest.push(tail));
        rest.lemma_flatten_push(tail);
        assert((rest.flatten() + tail).map_values(f) =~= rest.flatten().map_values(f) + tail.map_values(f));
        lemma_flatten_concat(rest.flatten().map_values(f), tail.map_values(f));
    }
}

/// The module files hold the insert statements of all resources, each one
/// exactly once, in discovery order: the bodies of the modules, read in
/// module order, are the inserts one after another.
pub proof fn lemma_every_insert_written_once<S: SetSplitStrategie>(
    start: S,
    items: Seq<ResourceInfo>,
    inserts: Seq<Seq<char>>,
)
    requires
        inserts.len() == items.len(),
    ensures
        Seq::new(
            module_groups(start, items).len(),
            |m: int| module_body(module_groups(start, items)[m], inserts),
        ).flatten() == inserts.flatten(),
{
    let groups = module_groups(start, items);
    lemma_each_resource_once(start, items);
    lemma_bodies_in_order(groups, inserts);
    assert(Seq::new(items.len(), |i: int| i).map_values(|i: int| inserts[i]) =~= inserts);
}

/// The aggregator written for a generation declares the modules `set_1` to
/// `set_<count>`, where `count` is the number of modules written and at least
/// one, each once and in ascending order; its exported function then calls
/// them in the same order.
pub proof fn lemma_aggregator_calls_every_module<S: SetSplitStrategie>(
    start: S,
    items: Seq<ResourceInfo>,
    fn_name: Seq<char>,
)
    ensures
        module_groups(start, items).len() >= 1,
        aggregator_text(fn_name, module_groups(start, items).len()) == AGGREGATOR_USES@
            + Seq::new(module_groups(start, items).len(), |k: int| module_declaration((k + 1) as nat)).flatten()
            + function_header(fn_name) + VARIABLE_HEADER@
            + Seq::new(module_groups(start, items).len(), |k: int| module_call((k + 1) as nat)).flatten()
            + VARIABLE_RETURN@ + FUNCTION_END@,
{
    lemma_each_resource_once(start, items);
}

/// The map built by running inserts in `order`: for each logical key, the
/// index of the resource whose insert ran last.
pub open spec fn inserted_map(order: Seq<int>, items: Seq<ResourceInfo>) -> Map<Seq<char>, int>
    decreases order.len(),
{
    if order.len() == 0 {
        Map::empty()
    } else {
        inserted_map(order.drop_last(), items).insert(items[order.last()].path@, order.last())
    }
}

/// The map that the generated exported function returns, as the index of the
/// resource that each key ends up holding: the modules are called in
/// ascending order, and each inserts its resources in order.
pub open spec fn generated_map<S: SetSplitStrategie>(start: S, items: Seq<ResourceInfo>) -> Map<Seq<char>, int> {
    inserted_map(module_groups(start, items).flatten(), items)
}

proof fn lemma_inserted_prefix(items: Seq<ResourceInfo>, k: int, j: int)
    requires
        0 <= j < k <= items.len(),
        forall|l: int| j < l < k ==> items[l].path@ != items[j].path@,
    ensures
        inserted_map(Seq::new(k as nat, |i: int| i), items).contains_key(items[j].path@),
        inserted_map(Seq::new(k as nat, |i: int| i), items)[items[j].path@] == j,
    decreases k,
{
    assert(Seq::new(k as nat, |i: int| i).drop_last() =~= Seq::new((k - 1) as nat, |i: int| i));
    if k > j + 1 {
        lemma_inserted_prefix(items, k - 1, j);
    }
}

proof fn lemma_inserted_keys(items: Seq<ResourceInfo>, k: int)
    requires
        0 <= k <= items.len(),
    ensures
        inserted_map(Seq::new(k as nat, |i: int| i), items).dom()
            == Set::new(|key: Seq<char>| exists|i: int| 0 <= i < k && items[i].path@ == key),
    decreases k,
{
    let dom = inserted_map(Seq::new(k as nat, |i: int| i), items).dom();
    let keys = Set::new(|key: Seq<char>| exists|i: int| 0 <= i < k && items[i].path@ == key);
    if k == 0 {
        assert(dom =~= keys);
    } else {
        assert(Seq::new(k as nat, |i: int| i).drop_last() =~= Seq::new((k - 1) as nat, |i: int| i));
        lemma_inserted_keys(items, k - 1);
        assert forall|key: Seq<char>| dom.contains(key) <==> keys.contains(key) by {
            if keys.contains(key) {
                let i = choose|i: int| 0 <= i < k && items[i].path@ == key;
                if i < k - 1 {
                    assert(exists|l: int| 0 <= l < k - 1 && items[l].path@ == key);
                }
            }
            if dom.contains(key) && key != items[k - 1].path@ {
                let i = choose|i: int| 0 <= i < k - 1 && items[i].path@ == key;
                assert(0 <= i < k && items[i].path@ == key);
            }
        }
        assert(dom =~= keys);
    }
}

/// When two resources share a logical key, the insert that runs later wins:
/// the final map holds, for the key of resource `j`, resource `j` itself when
/// no later resource has that key. Its keys are exactly the resources' keys.
pub proof fn lemma_last_insert_wins<S: SetSplitStrategie>(start: S, items: Seq<ResourceInfo>, j: int)
    requires
        0 <= j < items.len(),
        forall|k: int| j < k < items.len() ==> items[k].path@ != items[j].path@,
    ensures
        generated_map(start, items).contains_key(items[j].path@),
        generated_map(start, items)[items[j].path@] == j,
        generated_map(start, items).dom()
            == Set::new(|key: Seq<char>| exists|i: int| 0 <= i < items.len() && items[i].path@ == key),
{
    lemma_each_resource_once(start, items);
    lemma_inserted_prefix(items, items.len() as int, j);
    lemma_inserted_keys(items, items.len() as int);
}

/// Smallest number of blocks of `d` that hold `n` items.
pub open spec fn ceil_div(n: nat, d: nat) -> nat
    recommends
        d > 0,
{
    ((n + d - 1) / (d as int)) as nat
}

proof fn lemma_div_mod_parts(x: int, m: int)
    requires
        x >= 0,
        m > 0,
    ensures
        x == (x / m) * m + x % m,
        0 <= x % m < m,
{
    lemma_fundamental_div_mod(x, m);
    lemma_mod_pos_bound(x, m);
    assert(m * (x / m) == (x / m) * m) by (nonlinear_arith);
}

proof fn lemma_count_split_run(start: SplitByCount, items: Seq<ResourceInfo>)
    requires
        start.current() == 0,
        start.max() > 0,
        items.len() >= 1,
    ensures
        split_run(start, items).0.current() == (items.len() - 1) % (start.max() as int) + 1,
        split_run(start, items).0.max() == start.max(),
        split_run(start, items).1 == ((items.len() - 1) % (start.max() as int) + 1 >= start.max()),
        split_run(start, items).2.len() == (items.len() - 1) / (start.max() as int) + 1,
        forall|g: int| 0 <= g < split_run(start, items).2.len() - 1
            ==> #[trigger] split_run(start, items).2[g].len() == start.max(),
        split_run(start, items).2.last().len() == (items.len() - 1) % (start.max() as int) + 1,
    decreases items.len(),
{
    let m = start.max() as int;
    let k = items.len() as int;
    let prev = split_run(start, items.drop_last());
    start.lemma_transitions(items.last());
    if k == 1 {
        lemma_fundamental_div_mod_converse(0, m, 0, 0);
        assert(items.drop_last().len() == 0);
        assert(!prev.1);
    } else {
        lemma_count_split_run(start, items.drop_last());
        let q = (k - 2) / m;
        let r = (k - 2) % m;
        lemma_div_mod_parts(k - 2, m);
        prev.0.lemma_transitions(items.last());
        prev.0.cleared().lemma_transitions(items.last());
        if prev.1 {
            assert(r + 1 == m);
            assert(k - 1 == (q + 1) * m) by (nonlinear_arith)
                requires
                    k - 2 == q * m + r,
                    r + 1 == m,
            ;
            lemma_fundamental_div_mod_converse(k - 1, m, q + 1, 0);
        } else {
            lemma_fundamental_div_mod_converse(k - 1, m, q, r + 1);
        }
    }
    split_run(start, items).0.lemma_transitions(items.last());
}

/// With the count-based strategy, fresh and with threshold `max`, `n`
/// resources fill `max(1, ceil(n / max))` modules, every module but the last
/// holds exactly `max` resources, and the last holds the rest. A threshold of zero is left out: there
/// every resource opens a new module and the first module stays empty.
pub proof fn lemma_count_split(start: SplitByCount, items: Seq<ResourceInfo>)
    requires
        start.current() == 0,
        start.max() > 0 || items.len() == 0,
    ensures
        module_groups(start, items).len() == if items.len() == 0 {
            1
        } else {
            ceil_div(items.len(), start.max())
        },
        forall|g: int| 0 <= g < module_groups(start, items).len() - 1
            ==> #[trigger] module_groups(start, items)[g].len() == start.max(),
        module_groups(start, items).last().len()
            == items.len() - (module_groups(start, items).len() - 1) * start.max(),
{
    if items.len() > 0 {
        lemma_count_split_run(start, items);
        let m = start.max() as int;
        let n = items.len() as int;
        let q = (n - 1) / m;
        let r = (n - 1) % m;
        lemma_div_mod_parts(n - 1, m);
        assert(n + m - 1 == (q + 1) * m + r) by (nonlinear_arith)
            requires
                n - 1 == q * m + r,
        ;
        lemma_fundamental_div_mod_converse(n + m - 1, m, q + 1, r);
    }
}

/// Generation is repeatable: two fresh count-based strategies with the same
/// threshold split the same resources into the same modules and end in the
/// same state, so running generation again on the same inputs writes the same
/// files.
pub proof fn lemma_generation_repeatable(a: SplitByCount, b: SplitByCount, items: Seq<ResourceInfo>)
    requires
        a.current() == 0,
        b.current() == 0,
        a.max() == b.max(),
    ensures
        module_groups(a, items) == module_groups(b, items),
        split_run(a, items).0 == split_run(b, items).0,
{
    a.lemma_same_counters(b);
}

} // verus!
