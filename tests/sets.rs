use static_files::sets::{generate_resources_sets, GeneratedSets};
use static_files::strategy::{ResourceInfo, SetSplitStrategie, SplitByCount};
use static_files::text::{
    aggregator_source, decimal_string, root_shim_source, set_module_file_name, AGGREGATOR_USES,
    FUNCTION_END, SET_MODULE_PROLOGUE, VARIABLE_HEADER, VARIABLE_RETURN,
};

fn resource(path: &str) -> ResourceInfo {
    ResourceInfo { path: path.to_string(), size: 10, modified: 1_700_000_000 }
}

fn insert_for(path: &str) -> String {
    format!("r.insert({path:?}, Resource::default());\n")
}

fn generate(paths: &[&str], max: usize) -> GeneratedSets {
    let resources: Vec<ResourceInfo> = paths.iter().map(|p| resource(p)).collect();
    let inserts: Vec<String> = paths.iter().map(|p| insert_for(p)).collect();
    generate_resources_sets(&resources, &inserts, "sets", "generate", &mut SplitByCount::new(max))
}

fn module_with(paths: &[&str]) -> String {
    let mut s = SET_MODULE_PROLOGUE.to_string();
    for p in paths {
        s.push_str(&insert_for(p));
    }
    s.push_str(FUNCTION_END);
    s
}

fn expected_aggregator(count: usize) -> String {
    let mut s = AGGREGATOR_USES.to_string();
    for i in 1..=count {
        s.push_str(&format!("mod set_{i};\n"));
    }
    s.push_str("pub fn generate() -> HashMap<&'static str, Resource> {\n");
    s.push_str(VARIABLE_HEADER);
    for i in 1..=count {
        s.push_str(&format!("set_{i}::generate(&mut r);\n"));
    }
    s.push_str(VARIABLE_RETURN);
    s.push_str(FUNCTION_END);
    s
}

#[test]
fn split_by_count_splits_after_max_registrations() {
    let mut s = SplitByCount::new(2);
    assert!(!s.should_split());
    s.register(&resource("a"));
    assert!(!s.should_split());
    s.register(&resource("b"));
    assert!(s.should_split());
    assert!(s.should_split());
    s.reset();
    assert!(!s.should_split());
    s.register(&resource("c"));
    assert!(!s.should_split());
}

#[test]
fn split_by_count_zero_threshold_is_due_at_once() {
    let mut s = SplitByCount::new(0);
    assert!(s.should_split());
    s.reset();
    assert!(s.should_split());
}

#[test]
fn four_resources_by_two() {
    let g = generate(&["a.txt", "b.txt", "c.txt", "d.txt"], 2);
    assert_eq!(g.modules.len(), 2);
    assert_eq!(g.modules[0], module_with(&["a.txt", "b.txt"]));
    assert_eq!(g.modules[1], module_with(&["c.txt", "d.txt"]));
    assert_eq!(g.aggregator, expected_aggregator(2));
}

#[test]
fn five_resources_by_two() {
    let g = generate(&["a", "b", "c", "d", "e"], 2);
    assert_eq!(g.modules.len(), 3);
    assert_eq!(g.modules[0], module_with(&["a", "b"]));
    assert_eq!(g.modules[1], module_with(&["c", "d"]));
    assert_eq!(g.modules[2], module_with(&["e"]));
    assert_eq!(g.aggregator, expected_aggregator(3));
}

#[test]
fn no_resources_give_one_empty_module() {
    let g = generate(&[], 2);
    assert_eq!(g.modules.len(), 1);
    assert_eq!(g.modules[0], format!("{SET_MODULE_PROLOGUE}{FUNCTION_END}"));
    assert_eq!(g.aggregator, expected_aggregator(1));
}

#[test]
fn seven_resources_by_three() {
    let g = generate(&["a", "b", "c", "d", "e", "f", "g"], 3);
    assert_eq!(g.modules.len(), 3);
    assert_eq!(g.modules[2], module_with(&["g"]));
}

#[test]
fn threshold_above_count_keeps_one_module() {
    let g = generate(&["a", "b", "c"], 10);
    assert_eq!(g.modules, vec![module_with(&["a", "b", "c"])]);
}

#[test]
fn zero_threshold_opens_a_module_per_resource_after_an_empty_one() {
    let g = generate(&["a", "b"], 0);
    assert_eq!(g.modules.len(), 3);
    assert_eq!(g.modules[0], module_with(&[]));
    assert_eq!(g.modules[1], module_with(&["a"]));
    assert_eq!(g.modules[2], module_with(&["b"]));
}

#[test]
fn every_insert_written_once() {
    let paths = ["a", "b", "c", "d", "e", "f", "g", "h", "i", "j", "k"];
    let g = generate(&paths, 4);
    let all: String = g.modules.concat();
    assert_eq!(all.matches(".insert(").count(), paths.len());
    for p in paths {
        assert_eq!(all.matches(&insert_for(p)).count(), 1);
    }
}

#[test]
fn aggregator_lists_modules_in_ascending_order() {
    let text = aggregator_source("load", 12);
    let mut last = 0;
    for i in 1..=12usize {
        let at = text.find(&format!("mod set_{i};\n")).unwrap();
        assert!(at >= last);
        last = at;
    }
    for i in 1..=12usize {
        let at = text.find(&format!("set_{i}::generate(&mut r);\n")).unwrap();
        assert!(at >= last);
        last = at;
    }
    assert_eq!(text.matches("mod set_").count(), 12);
    assert_eq!(text.matches("::generate(&mut r);").count(), 12);
    assert!(text.contains("pub fn load() -> HashMap<&'static str, Resource> {\n"));
}

#[test]
fn generation_is_repeatable() {
    let paths = ["x", "y", "z"];
    let a = generate(&paths, 2);
    let b = generate(&paths, 2);
    assert_eq!(a.root, b.root);
    assert_eq!(a.aggregator, b.aggregator);
    assert_eq!(a.modules, b.modules);
}

#[test]
fn colliding_keys_land_in_modules_called_in_order() {
    let g = generate(&["same", "other", "same"], 2);
    assert_eq!(g.modules.len(), 2);
    assert!(g.modules[0].contains(&insert_for("same")));
    assert!(g.modules[1].contains(&insert_for("same")));
    let first = g.aggregator.find("set_1::generate").unwrap();
    let second = g.aggregator.find("set_2::generate").unwrap();
    assert!(first < second);
}

#[test]
fn strategy_state_after_generation() {
    let resources: Vec<ResourceInfo> = ["a", "b", "c"].iter().map(|p| resource(p)).collect();
    let inserts: Vec<String> = ["a", "b", "c"].iter().map(|p| insert_for(p)).collect();
    let mut s = SplitByCount::new(2);
    let _ = generate_resources_sets(&resources, &inserts, "m", "f", &mut s);
    assert!(!s.should_split());
    s.register(&resource("d"));
    assert!(s.should_split());
}

#[test]
fn root_shim_reexports_function() {
    let g = generate(&["a"], 1);
    assert_eq!(g.root, "mod sets;\npub use sets::generate;\n");
    assert_eq!(root_shim_source("assets", "load"), "mod assets;\npub use assets::load;\n");
}

#[test]
fn decimal_rendering() {
    assert_eq!(decimal_string(0), "0");
    assert_eq!(decimal_string(7), "7");
    assert_eq!(decimal_string(10), "10");
    assert_eq!(decimal_string(12345), "12345");
    assert_eq!(decimal_string(usize::MAX), usize::MAX.to_string());
}

#[test]
fn module_file_names() {
    assert_eq!(set_module_file_name(1), "set_1.rs");
    assert_eq!(set_module_file_name(42), "set_42.rs");
}
