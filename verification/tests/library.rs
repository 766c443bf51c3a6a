use hylic_docs::combinators::{ClampAt, SkipBelow};
use hylic_docs::config::{Config, Scope};
use hylic_docs::cycles::{DepGraph, DepNode};
use hylic_docs::exec::{funnel, funnel_wide_light, fused, fused_local, fused_memoized, fused_owned, seeded};
use hylic_docs::fibonacci::fib_by_fold;
use hylic_docs::filesystem::{summarize, FsEntry, Summary};
use hylic_docs::flat::{AdjacencyList, ValueSum};
use hylic_docs::folds::{sum_tree, CountNodes, Depth, Entry, MaxWeight, SumWeights};
use hylic_docs::graphs::{Countdown, FilteredSeeds, Leaves, NotUnderscored};
use hylic_docs::modules::{CollectNames, Module, ModuleRegistry};
use hylic_docs::recursion::Graph;
use hylic_docs::tasks::{Classify, Registry, Task, TaskByName};
use hylic_docs::combinators::{AddOne, ByteLength, Contramap, ResultMap, Unchanged, WrapInit, ZipMap};
use hylic_docs::tree::{Children, Tree};

#[test]
fn fib_by_fold_small_values() {
    assert_eq!(fib_by_fold(0), 0);
    assert_eq!(fib_by_fold(1), 1);
    assert_eq!(fib_by_fold(2), 1);
    assert_eq!(fib_by_fold(20), 6765);
}

#[test]
fn sum_tree_adds_every_node() {
    let tree = Tree::node(1u64, vec![Tree::node(2, vec![Tree::leaf(3)]), Tree::leaf(4)]);
    assert_eq!(sum_tree(&tree), 10);
    assert_eq!(sum_tree(&Tree::leaf(7u64)), 7);
}

#[test]
fn count_and_depth_of_a_chain() {
    assert_eq!(fused(CountNodes::<u64>::new(), Countdown, &9u64), 10);
    assert_eq!(fused(Depth::<u64>::new(), Countdown, &9u64), 10);
    assert_eq!(fused(Depth::<u64>::new(), Countdown, &0u64), 1);
}

#[test]
fn max_weight_picks_the_heaviest_node() {
    let tree = Tree::node(Entry::new("a", 5), vec![Tree::leaf(Entry::new("b", 9)), Tree::leaf(Entry::new("c", 2))]);
    assert_eq!(fused(MaxWeight::<Tree<Entry>>::new(), Children, &tree), 9);
}

#[test]
fn executors_agree_on_flat_data() {
    let graph = AdjacencyList { adj: vec![vec![1, 2], vec![3], vec![], vec![]] };
    let fold = ValueSum { vals: vec![10, 20, 30, 40] };
    assert_eq!(fused(fold.clone(), graph.clone(), &0usize), 100);
    assert_eq!(funnel(fold.clone(), graph.clone(), &0usize), 100);
    assert_eq!(funnel_wide_light(fold.clone(), graph.clone(), &0usize), 100);
}

#[test]
fn single_file_summary() {
    assert_eq!(summarize(&FsEntry::file("a.txt", 42)), Summary { total_size: 42, file_count: 1, dir_count: 0 });
    assert_eq!(summarize(&FsEntry::dir("empty", vec![])), Summary { total_size: 0, file_count: 0, dir_count: 1 });
}

#[test]
fn config_insert_get_and_overlay() {
    let mut parent = Config::from_pairs(&[("a", "1"), ("b", "2"), ("a", "3")]);
    assert_eq!(parent.get("a").unwrap(), "3"); // a later pair replaces an earlier one
    assert!(parent.get("z").is_none());
    parent.insert("b".to_string(), "4".to_string());
    assert_eq!(parent.get("b").unwrap(), "4");

    let child = Config::from_pairs(&[("a", "child"), ("c", "5")]);
    parent.overlay(&child);
    assert_eq!(parent.get("a").unwrap(), "3"); // the parent keeps its own value
    assert_eq!(parent.get("c").unwrap(), "5"); // the child fills in the rest
}

#[test]
fn earlier_child_wins_over_later_child() {
    let root = Tree::node(
        Scope::new("root", &[]),
        vec![Tree::leaf(Scope::new("first", &[("k", "1")])), Tree::leaf(Scope::new("second", &[("k", "2")]))],
    );
    let resolved = hylic_docs::config::resolve(&root);
    assert_eq!(resolved.scope, "root");
    assert_eq!(resolved.merged.get("k").unwrap(), "1");
}

#[test]
fn registry_lookup_keeps_the_last_entry() {
    let reg = Registry::new(vec![Task::new("x", 1, &[]), Task::new("x", 2, &[]), Task::new("y", 3, &["x", "missing"])]);
    assert_eq!(reg.get("x").unwrap().cost_ms, 2);
    assert!(reg.get("missing").is_none());
    let y = reg.get("y").unwrap();
    let deps = reg.children(&y);
    assert_eq!(deps.len(), 1); // unknown dependencies are skipped
    assert_eq!(deps[0].cost_ms, 2);
}

#[test]
fn classify_thresholds() {
    assert_eq!(Classify.map(&0), "light");
    assert_eq!(Classify.map(&199), "light");
    assert_eq!(Classify.map(&200), "heavy");
    assert_eq!(Classify.map(&499), "heavy");
    assert_eq!(Classify.map(&500), "critical");
}

#[test]
fn skip_and_clamp_on_a_chain() {
    // 3 -> 2 -> 1 -> 0: sums are 0, 1, 3, 6.
    let skip = SkipBelow { fold: SumWeights::<u64>::new(), threshold: 2 };
    // 1's child 0 is skipped (0 < 2), 2's child 1 is skipped (1 < 2): 2; 3 + 2 = 5.
    assert_eq!(fused(skip.clone(), Countdown, &3u64), 5);
    let clamp = ClampAt { fold: SumWeights::<u64>::new(), max: 2 };
    // 0, 1, min(3, 2) = 2, min(3 + 2, 2) = 2.
    assert_eq!(fused(clamp.clone(), Countdown, &3u64), 2);
    let zipped = ZipMap { fold: SumWeights::<u64>::new(), extra: Classify };
    assert_eq!(fused(zipped.clone(), Countdown, &3u64), (6, "light"));
}

#[test]
fn dep_nodes_track_their_ancestors() {
    let root = DepNode::root("A");
    assert!(!root.is_cycle());
    let b = root.child(&"B".to_string());
    assert!(!b.is_cycle());
    let a_again = b.child(&"A".to_string());
    assert!(a_again.is_cycle());

    let mut graph = DepGraph::new();
    graph.add("A", &["B"]);
    graph.add("A", &["C"]); // a later entry replaces an earlier one
    assert_eq!(graph.deps(&"A".to_string()).unwrap(), &vec!["C".to_string()]);
    assert!(graph.deps(&"Q".to_string()).is_none());
    assert_eq!(graph.children(&a_again).len(), 0); // a cycle is not expanded
}

#[test]
fn seeded_entry_heap_collects_every_root() {
    let mut graph = DepGraph::new();
    graph.add("a", &["b"]);
    let names = seeded(CollectNames, graph.clone(), &["a".to_string(), "c".to_string()], vec!["entry".to_string()]);
    assert_eq!(names, vec!["entry", "a", "b", "c"]);
}

#[test]
fn missing_modules_become_errors() {
    let registry = ModuleRegistry::new(vec![Module::new("app", &["gone", "lib"]), Module::new("lib", &["gone"])]);
    let result = hylic_docs::modules::resolve_modules(registry.clone(), &["app".to_string()]);
    assert_eq!(result.modules, vec!["app", "lib"]);
    assert_eq!(result.errors, vec!["not found: gone", "not found: gone"]);
}

#[test]
fn memoized_diamond_keeps_the_total() {
    let reg = Registry::new(vec![
        Task::new("app", 10, &["compile", "link"]),
        Task::new("compile", 50, &["stdlib"]),
        Task::new("link", 30, &["stdlib"]),
        Task::new("stdlib", 200, &[]),
    ]);
    let root = reg.get("app").unwrap();
    let total = fused(SumWeights::<Task>::new(), reg.clone(), &root);
    let total_memo = fused_memoized(SumWeights::<Task>::new(), reg.clone(), TaskByName, &root);
    assert_eq!((total, total_memo), (490, 490));
}

#[test]
fn filtered_seeds_never_grow_underscored_names() {
    // "_scratch" is not registered: growing it would be refused, so the
    // filter must drop it before the run reaches it.
    let reg = Registry::new(vec![
        Task::new("app", 1, &["db", "_scratch"]),
        Task::new("db", 2, &["_cache"]),
        Task::new("_cache", 50, &[]),
    ]);
    let sp = FilteredSeeds { source: reg, keep: NotUnderscored };
    assert_eq!(seeded(SumWeights::<Task>::new(), sp.clone(), &["app".to_string()], 0u64), 3);
    // Root seeds are not filtered.
    assert_eq!(seeded(SumWeights::<Task>::new(), sp.clone(), &["_cache".to_string()], 0u64), 50);
}

#[test]
fn registry_grows_all_dependencies_without_filter() {
    let reg = Registry::new(vec![
        Task::new("app", 1, &["db", "db"]),
        Task::new("db", 2, &[]),
    ]);
    // Each dependency listed is grown, so "db" counts twice; the entry heap
    // starts the sum.
    assert_eq!(seeded(SumWeights::<Task>::new(), reg.clone(), &["app".to_string()], 10u64), 15);
}

#[test]
fn contramap_reads_nodes_through_the_map() {
    let by_len = Contramap { fold: SumWeights::<Tree<u64>>::new(), via: ByteLength };
    assert_eq!(fused(by_len.clone(), Leaves, &"".to_string()), 0);
    // Length in bytes, not characters.
    assert_eq!(fused(by_len.clone(), Leaves, &"h\u{e9}llo".to_string()), 6);
}

#[test]
fn wrap_init_add_one_and_unchanged() {
    let tree = Tree::node(1u64, vec![Tree::leaf(2), Tree::node(3, vec![Tree::leaf(4)])]);
    let plain = fused(SumWeights::<Tree<u64>>::new(), Children, &tree);
    let same = fused(WrapInit { fold: SumWeights::<Tree<u64>>::new(), wrap: Unchanged }, Children, &tree);
    let bumped = fused(WrapInit { fold: SumWeights::<Tree<u64>>::new(), wrap: AddOne }, Children, &tree);
    assert_eq!(plain, 10);
    assert_eq!(same, 10);
    assert_eq!(bumped, 14);
}

#[test]
fn domains_agree_on_a_deeper_tree() {
    let a = fused(CountNodes::<u64>::new(), Countdown, &6u64);
    let b = fused_local(CountNodes::<u64>::new(), Countdown, &6u64);
    let c = fused_owned(CountNodes::<u64>::new(), Countdown, &6u64);
    assert_eq!((a, b, c), (7, 7, 7));
}

#[test]
fn count_nodes_counts_every_node_of_a_tree() {
    let tree = Tree::node(5u64, vec![Tree::leaf(1), Tree::node(2, vec![Tree::leaf(3), Tree::leaf(4)])]);
    assert_eq!(fused(CountNodes::<Tree<u64>>::new(), Children, &tree), 5);
    assert_eq!(fused(CountNodes::<Tree<u64>>::new(), Children, &Tree::leaf(9u64)), 1);
}

#[test]
fn config_entries_are_sorted_with_one_entry_per_key() {
    let mut c = Config::from_pairs(&[("b", "1"), ("a", "2"), ("b", "3"), ("ab", "4")]);
    c.insert("B".to_string(), "5".to_string());
    let pairs: Vec<(&str, &str)> = c.entries().iter().map(|(k, v)| (k.as_str(), v.as_str())).collect();
    // Code-point order: upper case before lower case, a prefix before its extensions.
    assert_eq!(pairs, vec![("B", "5"), ("a", "2"), ("ab", "4"), ("b", "3")]);
    let mut other = Config::from_pairs(&[("c", "6"), ("a", "7")]);
    other.overlay(&c);
    let keys: Vec<&str> = other.entries().iter().map(|(k, _)| k.as_str()).collect();
    assert_eq!(keys, vec!["B", "a", "ab", "b", "c"]);
    assert_eq!(other.get("a").unwrap(), "7");
}
