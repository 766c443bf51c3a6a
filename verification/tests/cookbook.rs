use hylic_docs::config::{resolve, Scope};
use hylic_docs::cycles::{DepGraph, DepNode};
use hylic::domain::shared::{self as dom, Fold};
use hylic::exec::funnel as hylic_funnel;
use hylic::graph::{treeish, Treeish};
use hylic_docs::exec::{funnel, funnel_wide_light, fused};
use hylic_docs::recursion::{Algebra, Graph};
use std::sync::{Arc, Mutex};
use hylic_docs::fibonacci::{FibNode, FibSum, FibTree};
use hylic_docs::filesystem::{summarize, FsEntry, Summary};
use hylic_docs::flat::{AdjacencyList, ValueSum};
use hylic_docs::folds::{Entry, MaxWeight, SumWeights};
use hylic_docs::modules::{Module, ModuleRegistry};
use hylic_docs::tasks::{Registry, SlowTasks, Task};
use hylic_docs::tree::{Children, Tree};

#[test]
fn fibonacci() {
    let result: u64 = fused(FibSum, FibTree, &FibNode(10));
    assert_eq!(result, 55);
}

#[test]
fn summarize_filesystem() {
    let tree = FsEntry::dir("project", vec![
        FsEntry::file("README.md", 1200),
        FsEntry::dir("src", vec![
            FsEntry::file("main.rs", 5000),
            FsEntry::file("lib.rs", 3000),
            FsEntry::dir("utils", vec![
                FsEntry::file("helpers.rs", 800),
            ]),
        ]),
        FsEntry::file("Cargo.toml", 400),
    ]);

    let result = summarize(&tree);
    assert_eq!(result, Summary { total_size: 10400, file_count: 5, dir_count: 3 });
}

#[test]
fn config_overlay() {
    let root = Tree::node(
        Scope::new("global", &[("color", "blue"), ("font_size", "12"), ("theme", "light")]),
        vec![
            Tree::node(
                Scope::new("production", &[("theme", "dark"), ("debug", "false")]),
                vec![Tree::leaf(Scope::new("production.api", &[("font_size", "14"), ("rate_limit", "1000")]))],
            ),
            Tree::leaf(Scope::new("development", &[("debug", "true"), ("theme", "light")])),
        ],
    );

    let result = resolve(&root);

    assert_eq!(result.merged.get("color").unwrap(), "blue");
    assert_eq!(result.merged.get("theme").unwrap(), "light"); // parent wins
    assert_eq!(result.merged.get("debug").unwrap(), "false"); // production's value
    assert_eq!(result.merged.get("rate_limit").unwrap(), "1000");

    // The merged settings are read in the order of their keys.
    let display: Vec<String> = result.merged.entries().iter().map(|(k, v)| format!("{k}={v}")).collect();
    assert_eq!(display.join(", "), "color=blue, debug=false, font_size=12, rate_limit=1000, theme=light");
}

#[test]
fn detect_cycles() {
    let mut graph = DepGraph::new();
    graph.add("A", &["B", "C"]);
    graph.add("B", &["D"]);
    graph.add("C", &["D", "A"]); // C -> A creates a cycle
    graph.add("D", &[]);

    let result = hylic_docs::cycles::detect_cycles(graph.clone(), &DepNode::root("A"));

    assert_eq!(result.cycles, vec!["A"]); // C -> A cycle detected
    assert_eq!(result.visited, 6); // A, B, C, D, D, A(cycle)
}

fn build_tree() -> (Vec<Vec<usize>>, Vec<u64>) {
    let mut adj: Vec<Vec<usize>> = Vec::new();
    let mut vals: Vec<u64> = Vec::new();
    adj.push((1..=6).collect());
    vals.push(1);
    let mut next_leaf = 7;
    for i in 0..6 {
        let children: Vec<usize> = (next_leaf..next_leaf + 3).collect();
        adj.push(children);
        vals.push(i as u64 * 10);
        next_leaf += 3;
    }
    for i in 0..6 {
        for j in 0..3u64 {
            adj.push(vec![]);
            vals.push(i as u64 * 10 + j);
        }
    }
    (adj, vals)
}

/// The library's sum over an adjacency list, as `hylic` fold and treeish,
/// the way the library's executors build them.
fn hylic_sum(sum: &ValueSum, graph: &AdjacencyList) -> (Fold<usize, u64, u64>, Treeish<usize>) {
    let (a1, a2, a3, g) = (sum.clone(), sum.clone(), sum.clone(), graph.clone());
    let fold = dom::fold(
        move |n: &usize| a1.init(n),
        move |h: &mut u64, c: &u64| a2.accumulate(h, c),
        move |h: &u64| a3.finalize(h),
    );
    (fold, treeish(move |n: &usize| g.children(n)))
}

#[test]
fn parallel_strategies() {
    let (adj, vals) = build_tree();
    let graph = AdjacencyList { adj };
    let sum = ValueSum { vals };

    // Sequential baseline
    let expected = fused(sum.clone(), graph.clone(), &0usize);
    assert_eq!(expected, 1 + 150 + 468);

    // The funnel executor on the calling thread alone, both policies
    assert_eq!(funnel(sum.clone(), graph.clone(), &0usize), expected);
    assert_eq!(funnel_wide_light(sum.clone(), graph.clone(), &0usize), expected);

    // One-shot on four threads: the run creates and destroys its pool
    let (fold, tree) = hylic_sum(&sum, &graph);
    assert_eq!(dom::exec(hylic_funnel::Spec::default(4)).run(&fold, &tree, &0usize), expected);

    // Different policy: wide-light
    assert_eq!(dom::exec(hylic_funnel::Spec::for_wide_light(4)).run(&fold, &tree, &0usize), expected);

    // Session scope and explicit attach, on the same fold and graph
    dom::exec(hylic_funnel::Spec::default(4)).session(|s| {
        assert_eq!(s.run(&fold, &tree, &0usize), expected);
        assert_eq!(s.run(&fold, &tree, &0usize), expected);
    });
    hylic_funnel::Pool::with(4, |pool| {
        let pw = dom::exec(hylic_funnel::Spec::default(4)).attach(pool);
        let sh = dom::exec(hylic_funnel::Spec::for_wide_light(4)).attach(pool);
        assert_eq!(pw.run(&fold, &tree, &0usize), expected);
        assert_eq!(sh.run(&fold, &tree, &0usize), expected);
    });
}

fn build_node(name: &str, cost: u64, children: Vec<Tree<Entry>>) -> Tree<Entry> {
    Tree::node(Entry::new(name, cost), children)
}

#[test]
fn simple_static_graph() {
    let tree = build_node("app", 50, vec![
        build_node("compile", 200, vec![
            build_node("parse", 100, vec![]),
            build_node("typecheck", 300, vec![]),
        ]),
        build_node("link", 150, vec![]),
    ]);

    let result = fused(SumWeights::<Tree<Entry>>::new(), Children, &tree);
    assert_eq!(result, 800); // 50 + 200 + 100 + 300 + 150

    let longest = fused(MaxWeight::<Tree<Entry>>::new(), Children, &tree);
    assert_eq!(longest, 300); // typecheck alone is the max leaf
}

fn build_registry() -> Registry {
    Registry::new(vec![
        Task::new("app", 50, &["compile", "link"]),
        Task::new("compile", 200, &["parse", "typecheck"]),
        Task::new("parse", 100, &[]),
        Task::new("typecheck", 300, &[]),
        Task::new("link", 150, &[]),
    ])
}

#[test]
fn graph_from_lookup() {
    let bg = build_registry();
    let root = bg.get("app").unwrap();
    let result = fused(SumWeights::<Task>::new(), bg.clone(), &root);
    assert_eq!(result, 800);
}

#[test]
fn selective_logging() {
    let bg = build_registry();
    let root = bg.get("app").unwrap();
    let (result, slow) = fused(SlowTasks { threshold: 200 }, bg.clone(), &root);

    assert_eq!(result, 800);
    // compile (600ms) and app (800ms) exceed threshold
    assert!(slow.iter().any(|(name, _)| name.contains("compile")));
    assert!(slow.iter().any(|(name, _)| name.contains("app")));
    assert_eq!(slow, vec![("typecheck".to_string(), 300), ("compile".to_string(), 600), ("app".to_string(), 800)]);
}

#[test]
fn caching_with_context() {
    // Diamond dependency: compile and link both depend on "stdlib".
    let bg = Registry::new(vec![
        Task::new("app", 10, &["compile", "link"]),
        Task::new("compile", 50, &["stdlib"]),
        Task::new("link", 30, &["stdlib"]),
        Task::new("stdlib", 200, &[]),
    ]);
    let root = bg.get("app").unwrap();

    // The registry's graph, counting how often it is asked for children.
    let call_count = Arc::new(Mutex::new(0u32));
    let cc = call_count.clone();
    let reg = bg.clone();
    let graph = treeish(move |t: &Task| {
        *cc.lock().unwrap() += 1;
        reg.children(t)
    });
    let total = SumWeights::<Task>::new();
    let (a1, a2, a3) = (total.clone(), total.clone(), total.clone());
    let fold = dom::fold(
        move |t: &Task| a1.init(t),
        move |h: &mut u64, c: &u64| a2.accumulate(h, c),
        move |h: &u64| a3.finalize(h),
    );

    // Without caching: stdlib is visited twice (via compile and link).
    let result = dom::FUSED.run(&fold, &graph, &root);
    let calls_no_cache = *call_count.lock().unwrap();

    assert_eq!(result, 490); // 10 + 50 + 30 + 200 + 200 (stdlib counted twice)
    assert_eq!(calls_no_cache, 5); // app, compile, stdlib, link, stdlib
    assert_eq!(fused(total.clone(), bg.clone(), &root), 490);
}

#[test]
fn resolve_modules() {
    let registry = ModuleRegistry::new(vec![
        Module::new("app", &["logging", "config", "ghost"]),
        Module::new("logging", &["utils"]),
        Module::new("config", &["utils"]),
        Module::new("utils", &[]),
        // "ghost" is not in the registry: it produces an error
    ]);

    let result = hylic_docs::modules::resolve_modules(registry.clone(), &["app".to_string()]);

    assert!(result.modules.contains(&"utils".to_string()));
    assert!(result.modules.contains(&"app".to_string()));
    assert!(result.errors.contains(&"not found: ghost".to_string()));
}
