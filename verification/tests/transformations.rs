use hylic_docs::combinators::{ClampAt, SkipBelow, ZipMap};
use hylic::domain::shared::{self as dom, Fold};
use hylic::graph::{treeish, Treeish};
use hylic::prelude::memoize_treeish_by;
use hylic_docs::exec::{fused, fused_memoized};
use hylic_docs::recursion::{Algebra, Graph};
use std::sync::{Arc, Mutex};
use hylic_docs::folds::SumWeights;
use hylic_docs::tasks::{only_costly_deps, Classify, Registry, Task, TaskByName, VisitOrder};

fn setup() -> (Registry, Task) {
    let reg = Registry::new(vec![
        Task::new("app", 50, &["compile", "link"]),
        Task::new("compile", 200, &["parse", "typecheck"]),
        Task::new("parse", 100, &[]),
        Task::new("typecheck", 300, &[]),
        Task::new("link", 150, &[]),
    ]);
    let root = reg.get("app").unwrap();
    (reg, root)
}

fn base_fold() -> SumWeights<Task> {
    SumWeights::new()
}

/// A library fold over tasks run by `hylic` itself, as the library's
/// executors run it, with `on_init` called at each task before its `init`.
fn hooked_fold<A>(alg: &A, on_init: impl Fn(&Task) + Send + Sync + 'static) -> Fold<Task, A::Heap, A::Out>
where
    A: Algebra<Node = Task> + Clone + Send + Sync + 'static,
    A::Heap: 'static,
    A::Out: 'static,
{
    let (a1, a2, a3) = (alg.clone(), alg.clone(), alg.clone());
    dom::fold(
        move |t: &Task| {
            on_init(t);
            a1.init(t)
        },
        move |h: &mut A::Heap, c: &A::Out| a2.accumulate(h, c),
        move |h: &A::Heap| a3.finalize(h),
    )
}

/// The registry's graph as a `hylic` treeish, counting its calls.
fn counted_graph(reg: &Registry, calls: Arc<Mutex<u32>>) -> Treeish<Task> {
    let reg = reg.clone();
    treeish(move |t: &Task| {
        *calls.lock().unwrap() += 1;
        reg.children(t)
    })
}

fn visit_logger(sink: Arc<Mutex<Vec<String>>>) -> impl Fn(&Task) + Send + Sync + 'static {
    move |t: &Task| sink.lock().unwrap().push(t.name.clone())
}

#[test]
fn test_visit_logger() {
    let (graph, root) = setup();
    let visited = Arc::new(Mutex::new(Vec::new()));
    let fold = hooked_fold(&base_fold(), visit_logger(visited.clone()));
    let total = dom::FUSED.run(&fold, &counted_graph(&graph, Arc::new(Mutex::new(0))), &root);
    let names: Vec<String> = visited.lock().unwrap().clone();
    assert_eq!(total, 800);
    assert_eq!(names, vec!["app", "compile", "parse", "typecheck", "link"]);
    // The library's own run and its visit order agree.
    assert_eq!(fused(base_fold(), graph.clone(), &root), 800);
    assert_eq!(fused(VisitOrder, graph.clone(), &root), names);
}

#[test]
fn test_skip_small_children() {
    let (graph, root) = setup();
    let fold = SkipBelow { fold: base_fold(), threshold: 200 };
    let total = fused(fold.clone(), graph.clone(), &root);
    // app(50) + compile(200+typecheck 300) = 550; parse(100) and link(150) skipped
    assert_eq!(total, 550);
}

#[test]
fn test_clamp_at() {
    let (graph, root) = setup();
    let fold = ClampAt { fold: base_fold(), max: 500 };
    let total = fused(fold.clone(), graph.clone(), &root);
    // compile=min(600,500)=500, link=150, app=min(50+500+150,500)=500
    assert_eq!(total, 500);
}

#[test]
fn test_classify() {
    let (graph, root) = setup();
    let (total, category) = fused(ZipMap { fold: base_fold(), extra: Classify }, graph.clone(), &root);
    assert_eq!(total, 800);
    assert_eq!(category, "critical");
}

#[test]
fn test_only_costly_deps() {
    let (graph, root) = setup();
    let filtered = only_costly_deps(&graph, 150);
    let total = fused(base_fold(), filtered.clone(), &root);
    // parse(100) pruned: app(50)+compile(200)+typecheck(300)+link(150) = 700
    assert_eq!(total, 700);
}

#[test]
fn test_memoize_diamond() {
    let reg = Registry::new(vec![
        Task::new("app", 10, &["compile", "link"]),
        Task::new("compile", 50, &["stdlib"]),
        Task::new("link", 30, &["stdlib"]),
        Task::new("stdlib", 200, &[]),
    ]);
    let visit_count = Arc::new(Mutex::new(0u32));
    let graph = counted_graph(&reg, visit_count.clone());
    let root = reg.get("app").unwrap();
    let fold = hooked_fold(&base_fold(), |_: &Task| {});

    let total = dom::FUSED.run(&fold, &graph, &root);
    let raw_visits = *visit_count.lock().unwrap();

    *visit_count.lock().unwrap() = 0;
    let cached = memoize_treeish_by(&graph, |t: &Task| t.name.clone());
    let total_memo = dom::FUSED.run(&fold, &cached, &root);
    let memo_visits = *visit_count.lock().unwrap();

    assert_eq!((total, raw_visits), (490, 5));
    assert_eq!((total_memo, memo_visits), (490, 4));
    // The library's memoized run, keyed the same way, gives the same total.
    assert_eq!(fused_memoized(base_fold(), reg.clone(), TaskByName, &root), 490);
}

#[test]
fn test_composed_pipeline() {
    let (graph, root) = setup();
    let visited = Arc::new(Mutex::new(Vec::new()));
    let pipeline = ZipMap { fold: ClampAt { fold: base_fold(), max: 500 }, extra: Classify };
    let fold = hooked_fold(&pipeline, visit_logger(visited.clone()));
    let (total, category) = dom::FUSED.run(&fold, &counted_graph(&graph, Arc::new(Mutex::new(0))), &root);
    let names: Vec<String> = visited.lock().unwrap().clone();
    assert_eq!(total, 500);
    assert_eq!(category, "critical");
    assert_eq!(names, vec!["app", "compile", "parse", "typecheck", "link"]);
    assert_eq!(fused(pipeline.clone(), graph.clone(), &root), (500, "critical"));
}
