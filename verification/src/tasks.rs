//! A build system: tasks with a cost and named dependencies, looked up in a
//! registry, and the folds and graph transformations run over them.
use vstd::prelude::*;
use core::marker::PhantomData;
use crate::recursion::{Algebra, Graph, cata, fold_children, defined, fold_result, lemma_fold_result};
use crate::folds::SumWeights;
use crate::tree::{Replicate, replicate_all, append_copies};
use crate::folds::Weighted;
use crate::combinators::ResultMap;
use crate::graphs::{Filtered, NodePredicate};
use crate::exec::{NodeKey, SeedSource, key_determines_children, key_determines_children_within};

verus! {

/// A build task with a name, estimated cost, and dependencies.
pub struct Task {
    pub name: String,
    pub cost_ms: u64,
    pub deps: Vec<String>,
}

/// What a task stands for: name, cost, dependency names.
pub type TaskView = (Seq<char>, u64, Seq<Seq<char>>);

impl DeepView for Task {
    type V = TaskView;

    open spec fn deep_view(&self) -> TaskView {
        (self.name@, self.cost_ms, self.deps.deep_view())
    }
}

impl Replicate for Task {
    fn replicate(&self) -> (r: Task) {
        Task { name: self.name.clone(), cost_ms: self.cost_ms, deps: replicate_all(&self.deps) }
    }
}

impl Clone for Task {
    fn clone(&self) -> (r: Task)
        ensures
            r.deep_view() == self.deep_view(),
    {
        self.replicate()
    }
}

impl Weighted for Task {
    open spec fn weight_of(node: TaskView) -> u64 {
        node.1
    }

    fn weight(&self) -> (w: u64) {
        self.cost_ms
    }
}

/// Owned copies of the given strings.
pub fn strings_of(items: &[&str]) -> (v: Vec<String>)
    ensures
        v@.len() == items@.len(),
        forall|i: int| 0 <= i < items@.len() ==> (#[trigger] v@[i])@ == items@[i]@,
{
    let mut v: Vec<String> = Vec::new();
    let mut i: usize = 0;
    while i < items.len()
        invariant
            i <= items@.len(),
            v@.len() == i,
            forall|j: int| 0 <= j < i ==> (#[trigger] v@[j])@ == items@[j]@,
        decreases items@.len() - i,
    {
        v.push(items[i].to_string());
        i = i + 1;
    }
    v
}

impl Task {
    pub fn new(name: &str, cost_ms: u64, deps: &[&str]) -> (t: Task)
        ensures
            t.name@ == name@,
            t.cost_ms == cost_ms,
            t.deps@.len() == deps@.len(),
            forall|i: int| 0 <= i < deps@.len() ==> (#[trigger] t.deps@[i])@ == deps@[i]@,
    {
        Task { name: name.to_string(), cost_ms, deps: strings_of(deps) }
    }
}

/// The task registered last under `name`, as a registry built from a list
/// keeps the last of several entries with one name.
pub open spec fn lookup_spec(tasks: Seq<TaskView>, name: Seq<char>) -> Option<TaskView>
    decreases tasks.len(),
{
    if tasks.len() == 0 {
        None
    } else if tasks.last().0 == name {
        Some(tasks.last())
    } else {
        lookup_spec(tasks.drop_last(), name)
    }
}

/// Tasks keyed by name; a task's children are its dependencies that the
/// registry knows, in order (unknown names are skipped).
#[derive(Clone)]
pub struct Registry {
    pub tasks: Vec<Task>,
}

impl Registry {
    pub open spec fn view_tasks(&self) -> Seq<TaskView> {
        self.tasks.deep_view()
    }

    pub fn new(tasks: Vec<Task>) -> (r: Registry)
        ensures
            r.tasks == tasks,
    {
        Registry { tasks }
    }

    /// The task registered under `name`, if any.
    pub fn lookup(&self, name: &String) -> (t: Option<&Task>)
        ensures
            match t {
                Some(task) => lookup_spec(self.view_tasks(), name@) == Some(task.deep_view()),
                None => lookup_spec(self.view_tasks(), name@) is None,
            },
    {
        let mut i: usize = self.tasks.len();
        assert(self.view_tasks().take(i as int) =~= self.view_tasks());
        while i > 0
            invariant
                i <= self.tasks@.len(),
                lookup_spec(self.view_tasks(), name@) == lookup_spec(self.view_tasks().take(i as int), name@),
            decreases i,
        {
            let ghost prefix = self.view_tasks().take(i as int);
            assert(prefix.drop_last() =~= self.view_tasks().take(i - 1));
            assert(prefix.last() == self.tasks@[i - 1].deep_view());
            if self.tasks[i - 1].name == *name {
                return Some(&self.tasks[i - 1]);
            }
            i = i - 1;
        }
        assert(self.view_tasks().take(0) =~= Seq::<TaskView>::empty());
        None
    }

    /// The task registered under `name`, if any, as an owned copy.
    pub fn get(&self, name: &str) -> (t: Option<Task>)
        ensures
            match t {
                Some(task) => lookup_spec(self.view_tasks(), name@) == Some(task.deep_view()),
                None => lookup_spec(self.view_tasks(), name@) is None,
            },
    {
        let key = name.to_string();
        match self.lookup(&key) {
            Some(task) => Some(task.replicate()),
            None => None,
        }
    }
}

pub open spec fn resolve_deps(tasks: Seq<TaskView>, deps: Seq<Seq<char>>) -> Seq<TaskView> {
    deps.filter_map(|d: Seq<char>| lookup_spec(tasks, d))
}

impl Graph<Task> for Registry {
    /// Every task can be expanded, whether the registry holds it or not.
    open spec fn expandable(&self, node: TaskView) -> bool {
        true
    }

    open spec fn children_spec(&self, node: TaskView) -> Seq<TaskView> {
        resolve_deps(self.view_tasks(), node.2)
    }

    fn children(&self, node: &Task) -> (cs: Vec<Task>) {
        let mut cs: Vec<Task> = Vec::new();
        let mut i: usize = 0;
        while i < node.deps.len()
            invariant
                i <= node.deps@.len(),
                cs.deep_view() =~= resolve_deps(self.view_tasks(), node.deps.deep_view().take(i as int)),
            decreases node.deps@.len() - i,
        {
            let ghost before = cs.deep_view();
            let ghost taken = node.deps.deep_view().take(i + 1);
            assert(taken.drop_last() =~= node.deps.deep_view().take(i as int));
            assert(taken.last() == node.deps@[i as int]@);
            match self.lookup(&node.deps[i]) {
                Some(t) => {
                    let c = t.replicate();
                    cs.push(c);
                    assert(cs.deep_view() =~= before + seq![c.deep_view()]);
                },
                None => {},
            }
            i = i + 1;
        }
        assert(node.deps.deep_view().take(i as int) =~= node.deps.deep_view());
        cs
    }
}

/// The registry as a source of seeds: the seeds of a task are all its
/// dependency names, and a name grows into the task registered under it.
/// A name the registry does not know cannot grow.
impl SeedSource<Task> for Registry {
    type Seed = String;

    open spec fn seeds_spec(&self, node: TaskView) -> Seq<Seq<char>> {
        node.2
    }

    open spec fn grow_ok(&self, seed: Seq<char>) -> bool {
        lookup_spec(self.view_tasks(), seed) is Some
    }

    open spec fn grow_spec(&self, seed: Seq<char>) -> TaskView {
        lookup_spec(self.view_tasks(), seed).unwrap()
    }

    fn seeds(&self, node: &Task) -> (ss: Vec<String>) {
        replicate_all(&node.deps)
    }

    fn grow(&self, seed: &String) -> (n: Task) {
        self.lookup(seed).unwrap().replicate()
    }
}

/// Keeps the tasks that cost at least `min_cost`.
#[derive(Clone, Copy)]
pub struct CostAtLeast {
    pub min_cost: u64,
}

impl NodePredicate<Task> for CostAtLeast {
    open spec fn holds(&self, node: TaskView) -> bool {
        node.1 >= self.min_cost
    }

    fn test(&self, node: &Task) -> (b: bool) {
        node.cost_ms >= self.min_cost
    }
}

/// The registry's graph with the dependencies that cost less than
/// `min_cost` pruned.
pub fn only_costly_deps(graph: &Registry, min_cost: u64) -> (g: Filtered<Registry, CostAtLeast>)
    ensures
        g.graph.view_tasks() == graph.view_tasks(),
        g.keep.min_cost == min_cost,
{
    Filtered { graph: Registry { tasks: replicate_all(&graph.tasks) }, keep: CostAtLeast { min_cost } }
}

/// Sorts a subtree's total cost: "critical" from 500 on, "heavy" from 200
/// on, "light" below.
#[derive(Clone, Copy)]
pub struct Classify;

pub open spec fn classify_spec(total: u64) -> Seq<char> {
    if total >= 500 {
        "critical"@
    } else if total >= 200 {
        "heavy"@
    } else {
        "light"@
    }
}

impl ResultMap for Classify {
    type In = u64;
    type Extra = &'static str;

    open spec fn map_spec(&self, r: u64) -> Seq<char> {
        classify_spec(r)
    }

    fn map(&self, r: &u64) -> (x: &'static str) {
        if *r >= 500 {
            "critical"
        } else if *r >= 200 {
            "heavy"
        } else {
            "light"
        }
    }
}


/// The heap of `SlowTasks`: the task's name, its subtree's running total,
/// and the slow tasks logged so far below it.
pub struct SlowHeap {
    pub name: String,
    pub total: u64,
    pub log: Vec<(String, u64)>,
}

impl DeepView for SlowHeap {
    type V = (Seq<char>, u64, Seq<(Seq<char>, u64)>);

    open spec fn deep_view(&self) -> (Seq<char>, u64, Seq<(Seq<char>, u64)>) {
        (self.name@, self.total, self.log.deep_view())
    }
}

/// Subtree totals of the task costs, logging each task whose subtree total
/// exceeds `threshold` with that total, once its subtree is done (children
/// before parents).
#[derive(Clone, Copy)]
pub struct SlowTasks {
    pub threshold: u64,
}

impl Algebra for SlowTasks {
    type Node = Task;
    type Heap = SlowHeap;
    type Out = (u64, Vec<(String, u64)>);

    open spec fn init_ok(&self, node: TaskView) -> bool {
        true
    }

    open spec fn init_spec(&self, node: TaskView) -> (Seq<char>, u64, Seq<(Seq<char>, u64)>) {
        (node.0, node.1, seq![])
    }

    open spec fn accumulate_ok(
        &self,
        heap: (Seq<char>, u64, Seq<(Seq<char>, u64)>),
        child: (u64, Seq<(Seq<char>, u64)>),
    ) -> bool {
        heap.1 + child.0 <= u64::MAX
    }

    open spec fn accumulate_spec(
        &self,
        heap: (Seq<char>, u64, Seq<(Seq<char>, u64)>),
        child: (u64, Seq<(Seq<char>, u64)>),
    ) -> (Seq<char>, u64, Seq<(Seq<char>, u64)>) {
        (heap.0, (heap.1 + child.0) as u64, heap.2 + child.1)
    }

    open spec fn finalize_spec(&self, heap: (Seq<char>, u64, Seq<(Seq<char>, u64)>)) -> (
        u64,
        Seq<(Seq<char>, u64)>,
    ) {
        if heap.1 > self.threshold {
            (heap.1, heap.2.push((heap.0, heap.1)))
        } else {
            (heap.1, heap.2)
        }
    }

    fn init(&self, node: &Task) -> (heap: SlowHeap) {
        let h = SlowHeap { name: node.name.clone(), total: node.cost_ms, log: Vec::new() };
        assert(h.log.deep_view() =~= Seq::<(Seq<char>, u64)>::empty());
        h
    }

    fn accumulate(&self, heap: &mut SlowHeap, child: &(u64, Vec<(String, u64)>)) {
        heap.total = heap.total + child.0;
        append_copies(&mut heap.log, &child.1);
    }

    fn finalize(&self, heap: &SlowHeap) -> (res: (u64, Vec<(String, u64)>)) {
        let mut log = replicate_all(&heap.log);
        if heap.total > self.threshold {
            let ghost before = log.deep_view();
            log.push((heap.name.clone(), heap.total));
            assert(log.deep_view() =~= before.push((heap.name@, heap.total)));
        }
        (heap.total, log)
    }
}

/// The names of the tasks in the order the recursion reaches them (each
/// task before its dependencies, dependencies in order).
#[derive(Clone, Copy)]
pub struct VisitOrder;

impl Algebra for VisitOrder {
    type Node = Task;
    type Heap = Vec<String>;
    type Out = Vec<String>;

    open spec fn init_ok(&self, node: TaskView) -> bool {
        true
    }

    open spec fn init_spec(&self, node: TaskView) -> Seq<Seq<char>> {
        seq![node.0]
    }

    open spec fn accumulate_ok(&self, heap: Seq<Seq<char>>, child: Seq<Seq<char>>) -> bool {
        true
    }

    open spec fn accumulate_spec(&self, heap: Seq<Seq<char>>, child: Seq<Seq<char>>) -> Seq<Seq<char>> {
        heap + child
    }

    open spec fn finalize_spec(&self, heap: Seq<Seq<char>>) -> Seq<Seq<char>> {
        heap
    }

    fn init(&self, node: &Task) -> (heap: Vec<String>) {
        let mut h: Vec<String> = Vec::new();
        h.push(node.name.clone());
        assert(h.deep_view() =~= seq![node.name@]);
        h
    }

    fn accumulate(&self, heap: &mut Vec<String>, child: &Vec<String>) {
        append_copies(heap, child);
    }

    fn finalize(&self, heap: &Vec<String>) -> (res: Vec<String>) {
        replicate_all(heap)
    }
}


/// Caches a task's dependencies under its name.
#[derive(Clone, Copy)]
pub struct TaskByName;

impl NodeKey<Task> for TaskByName {
    type Key = String;

    open spec fn key_spec(&self, node: TaskView) -> Seq<char> {
        node.0
    }

    fn key(&self, node: &Task) -> (k: String) {
        node.name.clone()
    }
}

/// The task is the one the registry holds under its name.
pub open spec fn registered(tasks: Seq<TaskView>, task: TaskView) -> bool {
    lookup_spec(tasks, task.0) == Some(task)
}

/// What the registry finds under a name carries that name.
proof fn lemma_lookup_name(tasks: Seq<TaskView>, name: Seq<char>)
    ensures
        lookup_spec(tasks, name) is Some ==> lookup_spec(tasks, name).unwrap().0 == name,
    decreases tasks.len(),
{
    if tasks.len() > 0 && tasks.last().0 != name {
        lemma_lookup_name(tasks.drop_last(), name);
    }
}

/// The dependencies the registry resolves are tasks it holds.
proof fn lemma_resolved_registered(tasks: Seq<TaskView>, deps: Seq<Seq<char>>)
    ensures
        forall|i: int|
            0 <= i < resolve_deps(tasks, deps).len() ==> registered(tasks, #[trigger] resolve_deps(tasks, deps)[i]),
    decreases deps.len(),
{
    if deps.len() > 0 {
        let rest = deps.drop_last();
        lemma_resolved_registered(tasks, rest);
        lemma_lookup_name(tasks, deps.last());
        reveal_with_fuel(Seq::<_>::filter_map, 1);
        let all = resolve_deps(tasks, deps);
        let before = resolve_deps(tasks, rest);
        assert(rest.filter_map(|d: Seq<char>| lookup_spec(tasks, d)) == before);
        assert forall|i: int| 0 <= i < all.len() implies registered(tasks, #[trigger] all[i]) by {
            if i < before.len() {
                assert(all[i] == before[i]);
            }
        }
    }
}

/// In a run over a registry from a task it holds, a name determines a
/// task's dependencies: every task the run reaches is one the registry
/// holds, and two of those with one name are the same task, so caching by
/// name is sound.
pub proof fn law_name_determines_deps(registry: Registry, root: TaskView)
    requires
        registered(registry.view_tasks(), root),
    ensures
        key_determines_children(registry, TaskByName, root),
{
    let tasks = registry.view_tasks();
    let within = |t: TaskView| registered(tasks, t);
    assert forall|n: TaskView, i: int|
        within(n) && registry.expandable(n) && 0 <= i < registry.children_spec(n).len() implies within(
        #[trigger] registry.children_spec(n)[i],
    ) by {
        lemma_resolved_registered(tasks, n.2);
    }
    assert(key_determines_children_within(registry, TaskByName, within, root));
}

/// Every entry of a log is above `threshold`.
pub open spec fn all_above(log: Seq<(Seq<char>, u64)>, threshold: u64) -> bool {
    forall|i: int| 0 <= i < log.len() ==> (#[trigger] log[i]).1 > threshold
}

proof fn lemma_slow_cata<G: Graph<Task>>(slow: SlowTasks, graph: G, node: TaskView, fuel: nat)
    ensures
        cata(slow, graph, node, fuel) is Some <==> cata(SumWeights::<Task> { node: PhantomData }, graph, node, fuel) is Some,
        cata(slow, graph, node, fuel) is Some ==> {
            let r = cata(slow, graph, node, fuel).unwrap();
            &&& r.0 == cata(SumWeights::<Task> { node: PhantomData }, graph, node, fuel).unwrap()
            &&& all_above(r.1, slow.threshold)
        },
    decreases fuel, 0nat,
{
    if fuel > 0 && graph.expandable(node) {
        lemma_slow_fold_children(slow, graph, slow.init_spec(node), graph.children_spec(node), (fuel - 1) as nat);
    }
}

proof fn lemma_slow_fold_children<G: Graph<Task>>(
    slow: SlowTasks,
    graph: G,
    heap: (Seq<char>, u64, Seq<(Seq<char>, u64)>),
    children: Seq<TaskView>,
    fuel: nat,
)
    requires
        all_above(heap.2, slow.threshold),
    ensures
        fold_children(slow, graph, heap, children, fuel) is Some <==> fold_children(
            SumWeights::<Task> { node: PhantomData },
            graph,
            heap.1,
            children,
            fuel,
        ) is Some,
        fold_children(slow, graph, heap, children, fuel) is Some ==> {
            let h = fold_children(slow, graph, heap, children, fuel).unwrap();
            &&& h.0 == heap.0
            &&& h.1 == fold_children(SumWeights::<Task> { node: PhantomData }, graph, heap.1, children, fuel).unwrap()
            &&& all_above(h.2, slow.threshold)
        },
    decreases fuel, children.len() + 1,
{
    if children.len() > 0 {
        lemma_slow_cata(slow, graph, children[0], fuel);
        if cata(slow, graph, children[0], fuel) is Some {
            let r = cata(slow, graph, children[0], fuel).unwrap();
            let next = slow.accumulate_spec(heap, r);
            assert(all_above(next.2, slow.threshold)) by {
                assert forall|i: int| 0 <= i < next.2.len() implies (#[trigger] next.2[i]).1 > slow.threshold by {
                    if i >= heap.2.len() {
                        assert(next.2[i] == r.1[i - heap.2.len()]);
                    }
                }
            }
            lemma_slow_fold_children(slow, graph, next, children.drop_first(), fuel);
        }
    }
}

/// Logging slow tasks does not change the totals: the total of every task
/// is its plain sum of costs, defined exactly when that sum is, and every
/// logged task's subtree total exceeds the threshold.
pub proof fn law_slow_tasks<G: Graph<Task>>(threshold: u64, graph: G, node: TaskView)
    ensures
        defined(SlowTasks { threshold }, graph, node) <==> defined(SumWeights::<Task> { node: PhantomData }, graph, node),
        defined(SlowTasks { threshold }, graph, node) ==> {
            let r = fold_result(SlowTasks { threshold }, graph, node);
            &&& r.0 == fold_result(SumWeights::<Task> { node: PhantomData }, graph, node)
            &&& all_above(r.1, threshold)
        },
{
    let slow = SlowTasks { threshold };
    let sum = SumWeights::<Task> { node: PhantomData };
    if defined(slow, graph, node) {
        let f = choose|f: nat| (#[trigger] cata(slow, graph, node, f)) is Some;
        lemma_slow_cata(slow, graph, node, f);
        lemma_fold_result(slow, graph, node, f);
        lemma_fold_result(sum, graph, node, f);
    }
    if defined(sum, graph, node) {
        let f = choose|f: nat| (#[trigger] cata(sum, graph, node, f)) is Some;
        lemma_slow_cata(slow, graph, node, f);
        lemma_fold_result(slow, graph, node, f);
        lemma_fold_result(sum, graph, node, f);
    }
}


/// The total cost of the tasks in the run of `graph` from `node`, explored
/// to `fuel` levels.
pub open spec fn subtree_cost<G: Graph<Task>>(graph: G, node: TaskView, fuel: nat) -> nat
    decreases fuel, 0nat,
{
    if fuel == 0 {
        0
    } else {
        node.1 as nat + forest_cost(graph, graph.children_spec(node), (fuel - 1) as nat)
    }
}

/// `subtree_cost` summed over `nodes`.
pub open spec fn forest_cost<G: Graph<Task>>(graph: G, nodes: Seq<TaskView>, fuel: nat) -> nat
    decreases fuel, nodes.len() + 1,
{
    if nodes.len() == 0 {
        0
    } else {
        subtree_cost(graph, nodes[0], fuel) + forest_cost(graph, nodes.drop_first(), fuel)
    }
}

/// The slow tasks of the run from `node`, children before parents: each
/// child's slow tasks in order, then the node with its subtree total when
/// that total exceeds `threshold`.
pub open spec fn slow_log<G: Graph<Task>>(graph: G, node: TaskView, fuel: nat, threshold: u64) -> Seq<
    (Seq<char>, u64),
>
    decreases fuel, 0nat,
{
    if fuel == 0 {
        Seq::empty()
    } else {
        let below = forest_slow_log(graph, graph.children_spec(node), (fuel - 1) as nat, threshold);
        let total = subtree_cost(graph, node, fuel);
        if total > threshold {
            below + seq![(node.0, total as u64)]
        } else {
            below
        }
    }
}

/// `slow_log` of each of `nodes` in turn, concatenated.
pub open spec fn forest_slow_log<G: Graph<Task>>(graph: G, nodes: Seq<TaskView>, fuel: nat, threshold: u64) -> Seq<
    (Seq<char>, u64),
>
    decreases fuel, nodes.len() + 1,
{
    if nodes.len() == 0 {
        Seq::empty()
    } else {
        slow_log(graph, nodes[0], fuel, threshold) + forest_slow_log(graph, nodes.drop_first(), fuel, threshold)
    }
}

proof fn lemma_slow_log_cata<G: Graph<Task>>(slow: SlowTasks, graph: G, node: TaskView, fuel: nat)
    requires
        cata(slow, graph, node, fuel) is Some,
    ensures
        subtree_cost(graph, node, fuel) <= u64::MAX,
        cata(slow, graph, node, fuel) == Some(
            (subtree_cost(graph, node, fuel) as u64, slow_log(graph, node, fuel, slow.threshold)),
        ),
    decreases fuel, 0nat,
{
    let cs = graph.children_spec(node);
    lemma_slow_log_children(slow, graph, slow.init_spec(node), cs, (fuel - 1) as nat);
    let below = forest_slow_log(graph, cs, (fuel - 1) as nat, slow.threshold);
    let total = subtree_cost(graph, node, fuel);
    assert(seq![].add(below) =~= below);
    assert(below.push((node.0, total as u64)) =~= below + seq![(node.0, total as u64)]);
}

proof fn lemma_slow_log_children<G: Graph<Task>>(
    slow: SlowTasks,
    graph: G,
    heap: (Seq<char>, u64, Seq<(Seq<char>, u64)>),
    children: Seq<TaskView>,
    fuel: nat,
)
    requires
        fold_children(slow, graph, heap, children, fuel) is Some,
    ensures
        heap.1 + forest_cost(graph, children, fuel) <= u64::MAX,
        fold_children(slow, graph, heap, children, fuel) == Some(
            (
                heap.0,
                (heap.1 + forest_cost(graph, children, fuel)) as u64,
                heap.2 + forest_slow_log(graph, children, fuel, slow.threshold),
            ),
        ),
    decreases fuel, children.len() + 1,
{
    if children.len() == 0 {
        assert(heap.2 + Seq::<(Seq<char>, u64)>::empty() =~= heap.2);
    } else {
        lemma_slow_log_cata(slow, graph, children[0], fuel);
        let r = cata(slow, graph, children[0], fuel).unwrap();
        let next = slow.accumulate_spec(heap, r);
        lemma_slow_log_children(slow, graph, next, children.drop_first(), fuel);
        assert((heap.2 + r.1) + forest_slow_log(graph, children.drop_first(), fuel, slow.threshold)
            =~= heap.2 + forest_slow_log(graph, children, fuel, slow.threshold));
    }
}

/// Every slow task is logged, and only those: wherever the plain sum of
/// costs is complete within `fuel` levels, logging slow tasks gives the
/// subtree total of `node` and, children before parents, every task of the
/// run whose subtree total exceeds `threshold`, with that total.
pub proof fn law_slow_log<G: Graph<Task>>(threshold: u64, graph: G, node: TaskView, fuel: nat)
    requires
        cata(SumWeights::<Task> { node: PhantomData }, graph, node, fuel) is Some,
    ensures
        defined(SlowTasks { threshold }, graph, node),
        subtree_cost(graph, node, fuel) <= u64::MAX,
        fold_result(SlowTasks { threshold }, graph, node) == (
            subtree_cost(graph, node, fuel) as u64,
            slow_log(graph, node, fuel, threshold),
        ),
{
    let slow = SlowTasks { threshold };
    lemma_slow_cata(slow, graph, node, fuel);
    lemma_slow_log_cata(slow, graph, node, fuel);
    lemma_fold_result(slow, graph, node, fuel);
}

} // verus!
