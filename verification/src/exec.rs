//! Executors: running a fold over a graph with `hylic`.
//!
//! `fused` is `hylic`'s sequential executor (also in its `Local` and
//! `Owned` domains), `funnel` its continuation-passing executor, run on the
//! calling thread, `fused_memoized` caches children by key, and `seeded`
//! runs a fold over a tree discovered lazily from seeds, through
//! `hylic-pipeline`'s `SeedPipeline`. Each states its result through the
//! recursion of `recursion`.
//!
//! The executors take the fold and the graph by value and hand them to
//! `hylic` behind an `Arc`, so that `hylic` runs exactly the values the
//! contracts speak of. Where `hylic` clones nodes, seeds or heaps, the
//! contract asks that a clone stand for what the original stands for.
use vstd::prelude::*;
use hylic::domain::{local, owned, shared};
use hylic::exec::funnel;
use hylic_pipeline::SeedPipeline;
use std::sync::Arc;
use vstd::std_specs::hash::obeys_key_model;
use crate::recursion::{
    Algebra, Graph, cata, defined, fold_result, accumulate_all, all_defined, results_of,
};

verus! {

/// Where a graph's nodes come from lazily: each node names the seeds of its
/// children, and `grow` turns a seed into a node.
pub trait SeedSource<N: DeepView> {
    type Seed: DeepView;

    spec fn seeds_spec(&self, node: N::V) -> Seq<<Self::Seed as DeepView>::V>;

    /// Whether `grow` may run on this seed (for instance: the name it
    /// looks up is registered).
    spec fn grow_ok(&self, seed: <Self::Seed as DeepView>::V) -> bool;

    spec fn grow_spec(&self, seed: <Self::Seed as DeepView>::V) -> N::V;

    fn seeds(&self, node: &N) -> (ss: Vec<Self::Seed>)
        ensures
            ss.deep_view() == self.seeds_spec(node.deep_view()),
    ;

    fn grow(&self, seed: &Self::Seed) -> (n: N)
        requires
            self.grow_ok(seed.deep_view()),
        ensures
            n.deep_view() == self.grow_spec(seed.deep_view()),
    ;
}

/// Every one of `seeds` can be grown.
pub open spec fn all_grow_ok<N: DeepView, Src: SeedSource<N>>(
    source: Src,
    seeds: Seq<<Src::Seed as DeepView>::V>,
) -> bool {
    forall|i: int| 0 <= i < seeds.len() ==> #[trigger] source.grow_ok(seeds[i])
}

/// The graph that a seed source describes: the children of a node are its
/// seeds, grown; a node can be expanded when each of its seeds can grow.
pub struct Grown<Src> {
    pub source: Src,
}

pub open spec fn grow_all<N: DeepView, Src: SeedSource<N>>(
    source: Src,
    seeds: Seq<<Src::Seed as DeepView>::V>,
) -> Seq<N::V> {
    seeds.map_values(|s: <Src::Seed as DeepView>::V| source.grow_spec(s))
}

impl<N: DeepView, Src: SeedSource<N>> Graph<N> for Grown<Src> {
    open spec fn expandable(&self, node: N::V) -> bool {
        all_grow_ok(self.source, self.source.seeds_spec(node))
    }

    open spec fn children_spec(&self, node: N::V) -> Seq<N::V> {
        grow_all(self.source, self.source.seeds_spec(node))
    }

    fn children(&self, node: &N) -> (cs: Vec<N>) {
        let seeds = self.source.seeds(node);
        let mut cs: Vec<N> = Vec::new();
        let mut i: usize = 0;
        while i < seeds.len()
            invariant
                i <= seeds@.len(),
                seeds.deep_view() == self.source.seeds_spec(node.deep_view()),
                all_grow_ok(self.source, self.source.seeds_spec(node.deep_view())),
                cs.deep_view() =~= grow_all(self.source, seeds.deep_view().take(i as int)),
            decreases seeds@.len() - i,
        {
            let ghost before = cs.deep_view();
            assert(seeds.deep_view()[i as int] == seeds@[i as int].deep_view());
            assert(self.source.grow_ok(seeds.deep_view()[i as int]));
            let c = self.source.grow(&seeds[i]);
            cs.push(c);
            assert(cs.deep_view() =~= before.push(c.deep_view()));
            i = i + 1;
            assert(cs.deep_view() =~= grow_all(self.source, seeds.deep_view().take(i as int)));
        }
        assert(seeds.deep_view().take(i as int) =~= seeds.deep_view());
        cs
    }
}

/// The result of a seeded run: the results of the grown root seeds
/// accumulated, in order, into the entry heap, then finalized. `None` when
/// a root seed cannot grow, or the recursion or an accumulation is not
/// defined.
pub open spec fn seeded_result<A: Algebra, Src: SeedSource<A::Node>>(
    alg: A,
    source: Src,
    seeds: Seq<<Src::Seed as DeepView>::V>,
    entry_heap: <A::Heap as DeepView>::V,
) -> Option<<A::Out as DeepView>::V> {
    let roots = grow_all(source, seeds);
    let graph = Grown { source };
    if all_grow_ok(source, seeds) && all_defined(alg, graph, roots) {
        match accumulate_all(alg, entry_heap, results_of(alg, graph, roots)) {
            Some(h) => Some(alg.finalize_spec(h)),
            None => None,
        }
    } else {
        None
    }
}

/// Every clone of a value of `T` stands for what the value stands for.
pub open spec fn clones_keep_view<T: Clone + DeepView>() -> bool {
    forall|a: T, b: T| #[trigger] cloned(a, b) ==> b.deep_view() == a.deep_view()
}

/// The number of slots in each of the two arenas of `hylic`'s funnel
/// executor (64-slot segments, at most 4096 of them).
pub const FUNNEL_ARENA_SLOTS: u64 = 262144;

/// The sum of `per_node` of each node's number of children, over the run of
/// `graph` from `node` explored to `fuel` levels.
pub open spec fn run_sum<N: DeepView, G: Graph<N>>(graph: G, node: N::V, fuel: nat, per_node: spec_fn(nat) -> nat) -> nat
    decreases fuel, 0nat,
{
    if fuel == 0 {
        0
    } else {
        let cs = graph.children_spec(node);
        per_node(cs.len()) + forest_sum(graph, cs, (fuel - 1) as nat, per_node)
    }
}

/// `run_sum` summed over `nodes`.
pub open spec fn forest_sum<N: DeepView, G: Graph<N>>(
    graph: G,
    nodes: Seq<N::V>,
    fuel: nat,
    per_node: spec_fn(nat) -> nat,
) -> nat
    decreases fuel, nodes.len() + 1,
{
    if nodes.len() == 0 {
        0
    } else {
        run_sum(graph, nodes[0], fuel, per_node) + forest_sum(graph, nodes.drop_first(), fuel, per_node)
    }
}

/// One for a node with two or more children: it takes a chain in the
/// funnel's chain arena.
pub open spec fn branching(children: nat) -> nat {
    if children >= 2 { 1 } else { 0 }
}

/// One for a node with exactly one child: it stores its continuation in
/// the funnel's continuation arena.
pub open spec fn single_child(children: nat) -> nat {
    if children == 1 { 1 } else { 0 }
}

/// The tasks a node pushes: one for each child after the first.
pub open spec fn pushed(children: nat) -> nat {
    if children >= 2 { (children - 1) as nat } else { 0 }
}

/// The run of `alg` over `graph` from `root` is defined, and fits the
/// funnel's arenas: at most `FUNNEL_ARENA_SLOTS` of its nodes have two or
/// more children and at most as many have exactly one child. Any depth at
/// which the run is complete counts all of its nodes.
pub open spec fn fits_funnel<A: Algebra, G: Graph<A::Node>>(alg: A, graph: G, root: <A::Node as DeepView>::V) -> bool {
    exists|fuel: nat|
        #[trigger] cata(alg, graph, root, fuel) is Some
            && run_sum(graph, root, fuel, |c: nat| branching(c)) <= FUNNEL_ARENA_SLOTS
            && run_sum(graph, root, fuel, |c: nat| single_child(c)) <= FUNNEL_ARENA_SLOTS
}

/// As `fits_funnel`, and the tasks pushed in the run (one for each child
/// after the first) fit the shared queue's `FUNNEL_ARENA_SLOTS` positions.
pub open spec fn fits_funnel_shared<A: Algebra, G: Graph<A::Node>>(
    alg: A,
    graph: G,
    root: <A::Node as DeepView>::V,
) -> bool {
    exists|fuel: nat|
        #[trigger] cata(alg, graph, root, fuel) is Some
            && run_sum(graph, root, fuel, |c: nat| branching(c)) <= FUNNEL_ARENA_SLOTS
            && run_sum(graph, root, fuel, |c: nat| single_child(c)) <= FUNNEL_ARENA_SLOTS
            && run_sum(graph, root, fuel, |c: nat| pushed(c)) <= FUNNEL_ARENA_SLOTS
}

/// Runs `hylic`'s sequential executor (`shared::FUSED.run`) on a fold whose
/// phases call `alg` and a treeish whose children come from `graph`; `alg`
/// is shared between the phases through an `Arc`, so no copy of it is
/// made.
/// Its contract claims that `FUSED.run` performs the recursion as `hylic`
/// writes it (`recurse` in its fused executor): init, then each child's
/// result accumulated in the order the treeish gives the children, then
/// finalize. That recursion clones no node.
#[verifier::external_body]
fn hylic_fused_run<A, G>(alg: A, graph: G, root: &A::Node) -> (res: A::Out)
    where
        A: Algebra + Send + Sync + 'static,
        G: Graph<A::Node> + Send + Sync + 'static,
    requires
        defined(alg, graph, root.deep_view()),
    ensures
        res.deep_view() == fold_result(alg, graph, root.deep_view()),
{
    let a = Arc::new(alg);
    let (a1, a2) = (a.clone(), a.clone());
    let fold = shared::fold(
        move |n: &A::Node| a1.init(n),
        move |h: &mut A::Heap, c: &A::Out| a2.accumulate(h, c),
        move |h: &A::Heap| a.finalize(h),
    );
    let tree = hylic::graph::treeish(move |n: &A::Node| graph.children(n));
    shared::FUSED.run(&fold, &tree, root)
}

/// Runs `hylic`'s sequential executor in the `Local` domain
/// (`local::FUSED.run`), whose fold and treeish hold their closures in `Rc`
/// and need not be `Send` or `Sync`.
/// Its contract claims the same recursion as `hylic_fused_run`: the fused
/// executor's `recurse` is one function for every domain.
#[verifier::external_body]
fn hylic_local_fused_run<A, G>(alg: A, graph: G, root: &A::Node) -> (res: A::Out)
    where
        A: Algebra + 'static,
        G: Graph<A::Node> + 'static,
    requires
        defined(alg, graph, root.deep_view()),
    ensures
        res.deep_view() == fold_result(alg, graph, root.deep_view()),
{
    let a = Arc::new(alg);
    let (a1, a2) = (a.clone(), a.clone());
    let fold = local::fold(
        move |n: &A::Node| a1.init(n),
        move |h: &mut A::Heap, c: &A::Out| a2.accumulate(h, c),
        move |h: &A::Heap| a.finalize(h),
    );
    let tree = local::edgy::treeish(move |n: &A::Node| graph.children(n));
    local::FUSED.run(&fold, &tree, root)
}

/// Runs `hylic`'s sequential executor in the `Owned` domain
/// (`owned::FUSED.run`), whose fold and treeish hold their closures in
/// `Box`.
/// Its contract claims the same recursion as `hylic_fused_run`.
#[verifier::external_body]
fn hylic_owned_fused_run<A, G>(alg: A, graph: G, root: &A::Node) -> (res: A::Out)
    where
        A: Algebra + 'static,
        G: Graph<A::Node> + 'static,
    requires
        defined(alg, graph, root.deep_view()),
    ensures
        res.deep_view() == fold_result(alg, graph, root.deep_view()),
{
    let a = Arc::new(alg);
    let (a1, a2) = (a.clone(), a.clone());
    let fold = owned::fold(
        move |n: &A::Node| a1.init(n),
        move |h: &mut A::Heap, c: &A::Out| a2.accumulate(h, c),
        move |h: &A::Heap| a.finalize(h),
    );
    let tree = owned::edgy::treeish(move |n: &A::Node| graph.children(n));
    owned::FUSED.run(&fold, &tree, root)
}

/// Runs `hylic`'s funnel executor with the default policy and no worker
/// threads (`exec(funnel::Spec::default(0)).run`), on the same fold and
/// treeish as `hylic_fused_run`: the calling thread walks the tree in
/// continuation-passing style, pushing every child after the first as a
/// task onto its own queue and running the tasks from it.
/// Its contract claims the result of the sequential recursion: each child's
/// result is stored in the child's slot and the slots are accumulated in
/// order (`bulk_finalize`). With no worker threads, every task is either on
/// the caller's queue or running on the caller, so none of the executor's
/// spin limits can be reached; the `requires` leaves out the runs that
/// would overflow its two arenas. The funnel clones nodes.
#[verifier::external_body]
fn hylic_funnel_run<A, G>(alg: A, graph: G, root: &A::Node) -> (res: A::Out)
    where
        A: Algebra + Send + Sync + 'static,
        G: Graph<A::Node> + Send + Sync + 'static,
        A::Node: Clone + Send + 'static,
        A::Out: Send + 'static,
    requires
        fits_funnel(alg, graph, root.deep_view()),
        clones_keep_view::<A::Node>(),
    ensures
        res.deep_view() == fold_result(alg, graph, root.deep_view()),
{
    let a = Arc::new(alg);
    let (a1, a2) = (a.clone(), a.clone());
    let fold = shared::fold(
        move |n: &A::Node| a1.init(n),
        move |h: &mut A::Heap, c: &A::Out| a2.accumulate(h, c),
        move |h: &A::Heap| a.finalize(h),
    );
    let tree = hylic::graph::treeish(move |n: &A::Node| graph.children(n));
    shared::exec(funnel::Spec::default(0)).run(&fold, &tree, root)
}

/// Runs `hylic`'s funnel executor with the wide-light policy and no worker
/// threads (`exec(funnel::Spec::for_wide_light(0)).run`: one shared queue,
/// child results swept into the heap as they arrive).
/// Its contract claims the result of the sequential recursion: only the
/// filled slots at the front of a chain are swept (`try_sweep`), so
/// children are accumulated in order. What `hylic_funnel_run` says of
/// spin limits, arenas and clones holds here too; the shared queue takes a
/// new position for every task pushed in the run (at most
/// `FUNNEL_ARENA_SLOTS`), which the `requires` bounds as well.
#[verifier::external_body]
fn hylic_funnel_wide_light_run<A, G>(alg: A, graph: G, root: &A::Node) -> (res: A::Out)
    where
        A: Algebra + Send + Sync + 'static,
        G: Graph<A::Node> + Send + Sync + 'static,
        A::Node: Clone + Send + 'static,
        A::Out: Send + 'static,
    requires
        fits_funnel_shared(alg, graph, root.deep_view()),
        clones_keep_view::<A::Node>(),
    ensures
        res.deep_view() == fold_result(alg, graph, root.deep_view()),
{
    let a = Arc::new(alg);
    let (a1, a2) = (a.clone(), a.clone());
    let fold = shared::fold(
        move |n: &A::Node| a1.init(n),
        move |h: &mut A::Heap, c: &A::Out| a2.accumulate(h, c),
        move |h: &A::Heap| a.finalize(h),
    );
    let tree = hylic::graph::treeish(move |n: &A::Node| graph.children(n));
    shared::exec(funnel::Spec::for_wide_light(0)).run(&fold, &tree, root)
}

/// A key under which a graph's children are cached. The cache compares
/// keys with their `Eq` and `Hash`; the memoized run relies on these
/// agreeing with the keys' views (two keys are equal exactly when their
/// views are), as they do for `String` and the integer types.
pub trait NodeKey<N: DeepView> {
    type Key: DeepView + core::hash::Hash + Eq + Send + Sync + 'static;

    spec fn key_spec(&self, node: N::V) -> <Self::Key as DeepView>::V;

    fn key(&self, node: &N) -> (k: Self::Key)
        ensures
            k.deep_view() == self.key_spec(node.deep_view()),
    ;
}

/// `within` holds of `root` and of each child of an expandable node it
/// holds of, and among the expandable nodes it holds of, nodes with one key
/// have the same children in `graph`.
pub open spec fn key_determines_children_within<N: DeepView, G: Graph<N>, K: NodeKey<N>>(
    graph: G,
    key: K,
    within: spec_fn(N::V) -> bool,
    root: N::V,
) -> bool {
    &&& within(root)
    &&& forall|n: N::V, i: int|
        within(n) && graph.expandable(n) && 0 <= i < graph.children_spec(n).len() ==> within(
            #[trigger] graph.children_spec(n)[i],
        )
    &&& forall|a: N::V, b: N::V|
        within(a) && within(b) && graph.expandable(a) && graph.expandable(b) && #[trigger] key.key_spec(a)
            == #[trigger] key.key_spec(b) ==> graph.children_spec(a) == graph.children_spec(b)
}

/// In a run of `graph` from `root`, nodes with one key have the same
/// children: some property holds of every node the run reaches and makes
/// the key determine the children. Children cached under a key then serve
/// every node of the run with that key.
pub open spec fn key_determines_children<N: DeepView, G: Graph<N>, K: NodeKey<N>>(graph: G, key: K, root: N::V) -> bool {
    exists|within: spec_fn(N::V) -> bool| key_determines_children_within(graph, key, within, root)
}

/// Runs `hylic`'s sequential executor over the treeish of `graph` wrapped
/// by `hylic`'s `memoize_treeish_by`, keyed by `key`: the children of a
/// node are computed once per key, kept in a `HashMap` and cloned from it
/// afterwards.
/// Its contract claims the result of the plain recursion, given that a key
/// determines the children in the run, that clones of nodes stand for the
/// same nodes, and that the key type obeys `vstd`'s hash-table key model
/// (hashing is deterministic and `==` is identity), so that a cache hit is
/// a key with the same view. The number of calls saved is left unsaid.
#[verifier::external_body]
fn hylic_memoized_run<A, G, K>(alg: A, graph: G, key: K, root: &A::Node) -> (res: A::Out)
    where
        A: Algebra + Send + Sync + 'static,
        G: Graph<A::Node> + Send + Sync + 'static,
        K: NodeKey<A::Node> + Send + Sync + 'static,
        A::Node: Clone + Send + Sync + 'static,
    requires
        defined(alg, graph, root.deep_view()),
        key_determines_children(graph, key, root.deep_view()),
        clones_keep_view::<A::Node>(),
        obeys_key_model::<K::Key>(),
    ensures
        res.deep_view() == fold_result(alg, graph, root.deep_view()),
{
    let a = Arc::new(alg);
    let (a1, a2) = (a.clone(), a.clone());
    let fold = shared::fold(
        move |n: &A::Node| a1.init(n),
        move |h: &mut A::Heap, c: &A::Out| a2.accumulate(h, c),
        move |h: &A::Heap| a.finalize(h),
    );
    let tree = hylic::graph::treeish(move |n: &A::Node| graph.children(n));
    let cached = hylic::prelude::memoize_treeish_by(&tree, move |n: &A::Node| key.key(n));
    shared::FUSED.run(&fold, &cached, root)
}

/// Runs `hylic-pipeline`'s `SeedPipeline::run_from_slice` with the
/// sequential executor: `grow` and the seed edges call `source`, the fold
/// calls `alg`, both shared through an `Arc`.
/// Its contract claims what the pipeline does (`SeedLift::apply`): an entry
/// node whose heap is a clone of `entry_heap` and whose children are the
/// grown root seeds, each grown node's children being its seeds, grown;
/// the result is that entry node's. The pipeline clones seeds, nodes and
/// the entry heap; the contract asks that those clones stand for the same
/// values.
#[verifier::external_body]
fn hylic_seeded_run<A, Src>(alg: A, source: Src, seeds: &[Src::Seed], entry_heap: A::Heap) -> (res: A::Out)
    where
        A: Algebra + Send + Sync + 'static,
        Src: SeedSource<A::Node> + Send + Sync + 'static,
        Src::Seed: Clone + Send + Sync + 'static,
        A::Node: Clone + Send + Sync + 'static,
        A::Heap: Clone + Send + Sync + 'static,
        A::Out: Clone + Send + Sync + 'static,
    requires
        seeded_result(alg, source, seeds.deep_view(), entry_heap.deep_view()) is Some,
        clones_keep_view::<Src::Seed>(),
        clones_keep_view::<A::Node>(),
        clones_keep_view::<A::Heap>(),
    ensures
        Some(res.deep_view()) == seeded_result(alg, source, seeds.deep_view(), entry_heap.deep_view()),
{
    let (a, s) = (Arc::new(alg), Arc::new(source));
    let (a1, a2, s1) = (a.clone(), a.clone(), s.clone());
    let fold = shared::fold(
        move |n: &A::Node| a1.init(n),
        move |h: &mut A::Heap, c: &A::Out| a2.accumulate(h, c),
        move |h: &A::Heap| a.finalize(h),
    );
    let edges = hylic::graph::edgy(move |n: &A::Node| s1.seeds(n));
    let pipeline = SeedPipeline::new(move |x: &Src::Seed| s.grow(x), edges, &fold);
    pipeline.run_from_slice(&shared::FUSED, seeds, entry_heap)
}

/// Runs `alg` over the tree that `graph` unfolds from `root`, sequentially.
pub fn fused<A, G>(alg: A, graph: G, root: &A::Node) -> (res: A::Out)
    where
        A: Algebra + Send + Sync + 'static,
        G: Graph<A::Node> + Send + Sync + 'static,
    requires
        defined(alg, graph, root.deep_view()),
    ensures
        res.deep_view() == fold_result(alg, graph, root.deep_view()),
{
    hylic_fused_run(alg, graph, root)
}

/// Runs `alg` sequentially in the `Local` domain, where the fold and the
/// graph need not be shared between threads; a domain only chooses how
/// closures are stored, so the result is the one `fused` gives.
pub fn fused_local<A, G>(alg: A, graph: G, root: &A::Node) -> (res: A::Out)
    where
        A: Algebra + 'static,
        G: Graph<A::Node> + 'static,
    requires
        defined(alg, graph, root.deep_view()),
    ensures
        res.deep_view() == fold_result(alg, graph, root.deep_view()),
{
    hylic_local_fused_run(alg, graph, root)
}

/// Runs `alg` sequentially in the `Owned` domain, with a fold built for
/// this one run; the result is the one `fused` gives.
pub fn fused_owned<A, G>(alg: A, graph: G, root: &A::Node) -> (res: A::Out)
    where
        A: Algebra + 'static,
        G: Graph<A::Node> + 'static,
    requires
        defined(alg, graph, root.deep_view()),
    ensures
        res.deep_view() == fold_result(alg, graph, root.deep_view()),
{
    hylic_owned_fused_run(alg, graph, root)
}

/// Runs `alg` with `hylic`'s funnel executor on the calling thread alone;
/// the result is the sequential one. The run must fit the funnel's arenas,
/// and clones of nodes must stand for the same nodes.
pub fn funnel<A, G>(alg: A, graph: G, root: &A::Node) -> (res: A::Out)
    where
        A: Algebra + Send + Sync + 'static,
        G: Graph<A::Node> + Send + Sync + 'static,
        A::Node: Clone + Send + 'static,
        A::Out: Send + 'static,
    requires
        fits_funnel(alg, graph, root.deep_view()),
        clones_keep_view::<A::Node>(),
    ensures
        res.deep_view() == fold_result(alg, graph, root.deep_view()),
{
    hylic_funnel_run(alg, graph, root)
}

/// Runs `alg` with `hylic`'s funnel executor and its wide-light policy (one
/// shared queue, results accumulated as they arrive) on the calling thread
/// alone; the result is the sequential one.
pub fn funnel_wide_light<A, G>(alg: A, graph: G, root: &A::Node) -> (res: A::Out)
    where
        A: Algebra + Send + Sync + 'static,
        G: Graph<A::Node> + Send + Sync + 'static,
        A::Node: Clone + Send + 'static,
        A::Out: Send + 'static,
    requires
        fits_funnel_shared(alg, graph, root.deep_view()),
        clones_keep_view::<A::Node>(),
    ensures
        res.deep_view() == fold_result(alg, graph, root.deep_view()),
{
    hylic_funnel_wide_light_run(alg, graph, root)
}

/// Runs `alg` over the forest grown from `seeds` by `source`, folding the
/// roots' results into `entry_heap`.
pub fn seeded<A, Src>(alg: A, source: Src, seeds: &[Src::Seed], entry_heap: A::Heap) -> (res: A::Out)
    where
        A: Algebra + Send + Sync + 'static,
        Src: SeedSource<A::Node> + Send + Sync + 'static,
        Src::Seed: Clone + Send + Sync + 'static,
        A::Node: Clone + Send + Sync + 'static,
        A::Heap: Clone + Send + Sync + 'static,
        A::Out: Clone + Send + Sync + 'static,
    requires
        seeded_result(alg, source, seeds.deep_view(), entry_heap.deep_view()) is Some,
        clones_keep_view::<Src::Seed>(),
        clones_keep_view::<A::Node>(),
        clones_keep_view::<A::Heap>(),
    ensures
        Some(res.deep_view()) == seeded_result(alg, source, seeds.deep_view(), entry_heap.deep_view()),
{
    hylic_seeded_run(alg, source, seeds, entry_heap)
}

/// Runs `alg` over the tree that `graph` unfolds from `root`, asking the
/// graph for the children of each key only once; the result is the plain
/// one, since a key determines the children.
pub fn fused_memoized<A, G, K>(alg: A, graph: G, key: K, root: &A::Node) -> (res: A::Out)
    where
        A: Algebra + Send + Sync + 'static,
        G: Graph<A::Node> + Send + Sync + 'static,
        K: NodeKey<A::Node> + Send + Sync + 'static,
        A::Node: Clone + Send + Sync + 'static,
    requires
        defined(alg, graph, root.deep_view()),
        key_determines_children(graph, key, root.deep_view()),
        clones_keep_view::<A::Node>(),
        obeys_key_model::<K::Key>(),
    ensures
        res.deep_view() == fold_result(alg, graph, root.deep_view()),
{
    hylic_memoized_run(alg, graph, key, root)
}

} // verus!
