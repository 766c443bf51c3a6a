//! Ready-made folds (sums and maxima of weights, node counts, depth) and
//! what each computes over a stored tree.
use vstd::prelude::*;
use core::marker::PhantomData;
use crate::exec::fused;
use crate::recursion::{
    Algebra, Graph, cata, fold_children, defined, fold_result, accumulate_all, results_of, all_defined,
    law_recursion_step, lemma_fold_result,
};
use crate::tree::{Tree, TreeModel, Replicate, Children};

verus! {

/// Nodes that carry a number to add up (a size, a cost, a value).
pub trait Weighted: DeepView {
    spec fn weight_of(node: Self::V) -> u64;

    fn weight(&self) -> (w: u64)
        ensures
            w == Self::weight_of(self.deep_view()),
    ;
}

impl Weighted for u64 {
    open spec fn weight_of(node: u64) -> u64 {
        node
    }

    fn weight(&self) -> (w: u64) {
        *self
    }
}

impl<T: Weighted> Weighted for Tree<T> {
    open spec fn weight_of(node: TreeModel<T::V>) -> u64 {
        T::weight_of(node.value)
    }

    fn weight(&self) -> (w: u64) {
        self.value.weight()
    }
}

/// A named payload with a number: a directory and its size, a build step
/// and its cost.
#[derive(Clone)]
pub struct Entry {
    pub name: String,
    pub weight: u64,
}

impl DeepView for Entry {
    type V = (Seq<char>, u64);

    open spec fn deep_view(&self) -> (Seq<char>, u64) {
        (self.name@, self.weight)
    }
}

impl Entry {
    pub fn new(name: &str, weight: u64) -> (e: Entry)
        ensures
            e.name@ == name@,
            e.weight == weight,
    {
        Entry { name: name.to_string(), weight }
    }
}

impl Replicate for Entry {
    fn replicate(&self) -> (r: Entry) {
        Entry { name: self.name.clone(), weight: self.weight }
    }
}

impl Weighted for Entry {
    open spec fn weight_of(node: (Seq<char>, u64)) -> u64 {
        node.1
    }

    fn weight(&self) -> (w: u64) {
        self.weight
    }
}

/// Sums the weights of all nodes: each node starts from its own weight and
/// adds its children's sums.
pub struct SumWeights<N> {
    pub node: PhantomData<N>,
}

impl<N> SumWeights<N> {
    pub fn new() -> (f: SumWeights<N>)
        ensures
            f == (SumWeights::<N> { node: PhantomData }),
    {
        SumWeights { node: PhantomData }
    }
}

impl<N> Clone for SumWeights<N> {
    fn clone(&self) -> (r: Self)
        ensures
            r == *self,
    {
        SumWeights { node: PhantomData }
    }
}

impl<N: Weighted> Algebra for SumWeights<N> {
    type Node = N;
    type Heap = u64;
    type Out = u64;

    open spec fn init_ok(&self, node: N::V) -> bool {
        true
    }

    open spec fn init_spec(&self, node: N::V) -> u64 {
        N::weight_of(node)
    }

    open spec fn accumulate_ok(&self, heap: u64, child: u64) -> bool {
        heap + child <= u64::MAX
    }

    open spec fn accumulate_spec(&self, heap: u64, child: u64) -> u64 {
        (heap + child) as u64
    }

    open spec fn finalize_spec(&self, heap: u64) -> u64 {
        heap
    }

    fn init(&self, node: &N) -> (heap: u64) {
        node.weight()
    }

    fn accumulate(&self, heap: &mut u64, child: &u64) {
        *heap = *heap + *child;
    }

    fn finalize(&self, heap: &u64) -> (res: u64) {
        *heap
    }
}

/// The heaviest single node on the way down: each node keeps the largest of
/// its own weight and its children's results.
pub struct MaxWeight<N> {
    pub node: PhantomData<N>,
}

impl<N> MaxWeight<N> {
    pub fn new() -> (f: MaxWeight<N>)
        ensures
            f == (MaxWeight::<N> { node: PhantomData }),
    {
        MaxWeight { node: PhantomData }
    }
}

impl<N> Clone for MaxWeight<N> {
    fn clone(&self) -> (r: Self)
        ensures
            r == *self,
    {
        MaxWeight { node: PhantomData }
    }
}

pub open spec fn max_u64(a: u64, b: u64) -> u64 {
    if a >= b {
        a
    } else {
        b
    }
}

impl<N: Weighted> Algebra for MaxWeight<N> {
    type Node = N;
    type Heap = u64;
    type Out = u64;

    open spec fn init_ok(&self, node: N::V) -> bool {
        true
    }

    open spec fn init_spec(&self, node: N::V) -> u64 {
        N::weight_of(node)
    }

    open spec fn accumulate_ok(&self, heap: u64, child: u64) -> bool {
        true
    }

    open spec fn accumulate_spec(&self, heap: u64, child: u64) -> u64 {
        max_u64(heap, child)
    }

    open spec fn finalize_spec(&self, heap: u64) -> u64 {
        heap
    }

    fn init(&self, node: &N) -> (heap: u64) {
        node.weight()
    }

    fn accumulate(&self, heap: &mut u64, child: &u64) {
        if *child > *heap {
            *heap = *child;
        }
    }

    fn finalize(&self, heap: &u64) -> (res: u64) {
        *heap
    }
}

/// Counts the nodes of the tree.
pub struct CountNodes<N> {
    pub node: PhantomData<N>,
}

impl<N> CountNodes<N> {
    pub fn new() -> (f: CountNodes<N>)
        ensures
            f == (CountNodes::<N> { node: PhantomData }),
    {
        CountNodes { node: PhantomData }
    }
}

impl<N> Clone for CountNodes<N> {
    fn clone(&self) -> (r: Self)
        ensures
            r == *self,
    {
        CountNodes { node: PhantomData }
    }
}

impl<N: DeepView> Algebra for CountNodes<N> {
    type Node = N;
    type Heap = usize;
    type Out = usize;

    open spec fn init_ok(&self, node: N::V) -> bool {
        true
    }

    open spec fn init_spec(&self, node: N::V) -> usize {
        1
    }

    open spec fn accumulate_ok(&self, heap: usize, child: usize) -> bool {
        heap + child <= usize::MAX
    }

    open spec fn accumulate_spec(&self, heap: usize, child: usize) -> usize {
        (heap + child) as usize
    }

    open spec fn finalize_spec(&self, heap: usize) -> usize {
        heap
    }

    fn init(&self, node: &N) -> (heap: usize) {
        1
    }

    fn accumulate(&self, heap: &mut usize, child: &usize) {
        *heap = *heap + *child;
    }

    fn finalize(&self, heap: &usize) -> (res: usize) {
        *heap
    }
}

/// The depth of the tree, the root counting as 1.
pub struct Depth<N> {
    pub node: PhantomData<N>,
}

impl<N> Depth<N> {
    pub fn new() -> (f: Depth<N>)
        ensures
            f == (Depth::<N> { node: PhantomData }),
    {
        Depth { node: PhantomData }
    }
}

impl<N> Clone for Depth<N> {
    fn clone(&self) -> (r: Self)
        ensures
            r == *self,
    {
        Depth { node: PhantomData }
    }
}

pub open spec fn max_usize(a: usize, b: usize) -> usize {
    if a >= b {
        a
    } else {
        b
    }
}

impl<N: DeepView> Algebra for Depth<N> {
    type Node = N;
    type Heap = usize;
    type Out = usize;

    open spec fn init_ok(&self, node: N::V) -> bool {
        true
    }

    open spec fn init_spec(&self, node: N::V) -> usize {
        1
    }

    open spec fn accumulate_ok(&self, heap: usize, child: usize) -> bool {
        child + 1 <= usize::MAX
    }

    open spec fn accumulate_spec(&self, heap: usize, child: usize) -> usize {
        max_usize(heap, (child + 1) as usize)
    }

    open spec fn finalize_spec(&self, heap: usize) -> usize {
        heap
    }

    fn init(&self, node: &N) -> (heap: usize) {
        1
    }

    fn accumulate(&self, heap: &mut usize, child: &usize) {
        let d = *child + 1;
        if d > *heap {
            *heap = d;
        }
    }

    fn finalize(&self, heap: &usize) -> (res: usize) {
        *heap
    }
}


/// The sum of the weights of all nodes of a stored tree.
pub open spec fn total_weight<T: Weighted>(m: TreeModel<T::V>) -> int
    decreases m, 1nat,
{
    T::weight_of(m.value) + forest_weight::<T>(m.children)
}

/// The sum of the weights of all nodes of a sequence of stored trees.
pub open spec fn forest_weight<T: Weighted>(ms: Seq<TreeModel<T::V>>) -> int
    decreases ms, 0nat,
{
    if ms.len() == 0 {
        0
    } else {
        total_weight::<T>(ms[0]) + forest_weight::<T>(ms.drop_first())
    }
}

proof fn lemma_total_nonneg<T: Weighted>(m: TreeModel<T::V>)
    ensures
        total_weight::<T>(m) >= 0,
    decreases m, 1nat,
{
    lemma_weights_nonneg::<T>(m.children);
}

proof fn lemma_weights_nonneg<T: Weighted>(ms: Seq<TreeModel<T::V>>)
    ensures
        forest_weight::<T>(ms) >= 0,
        forall|i: int| 0 <= i < ms.len() ==> 0 <= #[trigger] total_weight::<T>(ms[i]) <= forest_weight::<T>(ms),
    decreases ms, 0nat,
{
    if ms.len() > 0 {
        let rest = ms.drop_first();
        lemma_total_nonneg::<T>(ms[0]);
        lemma_weights_nonneg::<T>(rest);
        assert forall|i: int| 0 <= i < ms.len() implies 0 <= #[trigger] total_weight::<T>(ms[i]) <= forest_weight::<T>(ms) by {
            if i > 0 {
                assert(ms[i] == rest[i - 1]);
            }
        }
    }
}

proof fn lemma_sum_tree<T: Weighted + Replicate>(m: TreeModel<T::V>)
    requires
        total_weight::<T>(m) <= u64::MAX,
    ensures
        defined(SumWeights::<Tree<T>> { node: PhantomData }, Children, m),
        fold_result(SumWeights::<Tree<T>> { node: PhantomData }, Children, m) == total_weight::<T>(m),
    decreases m, 1nat,
{
    let alg = SumWeights::<Tree<T>> { node: PhantomData };
    lemma_weights_nonneg::<T>(m.children);
    lemma_sum_forest::<T>(m.children, T::weight_of(m.value));
    law_recursion_step(alg, Children, m);
}

proof fn lemma_sum_forest<T: Weighted + Replicate>(ms: Seq<TreeModel<T::V>>, heap: u64)
    requires
        heap + forest_weight::<T>(ms) <= u64::MAX,
    ensures
        all_defined(SumWeights::<Tree<T>> { node: PhantomData }, Children, ms),
        accumulate_all(
            SumWeights::<Tree<T>> { node: PhantomData },
            heap,
            results_of(SumWeights::<Tree<T>> { node: PhantomData }, Children, ms),
        ) == Some((heap + forest_weight::<T>(ms)) as u64),
    decreases ms, 0nat,
{
    let alg = SumWeights::<Tree<T>> { node: PhantomData };
    if ms.len() > 0 {
        let rest = ms.drop_first();
        lemma_weights_nonneg::<T>(ms);
        lemma_weights_nonneg::<T>(rest);
        lemma_sum_tree::<T>(ms[0]);
        let h2 = (heap + total_weight::<T>(ms[0])) as u64;
        lemma_sum_forest::<T>(rest, h2);
        assert(results_of(alg, Children, ms).drop_first() =~= results_of(alg, Children, rest));
        assert forall|i: int| 0 <= i < ms.len() implies #[trigger] defined(alg, Children, ms[i]) by {
            if i > 0 {
                assert(ms[i] == rest[i - 1]);
            }
        }
    }
}

/// Summing the weights over a stored tree gives the total weight of its
/// nodes, whenever that total fits in a `u64`.
pub proof fn law_sum_weights<T: Weighted + Replicate>(m: TreeModel<T::V>)
    requires
        total_weight::<T>(m) <= u64::MAX,
    ensures
        defined(SumWeights::<Tree<T>> { node: PhantomData }, Children, m),
        fold_result(SumWeights::<Tree<T>> { node: PhantomData }, Children, m) == total_weight::<T>(m),
{
    lemma_sum_tree::<T>(m);
}


/// The total weight of the nodes of `tree`, by folding it.
pub fn sum_tree<T: Weighted + Replicate + Send + Sync + 'static>(tree: &Tree<T>) -> (r: u64)
    requires
        total_weight::<T>(tree.deep_view()) <= u64::MAX,
    ensures
        r == total_weight::<T>(tree.deep_view()),
{
    proof {
        law_sum_weights::<T>(tree.deep_view());
    }
    fused(SumWeights::<Tree<T>>::new(), Children, tree)
}


/// The number of nodes of a stored tree.
pub open spec fn size<V>(m: TreeModel<V>) -> int
    decreases m, 1nat,
{
    1 + forest_size::<V>(m.children)
}

/// The number of nodes of a sequence of stored trees.
pub open spec fn forest_size<V>(ms: Seq<TreeModel<V>>) -> int
    decreases ms, 0nat,
{
    if ms.len() == 0 {
        0
    } else {
        size::<V>(ms[0]) + forest_size::<V>(ms.drop_first())
    }
}

proof fn lemma_sizes_nonneg<V>(ms: Seq<TreeModel<V>>)
    ensures
        forest_size::<V>(ms) >= 0,
        forall|i: int| 0 <= i < ms.len() ==> 1 <= #[trigger] size::<V>(ms[i]) <= forest_size::<V>(ms),
    decreases ms, 0nat,
{
    if ms.len() > 0 {
        let rest = ms.drop_first();
        lemma_sizes_nonneg::<V>(ms[0].children);
        lemma_sizes_nonneg::<V>(rest);
        assert(size::<V>(ms[0]) == 1 + forest_size::<V>(ms[0].children));
        assert forall|i: int| 0 <= i < ms.len() implies 1 <= #[trigger] size::<V>(ms[i]) <= forest_size::<V>(ms) by {
            if i > 0 {
                assert(ms[i] == rest[i - 1]);
            }
        }
    }
}

proof fn lemma_count_tree<T: Replicate>(m: TreeModel<T::V>)
    requires
        size::<T::V>(m) <= usize::MAX,
    ensures
        defined(CountNodes::<Tree<T>> { node: PhantomData }, Children, m),
        fold_result(CountNodes::<Tree<T>> { node: PhantomData }, Children, m) == size::<T::V>(m),
    decreases m, 1nat,
{
    lemma_sizes_nonneg::<T::V>(m.children);
    lemma_count_forest::<T>(m.children, 1);
    law_recursion_step(CountNodes::<Tree<T>> { node: PhantomData }, Children, m);
}

proof fn lemma_count_forest<T: Replicate>(ms: Seq<TreeModel<T::V>>, heap: usize)
    requires
        heap + forest_size::<T::V>(ms) <= usize::MAX,
    ensures
        all_defined(CountNodes::<Tree<T>> { node: PhantomData }, Children, ms),
        accumulate_all(
            CountNodes::<Tree<T>> { node: PhantomData },
            heap,
            results_of(CountNodes::<Tree<T>> { node: PhantomData }, Children, ms),
        ) == Some((heap + forest_size::<T::V>(ms)) as usize),
    decreases ms, 0nat,
{
    let alg = CountNodes::<Tree<T>> { node: PhantomData };
    if ms.len() > 0 {
        let rest = ms.drop_first();
        lemma_sizes_nonneg::<T::V>(ms);
        lemma_sizes_nonneg::<T::V>(rest);
        lemma_count_tree::<T>(ms[0]);
        let h2 = (heap + size::<T::V>(ms[0])) as usize;
        lemma_count_forest::<T>(rest, h2);
        assert(results_of(alg, Children, ms).drop_first() =~= results_of(alg, Children, rest));
        assert forall|i: int| 0 <= i < ms.len() implies #[trigger] defined(alg, Children, ms[i]) by {
            if i > 0 {
                assert(ms[i] == rest[i - 1]);
            }
        }
    }
}

/// Counting the nodes of a stored tree gives its number of nodes, whenever
/// that number fits a `usize`.
pub proof fn law_count_nodes<T: Replicate>(m: TreeModel<T::V>)
    requires
        size::<T::V>(m) <= usize::MAX,
    ensures
        defined(CountNodes::<Tree<T>> { node: PhantomData }, Children, m),
        fold_result(CountNodes::<Tree<T>> { node: PhantomData }, Children, m) == size::<T::V>(m),
{
    lemma_count_tree::<T>(m);
}

/// The number of nodes in the run of `graph` from `node`, explored to
/// `fuel` levels.
pub open spec fn run_size<N: DeepView, G: Graph<N>>(graph: G, node: N::V, fuel: nat) -> nat
    decreases fuel, 0nat,
{
    if fuel == 0 {
        0
    } else {
        1 + forest_run_size(graph, graph.children_spec(node), (fuel - 1) as nat)
    }
}

/// `run_size` summed over `nodes`.
pub open spec fn forest_run_size<N: DeepView, G: Graph<N>>(graph: G, nodes: Seq<N::V>, fuel: nat) -> nat
    decreases fuel, nodes.len() + 1,
{
    if nodes.len() == 0 {
        0
    } else {
        run_size(graph, nodes[0], fuel) + forest_run_size(graph, nodes.drop_first(), fuel)
    }
}

proof fn lemma_count_cata<A: Algebra, G: Graph<A::Node>>(
    alg: A,
    graph: G,
    node: <A::Node as DeepView>::V,
    fuel: nat,
)
    requires
        cata(alg, graph, node, fuel) is Some,
        run_size(graph, node, fuel) <= usize::MAX,
    ensures
        cata(CountNodes::<A::Node> { node: PhantomData }, graph, node, fuel) == Some(
            run_size(graph, node, fuel) as usize,
        ),
    decreases fuel, 0nat,
{
    lemma_count_fold_children(
        alg,
        graph,
        alg.init_spec(node),
        1,
        graph.children_spec(node),
        (fuel - 1) as nat,
    );
}

proof fn lemma_count_fold_children<A: Algebra, G: Graph<A::Node>>(
    alg: A,
    graph: G,
    heap: <A::Heap as DeepView>::V,
    count: usize,
    children: Seq<<A::Node as DeepView>::V>,
    fuel: nat,
)
    requires
        fold_children(alg, graph, heap, children, fuel) is Some,
        count + forest_run_size(graph, children, fuel) <= usize::MAX,
    ensures
        fold_children(CountNodes::<A::Node> { node: PhantomData }, graph, count, children, fuel) == Some(
            (count + forest_run_size(graph, children, fuel)) as usize,
        ),
    decreases fuel, children.len() + 1,
{
    if children.len() > 0 {
        let r = cata(alg, graph, children[0], fuel).unwrap();
        lemma_count_cata(alg, graph, children[0], fuel);
        let size0 = run_size(graph, children[0], fuel);
        lemma_count_fold_children(
            alg,
            graph,
            alg.accumulate_spec(heap, r),
            (count + size0) as usize,
            children.drop_first(),
            fuel,
        );
    }
}

/// Counting nodes is defined wherever some fold's run is complete within
/// `fuel` levels and the run's number of nodes fits a `usize`; the count is
/// that number.
pub proof fn law_count_run<A: Algebra, G: Graph<A::Node>>(
    alg: A,
    graph: G,
    node: <A::Node as DeepView>::V,
    fuel: nat,
)
    requires
        cata(alg, graph, node, fuel) is Some,
        run_size(graph, node, fuel) <= usize::MAX,
    ensures
        defined(CountNodes::<A::Node> { node: PhantomData }, graph, node),
        fold_result(CountNodes::<A::Node> { node: PhantomData }, graph, node) == run_size(graph, node, fuel),
{
    lemma_count_cata(alg, graph, node, fuel);
    lemma_fold_result(CountNodes::<A::Node> { node: PhantomData }, graph, node, fuel);
}

/// The largest weight of a node of a stored tree.
pub open spec fn max_weight<T: Weighted>(m: TreeModel<T::V>) -> u64
    decreases m, 1nat,
{
    forest_max::<T>(T::weight_of(m.value), m.children)
}

/// The largest of `acc` and the weights in a sequence of stored trees.
pub open spec fn forest_max<T: Weighted>(acc: u64, ms: Seq<TreeModel<T::V>>) -> u64
    decreases ms, 0nat,
{
    if ms.len() == 0 {
        acc
    } else {
        forest_max::<T>(max_u64(acc, max_weight::<T>(ms[0])), ms.drop_first())
    }
}

proof fn lemma_max_tree<T: Weighted + Replicate>(m: TreeModel<T::V>)
    ensures
        defined(MaxWeight::<Tree<T>> { node: PhantomData }, Children, m),
        fold_result(MaxWeight::<Tree<T>> { node: PhantomData }, Children, m) == max_weight::<T>(m),
    decreases m, 1nat,
{
    lemma_max_forest::<T>(m.children, T::weight_of(m.value));
    law_recursion_step(MaxWeight::<Tree<T>> { node: PhantomData }, Children, m);
}

proof fn lemma_max_forest<T: Weighted + Replicate>(ms: Seq<TreeModel<T::V>>, heap: u64)
    ensures
        all_defined(MaxWeight::<Tree<T>> { node: PhantomData }, Children, ms),
        accumulate_all(
            MaxWeight::<Tree<T>> { node: PhantomData },
            heap,
            results_of(MaxWeight::<Tree<T>> { node: PhantomData }, Children, ms),
        ) == Some(forest_max::<T>(heap, ms)),
    decreases ms, 0nat,
{
    let alg = MaxWeight::<Tree<T>> { node: PhantomData };
    if ms.len() > 0 {
        let rest = ms.drop_first();
        lemma_max_tree::<T>(ms[0]);
        lemma_max_forest::<T>(rest, max_u64(heap, max_weight::<T>(ms[0])));
        assert(results_of(alg, Children, ms).drop_first() =~= results_of(alg, Children, rest));
        assert forall|i: int| 0 <= i < ms.len() implies #[trigger] defined(alg, Children, ms[i]) by {
            if i > 0 {
                assert(ms[i] == rest[i - 1]);
            }
        }
    }
}

/// Keeping the larger of the heap and each child's result gives the
/// largest weight of any node of a stored tree; it is always defined.
pub proof fn law_max_weight<T: Weighted + Replicate>(m: TreeModel<T::V>)
    ensures
        defined(MaxWeight::<Tree<T>> { node: PhantomData }, Children, m),
        fold_result(MaxWeight::<Tree<T>> { node: PhantomData }, Children, m) == max_weight::<T>(m),
{
    lemma_max_tree::<T>(m);
}

/// The number of nodes on a longest path from the root of a stored tree.
pub open spec fn height<V>(m: TreeModel<V>) -> int
    decreases m, 1nat,
{
    forest_height::<V>(1, m.children)
}

/// The largest of `acc` and one more than the heights in `ms`.
pub open spec fn forest_height<V>(acc: int, ms: Seq<TreeModel<V>>) -> int
    decreases ms, 0nat,
{
    if ms.len() == 0 {
        acc
    } else {
        let h = height::<V>(ms[0]) + 1;
        forest_height::<V>(if acc >= h { acc } else { h }, ms.drop_first())
    }
}

proof fn lemma_height_bounds<V>(m: TreeModel<V>)
    ensures
        height::<V>(m) >= 1,
    decreases m, 1nat,
{
    lemma_forest_height_bounds::<V>(1, m.children);
}

proof fn lemma_forest_height_bounds<V>(acc: int, ms: Seq<TreeModel<V>>)
    ensures
        forest_height::<V>(acc, ms) >= acc,
        forall|i: int| 0 <= i < ms.len() ==> #[trigger] height::<V>(ms[i]) + 1 <= forest_height::<V>(acc, ms),
    decreases ms, 0nat,
{
    if ms.len() > 0 {
        let rest = ms.drop_first();
        let h = height::<V>(ms[0]) + 1;
        let next = if acc >= h { acc } else { h };
        lemma_forest_height_bounds::<V>(next, rest);
        assert forall|i: int| 0 <= i < ms.len() implies #[trigger] height::<V>(ms[i]) + 1 <= forest_height::<V>(acc, ms) by {
            if i > 0 {
                assert(ms[i] == rest[i - 1]);
            }
        }
    }
}

proof fn lemma_depth_tree<T: Replicate>(m: TreeModel<T::V>)
    requires
        height::<T::V>(m) <= usize::MAX,
    ensures
        defined(Depth::<Tree<T>> { node: PhantomData }, Children, m),
        fold_result(Depth::<Tree<T>> { node: PhantomData }, Children, m) == height::<T::V>(m),
    decreases m, 1nat,
{
    lemma_forest_height_bounds::<T::V>(1, m.children);
    lemma_depth_forest::<T>(m.children, 1);
    law_recursion_step(Depth::<Tree<T>> { node: PhantomData }, Children, m);
}

proof fn lemma_depth_forest<T: Replicate>(ms: Seq<TreeModel<T::V>>, heap: usize)
    requires
        forest_height::<T::V>(heap as int, ms) <= usize::MAX,
    ensures
        all_defined(Depth::<Tree<T>> { node: PhantomData }, Children, ms),
        accumulate_all(
            Depth::<Tree<T>> { node: PhantomData },
            heap,
            results_of(Depth::<Tree<T>> { node: PhantomData }, Children, ms),
        ) == Some(forest_height::<T::V>(heap as int, ms) as usize),
    decreases ms, 0nat,
{
    let alg = Depth::<Tree<T>> { node: PhantomData };
    if ms.len() > 0 {
        let rest = ms.drop_first();
        lemma_forest_height_bounds::<T::V>(heap as int, ms);
        lemma_height_bounds::<T::V>(ms[0]);
        lemma_depth_tree::<T>(ms[0]);
        let h = height::<T::V>(ms[0]) + 1;
        let next = if heap as int >= h { heap as int } else { h };
        lemma_depth_forest::<T>(rest, next as usize);
        assert(results_of(alg, Children, ms).drop_first() =~= results_of(alg, Children, rest));
        assert forall|i: int| 0 <= i < ms.len() implies #[trigger] defined(alg, Children, ms[i]) by {
            if i > 0 {
                assert(ms[i] == rest[i - 1]);
            }
        }
    }
}

/// The depth fold gives the height of a stored tree (a leaf has depth 1),
/// whenever the height fits a `usize`.
pub proof fn law_depth<T: Replicate>(m: TreeModel<T::V>)
    requires
        height::<T::V>(m) <= usize::MAX,
    ensures
        defined(Depth::<Tree<T>> { node: PhantomData }, Children, m),
        fold_result(Depth::<Tree<T>> { node: PhantomData }, Children, m) == height::<T::V>(m),
{
    lemma_depth_tree::<T>(m);
}

} // verus!
