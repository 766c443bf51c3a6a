//! The recursive pattern: fold algebras, graphs, and the meaning of
//! running one over the other.
use vstd::prelude::*;

verus! {

/// What to compute at each node: `init` makes a heap from the node,
/// `accumulate` folds one child's result into the heap, `finalize` turns
/// the heap into the node's result.
pub trait Algebra {
    type Node: DeepView;
    type Heap: DeepView;
    type Out: DeepView;

    /// Whether `init` may run on this node.
    spec fn init_ok(&self, node: <Self::Node as DeepView>::V) -> bool;

    spec fn init_spec(&self, node: <Self::Node as DeepView>::V) -> <Self::Heap as DeepView>::V;

    /// Whether `accumulate` may run on this heap and child result
    /// (for instance: the sum fits in the machine integer).
    spec fn accumulate_ok(&self, heap: <Self::Heap as DeepView>::V, child: <Self::Out as DeepView>::V) -> bool;

    spec fn accumulate_spec(
        &self,
        heap: <Self::Heap as DeepView>::V,
        child: <Self::Out as DeepView>::V,
    ) -> <Self::Heap as DeepView>::V;

    spec fn finalize_spec(&self, heap: <Self::Heap as DeepView>::V) -> <Self::Out as DeepView>::V;

    fn init(&self, node: &Self::Node) -> (heap: Self::Heap)
        requires
            self.init_ok(node.deep_view()),
        ensures
            heap.deep_view() == self.init_spec(node.deep_view()),
    ;

    fn accumulate(&self, heap: &mut Self::Heap, child: &Self::Out)
        requires
            self.accumulate_ok(old(heap).deep_view(), child.deep_view()),
        ensures
            final(heap).deep_view() == self.accumulate_spec(old(heap).deep_view(), child.deep_view()),
    ;

    fn finalize(&self, heap: &Self::Heap) -> (res: Self::Out)
        ensures
            res.deep_view() == self.finalize_spec(heap.deep_view()),
    ;
}

/// The tree structure: a function from a node to its children, in order.
pub trait Graph<N: DeepView> {
    /// The nodes whose children this graph can produce.
    spec fn expandable(&self, node: N::V) -> bool;

    spec fn children_spec(&self, node: N::V) -> Seq<N::V>;

    fn children(&self, node: &N) -> (cs: Vec<N>)
        requires
            self.expandable(node.deep_view()),
        ensures
            cs.deep_view() == self.children_spec(node.deep_view()),
    ;
}

/// The result of the recursion at `node`, exploring at most `fuel` levels:
/// init the heap, accumulate each child's result in order, finalize.
/// `None` when the depth runs out, a node cannot be expanded, or an
/// accumulation is not allowed.
pub open spec fn cata<A: Algebra, G: Graph<A::Node>>(
    alg: A,
    graph: G,
    node: <A::Node as DeepView>::V,
    fuel: nat,
) -> Option<<A::Out as DeepView>::V>
    decreases fuel, 0nat,
{
    if fuel == 0 || !graph.expandable(node) || !alg.init_ok(node) {
        None
    } else {
        match fold_children(alg, graph, alg.init_spec(node), graph.children_spec(node), (fuel - 1) as nat) {
            Some(h) => Some(alg.finalize_spec(h)),
            None => None,
        }
    }
}

/// Accumulates the results of `children`, left to right, into `heap`.
pub open spec fn fold_children<A: Algebra, G: Graph<A::Node>>(
    alg: A,
    graph: G,
    heap: <A::Heap as DeepView>::V,
    children: Seq<<A::Node as DeepView>::V>,
    fuel: nat,
) -> Option<<A::Heap as DeepView>::V>
    decreases fuel, children.len() + 1,
{
    if children.len() == 0 {
        Some(heap)
    } else {
        match cata(alg, graph, children[0], fuel) {
            Some(r) => if alg.accumulate_ok(heap, r) {
                fold_children(alg, graph, alg.accumulate_spec(heap, r), children.drop_first(), fuel)
            } else {
                None
            },
            None => None,
        }
    }
}

/// The recursion at `node` terminates and every step in it is allowed.
pub open spec fn defined<A: Algebra, G: Graph<A::Node>>(
    alg: A,
    graph: G,
    node: <A::Node as DeepView>::V,
) -> bool {
    exists|fuel: nat| (#[trigger] cata(alg, graph, node, fuel)) is Some
}

/// The result of the recursion at `node` (meaningful when `defined`).
pub open spec fn fold_result<A: Algebra, G: Graph<A::Node>>(
    alg: A,
    graph: G,
    node: <A::Node as DeepView>::V,
) -> <A::Out as DeepView>::V {
    cata(alg, graph, node, choose|fuel: nat| (#[trigger] cata(alg, graph, node, fuel)) is Some).unwrap()
}

/// More fuel never changes a result that was already reached.
pub proof fn lemma_cata_fuel<A: Algebra, G: Graph<A::Node>>(
    alg: A,
    graph: G,
    node: <A::Node as DeepView>::V,
    f1: nat,
    f2: nat,
)
    requires
        cata(alg, graph, node, f1) is Some,
        f1 <= f2,
    ensures
        cata(alg, graph, node, f2) == cata(alg, graph, node, f1),
    decreases f1, 0nat,
{
    lemma_fold_children_fuel(alg, graph, alg.init_spec(node), graph.children_spec(node), (f1 - 1) as nat, (f2 - 1) as nat);
}

pub proof fn lemma_fold_children_fuel<A: Algebra, G: Graph<A::Node>>(
    alg: A,
    graph: G,
    heap: <A::Heap as DeepView>::V,
    children: Seq<<A::Node as DeepView>::V>,
    f1: nat,
    f2: nat,
)
    requires
        fold_children(alg, graph, heap, children, f1) is Some,
        f1 <= f2,
    ensures
        fold_children(alg, graph, heap, children, f2) == fold_children(alg, graph, heap, children, f1),
    decreases f1, children.len() + 1,
{
    if children.len() > 0 {
        lemma_cata_fuel(alg, graph, children[0], f1, f2);
        let r = cata(alg, graph, children[0], f1).unwrap();
        lemma_fold_children_fuel(alg, graph, alg.accumulate_spec(heap, r), children.drop_first(), f1, f2);
    }
}

/// Any fuel that reaches a result reaches `fold_result`.
pub proof fn lemma_fold_result<A: Algebra, G: Graph<A::Node>>(
    alg: A,
    graph: G,
    node: <A::Node as DeepView>::V,
    fuel: nat,
)
    requires
        cata(alg, graph, node, fuel) is Some,
    ensures
        defined(alg, graph, node),
        cata(alg, graph, node, fuel) == Some(fold_result(alg, graph, node)),
{
    let f = choose|f: nat| (#[trigger] cata(alg, graph, node, f)) is Some;
    if fuel <= f {
        lemma_cata_fuel(alg, graph, node, fuel, f);
    } else {
        lemma_cata_fuel(alg, graph, node, f, fuel);
    }
}


/// Accumulates already-computed child results, left to right, into `heap`;
/// `None` when some accumulation is not allowed.
pub open spec fn accumulate_all<A: Algebra>(
    alg: A,
    heap: <A::Heap as DeepView>::V,
    results: Seq<<A::Out as DeepView>::V>,
) -> Option<<A::Heap as DeepView>::V>
    decreases results.len(),
{
    if results.len() == 0 {
        Some(heap)
    } else if alg.accumulate_ok(heap, results[0]) {
        accumulate_all(alg, alg.accumulate_spec(heap, results[0]), results.drop_first())
    } else {
        None
    }
}

/// The results of the recursion at each of `nodes`.
pub open spec fn results_of<A: Algebra, G: Graph<A::Node>>(
    alg: A,
    graph: G,
    nodes: Seq<<A::Node as DeepView>::V>,
) -> Seq<<A::Out as DeepView>::V> {
    nodes.map_values(|c: <A::Node as DeepView>::V| fold_result(alg, graph, c))
}

/// Every node of `nodes` has a defined recursion.
pub open spec fn all_defined<A: Algebra, G: Graph<A::Node>>(
    alg: A,
    graph: G,
    nodes: Seq<<A::Node as DeepView>::V>,
) -> bool {
    forall|i: int| 0 <= i < nodes.len() ==> #[trigger] defined(alg, graph, nodes[i])
}

/// One step of the recursion, at a node: its heap made by `init`, the
/// results of its children accumulated in order, then `finalize`.
pub open spec fn step<A: Algebra, G: Graph<A::Node>>(
    alg: A,
    graph: G,
    node: <A::Node as DeepView>::V,
) -> Option<<A::Out as DeepView>::V> {
    if graph.expandable(node) && alg.init_ok(node) && all_defined(alg, graph, graph.children_spec(node)) {
        match accumulate_all(alg, alg.init_spec(node), results_of(alg, graph, graph.children_spec(node))) {
            Some(h) => Some(alg.finalize_spec(h)),
            None => None,
        }
    } else {
        None
    }
}

pub proof fn lemma_fold_children_results<A: Algebra, G: Graph<A::Node>>(
    alg: A,
    graph: G,
    heap: <A::Heap as DeepView>::V,
    children: Seq<<A::Node as DeepView>::V>,
    fuel: nat,
)
    ensures
        fold_children(alg, graph, heap, children, fuel) is Some ==> forall|i: int|
            0 <= i < children.len() ==> (#[trigger] cata(alg, graph, children[i], fuel)) is Some,
        (forall|i: int| 0 <= i < children.len() ==> (#[trigger] cata(alg, graph, children[i], fuel)) is Some)
            ==> fold_children(alg, graph, heap, children, fuel) == accumulate_all(
            alg,
            heap,
            results_of(alg, graph, children),
        ),
    decreases children.len(),
{
    if children.len() > 0 {
        let rest = children.drop_first();
        assert(results_of(alg, graph, children).drop_first() =~= results_of(alg, graph, rest));
        if cata(alg, graph, children[0], fuel) is Some {
            lemma_fold_result(alg, graph, children[0], fuel);
            let r = cata(alg, graph, children[0], fuel).unwrap();
            lemma_fold_children_results(alg, graph, alg.accumulate_spec(heap, r), rest, fuel);
            if fold_children(alg, graph, heap, children, fuel) is Some {
                assert forall|i: int| 0 <= i < children.len() implies (#[trigger] cata(
                    alg,
                    graph,
                    children[i],
                    fuel,
                )) is Some by {
                    if i > 0 {
                        assert(children[i] == rest[i - 1]);
                    }
                }
            }
            if forall|i: int| 0 <= i < children.len() ==> (#[trigger] cata(alg, graph, children[i], fuel)) is Some {
                assert forall|i: int| 0 <= i < rest.len() implies (#[trigger] cata(alg, graph, rest[i], fuel)) is Some by {
                    assert(rest[i] == children[i + 1]);
                }
            }
        }
    }
}

/// A fuel that suffices for every one of `nodes`.
proof fn lemma_common_fuel<A: Algebra, G: Graph<A::Node>>(
    alg: A,
    graph: G,
    nodes: Seq<<A::Node as DeepView>::V>,
) -> (fuel: nat)
    requires
        all_defined(alg, graph, nodes),
    ensures
        forall|i: int| 0 <= i < nodes.len() ==> (#[trigger] cata(alg, graph, nodes[i], fuel)) is Some,
    decreases nodes.len(),
{
    if nodes.len() == 0 {
        0
    } else {
        let rest = nodes.drop_first();
        assert forall|i: int| 0 <= i < rest.len() implies #[trigger] defined(alg, graph, rest[i]) by {
            assert(rest[i] == nodes[i + 1]);
            assert(defined(alg, graph, nodes[i + 1]));
        }
        let f_rest = lemma_common_fuel(alg, graph, rest);
        assert(defined(alg, graph, nodes[0]));
        let f0 = choose|f: nat| (#[trigger] cata(alg, graph, nodes[0], f)) is Some;
        let f = if f0 <= f_rest { f_rest } else { f0 };
        assert forall|i: int| 0 <= i < nodes.len() implies (#[trigger] cata(alg, graph, nodes[i], f)) is Some by {
            if i == 0 {
                lemma_cata_fuel(alg, graph, nodes[0], f0, f);
            } else {
                assert(nodes[i] == rest[i - 1]);
                lemma_cata_fuel(alg, graph, rest[i - 1], f_rest, f);
            }
        }
        f
    }
}

/// The recursion equation: the recursion at a node is defined exactly when
/// the node can be expanded, every child's recursion is defined and every
/// accumulation is allowed; its result is then `finalize` of `init`
/// followed by the children's results accumulated in order.
pub proof fn law_recursion_step<A: Algebra, G: Graph<A::Node>>(
    alg: A,
    graph: G,
    node: <A::Node as DeepView>::V,
)
    ensures
        defined(alg, graph, node) <==> step(alg, graph, node) is Some,
        defined(alg, graph, node) ==> step(alg, graph, node) == Some(fold_result(alg, graph, node)),
{
    let children = graph.children_spec(node);
    if defined(alg, graph, node) {
        let f = choose|f: nat| (#[trigger] cata(alg, graph, node, f)) is Some;
        lemma_fold_result(alg, graph, node, f);
        lemma_fold_children_results(alg, graph, alg.init_spec(node), children, (f - 1) as nat);
        assert forall|i: int| 0 <= i < children.len() implies #[trigger] defined(alg, graph, children[i]) by {
            assert(cata(alg, graph, children[i], (f - 1) as nat) is Some);
        }
    }
    if step(alg, graph, node) is Some {
        let f = lemma_common_fuel(alg, graph, children);
        lemma_fold_children_results(alg, graph, alg.init_spec(node), children, f);
        assert(cata(alg, graph, node, f + 1) is Some);
        lemma_fold_result(alg, graph, node, f + 1);
    }
}


/// The entries `own` gives each node of the run of `graph` from `node`,
/// explored to `fuel` levels, in pre-order: the node's own entries, then
/// those of each child's subtree, children in order.
pub open spec fn gather<N: DeepView, G: Graph<N>, X>(
    graph: G,
    node: N::V,
    fuel: nat,
    own: spec_fn(N::V) -> Seq<X>,
) -> Seq<X>
    decreases fuel, 0nat,
{
    if fuel == 0 {
        Seq::empty()
    } else {
        own(node) + gather_forest(graph, graph.children_spec(node), (fuel - 1) as nat, own)
    }
}

/// `gather` over each of `nodes` in turn, concatenated.
pub open spec fn gather_forest<N: DeepView, G: Graph<N>, X>(
    graph: G,
    nodes: Seq<N::V>,
    fuel: nat,
    own: spec_fn(N::V) -> Seq<X>,
) -> Seq<X>
    decreases fuel, nodes.len() + 1,
{
    if nodes.len() == 0 {
        Seq::empty()
    } else {
        gather(graph, nodes[0], fuel, own) + gather_forest(graph, nodes.drop_first(), fuel, own)
    }
}

/// `alg` builds lists: `init` gives `own` of the node, each child's list is
/// appended, and `finalize` keeps the list.
pub open spec fn appends_lists<A: Algebra<Heap = Vec<String>, Out = Vec<String>>>(
    alg: A,
    own: spec_fn(<A::Node as DeepView>::V) -> Seq<Seq<char>>,
) -> bool {
    &&& forall|n: <A::Node as DeepView>::V| #[trigger] alg.init_spec(n) == own(n)
    &&& forall|h: Seq<Seq<char>>, c: Seq<Seq<char>>|
        #[trigger] alg.accumulate_spec(h, c) == h + c && alg.accumulate_ok(h, c)
    &&& forall|h: Seq<Seq<char>>| #[trigger] alg.finalize_spec(h) == h
}

/// A fold that builds lists gives, wherever its run is complete, the
/// gathered entries of the run in pre-order.
pub proof fn lemma_gather_cata<A: Algebra<Heap = Vec<String>, Out = Vec<String>>, G: Graph<A::Node>>(
    alg: A,
    graph: G,
    node: <A::Node as DeepView>::V,
    fuel: nat,
    own: spec_fn(<A::Node as DeepView>::V) -> Seq<Seq<char>>,
)
    requires
        appends_lists(alg, own),
        cata(alg, graph, node, fuel) is Some,
    ensures
        cata(alg, graph, node, fuel) == Some(gather(graph, node, fuel, own)),
    decreases fuel, 0nat,
{
    lemma_gather_children(alg, graph, own(node), graph.children_spec(node), (fuel - 1) as nat, own);
    assert(alg.init_spec(node) == own(node));
    assert(alg.finalize_spec(own(node) + gather_forest(graph, graph.children_spec(node), (fuel - 1) as nat, own))
        == own(node) + gather_forest(graph, graph.children_spec(node), (fuel - 1) as nat, own));
}

proof fn lemma_gather_children<A: Algebra<Heap = Vec<String>, Out = Vec<String>>, G: Graph<A::Node>>(
    alg: A,
    graph: G,
    heap: Seq<Seq<char>>,
    children: Seq<<A::Node as DeepView>::V>,
    fuel: nat,
    own: spec_fn(<A::Node as DeepView>::V) -> Seq<Seq<char>>,
)
    requires
        appends_lists(alg, own),
        fold_children(alg, graph, heap, children, fuel) is Some,
    ensures
        fold_children(alg, graph, heap, children, fuel) == Some(heap + gather_forest(graph, children, fuel, own)),
    decreases fuel, children.len() + 1,
{
    if children.len() == 0 {
        assert(heap + Seq::<Seq<char>>::empty() =~= heap);
    } else {
        lemma_gather_cata(alg, graph, children[0], fuel, own);
        let r = gather(graph, children[0], fuel, own);
        assert(alg.accumulate_spec(heap, r) == heap + r);
        lemma_gather_children(alg, graph, heap + r, children.drop_first(), fuel, own);
        assert((heap + r) + gather_forest(graph, children.drop_first(), fuel, own)
            =~= heap + gather_forest(graph, children, fuel, own));
    }
}


/// The run of `graph` from `node` is complete within `fuel` levels: every
/// node it reaches, down to the leaves, can be expanded.
pub open spec fn run_complete<N: DeepView, G: Graph<N>>(graph: G, node: N::V, fuel: nat) -> bool
    decreases fuel, 0nat,
{
    fuel > 0 && graph.expandable(node) && forest_complete(graph, graph.children_spec(node), (fuel - 1) as nat)
}

/// `run_complete` for each of `nodes`.
pub open spec fn forest_complete<N: DeepView, G: Graph<N>>(graph: G, nodes: Seq<N::V>, fuel: nat) -> bool
    decreases fuel, nodes.len() + 1,
{
    nodes.len() == 0 || (run_complete(graph, nodes[0], fuel) && forest_complete(graph, nodes.drop_first(), fuel))
}

} // verus!
