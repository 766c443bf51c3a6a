//! Cycle detection in a dependency graph: each node of the traversal
//! carries the ancestors on its path, and a node that finds itself among
//! them is reported and not expanded.
use vstd::prelude::*;
use core::marker::PhantomData;
use crate::recursion::{
    Algebra, Graph, cata, fold_children, defined, fold_result, lemma_fold_result, gather, appends_lists,
    lemma_gather_cata,
};
use crate::tree::{Replicate, replicate_all, append_copies};
use crate::folds::CountNodes;
use crate::combinators::{Product, law_product};
use crate::tasks::strings_of;
use crate::exec::fused;

verus! {

/// A dependency graph as adjacency lists: node names and the names they
/// depend on. A later entry for a name replaces an earlier one.
#[derive(Clone)]
pub struct DepGraph {
    pub edges: Vec<(String, Vec<String>)>,
}

pub type EdgeView = (Seq<char>, Seq<Seq<char>>);

/// The dependencies listed last for `id`.
pub open spec fn deps_of(edges: Seq<EdgeView>, id: Seq<char>) -> Option<Seq<Seq<char>>>
    decreases edges.len(),
{
    if edges.len() == 0 {
        None
    } else if edges.last().0 == id {
        Some(edges.last().1)
    } else {
        deps_of(edges.drop_last(), id)
    }
}

impl DepGraph {
    pub open spec fn view_edges(&self) -> Seq<EdgeView> {
        self.edges.deep_view()
    }

    pub fn new() -> (g: DepGraph)
        ensures
            g.view_edges() == Seq::<EdgeView>::empty(),
    {
        let g = DepGraph { edges: Vec::new() };
        assert(g.view_edges() =~= Seq::<EdgeView>::empty());
        g
    }

    /// Declares that `id` depends on `deps`.
    pub fn add(&mut self, id: &str, deps: &[&str])
        ensures
            final(self).view_edges().len() == old(self).view_edges().len() + 1,
            final(self).view_edges().drop_last() == old(self).view_edges(),
            final(self).view_edges().last().0 == id@,
            final(self).view_edges().last().1.len() == deps@.len(),
            forall|i: int| 0 <= i < deps@.len() ==> #[trigger] final(self).view_edges().last().1[i] == deps@[i]@,
    {
        let ghost before = self.view_edges();
        let ds = strings_of(deps);
        self.edges.push((id.to_string(), ds));
        assert(self.view_edges().drop_last() =~= before);
    }

    /// The dependencies of `id`, if the graph lists it.
    pub fn deps(&self, id: &String) -> (d: Option<&Vec<String>>)
        ensures
            match d {
                Some(v) => deps_of(self.view_edges(), id@) == Some(v.deep_view()),
                None => deps_of(self.view_edges(), id@) is None,
            },
    {
        let mut i: usize = self.edges.len();
        assert(self.view_edges().take(i as int) =~= self.view_edges());
        while i > 0
            invariant
                i <= self.edges@.len(),
                deps_of(self.view_edges(), id@) == deps_of(self.view_edges().take(i as int), id@),
            decreases i,
        {
            assert(self.view_edges().take(i as int).drop_last() =~= self.view_edges().take(i - 1));
            assert(self.view_edges().take(i as int).last() == self.edges@[i - 1].deep_view());
            if self.edges[i - 1].0 == *id {
                return Some(&self.edges[i - 1].1);
            }
            i = i - 1;
        }
        assert(self.view_edges().take(0) =~= Seq::<EdgeView>::empty());
        None
    }
}

/// A node of the traversal: its name and the names of its ancestors on
/// this path.
pub struct DepNode {
    pub id: String,
    pub ancestors: Vec<String>,
}

pub type DepNodeView = (Seq<char>, Set<Seq<char>>);

impl DeepView for DepNode {
    type V = DepNodeView;

    open spec fn deep_view(&self) -> DepNodeView {
        (self.id@, self.ancestors.deep_view().to_set())
    }
}

impl Replicate for DepNode {
    fn replicate(&self) -> (r: DepNode) {
        DepNode { id: self.id.clone(), ancestors: replicate_all(&self.ancestors) }
    }
}

impl Clone for DepNode {
    fn clone(&self) -> (r: DepNode)
        ensures
            r.deep_view() == self.deep_view(),
    {
        self.replicate()
    }
}

pub open spec fn is_cycle_spec(node: DepNodeView) -> bool {
    node.1.contains(node.0)
}

impl DepNode {
    /// The start of a traversal: no ancestors.
    pub fn root(id: &str) -> (n: DepNode)
        ensures
            n.deep_view() == (id@, Set::<Seq<char>>::empty()),
    {
        let n = DepNode { id: id.to_string(), ancestors: Vec::new() };
        assert(n.ancestors.deep_view().to_set() =~= Set::<Seq<char>>::empty());
        n
    }

    /// The node `id` reached from this one: its ancestors are this node's
    /// and this node.
    pub fn child(&self, id: &String) -> (n: DepNode)
        ensures
            n.deep_view() == (id@, self.deep_view().1.insert(self.id@)),
    {
        let mut ancestors = replicate_all(&self.ancestors);
        let ghost before = ancestors.deep_view();
        ancestors.push(self.id.clone());
        assert(ancestors.deep_view() =~= before + seq![self.id@]);
        proof {
            Seq::lemma_to_set_insert_commutes(before, self.id@);
        }
        DepNode { id: id.clone(), ancestors }
    }

    /// Whether this node is among its own ancestors.
    pub fn is_cycle(&self) -> (b: bool)
        ensures
            b == is_cycle_spec(self.deep_view()),
    {
        let ghost anc = self.ancestors.deep_view();
        let mut i: usize = 0;
        while i < self.ancestors.len()
            invariant
                i <= self.ancestors@.len(),
                anc == self.ancestors.deep_view(),
                forall|j: int| 0 <= j < i ==> anc[j] != self.id@,
            decreases self.ancestors@.len() - i,
        {
            if self.ancestors[i] == self.id {
                assert(anc[i as int] == self.id@);
                assert(anc.contains(self.id@));
                return true;
            }
            i = i + 1;
        }
        assert(!anc.contains(self.id@));
        false
    }
}

/// The children of a node: none for a cycle or an unknown name, else its
/// dependencies, each carrying this node as one more ancestor.
pub open spec fn dep_children(edges: Seq<EdgeView>, node: DepNodeView) -> Seq<DepNodeView> {
    if is_cycle_spec(node) {
        seq![]
    } else {
        match deps_of(edges, node.0) {
            Some(deps) => deps.map_values(|d: Seq<char>| (d, node.1.insert(node.0))),
            None => seq![],
        }
    }
}

impl Graph<DepNode> for DepGraph {
    open spec fn expandable(&self, node: DepNodeView) -> bool {
        true
    }

    open spec fn children_spec(&self, node: DepNodeView) -> Seq<DepNodeView> {
        dep_children(self.view_edges(), node)
    }

    fn children(&self, node: &DepNode) -> (cs: Vec<DepNode>) {
        let mut cs: Vec<DepNode> = Vec::new();
        if node.is_cycle() {
            assert(cs.deep_view() =~= Seq::<DepNodeView>::empty());
            return cs;
        }
        match self.deps(&node.id) {
            Some(deps) => {
                let ghost target = deps.deep_view().map_values(
                    |d: Seq<char>| (d, node.deep_view().1.insert(node.id@)),
                );
                let mut i: usize = 0;
                while i < deps.len()
                    invariant
                        i <= deps@.len(),
                        target.len() == deps@.len(),
                        forall|j: int|
                            0 <= j < deps@.len() ==> #[trigger] target[j] == (
                                deps@[j]@,
                                node.deep_view().1.insert(node.id@),
                            ),
                        cs.deep_view() =~= target.take(i as int),
                    decreases deps@.len() - i,
                {
                    let c = node.child(&deps[i]);
                    let ghost before = cs.deep_view();
                    cs.push(c);
                    assert(cs.deep_view() =~= before.push(c.deep_view()));
                    i = i + 1;
                    assert(cs.deep_view() =~= target.take(i as int));
                }
                assert(target.take(i as int) =~= target);
                cs
            },
            None => {
                assert(cs.deep_view() =~= Seq::<DepNodeView>::empty());
                cs
            },
        }
    }
}

/// The names of the nodes that close a cycle, in the order the traversal
/// reaches them.
#[derive(Clone, Copy)]
pub struct CycleNames;

impl Algebra for CycleNames {
    type Node = DepNode;
    type Heap = Vec<String>;
    type Out = Vec<String>;

    open spec fn init_ok(&self, node: DepNodeView) -> bool {
        true
    }

    open spec fn init_spec(&self, node: DepNodeView) -> Seq<Seq<char>> {
        if is_cycle_spec(node) {
            seq![node.0]
        } else {
            seq![]
        }
    }

    open spec fn accumulate_ok(&self, heap: Seq<Seq<char>>, child: Seq<Seq<char>>) -> bool {
        true
    }

    open spec fn accumulate_spec(&self, heap: Seq<Seq<char>>, child: Seq<Seq<char>>) -> Seq<Seq<char>> {
        heap + child
    }

    open spec fn finalize_spec(&self, heap: Seq<Seq<char>>) -> Seq<Seq<char>> {
        heap
    }

    fn init(&self, node: &DepNode) -> (heap: Vec<String>) {
        let mut h: Vec<String> = Vec::new();
        if node.is_cycle() {
            h.push(node.id.clone());
            assert(h.deep_view() =~= seq![node.id@]);
        } else {
            assert(h.deep_view() =~= Seq::<Seq<char>>::empty());
        }
        h
    }

    fn accumulate(&self, heap: &mut Vec<String>, child: &Vec<String>) {
        append_copies(heap, child);
    }

    fn finalize(&self, heap: &Vec<String>) -> (res: Vec<String>) {
        replicate_all(heap)
    }
}

/// Result of cycle analysis for a subtree.
pub struct CycleResult {
    pub cycles: Vec<String>,
    pub visited: usize,
}

/// The cycle-closing names and the number of nodes visited, in one pass.
pub type Detect = Product<CycleNames, CountNodes<DepNode>>;

pub fn detector() -> (d: Detect)
    ensures
        d == (Product { first: CycleNames, second: CountNodes::<DepNode> { node: PhantomData } }),
{
    Product { first: CycleNames, second: CountNodes { node: PhantomData } }
}

/// Runs cycle detection from `root`: the cycles found and the number of
/// nodes visited, which is the number of nodes the traversal unfolds.
pub fn detect_cycles(graph: DepGraph, root: &DepNode) -> (r: CycleResult)
    requires
        defined(CountNodes::<DepNode> { node: PhantomData }, graph, root.deep_view()),
    ensures
        r.cycles.deep_view() == fold_result(CycleNames, graph, root.deep_view()),
        r.visited == fold_result(CountNodes::<DepNode> { node: PhantomData }, graph, root.deep_view()),
{
    let d = detector();
    proof {
        law_detection_terminates(graph, root.deep_view());
        law_product(CycleNames, CountNodes::<DepNode> { node: PhantomData }, graph, root.deep_view());
    }
    let (cycles, visited) = fused(d, graph, root);
    CycleResult { cycles, visited }
}


/// The names the graph lists dependencies for.
pub open spec fn listed(edges: Seq<EdgeView>) -> Set<Seq<char>> {
    edges.map_values(|e: EdgeView| e.0).to_set()
}

/// How many listed names a node may still expand: those not among its
/// ancestors.
pub open spec fn unexplored(edges: Seq<EdgeView>, node: DepNodeView) -> nat {
    (listed(edges) - node.1).len()
}

proof fn lemma_deps_of_listed(edges: Seq<EdgeView>, id: Seq<char>)
    requires
        deps_of(edges, id) is Some,
    ensures
        listed(edges).contains(id),
    decreases edges.len(),
{
    let names = edges.map_values(|e: EdgeView| e.0);
    if edges.last().0 == id {
        assert(names[edges.len() - 1] == id);
    } else {
        lemma_deps_of_listed(edges.drop_last(), id);
        let j = choose|j: int| 0 <= j < edges.drop_last().len() && edges.drop_last()[j].0 == id;
        assert(names[j] == id);
    }
}

proof fn lemma_names_terminate(graph: DepGraph, node: DepNodeView, fuel: nat)
    requires
        fuel >= unexplored(graph.view_edges(), node) + 2,
    ensures
        cata(CycleNames, graph, node, fuel) is Some,
    decreases fuel, 0nat,
{
    let edges = graph.view_edges();
    let children = dep_children(edges, node);
    if !is_cycle_spec(node) && deps_of(edges, node.0) is Some {
        lemma_deps_of_listed(edges, node.0);
        let names = edges.map_values(|e: EdgeView| e.0);
        vstd::seq_lib::seq_to_set_is_finite(names);
        let rest = listed(edges) - node.1;
        vstd::set::axiom_set_difference_finite(listed(edges), node.1);
        vstd::set::axiom_set_remove_len(rest, node.0);
        assert(listed(edges) - node.1.insert(node.0) =~= rest.remove(node.0));
        assert forall|i: int| 0 <= i < children.len() implies #[trigger] unexplored(edges, children[i]) + 1
            == unexplored(edges, node) by {
            assert(children[i].1 == node.1.insert(node.0));
        }
    }
    lemma_names_children(graph, CycleNames.init_spec(node), children, (fuel - 1) as nat, unexplored(edges, node));
}

proof fn lemma_names_children(
    graph: DepGraph,
    heap: Seq<Seq<char>>,
    children: Seq<DepNodeView>,
    fuel: nat,
    bound: nat,
)
    requires
        forall|i: int| 0 <= i < children.len() ==> #[trigger] unexplored(graph.view_edges(), children[i]) + 1 == bound,
        fuel >= bound + 1,
    ensures
        fold_children(CycleNames, graph, heap, children, fuel) is Some,
    decreases fuel, children.len() + 1,
{
    if children.len() > 0 {
        assert(unexplored(graph.view_edges(), children[0]) + 1 == bound);
        lemma_names_terminate(graph, children[0], fuel);
        let r = cata(CycleNames, graph, children[0], fuel).unwrap();
        let rest = children.drop_first();
        assert forall|i: int| 0 <= i < rest.len() implies #[trigger] unexplored(graph.view_edges(), rest[i]) + 1 == bound by {
            assert(rest[i] == children[i + 1]);
        }
        lemma_names_children(graph, heap + r, rest, fuel, bound);
    }
}

/// Cycle detection always terminates: a node that is not a cycle and has
/// dependencies is a listed name not yet among its ancestors, and its
/// children carry it as one more ancestor, so each level down leaves one
/// listed name fewer to expand.
pub proof fn law_detection_terminates(graph: DepGraph, node: DepNodeView)
    ensures
        defined(CycleNames, graph, node),
{
    lemma_names_terminate(graph, node, unexplored(graph.view_edges(), node) + 2);
    lemma_fold_result(CycleNames, graph, node, unexplored(graph.view_edges(), node) + 2);
}

/// What a traversal node reports of itself: its id when the id is among
/// its ancestors (the node closes a cycle), nothing otherwise.
pub open spec fn closes_cycle(n: DepNodeView) -> Seq<Seq<char>> {
    if n.1.contains(n.0) {
        seq![n.0]
    } else {
        Seq::empty()
    }
}

/// Every cycle is reported: the names cycle detection reports from `node`
/// are, in pre-order over the whole traversal (explored to any depth
/// `fuel` that completes it), the id of each traversal node whose id is
/// among its ancestors. A node's list is its own report followed by each
/// child's full list, children in order.
pub proof fn law_cycles_reported(graph: DepGraph, node: DepNodeView, fuel: nat)
    requires
        fuel >= unexplored(graph.view_edges(), node) + 2,
    ensures
        defined(CycleNames, graph, node),
        fold_result(CycleNames, graph, node) == gather(graph, node, fuel, |n: DepNodeView| closes_cycle(n)),
{
    let own = |n: DepNodeView| closes_cycle(n);
    assert(appends_lists(CycleNames, own)) by {
        assert forall|n: DepNodeView| #[trigger] CycleNames.init_spec(n) == own(n) by {}
    }
    lemma_names_terminate(graph, node, fuel);
    lemma_gather_cata(CycleNames, graph, node, fuel, own);
    lemma_fold_result(CycleNames, graph, node, fuel);
}

} // verus!
