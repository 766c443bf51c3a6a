//! Folds built from other folds: pairing two folds, extending a result,
//! and wrapping one phase of a fold.
use vstd::prelude::*;
use core::marker::PhantomData;
use crate::folds::{SumWeights, CountNodes, Weighted};
use crate::tree::{Tree, TreeModel};
use vstd::utf8::encode_utf8;
use vstd::string::StringSliceAdditionalSpecFns;
use crate::recursion::{
    Algebra, Graph, cata, fold_children, defined, fold_result, lemma_cata_fuel, lemma_fold_result,
    law_recursion_step,
};

verus! {

/// A function of a fold's result, to carry next to it.
pub trait ResultMap {
    type In: DeepView;
    type Extra: DeepView;

    spec fn map_spec(&self, r: <Self::In as DeepView>::V) -> <Self::Extra as DeepView>::V;

    fn map(&self, r: &Self::In) -> (x: Self::Extra)
        ensures
            x.deep_view() == self.map_spec(r.deep_view()),
    ;
}

/// Whether a `u64` result exceeds `limit`.
#[derive(Clone, Copy)]
pub struct Exceeds {
    pub limit: u64,
}

impl ResultMap for Exceeds {
    type In = u64;
    type Extra = bool;

    open spec fn map_spec(&self, r: u64) -> bool {
        r > self.limit
    }

    fn map(&self, r: &u64) -> (x: bool) {
        *r > self.limit
    }
}

/// `fold` with each result paired with `extra` of it. Children still see
/// only the first component.
#[derive(Clone)]
pub struct ZipMap<A, M> {
    pub fold: A,
    pub extra: M,
}

impl<A: Algebra, M: ResultMap<In = A::Out>> Algebra for ZipMap<A, M> {
    type Node = A::Node;
    type Heap = A::Heap;
    type Out = (A::Out, M::Extra);

    open spec fn init_ok(&self, node: <A::Node as DeepView>::V) -> bool {
        self.fold.init_ok(node)
    }

    open spec fn init_spec(&self, node: <A::Node as DeepView>::V) -> <A::Heap as DeepView>::V {
        self.fold.init_spec(node)
    }

    open spec fn accumulate_ok(
        &self,
        heap: <A::Heap as DeepView>::V,
        child: (<A::Out as DeepView>::V, <M::Extra as DeepView>::V),
    ) -> bool {
        self.fold.accumulate_ok(heap, child.0)
    }

    open spec fn accumulate_spec(
        &self,
        heap: <A::Heap as DeepView>::V,
        child: (<A::Out as DeepView>::V, <M::Extra as DeepView>::V),
    ) -> <A::Heap as DeepView>::V {
        self.fold.accumulate_spec(heap, child.0)
    }

    open spec fn finalize_spec(&self, heap: <A::Heap as DeepView>::V) -> (
        <A::Out as DeepView>::V,
        <M::Extra as DeepView>::V,
    ) {
        let r = self.fold.finalize_spec(heap);
        (r, self.extra.map_spec(r))
    }

    fn init(&self, node: &A::Node) -> (heap: A::Heap) {
        self.fold.init(node)
    }

    fn accumulate(&self, heap: &mut A::Heap, child: &(A::Out, M::Extra)) {
        self.fold.accumulate(heap, &child.0);
    }

    fn finalize(&self, heap: &A::Heap) -> (res: (A::Out, M::Extra)) {
        let r = self.fold.finalize(heap);
        let x = self.extra.map(&r);
        (r, x)
    }
}

/// Two folds over the same nodes, run side by side.
#[derive(Clone)]
pub struct Product<A, B> {
    pub first: A,
    pub second: B,
}

impl<A: Algebra, B: Algebra<Node = A::Node>> Algebra for Product<A, B> {
    type Node = A::Node;
    type Heap = (A::Heap, B::Heap);
    type Out = (A::Out, B::Out);

    open spec fn init_ok(&self, node: <A::Node as DeepView>::V) -> bool {
        self.first.init_ok(node) && self.second.init_ok(node)
    }

    open spec fn init_spec(&self, node: <A::Node as DeepView>::V) -> (
        <A::Heap as DeepView>::V,
        <B::Heap as DeepView>::V,
    ) {
        (self.first.init_spec(node), self.second.init_spec(node))
    }

    open spec fn accumulate_ok(
        &self,
        heap: (<A::Heap as DeepView>::V, <B::Heap as DeepView>::V),
        child: (<A::Out as DeepView>::V, <B::Out as DeepView>::V),
    ) -> bool {
        self.first.accumulate_ok(heap.0, child.0) && self.second.accumulate_ok(heap.1, child.1)
    }

    open spec fn accumulate_spec(
        &self,
        heap: (<A::Heap as DeepView>::V, <B::Heap as DeepView>::V),
        child: (<A::Out as DeepView>::V, <B::Out as DeepView>::V),
    ) -> (<A::Heap as DeepView>::V, <B::Heap as DeepView>::V) {
        (self.first.accumulate_spec(heap.0, child.0), self.second.accumulate_spec(heap.1, child.1))
    }

    open spec fn finalize_spec(&self, heap: (<A::Heap as DeepView>::V, <B::Heap as DeepView>::V)) -> (
        <A::Out as DeepView>::V,
        <B::Out as DeepView>::V,
    ) {
        (self.first.finalize_spec(heap.0), self.second.finalize_spec(heap.1))
    }

    fn init(&self, node: &A::Node) -> (heap: (A::Heap, B::Heap)) {
        (self.first.init(node), self.second.init(node))
    }

    fn accumulate(&self, heap: &mut (A::Heap, B::Heap), child: &(A::Out, B::Out)) {
        self.first.accumulate(&mut heap.0, &child.0);
        self.second.accumulate(&mut heap.1, &child.1);
    }

    fn finalize(&self, heap: &(A::Heap, B::Heap)) -> (res: (A::Out, B::Out)) {
        (self.first.finalize(&heap.0), self.second.finalize(&heap.1))
    }
}

/// A change to the heap that a fold's `init` made, seeing the node.
pub trait InitWrap<N: DeepView, H: DeepView> {
    /// Whether `wrap` may run on this node and heap.
    spec fn wrap_ok(&self, node: N::V, heap: H::V) -> bool;

    spec fn wrap_spec(&self, node: N::V, heap: H::V) -> H::V;

    fn wrap(&self, node: &N, heap: H) -> (h: H)
        requires
            self.wrap_ok(node.deep_view(), heap.deep_view()),
        ensures
            h.deep_view() == self.wrap_spec(node.deep_view(), heap.deep_view()),
    ;
}

/// `fold` whose `init` is wrapped: at every node, `wrap` changes the heap
/// that `fold`'s own `init` made. Accumulate and finalize are unchanged.
#[derive(Clone)]
pub struct WrapInit<A, W> {
    pub fold: A,
    pub wrap: W,
}

impl<A: Algebra, W: InitWrap<A::Node, A::Heap>> Algebra for WrapInit<A, W> {
    type Node = A::Node;
    type Heap = A::Heap;
    type Out = A::Out;

    open spec fn init_ok(&self, node: <A::Node as DeepView>::V) -> bool {
        self.fold.init_ok(node) && self.wrap.wrap_ok(node, self.fold.init_spec(node))
    }

    open spec fn init_spec(&self, node: <A::Node as DeepView>::V) -> <A::Heap as DeepView>::V {
        self.wrap.wrap_spec(node, self.fold.init_spec(node))
    }

    open spec fn accumulate_ok(&self, heap: <A::Heap as DeepView>::V, child: <A::Out as DeepView>::V) -> bool {
        self.fold.accumulate_ok(heap, child)
    }

    open spec fn accumulate_spec(
        &self,
        heap: <A::Heap as DeepView>::V,
        child: <A::Out as DeepView>::V,
    ) -> <A::Heap as DeepView>::V {
        self.fold.accumulate_spec(heap, child)
    }

    open spec fn finalize_spec(&self, heap: <A::Heap as DeepView>::V) -> <A::Out as DeepView>::V {
        self.fold.finalize_spec(heap)
    }

    fn init(&self, node: &A::Node) -> (heap: A::Heap) {
        let heap = self.fold.init(node);
        self.wrap.wrap(node, heap)
    }

    fn accumulate(&self, heap: &mut A::Heap, child: &A::Out) {
        self.fold.accumulate(heap, child);
    }

    fn finalize(&self, heap: &A::Heap) -> (res: A::Out) {
        self.fold.finalize(heap)
    }
}

/// Adds one to a `u64` heap.
#[derive(Clone, Copy)]
pub struct AddOne;

impl<N: DeepView> InitWrap<N, u64> for AddOne {
    open spec fn wrap_ok(&self, node: N::V, heap: u64) -> bool {
        heap < u64::MAX
    }

    open spec fn wrap_spec(&self, node: N::V, heap: u64) -> u64 {
        (heap + 1) as u64
    }

    fn wrap(&self, node: &N, heap: u64) -> (h: u64) {
        heap + 1
    }
}

/// Passes the heap through as it is.
#[derive(Clone, Copy)]
pub struct Unchanged;

impl<N: DeepView, H: DeepView> InitWrap<N, H> for Unchanged {
    open spec fn wrap_ok(&self, node: N::V, heap: H::V) -> bool {
        true
    }

    open spec fn wrap_spec(&self, node: N::V, heap: H::V) -> H::V {
        heap
    }

    fn wrap(&self, node: &N, heap: H) -> (h: H) {
        heap
    }
}

/// `fold` in which a child whose result is below `threshold` is never
/// accumulated: its parent does not see it.
#[derive(Clone)]
pub struct SkipBelow<A> {
    pub fold: A,
    pub threshold: u64,
}

impl<A: Algebra<Out = u64>> Algebra for SkipBelow<A> {
    type Node = A::Node;
    type Heap = A::Heap;
    type Out = u64;

    open spec fn init_ok(&self, node: <A::Node as DeepView>::V) -> bool {
        self.fold.init_ok(node)
    }

    open spec fn init_spec(&self, node: <A::Node as DeepView>::V) -> <A::Heap as DeepView>::V {
        self.fold.init_spec(node)
    }

    open spec fn accumulate_ok(&self, heap: <A::Heap as DeepView>::V, child: u64) -> bool {
        child >= self.threshold ==> self.fold.accumulate_ok(heap, child)
    }

    open spec fn accumulate_spec(&self, heap: <A::Heap as DeepView>::V, child: u64) -> <A::Heap as DeepView>::V {
        if child >= self.threshold {
            self.fold.accumulate_spec(heap, child)
        } else {
            heap
        }
    }

    open spec fn finalize_spec(&self, heap: <A::Heap as DeepView>::V) -> u64 {
        self.fold.finalize_spec(heap)
    }

    fn init(&self, node: &A::Node) -> (heap: A::Heap) {
        self.fold.init(node)
    }

    fn accumulate(&self, heap: &mut A::Heap, child: &u64) {
        if *child >= self.threshold {
            self.fold.accumulate(heap, child);
        }
    }

    fn finalize(&self, heap: &A::Heap) -> (res: u64) {
        self.fold.finalize(heap)
    }
}

/// `fold` whose result, at every node, is capped at `max`; the parent
/// accumulates the capped value.
#[derive(Clone)]
pub struct ClampAt<A> {
    pub fold: A,
    pub max: u64,
}

pub open spec fn min_u64(a: u64, b: u64) -> u64 {
    if a <= b {
        a
    } else {
        b
    }
}

impl<A: Algebra<Out = u64>> Algebra for ClampAt<A> {
    type Node = A::Node;
    type Heap = A::Heap;
    type Out = u64;

    open spec fn init_ok(&self, node: <A::Node as DeepView>::V) -> bool {
        self.fold.init_ok(node)
    }

    open spec fn init_spec(&self, node: <A::Node as DeepView>::V) -> <A::Heap as DeepView>::V {
        self.fold.init_spec(node)
    }

    open spec fn accumulate_ok(&self, heap: <A::Heap as DeepView>::V, child: u64) -> bool {
        self.fold.accumulate_ok(heap, child)
    }

    open spec fn accumulate_spec(&self, heap: <A::Heap as DeepView>::V, child: u64) -> <A::Heap as DeepView>::V {
        self.fold.accumulate_spec(heap, child)
    }

    open spec fn finalize_spec(&self, heap: <A::Heap as DeepView>::V) -> u64 {
        min_u64(self.fold.finalize_spec(heap), self.max)
    }

    fn init(&self, node: &A::Node) -> (heap: A::Heap) {
        self.fold.init(node)
    }

    fn accumulate(&self, heap: &mut A::Heap, child: &u64) {
        self.fold.accumulate(heap, child);
    }

    fn finalize(&self, heap: &A::Heap) -> (res: u64) {
        let r = self.fold.finalize(heap);
        if r <= self.max {
            r
        } else {
            self.max
        }
    }
}


/// A function from one node type to another.
pub trait NodeMap {
    type From: DeepView;
    type To: DeepView;

    spec fn map_spec(&self, node: <Self::From as DeepView>::V) -> <Self::To as DeepView>::V;

    fn map(&self, node: &Self::From) -> (m: Self::To)
        ensures
            m.deep_view() == self.map_spec(node.deep_view()),
    ;
}

/// `fold` over the nodes of another type: `init` reads each node through
/// `via`; accumulate and finalize are unchanged.
#[derive(Clone)]
pub struct Contramap<A, F> {
    pub fold: A,
    pub via: F,
}

impl<A: Algebra, F: NodeMap<To = A::Node>> Algebra for Contramap<A, F> {
    type Node = F::From;
    type Heap = A::Heap;
    type Out = A::Out;

    open spec fn init_ok(&self, node: <F::From as DeepView>::V) -> bool {
        self.fold.init_ok(self.via.map_spec(node))
    }

    open spec fn init_spec(&self, node: <F::From as DeepView>::V) -> <A::Heap as DeepView>::V {
        self.fold.init_spec(self.via.map_spec(node))
    }

    open spec fn accumulate_ok(&self, heap: <A::Heap as DeepView>::V, child: <A::Out as DeepView>::V) -> bool {
        self.fold.accumulate_ok(heap, child)
    }

    open spec fn accumulate_spec(
        &self,
        heap: <A::Heap as DeepView>::V,
        child: <A::Out as DeepView>::V,
    ) -> <A::Heap as DeepView>::V {
        self.fold.accumulate_spec(heap, child)
    }

    open spec fn finalize_spec(&self, heap: <A::Heap as DeepView>::V) -> <A::Out as DeepView>::V {
        self.fold.finalize_spec(heap)
    }

    fn init(&self, node: &F::From) -> (heap: A::Heap) {
        let mapped = self.via.map(node);
        self.fold.init(&mapped)
    }

    fn accumulate(&self, heap: &mut A::Heap, child: &A::Out) {
        self.fold.accumulate(heap, child);
    }

    fn finalize(&self, heap: &A::Heap) -> (res: A::Out) {
        self.fold.finalize(heap)
    }
}

/// A string read as a leaf whose value is its length in bytes (UTF-8), as
/// `str::len` gives it.
#[derive(Clone, Copy)]
pub struct ByteLength;

impl NodeMap for ByteLength {
    type From = String;
    type To = Tree<u64>;

    open spec fn map_spec(&self, node: Seq<char>) -> TreeModel<u64> {
        TreeModel { value: (encode_utf8(node).len() as usize) as u64, children: Seq::empty() }
    }

    fn map(&self, node: &String) -> (m: Tree<u64>) {
        let text = node.as_str();
        let len = text.len();
        assert(text.spec_bytes() == encode_utf8(node.deep_view()));
        let t = Tree::leaf(len as u64);
        assert(t.deep_view().children =~= Seq::<TreeModel<u64>>::empty());
        t
    }
}


/// Both results, when both are there.
pub open spec fn both<X, Y>(a: Option<X>, b: Option<Y>) -> Option<(X, Y)> {
    match (a, b) {
        (Some(x), Some(y)) => Some((x, y)),
        _ => None,
    }
}

proof fn lemma_product_cata<A: Algebra, B: Algebra<Node = A::Node>, G: Graph<A::Node>>(
    p: Product<A, B>,
    graph: G,
    node: <A::Node as DeepView>::V,
    fuel: nat,
)
    ensures
        cata(p, graph, node, fuel) == both(cata(p.first, graph, node, fuel), cata(p.second, graph, node, fuel)),
    decreases fuel, 0nat,
{
    if fuel > 0 && graph.expandable(node) && p.init_ok(node) {
        lemma_product_fold_children(p, graph, p.init_spec(node), graph.children_spec(node), (fuel - 1) as nat);
    }
}

proof fn lemma_product_fold_children<A: Algebra, B: Algebra<Node = A::Node>, G: Graph<A::Node>>(
    p: Product<A, B>,
    graph: G,
    heap: (<A::Heap as DeepView>::V, <B::Heap as DeepView>::V),
    children: Seq<<A::Node as DeepView>::V>,
    fuel: nat,
)
    ensures
        fold_children(p, graph, heap, children, fuel) == both(
            fold_children(p.first, graph, heap.0, children, fuel),
            fold_children(p.second, graph, heap.1, children, fuel),
        ),
    decreases fuel, children.len() + 1,
{
    if children.len() > 0 {
        lemma_product_cata(p, graph, children[0], fuel);
        match (cata(p.first, graph, children[0], fuel), cata(p.second, graph, children[0], fuel)) {
            (Some(ra), Some(rb)) => {
                lemma_product_fold_children(
                    p,
                    graph,
                    p.accumulate_spec(heap, (ra, rb)),
                    children.drop_first(),
                    fuel,
                );
            },
            _ => {},
        }
    }
}

/// Running two folds as one product gives the pair of their results; the
/// product is defined exactly when both are.
pub proof fn law_product<A: Algebra, B: Algebra<Node = A::Node>, G: Graph<A::Node>>(
    first: A,
    second: B,
    graph: G,
    node: <A::Node as DeepView>::V,
)
    ensures
        defined(Product { first, second }, graph, node) <==> (defined(first, graph, node) && defined(
            second,
            graph,
            node,
        )),
        defined(Product { first, second }, graph, node) ==> fold_result(Product { first, second }, graph, node) == (
        fold_result(first, graph, node),
        fold_result(second, graph, node)),
{
    let p = Product { first, second };
    if defined(p, graph, node) {
        let f = choose|f: nat| (#[trigger] cata(p, graph, node, f)) is Some;
        lemma_product_cata(p, graph, node, f);
        lemma_fold_result(p, graph, node, f);
        lemma_fold_result(first, graph, node, f);
        lemma_fold_result(second, graph, node, f);
    }
    if defined(first, graph, node) && defined(second, graph, node) {
        let fa = choose|f: nat| (#[trigger] cata(first, graph, node, f)) is Some;
        let fb = choose|f: nat| (#[trigger] cata(second, graph, node, f)) is Some;
        let f = if fa <= fb { fb } else { fa };
        lemma_cata_fuel(first, graph, node, fa, f);
        lemma_cata_fuel(second, graph, node, fb, f);
        lemma_product_cata(p, graph, node, f);
        lemma_fold_result(p, graph, node, f);
    }
}

proof fn lemma_zipmap_cata<A: Algebra, M: ResultMap<In = A::Out>, G: Graph<A::Node>>(
    z: ZipMap<A, M>,
    graph: G,
    node: <A::Node as DeepView>::V,
    fuel: nat,
)
    ensures
        cata(z, graph, node, fuel) == match cata(z.fold, graph, node, fuel) {
            Some(r) => Some((r, z.extra.map_spec(r))),
            None => None,
        },
    decreases fuel, 0nat,
{
    if fuel > 0 && graph.expandable(node) && z.init_ok(node) {
        lemma_zipmap_fold_children(z, graph, z.init_spec(node), graph.children_spec(node), (fuel - 1) as nat);
    }
}

proof fn lemma_zipmap_fold_children<A: Algebra, M: ResultMap<In = A::Out>, G: Graph<A::Node>>(
    z: ZipMap<A, M>,
    graph: G,
    heap: <A::Heap as DeepView>::V,
    children: Seq<<A::Node as DeepView>::V>,
    fuel: nat,
)
    ensures
        fold_children(z, graph, heap, children, fuel) == fold_children(z.fold, graph, heap, children, fuel),
    decreases fuel, children.len() + 1,
{
    if children.len() > 0 {
        lemma_zipmap_cata(z, graph, children[0], fuel);
        match cata(z.fold, graph, children[0], fuel) {
            Some(r) => {
                lemma_zipmap_fold_children(z, graph, z.fold.accumulate_spec(heap, r), children.drop_first(), fuel);
            },
            None => {},
        }
    }
}

/// Zipping a function onto a fold keeps the fold's result and pairs it with
/// the function of that result; definedness does not change.
pub proof fn law_zipmap<A: Algebra, M: ResultMap<In = A::Out>, G: Graph<A::Node>>(
    fold: A,
    extra: M,
    graph: G,
    node: <A::Node as DeepView>::V,
)
    ensures
        defined(ZipMap { fold, extra }, graph, node) <==> defined(fold, graph, node),
        defined(fold, graph, node) ==> fold_result(ZipMap { fold, extra }, graph, node) == (
        fold_result(fold, graph, node),
        extra.map_spec(fold_result(fold, graph, node))),
{
    let z = ZipMap { fold, extra };
    if defined(z, graph, node) {
        let f = choose|f: nat| (#[trigger] cata(z, graph, node, f)) is Some;
        lemma_zipmap_cata(z, graph, node, f);
        lemma_fold_result(z, graph, node, f);
        lemma_fold_result(fold, graph, node, f);
    }
    if defined(fold, graph, node) {
        let f = choose|f: nat| (#[trigger] cata(fold, graph, node, f)) is Some;
        lemma_zipmap_cata(z, graph, node, f);
        lemma_fold_result(z, graph, node, f);
        lemma_fold_result(fold, graph, node, f);
    }
}

/// `via` carries the graph `from` onto the graph `onto`: a node can be
/// expanded exactly when its image can, and then the children of its image
/// are the images of its children, in order.
pub open spec fn carries<F: NodeMap, G1: Graph<F::From>, G2: Graph<F::To>>(via: F, from: G1, onto: G2) -> bool {
    &&& forall|n: <F::From as DeepView>::V| #[trigger] from.expandable(n) <==> onto.expandable(via.map_spec(n))
    &&& forall|n: <F::From as DeepView>::V|
        #[trigger] from.expandable(n) ==> onto.children_spec(via.map_spec(n)) == from.children_spec(n).map_values(
            |c: <F::From as DeepView>::V| via.map_spec(c),
        )
}

proof fn lemma_contramap_cata<A: Algebra, F: NodeMap<To = A::Node>, G1: Graph<F::From>, G2: Graph<A::Node>>(
    fold: A,
    via: F,
    from: G1,
    onto: G2,
    node: <F::From as DeepView>::V,
    fuel: nat,
)
    requires
        carries(via, from, onto),
    ensures
        cata(Contramap { fold, via }, from, node, fuel) == cata(fold, onto, via.map_spec(node), fuel),
    decreases fuel, 0nat,
{
    if fuel > 0 && from.expandable(node) {
        lemma_contramap_fold_children(
            fold,
            via,
            from,
            onto,
            fold.init_spec(via.map_spec(node)),
            from.children_spec(node),
            (fuel - 1) as nat,
        );
    }
}

proof fn lemma_contramap_fold_children<A: Algebra, F: NodeMap<To = A::Node>, G1: Graph<F::From>, G2: Graph<A::Node>>(
    fold: A,
    via: F,
    from: G1,
    onto: G2,
    heap: <A::Heap as DeepView>::V,
    children: Seq<<F::From as DeepView>::V>,
    fuel: nat,
)
    requires
        carries(via, from, onto),
    ensures
        fold_children(Contramap { fold, via }, from, heap, children, fuel) == fold_children(
            fold,
            onto,
            heap,
            children.map_values(|c: <F::From as DeepView>::V| via.map_spec(c)),
            fuel,
        ),
    decreases fuel, children.len() + 1,
{
    let images = children.map_values(|c: <F::From as DeepView>::V| via.map_spec(c));
    if children.len() > 0 {
        assert(images[0] == via.map_spec(children[0]));
        assert(images.drop_first() =~= children.drop_first().map_values(
            |c: <F::From as DeepView>::V| via.map_spec(c),
        ));
        lemma_contramap_cata(fold, via, from, onto, children[0], fuel);
        match cata(fold, onto, images[0], fuel) {
            Some(r) => {
                lemma_contramap_fold_children(
                    fold,
                    via,
                    from,
                    onto,
                    fold.accumulate_spec(heap, r),
                    children.drop_first(),
                    fuel,
                );
            },
            None => {},
        }
    }
}

/// Reading a fold's nodes through a map that carries one graph onto another
/// gives, at a node, the fold's result at the node's image; definedness
/// does not change.
pub proof fn law_contramap<A: Algebra, F: NodeMap<To = A::Node>, G1: Graph<F::From>, G2: Graph<A::Node>>(
    fold: A,
    via: F,
    from: G1,
    onto: G2,
    node: <F::From as DeepView>::V,
)
    requires
        carries(via, from, onto),
    ensures
        defined(Contramap { fold, via }, from, node) <==> defined(fold, onto, via.map_spec(node)),
        defined(fold, onto, via.map_spec(node)) ==> fold_result(Contramap { fold, via }, from, node)
            == fold_result(fold, onto, via.map_spec(node)),
{
    let c = Contramap { fold, via };
    let image = via.map_spec(node);
    if defined(c, from, node) {
        let f = choose|f: nat| (#[trigger] cata(c, from, node, f)) is Some;
        lemma_contramap_cata(fold, via, from, onto, node, f);
        lemma_fold_result(c, from, node, f);
        lemma_fold_result(fold, onto, image, f);
    }
    if defined(fold, onto, image) {
        let f = choose|f: nat| (#[trigger] cata(fold, onto, image, f)) is Some;
        lemma_contramap_cata(fold, via, from, onto, node, f);
        lemma_fold_result(c, from, node, f);
        lemma_fold_result(fold, onto, image, f);
    }
}

proof fn lemma_unchanged_cata<A: Algebra, G: Graph<A::Node>>(
    fold: A,
    graph: G,
    node: <A::Node as DeepView>::V,
    fuel: nat,
)
    ensures
        cata(WrapInit { fold, wrap: Unchanged }, graph, node, fuel) == cata(fold, graph, node, fuel),
    decreases fuel, 0nat,
{
    if fuel > 0 && graph.expandable(node) && fold.init_ok(node) {
        lemma_unchanged_fold_children(fold, graph, fold.init_spec(node), graph.children_spec(node), (fuel - 1) as nat);
    }
}

proof fn lemma_unchanged_fold_children<A: Algebra, G: Graph<A::Node>>(
    fold: A,
    graph: G,
    heap: <A::Heap as DeepView>::V,
    children: Seq<<A::Node as DeepView>::V>,
    fuel: nat,
)
    ensures
        fold_children(WrapInit { fold, wrap: Unchanged }, graph, heap, children, fuel) == fold_children(
            fold,
            graph,
            heap,
            children,
            fuel,
        ),
    decreases fuel, children.len() + 1,
{
    if children.len() > 0 {
        lemma_unchanged_cata(fold, graph, children[0], fuel);
        match cata(fold, graph, children[0], fuel) {
            Some(r) => {
                lemma_unchanged_fold_children(fold, graph, fold.accumulate_spec(heap, r), children.drop_first(), fuel);
            },
            None => {},
        }
    }
}

/// Wrapping `init` with a pass-through changes nothing: the wrapped fold is
/// defined where the fold is, with the same result.
pub proof fn law_wrap_init_unchanged<A: Algebra, G: Graph<A::Node>>(
    fold: A,
    graph: G,
    node: <A::Node as DeepView>::V,
)
    ensures
        defined(WrapInit { fold, wrap: Unchanged }, graph, node) <==> defined(fold, graph, node),
        defined(fold, graph, node) ==> fold_result(WrapInit { fold, wrap: Unchanged }, graph, node) == fold_result(
            fold,
            graph,
            node,
        ),
{
    let w = WrapInit { fold, wrap: Unchanged };
    if defined(w, graph, node) {
        let f = choose|f: nat| (#[trigger] cata(w, graph, node, f)) is Some;
        lemma_unchanged_cata(fold, graph, node, f);
        lemma_fold_result(w, graph, node, f);
        lemma_fold_result(fold, graph, node, f);
    }
    if defined(fold, graph, node) {
        let f = choose|f: nat| (#[trigger] cata(fold, graph, node, f)) is Some;
        lemma_unchanged_cata(fold, graph, node, f);
        lemma_fold_result(w, graph, node, f);
        lemma_fold_result(fold, graph, node, f);
    }
}

/// A clamped fold never returns more than its cap.
pub proof fn law_clamp<A: Algebra<Out = u64>, G: Graph<A::Node>>(
    fold: A,
    max: u64,
    graph: G,
    node: <A::Node as DeepView>::V,
)
    ensures
        defined(ClampAt { fold, max }, graph, node) ==> fold_result(ClampAt { fold, max }, graph, node) <= max,
{
    law_recursion_step(ClampAt { fold, max }, graph, node);
}


proof fn lemma_bump_cata<N: Weighted, G: Graph<N>>(graph: G, node: N::V, fuel: nat)
    ensures
        ({
            let b = cata(WrapInit { fold: SumWeights::<N> { node: PhantomData }, wrap: AddOne }, graph, node, fuel);
            let s = cata(SumWeights::<N> { node: PhantomData }, graph, node, fuel);
            let c = cata(CountNodes::<N> { node: PhantomData }, graph, node, fuel);
            b is Some && c is Some ==> s is Some && b.unwrap() == s.unwrap() + c.unwrap()
        }),
    decreases fuel, 0nat,
{
    let bump = WrapInit { fold: SumWeights::<N> { node: PhantomData }, wrap: AddOne };
    if fuel > 0 && graph.expandable(node) && bump.init_ok(node) {
        lemma_bump_fold_children(
            graph,
            bump.init_spec(node),
            N::weight_of(node),
            1,
            graph.children_spec(node),
            (fuel - 1) as nat,
        );
    }
}

proof fn lemma_bump_fold_children<N: Weighted, G: Graph<N>>(
    graph: G,
    hb: u64,
    hs: u64,
    hc: usize,
    children: Seq<N::V>,
    fuel: nat,
)
    requires
        hb == hs + hc,
    ensures
        ({
            let b = fold_children(WrapInit { fold: SumWeights::<N> { node: PhantomData }, wrap: AddOne }, graph, hb, children, fuel);
            let s = fold_children(SumWeights::<N> { node: PhantomData }, graph, hs, children, fuel);
            let c = fold_children(CountNodes::<N> { node: PhantomData }, graph, hc, children, fuel);
            b is Some && c is Some ==> s is Some && b.unwrap() == s.unwrap() + c.unwrap()
        }),
    decreases fuel, children.len() + 1,
{
    if children.len() > 0 {
        let bump = WrapInit { fold: SumWeights::<N> { node: PhantomData }, wrap: AddOne };
        let sum = SumWeights::<N> { node: PhantomData };
        let count = CountNodes::<N> { node: PhantomData };
        lemma_bump_cata(graph, children[0], fuel);
        let rb = cata(bump, graph, children[0], fuel);
        let rs = cata(sum, graph, children[0], fuel);
        let rc = cata(count, graph, children[0], fuel);
        if rb is Some && rc is Some && bump.accumulate_ok(hb, rb.unwrap()) && count.accumulate_ok(hc, rc.unwrap()) {
            lemma_bump_fold_children(
                graph,
                (hb + rb.unwrap()) as u64,
                (hs + rs.unwrap()) as u64,
                (hc + rc.unwrap()) as usize,
                children.drop_first(),
                fuel,
            );
        }
    }
}

/// Adding one at every node's init adds the number of nodes: the bumped
/// sum of weights is the plain sum plus the node count (the count taken
/// where it fits a `usize`).
pub proof fn law_bump_init<N: Weighted, G: Graph<N>>(graph: G, node: N::V)
    requires
        defined(WrapInit { fold: SumWeights::<N> { node: PhantomData }, wrap: AddOne }, graph, node),
        defined(CountNodes::<N> { node: PhantomData }, graph, node),
    ensures
        defined(SumWeights::<N> { node: PhantomData }, graph, node),
        fold_result(WrapInit { fold: SumWeights::<N> { node: PhantomData }, wrap: AddOne }, graph, node) == fold_result(
            SumWeights::<N> { node: PhantomData },
            graph,
            node,
        ) + fold_result(CountNodes::<N> { node: PhantomData }, graph, node),
{
    let bump = WrapInit { fold: SumWeights::<N> { node: PhantomData }, wrap: AddOne };
    let sum = SumWeights::<N> { node: PhantomData };
    let count = CountNodes::<N> { node: PhantomData };
    let fb = choose|f: nat| (#[trigger] cata(bump, graph, node, f)) is Some;
    let fc = choose|f: nat| (#[trigger] cata(count, graph, node, f)) is Some;
    let f = if fb <= fc { fc } else { fb };
    lemma_cata_fuel(bump, graph, node, fb, f);
    lemma_cata_fuel(count, graph, node, fc, f);
    lemma_bump_cata(graph, node, f);
    lemma_fold_result(bump, graph, node, f);
    lemma_fold_result(count, graph, node, f);
    lemma_fold_result(sum, graph, node, f);
}


proof fn lemma_skip_cata<N: Weighted, G: Graph<N>>(threshold: u64, graph: G, node: N::V, fuel: nat)
    ensures
        ({
            let k = cata(SkipBelow { fold: SumWeights::<N> { node: PhantomData }, threshold }, graph, node, fuel);
            let s = cata(SumWeights::<N> { node: PhantomData }, graph, node, fuel);
            s is Some ==> k is Some && k.unwrap() <= s.unwrap()
        }),
    decreases fuel, 0nat,
{
    if fuel > 0 && graph.expandable(node) {
        lemma_skip_fold_children(
            threshold,
            graph,
            N::weight_of(node),
            N::weight_of(node),
            graph.children_spec(node),
            (fuel - 1) as nat,
        );
    }
}

proof fn lemma_skip_fold_children<N: Weighted, G: Graph<N>>(
    threshold: u64,
    graph: G,
    hk: u64,
    hs: u64,
    children: Seq<N::V>,
    fuel: nat,
)
    requires
        hk <= hs,
    ensures
        ({
            let k = fold_children(
                SkipBelow { fold: SumWeights::<N> { node: PhantomData }, threshold },
                graph,
                hk,
                children,
                fuel,
            );
            let s = fold_children(SumWeights::<N> { node: PhantomData }, graph, hs, children, fuel);
            s is Some ==> k is Some && k.unwrap() <= s.unwrap()
        }),
    decreases fuel, children.len() + 1,
{
    if children.len() > 0 {
        let skip = SkipBelow { fold: SumWeights::<N> { node: PhantomData }, threshold };
        let sum = SumWeights::<N> { node: PhantomData };
        lemma_skip_cata(threshold, graph, children[0], fuel);
        let rk = cata(skip, graph, children[0], fuel);
        let rs = cata(sum, graph, children[0], fuel);
        if rs is Some && sum.accumulate_ok(hs, rs.unwrap()) {
            lemma_skip_fold_children(
                threshold,
                graph,
                skip.accumulate_spec(hk, rk.unwrap()),
                (hs + rs.unwrap()) as u64,
                children.drop_first(),
                fuel,
            );
        }
    }
}

/// Skipping the children whose sums fall below a threshold never raises a
/// sum of weights: wherever the plain sum is defined, the skipping one is
/// too, and is at most the plain sum.
pub proof fn law_skip_below<N: Weighted, G: Graph<N>>(threshold: u64, graph: G, node: N::V)
    requires
        defined(SumWeights::<N> { node: PhantomData }, graph, node),
    ensures
        defined(SkipBelow { fold: SumWeights::<N> { node: PhantomData }, threshold }, graph, node),
        fold_result(SkipBelow { fold: SumWeights::<N> { node: PhantomData }, threshold }, graph, node)
            <= fold_result(SumWeights::<N> { node: PhantomData }, graph, node),
{
    let skip = SkipBelow { fold: SumWeights::<N> { node: PhantomData }, threshold };
    let sum = SumWeights::<N> { node: PhantomData };
    let f = choose|f: nat| (#[trigger] cata(sum, graph, node, f)) is Some;
    lemma_skip_cata(threshold, graph, node, f);
    lemma_fold_result(skip, graph, node, f);
    lemma_fold_result(sum, graph, node, f);
}

} // verus!
