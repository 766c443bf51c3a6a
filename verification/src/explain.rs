//! Computation tracing: a fold transformed to record, at every node, the
//! initial heap, each child's trace with the heap it left behind, and the
//! result the unwrapped fold gives there.
use vstd::prelude::*;
use crate::recursion::{
    Algebra, Graph, cata, fold_children, defined, fold_result, lemma_fold_result, lemma_fold_children_results,
};
use crate::tree::Replicate;

verus! {

/// One accumulation: the child's trace and the heap after folding its
/// result in.
pub struct Step<H, T> {
    pub incoming: T,
    pub resulting_heap: H,
}

/// The heap of a traced node: the node, its initial heap, the steps so
/// far and the current heap.
pub struct TraceHeap<N, H, R> {
    pub node: N,
    pub initial_heap: H,
    pub transitions: Vec<Step<H, Trace<N, H, R>>>,
    pub working_heap: H,
}

/// The trace of a node's computation, with the result the unwrapped fold
/// gives there.
pub struct Trace<N, H, R> {
    pub orig_result: R,
    pub heap: TraceHeap<N, H, R>,
}

/// What a trace stands for.
pub struct TraceView<NV, HV, RV> {
    pub orig_result: RV,
    pub node: NV,
    pub initial_heap: HV,
    pub transitions: Seq<StepView<NV, HV, RV>>,
    pub working_heap: HV,
}

pub struct StepView<NV, HV, RV> {
    pub incoming: TraceView<NV, HV, RV>,
    pub resulting_heap: HV,
}

/// What a trace heap stands for: node, initial heap, steps, current heap.
pub struct TraceHeapView<NV, HV, RV> {
    pub node: NV,
    pub initial_heap: HV,
    pub transitions: Seq<StepView<NV, HV, RV>>,
    pub working_heap: HV,
}

impl<N: DeepView, H: DeepView, R: DeepView> Trace<N, H, R> {
    pub open spec fn model(&self) -> TraceView<N::V, H::V, R::V>
        decreases self,
    {
        TraceView {
            orig_result: self.orig_result.deep_view(),
            node: self.heap.node.deep_view(),
            initial_heap: self.heap.initial_heap.deep_view(),
            transitions: Seq::new(
                self.heap.transitions@.len(),
                |i: int|
                    if 0 <= i < self.heap.transitions@.len() {
                        StepView {
                            incoming: self.heap.transitions@[i].incoming.model(),
                            resulting_heap: self.heap.transitions@[i].resulting_heap.deep_view(),
                        }
                    } else {
                        arbitrary()
                    },
            ),
            working_heap: self.heap.working_heap.deep_view(),
        }
    }
}

impl<N: DeepView, H: DeepView, R: DeepView> DeepView for Trace<N, H, R> {
    type V = TraceView<N::V, H::V, R::V>;

    open spec fn deep_view(&self) -> TraceView<N::V, H::V, R::V> {
        self.model()
    }
}

impl<N: DeepView, H: DeepView, R: DeepView> TraceHeap<N, H, R> {
    pub open spec fn steps(&self) -> Seq<StepView<N::V, H::V, R::V>> {
        Seq::new(
            self.transitions@.len(),
            |i: int|
                StepView {
                    incoming: self.transitions@[i].incoming.model(),
                    resulting_heap: self.transitions@[i].resulting_heap.deep_view(),
                },
        )
    }
}

impl<N: DeepView, H: DeepView, R: DeepView> DeepView for TraceHeap<N, H, R> {
    type V = TraceHeapView<N::V, H::V, R::V>;

    open spec fn deep_view(&self) -> TraceHeapView<N::V, H::V, R::V> {
        TraceHeapView {
            node: self.node.deep_view(),
            initial_heap: self.initial_heap.deep_view(),
            transitions: self.steps(),
            working_heap: self.working_heap.deep_view(),
        }
    }
}


impl<N: Replicate, H: Replicate, R: Replicate> Replicate for Trace<N, H, R> {
    fn replicate(&self) -> (r: Trace<N, H, R>)
        decreases self,
    {
        let mut steps: Vec<Step<H, Trace<N, H, R>>> = Vec::new();
        let mut i: usize = 0;
        while i < self.heap.transitions.len()
            invariant
                i <= self.heap.transitions@.len(),
                steps@.len() == i,
                forall|j: int|
                    0 <= j < i ==> (#[trigger] steps@[j]).incoming.model() == self.heap.transitions@[j].incoming.model()
                        && steps@[j].resulting_heap.deep_view() == self.heap.transitions@[j].resulting_heap.deep_view(),
            decreases self.heap.transitions@.len() - i,
        {
            let step = &self.heap.transitions[i];
            assert(decreases_to!(self => self.heap.transitions@[i as int].incoming));
            let incoming = step.incoming.replicate();
            let resulting_heap = step.resulting_heap.replicate();
            steps.push(Step { incoming, resulting_heap });
            i = i + 1;
        }
        let r = Trace {
            orig_result: self.orig_result.replicate(),
            heap: TraceHeap {
                node: self.heap.node.replicate(),
                initial_heap: self.heap.initial_heap.replicate(),
                transitions: steps,
                working_heap: self.heap.working_heap.replicate(),
            },
        };
        assert(r.model().transitions =~= self.model().transitions);
        r
    }
}

/// `fold` traced: the result of a node is its trace, whose `orig_result`
/// is what `fold` gives there.
#[derive(Clone)]
pub struct Explain<A> {
    pub fold: A,
}

pub type HeapOf<A> = TraceHeapView<
    <<A as Algebra>::Node as DeepView>::V,
    <<A as Algebra>::Heap as DeepView>::V,
    <<A as Algebra>::Out as DeepView>::V,
>;

pub type TraceOf<A> = TraceView<
    <<A as Algebra>::Node as DeepView>::V,
    <<A as Algebra>::Heap as DeepView>::V,
    <<A as Algebra>::Out as DeepView>::V,
>;

impl<A: Algebra> Algebra for Explain<A> where A::Node: Replicate, A::Heap: Replicate, A::Out: Replicate {
    type Node = A::Node;
    type Heap = TraceHeap<A::Node, A::Heap, A::Out>;
    type Out = Trace<A::Node, A::Heap, A::Out>;

    open spec fn init_ok(&self, node: <A::Node as DeepView>::V) -> bool {
        self.fold.init_ok(node)
    }

    open spec fn init_spec(&self, node: <A::Node as DeepView>::V) -> HeapOf<A> {
        TraceHeapView {
            node,
            initial_heap: self.fold.init_spec(node),
            transitions: seq![],
            working_heap: self.fold.init_spec(node),
        }
    }

    open spec fn accumulate_ok(&self, heap: HeapOf<A>, child: TraceOf<A>) -> bool {
        self.fold.accumulate_ok(heap.working_heap, child.orig_result)
    }

    open spec fn accumulate_spec(&self, heap: HeapOf<A>, child: TraceOf<A>) -> HeapOf<A> {
        let w = self.fold.accumulate_spec(heap.working_heap, child.orig_result);
        TraceHeapView {
            node: heap.node,
            initial_heap: heap.initial_heap,
            transitions: heap.transitions.push(StepView { incoming: child, resulting_heap: w }),
            working_heap: w,
        }
    }

    open spec fn finalize_spec(&self, heap: HeapOf<A>) -> TraceOf<A> {
        TraceView {
            orig_result: self.fold.finalize_spec(heap.working_heap),
            node: heap.node,
            initial_heap: heap.initial_heap,
            transitions: heap.transitions,
            working_heap: heap.working_heap,
        }
    }

    fn init(&self, node: &A::Node) -> (heap: TraceHeap<A::Node, A::Heap, A::Out>) {
        let h = self.fold.init(node);
        let heap = TraceHeap {
            node: node.replicate(),
            initial_heap: h.replicate(),
            transitions: Vec::new(),
            working_heap: h,
        };
        assert(heap.steps() =~= Seq::<StepView<_, _, _>>::empty());
        heap
    }

    fn accumulate(&self, heap: &mut TraceHeap<A::Node, A::Heap, A::Out>, child: &Trace<A::Node, A::Heap, A::Out>) {
        let ghost before = heap.steps();
        self.fold.accumulate(&mut heap.working_heap, &child.orig_result);
        let step = Step { incoming: child.replicate(), resulting_heap: heap.working_heap.replicate() };
        heap.transitions.push(step);
        assert(heap.steps() =~= before.push(
            StepView { incoming: child.model(), resulting_heap: heap.working_heap.deep_view() },
        ));
    }

    fn finalize(&self, heap: &TraceHeap<A::Node, A::Heap, A::Out>) -> (res: Trace<A::Node, A::Heap, A::Out>) {
        let orig_result = self.fold.finalize(&heap.working_heap);
        let mut steps: Vec<Step<A::Heap, Trace<A::Node, A::Heap, A::Out>>> = Vec::new();
        let mut i: usize = 0;
        while i < heap.transitions.len()
            invariant
                i <= heap.transitions@.len(),
                steps@.len() == i,
                forall|j: int|
                    0 <= j < i ==> (#[trigger] steps@[j]).incoming.model() == heap.transitions@[j].incoming.model()
                        && steps@[j].resulting_heap.deep_view() == heap.transitions@[j].resulting_heap.deep_view(),
            decreases heap.transitions@.len() - i,
        {
            let step = &heap.transitions[i];
            steps.push(Step { incoming: step.incoming.replicate(), resulting_heap: step.resulting_heap.replicate() });
            i = i + 1;
        }
        let r = Trace {
            orig_result,
            heap: TraceHeap {
                node: heap.node.replicate(),
                initial_heap: heap.initial_heap.replicate(),
                transitions: steps,
                working_heap: heap.working_heap.replicate(),
            },
        };
        assert(r.model().transitions =~= heap.steps());
        r
    }
}


proof fn lemma_explain_cata<A: Algebra, G: Graph<A::Node>>(
    e: Explain<A>,
    graph: G,
    node: <A::Node as DeepView>::V,
    fuel: nat,
) where A::Node: Replicate, A::Heap: Replicate, A::Out: Replicate
    ensures
        cata(e, graph, node, fuel) is Some <==> cata(e.fold, graph, node, fuel) is Some,
        cata(e, graph, node, fuel) is Some ==> {
            let t = cata(e, graph, node, fuel).unwrap();
            &&& t.orig_result == cata(e.fold, graph, node, fuel).unwrap()
            &&& t.node == node
            &&& t.initial_heap == e.fold.init_spec(node)
            &&& t.transitions.len() == graph.children_spec(node).len()
        },
    decreases fuel, 0nat,
{
    if fuel > 0 && graph.expandable(node) && e.init_ok(node) {
        lemma_explain_fold_children(e, graph, e.init_spec(node), graph.children_spec(node), (fuel - 1) as nat);
    }
}

proof fn lemma_explain_fold_children<A: Algebra, G: Graph<A::Node>>(
    e: Explain<A>,
    graph: G,
    heap: HeapOf<A>,
    children: Seq<<A::Node as DeepView>::V>,
    fuel: nat,
) where A::Node: Replicate, A::Heap: Replicate, A::Out: Replicate
    ensures
        fold_children(e, graph, heap, children, fuel) is Some <==> fold_children(
            e.fold,
            graph,
            heap.working_heap,
            children,
            fuel,
        ) is Some,
        fold_children(e, graph, heap, children, fuel) is Some ==> {
            let h = fold_children(e, graph, heap, children, fuel).unwrap();
            &&& h.working_heap == fold_children(e.fold, graph, heap.working_heap, children, fuel).unwrap()
            &&& h.node == heap.node
            &&& h.initial_heap == heap.initial_heap
            &&& h.transitions.len() == heap.transitions.len() + children.len()
            &&& h.transitions == heap.transitions + trace_steps(e, graph, heap.working_heap, children, fuel)
        },
    decreases fuel, children.len() + 1,
{
    if children.len() > 0 {
        lemma_explain_cata(e, graph, children[0], fuel);
        if cata(e, graph, children[0], fuel) is Some {
            let t = cata(e, graph, children[0], fuel).unwrap();
            let next = e.accumulate_spec(heap, t);
            lemma_explain_fold_children(e, graph, next, children.drop_first(), fuel);
            if fold_children(e, graph, heap, children, fuel) is Some {
                assert(next.transitions + trace_steps(e, graph, next.working_heap, children.drop_first(), fuel)
                    =~= heap.transitions + trace_steps(e, graph, heap.working_heap, children, fuel));
            }
        }
    } else {
        assert(heap.transitions + trace_steps(e, graph, heap.working_heap, children, fuel) =~= heap.transitions);
    }
}

/// The steps a traced run appends for `children`, starting from the plain
/// heap `w`: each child's trace, with the plain heap after its result is
/// accumulated.
pub open spec fn trace_steps<A: Algebra, G: Graph<A::Node>>(
    e: Explain<A>,
    graph: G,
    w: <A::Heap as DeepView>::V,
    children: Seq<<A::Node as DeepView>::V>,
    fuel: nat,
) -> Seq<StepView<<A::Node as DeepView>::V, <A::Heap as DeepView>::V, <A::Out as DeepView>::V>>
    where A::Node: Replicate, A::Heap: Replicate, A::Out: Replicate
    decreases children.len(),
{
    if children.len() == 0 {
        Seq::empty()
    } else {
        let t = cata(e, graph, children[0], fuel).unwrap();
        let w1 = e.fold.accumulate_spec(w, t.orig_result);
        seq![StepView { incoming: t, resulting_heap: w1 }] + trace_steps(e, graph, w1, children.drop_first(), fuel)
    }
}

proof fn lemma_trace_steps_at<A: Algebra, G: Graph<A::Node>>(
    e: Explain<A>,
    graph: G,
    w: <A::Heap as DeepView>::V,
    children: Seq<<A::Node as DeepView>::V>,
    fuel: nat,
    k: int,
) where A::Node: Replicate, A::Heap: Replicate, A::Out: Replicate
    requires
        0 <= k < children.len(),
    ensures
        trace_steps(e, graph, w, children, fuel).len() == children.len(),
        trace_steps(e, graph, w, children, fuel)[k].incoming == cata(e, graph, children[k], fuel).unwrap(),
        trace_steps(e, graph, w, children, fuel)[k].resulting_heap == e.fold.accumulate_spec(
            if k == 0 {
                w
            } else {
                trace_steps(e, graph, w, children, fuel)[k - 1].resulting_heap
            },
            cata(e, graph, children[k], fuel).unwrap().orig_result,
        ),
    decreases children.len(),
{
    let t = cata(e, graph, children[0], fuel).unwrap();
    let w1 = e.fold.accumulate_spec(w, t.orig_result);
    let rest = children.drop_first();
    let steps = trace_steps(e, graph, w, children, fuel);
    let inner = trace_steps(e, graph, w1, rest, fuel);
    assert(steps == seq![StepView { incoming: t, resulting_heap: w1 }] + inner);
    if rest.len() > 0 {
        lemma_trace_steps_at(e, graph, w1, rest, fuel, 0);
    } else {
        assert(inner.len() == 0);
    }
    if k > 0 {
        lemma_trace_steps_at(e, graph, w1, rest, fuel, k - 1);
        assert(steps[k] == inner[k - 1]);
        assert(rest[k - 1] == children[k]);
        if k > 1 {
            assert(steps[k - 1] == inner[k - 2]);
        }
    }
}

/// Tracing a fold does not change it: the traced run is defined exactly
/// when the plain one is, its `orig_result` is the plain result, and the
/// root's trace holds the root, its initial heap and one step per child.
pub proof fn law_explain<A: Algebra, G: Graph<A::Node>>(
    fold: A,
    graph: G,
    node: <A::Node as DeepView>::V,
) where A::Node: Replicate, A::Heap: Replicate, A::Out: Replicate
    ensures
        defined(Explain { fold }, graph, node) <==> defined(fold, graph, node),
        defined(fold, graph, node) ==> {
            let t = fold_result(Explain { fold }, graph, node);
            &&& t.orig_result == fold_result(fold, graph, node)
            &&& t.node == node
            &&& t.initial_heap == fold.init_spec(node)
            &&& t.transitions.len() == graph.children_spec(node).len()
        },
{
    let e = Explain { fold };
    if defined(e, graph, node) {
        let f = choose|f: nat| (#[trigger] cata(e, graph, node, f)) is Some;
        lemma_explain_cata(e, graph, node, f);
        lemma_fold_result(e, graph, node, f);
        lemma_fold_result(fold, graph, node, f);
    }
    if defined(fold, graph, node) {
        let f = choose|f: nat| (#[trigger] cata(fold, graph, node, f)) is Some;
        lemma_explain_cata(e, graph, node, f);
        lemma_fold_result(e, graph, node, f);
        lemma_fold_result(fold, graph, node, f);
    }
}


/// A trace nests the traces of the children at every depth: wherever the
/// plain run is defined, each step of a node's trace holds the full traced
/// result of the matching child (so its own steps, and theirs, down to the
/// leaves), and its heap is the plain fold's `accumulate` of the heap before
/// it (the initial heap, for the first step) with that child's plain
/// result.
pub proof fn law_explain_nested<A: Algebra, G: Graph<A::Node>>(
    fold: A,
    graph: G,
    node: <A::Node as DeepView>::V,
    i: int,
) where A::Node: Replicate, A::Heap: Replicate, A::Out: Replicate
    requires
        defined(fold, graph, node),
        0 <= i < graph.children_spec(node).len(),
    ensures
        defined(Explain { fold }, graph, graph.children_spec(node)[i]),
        fold_result(Explain { fold }, graph, node).transitions[i].incoming == fold_result(
            Explain { fold },
            graph,
            graph.children_spec(node)[i],
        ),
        fold_result(Explain { fold }, graph, node).transitions[i].resulting_heap == fold.accumulate_spec(
            if i == 0 {
                fold.init_spec(node)
            } else {
                fold_result(Explain { fold }, graph, node).transitions[i - 1].resulting_heap
            },
            fold_result(fold, graph, graph.children_spec(node)[i]),
        ),
{
    let e = Explain { fold };
    let cs = graph.children_spec(node);
    law_explain(fold, graph, node);
    let f = choose|f: nat| (#[trigger] cata(e, graph, node, f)) is Some;
    lemma_fold_result(e, graph, node, f);
    let g = (f - 1) as nat;
    lemma_explain_fold_children(e, graph, e.init_spec(node), cs, g);
    lemma_fold_children_results(e, graph, e.init_spec(node), cs, g);
    assert(cata(e, graph, cs[i], g) is Some);
    lemma_fold_result(e, graph, cs[i], g);
    lemma_explain_cata(e, graph, cs[i], g);
    lemma_fold_result(fold, graph, cs[i], g);
    lemma_trace_steps_at(e, graph, fold.init_spec(node), cs, g, i);
    let t = fold_result(e, graph, node);
    let steps = trace_steps(e, graph, fold.init_spec(node), cs, g);
    assert(t.transitions == e.init_spec(node).transitions + steps);
    assert(t.transitions =~= steps);
}

} // verus!
