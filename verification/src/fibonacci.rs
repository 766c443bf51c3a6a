//! Fibonacci as a tree fold: the node is a number, its children are the two
//! numbers below it, the leaves 0 and 1 carry their own value and every
//! node sums its children.
use vstd::prelude::*;
use crate::recursion::{Algebra, Graph, cata, fold_children, lemma_fold_result};
use crate::exec::fused;

verus! {

/// A Fibonacci node: just the number.
#[derive(Clone, Copy)]
pub struct FibNode(pub u64);

impl DeepView for FibNode {
    type V = u64;

    open spec fn deep_view(&self) -> u64 {
        self.0
    }
}

pub open spec fn fib(n: nat) -> nat
    decreases n,
{
    if n <= 1 {
        n
    } else {
        fib((n - 1) as nat) + fib((n - 2) as nat)
    }
}

/// Children of `n` are `n - 1` and `n - 2`; 0 and 1 are leaves.
#[derive(Clone, Copy)]
pub struct FibTree;

impl Graph<FibNode> for FibTree {
    open spec fn expandable(&self, node: u64) -> bool {
        true
    }

    open spec fn children_spec(&self, node: u64) -> Seq<u64> {
        if node <= 1 {
            seq![]
        } else {
            seq![(node - 1) as u64, (node - 2) as u64]
        }
    }

    fn children(&self, node: &FibNode) -> (cs: Vec<FibNode>) {
        let mut cs: Vec<FibNode> = Vec::new();
        if node.0 > 1 {
            cs.push(FibNode(node.0 - 1));
            cs.push(FibNode(node.0 - 2));
        }
        assert(cs.deep_view() =~= self.children_spec(node.0));
        cs
    }
}

/// Leaves seed the heap with their number, inner nodes with 0; each
/// child's result is added in; the heap is the result.
#[derive(Clone, Copy)]
pub struct FibSum;

impl Algebra for FibSum {
    type Node = FibNode;
    type Heap = u64;
    type Out = u64;

    open spec fn init_ok(&self, node: u64) -> bool {
        true
    }

    open spec fn init_spec(&self, node: u64) -> u64 {
        if node <= 1 {
            node
        } else {
            0
        }
    }

    open spec fn accumulate_ok(&self, heap: u64, child: u64) -> bool {
        heap + child <= u64::MAX
    }

    open spec fn accumulate_spec(&self, heap: u64, child: u64) -> u64 {
        (heap + child) as u64
    }

    open spec fn finalize_spec(&self, heap: u64) -> u64 {
        heap
    }

    fn init(&self, node: &FibNode) -> (heap: u64) {
        if node.0 <= 1 {
            node.0
        } else {
            0
        }
    }

    fn accumulate(&self, heap: &mut u64, child: &u64) {
        *heap = *heap + *child;
    }

    fn finalize(&self, heap: &u64) -> (res: u64) {
        *heap
    }
}

proof fn lemma_fib_monotone(n: nat)
    requires
        n >= 1,
    ensures
        fib((n - 1) as nat) <= fib(n),
    decreases n,
{
}

/// With enough depth, the fold at `n` gives `fib(n)`.
proof fn lemma_fib_fold(n: u64, fuel: nat)
    requires
        fuel > n,
        fib(n as nat) <= u64::MAX,
    ensures
        cata(FibSum, FibTree, n, fuel) == Some(fib(n as nat) as u64),
    decreases n,
{
    let f = (fuel - 1) as nat;
    if n > 1 {
        let a = (n - 1) as u64;
        let b = (n - 2) as u64;
        lemma_fib_monotone(n as nat);
        lemma_fib_monotone((n - 1) as nat);
        lemma_fib_fold(a, f);
        lemma_fib_fold(b, f);
        let cs = FibTree.children_spec(n);
        assert(cs.drop_first() =~= seq![b]);
        assert(cs.drop_first().drop_first() =~= Seq::<u64>::empty());
        let fa = fib(a as nat) as u64;
        let fab = fib(n as nat) as u64;
        assert(cs[0] == a);
        assert(cs.drop_first()[0] == b);
        assert(fold_children(FibSum, FibTree, fab, cs.drop_first().drop_first(), f) == Some(fab));
        assert(fold_children(FibSum, FibTree, fa, cs.drop_first(), f) == Some(fab));
        assert(fold_children(FibSum, FibTree, 0, cs, f) == Some(fab));
    } else {
        assert(fold_children(FibSum, FibTree, n, FibTree.children_spec(n), f) == Some(n));
    }
}

/// The `n`-th Fibonacci number, computed by folding the tree of calls.
pub fn fib_by_fold(n: u64) -> (r: u64)
    requires
        fib(n as nat) <= u64::MAX,
    ensures
        r == fib(n as nat),
{
    proof {
        lemma_fib_fold(n, n as nat + 1);
        lemma_fold_result(FibSum, FibTree, n, n as nat + 1);
    }
    fused(FibSum, FibTree, &FibNode(n))
}

} // verus!
