//! Trees kept as flat data: nodes are indices, children come from an
//! adjacency list, per-node values from an array.
use vstd::prelude::*;
use crate::recursion::{Algebra, Graph};
use crate::folds::Weighted;

verus! {

/// Children of node `i` are the indices listed at `adj[i]`.
#[derive(Clone)]
pub struct AdjacencyList {
    pub adj: Vec<Vec<usize>>,
}

impl AdjacencyList {
    pub open spec fn lists(&self) -> Seq<Seq<usize>> {
        self.adj.deep_view()
    }
}

impl Graph<usize> for AdjacencyList {
    open spec fn expandable(&self, node: usize) -> bool {
        node < self.adj@.len()
    }

    open spec fn children_spec(&self, node: usize) -> Seq<usize> {
        self.adj@[node as int]@
    }

    fn children(&self, node: &usize) -> (cs: Vec<usize>) {
        let list = &self.adj[*node];
        let mut cs: Vec<usize> = Vec::new();
        let mut i: usize = 0;
        while i < list.len()
            invariant
                i <= list@.len(),
                cs@ =~= list@.take(i as int),
            decreases list@.len() - i,
        {
            cs.push(list[i]);
            i = i + 1;
        }
        assert(list@.take(i as int) =~= list@);
        assert(cs.deep_view() =~= cs@);
        cs
    }
}

impl Weighted for usize {
    open spec fn weight_of(node: usize) -> u64 {
        node as u64
    }

    fn weight(&self) -> (w: u64) {
        *self as u64
    }
}

/// Each node starts from its value in `vals`; children's results are
/// added in.
#[derive(Clone)]
pub struct ValueSum {
    pub vals: Vec<u64>,
}

impl Algebra for ValueSum {
    type Node = usize;
    type Heap = u64;
    type Out = u64;

    open spec fn init_ok(&self, node: usize) -> bool {
        node < self.vals@.len()
    }

    open spec fn init_spec(&self, node: usize) -> u64 {
        self.vals@[node as int]
    }

    open spec fn accumulate_ok(&self, heap: u64, child: u64) -> bool {
        heap + child <= u64::MAX
    }

    open spec fn accumulate_spec(&self, heap: u64, child: u64) -> u64 {
        (heap + child) as u64
    }

    open spec fn finalize_spec(&self, heap: u64) -> u64 {
        heap
    }

    fn init(&self, node: &usize) -> (heap: u64) {
        self.vals[*node]
    }

    fn accumulate(&self, heap: &mut u64, child: &u64) {
        *heap = *heap + *child;
    }

    fn finalize(&self, heap: &u64) -> (res: u64) {
        *heap
    }
}

} // verus!
