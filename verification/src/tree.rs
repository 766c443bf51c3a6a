//! Trees stored as nested structs, and the graph that reads their
//! children.
use vstd::prelude::*;
use crate::recursion::Graph;

verus! {

/// A node with a payload and its child nodes.
pub struct Tree<T> {
    pub value: T,
    pub children: Vec<Tree<T>>,
}

/// The mathematical tree that a `Tree` stands for.
pub struct TreeModel<V> {
    pub value: V,
    pub children: Seq<TreeModel<V>>,
}

impl<T: DeepView> Tree<T> {
    /// The mathematical tree this one stands for.
    pub open spec fn model(&self) -> TreeModel<T::V>
        decreases self,
    {
        TreeModel {
            value: self.value.deep_view(),
            children: Seq::new(
                self.children@.len(),
                |i: int|
                    if 0 <= i < self.children@.len() {
                        self.children@[i].model()
                    } else {
                        arbitrary()
                    },
            ),
        }
    }
}

impl<T: DeepView> DeepView for Tree<T> {
    type V = TreeModel<T::V>;

    open spec fn deep_view(&self) -> TreeModel<T::V> {
        self.model()
    }
}

impl<T: DeepView> Tree<T> {
    /// The children's views are the model's children.
    pub proof fn lemma_children_view(&self)
        ensures
            self.children.deep_view() == self.deep_view().children,
    {
        let a = self.children.deep_view();
        let b = self.deep_view().children;
        assert(a.len() == b.len());
        assert forall|i: int| 0 <= i < a.len() implies a[i] == b[i] by {
            assert(a[i] == self.children@[i].deep_view());
        }
        assert(a =~= b);
    }

    /// A node without children.
    pub fn leaf(value: T) -> (t: Tree<T>)
        ensures
            t.value == value,
            t.children@.len() == 0,
            t.deep_view().value == value.deep_view(),
            t.deep_view().children.len() == 0,
    {
        Tree { value, children: Vec::new() }
    }

    /// A node with the given children, in order.
    pub fn node(value: T, children: Vec<Tree<T>>) -> (t: Tree<T>)
        ensures
            t.value == value,
            t.children == children,
            t.deep_view().value == value.deep_view(),
            t.deep_view().children == children.deep_view(),
    {
        let t = Tree { value, children };
        proof {
            t.lemma_children_view();
        }
        t
    }
}

/// Values that can be copied so that the copy stands for the same thing.
pub trait Replicate: DeepView + Sized {
    fn replicate(&self) -> (r: Self)
        ensures
            r.deep_view() == self.deep_view(),
    ;
}

impl Replicate for u64 {
    fn replicate(&self) -> (r: u64) {
        *self
    }
}

impl Replicate for String {
    fn replicate(&self) -> (r: String) {
        self.clone()
    }
}

/// Copies each element of `v`.
pub fn replicate_all<T: Replicate>(v: &Vec<T>) -> (r: Vec<T>)
    ensures
        r.deep_view() == v.deep_view(),
{
    let mut r: Vec<T> = Vec::new();
    let mut i: usize = 0;
    while i < v.len()
        invariant
            i <= v@.len(),
            r.deep_view() =~= v.deep_view().take(i as int),
        decreases v@.len() - i,
    {
        let x = v[i].replicate();
        let ghost before = r.deep_view();
        r.push(x);
        assert(r.deep_view() =~= before.push(x.deep_view()));
        i = i + 1;
        assert(r.deep_view() =~= v.deep_view().take(i as int));
    }
    assert(v.deep_view().take(i as int) =~= v.deep_view());
    r
}

/// Appends copies of the elements of `src` to `dst`.
pub fn append_copies<T: Replicate>(dst: &mut Vec<T>, src: &Vec<T>)
    ensures
        final(dst).deep_view() == old(dst).deep_view() + src.deep_view(),
{
    let ghost start = dst.deep_view();
    let mut i: usize = 0;
    while i < src.len()
        invariant
            i <= src@.len(),
            dst.deep_view() =~= start + src.deep_view().take(i as int),
        decreases src@.len() - i,
    {
        let x = src[i].replicate();
        let ghost before = dst.deep_view();
        dst.push(x);
        assert(dst.deep_view() =~= before.push(x.deep_view()));
        i = i + 1;
        assert(dst.deep_view() =~= start + src.deep_view().take(i as int));
    }
    assert(src.deep_view().take(i as int) =~= src.deep_view());
}

impl<A: Replicate, B: Replicate> Replicate for (A, B) {
    fn replicate(&self) -> (r: (A, B)) {
        (self.0.replicate(), self.1.replicate())
    }
}

impl<T: Replicate> Replicate for Tree<T> {
    fn replicate(&self) -> (r: Tree<T>)
        decreases self,
    {
        let mut children: Vec<Tree<T>> = Vec::new();
        let mut i: usize = 0;
        while i < self.children.len()
            invariant
                i <= self.children@.len(),
                children.deep_view() =~= self.children.deep_view().take(i as int),
            decreases self.children@.len() - i,
        {
            assert(decreases_to!(self => self.children@[i as int]));
            let c = self.children[i].replicate();
            let ghost before = children.deep_view();
            children.push(c);
            assert(children.deep_view() =~= before.push(c.deep_view()));
            i = i + 1;
            assert(children.deep_view() =~= self.children.deep_view().take(i as int));
        }
        assert(self.children.deep_view().take(i as int) =~= self.children.deep_view());
        let r = Tree { value: self.value.replicate(), children };
        proof {
            r.lemma_children_view();
            self.lemma_children_view();
        }
        r
    }
}

impl<T: Replicate> Clone for Tree<T> {
    fn clone(&self) -> (r: Self)
        ensures
            r.deep_view() == self.deep_view(),
    {
        self.replicate()
    }
}

/// The graph of a stored tree: the children of a node are its `children`.
#[derive(Clone, Copy)]
pub struct Children;

impl<T: Replicate> Graph<Tree<T>> for Children {
    open spec fn expandable(&self, node: TreeModel<T::V>) -> bool {
        true
    }

    open spec fn children_spec(&self, node: TreeModel<T::V>) -> Seq<TreeModel<T::V>> {
        node.children
    }

    fn children(&self, node: &Tree<T>) -> (cs: Vec<Tree<T>>) {
        let cs = replicate_all(&node.children);
        proof {
            node.lemma_children_view();
        }
        cs
    }
}

} // verus!
