//! Graph transformations and small computed graphs.
use vstd::prelude::*;
use crate::recursion::Graph;
use crate::tree::{Tree, TreeModel};
use crate::exec::SeedSource;
use vstd::string::*;

verus! {

/// Which nodes a filtered graph keeps.
pub trait NodePredicate<N: DeepView> {
    spec fn holds(&self, node: N::V) -> bool;

    fn test(&self, node: &N) -> (b: bool)
        ensures
            b == self.holds(node.deep_view()),
    ;
}

/// The nodes of `nodes` that `keep` holds of, in order.
pub open spec fn kept_by<N: DeepView, P: NodePredicate<N>>(keep: P, nodes: Seq<N::V>) -> Seq<N::V> {
    nodes.filter(|c: N::V| keep.holds(c))
}

/// The items of `items` that `keep` holds of, in order.
pub fn keep_only<N: DeepView, P: NodePredicate<N>>(items: Vec<N>, keep: &P) -> (kept: Vec<N>)
    ensures
        kept.deep_view() == kept_by::<N, P>(*keep, items.deep_view()),
{
    let mut rest = items;
    let total = rest.len();
    let ghost whole = rest.deep_view();
    let mut kept: Vec<N> = Vec::new();
    let mut i: usize = 0;
    while rest.len() > 0
        invariant
            i <= whole.len(),
            i + rest@.len() == whole.len(),
            whole.len() == total,
            rest.deep_view() =~= whole.skip(i as int),
            kept.deep_view() =~= kept_by::<N, P>(*keep, whole.take(i as int)),
        decreases rest@.len(),
    {
        let ghost r0 = rest.deep_view();
        let ghost v0 = rest@;
        let c = rest.remove(0);
        assert(c == v0[0]);
        assert(r0[0] == whole.skip(i as int)[0]);
        assert(c.deep_view() == whole[i as int]);
        assert forall|j: int| 0 <= j < rest@.len() implies #[trigger] rest.deep_view()[j] == whole.skip(i + 1)[j] by {
            assert(rest@[j] == v0[j + 1]);
            assert(r0[j + 1] == whole.skip(i as int)[j + 1]);
        }
        assert(rest.deep_view() =~= whole.skip(i + 1));
        assert(whole.take(i + 1).drop_last() =~= whole.take(i as int));
        assert(whole.take(i + 1).last() == whole[i as int]);
        let holds = keep.test(&c);
        assert(keep.holds(whole[i as int]) == holds);
        proof {
            reveal_with_fuel(Seq::<_>::filter, 1);
            assert(kept_by::<N, P>(*keep, whole.take(i + 1)) == if holds {
                kept_by::<N, P>(*keep, whole.take(i as int)).push(whole[i as int])
            } else {
                kept_by::<N, P>(*keep, whole.take(i as int))
            });
        }
        if holds {
            let ghost k0 = kept.deep_view();
            kept.push(c);
            assert(kept.deep_view() =~= k0.push(whole[i as int]));
        }
        i = i + 1;
    }
    assert(whole.take(i as int) =~= whole);
    kept
}

/// `graph` with the children that fail `keep` dropped; the fold is
/// unchanged.
#[derive(Clone)]
pub struct Filtered<G, P> {
    pub graph: G,
    pub keep: P,
}

impl<N: DeepView, G: Graph<N>, P: NodePredicate<N>> Graph<N> for Filtered<G, P> {
    open spec fn expandable(&self, node: N::V) -> bool {
        self.graph.expandable(node)
    }

    open spec fn children_spec(&self, node: N::V) -> Seq<N::V> {
        kept_by::<N, P>(self.keep, self.graph.children_spec(node))
    }

    fn children(&self, node: &N) -> (cs: Vec<N>) {
        let all = self.graph.children(node);
        keep_only(all, &self.keep)
    }
}

/// Keeps the nodes of a `u64` tree whose value exceeds `limit`.
#[derive(Clone, Copy)]
pub struct ValueAbove {
    pub limit: u64,
}

impl NodePredicate<Tree<u64>> for ValueAbove {
    open spec fn holds(&self, node: TreeModel<u64>) -> bool {
        node.value > self.limit
    }

    fn test(&self, node: &Tree<u64>) -> (b: bool) {
        node.value > self.limit
    }
}

/// Keeps the nonzero numbers.
#[derive(Clone, Copy)]
pub struct NonZero;

impl NodePredicate<u64> for NonZero {
    open spec fn holds(&self, node: u64) -> bool {
        node != 0
    }

    fn test(&self, node: &u64) -> (b: bool) {
        *node != 0
    }
}

/// A chain counting down: the only child of `n` is `n - 1`; 0 is a leaf.
#[derive(Clone, Copy)]
pub struct Countdown;

impl Graph<u64> for Countdown {
    open spec fn expandable(&self, node: u64) -> bool {
        true
    }

    open spec fn children_spec(&self, node: u64) -> Seq<u64> {
        if node > 0 {
            seq![(node - 1) as u64]
        } else {
            seq![]
        }
    }

    fn children(&self, node: &u64) -> (cs: Vec<u64>) {
        let mut cs: Vec<u64> = Vec::new();
        if *node > 0 {
            cs.push(*node - 1);
        }
        assert(cs.deep_view() =~= self.children_spec(*node));
        cs
    }
}

/// The graph in which no node has children: every node is a leaf.
#[derive(Clone, Copy)]
pub struct Leaves;

impl<N: DeepView> Graph<N> for Leaves {
    open spec fn expandable(&self, node: N::V) -> bool {
        true
    }

    open spec fn children_spec(&self, node: N::V) -> Seq<N::V> {
        Seq::empty()
    }

    fn children(&self, node: &N) -> (cs: Vec<N>) {
        let cs: Vec<N> = Vec::new();
        assert(cs.deep_view() =~= Seq::<N::V>::empty());
        cs
    }
}

/// `source` with the seeds that fail `keep` dropped from every node's
/// seeds before they are grown; the root seeds of a run are not filtered.
#[derive(Clone)]
pub struct FilteredSeeds<Src, P> {
    pub source: Src,
    pub keep: P,
}

impl<N: DeepView, Src: SeedSource<N>, P: NodePredicate<Src::Seed>> SeedSource<N> for FilteredSeeds<Src, P> {
    type Seed = Src::Seed;

    open spec fn seeds_spec(&self, node: N::V) -> Seq<<Src::Seed as DeepView>::V> {
        kept_by::<Src::Seed, P>(self.keep, self.source.seeds_spec(node))
    }

    open spec fn grow_ok(&self, seed: <Src::Seed as DeepView>::V) -> bool {
        self.source.grow_ok(seed)
    }

    open spec fn grow_spec(&self, seed: <Src::Seed as DeepView>::V) -> N::V {
        self.source.grow_spec(seed)
    }

    fn seeds(&self, node: &N) -> (ss: Vec<Src::Seed>) {
        let all = self.source.seeds(node);
        keep_only(all, &self.keep)
    }

    fn grow(&self, seed: &Src::Seed) -> (n: N) {
        self.source.grow(seed)
    }
}

/// Keeps the names that do not start with an underscore.
#[derive(Clone, Copy)]
pub struct NotUnderscored;

impl NodePredicate<String> for NotUnderscored {
    open spec fn holds(&self, node: Seq<char>) -> bool {
        !(node.len() > 0 && node[0] == '_')
    }

    fn test(&self, node: &String) -> (b: bool) {
        let text = node.as_str();
        if text.unicode_len() == 0 {
            true
        } else {
            text.get_char(0) != '_'
        }
    }
}


/// A name is kept exactly when it does not start with an underscore: when
/// it is empty or its first character is not `_`; equivalently, when it is
/// not `_` followed by some rest. An underscore elsewhere in the name does
/// not matter.
pub proof fn law_not_underscored(name: Seq<char>)
    ensures
        NotUnderscored.holds(name) <==> (name.len() == 0 || name[0] != '_'),
        NotUnderscored.holds(name) <==> !(exists|rest: Seq<char>| #[trigger] seq!['_'].add(rest) == name),
{
    if name.len() > 0 && name[0] == '_' {
        assert(seq!['_'].add(name.drop_first()) =~= name);
    }
    if exists|rest: Seq<char>| #[trigger] seq!['_'].add(rest) == name {
        let rest = choose|rest: Seq<char>| #[trigger] seq!['_'].add(rest) == name;
        assert(name[0] == seq!['_'].add(rest)[0]);
    }
}

/// Filtering seeds by `NotUnderscored` keeps, in order, exactly the seeds
/// of `source` that do not start with an underscore.
pub proof fn law_filtered_not_underscored<N: DeepView, Src: SeedSource<N, Seed = String>>(
    source: Src,
    node: N::V,
)
    ensures
        (FilteredSeeds { source, keep: NotUnderscored }).seeds_spec(node) == source.seeds_spec(node).filter(
            |s: Seq<char>| s.len() == 0 || s[0] != '_',
        ),
{
    let a = |s: Seq<char>| NotUnderscored.holds(s);
    let b = |s: Seq<char>| s.len() == 0 || s[0] != '_';
    assert(a =~= b);
}

} // verus!
