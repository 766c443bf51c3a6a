//! Filesystem summary: one pass over a directory tree that adds up sizes
//! and counts files and directories.
use vstd::prelude::*;
use crate::recursion::{
    Algebra, Graph, defined, fold_result, accumulate_all, results_of, all_defined, law_recursion_step,
};
use crate::tree::{Replicate, replicate_all};
use crate::exec::fused;

verus! {

/// A filesystem entry: a file (a leaf) or a directory (a branch).
pub enum FsEntry {
    File { name: String, size: u64 },
    Dir { name: String, children: Vec<FsEntry> },
}

/// What an entry stands for.
pub enum FsModel {
    File { name: Seq<char>, size: u64 },
    Dir { name: Seq<char>, children: Seq<FsModel> },
}

impl FsEntry {
    pub open spec fn model(&self) -> FsModel
        decreases self,
    {
        match self {
            FsEntry::File { name, size } => FsModel::File { name: name@, size: *size },
            FsEntry::Dir { name, children } => FsModel::Dir {
                name: name@,
                children: Seq::new(
                    children@.len(),
                    |i: int|
                        if 0 <= i < children@.len() {
                            children@[i].model()
                        } else {
                            arbitrary()
                        },
                ),
            },
        }
    }

    pub fn file(name: &str, size: u64) -> (e: FsEntry)
        ensures
            e.model() == (FsModel::File { name: name@, size }),
    {
        FsEntry::File { name: name.to_string(), size }
    }

    pub fn dir(name: &str, children: Vec<FsEntry>) -> (e: FsEntry)
        ensures
            e.model() == (FsModel::Dir { name: name@, children: children.deep_view() }),
    {
        let e = FsEntry::Dir { name: name.to_string(), children };
        assert(e.model()->children =~= children.deep_view());
        e
    }
}

impl DeepView for FsEntry {
    type V = FsModel;

    open spec fn deep_view(&self) -> FsModel {
        self.model()
    }
}

impl Replicate for FsEntry {
    fn replicate(&self) -> (r: FsEntry)
        decreases self,
    {
        match self {
            FsEntry::File { name, size } => FsEntry::File { name: name.clone(), size: *size },
            FsEntry::Dir { name, children } => {
                let mut copies: Vec<FsEntry> = Vec::new();
                let mut i: usize = 0;
                while i < children.len()
                    invariant
                        i <= children@.len(),
                        self is Dir,
                        self->Dir_children == *children,
                        copies.deep_view() =~= children.deep_view().take(i as int),
                    decreases children@.len() - i,
                {
                    assert(decreases_to!(*self => self->Dir_children));
                    assert(self->Dir_children == *children);
                    assert(decreases_to!(*children => children@[i as int]));
                    assert(decreases_to!(self => children@[i as int]));
                    let c = children[i].replicate();
                    let ghost before = copies.deep_view();
                    copies.push(c);
                    assert(copies.deep_view() =~= before.push(c.deep_view()));
                    i = i + 1;
                    assert(copies.deep_view() =~= children.deep_view().take(i as int));
                }
                assert(children.deep_view().take(i as int) =~= children.deep_view());
                let r = FsEntry::Dir { name: name.clone(), children: copies };
                assert(r.model()->children =~= copies.deep_view());
                assert(self.model()->children =~= children.deep_view());
                r
            },
        }
    }
}

impl Clone for FsEntry {
    fn clone(&self) -> (r: FsEntry)
        ensures
            r.deep_view() == self.deep_view(),
    {
        self.replicate()
    }
}

/// Directories have children, files do not.
#[derive(Clone, Copy)]
pub struct FsChildren;

impl Graph<FsEntry> for FsChildren {
    open spec fn expandable(&self, node: FsModel) -> bool {
        true
    }

    open spec fn children_spec(&self, node: FsModel) -> Seq<FsModel> {
        match node {
            FsModel::File { .. } => seq![],
            FsModel::Dir { children, .. } => children,
        }
    }

    fn children(&self, node: &FsEntry) -> (cs: Vec<FsEntry>) {
        match node {
            FsEntry::File { .. } => {
                let cs: Vec<FsEntry> = Vec::new();
                assert(cs.deep_view() =~= Seq::<FsModel>::empty());
                cs
            },
            FsEntry::Dir { children, .. } => {
                let cs = replicate_all(children);
                assert(node.model()->children =~= children.deep_view());
                cs
            },
        }
    }
}

/// Size, file count and directory count of a subtree.
#[derive(Clone, Copy, Debug, PartialEq, Eq)]
pub struct Summary {
    pub total_size: u64,
    pub file_count: usize,
    pub dir_count: usize,
}

impl DeepView for Summary {
    type V = (u64, usize, usize);

    open spec fn deep_view(&self) -> (u64, usize, usize) {
        (self.total_size, self.file_count, self.dir_count)
    }
}

/// Each entry starts from its own metrics; children's summaries are added.
#[derive(Clone, Copy)]
pub struct Summarize;

impl Algebra for Summarize {
    type Node = FsEntry;
    type Heap = Summary;
    type Out = Summary;

    open spec fn init_ok(&self, node: FsModel) -> bool {
        true
    }

    open spec fn init_spec(&self, node: FsModel) -> (u64, usize, usize) {
        match node {
            FsModel::File { size, .. } => (size, 1, 0),
            FsModel::Dir { .. } => (0, 0, 1),
        }
    }

    open spec fn accumulate_ok(&self, heap: (u64, usize, usize), child: (u64, usize, usize)) -> bool {
        &&& heap.0 + child.0 <= u64::MAX
        &&& heap.1 + child.1 <= usize::MAX
        &&& heap.2 + child.2 <= usize::MAX
    }

    open spec fn accumulate_spec(&self, heap: (u64, usize, usize), child: (u64, usize, usize)) -> (
        u64,
        usize,
        usize,
    ) {
        ((heap.0 + child.0) as u64, (heap.1 + child.1) as usize, (heap.2 + child.2) as usize)
    }

    open spec fn finalize_spec(&self, heap: (u64, usize, usize)) -> (u64, usize, usize) {
        heap
    }

    fn init(&self, node: &FsEntry) -> (heap: Summary) {
        match node {
            FsEntry::File { size, .. } => Summary { total_size: *size, file_count: 1, dir_count: 0 },
            FsEntry::Dir { .. } => Summary { total_size: 0, file_count: 0, dir_count: 1 },
        }
    }

    fn accumulate(&self, heap: &mut Summary, child: &Summary) {
        heap.total_size = heap.total_size + child.total_size;
        heap.file_count = heap.file_count + child.file_count;
        heap.dir_count = heap.dir_count + child.dir_count;
    }

    fn finalize(&self, heap: &Summary) -> (res: Summary) {
        *heap
    }
}

/// Total size, number of files and number of directories in an entry.
pub open spec fn totals(m: FsModel) -> (int, int, int)
    decreases m, 1nat,
{
    match m {
        FsModel::File { size, .. } => (size as int, 1, 0),
        FsModel::Dir { children, .. } => {
            let t = forest_totals(children);
            (t.0, t.1, t.2 + 1)
        },
    }
}

/// The totals of a sequence of entries, added up.
pub open spec fn forest_totals(ms: Seq<FsModel>) -> (int, int, int)
    decreases ms, 0nat,
{
    if ms.len() == 0 {
        (0, 0, 0)
    } else {
        let a = totals(ms[0]);
        let b = forest_totals(ms.drop_first());
        (a.0 + b.0, a.1 + b.1, a.2 + b.2)
    }
}

/// All three totals fit the summary's integer types.
pub open spec fn fits(t: (int, int, int)) -> bool {
    &&& 0 <= t.0 <= u64::MAX
    &&& 0 <= t.1 <= usize::MAX
    &&& 0 <= t.2 <= usize::MAX
}

proof fn lemma_totals_nonneg(m: FsModel)
    ensures
        totals(m).0 >= 0 && totals(m).1 >= 0 && totals(m).2 >= 0,
    decreases m, 1nat,
{
    match m {
        FsModel::File { .. } => {},
        FsModel::Dir { children, .. } => lemma_forest_nonneg(children),
    }
}

proof fn lemma_forest_nonneg(ms: Seq<FsModel>)
    ensures
        forest_totals(ms).0 >= 0 && forest_totals(ms).1 >= 0 && forest_totals(ms).2 >= 0,
        forall|i: int|
            0 <= i < ms.len() ==> {
                &&& 0 <= (#[trigger] totals(ms[i])).0 <= forest_totals(ms).0
                &&& 0 <= totals(ms[i]).1 <= forest_totals(ms).1
                &&& 0 <= totals(ms[i]).2 <= forest_totals(ms).2
            },
    decreases ms, 0nat,
{
    if ms.len() > 0 {
        let rest = ms.drop_first();
        lemma_totals_nonneg(ms[0]);
        lemma_forest_nonneg(rest);
        assert forall|i: int| 0 <= i < ms.len() implies {
            &&& 0 <= (#[trigger] totals(ms[i])).0 <= forest_totals(ms).0
            &&& 0 <= totals(ms[i]).1 <= forest_totals(ms).1
            &&& 0 <= totals(ms[i]).2 <= forest_totals(ms).2
        } by {
            if i > 0 {
                assert(ms[i] == rest[i - 1]);
            }
        }
    }
}

proof fn lemma_summary_entry(m: FsModel)
    requires
        fits(totals(m)),
    ensures
        defined(Summarize, FsChildren, m),
        fold_result(Summarize, FsChildren, m) == ((totals(m).0 as u64, totals(m).1 as usize, totals(m).2 as usize)),
    decreases m, 1nat,
{
    match m {
        FsModel::File { .. } => {
            assert(FsChildren.children_spec(m) =~= Seq::<FsModel>::empty());
            assert(results_of(Summarize, FsChildren, FsChildren.children_spec(m)) =~= Seq::<(u64, usize, usize)>::empty());
        },
        FsModel::Dir { children, .. } => {
            lemma_forest_nonneg(children);
            lemma_summary_forest(children, (0, 0, 1));
        },
    }
    law_recursion_step(Summarize, FsChildren, m);
}

proof fn lemma_summary_forest(ms: Seq<FsModel>, heap: (u64, usize, usize))
    requires
        fits((heap.0 + forest_totals(ms).0, heap.1 + forest_totals(ms).1, heap.2 + forest_totals(ms).2)),
    ensures
        all_defined(Summarize, FsChildren, ms),
        accumulate_all(Summarize, heap, results_of(Summarize, FsChildren, ms)) == Some(
            (
                (heap.0 + forest_totals(ms).0) as u64,
                (heap.1 + forest_totals(ms).1) as usize,
                (heap.2 + forest_totals(ms).2) as usize,
            ),
        ),
    decreases ms, 0nat,
{
    if ms.len() > 0 {
        let rest = ms.drop_first();
        lemma_forest_nonneg(ms);
        lemma_forest_nonneg(rest);
        lemma_summary_entry(ms[0]);
        let t = totals(ms[0]);
        let h2 = ((heap.0 + t.0) as u64, (heap.1 + t.1) as usize, (heap.2 + t.2) as usize);
        lemma_summary_forest(rest, h2);
        assert(results_of(Summarize, FsChildren, ms).drop_first() =~= results_of(Summarize, FsChildren, rest));
        assert forall|i: int| 0 <= i < ms.len() implies #[trigger] defined(Summarize, FsChildren, ms[i]) by {
            if i > 0 {
                assert(ms[i] == rest[i - 1]);
            }
        }
    }
}

/// Summarizing an entry gives its total file size, its number of files and
/// its number of directories (the entry itself included), whenever these
/// fit the summary's integer types.
pub proof fn law_summary(m: FsModel)
    requires
        fits(totals(m)),
    ensures
        defined(Summarize, FsChildren, m),
        fold_result(Summarize, FsChildren, m) == ((totals(m).0 as u64, totals(m).1 as usize, totals(m).2 as usize)),
{
    lemma_summary_entry(m);
}

/// Size, file count and directory count of `tree`, in one pass.
pub fn summarize(tree: &FsEntry) -> (s: Summary)
    requires
        fits(totals(tree.deep_view())),
    ensures
        s.total_size == totals(tree.deep_view()).0,
        s.file_count == totals(tree.deep_view()).1,
        s.dir_count == totals(tree.deep_view()).2,
{
    proof {
        law_summary(tree.deep_view());
    }
    fused(Summarize, FsChildren, tree)
}

} // verus!
