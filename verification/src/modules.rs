//! Module resolution, the pattern that motivated the library: the module
//! tree is discovered lazily from dependency names (seeds), a name that
//! the registry does not know becomes an error leaf, and one fold collects
//! the resolved modules and the errors.
use vstd::prelude::*;
use vstd::string::*;
use crate::recursion::{
    Algebra, Graph, cata, fold_children, defined, fold_result, lemma_fold_result, accumulate_all, results_of,
    all_defined,
    gather, gather_forest, run_complete, forest_complete,
};
use crate::tree::{Replicate, replicate_all, append_copies};
use crate::tasks::strings_of;
use crate::cycles::{DepGraph, deps_of};
use crate::exec::{SeedSource, Grown, grow_all, seeded, seeded_result, clones_keep_view};

verus! {

/// A module has a name and declares dependencies on other modules.
#[derive(Clone)]
pub struct Module {
    pub name: String,
    pub deps: Vec<String>,
}

pub type ModuleView = (Seq<char>, Seq<Seq<char>>);

impl DeepView for Module {
    type V = ModuleView;

    open spec fn deep_view(&self) -> ModuleView {
        (self.name@, self.deps.deep_view())
    }
}

impl Replicate for Module {
    fn replicate(&self) -> (r: Module) {
        Module { name: self.name.clone(), deps: replicate_all(&self.deps) }
    }
}

impl Module {
    pub fn new(name: &str, deps: &[&str]) -> (m: Module)
        ensures
            m.name@ == name@,
            m.deps@.len() == deps@.len(),
            forall|i: int| 0 <= i < deps@.len() ==> (#[trigger] m.deps@[i])@ == deps@[i]@,
    {
        Module { name: name.to_string(), deps: strings_of(deps) }
    }
}

/// A node of the resolution: a module found in the registry, or the error
/// for a name it does not know.
pub enum Resolution {
    Found(Module),
    Missing(String),
}

pub enum ResolutionView {
    Found(ModuleView),
    Missing(Seq<char>),
}

impl DeepView for Resolution {
    type V = ResolutionView;

    open spec fn deep_view(&self) -> ResolutionView {
        match self {
            Resolution::Found(m) => ResolutionView::Found(m.deep_view()),
            Resolution::Missing(e) => ResolutionView::Missing(e@),
        }
    }
}

impl Clone for Resolution {
    fn clone(&self) -> (r: Resolution)
        ensures
            r.deep_view() == self.deep_view(),
    {
        match self {
            Resolution::Found(m) => Resolution::Found(m.replicate()),
            Resolution::Missing(e) => Resolution::Missing(e.clone()),
        }
    }
}

/// The module registered last under `name`.
pub open spec fn find_module(modules: Seq<ModuleView>, name: Seq<char>) -> Option<ModuleView>
    decreases modules.len(),
{
    if modules.len() == 0 {
        None
    } else if modules.last().0 == name {
        Some(modules.last())
    } else {
        find_module(modules.drop_last(), name)
    }
}

/// The error message for a name that cannot be found.
pub open spec fn not_found(name: Seq<char>) -> Seq<char> {
    "not found: "@ + name
}

/// A module registry: maps names to module definitions.
#[derive(Clone)]
pub struct ModuleRegistry {
    pub modules: Vec<Module>,
}

impl ModuleRegistry {
    pub open spec fn view_modules(&self) -> Seq<ModuleView> {
        self.modules.deep_view()
    }

    pub fn new(modules: Vec<Module>) -> (r: ModuleRegistry)
        ensures
            r.modules == modules,
    {
        ModuleRegistry { modules }
    }

    /// The module registered under `name`, if any.
    pub fn find(&self, name: &String) -> (m: Option<&Module>)
        ensures
            match m {
                Some(module) => find_module(self.view_modules(), name@) == Some(module.deep_view()),
                None => find_module(self.view_modules(), name@) is None,
            },
    {
        let mut i: usize = self.modules.len();
        assert(self.view_modules().take(i as int) =~= self.view_modules());
        while i > 0
            invariant
                i <= self.modules@.len(),
                find_module(self.view_modules(), name@) == find_module(self.view_modules().take(i as int), name@),
            decreases i,
        {
            assert(self.view_modules().take(i as int).drop_last() =~= self.view_modules().take(i - 1));
            assert(self.view_modules().take(i as int).last() == self.modules@[i - 1].deep_view());
            if self.modules[i - 1].name == *name {
                return Some(&self.modules[i - 1]);
            }
            i = i - 1;
        }
        assert(self.view_modules().take(0) =~= Seq::<ModuleView>::empty());
        None
    }
}

/// Grows a dependency name into the module it names, or into an error.
pub open spec fn grow_name(modules: Seq<ModuleView>, name: Seq<char>) -> ResolutionView {
    match find_module(modules, name) {
        Some(m) => ResolutionView::Found(m),
        None => ResolutionView::Missing(not_found(name)),
    }
}

impl SeedSource<Resolution> for ModuleRegistry {
    type Seed = String;

    /// A found module's seeds are its dependencies; an error has none.
    open spec fn seeds_spec(&self, node: ResolutionView) -> Seq<Seq<char>> {
        match node {
            ResolutionView::Found(m) => m.1,
            ResolutionView::Missing(_) => seq![],
        }
    }

    /// Every name grows: an unknown one into an error.
    open spec fn grow_ok(&self, seed: Seq<char>) -> bool {
        true
    }

    open spec fn grow_spec(&self, seed: Seq<char>) -> ResolutionView {
        grow_name(self.view_modules(), seed)
    }

    fn seeds(&self, node: &Resolution) -> (ss: Vec<String>) {
        match node {
            Resolution::Found(m) => replicate_all(&m.deps),
            Resolution::Missing(_) => {
                let ss: Vec<String> = Vec::new();
                assert(ss.deep_view() =~= Seq::<Seq<char>>::empty());
                ss
            },
        }
    }

    fn grow(&self, seed: &String) -> (n: Resolution) {
        match self.find(seed) {
            Some(m) => Resolution::Found(m.replicate()),
            None => {
                let mut msg = String::from_str("not found: ");
                msg.append(seed.as_str());
                Resolution::Missing(msg)
            },
        }
    }
}

/// Resolution result: resolved module names and error messages.
pub struct Resolved {
    pub modules: Vec<String>,
    pub errors: Vec<String>,
}

impl Clone for Resolved {
    fn clone(&self) -> (r: Resolved)
        ensures
            r.deep_view() == self.deep_view(),
    {
        Resolved { modules: replicate_all(&self.modules), errors: replicate_all(&self.errors) }
    }
}

impl DeepView for Resolved {
    type V = (Seq<Seq<char>>, Seq<Seq<char>>);

    open spec fn deep_view(&self) -> (Seq<Seq<char>>, Seq<Seq<char>>) {
        (self.modules.deep_view(), self.errors.deep_view())
    }
}

impl Resolved {
    pub fn empty() -> (r: Resolved)
        ensures
            r.deep_view() == (Seq::<Seq<char>>::empty(), Seq::<Seq<char>>::empty()),
    {
        let r = Resolved { modules: Vec::new(), errors: Vec::new() };
        assert(r.modules.deep_view() =~= Seq::<Seq<char>>::empty());
        assert(r.errors.deep_view() =~= Seq::<Seq<char>>::empty());
        r
    }
}

/// A found module contributes its name, an error its message; children's
/// lists are appended in order.
#[derive(Clone, Copy)]
pub struct Collect;

impl Algebra for Collect {
    type Node = Resolution;
    type Heap = Resolved;
    type Out = Resolved;

    open spec fn init_ok(&self, node: ResolutionView) -> bool {
        true
    }

    open spec fn init_spec(&self, node: ResolutionView) -> (Seq<Seq<char>>, Seq<Seq<char>>) {
        match node {
            ResolutionView::Found(m) => (seq![m.0], seq![]),
            ResolutionView::Missing(e) => (seq![], seq![e]),
        }
    }

    open spec fn accumulate_ok(
        &self,
        heap: (Seq<Seq<char>>, Seq<Seq<char>>),
        child: (Seq<Seq<char>>, Seq<Seq<char>>),
    ) -> bool {
        true
    }

    open spec fn accumulate_spec(
        &self,
        heap: (Seq<Seq<char>>, Seq<Seq<char>>),
        child: (Seq<Seq<char>>, Seq<Seq<char>>),
    ) -> (Seq<Seq<char>>, Seq<Seq<char>>) {
        (heap.0 + child.0, heap.1 + child.1)
    }

    open spec fn finalize_spec(&self, heap: (Seq<Seq<char>>, Seq<Seq<char>>)) -> (Seq<Seq<char>>, Seq<Seq<char>>) {
        heap
    }

    fn init(&self, node: &Resolution) -> (heap: Resolved) {
        let mut r = Resolved::empty();
        match node {
            Resolution::Found(m) => {
                r.modules.push(m.name.clone());
                assert(r.modules.deep_view() =~= seq![m.name@]);
            },
            Resolution::Missing(e) => {
                r.errors.push(e.clone());
                assert(r.errors.deep_view() =~= seq![e@]);
            },
        }
        r
    }

    fn accumulate(&self, heap: &mut Resolved, child: &Resolved) {
        append_copies(&mut heap.modules, &child.modules);
        append_copies(&mut heap.errors, &child.errors);
    }

    fn finalize(&self, heap: &Resolved) -> (res: Resolved) {
        Resolved { modules: replicate_all(&heap.modules), errors: replicate_all(&heap.errors) }
    }
}

/// Resolves the modules reachable from `roots`, collecting the names found
/// and an error for each name the registry does not know.
pub fn resolve_modules(registry: ModuleRegistry, roots: &[String]) -> (r: Resolved)
    requires
        seeded_result(Collect, registry, roots.deep_view(), (Seq::<Seq<char>>::empty(), Seq::<Seq<char>>::empty()))
            is Some,
    ensures
        Some(r.deep_view()) == seeded_result(
            Collect,
            registry,
            roots.deep_view(),
            (Seq::<Seq<char>>::empty(), Seq::<Seq<char>>::empty()),
        ),
{
    assert(clones_keep_view::<String>());
    assert(clones_keep_view::<Resolution>());
    assert(clones_keep_view::<Resolved>());
    seeded(Collect, registry, roots, Resolved::empty())
}

impl SeedSource<String> for DepGraph {
    type Seed = String;

    /// The seeds of a name are its listed dependencies (none if unlisted).
    open spec fn seeds_spec(&self, node: Seq<char>) -> Seq<Seq<char>> {
        match deps_of(self.view_edges(), node) {
            Some(deps) => deps,
            None => seq![],
        }
    }

    open spec fn grow_ok(&self, seed: Seq<char>) -> bool {
        true
    }

    open spec fn grow_spec(&self, seed: Seq<char>) -> Seq<char> {
        seed
    }

    fn seeds(&self, node: &String) -> (ss: Vec<String>) {
        match self.deps(node) {
            Some(deps) => replicate_all(deps),
            None => {
                let ss: Vec<String> = Vec::new();
                assert(ss.deep_view() =~= Seq::<Seq<char>>::empty());
                ss
            },
        }
    }

    fn grow(&self, seed: &String) -> (n: String) {
        seed.clone()
    }
}

/// Collects every name reached, each before the names it depends on.
#[derive(Clone, Copy)]
pub struct CollectNames;

impl Algebra for CollectNames {
    type Node = String;
    type Heap = Vec<String>;
    type Out = Vec<String>;

    open spec fn init_ok(&self, node: Seq<char>) -> bool {
        true
    }

    open spec fn init_spec(&self, node: Seq<char>) -> Seq<Seq<char>> {
        seq![node]
    }

    open spec fn accumulate_ok(&self, heap: Seq<Seq<char>>, child: Seq<Seq<char>>) -> bool {
        true
    }

    open spec fn accumulate_spec(&self, heap: Seq<Seq<char>>, child: Seq<Seq<char>>) -> Seq<Seq<char>> {
        heap + child
    }

    open spec fn finalize_spec(&self, heap: Seq<Seq<char>>) -> Seq<Seq<char>> {
        heap
    }

    fn init(&self, node: &String) -> (heap: Vec<String>) {
        let mut h: Vec<String> = Vec::new();
        h.push(node.clone());
        assert(h.deep_view() =~= seq![node@]);
        h
    }

    fn accumulate(&self, heap: &mut Vec<String>, child: &Vec<String>) {
        append_copies(heap, child);
    }

    fn finalize(&self, heap: &Vec<String>) -> (res: Vec<String>) {
        replicate_all(heap)
    }
}


/// What a node of the resolution contributes to the modules found: its
/// name, if it is a found module.
pub open spec fn found_names(n: ResolutionView) -> Seq<Seq<char>> {
    match n {
        ResolutionView::Found(m) => seq![m.0],
        ResolutionView::Missing(_) => Seq::empty(),
    }
}

/// What a node of the resolution contributes to the errors: its message,
/// if it is a name the registry does not know.
pub open spec fn missing_errors(n: ResolutionView) -> Seq<Seq<char>> {
    match n {
        ResolutionView::Found(_) => Seq::empty(),
        ResolutionView::Missing(e) => seq![e],
    }
}

proof fn lemma_collect_cata(registry: ModuleRegistry, node: ResolutionView, fuel: nat)
    requires
        run_complete(Grown { source: registry }, node, fuel),
    ensures
        cata(Collect, Grown { source: registry }, node, fuel) == Some(
            (
                gather(Grown { source: registry }, node, fuel, |n: ResolutionView| found_names(n)),
                gather(Grown { source: registry }, node, fuel, |n: ResolutionView| missing_errors(n)),
            ),
        ),
    decreases fuel, 0nat,
{
    let g = Grown { source: registry };
    let cs = g.children_spec(node);
    assert(Collect.init_spec(node) == (found_names(node), missing_errors(node)));
    lemma_collect_children(registry, Collect.init_spec(node), cs, (fuel - 1) as nat);
}

proof fn lemma_collect_children(
    registry: ModuleRegistry,
    heap: (Seq<Seq<char>>, Seq<Seq<char>>),
    children: Seq<ResolutionView>,
    fuel: nat,
)
    requires
        forest_complete(Grown { source: registry }, children, fuel),
    ensures
        fold_children(Collect, Grown { source: registry }, heap, children, fuel) == Some(
            (
                heap.0 + gather_forest(Grown { source: registry }, children, fuel, |n: ResolutionView| found_names(n)),
                heap.1 + gather_forest(
                    Grown { source: registry },
                    children,
                    fuel,
                    |n: ResolutionView| missing_errors(n),
                ),
            ),
        ),
    decreases fuel, children.len() + 1,
{
    let g = Grown { source: registry };
    let mods = |n: ResolutionView| found_names(n);
    let errs = |n: ResolutionView| missing_errors(n);
    if children.len() == 0 {
        assert(heap.0 + gather_forest(g, children, fuel, mods) =~= heap.0);
        assert(heap.1 + gather_forest(g, children, fuel, errs) =~= heap.1);
    } else {
        lemma_collect_cata(registry, children[0], fuel);
        let r = (gather(g, children[0], fuel, mods), gather(g, children[0], fuel, errs));
        let next = (heap.0 + r.0, heap.1 + r.1);
        lemma_collect_children(registry, next, children.drop_first(), fuel);
        assert(next.0 + gather_forest(g, children.drop_first(), fuel, mods) =~= heap.0 + gather_forest(
            g,
            children,
            fuel,
            mods,
        ));
        assert(next.1 + gather_forest(g, children.drop_first(), fuel, errs) =~= heap.1 + gather_forest(
            g,
            children,
            fuel,
            errs,
        ));
    }
}

/// Resolution collects everything it reaches: wherever the resolution
/// from a node is complete within `fuel` levels, its modules are the names
/// of all the found modules it reaches and its errors the messages of all
/// the unknown names it reaches, each in pre-order (a node, then each of
/// its dependencies' resolutions in order).
pub proof fn law_collect_all(registry: ModuleRegistry, node: ResolutionView, fuel: nat)
    requires
        run_complete(Grown { source: registry }, node, fuel),
    ensures
        defined(Collect, Grown { source: registry }, node),
        fold_result(Collect, Grown { source: registry }, node) == (
            gather(Grown { source: registry }, node, fuel, |n: ResolutionView| found_names(n)),
            gather(Grown { source: registry }, node, fuel, |n: ResolutionView| missing_errors(n)),
        ),
{
    lemma_collect_cata(registry, node, fuel);
    lemma_fold_result(Collect, Grown { source: registry }, node, fuel);
}

proof fn lemma_collect_roots(
    registry: ModuleRegistry,
    heap: (Seq<Seq<char>>, Seq<Seq<char>>),
    roots: Seq<ResolutionView>,
    fuel: nat,
)
    requires
        forest_complete(Grown { source: registry }, roots, fuel),
    ensures
        all_defined(Collect, Grown { source: registry }, roots),
        accumulate_all(Collect, heap, results_of(Collect, Grown { source: registry }, roots)) == Some(
            (
                heap.0 + gather_forest(Grown { source: registry }, roots, fuel, |n: ResolutionView| found_names(n)),
                heap.1 + gather_forest(Grown { source: registry }, roots, fuel, |n: ResolutionView| missing_errors(n)),
            ),
        ),
    decreases roots.len(),
{
    let g = Grown { source: registry };
    let mods = |n: ResolutionView| found_names(n);
    let errs = |n: ResolutionView| missing_errors(n);
    if roots.len() == 0 {
        assert(heap.0 + gather_forest(g, roots, fuel, mods) =~= heap.0);
        assert(heap.1 + gather_forest(g, roots, fuel, errs) =~= heap.1);
    } else {
        let rest = roots.drop_first();
        law_collect_all(registry, roots[0], fuel);
        let r = fold_result(Collect, g, roots[0]);
        let next = (heap.0 + r.0, heap.1 + r.1);
        lemma_collect_roots(registry, next, rest, fuel);
        assert(results_of(Collect, g, roots).drop_first() =~= results_of(Collect, g, rest));
        assert(next.0 + gather_forest(g, rest, fuel, mods) =~= heap.0 + gather_forest(g, roots, fuel, mods));
        assert(next.1 + gather_forest(g, rest, fuel, errs) =~= heap.1 + gather_forest(g, roots, fuel, errs));
        assert forall|i: int| 0 <= i < roots.len() implies #[trigger] defined(Collect, g, roots[i]) by {
            if i > 0 {
                assert(roots[i] == rest[i - 1]);
            }
        }
    }
}

/// Resolving from root names collects everything reached from each root:
/// wherever every root's resolution is complete within `fuel` levels, the
/// modules are the names of all the found modules reached and the errors
/// the messages of all the unknown names reached, root after root, each in
/// pre-order.
pub proof fn law_resolve_modules(registry: ModuleRegistry, roots: Seq<Seq<char>>, fuel: nat)
    requires
        forest_complete(Grown { source: registry }, grow_all(registry, roots), fuel),
    ensures
        seeded_result(Collect, registry, roots, (Seq::<Seq<char>>::empty(), Seq::<Seq<char>>::empty())) == Some(
            (
                gather_forest(
                    Grown { source: registry },
                    grow_all(registry, roots),
                    fuel,
                    |n: ResolutionView| found_names(n),
                ),
                gather_forest(
                    Grown { source: registry },
                    grow_all(registry, roots),
                    fuel,
                    |n: ResolutionView| missing_errors(n),
                ),
            ),
        ),
{
    let g = Grown { source: registry };
    let grown = grow_all(registry, roots);
    lemma_collect_roots(registry, (Seq::empty(), Seq::empty()), grown, fuel);
    assert(Seq::<Seq<char>>::empty() + gather_forest(g, grown, fuel, |n: ResolutionView| found_names(n))
        =~= gather_forest(g, grown, fuel, |n: ResolutionView| found_names(n)));
    assert(Seq::<Seq<char>>::empty() + gather_forest(g, grown, fuel, |n: ResolutionView| missing_errors(n))
        =~= gather_forest(g, grown, fuel, |n: ResolutionView| missing_errors(n)));
}

} // verus!
