# hylic_docs

Verified recursive tree computations in the style of the `hylic` crate.

A computation over a tree is split into three parts:

- a fold (`recursion::Algebra`): `init` makes a heap from a node,
  `accumulate` folds one child's result into it, `finalize` turns it into
  the node's result;
- a graph (`recursion::Graph`): the children of a node, in order;
- an executor (`exec`): `fused` (sequential; also `fused_local` and
  `fused_owned` in `hylic`'s other storage domains), `funnel` and
  `funnel_wide_light` (the continuation-passing executor, on the calling
  thread), `fused_memoized` (children cached by key) and `seeded` (a tree
  grown lazily from seeds). All of them run through `hylic` and
  `hylic-pipeline`.

The verified functions return normally on every input their `requires`
admits. `hylic`'s funnel executor runs in the library with no worker
threads: with workers it panics when its calling thread waits too long for
work, which depends on timing; the multi-threaded runs are in `app/` and the
tests.

`recursion::fold_result` states what a run returns, and
`recursion::law_recursion_step` the recursion equation it satisfies.

Layout of `src/`:

- `recursion.rs`, `exec.rs`: the model of a run and the executors.
- `tree.rs`, `flat.rs`, `graphs.rs`: stored trees, adjacency lists,
  filtered graphs and seed sources, and small computed graphs.
- `folds.rs`, `combinators.rs`: common folds (sums, maxima, counts,
  depth) and folds built from folds (product, zipmap, wrapped init,
  contramapped nodes, ...), with their laws.
- `explain.rs`: a fold transformed to record a trace of its computation.
- `fibonacci.rs`, `filesystem.rs`, `config.rs`, `cycles.rs`, `tasks.rs`,
  `modules.rs`: worked examples (Fibonacci, filesystem summary,
  configuration inheritance, cycle detection, a build system, module
  resolution).

`app/` holds the display helpers and the floating-point expression
evaluator, which are not verified.
