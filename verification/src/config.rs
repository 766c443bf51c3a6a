//! Configuration inheritance: every scope resolves to the merge of its own
//! overrides with its descendants', where a scope's own values win and an
//! earlier child wins over a later one.
use vstd::prelude::*;
use vstd::string::*;
use crate::recursion::{
    Algebra, defined, fold_result, accumulate_all, results_of, all_defined, law_recursion_step,
};
use crate::tree::{Tree, TreeModel, Replicate, Children, replicate_all};
use crate::exec::fused;

verus! {

/// The order of keys: lexicographic by code point, the order of `String`'s
/// `Ord`.
pub open spec fn key_less(a: Seq<char>, b: Seq<char>) -> bool
    decreases a.len(),
{
    if b.len() == 0 {
        false
    } else if a.len() == 0 {
        true
    } else if a[0] != b[0] {
        (a[0] as int) < (b[0] as int)
    } else {
        key_less(a.drop_first(), b.drop_first())
    }
}

/// No key comes before itself.
proof fn lemma_key_less_irreflexive(a: Seq<char>)
    ensures
        !key_less(a, a),
    decreases a.len(),
{
    if a.len() > 0 {
        lemma_key_less_irreflexive(a.drop_first());
    }
}

/// Keys are ordered transitively.
proof fn lemma_key_less_transitive(a: Seq<char>, b: Seq<char>, c: Seq<char>)
    requires
        key_less(a, b),
        key_less(b, c),
    ensures
        key_less(a, c),
    decreases a.len(),
{
    if a.len() > 0 && b.len() > 0 && c.len() > 0 && a[0] == b[0] && b[0] == c[0] {
        lemma_key_less_transitive(a.drop_first(), b.drop_first(), c.drop_first());
    }
}

/// Of two different keys, one comes first.
proof fn lemma_key_less_total(a: Seq<char>, b: Seq<char>)
    requires
        a != b,
    ensures
        key_less(a, b) || key_less(b, a),
    decreases a.len(),
{
    if a.len() > 0 && b.len() > 0 && a[0] == b[0] {
        if a.drop_first() == b.drop_first() {
            assert(a =~= seq![a[0]] + a.drop_first());
            assert(b =~= seq![b[0]] + b.drop_first());
        }
        lemma_key_less_total(a.drop_first(), b.drop_first());
    } else if a.len() == 0 && b.len() == 0 {
        assert(a =~= b);
    } else if a.len() > 0 && b.len() > 0 {
        assert((a[0] as int) != (b[0] as int));
    }
}

/// A common prefix does not change the order.
proof fn lemma_key_less_skip(a: Seq<char>, b: Seq<char>, i: int)
    requires
        0 <= i <= a.len(),
        i <= b.len(),
        forall|j: int| 0 <= j < i ==> a[j] == b[j],
    ensures
        key_less(a, b) == key_less(a.skip(i), b.skip(i)),
    decreases i,
{
    if i > 0 {
        lemma_key_less_skip(a.drop_first(), b.drop_first(), i - 1);
        assert(a.drop_first().skip(i - 1) =~= a.skip(i));
        assert(b.drop_first().skip(i - 1) =~= b.skip(i));
    } else {
        assert(a.skip(0) =~= a);
        assert(b.skip(0) =~= b);
    }
}

/// Whether `a` comes before `b` in the order of keys.
pub fn key_before(a: &String, b: &String) -> (r: bool)
    ensures
        r == key_less(a@, b@),
{
    let (x, y) = (a.as_str(), b.as_str());
    let (la, lb) = (x.unicode_len(), y.unicode_len());
    let mut i: usize = 0;
    while i < la && i < lb
        invariant
            la == a@.len(),
            lb == b@.len(),
            x@ == a@,
            y@ == b@,
            i <= la,
            i <= lb,
            forall|j: int| 0 <= j < i ==> a@[j] == b@[j],
        decreases la - i,
    {
        let (ca, cb) = (x.get_char(i), y.get_char(i));
        if ca != cb {
            proof {
                lemma_key_less_skip(a@, b@, i as int);
                assert(a@.skip(i as int)[0] == ca);
                assert(b@.skip(i as int)[0] == cb);
            }
            return (ca as u32) < (cb as u32);
        }
        i = i + 1;
    }
    proof {
        lemma_key_less_skip(a@, b@, i as int);
    }
    i == la && i < lb
}

/// The keys of `es` are in strictly increasing order, so each occurs once.
pub open spec fn keys_sorted(es: Seq<(Seq<char>, Seq<char>)>) -> bool {
    forall|i: int, j: int| 0 <= i < j < es.len() ==> key_less(#[trigger] es[i].0, #[trigger] es[j].0)
}

/// Key-value settings: entries sorted by key, one entry per key, so that
/// they are read in the order of keys.
pub struct Config {
    entries: Vec<(String, String)>,
}

impl Config {
    /// The entries are sorted by key, and no key occurs twice.
    #[verifier::type_invariant]
    closed spec fn sorted(self) -> bool {
        keys_sorted(self.entries.deep_view())
    }

    /// The entries, in the order of their keys.
    pub closed spec fn entry_list(self) -> Seq<(Seq<char>, Seq<char>)> {
        self.entries.deep_view()
    }
}

/// The map that a list of entries stands for: later entries win.
pub open spec fn entries_map(entries: Seq<(Seq<char>, Seq<char>)>) -> Map<Seq<char>, Seq<char>>
    decreases entries.len(),
{
    if entries.len() == 0 {
        Map::empty()
    } else {
        entries_map(entries.drop_last()).insert(entries.last().0, entries.last().1)
    }
}

impl DeepView for Config {
    type V = Map<Seq<char>, Seq<char>>;

    closed spec fn deep_view(&self) -> Map<Seq<char>, Seq<char>> {
        entries_map(self.entries.deep_view())
    }
}

/// With sorted keys, a key's value is the one its single entry holds, and
/// every key of the map has an entry.
proof fn lemma_sorted_map(es: Seq<(Seq<char>, Seq<char>)>)
    requires
        keys_sorted(es),
    ensures
        forall|i: int| 0 <= i < es.len() ==> #[trigger] entries_map(es).contains_key(es[i].0)
            && entries_map(es)[es[i].0] == es[i].1,
        forall|k: Seq<char>| #[trigger] entries_map(es).contains_key(k) ==> exists|i: int|
            0 <= i < es.len() && es[i].0 == k,
    decreases es.len(),
{
    if es.len() > 0 {
        let init = es.drop_last();
        assert(keys_sorted(init)) by {
            assert forall|i: int, j: int| 0 <= i < j < init.len() implies key_less(
                #[trigger] init[i].0,
                #[trigger] init[j].0,
            ) by {
                assert(init[i] == es[i] && init[j] == es[j]);
            }
        }
        lemma_sorted_map(init);
        let last = es.last();
        assert(entries_map(es) == entries_map(init).insert(last.0, last.1));
        assert forall|i: int| 0 <= i < es.len() implies #[trigger] entries_map(es).contains_key(es[i].0)
            && entries_map(es)[es[i].0] == es[i].1 by {
            if i < es.len() - 1 {
                assert(es[i] == init[i]);
                assert(entries_map(init).contains_key(init[i].0) && entries_map(init)[init[i].0] == init[i].1);
                assert(key_less(es[i].0, es[es.len() - 1].0));
                lemma_key_less_irreflexive(es[i].0);
                assert(es[i].0 != last.0);
            }
        }
        assert forall|k: Seq<char>| #[trigger] entries_map(es).contains_key(k) implies exists|i: int|
            0 <= i < es.len() && es[i].0 == k by {
            if k == last.0 {
                assert(es[es.len() - 1].0 == k);
            } else {
                assert(entries_map(init).contains_key(k));
                let i = choose|i: int| 0 <= i < init.len() && init[i].0 == k;
                assert(es[i] == init[i]);
            }
        }
    }
}

/// Two sorted entry lists with the same entries, key by key, stand for the
/// same map.
proof fn lemma_sorted_map_ext(es: Seq<(Seq<char>, Seq<char>)>, m: Map<Seq<char>, Seq<char>>)
    requires
        keys_sorted(es),
        forall|i: int| 0 <= i < es.len() ==> #[trigger] m.contains_key(es[i].0) && m[es[i].0] == es[i].1,
        forall|k: Seq<char>| #[trigger] m.contains_key(k) ==> exists|i: int| 0 <= i < es.len() && es[i].0 == k,
    ensures
        entries_map(es) == m,
{
    lemma_sorted_map(es);
    assert forall|k: Seq<char>| #[trigger] entries_map(es).contains_key(k) == m.contains_key(k) by {
        if entries_map(es).contains_key(k) {
            let i = choose|i: int| 0 <= i < es.len() && es[i].0 == k;
            assert(m.contains_key(es[i].0));
        }
        if m.contains_key(k) {
            let i = choose|i: int| 0 <= i < es.len() && es[i].0 == k;
            assert(entries_map(es).contains_key(es[i].0));
        }
    }
    assert forall|k: Seq<char>| #[trigger] entries_map(es).contains_key(k) implies entries_map(es)[k] == m[k] by {
        let i = choose|i: int| 0 <= i < es.len() && es[i].0 == k;
        assert(entries_map(es)[es[i].0] == es[i].1);
        assert(m[es[i].0] == es[i].1);
    }
    assert(entries_map(es) =~= m);
}

/// Inserting an entry at the place its key belongs keeps the keys sorted
/// and sets the key in the map.
proof fn lemma_insert_sorted(es: Seq<(Seq<char>, Seq<char>)>, p: int, k: Seq<char>, v: Seq<char>)
    requires
        keys_sorted(es),
        0 <= p <= es.len(),
        forall|j: int| 0 <= j < p ==> key_less(#[trigger] es[j].0, k),
        p < es.len() ==> key_less(k, es[p].0),
    ensures
        keys_sorted(es.insert(p, (k, v))),
        entries_map(es.insert(p, (k, v))) == entries_map(es).insert(k, v),
{
    let after = es.insert(p, (k, v));
    assert forall|j: int| p <= j < es.len() implies key_less(k, #[trigger] es[j].0) by {
        if j > p {
            lemma_key_less_transitive(k, es[p].0, es[j].0);
        }
    }
    assert forall|i: int, j: int| 0 <= i < j < after.len() implies key_less(#[trigger] after[i].0, #[trigger] after[j].0) by {
        if j < p {
            assert(after[i] == es[i] && after[j] == es[j]);
        } else if j == p {
            assert(after[i] == es[i]);
        } else if i < p {
            assert(after[i] == es[i] && after[j] == es[j - 1]);
        } else if i == p {
            assert(after[j] == es[j - 1]);
        } else {
            assert(after[i] == es[i - 1] && after[j] == es[j - 1]);
        }
    }
    lemma_sorted_map(es);
    let m = entries_map(es).insert(k, v);
    assert forall|i: int| 0 <= i < after.len() implies #[trigger] m.contains_key(after[i].0) && m[after[i].0]
        == after[i].1 by {
        if i < p {
            assert(after[i] == es[i]);
            lemma_key_less_irreflexive(k);
        } else if i > p {
            assert(after[i] == es[i - 1]);
            lemma_key_less_irreflexive(k);
        }
    }
    assert forall|kk: Seq<char>| #[trigger] m.contains_key(kk) implies exists|i: int|
        0 <= i < after.len() && after[i].0 == kk by {
        if kk == k {
            assert(after[p].0 == kk);
        } else {
            let i = choose|i: int| 0 <= i < es.len() && es[i].0 == kk;
            if i < p {
                assert(after[i] == es[i]);
            } else {
                assert(after[i + 1] == es[i]);
            }
        }
    }
    lemma_sorted_map_ext(after, m);
}

/// Replacing the value of an entry keeps the keys sorted and sets the key
/// in the map.
proof fn lemma_replace_sorted(es: Seq<(Seq<char>, Seq<char>)>, p: int, k: Seq<char>, v: Seq<char>)
    requires
        keys_sorted(es),
        0 <= p < es.len(),
        es[p].0 == k,
    ensures
        keys_sorted(es.update(p, (k, v))),
        entries_map(es.update(p, (k, v))) == entries_map(es).insert(k, v),
{
    let after = es.update(p, (k, v));
    assert forall|i: int, j: int| 0 <= i < j < after.len() implies key_less(#[trigger] after[i].0, #[trigger] after[j].0) by {
        assert(after[i].0 == es[i].0 && after[j].0 == es[j].0);
    }
    lemma_sorted_map(es);
    let m = entries_map(es).insert(k, v);
    assert forall|i: int| 0 <= i < after.len() implies #[trigger] m.contains_key(after[i].0) && m[after[i].0]
        == after[i].1 by {
        if i != p {
            assert(after[i] == es[i]);
            if i < p {
                assert(key_less(es[i].0, es[p].0));
            } else {
                assert(key_less(es[p].0, es[i].0));
            }
            lemma_key_less_irreflexive(k);
            assert(es[i].0 != k);
            assert(entries_map(es).contains_key(es[i].0) && entries_map(es)[es[i].0] == es[i].1);
        } else {
            assert(after[p] == (k, v));
        }
    }
    assert forall|kk: Seq<char>| #[trigger] m.contains_key(kk) implies exists|i: int|
        0 <= i < after.len() && after[i].0 == kk by {
        if kk == k {
            assert(after[p].0 == kk);
        } else {
            let i = choose|i: int| 0 <= i < es.len() && es[i].0 == kk;
            assert(after[i].0 == es[i].0);
        }
    }
    lemma_sorted_map_ext(after, m);
}

impl Config {
    /// No settings.
    pub fn new() -> (c: Config)
        ensures
            c.deep_view() == Map::<Seq<char>, Seq<char>>::empty(),
            c.entry_list() == Seq::<(Seq<char>, Seq<char>)>::empty(),
    {
        let es: Vec<(String, String)> = Vec::new();
        assert(es.deep_view() =~= Seq::<(Seq<char>, Seq<char>)>::empty());
        Config { entries: es }
    }

    /// The entries, in the order of their keys: each key once, with its
    /// value.
    pub fn entries(&self) -> (es: &Vec<(String, String)>)
        ensures
            es.deep_view() == self.entry_list(),
            keys_sorted(self.entry_list()),
            entries_map(self.entry_list()) == self.deep_view(),
    {
        proof {
            use_type_invariant(self);
        }
        &self.entries
    }

    /// Sets `key` to `value`, replacing what it was; a new key takes its
    /// place in the order of keys.
    pub fn insert(&mut self, key: String, value: String)
        ensures
            final(self).deep_view() == old(self).deep_view().insert(key@, value@),
    {
        proof {
            use_type_invariant(&*self);
        }
        let mut es: Vec<(String, String)> = Vec::new();
        std::mem::swap(&mut es, &mut self.entries);
        let ghost before = es.deep_view();
        let mut p: usize = 0;
        while p < es.len() && key_before(&es[p].0, &key)
            invariant
                p <= es@.len(),
                es.deep_view() == before,
                forall|j: int| 0 <= j < p ==> key_less(#[trigger] before[j].0, key@),
            decreases es@.len() - p,
        {
            assert(before[p as int].0 == es@[p as int].0@);
            p = p + 1;
        }
        if p < es.len() && es[p].0 == key {
            proof {
                assert(before[p as int].0 == key@);
                lemma_replace_sorted(before, p as int, key@, value@);
            }
            let ghost kv = (key@, value@);
            es.set(p, (key, value));
            assert(es.deep_view() =~= before.update(p as int, kv));
        } else {
            proof {
                if p < es@.len() {
                    assert(before[p as int].0 == es@[p as int].0@);
                    lemma_key_less_total(before[p as int].0, key@);
                }
                lemma_insert_sorted(before, p as int, key@, value@);
            }
            let ghost kv = (key@, value@);
            es.insert(p, (key, value));
            assert(es.deep_view() =~= before.insert(p as int, kv));
        }
        self.entries = es;
    }

    /// The settings of `pairs`, a later pair for a key replacing an earlier.
    pub fn from_pairs(pairs: &[(&str, &str)]) -> (c: Config)
        ensures
            c.deep_view() == entries_map(
                Seq::new(pairs@.len(), |i: int| (pairs@[i].0@, pairs@[i].1@)),
            ),
    {
        let ghost target = Seq::new(pairs@.len(), |i: int| (pairs@[i].0@, pairs@[i].1@));
        let mut c = Config::new();
        let mut i: usize = 0;
        while i < pairs.len()
            invariant
                i <= pairs@.len(),
                target.len() == pairs@.len(),
                forall|j: int| 0 <= j < pairs@.len() ==> #[trigger] target[j] == (pairs@[j].0@, pairs@[j].1@),
                c.deep_view() == entries_map(target.take(i as int)),
            decreases pairs@.len() - i,
        {
            c.insert(pairs[i].0.to_string(), pairs[i].1.to_string());
            assert(target.take(i + 1).drop_last() =~= target.take(i as int));
            i = i + 1;
        }
        assert(target.take(i as int) =~= target);
        c
    }

    /// The value of `key` among the first `n` entries.
    fn get_before(&self, n: usize, key: &String) -> (v: Option<&String>)
        requires
            n <= self.entries@.len(),
        ensures
            match v {
                Some(s) => entries_map(self.entries.deep_view().take(n as int)).contains_key(key@)
                    && entries_map(self.entries.deep_view().take(n as int))[key@] == s@,
                None => !entries_map(self.entries.deep_view().take(n as int)).contains_key(key@),
            },
    {
        let ghost all = self.entries.deep_view();
        let mut i: usize = n;
        while i > 0
            invariant
                i <= n <= self.entries@.len(),
                all == self.entries.deep_view(),
                entries_map(all.take(n as int)).contains_key(key@) == entries_map(all.take(i as int)).contains_key(key@),
                entries_map(all.take(n as int)).contains_key(key@) ==> entries_map(all.take(n as int))[key@]
                    == entries_map(all.take(i as int))[key@],
            decreases i,
        {
            assert(all.take(i as int).drop_last() =~= all.take(i - 1));
            assert(all.take(i as int).last() == (self.entries@[i - 1].0@, self.entries@[i - 1].1@));
            if self.entries[i - 1].0 == *key {
                return Some(&self.entries[i - 1].1);
            }
            i = i - 1;
        }
        assert(all.take(0) =~= Seq::<(Seq<char>, Seq<char>)>::empty());
        None
    }

    /// The value of `key`, if it is set.
    pub fn get(&self, key: &str) -> (v: Option<&String>)
        ensures
            match v {
                Some(s) => self.deep_view().contains_key(key@) && self.deep_view()[key@] == s@,
                None => !self.deep_view().contains_key(key@),
            },
    {
        let k = key.to_string();
        assert(self.entries.deep_view().take(self.entries@.len() as int) =~= self.entries.deep_view());
        self.get_before(self.entries.len(), &k)
    }

    /// Fills in, from `other`, the keys that this config does not set; the
    /// keys it sets keep their values.
    pub fn overlay(&mut self, other: &Config)
        ensures
            final(self).deep_view() == other.deep_view().union_prefer_right(old(self).deep_view()),
    {
        proof {
            use_type_invariant(other);
        }
        let ghost orig = self.deep_view();
        let ghost theirs = other.entries.deep_view();
        assert(theirs.take(0) =~= Seq::<(Seq<char>, Seq<char>)>::empty());
        assert(self.deep_view() =~= entries_map(theirs.take(0)).union_prefer_right(orig));
        let mut i: usize = 0;
        while i < other.entries.len()
            invariant
                i <= theirs.len(),
                theirs == other.entries.deep_view(),
                keys_sorted(theirs),
                self.deep_view() == entries_map(theirs.take(i as int)).union_prefer_right(orig),
            decreases theirs.len() - i,
        {
            let entry = &other.entries[i];
            let ghost k = entry.0@;
            let ghost v = entry.1@;
            let ghost prefix = theirs.take(i as int);
            assert(theirs[i as int] == (k, v));
            assert(theirs.take(i + 1).drop_last() =~= prefix);
            assert(entries_map(theirs.take(i + 1)) == entries_map(prefix).insert(k, v));
            assert(!entries_map(prefix).contains_key(k)) by {
                assert(keys_sorted(prefix)) by {
                    assert forall|a: int, b: int| 0 <= a < b < prefix.len() implies key_less(
                        #[trigger] prefix[a].0,
                        #[trigger] prefix[b].0,
                    ) by {
                        assert(prefix[a] == theirs[a] && prefix[b] == theirs[b]);
                    }
                }
                lemma_sorted_map(prefix);
                if entries_map(prefix).contains_key(k) {
                    let j = choose|j: int| 0 <= j < prefix.len() && prefix[j].0 == k;
                    assert(prefix[j] == theirs[j]);
                    assert(key_less(theirs[j].0, theirs[i as int].0));
                    lemma_key_less_irreflexive(k);
                }
            }
            if self.get(entry.0.as_str()).is_none() {
                self.insert(entry.0.clone(), entry.1.clone());
                assert(self.deep_view() =~= entries_map(theirs.take(i + 1)).union_prefer_right(orig));
            } else {
                assert(orig.contains_key(k));
                assert(self.deep_view() =~= entries_map(theirs.take(i + 1)).union_prefer_right(orig));
            }
            i = i + 1;
        }
        assert(theirs.take(i as int) =~= theirs);
    }
}

impl Replicate for Config {
    fn replicate(&self) -> (r: Config) {
        proof {
            use_type_invariant(self);
        }
        let es = replicate_all(&self.entries);
        Config { entries: es }
    }
}

/// A configuration scope: its name and its own overrides. Child scopes
/// inherit and can further override.
pub struct Scope {
    pub name: String,
    pub overrides: Config,
}

impl DeepView for Scope {
    type V = (Seq<char>, Map<Seq<char>, Seq<char>>);

    open spec fn deep_view(&self) -> (Seq<char>, Map<Seq<char>, Seq<char>>) {
        (self.name@, self.overrides.deep_view())
    }
}

impl Replicate for Scope {
    fn replicate(&self) -> (r: Scope) {
        Scope { name: self.name.clone(), overrides: self.overrides.replicate() }
    }
}

impl Scope {
    pub fn new(name: &str, overrides: &[(&str, &str)]) -> (s: Scope)
        ensures
            s.name@ == name@,
            s.overrides.deep_view() == entries_map(
                Seq::new(overrides@.len(), |i: int| (overrides@[i].0@, overrides@[i].1@)),
            ),
    {
        Scope { name: name.to_string(), overrides: Config::from_pairs(overrides) }
    }
}

/// The resolved configuration of a scope: its name and merged settings.
pub struct ResolvedConfig {
    pub scope: String,
    pub merged: Config,
}

impl DeepView for ResolvedConfig {
    type V = (Seq<char>, Map<Seq<char>, Seq<char>>);

    open spec fn deep_view(&self) -> (Seq<char>, Map<Seq<char>, Seq<char>>) {
        (self.scope@, self.merged.deep_view())
    }
}

/// init seeds the heap with the scope's own overrides; accumulate fills in
/// the keys a child's resolved config sets and the heap does not.
#[derive(Clone, Copy)]
pub struct Resolve;

pub type ScopeView = (Seq<char>, Map<Seq<char>, Seq<char>>);

impl Algebra for Resolve {
    type Node = Tree<Scope>;
    type Heap = ResolvedConfig;
    type Out = ResolvedConfig;

    open spec fn init_ok(&self, node: TreeModel<ScopeView>) -> bool {
        true
    }

    open spec fn init_spec(&self, node: TreeModel<ScopeView>) -> ScopeView {
        node.value
    }

    open spec fn accumulate_ok(&self, heap: ScopeView, child: ScopeView) -> bool {
        true
    }

    open spec fn accumulate_spec(&self, heap: ScopeView, child: ScopeView) -> ScopeView {
        (heap.0, child.1.union_prefer_right(heap.1))
    }

    open spec fn finalize_spec(&self, heap: ScopeView) -> ScopeView {
        heap
    }

    fn init(&self, node: &Tree<Scope>) -> (heap: ResolvedConfig) {
        ResolvedConfig { scope: node.value.name.clone(), merged: node.value.overrides.replicate() }
    }

    fn accumulate(&self, heap: &mut ResolvedConfig, child: &ResolvedConfig) {
        heap.merged.overlay(&child.merged);
    }

    fn finalize(&self, heap: &ResolvedConfig) -> (res: ResolvedConfig) {
        ResolvedConfig { scope: heap.scope.clone(), merged: heap.merged.replicate() }
    }
}


/// The merged settings of a scope: its own overrides, then each child's
/// merged settings in order filling in only the keys still unset.
pub open spec fn resolved(m: TreeModel<ScopeView>) -> Map<Seq<char>, Seq<char>>
    decreases m, 1nat,
{
    merge_children(m.value.1, m.children)
}

pub open spec fn merge_children(
    acc: Map<Seq<char>, Seq<char>>,
    ms: Seq<TreeModel<ScopeView>>,
) -> Map<Seq<char>, Seq<char>>
    decreases ms, 0nat,
{
    if ms.len() == 0 {
        acc
    } else {
        merge_children(resolved(ms[0]).union_prefer_right(acc), ms.drop_first())
    }
}

proof fn lemma_resolve_scope(m: TreeModel<ScopeView>)
    ensures
        defined(Resolve, Children, m),
        fold_result(Resolve, Children, m) == (m.value.0, resolved(m)),
    decreases m, 1nat,
{
    lemma_resolve_children(m.children, m.value);
    law_recursion_step(Resolve, Children, m);
}

proof fn lemma_resolve_children(ms: Seq<TreeModel<ScopeView>>, heap: ScopeView)
    ensures
        all_defined(Resolve, Children, ms),
        accumulate_all(Resolve, heap, results_of(Resolve, Children, ms)) == Some((heap.0, merge_children(heap.1, ms))),
    decreases ms, 0nat,
{
    if ms.len() > 0 {
        let rest = ms.drop_first();
        lemma_resolve_scope(ms[0]);
        lemma_resolve_children(rest, (heap.0, resolved(ms[0]).union_prefer_right(heap.1)));
        assert(results_of(Resolve, Children, ms).drop_first() =~= results_of(Resolve, Children, rest));
        assert forall|i: int| 0 <= i < ms.len() implies #[trigger] defined(Resolve, Children, ms[i]) by {
            if i > 0 {
                assert(ms[i] == rest[i - 1]);
            }
        }
    }
}

/// Resolving a scope tree always succeeds, keeps the root's name, and gives
/// the merge `resolved` describes.
pub proof fn law_resolve(m: TreeModel<ScopeView>)
    ensures
        defined(Resolve, Children, m),
        fold_result(Resolve, Children, m) == (m.value.0, resolved(m)),
{
    lemma_resolve_scope(m);
}

proof fn lemma_merge_keeps(acc: Map<Seq<char>, Seq<char>>, ms: Seq<TreeModel<ScopeView>>)
    ensures
        acc.submap_of(merge_children(acc, ms)),
    decreases ms.len(),
{
    if ms.len() > 0 {
        let next = resolved(ms[0]).union_prefer_right(acc);
        assert(acc.submap_of(next));
        lemma_merge_keeps(next, ms.drop_first());
        let result = merge_children(next, ms.drop_first());
        assert(result == merge_children(acc, ms));
        assert forall|k: Seq<char>| #[trigger] acc.contains_key(k) implies result.contains_key(k) && result[k] == acc[k] by {
            assert(next.contains_key(k) && next[k] == acc[k]);
            assert(result.contains_key(k) && result[k] == next[k]);
        }
    }
}

/// Parent wins: every key a scope sets itself keeps the scope's own value
/// in its resolved settings, whatever its descendants set.
pub proof fn law_parent_wins(m: TreeModel<ScopeView>, key: Seq<char>)
    requires
        m.value.1.contains_key(key),
    ensures
        resolved(m).contains_key(key),
        resolved(m)[key] == m.value.1[key],
{
    lemma_merge_keeps(m.value.1, m.children);
    assert(resolved(m) == merge_children(m.value.1, m.children));
    assert(m.value.1.submap_of(resolved(m)));
    assert(m.value.1.contains_key(key));
    assert(resolved(m).contains_key(key) && resolved(m)[key] == m.value.1[key]);
}

/// The resolved configuration of the scope tree `root`.
pub fn resolve(root: &Tree<Scope>) -> (r: ResolvedConfig)
    ensures
        r.scope@ == root.deep_view().value.0,
        r.merged.deep_view() == resolved(root.deep_view()),
{
    proof {
        law_resolve(root.deep_view());
    }
    fused(Resolve, Children, root)
}

} // verus!
