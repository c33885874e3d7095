//! Packages and the package dependency graph: a static DAG among workspace
//! packages, derived from manifests and restricted to the transitive closure
//! of a chosen root-set. It supplies a reachability predicate and a
//! deterministic linear extension of the dependency order, ties broken by
//! package name.

use vstd::prelude::*;
use crate::errors::Error;

verus! {

/// What kind of artifact a package builds.
#[derive(Clone, Copy, PartialEq, Eq, Structural, Debug)]
pub enum TargetKind {
    Script,
    Site,
    Library,
}

/// One buildable unit of the workspace. Created once at workspace load and
/// immutable thereafter; `index` is its stable position in the workspace
/// package list.
#[derive(Clone)]
pub struct Package {
    pub name: String,
    pub root: String,
    pub target: TargetKind,
    pub index: usize,
    /// Names of the packages this one depends on, from its manifest.
    pub deps: Vec<String>,
    /// The package's source and asset files, enumerated at load time.
    pub source_files: Vec<String>,
}

/// Links are well-formed when every edge target is a valid index and `rank`
/// strictly decreases along every edge.
pub open spec fn wf_links(edges: Seq<Vec<usize>>, rank: Seq<usize>) -> bool {
    &&& rank.len() == edges.len()
    &&& (forall|i: int, k: int|
        0 <= i < edges.len() && 0 <= k < edges[i]@.len() ==> (#[trigger] edges[i]@[k])
            < edges.len())
    &&& (forall|i: int, k: int|
        0 <= i < edges.len() && 0 <= k < edges[i]@.len() ==> rank[(#[trigger] edges[i]@[k]) as int]
            < rank[i])
}

/// Transitive reachability along dependency edges: `b` is reachable from `a`
/// in one or more steps.
pub open spec fn links_reach(edges: Seq<Vec<usize>>, rank: Seq<usize>, a: int, b: int) -> bool
    decreases rank[a],
    when wf_links(edges, rank) && 0 <= a < edges.len()
{
    exists|k: int|
        0 <= k < edges[a]@.len() && ((#[trigger] edges[a]@[k]) == b || links_reach(
            edges,
            rank,
            edges[a]@[k] as int,
            b,
        ))
}

/// Reachability extends across one more edge.
pub proof fn lemma_reach_step(edges: Seq<Vec<usize>>, rank: Seq<usize>, a: int, b: int, c: int)
    requires
        wf_links(edges, rank),
        0 <= a < edges.len(),
        0 <= b < edges.len(),
        links_reach(edges, rank, a, b),
        exists|k: int| 0 <= k < edges[b]@.len() && edges[b]@[k] == c,
    ensures
        links_reach(edges, rank, a, c),
    decreases rank[a],
{
    let k = choose|k: int|
        0 <= k < edges[a]@.len() && (edges[a]@[k] == b || links_reach(
            edges,
            rank,
            edges[a]@[k] as int,
            b,
        ));
    if edges[a]@[k] == b {
        let kk = choose|kk: int| 0 <= kk < edges[b]@.len() && edges[b]@[kk] == c;
        assert(links_reach(edges, rank, b, c));
    } else {
        lemma_reach_step(edges, rank, edges[a]@[k] as int, b, c);
    }
}

/// Reachable nodes have strictly smaller rank, so any linear order that
/// follows `rank` lists a package's dependencies before the package.
pub proof fn lemma_reach_rank(edges: Seq<Vec<usize>>, rank: Seq<usize>, a: int, b: int)
    requires
        wf_links(edges, rank),
        0 <= a < edges.len(),
        links_reach(edges, rank, a, b),
    ensures
        0 <= b < edges.len(),
        rank[b] < rank[a],
    decreases rank[a],
{
    let k = choose|k: int|
        0 <= k < edges[a]@.len() && (edges[a]@[k] == b || links_reach(
            edges,
            rank,
            edges[a]@[k] as int,
            b,
        ));
    if edges[a]@[k] == b {
    } else {
        lemma_reach_rank(edges, rank, edges[a]@[k] as int, b);
    }
}

/// A set of nodes closed under dependency edges contains everything
/// reachable from its members.
pub proof fn lemma_closed_contains_reachable(
    edges: Seq<Vec<usize>>,
    rank: Seq<usize>,
    scope: Seq<bool>,
    a: int,
    b: int,
)
    requires
        wf_links(edges, rank),
        scope.len() == edges.len(),
        forall|i: int, k: int|
            0 <= i < edges.len() && scope[i] && 0 <= k < edges[i]@.len() ==> scope[(
            #[trigger] edges[i]@[k]) as int],
        0 <= a < edges.len(),
        scope[a],
        links_reach(edges, rank, a, b),
    ensures
        0 <= b < edges.len(),
        scope[b],
    decreases rank[a],
{
    let k = choose|k: int|
        0 <= k < edges[a]@.len() && (edges[a]@[k] == b || links_reach(
            edges,
            rank,
            edges[a]@[k] as int,
            b,
        ));
    if edges[a]@[k] == b {
    } else {
        lemma_closed_contains_reachable(edges, rank, scope, edges[a]@[k] as int, b);
    }
}

/// The package dependency graph: resolved edges, a topological rank (with
/// dependencies ranked lower), the linear order the rank induces, and the
/// membership of each package in the transitive closure of the chosen roots.
pub struct PackageGraph {
    pub n: usize,
    pub edges: Vec<Vec<usize>>,
    pub rank: Vec<usize>,
    pub order: Vec<usize>,
    pub in_scope: Vec<bool>,
}

impl PackageGraph {
    pub open spec fn wf(self) -> bool {
        &&& self.edges@.len() == self.n
        &&& self.rank@.len() == self.n
        &&& self.order@.len() == self.n
        &&& self.in_scope@.len() == self.n
        &&& wf_links(self.edges@, self.rank@)
        &&& (forall|i: int| 0 <= i < self.n ==> (#[trigger] self.rank@[i]) < self.n)
        &&& (forall|i: int| 0 <= i < self.n ==> (#[trigger] self.order@[self.rank@[i] as int]) == i)
        &&& (forall|t: int| 0 <= t < self.n ==> (#[trigger] self.order@[t]) < self.n)
        &&& (forall|t: int| 0 <= t < self.n ==> (#[trigger] self.rank@[self.order@[t] as int]) == t)
        // the scope is closed under dependency edges
        &&& (forall|i: int, k: int|
            0 <= i < self.n && self.in_scope@[i] && 0 <= k < self.edges@[i]@.len()
                ==> self.in_scope@[(#[trigger] self.edges@[i]@[k]) as int])
    }

    /// Package `a` depends on package `b`, directly or transitively.
    pub open spec fn spec_is_dependent_on(self, a: int, b: int) -> bool {
        links_reach(self.edges@, self.rank@, a, b)
    }

    /// Answers transitive dependency between two packages, by index.
    pub fn is_dependent_on(&self, a: usize, b: usize) -> (r: bool)
        requires
            self.wf(),
            a < self.n,
            b < self.n,
        ensures
            r == self.spec_is_dependent_on(a as int, b as int),
        decreases self.rank@[a as int],
    {
        let row_len = self.edges[a].len();
        let mut k: usize = 0;
        while k < row_len
            invariant
                self.wf(),
                a < self.n,
                b < self.n,
                row_len == self.edges@[a as int]@.len(),
                k <= row_len,
                forall|t: int|
                    0 <= t < k ==> (#[trigger] self.edges@[a as int]@[t]) != b && !links_reach(
                        self.edges@,
                        self.rank@,
                        self.edges@[a as int]@[t] as int,
                        b as int,
                    ),
            decreases row_len - k,
        {
            let j = self.edges[a][k];
            if j == b {
                return true;
            }
            if self.is_dependent_on(j, b) {
                return true;
            }
            k = k + 1;
        }
        false
    }
}


/// The position of the first package named `name` at or after `j`, or the
/// package count when there is none.
#[verifier::opaque]
pub open spec fn first_with_name(packages: Seq<Package>, name: Seq<char>, j: int) -> int
    decreases packages.len() - j,
    when 0 <= j <= packages.len()
{
    if j >= packages.len() {
        packages.len() as int
    } else if packages[j].name@ == name {
        j
    } else {
        first_with_name(packages, name, j + 1)
    }
}

/// The package that dependency `k` of package `i` resolves to: the first
/// package carrying the declared name, or the package count when none does.
pub open spec fn dep_target(packages: Seq<Package>, i: int, k: int) -> int {
    first_with_name(packages, packages[i].deps@[k]@, 0)
}

/// Every declared dependency name resolves to some package.
pub open spec fn all_deps_resolve(packages: Seq<Package>) -> bool {
    forall|i: int, k: int|
        0 <= i < packages.len() && 0 <= k < packages[i].deps@.len() ==> #[trigger] dep_target(
            packages,
            i,
            k,
        ) < packages.len()
}

/// Some assignment of ranks decreases along every resolved dependency:
/// the declared dependencies form no cycle.
pub open spec fn deps_acyclic(packages: Seq<Package>) -> bool {
    exists|rank: Seq<usize>|
        rank.len() == packages.len() && (forall|i: int, k: int|
            0 <= i < packages.len() && 0 <= k < packages[i].deps@.len() ==> rank[
                #[trigger] dep_target(packages, i, k)] < rank[i])
}

proof fn lemma_first_from(packages: Seq<Package>, name: Seq<char>, j: int)
    requires
        0 <= j <= packages.len(),
        forall|t: int| 0 <= t < j ==> packages[t].name@ != name,
    ensures
        first_with_name(packages, name, 0) == first_with_name(packages, name, j),
    decreases j,
{
    reveal(first_with_name);
    if j > 0 {
        lemma_first_from(packages, name, j - 1);
    }
}

/// How many entries are true.
spec fn count_true(s: Seq<bool>) -> nat
    decreases s.len(),
{
    if s.len() == 0 {
        0
    } else {
        count_true(s.drop_last()) + (if s.last() {
            1nat
        } else {
            0nat
        })
    }
}

proof fn lemma_count_true_update(s: Seq<bool>, i: int)
    requires
        0 <= i < s.len(),
        !s[i],
    ensures
        count_true(s.update(i, true)) == count_true(s) + 1,
    decreases s.len(),
{
    let su = s.update(i, true);
    if i == s.len() - 1 {
        assert(su.drop_last() =~= s.drop_last());
    } else {
        assert(su.drop_last() =~= s.drop_last().update(i, true));
        lemma_count_true_update(s.drop_last(), i);
        assert(su.last() == s.last());
    }
}

proof fn lemma_count_true_none(s: Seq<bool>)
    requires
        forall|t: int| 0 <= t < s.len() ==> !s[t],
    ensures
        count_true(s) == 0,
    decreases s.len(),
{
    if s.len() > 0 {
        lemma_count_true_none(s.drop_last());
    }
}

proof fn lemma_count_true_bound(s: Seq<bool>)
    ensures
        count_true(s) <= s.len(),
    decreases s.len(),
{
    if s.len() > 0 {
        lemma_count_true_bound(s.drop_last());
    }
}

proof fn lemma_count_true_all(s: Seq<bool>)
    requires
        forall|t: int| 0 <= t < s.len() ==> s[t],
    ensures
        count_true(s) == s.len(),
    decreases s.len(),
{
    if s.len() > 0 {
        lemma_count_true_all(s.drop_last());
    }
}

proof fn lemma_count_true_full(s: Seq<bool>)
    requires
        count_true(s) == s.len(),
    ensures
        forall|t: int| 0 <= t < s.len() ==> s[t],
    decreases s.len(),
{
    if s.len() > 0 {
        lemma_count_true_bound(s.drop_last());
        assert(s.last());
        lemma_count_true_full(s.drop_last());
        assert forall|t: int| 0 <= t < s.len() implies s[t] by {
            if t < s.len() - 1 {
                assert(s.drop_last()[t]);
            }
        };
    }
}

/// A stalled ordering shows the fault: when every declared name resolves,
/// and every unplaced package has an unplaced dependency, the resolved
/// dependencies admit no rank that decreases along every edge — they hold a
/// cycle.
proof fn lemma_stall_shows_cycle(
    packages: Seq<Package>,
    edges: Seq<Vec<usize>>,
    placed: Seq<bool>,
    c: int,
)
    requires
        edges.len() == packages.len(),
        placed.len() == packages.len(),
        forall|u2: int, k2: int|
            0 <= u2 < edges.len() && 0 <= k2 < edges[u2]@.len() ==> (#[trigger] edges[u2]@[k2])
                < edges.len(),
        forall|u2: int| 0 <= u2 < edges.len() ==> (#[trigger] edges[u2]@.len())
            == packages[u2].deps@.len(),
        forall|u2: int, k2: int|
            0 <= u2 < edges.len() && 0 <= k2 < edges[u2]@.len() ==> (
            #[trigger] edges[u2]@[k2]) as int == dep_target(packages, u2, k2),
        forall|j2: int|
            0 <= j2 < edges.len() && !placed[j2] ==> exists|k: int|
                0 <= k < edges[j2]@.len() && !placed[(#[trigger] edges[j2]@[k]) as int],
        0 <= c < edges.len(),
        !placed[c],
    ensures
        all_deps_resolve(packages),
        !deps_acyclic(packages),
{
    assert(all_deps_resolve(packages)) by {
        assert forall|i2: int, k2: int|
            0 <= i2 < packages.len() && 0 <= k2 < packages[i2].deps@.len() implies #[trigger] dep_target(
            packages,
            i2,
            k2,
        ) < packages.len() by {
            assert((edges[i2]@[k2]) as int == dep_target(packages, i2, k2));
        };
    }
    assert(!deps_acyclic(packages)) by {
        if deps_acyclic(packages) {
            let rank2 = choose|rank2: Seq<usize>|
                (#[trigger] rank2.len()) == packages.len() && (forall|i2: int, k2: int|
                    0 <= i2 < packages.len() && 0 <= k2 < packages[i2].deps@.len() ==> rank2[
                        #[trigger] dep_target(packages, i2, k2)] < rank2[i2]);
            assert forall|i2: int, k2: int|
                0 <= i2 < edges.len() && 0 <= k2 < edges[i2]@.len() implies rank2[(
            #[trigger] edges[i2]@[k2]) as int] < rank2[i2] by {
                assert((edges[i2]@[k2]) as int == dep_target(packages, i2, k2));
            };
            lemma_ranked_is_placed(edges, placed, rank2, c);
        }
    }
}

/// When every unplaced node has an unplaced dependency, yet some rank
/// decreases along every edge, every node must be placed: an unplaced node
/// would start a descent of ranks that never ends.
proof fn lemma_ranked_is_placed(edges: Seq<Vec<usize>>, placed: Seq<bool>, rank2: Seq<usize>, c: int)
    requires
        placed.len() == edges.len(),
        rank2.len() == edges.len(),
        forall|i: int, k: int|
            0 <= i < edges.len() && 0 <= k < edges[i]@.len() ==> (#[trigger] edges[i]@[k])
                < edges.len(),
        forall|i: int, k: int|
            0 <= i < edges.len() && 0 <= k < edges[i]@.len() ==> rank2[(
            #[trigger] edges[i]@[k]) as int] < rank2[i],
        forall|j: int|
            0 <= j < edges.len() && !placed[j] ==> exists|k: int|
                0 <= k < edges[j]@.len() && !placed[(#[trigger] edges[j]@[k]) as int],
        0 <= c < edges.len(),
    ensures
        placed[c],
    decreases rank2[c],
{
    if !placed[c] {
        let k = choose|k: int| 0 <= k < edges[c]@.len() && !placed[(edges[c]@[k]) as int];
        lemma_ranked_is_placed(edges, placed, rank2, edges[c]@[k] as int);
    }
}

/// The position of the first package with the given name, if any.
pub fn find_package(packages: &Vec<Package>, name: &String) -> (r: Option<usize>)
    ensures
        match r {
            Some(j) => j < packages@.len() && packages@[j as int].name@ == name@
                && first_with_name(packages@, name@, 0) == j,
            None => first_with_name(packages@, name@, 0) == packages@.len() && forall|j: int|
                0 <= j < packages@.len() ==> packages@[j].name@ != name@,
        },
{
    let mut j: usize = 0;
    while j < packages.len()
        invariant
            j <= packages@.len(),
            forall|t: int| 0 <= t < j ==> packages@[t].name@ != name@,
        decreases packages@.len() - j,
    {
        if packages[j].name == *name {
            proof {
                reveal(first_with_name);
                lemma_first_from(packages@, name@, j as int);
            }
            return Some(j);
        }
        j = j + 1;
    }
    proof {
        reveal(first_with_name);
        lemma_first_from(packages@, name@, packages@.len() as int);
    }
    None
}

/// Byte-wise lexicographic comparison of package names, used only to break
/// ties deterministically.
fn name_lt(a: &String, b: &String) -> bool {
    let ab = a.as_str().as_bytes();
    let bb = b.as_str().as_bytes();
    let mut i: usize = 0;
    while i < ab.len() && i < bb.len()
        invariant
            i <= ab@.len(),
            i <= bb@.len(),
        decreases ab@.len() - i,
    {
        if ab[i] < bb[i] {
            return true;
        }
        if ab[i] > bb[i] {
            return false;
        }
        i = i + 1;
    }
    ab.len() < bb.len()
}

/// All of the row's targets are already placed.
fn all_placed(row: &Vec<usize>, placed: &Vec<bool>) -> (r: bool)
    requires
        forall|k: int| 0 <= k < row@.len() ==> (#[trigger] row@[k]) < placed@.len(),
    ensures
        r == forall|k: int| 0 <= k < row@.len() ==> placed@[(#[trigger] row@[k]) as int],
{
    let mut k: usize = 0;
    while k < row.len()
        invariant
            k <= row@.len(),
            forall|t: int| 0 <= t < row@.len() ==> (#[trigger] row@[t]) < placed@.len(),
            forall|t: int| 0 <= t < k ==> placed@[(#[trigger] row@[t]) as int],
        decreases row@.len() - k,
    {
        if !placed[row[k]] {
            return false;
        }
        k = k + 1;
    }
    true
}

fn repeat_false(n: usize) -> (r: Vec<bool>)
    ensures
        r@.len() == n,
        forall|i: int| 0 <= i < n ==> !(#[trigger] r@[i]),
{
    let mut r: Vec<bool> = Vec::new();
    let mut i: usize = 0;
    while i < n
        invariant
            i <= n,
            r@.len() == i,
            forall|t: int| 0 <= t < i ==> !(#[trigger] r@[t]),
        decreases n - i,
    {
        r.push(false);
        i = i + 1;
    }
    r
}

fn repeat_zero(n: usize) -> (r: Vec<usize>)
    ensures
        r@.len() == n,
{
    let mut r: Vec<usize> = Vec::new();
    let mut i: usize = 0;
    while i < n
        invariant
            i <= n,
            r@.len() == i,
        decreases n - i,
    {
        r.push(0);
        i = i + 1;
    }
    r
}

/// Builds the package graph for the given packages, restricted to the
/// transitive closure of the packages at the `roots` indices.
///
/// The ready package with the smallest name: not yet placed, all of its
/// resolved dependencies placed. When none is ready, every unplaced package
/// has an unplaced dependency.
fn pick_ready(packages: &Vec<Package>, edges: &Vec<Vec<usize>>, placed: &Vec<bool>) -> (r: Option<
    usize,
>)
    requires
        edges@.len() == packages@.len(),
        placed@.len() == packages@.len(),
        forall|u: int, k: int|
            0 <= u < edges@.len() && 0 <= k < edges@[u]@.len() ==> (#[trigger] edges@[u]@[k])
                < edges@.len(),
    ensures
        match r {
            Some(b) => b < packages@.len() && !placed@[b as int] && forall|k: int|
                0 <= k < edges@[b as int]@.len() ==> placed@[(
                #[trigger] edges@[b as int]@[k]) as int],
            None => forall|j: int|
                0 <= j < packages@.len() && !placed@[j] ==> exists|k: int|
                    0 <= k < edges@[j]@.len() && !placed@[(#[trigger] edges@[j]@[k]) as int],
        },
{
    let n = packages.len();
    let mut best: usize = n;
    let mut j: usize = 0;
    while j < n
        invariant
            n == packages@.len(),
            edges@.len() == n,
            placed@.len() == n,
            forall|u: int, k: int|
                0 <= u < n && 0 <= k < edges@[u]@.len() ==> (#[trigger] edges@[u]@[k]) < n,
            j <= n,
            best == n || (best < n && !placed@[best as int] && forall|k: int|
                0 <= k < edges@[best as int]@.len() ==> placed@[(
                #[trigger] edges@[best as int]@[k]) as int]),
            best == n ==> forall|j2: int|
                0 <= j2 < j && !placed@[j2] ==> exists|k: int|
                    0 <= k < edges@[j2]@.len() && !placed@[(#[trigger] edges@[j2]@[k]) as int],
        decreases n - j,
    {
        if !placed[j] && all_placed(&edges[j], &placed) {
            if best == n || name_lt(&packages[j].name, &packages[best].name) {
                best = j;
            }
        }
        j = j + 1;
    }
    if best == n {
        None
    } else {
        Some(best)
    }
}

/// The first package not yet placed, if any.
fn find_unplaced(placed: &Vec<bool>) -> (r: Option<usize>)
    ensures
        match r {
            Some(c) => c < placed@.len() && !placed@[c as int],
            None => forall|t: int| 0 <= t < placed@.len() ==> placed@[t],
        },
{
    let mut u: usize = 0;
    while u < placed.len()
        invariant
            u <= placed@.len(),
            forall|t: int| 0 <= t < u ==> placed@[t],
        decreases placed@.len() - u,
    {
        if !placed[u] {
            return Some(u);
        }
        u = u + 1;
    }
    None
}

/// It fails exactly when the input shows a fault: a configuration error
/// when some declared dependency name resolves to no package, a cycle error
/// when all names resolve but the resolved dependencies form a cycle, and
/// success otherwise. On success the graph resolves every declared
/// dependency name to the first package carrying it, its rank places every
/// package after its dependencies (ties between unrelated packages are
/// broken by byte-wise name order), and its scope holds the roots, is
/// closed under dependency edges, and contains only roots and packages some
/// root depends on.
#[verifier::rlimit(100)]
pub fn build_package_graph(packages: &Vec<Package>, roots: &Vec<usize>) -> (r: Result<
    PackageGraph,
    Error,
>)
    requires
        forall|t: int| 0 <= t < roots@.len() ==> (#[trigger] roots@[t]) < packages@.len(),
    ensures
        match r {
            Ok(g) => {
                &&& g.wf()
                &&& g.n == packages@.len()
                &&& (forall|i: int|
                    0 <= i < g.n ==> (#[trigger] g.edges@[i]@.len()) == packages@[i].deps@.len())
                &&& (forall|i: int, k: int|
                    0 <= i < g.n && 0 <= k < g.edges@[i]@.len() ==> (#[trigger] g.edges@[i]@[
                    k]) as int == dep_target(packages@, i, k))
                &&& (forall|i: int, k: int|
                    0 <= i < g.n && 0 <= k < g.edges@[i]@.len() ==> packages@[(
                    #[trigger] g.edges@[i]@[k]) as int].name@ == packages@[i].deps@[k]@)
                &&& (forall|t: int|
                    0 <= t < roots@.len() ==> g.in_scope@[(#[trigger] roots@[t]) as int])
                &&& (forall|i: int|
                    0 <= i < g.n && g.in_scope@[i] ==> (exists|t: int|
                        0 <= t < roots@.len() && roots@[t] == i) || (exists|t: int|
                        0 <= t < roots@.len() && links_reach(
                            g.edges@,
                            g.rank@,
                            #[trigger] roots@[t] as int,
                            i,
                        )))
            },
            Err(e) => e is ConfigError || e is CycleError,
        },
        r is Ok <==> all_deps_resolve(packages@) && deps_acyclic(packages@),
        r matches Err(e) && e is ConfigError ==> !all_deps_resolve(packages@),
        r matches Err(e) && e is CycleError ==> all_deps_resolve(packages@) && !deps_acyclic(
            packages@,
        ),
{
    let n = packages.len();
    // Resolve each declared dependency name to a package index.
    let mut edges: Vec<Vec<usize>> = Vec::new();
    let mut i: usize = 0;
    while i < n
        invariant
            n == packages@.len(),
            i <= n,
            edges@.len() == i,
            forall|u: int| 0 <= u < i ==> (#[trigger] edges@[u]@.len()) == packages@[u].deps@.len(),
            forall|u: int, k: int|
                0 <= u < i && 0 <= k < edges@[u]@.len() ==> (#[trigger] edges@[u]@[k]) < n
                    && packages@[edges@[u]@[k] as int].name@ == packages@[u].deps@[k]@
                    && (edges@[u]@[k]) as int == dep_target(packages@, u, k),
        decreases n - i,
    {
        let mut row: Vec<usize> = Vec::new();
        let deps_len = packages[i].deps.len();
        let mut k: usize = 0;
        while k < deps_len
            invariant
                n == packages@.len(),
                i < n,
                deps_len == packages@[i as int].deps@.len(),
                k <= deps_len,
                row@.len() == k,
                forall|t: int|
                    0 <= t < k ==> (#[trigger] row@[t]) < n && packages@[row@[t] as int].name@
                        == packages@[i as int].deps@[t]@ && (row@[t]) as int == dep_target(
                        packages@,
                        i as int,
                        t,
                    ),
            decreases deps_len - k,
        {
            match find_package(packages, &packages[i].deps[k]) {
                Some(j) => {
                    row.push(j);
                },
                None => {
                    proof {
                        assert(dep_target(packages@, i as int, k as int) == packages@.len());
                        assert(!all_deps_resolve(packages@));
                    }
                    return Err(Error::ConfigError { message: packages[i].deps[k].clone() });
                },
            }
            k = k + 1;
        }
        edges.push(row);
        i = i + 1;
    }
    // Order the packages so that every dependency precedes its dependents,
    // choosing at each step the smallest name among the ready packages.
    let mut placed = repeat_false(n);
    let mut rank = repeat_zero(n);
    let mut order: Vec<usize> = Vec::new();
    proof {
        lemma_count_true_none(placed@);
    }
    while order.len() < n
        invariant
            n == packages@.len(),
            edges@.len() == n,
            forall|u: int, k: int|
                0 <= u < n && 0 <= k < edges@[u]@.len() ==> (#[trigger] edges@[u]@[k]) < n,
            forall|u: int| 0 <= u < n ==> (#[trigger] edges@[u]@.len()) == packages@[u].deps@.len(),
            forall|u: int, k: int|
                0 <= u < n && 0 <= k < edges@[u]@.len() ==> (#[trigger] edges@[u]@[k]) as int
                    == dep_target(packages@, u, k),
            count_true(placed@) == order@.len(),
            placed@.len() == n,
            rank@.len() == n,
            order@.len() <= n,
            forall|t: int|
                0 <= t < order@.len() ==> (#[trigger] order@[t]) < n && placed@[order@[t] as int]
                    && rank@[order@[t] as int] == t,
            forall|j: int|
                0 <= j < n && placed@[j] ==> (#[trigger] rank@[j]) < order@.len()
                    && order@[rank@[j] as int] == j,
            forall|j: int, k: int|
                0 <= j < n && placed@[j] && 0 <= k < edges@[j]@.len() ==> placed@[(
                #[trigger] edges@[j]@[k]) as int] && rank@[edges@[j]@[k] as int] < rank@[j],
        decreases n - order@.len(),
    {
        match pick_ready(packages, &edges, &placed) {
            None => {
                // No package is ready: a dependency cycle remains among the
                // unplaced packages; report one of them.
                match find_unplaced(&placed) {
                    Some(c) => {
                        proof {
                            lemma_stall_shows_cycle(packages@, edges@, placed@, c as int);
                        }
                        return Err(Error::CycleError { key: packages[c].name.clone() });
                    },
                    None => {
                        // unreachable: with every package placed, the order
                        // would already be complete
                        proof {
                            lemma_count_true_all(placed@);
                            assert(false);
                        }
                        return Err(Error::CycleError { key: String::new() });
                    },
                }
            },
            Some(best) => {
                proof {
                    lemma_count_true_update(placed@, best as int);
                }
                placed.set(best, true);
                rank.set(best, order.len());
                order.push(best);
            },
        }
    }
    proof {
        lemma_count_true_full(placed@);
    }
    // Mark the transitive closure of the roots, walking in descending rank
    // so that every mark a package can receive arrives before its own edges
    // are expanded.
    let mut scope = repeat_false(n);
    let mut t: usize = 0;
    while t < roots.len()
        invariant
            n == packages@.len(),
            scope@.len() == n,
            forall|u: int| 0 <= u < roots@.len() ==> (#[trigger] roots@[u]) < n,
            t <= roots@.len(),
            forall|u: int| 0 <= u < t ==> scope@[(#[trigger] roots@[u]) as int],
            forall|i: int|
                0 <= i < n && scope@[i] ==> exists|u: int| 0 <= u < roots@.len() && roots@[u] == i,
        decreases roots@.len() - t,
    {
        scope.set(roots[t], true);
        t = t + 1;
    }
    let mut pos: usize = n;
    while pos > 0
        invariant
            n == packages@.len(),
            edges@.len() == n,
            rank@.len() == n,
            order@.len() == n,
            scope@.len() == n,
            wf_links(edges@, rank@),
            forall|u2: int|
                0 <= u2 < n ==> (#[trigger] edges@[u2]@.len()) == packages@[u2].deps@.len(),
            forall|u2: int, k2: int|
                0 <= u2 < n && 0 <= k2 < edges@[u2]@.len() ==> (#[trigger] edges@[u2]@[k2]) as int
                    == dep_target(packages@, u2, k2),
            forall|u: int| 0 <= u < roots@.len() ==> (#[trigger] roots@[u]) < n,
            forall|t2: int| 0 <= t2 < n ==> (#[trigger] order@[t2]) < n,
            forall|t2: int| 0 <= t2 < n ==> (#[trigger] rank@[order@[t2] as int]) == t2,
            forall|i: int| 0 <= i < n ==> (#[trigger] rank@[i]) < n,
            forall|i: int| 0 <= i < n ==> (#[trigger] order@[rank@[i] as int]) == i,
            pos <= n,
            forall|u: int| 0 <= u < roots@.len() ==> scope@[(#[trigger] roots@[u]) as int],
            // every scope member is a root or reachable from one
            forall|i: int|
                0 <= i < n && scope@[i] ==> (exists|u: int|
                    0 <= u < roots@.len() && roots@[u] == i) || (exists|u: int|
                    0 <= u < roots@.len() && links_reach(
                        edges@,
                        rank@,
                        #[trigger] roots@[u] as int,
                        i,
                    )),
            // scope members of rank at least `pos` already handed their
            // marks on
            forall|i: int, k: int|
                0 <= i < n && scope@[i] && rank@[i] >= pos && 0 <= k < edges@[i]@.len() ==> scope@[(
                #[trigger] edges@[i]@[k]) as int],
        decreases pos,
    {
        pos = pos - 1;
        let x = order[pos];
        if scope[x] {
            let row_len = edges[x].len();
            let mut k: usize = 0;
            while k < row_len
                invariant
                    n == packages@.len(),
                    edges@.len() == n,
                    rank@.len() == n,
                    scope@.len() == n,
                    wf_links(edges@, rank@),
                    forall|u: int| 0 <= u < roots@.len() ==> (#[trigger] roots@[u]) < n,
                    x < n,
                    scope@[x as int],
                    rank@[x as int] == pos,
                    pos < n,
                    row_len == edges@[x as int]@.len(),
                    k <= row_len,
                    forall|u: int| 0 <= u < roots@.len() ==> scope@[(#[trigger] roots@[u]) as int],
                    forall|i: int|
                        0 <= i < n && scope@[i] ==> (exists|u: int|
                            0 <= u < roots@.len() && roots@[u] == i) || (exists|u: int|
                            0 <= u < roots@.len() && links_reach(
                                edges@,
                                rank@,
                                #[trigger] roots@[u] as int,
                                i,
                            )),
                    forall|i: int, kk: int|
                        0 <= i < n && scope@[i] && rank@[i] > pos && 0 <= kk < edges@[i]@.len()
                            ==> scope@[(#[trigger] edges@[i]@[kk]) as int],
                    forall|kk: int|
                        0 <= kk < k ==> scope@[(#[trigger] edges@[x as int]@[kk]) as int],
                decreases row_len - k,
            {
                let j = edges[x][k];
                proof {
                    // the new mark is sound: j is reachable from whatever
                    // reaches x, or directly from x if x is a root
                    let xi = x as int;
                    let ji = j as int;
                    assert(edges@[xi]@[k as int] == ji);
                    if exists|u: int| 0 <= u < roots@.len() && roots@[u] == xi {
                        assert(links_reach(edges@, rank@, xi, ji));
                    } else {
                        let u = choose|u: int|
                            0 <= u < roots@.len() && links_reach(
                                edges@,
                                rank@,
                                roots@[u] as int,
                                xi,
                            );
                        assert(exists|kk: int|
                            0 <= kk < edges@[xi]@.len() && edges@[xi]@[kk] == ji);
                        lemma_reach_step(edges@, rank@, roots@[u] as int, xi, ji);
                        assert(links_reach(edges@, rank@, roots@[u] as int, ji));
                    }
                }
                scope.set(j, true);
                k = k + 1;
            }
        }
        proof {
            // scope members of rank `pos` or above are now fully expanded:
            // the package of rank `pos` just was, and any new mark went to a
            // package of lower rank
            assert forall|i: int, k: int|
                0 <= i < n && scope@[i] && rank@[i] >= pos && 0 <= k
                    < edges@[i]@.len() implies scope@[(#[trigger] edges@[i]@[k]) as int] by {
                if rank@[i] == pos {
                    assert(i == order@[rank@[i] as int]);
                    assert(i == x as int);
                }
            };
        }
    }
    proof {
        assert(all_deps_resolve(packages@)) by {
            assert forall|i2: int, k2: int|
                0 <= i2 < packages@.len() && 0 <= k2
                    < packages@[i2].deps@.len() implies #[trigger] dep_target(packages@, i2, k2)
                < packages@.len() by {
                assert((edges@[i2]@[k2]) as int == dep_target(packages@, i2, k2));
            };
        }
        assert(deps_acyclic(packages@)) by {
            let w = rank@;
            assert(w.len() == packages@.len() && (forall|i2: int, k2: int|
                0 <= i2 < packages@.len() && 0 <= k2 < packages@[i2].deps@.len() ==> w[
                    #[trigger] dep_target(packages@, i2, k2)] < w[i2])) by {
                assert forall|i2: int, k2: int|
                    0 <= i2 < packages@.len() && 0 <= k2 < packages@[i2].deps@.len() implies w[
                    #[trigger] dep_target(packages@, i2, k2)] < w[i2] by {
                    assert((edges@[i2]@[k2]) as int == dep_target(packages@, i2, k2));
                };
            }
        }
    }
    Ok(PackageGraph { n, edges, rank, order, in_scope: scope })
}

} // verus!
