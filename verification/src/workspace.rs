//! The workspace: all packages, their dependency graph restricted to the
//! chosen roots, the deterministic display order, and the shared
//! fingerprint store and process registry. Loading manifests from disk is
//! the caller's part; the decisions — root resolution, graph construction,
//! ordering — live here.

use vstd::prelude::*;
use crate::cmd::Command;
use crate::dep_graph;
use crate::dep_graph::CommandGraph;
use crate::errors::Error;
use crate::fingerprint::Fingerprints;
use crate::package::{Package, PackageGraph, build_package_graph};
use crate::process::ProcessRegistry;

verus! {

/// The orchestrator's own section of the workspace manifest.
pub struct WorkspaceDepotConfig {
    pub depot_version: String,
}

/// Command-line arguments that apply to the whole workspace: the name of
/// one package to restrict the root-set to, if any.
pub struct CommonArgs {
    pub package: Option<String>,
}

/// An entire workspace: held by many parts of the application and immutable
/// after load, apart from the fingerprint store and the process registry.
pub struct WorkspaceInner {
    /// The root directory of the workspace, holding its manifest.
    pub root: String,
    /// All the packages in the workspace.
    pub packages: Vec<Package>,
    /// The dependencies between packages.
    pub pkg_graph: PackageGraph,
    /// True when the workspace is laid out as a monorepo with a packages
    /// directory.
    pub monorepo: bool,
    /// CLI arguments that apply to the whole workspace.
    pub common: CommonArgs,
    /// The indices of the packages the invocation is rooted at.
    pub roots: Vec<usize>,
    /// In-scope package indices, dependencies first, ties broken by name.
    pub display: Vec<usize>,
    /// The live process registry.
    pub processes: ProcessRegistry,
    /// The content-fingerprint store.
    pub fingerprints: Fingerprints,
}

impl WorkspaceInner {
    /// The display order lists a package only after everything it depends
    /// on: a valid linear extension of the dependency order.
    pub open spec fn display_order_wf(self) -> bool {
        &&& (forall|t: int|
            0 <= t < self.display@.len() ==> (#[trigger] self.display@[t]) < self.pkg_graph.n)
        &&& (forall|u: int, v: int|
            0 <= u < v < self.display@.len() ==> !self.pkg_graph.spec_is_dependent_on(
                self.display@[u] as int,
                self.display@[v] as int,
            ))
    }

    /// The packages, in display order: dependencies first, ties broken by
    /// name.
    pub fn package_display_order(&self) -> (r: &Vec<usize>)
        ensures
            r@ == self.display@,
    {
        &self.display
    }

    /// The live process registry.
    pub fn processes(&self) -> (r: &ProcessRegistry)
        ensures
            r == &self.processes,
    {
        &self.processes
    }

    /// Every source and asset file of every package, package by package.
    pub fn all_files(&self) -> (r: Vec<String>)
        ensures
            r@ == flat_files(self.packages@, self.packages@.len() as int),
    {
        let mut r: Vec<String> = Vec::new();
        let mut i: usize = 0;
        while i < self.packages.len()
            invariant
                i <= self.packages@.len(),
                r@ == flat_files(self.packages@, i as int),
            decreases self.packages@.len() - i,
        {
            let ghost pre = r@;
            let mut k: usize = 0;
            let files = &self.packages[i].source_files;
            while k < files.len()
                invariant
                    k <= files@.len(),
                    files@ == self.packages@[i as int].source_files@,
                    r@ == pre + files@.subrange(0, k as int),
                decreases files@.len() - k,
            {
                r.push(files[k].clone());
                proof {
                    assert(r@ =~= pre + files@.subrange(0, k + 1));
                }
                k = k + 1;
            }
            proof {
                assert(pre + files@.subrange(0, files@.len() as int) =~= pre + files@);
                assert(r@ =~= flat_files(self.packages@, i + 1));
            }
            i = i + 1;
        }
        r
    }
}

/// The files of the first `n` packages, in package order.
pub open spec fn flat_files(packages: Seq<Package>, n: int) -> Seq<String>
    decreases n,
{
    if n <= 0 {
        Seq::empty()
    } else {
        flat_files(packages, n - 1) + packages[n - 1].source_files@
    }
}

/// The workspace root: walking from the outermost candidate directory
/// towards the working directory, the first directory that holds a
/// workspace manifest. `rel` is the working directory's path relative to
/// the outermost candidate, one segment per entry; `has_manifest[i]` says
/// whether the directory at `ancestor` plus the first `i` segments holds a
/// manifest. No such directory is a configuration error.
pub fn find_workspace_root(
    ancestor: &Vec<String>,
    rel: &Vec<String>,
    has_manifest: &Vec<bool>,
) -> (r: Result<Vec<String>, Error>)
    requires
        has_manifest@.len() == rel@.len() + 1,
    ensures
        match r {
            Ok(path) => exists|i: int|
                0 <= i < has_manifest@.len() && has_manifest@[i] && (forall|t: int|
                    0 <= t < i ==> !has_manifest@[t]) && path@ == ancestor@ + rel@.subrange(0, i),
            Err(e) => e is ConfigError && forall|i: int|
                0 <= i < has_manifest@.len() ==> !has_manifest@[i],
        },
{
    let mut i: usize = 0;
    while i < has_manifest.len()
        invariant
            has_manifest@.len() == rel@.len() + 1,
            i <= has_manifest@.len(),
            forall|t: int| 0 <= t < i ==> !has_manifest@[t],
        decreases has_manifest@.len() - i,
    {
        if has_manifest[i] {
            let mut path: Vec<String> = Vec::new();
            let mut t: usize = 0;
            while t < ancestor.len()
                invariant
                    t <= ancestor@.len(),
                    path@ == ancestor@.subrange(0, t as int),
                decreases ancestor@.len() - t,
            {
                path.push(ancestor[t].clone());
                t = t + 1;
            }
            proof {
                assert(path@ =~= ancestor@);
            }
            let mut u: usize = 0;
            while u < i
                invariant
                    u <= i,
                    i < has_manifest@.len(),
                    has_manifest@.len() == rel@.len() + 1,
                    path@ == ancestor@ + rel@.subrange(0, u as int),
                decreases i - u,
            {
                path.push(rel[u].clone());
                proof {
                    assert(path@ =~= ancestor@ + rel@.subrange(0, u + 1));
                }
                u = u + 1;
            }
            return Ok(path);
        }
        i = i + 1;
    }
    Err(Error::ConfigError { message: String::new() })
}

impl WorkspaceInner {
    /// Assembles a workspace from loaded packages: resolves the root-set —
    /// the named package, or all packages when none is named — builds the
    /// package graph restricted to it, and derives the display order: the
    /// in-scope packages, each exactly once, a linear extension of the
    /// dependency order so a package never precedes one it depends on, ties
    /// between unrelated packages broken by byte-wise name order. It fails
    /// exactly when the input shows a fault: a configuration error when the
    /// named package is unknown or a declared dependency name resolves to no
    /// package, a cycle error when the declared dependencies form a cycle.
    pub fn assemble(
        root: String,
        packages: Vec<Package>,
        monorepo: bool,
        common: CommonArgs,
        fingerprints: Fingerprints,
    ) -> (r: Result<WorkspaceInner, Error>)
        requires
            fingerprints.wf(),
        ensures
            match r {
                Ok(ws) => {
                    &&& ws.pkg_graph.wf()
                    &&& ws.pkg_graph.n == ws.packages@.len()
                    &&& ws.packages@ == packages@
                    &&& ws.root == root
                    &&& ws.monorepo == monorepo
                    &&& ws.common == common
                    &&& ws.fingerprints == fingerprints
                    &&& (match common.package {
                        Some(name) => ws.roots@.len() == 1 && (ws.roots@[0] as int)
                            == crate::package::first_with_name(packages@, name@, 0),
                        None => ws.roots@.len() == packages@.len() && forall|t: int|
                            0 <= t < packages@.len() ==> (#[trigger] ws.roots@[t]) == t,
                    })
                    &&& ws.display_order_wf()
                    &&& (forall|t: int|
                        0 <= t < ws.display@.len() ==> ws.pkg_graph.in_scope@[(
                        #[trigger] ws.display@[t]) as int])
                    &&& (forall|i: int|
                        0 <= i < ws.pkg_graph.n && ws.pkg_graph.in_scope@[i] ==> exists|t: int|
                            0 <= t < ws.display@.len() && ws.display@[t] == i)
                    &&& (forall|u: int, v: int|
                        0 <= u < v < ws.display@.len() ==> ws.pkg_graph.rank@[(
                        #[trigger] ws.display@[u]) as int] < ws.pkg_graph.rank@[(
                        #[trigger] ws.display@[v]) as int])
                },
                Err(e) => e is ConfigError || e is CycleError,
            },
            r is Ok <==> (match common.package {
                Some(name) => crate::package::first_with_name(packages@, name@, 0)
                    < packages@.len(),
                None => true,
            }) && crate::package::all_deps_resolve(packages@) && crate::package::deps_acyclic(
                packages@,
            ),
            (common.package matches Some(name) && crate::package::first_with_name(
                packages@,
                name@,
                0,
            ) == packages@.len()) ==> (r matches Err(e) && e is ConfigError),
            r matches Err(e) && e is CycleError ==> !crate::package::deps_acyclic(packages@),
    {
        let mut roots: Vec<usize> = Vec::new();
        match &common.package {
            Some(name) => {
                match crate::package::find_package(&packages, name) {
                    Some(i) => {
                        roots.push(i);
                    },
                    None => {
                        return Err(Error::ConfigError { message: name.clone() });
                    },
                }
            },
            None => {
                let mut i: usize = 0;
                while i < packages.len()
                    invariant
                        i <= packages@.len(),
                        roots@.len() == i,
                        forall|t: int| 0 <= t < i ==> (#[trigger] roots@[t]) == t,
                    decreases packages@.len() - i,
                {
                    roots.push(i);
                    i = i + 1;
                }
            },
        }
        let pkg_graph = match build_package_graph(&packages, &roots) {
            Ok(g) => g,
            Err(e) => {
                return Err(e);
            },
        };
        // The display order: in-scope packages, by ascending rank.
        let mut display: Vec<usize> = Vec::new();
        let n = pkg_graph.n;
        let mut t: usize = 0;
        while t < n
            invariant
                pkg_graph.wf(),
                n == pkg_graph.n,
                t <= n,
                forall|u: int| 0 <= u < display@.len() ==> (#[trigger] display@[u]) < n,
                forall|u: int|
                    0 <= u < display@.len() ==> pkg_graph.in_scope@[(
                    #[trigger] display@[u]) as int],
                forall|u: int|
                    0 <= u < display@.len() ==> pkg_graph.rank@[(#[trigger] display@[u]) as int]
                        < t,
                forall|u: int, v: int|
                    0 <= u < v < display@.len() ==> pkg_graph.rank@[(#[trigger] display@[u]) as int]
                        < pkg_graph.rank@[(#[trigger] display@[v]) as int],
                forall|t2: int|
                    0 <= t2 < t && pkg_graph.in_scope@[(#[trigger] pkg_graph.order@[t2]) as int]
                        ==> exists|u: int|
                        0 <= u < display@.len() && display@[u] == pkg_graph.order@[t2],
            decreases n - t,
        {
            let ghost pre_display = display@;
            let x = pkg_graph.order[t];
            if pkg_graph.in_scope[x] {
                let ghost w = display@.len() as int;
                display.push(x);
                proof {
                    assert(display@[w] == pkg_graph.order@[t as int]);
                }
            }
            proof {
                assert forall|t2: int|
                    0 <= t2 < t + 1 && pkg_graph.in_scope@[(
                    #[trigger] pkg_graph.order@[t2]) as int] implies exists|u: int|
                    0 <= u < display@.len() && display@[u] == pkg_graph.order@[t2] by {
                    if t2 < t {
                        let u0 = choose|u0: int|
                            0 <= u0 < pre_display.len() && pre_display[u0] == pkg_graph.order@[t2];
                        assert(display@[u0] == pre_display[u0]);
                    }
                };
            }
            t = t + 1;
        }
        proof {
            assert forall|i: int|
                0 <= i < n && pkg_graph.in_scope@[i] implies exists|u: int|
                0 <= u < display@.len() && display@[u] == i by {
                assert(pkg_graph.order@[pkg_graph.rank@[i] as int] == i);
                assert(pkg_graph.in_scope@[(pkg_graph.order@[pkg_graph.rank@[i] as int]) as int]);
            };
            assert forall|u: int, v: int|
                0 <= u < v < display@.len() implies !pkg_graph.spec_is_dependent_on(
                display@[u] as int,
                display@[v] as int,
            ) by {
                if pkg_graph.spec_is_dependent_on(display@[u] as int, display@[v] as int) {
                    crate::package::lemma_reach_rank(
                        pkg_graph.edges@,
                        pkg_graph.rank@,
                        display@[u] as int,
                        display@[v] as int,
                    );
                }
            };
        }
        Ok(
            WorkspaceInner {
                root,
                packages,
                pkg_graph,
                monorepo,
                common,
                roots,
                display,
                processes: ProcessRegistry::new(),
                fingerprints,
            },
        )
    }
}

/// Expands the root command into the full command graph: accepted whenever
/// no dependency chain from the root repeats an identity key, rejected with
/// a cycle error only when one does.
pub fn build_command_graph(root: &Command) -> (r: Result<CommandGraph, Error>)
    ensures
        match r {
            Ok(g) => g.wf() && g.has_key(root.key()),
            Err(e) => e is CycleError,
        },
        r is Err ==> dep_graph::has_key_cycle(*root),
        !dep_graph::has_key_cycle(*root) ==> r is Ok,
{
    dep_graph::build_command_graph(root)
}

} // verus!
