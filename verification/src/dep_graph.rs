//! Command graph construction: depth-first expansion of a root command's
//! transitive prerequisites, deduplicated by identity key, with back-edge
//! (cycle) detection. The nodes come out in a topological order: every
//! dependency edge points to an earlier node.

use vstd::prelude::*;
use crate::cmd::Command;
use crate::errors::Error;

verus! {

/// The realized DAG of commands. `nodes` lists each unique command once, in
/// an order where prerequisites come before their dependents; `edges[i]`
/// holds the positions of node `i`'s prerequisites.
pub struct CommandGraph {
    pub nodes: Vec<Command>,
    pub edges: Vec<Vec<usize>>,
}

impl CommandGraph {
    /// There is a dependency edge from node `i` to node `j`.
    pub open spec fn has_edge(self, i: int, j: int) -> bool {
        exists|k: int| 0 <= k < self.edges@[i]@.len() && self.edges@[i]@[k] == j
    }

    /// Well-formedness: one edge list per node; every edge points to an
    /// earlier node (the order is topological); identity keys are unique;
    /// and node `i`'s edge list mirrors its declared prerequisites, key for
    /// key.
    pub open spec fn wf(self) -> bool {
        &&& self.edges@.len() == self.nodes@.len()
        &&& (forall|i: int, k: int|
            0 <= i < self.edges@.len() && 0 <= k < self.edges@[i]@.len() ==> (
            #[trigger] self.edges@[i]@[k]) < i)
        &&& (forall|i: int, j: int|
            0 <= i < self.nodes@.len() && 0 <= j < self.nodes@.len() && i != j ==> (
            #[trigger] self.nodes@[i].key()) != (#[trigger] self.nodes@[j].key()))
        &&& (forall|i: int|
            0 <= i < self.nodes@.len() ==> (#[trigger] self.edges@[i]@.len())
                == self.nodes@[i].spec_deps().len())
        &&& (forall|i: int, k: int|
            0 <= i < self.nodes@.len() && 0 <= k < self.edges@[i]@.len()
                ==> self.nodes@[(#[trigger] self.edges@[i]@[k]) as int].key()
                == self.nodes@[i].spec_deps()[k].key())
    }

    /// Some node carries this identity key.
    pub open spec fn has_key(self, key: Seq<char>) -> bool {
        exists|i: int| 0 <= i < self.nodes@.len() && self.nodes@[i].key() == key
    }
}

/// A chain of commands in which each entry is a declared prerequisite of
/// the one before it.
pub open spec fn is_dep_chain(p: Seq<Command>) -> bool {
    forall|t: int| 0 <= t < p.len() - 1 ==> (#[trigger] p[t]).spec_deps().contains(p[t + 1])
}

/// Some dependency chain starting at the command repeats an identity key.
pub open spec fn has_key_cycle(root: Command) -> bool {
    exists|p: Seq<Command>, t1: int, t2: int|
        p.len() >= 1 && p[0] == root && is_dep_chain(p) && 0 <= t1 < t2 < p.len() && (
        #[trigger] p[t1]).key() == (#[trigger] p[t2]).key()
}

/// The position of the node with the given key, if one exists.
fn find_node(nodes: &Vec<Command>, key: &String) -> (r: Option<usize>)
    ensures
        match r {
            Some(i) => i < nodes@.len() && nodes@[i as int].key() == key@,
            None => forall|i: int| 0 <= i < nodes@.len() ==> nodes@[i].key() != key@,
        },
{
    let mut i: usize = 0;
    while i < nodes.len()
        invariant
            i <= nodes@.len(),
            forall|t: int| 0 <= t < i ==> nodes@[t].key() != key@,
        decreases nodes@.len() - i,
    {
        let name = nodes[i].name();
        if name == *key {
            return Some(i);
        }
        i = i + 1;
    }
    None
}

/// Whether the stack of keys currently mid-expansion holds this key.
fn contains_string(v: &Vec<String>, key: &String) -> (r: bool)
    ensures
        r == exists|t: int| 0 <= t < v@.len() && v@[t]@ == key@,
{
    let mut i: usize = 0;
    while i < v.len()
        invariant
            i <= v@.len(),
            forall|t: int| 0 <= t < i ==> v@[t]@ != key@,
        decreases v@.len() - i,
    {
        if v[i] == *key {
            return true;
        }
        i = i + 1;
    }
    false
}

/// One step of depth-first expansion: ensure a node for `cmd` exists,
/// expanding its prerequisites first. A key found on the `visiting` stack is
/// a back-edge and reported as a cycle. A key already realized is reused,
/// not duplicated.
fn visit(
    cmd: &Command,
    g: &mut CommandGraph,
    visiting: &mut Vec<String>,
    Ghost(chain): Ghost<Seq<Command>>,
) -> (r: Result<usize, Error>)
    requires
        old(g).wf(),
        chain.len() == old(visiting)@.len(),
        forall|t: int| 0 <= t < chain.len() ==> (#[trigger] chain[t]).key() == old(visiting)@[t]@,
        is_dep_chain(chain),
        chain.len() > 0 ==> chain.last().spec_deps().contains(*cmd),
    ensures
        r is Err ==> has_key_cycle(
            if chain.len() == 0 {
                *cmd
            } else {
                chain[0]
            },
        ),
        final(g).wf(),
        final(visiting)@ == old(visiting)@,
        old(g).nodes@.len() <= final(g).nodes@.len(),
        old(g).edges@.len() <= final(g).edges@.len(),
        forall|i: int|
            0 <= i < old(g).nodes@.len() ==> (#[trigger] final(g).nodes@[i]) == old(g).nodes@[i],
        forall|i: int|
            0 <= i < old(g).edges@.len() ==> (#[trigger] final(g).edges@[i]) == old(g).edges@[i],
        forall|i: int|
            old(g).nodes@.len() <= i < final(g).nodes@.len()
                ==> forall|v: int|
                0 <= v < old(visiting)@.len()
                    ==> old(visiting)@[v]@ != (#[trigger] final(g).nodes@[i]).key(),
        match r {
            Ok(idx) => idx < final(g).nodes@.len() && final(g).nodes@[idx as int].key()
                == cmd.key(),
            Err(e) => e is CycleError,
        },
    decreases *cmd,
{
    let key = cmd.name();
    if let Some(i) = find_node(&g.nodes, &key) {
        return Ok(i);
    }
    if contains_string(visiting, &key) {
        proof {
            let t = choose|t: int| 0 <= t < visiting@.len() && visiting@[t]@ == key@;
            let p = chain.push(*cmd);
            assert(p[0] == chain[0]);
            assert(is_dep_chain(p)) by {
                assert forall|u: int|
                    0 <= u < p.len() - 1 implies (#[trigger] p[u]).spec_deps().contains(
                    p[u + 1],
                ) by {
                    if u < chain.len() - 1 {
                        assert(chain[u].spec_deps().contains(chain[u + 1]));
                    }
                };
            }
            assert(p[t].key() == p[p.len() - 1].key());
            assert(has_key_cycle(chain[0]));
        }
        return Err(Error::CycleError { key });
    }
    let ghost key_view = key@;
    let ghost key_val = key;
    let ghost entry_g = *g;
    let ghost entry_visiting = visiting@;
    visiting.push(key);
    let deps = cmd.deps();
    let mut dep_idxs: Vec<usize> = Vec::new();
    let mut k: usize = 0;
    while k < deps.len()
        invariant
            g.wf(),
            entry_g.nodes@.len() <= g.nodes@.len(),
            forall|i: int|
                0 <= i < entry_g.nodes@.len() ==> (#[trigger] g.nodes@[i]) == entry_g.nodes@[i],
            forall|i: int|
                0 <= i < entry_g.edges@.len() ==> (#[trigger] g.edges@[i]) == entry_g.edges@[i],
            entry_g == *old(g),
            entry_g.wf(),
            entry_visiting == old(visiting)@,
            visiting@ == entry_visiting.push(key_val),
            key_val@ == key_view,
            key_view == cmd.key(),
            chain.len() == entry_visiting.len(),
            forall|t: int| 0 <= t < chain.len() ==> (#[trigger] chain[t]).key() == entry_visiting[t]@,
            is_dep_chain(chain),
            chain.len() > 0 ==> chain.last().spec_deps().contains(*cmd),
            k <= deps@.len(),
            deps@ == cmd.spec_deps(),
            dep_idxs@.len() == k as int,
            forall|t: int|
                0 <= t < k ==> (#[trigger] dep_idxs@[t]) < g.nodes@.len()
                    && g.nodes@[dep_idxs@[t] as int].key() == deps@[t].key(),
            forall|i: int|
                0 <= i < g.nodes@.len() ==> (#[trigger] g.nodes@[i]).key() != key_view,
            forall|i: int|
                entry_g.nodes@.len() <= i < g.nodes@.len() ==> forall|v: int|
                    0 <= v < entry_visiting.len()
                        ==> entry_visiting[v]@ != (#[trigger] g.nodes@[i]).key(),
        decreases deps@.len() - k,
    {
        proof {
            assert(decreases_to!(*cmd => deps@[k as int]));
            assert(cmd.spec_deps().contains(deps@[k as int]));
            assert(chain.push(*cmd)[0] == (if chain.len() == 0 {
                *cmd
            } else {
                chain[0]
            }));
            assert(is_dep_chain(chain.push(*cmd))) by {
                assert forall|u: int|
                    0 <= u < chain.push(*cmd).len() - 1 implies (#[trigger] chain.push(
                    *cmd,
                )[u]).spec_deps().contains(chain.push(*cmd)[u + 1]) by {
                    if u < chain.len() - 1 {
                        assert(chain[u].spec_deps().contains(chain[u + 1]));
                    }
                };
            }
        }
        let ghost pre_g = *g;
        let res = visit(&deps[k], g, visiting, Ghost(chain.push(*cmd)));
        proof {
            // whatever the step returned, the graph only grew: the earlier
            // nodes and edges stand untouched, and every new node's key is
            // off the visiting stack, our own key included
            assert forall|i: int|
                pre_g.nodes@.len() <= i < g.nodes@.len() implies ((#[trigger] g.nodes@[i]).key() != key_view
                && forall|v: int|
                    0 <= v < entry_visiting.len() ==> entry_visiting[v]@ != g.nodes@[i].key()) by {
                let stack = entry_visiting.push(key_val);
                assert(forall|v: int|
                    0 <= v < stack.len() ==> (#[trigger] stack[v])@ != g.nodes@[i].key());
                assert(stack[entry_visiting.len() as int]@ == key_view);
                assert forall|v: int|
                    0 <= v < entry_visiting.len() implies entry_visiting[v]@ != g.nodes@[i].key() by {
                    assert(stack[v] == entry_visiting[v]);
                };
            };
            assert forall|i: int|
                0 <= i < entry_g.edges@.len() implies (#[trigger] g.edges@[i])
                == entry_g.edges@[i] by {
                assert(entry_g.edges@.len() <= pre_g.edges@.len());
                assert(0 <= i < pre_g.edges@.len());
                assert(g.edges@[i] == pre_g.edges@[i]);
            };
            assert forall|i: int|
                0 <= i < entry_g.nodes@.len() implies (#[trigger] g.nodes@[i])
                == entry_g.nodes@[i] by {
                assert(g.nodes@[i] == pre_g.nodes@[i]);
            };
        }
        match res {
            Ok(idx) => {
                dep_idxs.push(idx);
            },
            Err(e) => {
                proof {
                    assert(has_key_cycle(
                        if chain.len() == 0 {
                            *cmd
                        } else {
                            chain[0]
                        },
                    ));
                }
                let _ = visiting.pop();
                proof {
                    assert(visiting@ =~= entry_visiting);
                }
                return Err(e);
            },
        }
        k = k + 1;
    }
    let _ = visiting.pop();
    proof {
        assert(visiting@ =~= entry_visiting);
    }
    let idx = g.nodes.len();
    g.nodes.push(cmd.clone());
    g.edges.push(dep_idxs);
    Ok(idx)
}

impl CommandGraph {
    /// Builds the realized DAG reachable from the given root commands,
    /// deduplicating by identity key. A chain of prerequisites that returns
    /// to a key still mid-expansion is a configuration error, reported as a
    /// cycle.
    pub fn build(roots: &Vec<Command>) -> (r: Result<CommandGraph, Error>)
        ensures
            match r {
                Ok(g) => g.wf() && forall|t: int|
                    0 <= t < roots@.len() ==> g.has_key(#[trigger] roots@[t].key()),
                Err(e) => e is CycleError,
            },
            r is Err ==> exists|t: int|
                0 <= t < roots@.len() && has_key_cycle(#[trigger] roots@[t]),
    {
        let mut g = CommandGraph { nodes: Vec::new(), edges: Vec::new() };
        let mut visiting: Vec<String> = Vec::new();
        let mut t: usize = 0;
        while t < roots.len()
            invariant
                g.wf(),
                visiting@.len() == 0,
                t <= roots@.len(),
                forall|u: int| 0 <= u < t ==> g.has_key(#[trigger] roots@[u].key()),
            decreases roots@.len() - t,
        {
            let ghost pre = g;
            match visit(&roots[t], &mut g, &mut visiting, Ghost(Seq::empty())) {
                Ok(idx) => {
                    proof {
                        assert forall|u: int|
                            0 <= u < t + 1 implies g.has_key(#[trigger] roots@[u].key()) by {
                            if u < t {
                                let wi = choose|wi: int|
                                    0 <= wi < pre.nodes@.len()
                                        && pre.nodes@[wi].key() == roots@[u].key();
                                assert(g.nodes@[wi] == pre.nodes@[wi]);
                            } else {
                                assert(g.nodes@[idx as int].key() == roots@[t as int].key());
                            }
                        };
                    }
                },
                Err(e) => {
                    return Err(e);
                },
            }
            t = t + 1;
        }
        Ok(g)
    }
}

/// Expands the root command into the full command graph. A configuration
/// whose dependency chains never repeat an identity key is always accepted;
/// a cycle error is returned only when some chain from the root does. (A
/// repeating chain that runs through a key the expansion has already
/// completed is reused rather than re-expanded, so not every such chain is
/// an error.)
pub fn build_command_graph(root: &Command) -> (r: Result<CommandGraph, Error>)
    ensures
        match r {
            Ok(g) => g.wf() && g.has_key(root.key()),
            Err(e) => e is CycleError,
        },
        r is Err ==> has_key_cycle(*root),
        !has_key_cycle(*root) ==> r is Ok,
{
    let mut roots: Vec<Command> = Vec::new();
    roots.push(root.clone());
    let r = CommandGraph::build(&roots);
    proof {
        if r is Ok {
            assert(r->Ok_0.has_key(roots@[0].key()));
            assert(roots@[0].key() == root.key());
        } else {
            let t = choose|t: int| 0 <= t < roots@.len() && has_key_cycle(#[trigger] roots@[t]);
            assert(roots@[t] == *root);
        }
    }
    r
}

/// A walk along dependency edges: each entry is a node position and each
/// consecutive pair is connected by an edge.
pub open spec fn is_edge_path(g: CommandGraph, p: Seq<int>) -> bool {
    &&& (forall|t: int| 0 <= t < p.len() ==> 0 <= #[trigger] p[t] < g.nodes@.len())
    &&& (forall|t: int| 0 <= t < p.len() - 1 ==> g.has_edge(#[trigger] p[t], p[t + 1]))
}

/// Node positions strictly decrease along every dependency path: the order
/// in which the nodes stand is topological.
pub proof fn lemma_path_descends(g: CommandGraph, p: Seq<int>)
    requires
        g.wf(),
        is_edge_path(g, p),
        p.len() >= 1,
    ensures
        p[p.len() - 1] <= p[0],
        p.len() >= 2 ==> p[p.len() - 1] < p[0],
    decreases p.len(),
{
    if p.len() >= 2 {
        let rest = p.subrange(1, p.len() as int);
        assert(is_edge_path(g, rest));
        lemma_path_descends(g, rest);
        assert(g.has_edge(p[0], p[1]));
        assert(p[1] < p[0]);
    }
}

/// No dependency chain in a realized command graph returns to its origin:
/// a graph that the builder accepts is acyclic, so a cyclic configuration
/// is always rejected with a cycle error.
pub proof fn lemma_realized_graph_acyclic(g: CommandGraph, p: Seq<int>)
    requires
        g.wf(),
        is_edge_path(g, p),
        p.len() >= 2,
    ensures
        p[0] != p[p.len() - 1],
{
    lemma_path_descends(g, p);
}

/// Deduplication realizes a shared prerequisite exactly once: two distinct
/// nodes of a realized graph never carry the same identity key.
pub proof fn lemma_shared_dependency_realized_once(g: CommandGraph, i: int, j: int)
    requires
        g.wf(),
        0 <= i < g.nodes@.len(),
        0 <= j < g.nodes@.len(),
        i != j,
    ensures
        g.nodes@[i].key() != g.nodes@[j].key(),
{
}

} // verus!
