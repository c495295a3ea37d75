//! The patch validator: exactly one output module, connections only between
//! known modules, no cycle in the signal graph, and a sound source.
use vstd::prelude::*;

use crate::domain::patch::model::{
    adjacency_keys, adjacency_targets, is_adjacency_of, is_node, key_index, module_ids,
    source_ids, targets_from, ConnectionView, ModuleKind, ModuleView, Patch, PatchView,
};
use crate::text::concat;
use crate::domain::patch::graph::{
    edge, graph_wf, has_cycle, is_cycle, is_path, lemma_rotate_cycle, lemma_subpath, succ_view,
};

verus! {

pub struct PatchValidator;

/// The colour of a node during the depth-first search: not reached yet, on
/// the current search path, or finished.
#[derive(Clone, Copy, Debug, PartialEq, Eq, Structural)]
pub enum NodeState {
    Unvisited,
    InProgress,
    Done,
}

/// The nodes on the search path are exactly the `InProgress` ones.
pub open spec fn gray_is_stack(st: Seq<NodeState>, stack: Seq<usize>) -> bool {
    &&& forall|i: int| 0 <= i < stack.len() ==> stack[i] < st.len()
    &&& forall|v: usize|
        v < st.len() ==> (st[v as int] == NodeState::InProgress <==> stack.contains(v))
}

/// Finished nodes only lead to finished nodes.
pub open spec fn closed(g: Seq<Seq<usize>>, st: Seq<NodeState>) -> bool {
    forall|u: usize, v: usize|
        u < st.len() && st[u as int] == NodeState::Done && #[trigger] edge(g, u, v) ==> st[v as int]
            == NodeState::Done
}

/// Every node of `p` is finished.
pub open spec fn all_done(st: Seq<NodeState>, p: Seq<usize>) -> bool {
    forall|i: int| 0 <= i < p.len() ==> st[p[i] as int] == NodeState::Done
}

/// No cycle runs through finished nodes only.
pub open spec fn done_acyclic(g: Seq<Seq<usize>>, st: Seq<NodeState>) -> bool {
    forall|p: Seq<usize>| #[trigger] is_cycle(g, p) ==> !all_done(st, p)
}

/// From `old` to `new`, finished nodes stay finished and the search path is
/// the same.
pub open spec fn progress(old: Seq<NodeState>, new: Seq<NodeState>) -> bool {
    &&& new.len() == old.len()
    &&& forall|v: int|
        0 <= v < old.len() ==> (old[v] == NodeState::Done ==> new[v] == NodeState::Done) && (
        old[v] == NodeState::InProgress <==> new[v] == NodeState::InProgress)
}

/// The number of nodes not reached yet.
pub open spec fn unvisited_count(st: Seq<NodeState>) -> nat
    decreases st.len(),
{
    if st.len() == 0 {
        0
    } else {
        unvisited_count(st.drop_last()) + if st.last() == NodeState::Unvisited {
            1nat
        } else {
            0nat
        }
    }
}

/// Reaching nodes never raises the count of unreached ones, and reaching one
/// lowers it.
proof fn lemma_unvisited_count(a: Seq<NodeState>, b: Seq<NodeState>)
    requires
        a.len() == b.len(),
        forall|v: int| 0 <= v < a.len() && b[v] == NodeState::Unvisited ==> a[v] == NodeState::Unvisited,
    ensures
        unvisited_count(b) <= unvisited_count(a),
        (exists|v: int| 0 <= v < a.len() && a[v] == NodeState::Unvisited && b[v] != NodeState::Unvisited)
            ==> unvisited_count(b) < unvisited_count(a),
    decreases a.len(),
{
    if a.len() > 0 {
        let n = a.len() - 1;
        lemma_unvisited_count(a.drop_last(), b.drop_last());
        if exists|v: int| 0 <= v < a.len() && a[v] == NodeState::Unvisited && b[v] != NodeState::Unvisited {
            let v = choose|v: int| 0 <= v < a.len() && a[v] == NodeState::Unvisited && b[v] != NodeState::Unvisited;
            if v < n {
                assert(a.drop_last()[v] == NodeState::Unvisited && b.drop_last()[v] != NodeState::Unvisited);
            }
        }
    }
}

/// A walk that starts at a finished node, in a state where finished nodes
/// lead only to finished nodes, stays among finished nodes.
proof fn lemma_closed_path(g: Seq<Seq<usize>>, st: Seq<NodeState>, p: Seq<usize>)
    requires
        closed(g, st),
        is_path(g, p),
        p.len() > 0,
        p[0] < st.len(),
        st[p[0] as int] == NodeState::Done,
        st.len() == g.len(),
    ensures
        all_done(st, p),
{
    assert forall|i: int| 0 <= i < p.len() implies st[p[i] as int] == NodeState::Done by {
        lemma_closed_path_to(g, st, p, i);
    }
}

proof fn lemma_closed_path_to(g: Seq<Seq<usize>>, st: Seq<NodeState>, p: Seq<usize>, i: int)
    requires
        closed(g, st),
        is_path(g, p),
        0 <= i < p.len(),
        st[p[0] as int] == NodeState::Done,
        st.len() == g.len(),
    ensures
        st[p[i] as int] == NodeState::Done,
    decreases i,
{
    if i > 0 {
        lemma_closed_path_to(g, st, p, i - 1);
        let j = i - 1;
        assert(edge(g, p[j], p[j + 1]));
    }
}

/// Successors are nodes of the graph.
proof fn lemma_edge_in_range(g: Seq<Seq<usize>>, u: usize, v: usize)
    requires
        graph_wf(g),
        edge(g, u, v),
    ensures
        v < g.len(),
{
    let k = choose|k: int| 0 <= k < g[u as int].len() && g[u as int][k] == v;
}

/// Finishing a node all of whose successors are finished keeps finished
/// nodes closed and free of cycles.
proof fn lemma_finish(g: Seq<Seq<usize>>, st: Seq<NodeState>, u: usize)
    requires
        graph_wf(g),
        st.len() == g.len(),
        u < st.len(),
        st[u as int] == NodeState::InProgress,
        closed(g, st),
        done_acyclic(g, st),
        forall|v: usize| #[trigger] edge(g, u, v) ==> st[v as int] == NodeState::Done,
    ensures
        closed(g, st.update(u as int, NodeState::Done)),
        done_acyclic(g, st.update(u as int, NodeState::Done)),
{
    let st2 = st.update(u as int, NodeState::Done);
    assert forall|x: usize, v: usize|
        x < st2.len() && st2[x as int] == NodeState::Done && #[trigger] edge(g, x, v) implies st2[v as int]
            == NodeState::Done by {
        lemma_edge_in_range(g, x, v);
        if x == u {
            assert(st[v as int] == NodeState::Done);
        } else {
            assert(st[x as int] == NodeState::Done);
        }
    }
    assert forall|p: Seq<usize>| #[trigger] is_cycle(g, p) implies !all_done(st2, p) by {
        if all_done(st2, p) {
            if exists|i: int| 0 <= i < p.len() && p[i] == u {
                let i = choose|i: int| 0 <= i < p.len() && p[i] == u;
                let n = p.len() as int;
                let k = if i + 1 < n {
                    i + 1
                } else {
                    0
                };
                lemma_rotate_cycle(g, p, k);
                let q = p.subrange(k, n) + p.subrange(0, k);
                assert(edge(g, u, q[0])) by {
                    if i + 1 < n {
                        assert(edge(g, p[i], p[i + 1]));
                    }
                }
                assert(st[q[0] as int] == NodeState::Done);
                lemma_closed_path(g, st, q);
                assert(q.last() == u);
                assert(st[q[q.len() - 1] as int] == NodeState::Done);
            } else {
                assert forall|i: int| 0 <= i < p.len() implies st[p[i] as int] == NodeState::Done by {
                    assert(st2[p[i] as int] == NodeState::Done);
                    assert(p[i] != u);
                }
                assert(all_done(st, p));
            }
        }
    }
}

/// The count of output modules, read as the rules use it: none exactly when
/// no module is an output, two or more exactly when two different modules
/// are outputs.
pub proof fn lemma_output_count(ms: Seq<ModuleView>)
    ensures
        output_count(ms) == 0 <==> forall|i: int|
            0 <= i < ms.len() ==> #[trigger] ms[i].kind != ModuleKind::Output,
        output_count(ms) >= 2 <==> exists|i: int, j: int|
            0 <= i < j < ms.len() && #[trigger] ms[i].kind == ModuleKind::Output && #[trigger] ms[j].kind
                == ModuleKind::Output,
    decreases ms.len(),
{
    if ms.len() > 0 {
        let pre = ms.drop_last();
        let n = pre.len() as int;
        lemma_output_count(pre);
        assert forall|k: int| 0 <= k < n implies ms[k] == pre[k] by {}
        if output_count(ms) == 0 {
            assert forall|i: int| 0 <= i < ms.len() implies #[trigger] ms[i].kind != ModuleKind::Output by {
                if i < n {
                    assert(pre[i].kind != ModuleKind::Output);
                }
            }
        }
        if forall|i: int| 0 <= i < ms.len() ==> #[trigger] ms[i].kind != ModuleKind::Output {
            assert forall|i: int| 0 <= i < n implies #[trigger] pre[i].kind != ModuleKind::Output by {
                assert(ms[i].kind != ModuleKind::Output);
            }
            assert(ms[n].kind != ModuleKind::Output);
        }
        if output_count(ms) >= 2 {
            if output_count(pre) >= 2 {
                let (i, j) = choose|i: int, j: int|
                    0 <= i < j < pre.len() && #[trigger] pre[i].kind == ModuleKind::Output
                        && #[trigger] pre[j].kind == ModuleKind::Output;
                assert(ms[i].kind == ModuleKind::Output && ms[j].kind == ModuleKind::Output);
            } else {
                assert(output_count(pre) != 0);
                let i = choose|i: int| 0 <= i < pre.len() && !(#[trigger] pre[i].kind != ModuleKind::Output);
                assert(ms[i].kind == ModuleKind::Output && ms[n].kind == ModuleKind::Output);
            }
        }
        if exists|i: int, j: int|
            0 <= i < j < ms.len() && #[trigger] ms[i].kind == ModuleKind::Output && #[trigger] ms[j].kind
                == ModuleKind::Output {
            let (i, j) = choose|i: int, j: int|
                0 <= i < j < ms.len() && #[trigger] ms[i].kind == ModuleKind::Output
                    && #[trigger] ms[j].kind == ModuleKind::Output;
            if j < n {
                assert(pre[i].kind == ModuleKind::Output && pre[j].kind == ModuleKind::Output);
            } else {
                assert(pre[i].kind == ModuleKind::Output);
            }
        }
    }
}

/// The connections name only known modules exactly when `first_unknown`
/// finds nothing; what it finds is an end of some connection that names no
/// module, every connection before that one naming known modules only, and,
/// when it is the target, the source of that connection being known.
pub proof fn lemma_first_unknown(ids: Seq<Seq<char>>, cs: Seq<ConnectionView>)
    ensures
        first_unknown(ids, cs) is None <==> forall|k: int|
            0 <= k < cs.len() ==> ids.contains(#[trigger] cs[k].from.module_id) && ids.contains(
                cs[k].to.module_id,
            ),
        first_unknown(ids, cs) matches Some(id) ==> !ids.contains(id) && exists|k: int|
            0 <= k < cs.len() && (id == #[trigger] cs[k].from.module_id || (ids.contains(
                cs[k].from.module_id,
            ) && id == cs[k].to.module_id)) && forall|l: int|
                0 <= l < k ==> ids.contains(#[trigger] cs[l].from.module_id) && ids.contains(
                    cs[l].to.module_id,
                ),
    decreases cs.len(),
{
    if cs.len() > 0 {
        let rest = cs.drop_first();
        lemma_first_unknown(ids, rest);
        assert forall|k: int| 0 <= k < rest.len() implies rest[k] == cs[k + 1] by {}
        if ids.contains(cs[0].from.module_id) && ids.contains(cs[0].to.module_id) {
            if first_unknown(ids, cs) is None {
                assert forall|k: int| 0 <= k < cs.len() implies ids.contains(
                    #[trigger] cs[k].from.module_id,
                ) && ids.contains(cs[k].to.module_id) by {
                    if k > 0 {
                        assert(ids.contains(rest[k - 1].from.module_id));
                    }
                }
            } else {
                if forall|k: int|
                    0 <= k < cs.len() ==> ids.contains(#[trigger] cs[k].from.module_id)
                        && ids.contains(cs[k].to.module_id) {
                    assert forall|k: int| 0 <= k < rest.len() implies ids.contains(
                        #[trigger] rest[k].from.module_id,
                    ) && ids.contains(rest[k].to.module_id) by {
                        assert(ids.contains(cs[k + 1].from.module_id));
                    }
                }
                let id = first_unknown(ids, cs)->Some_0;
                let k = choose|k: int|
                    0 <= k < rest.len() && (id == #[trigger] rest[k].from.module_id || (ids.contains(
                        rest[k].from.module_id,
                    ) && id == rest[k].to.module_id)) && forall|l: int|
                        0 <= l < k ==> ids.contains(#[trigger] rest[l].from.module_id)
                            && ids.contains(rest[l].to.module_id);
                assert(id == cs[k + 1].from.module_id || (ids.contains(cs[k + 1].from.module_id)
                    && id == cs[k + 1].to.module_id));
                assert forall|l: int| 0 <= l < k + 1 implies ids.contains(
                    #[trigger] cs[l].from.module_id,
                ) && ids.contains(cs[l].to.module_id) by {
                    if l > 0 {
                        assert(ids.contains(rest[l - 1].from.module_id));
                    }
                }
            }
        } else {
            assert(!(ids.contains(cs[0].from.module_id) && ids.contains(cs[0].to.module_id)));
        }
    }
}

/// What validation decides, rule by rule: no output module, two output
/// modules, and otherwise acceptance exactly when every connection joins
/// known modules, the signal graph has no cycle and some module is an
/// oscillator.
pub proof fn lemma_validation_rules(p: PatchView)
    ensures
        validation(p) == Err::<(), ValidationErrorView>(ValidationErrorView::NoOutputModule)
            <==> forall|i: int| 0 <= i < p.modules.len() ==> #[trigger] p.modules[i].kind
            != ModuleKind::Output,
        validation(p) == Err::<(), ValidationErrorView>(ValidationErrorView::MultipleOutputModules)
            <==> exists|i: int, j: int|
            0 <= i < j < p.modules.len() && #[trigger] p.modules[i].kind == ModuleKind::Output
                && #[trigger] p.modules[j].kind == ModuleKind::Output,
        validation(p) is Ok <==> {
            &&& exists|i: int| 0 <= i < p.modules.len() && #[trigger] p.modules[i].kind == ModuleKind::Output
            &&& !exists|i: int, j: int|
                0 <= i < j < p.modules.len() && #[trigger] p.modules[i].kind == ModuleKind::Output
                    && #[trigger] p.modules[j].kind == ModuleKind::Output
            &&& forall|k: int|
                0 <= k < p.connections.len() ==> module_ids(p.modules).contains(
                    #[trigger] p.connections[k].from.module_id,
                ) && module_ids(p.modules).contains(p.connections[k].to.module_id)
            &&& !patch_has_cycle(p)
            &&& exists|i: int| 0 <= i < p.modules.len() && #[trigger] p.modules[i].kind == ModuleKind::Oscillator
        },
{
    lemma_output_count(p.modules);
    lemma_first_unknown(module_ids(p.modules), p.connections);
    let has_output = exists|i: int|
        0 <= i < p.modules.len() && #[trigger] p.modules[i].kind == ModuleKind::Output;
    if has_output {
        let i = choose|i: int|
            0 <= i < p.modules.len() && #[trigger] p.modules[i].kind == ModuleKind::Output;
        assert(output_count(p.modules) != 0);
    } else {
        assert forall|i: int| 0 <= i < p.modules.len() implies #[trigger] p.modules[i].kind
            != ModuleKind::Output by {}
        assert(output_count(p.modules) == 0);
    }
    assert(has_output <==> output_count(p.modules) != 0);
    assert((first_unknown(module_ids(p.modules), p.connections) is None) <==> forall|k: int|
        0 <= k < p.connections.len() ==> module_ids(p.modules).contains(
            #[trigger] p.connections[k].from.module_id,
        ) && module_ids(p.modules).contains(p.connections[k].to.module_id));
}

/// The sound-source rule: a patch with exactly one output module, only known
/// modules in its connections and no cycle is accepted exactly when at least
/// one of its modules is an oscillator, however many there are; and it is
/// refused for want of a sound source exactly when none is.
pub proof fn lemma_sound_source_rule(p: PatchView)
    requires
        output_count(p.modules) == 1,
        first_unknown(module_ids(p.modules), p.connections) is None,
        !patch_has_cycle(p),
    ensures
        validation(p) is Ok <==> exists|i: int|
            0 <= i < p.modules.len() && #[trigger] p.modules[i].kind == ModuleKind::Oscillator,
        validation(p) == Err::<(), ValidationErrorView>(ValidationErrorView::NoSoundSource) <==> forall|
            i: int,
        |
            0 <= i < p.modules.len() ==> #[trigger] p.modules[i].kind != ModuleKind::Oscillator,
{
}

/// Adding a module to a patch that holds an oscillator never makes it lack a
/// sound source.
pub proof fn lemma_added_module_keeps_sound_source(p: PatchView, m: ModuleView, i: int)
    requires
        0 <= i < p.modules.len(),
        p.modules[i].kind == ModuleKind::Oscillator,
    ensures
        validation(PatchView { modules: p.modules.push(m), ..p }) != Err::<(), ValidationErrorView>(
            ValidationErrorView::NoSoundSource,
        ),
        validation(p) != Err::<(), ValidationErrorView>(ValidationErrorView::NoSoundSource),
{
    assert(p.modules.push(m)[i].kind == ModuleKind::Oscillator);
}

impl PatchValidator {
    /// Depth-first search from `node`, an unvisited node reached by an edge
    /// from the last node of `stack`, the nodes in progress. On success the
    /// nodes reachable from `node` are finished; a node met again while in
    /// progress closes a cycle, which is reported.
    pub fn dfs(
        node: usize,
        adj: &Vec<Vec<usize>>,
        states: &mut Vec<NodeState>,
        Ghost(stack): Ghost<Seq<usize>>,
    ) -> (r: Result<(), ValidationError>)
        requires
            graph_wf(succ_view(adj@)),
            old(states)@.len() == adj@.len(),
            node < adj@.len(),
            old(states)@[node as int] == NodeState::Unvisited,
            gray_is_stack(old(states)@, stack),
            is_path(succ_view(adj@), stack),
            stack.len() > 0 ==> edge(succ_view(adj@), stack.last(), node),
            closed(succ_view(adj@), old(states)@),
            done_acyclic(succ_view(adj@), old(states)@),
        ensures
            match r {
                Ok(()) => {
                    &&& final(states)@[node as int] == NodeState::Done
                    &&& progress(old(states)@, final(states)@)
                    &&& closed(succ_view(adj@), final(states)@)
                    &&& done_acyclic(succ_view(adj@), final(states)@)
                },
                Err(e) => e == ValidationError::CycleDetected && has_cycle(succ_view(adj@)),
            },
        decreases unvisited_count(old(states)@),
    {
        let ghost g = succ_view(adj@);
        let ghost entry = states@;
        states.set(node, NodeState::InProgress);
        let ghost st0 = states@;
        let ghost path = stack.push(node);
        proof {
            assert forall|i: int| 0 <= i < path.len() - 1 implies #[trigger] edge(g, path[i], path[i + 1]) by {
                if i < stack.len() - 1 {
                    assert(edge(g, stack[i], stack[i + 1]));
                }
            }
            assert forall|v: usize| v < st0.len() implies (st0[v as int] == NodeState::InProgress
                <==> path.contains(v)) by {
                if v == node {
                    assert(path[path.len() - 1] == v);
                } else if path.contains(v) {
                    let j = choose|j: int| 0 <= j < path.len() && path[j] == v;
                    assert(stack[j] == v);
                }
                if stack.contains(v) {
                    let j = choose|j: int| 0 <= j < stack.len() && stack[j] == v;
                    assert(path[j] == v);
                }
            }
            assert forall|x: usize, v: usize|
                x < st0.len() && st0[x as int] == NodeState::Done && #[trigger] edge(g, x, v) implies st0[v as int]
                    == NodeState::Done by {
                assert(entry[x as int] == NodeState::Done);
                assert(entry[v as int] == NodeState::Done);
            }
            assert forall|p: Seq<usize>| #[trigger] is_cycle(g, p) implies !all_done(st0, p) by {
                if all_done(st0, p) {
                    assert forall|i: int| 0 <= i < p.len() implies entry[p[i] as int] == NodeState::Done by {
                        assert(st0[p[i] as int] == NodeState::Done);
                    }
                }
            }
            lemma_unvisited_count(entry, st0);
        }
        let n = adj[node].len();
        let mut k: usize = 0;
        while k < n
            invariant
                g == succ_view(adj@),
                graph_wf(g),
                n == adj@[node as int]@.len(),
                node < adj@.len(),
                k <= n,
                states@.len() == adj@.len(),
                states@[node as int] == NodeState::InProgress,
                gray_is_stack(states@, path),
                is_path(g, path),
                path.last() == node,
                closed(g, states@),
                done_acyclic(g, states@),
                progress(st0, states@),
                unvisited_count(states@) < unvisited_count(entry),
                forall|j: int| 0 <= j < k ==> states@[adj@[node as int]@[j] as int] == NodeState::Done,
                entry.len() == states@.len(),
                forall|v: int|
                    0 <= v < entry.len() && states@[v] == NodeState::Unvisited ==> entry[v]
                        == NodeState::Unvisited,
                entry == old(states)@,
            decreases n - k,
        {
            let v = adj[node][k];
            assert(g[node as int][k as int] == v);
            assert(edge(g, node, v));
            match states[v] {
                NodeState::InProgress => {
                    proof {
                        let j = choose|j: int| 0 <= j < path.len() && path[j] == v;
                        let c = path.subrange(j, path.len() as int);
                        lemma_subpath(g, path, j, path.len() as int);
                        assert(c[0] == v);
                        assert(c.last() == node);
                        assert(is_cycle(g, c));
                    }
                    return Err(ValidationError::CycleDetected);
                },
                NodeState::Unvisited => {
                    let ghost before = states@;
                    assert(unvisited_count(states@) < unvisited_count(old(states)@));
                    let r = Self::dfs(v, adj, states, Ghost(path));
                    if r.is_err() {
                        return r;
                    }
                    proof {
                        lemma_unvisited_count(before, states@);
                    }
                },
                NodeState::Done => {},
            }
            k = k + 1;
        }
        proof {
            assert forall|v: usize| #[trigger] edge(g, node, v) implies states@[v as int] == NodeState::Done by {
                let j = choose|j: int| 0 <= j < g[node as int].len() && g[node as int][j] == v;
                assert(adj@[node as int]@[j] == v);
            }
            lemma_finish(g, states@, node);
        }
        states.set(node, NodeState::Done);
        Ok(())
    }
}

// ── The patch graph ──────────────────────────────────────────────

/// Some connection leads from module `a` to module `b`.
pub open spec fn connects(p: PatchView, a: Seq<char>, b: Seq<char>) -> bool {
    exists|i: int|
        0 <= i < p.connections.len() && #[trigger] p.connections[i].from.module_id == a
            && p.connections[i].to.module_id == b
}

/// `s` is a sequence of module ids, each connected to the next, the last to
/// the first: a cycle of the signal graph.
pub open spec fn is_id_cycle(p: PatchView, s: Seq<Seq<char>>) -> bool {
    &&& s.len() > 0
    &&& forall|i: int| 0 <= i < s.len() - 1 ==> #[trigger] connects(p, s[i], s[i + 1])
    &&& connects(p, s.last(), s[0])
}

/// The signal graph of the patch has a cycle.
pub open spec fn patch_has_cycle(p: PatchView) -> bool {
    exists|s: Seq<Seq<char>>| is_id_cycle(p, s)
}

/// The targets listed for `a` are exactly the ends of the connections from
/// `a`.
proof fn lemma_targets_contains(cs: Seq<ConnectionView>, a: Seq<char>, b: Seq<char>)
    ensures
        targets_from(cs, a).contains(b) <==> exists|i: int|
            0 <= i < cs.len() && #[trigger] cs[i].from.module_id == a && cs[i].to.module_id == b,
    decreases cs.len(),
{
    if cs.len() > 0 {
        let init = cs.drop_last();
        lemma_targets_contains(init, a, b);
        let l = cs.len() - 1;
        if targets_from(cs, a).contains(b) {
            if cs.last().from.module_id == a {
                let t = targets_from(init, a);
                let j = choose|j: int| 0 <= j < t.push(cs.last().to.module_id).len() && t.push(
                    cs.last().to.module_id,
                )[j] == b;
                if j < t.len() {
                    assert(t.contains(b));
                    let i = choose|i: int|
                        0 <= i < init.len() && #[trigger] init[i].from.module_id == a
                            && init[i].to.module_id == b;
                    assert(cs[i] == init[i]);
                } else {
                    assert(cs[l].from.module_id == a && cs[l].to.module_id == b);
                }
            } else {
                let i = choose|i: int|
                    0 <= i < init.len() && #[trigger] init[i].from.module_id == a
                        && init[i].to.module_id == b;
                assert(cs[i] == init[i]);
            }
        }
        if exists|i: int|
            0 <= i < cs.len() && #[trigger] cs[i].from.module_id == a && cs[i].to.module_id == b {
            let i = choose|i: int|
                0 <= i < cs.len() && #[trigger] cs[i].from.module_id == a && cs[i].to.module_id
                    == b;
            let t = targets_from(init, a);
            if i == l {
                assert(targets_from(cs, a) == t.push(b));
                assert(t.push(b)[t.len() as int] == b);
            } else {
                assert(init[i] == cs[i]);
                assert(t.contains(b));
                let j = choose|j: int| 0 <= j < t.len() && t[j] == b;
                if cs.last().from.module_id == a {
                    assert(t.push(cs.last().to.module_id)[j] == b);
                }
            }
        }
    }
}

/// `g` is the index form of the adjacency list `adj`: node `i` stands for
/// its `i`-th key, with an edge to `j` when key `j` is a target of key `i`.
pub open spec fn indexes(g: Seq<Seq<usize>>, adj: Seq<(String, Vec<String>)>) -> bool {
    &&& g.len() == adj.len()
    &&& graph_wf(g)
    &&& forall|i: int, j: int|
        0 <= i < g.len() && 0 <= j < g.len() ==> (g[i].contains(j as usize)
            <==> adjacency_targets(adj, i).contains(adjacency_keys(adj)[j]))
}

/// The position of `k` among `keys`.
spec fn key_pos(keys: Seq<Seq<char>>, k: Seq<char>) -> int {
    choose|j: int| 0 <= j < keys.len() && keys[j] == k
}

/// The index graph of a patch's adjacency list has a cycle exactly when the
/// signal graph of the patch has one.
proof fn lemma_cycles_correspond(
    p: PatchView,
    adj: Seq<(String, Vec<String>)>,
    g: Seq<Seq<usize>>,
)
    requires
        is_adjacency_of(adj, p),
        indexes(g, adj),
        g.len() <= usize::MAX,
    ensures
        has_cycle(g) <==> patch_has_cycle(p),
{
    let keys = adjacency_keys(adj);
    if has_cycle(g) {
        let c = choose|c: Seq<usize>| is_cycle(g, c);
        let s = c.map_values(|i: usize| keys[i as int]);
        assert forall|i: int| 0 <= i < s.len() - 1 implies #[trigger] connects(p, s[i], s[i + 1]) by {
            assert(edge(g, c[i], c[i + 1]));
            let (a, b) = (c[i] as int, c[i + 1] as int);
            assert(adjacency_targets(adj, a).contains(keys[b]));
            lemma_targets_contains(p.connections, keys[a], keys[b]);
        }
        let (a, b) = (c.last() as int, c[0] as int);
        assert(adjacency_targets(adj, a).contains(keys[b]));
        lemma_targets_contains(p.connections, keys[a], keys[b]);
        assert(is_id_cycle(p, s));
    }
    if patch_has_cycle(p) {
        let s = choose|s: Seq<Seq<char>>| is_id_cycle(p, s);
        let n = s.len() as int;
        assert forall|i: int| 0 <= i < n implies keys.contains(#[trigger] s[i]) by {
            let nxt = if i + 1 < n {
                s[i + 1]
            } else {
                s[0]
            };
            assert(connects(p, s[i], nxt));
            let q = choose|q: int|
                0 <= q < p.connections.len() && #[trigger] p.connections[q].from.module_id
                    == s[i] && p.connections[q].to.module_id == nxt;
            assert(source_ids(p.connections)[q] == s[i]);
            assert(is_node(p, s[i]));
        }
        let c = Seq::new(n as nat, |i: int| key_pos(keys, s[i]) as usize);
        assert forall|i: int| 0 <= i < n implies keys[c[i] as int] == s[i] && c[i] < g.len() by {
            assert(keys.contains(s[i]));
            let j = key_pos(keys, s[i]);
            assert(0 <= j < keys.len() && keys[j] == s[i]);
            assert(c[i] == j as usize);
        }
        assert forall|i: int| 0 <= i < c.len() - 1 implies #[trigger] edge(g, c[i], c[i + 1]) by {
            assert(connects(p, s[i], s[i + 1]));
            lemma_targets_contains(p.connections, s[i], s[i + 1]);
            assert(adjacency_targets(adj, c[i] as int).contains(keys[c[i + 1] as int]));
        }
        assert(connects(p, s[n - 1], s[0]));
        lemma_targets_contains(p.connections, s[n - 1], s[0]);
        assert(adjacency_targets(adj, c[n - 1] as int).contains(keys[c[0] as int]));
        assert(edge(g, c.last(), c[0]));
        assert(is_cycle(g, c));
    }
}

/// The index form of an adjacency list whose keys are distinct.
fn index_graph(adj: &Vec<(String, Vec<String>)>) -> (g: Vec<Vec<usize>>)
    requires
        forall|a: int, b: int|
            0 <= a < b < adj@.len() ==> adjacency_keys(adj@)[a] != adjacency_keys(adj@)[b],
    ensures
        indexes(succ_view(g@), adj@),
{
    let ghost keys = adjacency_keys(adj@);
    let mut g: Vec<Vec<usize>> = Vec::new();
    let mut i: usize = 0;
    let alen = adj.len();
    while i < adj.len()
        invariant
            alen == adj@.len(),
            keys == adjacency_keys(adj@),
            keys.len() == adj@.len(),
            forall|a: int, b: int| 0 <= a < b < keys.len() ==> keys[a] != keys[b],
            i <= adj@.len(),
            g@.len() == i,
            forall|u: int, k: int|
                0 <= u < i && 0 <= k < g@[u]@.len() ==> g@[u]@[k] < adj@.len(),
            forall|u: int, j: int|
                0 <= u < i && 0 <= j < adj@.len() ==> (g@[u]@.contains(j as usize)
                    <==> adjacency_targets(adj@, u).contains(keys[j])),
        decreases adj@.len() - i,
    {
        let ghost targets = adjacency_targets(adj@, i as int);
        let mut succ: Vec<usize> = Vec::new();
        let mut q: usize = 0;
        while q < adj[i].1.len()
            invariant
                alen == adj@.len(),
                keys == adjacency_keys(adj@),
                keys.len() == adj@.len(),
                forall|a: int, b: int| 0 <= a < b < keys.len() ==> keys[a] != keys[b],
                i < adj@.len(),
                targets == adjacency_targets(adj@, i as int),
                q <= targets.len(),
                forall|k: int| 0 <= k < succ@.len() ==> succ@[k] < adj@.len(),
                forall|j: int|
                    0 <= j < adj@.len() ==> (succ@.contains(j as usize) <==> targets.take(
                        q as int,
                    ).contains(keys[j])),
            decreases targets.len() - q,
        {
            let ghost before = succ@;
            assert(targets.take(q + 1) =~= targets.take(q as int).push(targets[q as int]));
            match key_index(adj, adj[i].1[q].as_str()) {
                Some(j) => {
                    succ.push(j);
                    assert forall|j2: int| 0 <= j2 < adj@.len() implies (succ@.contains(
                        j2 as usize,
                    ) <==> targets.take(q + 1).contains(keys[j2])) by {
                        if j2 == j {
                            assert(succ@[before.len() as int] == j);
                            assert(targets.take(q + 1)[q as int] == keys[j2]);
                        } else {
                            assert(keys[j2] != keys[j as int]);
                            assert(succ@ == before.push(j));
                            if succ@.contains(j2 as usize) {
                                let k = choose|k: int|
                                    0 <= k < succ@.len() && succ@[k] == j2 as usize;
                                assert(j2 as usize != j);
                                assert(k != before.len());
                                assert(before[k] == j2 as usize);
                                let t = choose|t: int|
                                    0 <= t < q && targets.take(q as int)[t] == keys[j2];
                                assert(targets.take(q + 1)[t] == keys[j2]);
                            }
                            if targets.take(q + 1).contains(keys[j2]) {
                                let t = choose|t: int|
                                    0 <= t <= q && #[trigger] targets.take(q + 1)[t] == keys[j2];
                                assert(t != q);
                                assert(targets.take(q as int)[t] == keys[j2]);
                                assert(before.contains(j2 as usize));
                                let k = choose|k: int|
                                    0 <= k < before.len() && before[k] == j2 as usize;
                                assert(succ@[k] == j2 as usize);
                            }
                        }
                    }
                },
                None => {
                    assert forall|j2: int| 0 <= j2 < adj@.len() implies (succ@.contains(
                        j2 as usize,
                    ) <==> targets.take(q + 1).contains(keys[j2])) by {
                        assert(keys[j2] != targets[q as int]);
                        if targets.take(q + 1).contains(keys[j2]) {
                            let t = choose|t: int|
                                0 <= t <= q && #[trigger] targets.take(q + 1)[t] == keys[j2];
                            assert(targets.take(q as int)[t] == keys[j2]);
                        }
                        if targets.take(q as int).contains(keys[j2]) {
                            let t = choose|t: int|
                                0 <= t < q && targets.take(q as int)[t] == keys[j2];
                            assert(targets.take(q + 1)[t] == keys[j2]);
                        }
                    }
                },
            }
            q = q + 1;
        }
        assert(targets.take(q as int) =~= targets);
        g.push(succ);
        i = i + 1;
    }
    g
}

/// The number of output modules.
pub open spec fn output_count(ms: Seq<ModuleView>) -> nat
    decreases ms.len(),
{
    if ms.len() == 0 {
        0
    } else {
        output_count(ms.drop_last()) + if ms.last().kind == ModuleKind::Output {
            1nat
        } else {
            0nat
        }
    }
}

/// The first id, scanning connections in order and each connection's source
/// before its target, that names no module.
pub open spec fn first_unknown(ids: Seq<Seq<char>>, cs: Seq<ConnectionView>) -> Option<Seq<char>>
    decreases cs.len(),
{
    if cs.len() == 0 {
        None
    } else if !ids.contains(cs[0].from.module_id) {
        Some(cs[0].from.module_id)
    } else if !ids.contains(cs[0].to.module_id) {
        Some(cs[0].to.module_id)
    } else {
        first_unknown(ids, cs.drop_first())
    }
}

/// Some module of the patch is an oscillator, the one kind of module that
/// produces sound of its own.
pub open spec fn has_sound_source(ms: Seq<ModuleView>) -> bool {
    exists|i: int| 0 <= i < ms.len() && #[trigger] ms[i].kind == ModuleKind::Oscillator
}

/// The errors of validation, with their texts as character sequences.
pub enum ValidationErrorView {
    NoOutputModule,
    MultipleOutputModules,
    CycleDetected,
    UnknownModule(Seq<char>),
    NoSoundSource,
}

/// The outcome of validating a patch: the output rule first, then unknown
/// modules, then cycles, then the sound source.
pub open spec fn validation(p: PatchView) -> Result<(), ValidationErrorView> {
    let outputs = output_count(p.modules);
    if outputs == 0 {
        Err(ValidationErrorView::NoOutputModule)
    } else if outputs > 1 {
        Err(ValidationErrorView::MultipleOutputModules)
    } else {
        match first_unknown(module_ids(p.modules), p.connections) {
            Some(id) => Err(ValidationErrorView::UnknownModule(id)),
            None => if patch_has_cycle(p) {
                Err(ValidationErrorView::CycleDetected)
            } else if !has_sound_source(p.modules) {
                Err(ValidationErrorView::NoSoundSource)
            } else {
                Ok(())
            },
        }
    }
}

impl PatchValidator {
    /// Checks the rules in order: exactly one output module, connections
    /// between known modules only, no cycle, at least one oscillator.
    pub fn validate(patch: &Patch) -> (r: Result<(), ValidationError>)
        ensures
            match validation(patch@) {
                Ok(()) => r is Ok,
                Err(e) => r matches Err(err) && err@ == e,
            },
    {
        match Self::check_output(patch) {
            Ok(()) => {},
            Err(e) => return Err(e),
        }
        match Self::check_unknown_modules(patch) {
            Ok(()) => {},
            Err(e) => return Err(e),
        }
        match Self::check_cycles(patch) {
            Ok(()) => {},
            Err(e) => return Err(e),
        }
        Self::check_sound_source(patch)
    }

    fn check_sound_source(patch: &Patch) -> (r: Result<(), ValidationError>)
        ensures
            has_sound_source(patch@.modules) ==> r is Ok,
            !has_sound_source(patch@.modules) ==> r == Err::<(), ValidationError>(
                ValidationError::NoSoundSource,
            ),
    {
        let modules = patch.modules();
        let ghost ms = patch@.modules;
        let mut i: usize = 0;
        while i < modules.len()
            invariant
                ms == patch@.modules,
                modules@.map_values(|m: crate::domain::patch::model::Module| m@) == ms,
                i <= modules@.len(),
                forall|j: int| 0 <= j < i ==> ms[j].kind != ModuleKind::Oscillator,
            decreases modules@.len() - i,
        {
            assert(ms[i as int] == modules@[i as int]@);
            if modules[i].kind == ModuleKind::Oscillator {
                return Ok(());
            }
            i = i + 1;
        }
        Err(ValidationError::NoSoundSource)
    }

    fn check_output(patch: &Patch) -> (r: Result<(), ValidationError>)
        ensures
            output_count(patch@.modules) == 0 ==> r == Err::<(), ValidationError>(
                ValidationError::NoOutputModule,
            ),
            output_count(patch@.modules) == 1 ==> r is Ok,
            output_count(patch@.modules) > 1 ==> r == Err::<(), ValidationError>(
                ValidationError::MultipleOutputModules,
            ),
    {
        let modules = patch.modules();
        let ghost ms = patch@.modules;
        let mut count: usize = 0;
        let mut i: usize = 0;
        while i < modules.len()
            invariant
                ms == patch@.modules,
                modules@.map_values(|m: crate::domain::patch::model::Module| m@) == ms,
                i <= modules@.len(),
                count == output_count(ms.take(i as int)),
                count <= i,
            decreases modules@.len() - i,
        {
            assert(ms.take(i + 1).drop_last() =~= ms.take(i as int));
            assert(ms[i as int] == modules@[i as int]@);
            if modules[i].kind == ModuleKind::Output {
                count = count + 1;
            }
            i = i + 1;
        }
        assert(ms.take(i as int) =~= ms);
        if count == 0 {
            Err(ValidationError::NoOutputModule)
        } else if count == 1 {
            Ok(())
        } else {
            Err(ValidationError::MultipleOutputModules)
        }
    }

    fn check_unknown_modules(patch: &Patch) -> (r: Result<(), ValidationError>)
        ensures
            match first_unknown(module_ids(patch@.modules), patch@.connections) {
                None => r is Ok,
                Some(id) => r matches Err(e) && e@ == ValidationErrorView::UnknownModule(id),
            },
    {
        let connections = patch.connections();
        let ghost ids = module_ids(patch@.modules);
        let ghost cs = patch@.connections;
        let mut i: usize = 0;
        assert(cs.skip(0) =~= cs);
        while i < connections.len()
            invariant
                ids == module_ids(patch@.modules),
                cs == patch@.connections,
                connections@.map_values(|c: crate::domain::patch::model::Connection| c@) == cs,
                i <= connections@.len(),
                first_unknown(ids, cs) == first_unknown(ids, cs.skip(i as int)),
            decreases connections@.len() - i,
        {
            let ghost rest = cs.skip(i as int);
            assert(rest[0] == connections@[i as int]@);
            assert(rest.drop_first() =~= cs.skip(i + 1));
            if patch.find_module(connections[i].from.module_id.as_str()).is_none() {
                proof {
                    crate::search::lemma_first_index(ids, rest[0].from.module_id);
                }
                return Err(ValidationError::UnknownModule(connections[i].from.module_id.clone()));
            }
            if patch.find_module(connections[i].to.module_id.as_str()).is_none() {
                proof {
                    crate::search::lemma_first_index(ids, rest[0].from.module_id);
                    crate::search::lemma_first_index(ids, rest[0].to.module_id);
                }
                return Err(ValidationError::UnknownModule(connections[i].to.module_id.clone()));
            }
            proof {
                crate::search::lemma_first_index(ids, rest[0].from.module_id);
                crate::search::lemma_first_index(ids, rest[0].to.module_id);
            }
            i = i + 1;
        }
        assert(cs.skip(i as int) =~= Seq::<ConnectionView>::empty());
        Ok(())
    }

    /// Reports a cycle in the signal graph of the patch, if it has one.
    fn check_cycles(patch: &Patch) -> (r: Result<(), ValidationError>)
        ensures
            r is Ok <==> !patch_has_cycle(patch@),
            r is Err ==> r == Err::<(), ValidationError>(ValidationError::CycleDetected),
    {
        let adj = patch.adjacency();
        let graph = index_graph(&adj);
        let ghost g = succ_view(graph@);
        let n = graph.len();
        proof {
            lemma_cycles_correspond(patch@, adj@, g);
        }
        let mut states: Vec<NodeState> = Vec::new();
        let mut i: usize = 0;
        while i < n
            invariant
                n == graph@.len(),
                i <= n,
                states@.len() == i,
                forall|v: int| 0 <= v < i ==> states@[v] == NodeState::Unvisited,
            decreases n - i,
        {
            states.push(NodeState::Unvisited);
            i = i + 1;
        }
        proof {
            assert forall|p: Seq<usize>| #[trigger] is_cycle(g, p) implies !all_done(states@, p) by {
                assert(states@[p[0] as int] == NodeState::Unvisited);
            }
        }
        let mut node: usize = 0;
        while node < n
            invariant
                g == succ_view(graph@),
                graph_wf(g),
                n == graph@.len(),
                node <= n,
                states@.len() == n,
                forall|v: int| 0 <= v < node ==> states@[v] == NodeState::Done,
                forall|v: int| 0 <= v < n ==> states@[v] != NodeState::InProgress,
                closed(g, states@),
                done_acyclic(g, states@),
                has_cycle(g) <==> patch_has_cycle(patch@),
            decreases n - node,
        {
            if states[node] == NodeState::Unvisited {
                proof {
                    assert(gray_is_stack(states@, Seq::empty()));
                    assert(is_path(g, Seq::<usize>::empty()));
                }
                match Self::dfs(node, &graph, &mut states, Ghost(Seq::empty())) {
                    Ok(()) => {},
                    Err(e) => return Err(e),
                }
            }
            node = node + 1;
        }
        proof {
            if has_cycle(g) {
                let p = choose|p: Seq<usize>| is_cycle(g, p);
                assert(all_done(states@, p));
            }
        }
        Ok(())
    }
}

#[derive(Debug, Clone, PartialEq, Eq)]
pub enum ValidationError {
    NoOutputModule,
    MultipleOutputModules,
    CycleDetected,
    UnknownModule(String),
    NoSoundSource,
}

impl View for ValidationError {
    type V = ValidationErrorView;

    open spec fn view(&self) -> ValidationErrorView {
        match self {
            ValidationError::NoOutputModule => ValidationErrorView::NoOutputModule,
            ValidationError::MultipleOutputModules => ValidationErrorView::MultipleOutputModules,
            ValidationError::CycleDetected => ValidationErrorView::CycleDetected,
            ValidationError::UnknownModule(id) => ValidationErrorView::UnknownModule(id@),
            ValidationError::NoSoundSource => ValidationErrorView::NoSoundSource,
        }
    }
}

/// The text that describes a validation error.
pub open spec fn validation_message(e: ValidationErrorView) -> Seq<char> {
    match e {
        ValidationErrorView::NoOutputModule => "Patch must have exactly one output module"@,
        ValidationErrorView::MultipleOutputModules => "Patch cannot have multiple output modules"@,
        ValidationErrorView::CycleDetected => "Patch cannot contain cycles"@,
        ValidationErrorView::UnknownModule(id) => "Connection references unknown module '"@ + id
            + "'"@,
        ValidationErrorView::NoSoundSource => "Patch must contain at least one oscillator"@,
    }
}

impl ValidationError {
    /// The text that describes the error (what `to_string` gives).
    pub fn message(&self) -> (r: String)
        ensures
            r@ == validation_message(self@),
    {
        match self {
            ValidationError::NoOutputModule => {
                crate::text::owned("Patch must have exactly one output module")
            },
            ValidationError::MultipleOutputModules => {
                crate::text::owned("Patch cannot have multiple output modules")
            },
            ValidationError::CycleDetected => crate::text::owned("Patch cannot contain cycles"),
            ValidationError::UnknownModule(id) => {
                let head = concat("Connection references unknown module '", id.as_str());
                concat(head.as_str(), "'")
            },
            ValidationError::NoSoundSource => {
                crate::text::owned("Patch must contain at least one oscillator")
            },
        }
    }
}

} // verus!
