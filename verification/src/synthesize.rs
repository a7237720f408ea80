//! The update-sequence synthesizer: a constrained weighted random process
//! that emits edge and terminal mutations over a fixed candidate universe,
//! interleaved with snapshot queries, while keeping every mutation legal for
//! the simulated state it is applied to.
use vstd::prelude::*;
use crate::rng::{rand_ratio, rand_below, rand_weighted4};
use crate::updates::{UpdateOperation, OpView, ops_view};
use crate::{Edge, SteinerInstance, InstanceView, SteinError, has_endpoints, clone_edges,
    clone_vertices};

verus! {

/// Relative weights of the four update categories.
#[derive(Debug, Clone, Copy, PartialEq, Eq, Structural)]
pub struct UpdateProbabilities {
    pub edge_insertion: u64,
    pub edge_deletion: u64,
    pub terminal_activation: u64,
    pub terminal_deactivation: u64,
}

/// The simulated graph state a synthesized sequence acts on.
pub ghost struct SynthState {
    pub edges: Seq<Edge>,
    pub terminals: Seq<usize>,
}

/// The state the synthesizer starts from: empty, or the base instance's full
/// edge and terminal sets.
pub open spec fn init_state(inst: InstanceView, start_empty: bool) -> SynthState {
    if start_empty {
        SynthState { edges: Seq::<Edge>::empty(), terminals: Seq::<usize>::empty() }
    } else {
        SynthState { edges: inst.edges, terminals: inst.terminals }
    }
}

/// The edge list with every edge joining the given endpoints removed.
pub open spec fn remove_endpoints(es: Seq<Edge>, from: usize, to: usize) -> Seq<Edge>
    decreases es.len(),
{
    if es.len() == 0 {
        Seq::<Edge>::empty()
    } else {
        let rest = remove_endpoints(es.drop_last(), from, to);
        if es.last().links(from, to) {
            rest
        } else {
            rest.push(es.last())
        }
    }
}

/// The terminal list with every occurrence of `x` removed.
pub open spec fn remove_vertex(ts: Seq<usize>, x: usize) -> Seq<usize>
    decreases ts.len(),
{
    if ts.len() == 0 {
        Seq::<usize>::empty()
    } else {
        let rest = remove_vertex(ts.drop_last(), x);
        if ts.last() == x {
            rest
        } else {
            rest.push(ts.last())
        }
    }
}

/// Whether one operation is legal in state `st`: an insertion only of an
/// absent edge, a deletion only of a present one, terminal toggles only in
/// the right direction, and a query only of the exact current state.
pub open spec fn op_legal(st: SynthState, op: OpView) -> bool {
    match op {
        OpView::EdgeInsertion(e) => !has_endpoints(st.edges, e.from, e.to),
        OpView::EdgeDeletion(e) => has_endpoints(st.edges, e.from, e.to),
        OpView::TerminalActivation(x) => !st.terminals.contains(x),
        OpView::TerminalDeactivation(x) => st.terminals.contains(x),
        OpView::Query(q) => q.edges == st.edges && q.terminals == st.terminals,
        OpView::VertexInsertion => true,
        OpView::VertexDeletion(_) => true,
    }
}

/// The state after one operation.
pub open spec fn apply_op(st: SynthState, op: OpView) -> SynthState {
    match op {
        OpView::EdgeInsertion(e) => SynthState { edges: st.edges.push(e), ..st },
        OpView::EdgeDeletion(e) => SynthState {
            edges: remove_endpoints(st.edges, e.from, e.to),
            ..st
        },
        OpView::TerminalActivation(x) => SynthState { terminals: st.terminals.push(x), ..st },
        OpView::TerminalDeactivation(x) => SynthState {
            terminals: remove_vertex(st.terminals, x),
            ..st
        },
        _ => st,
    }
}

/// The state after a whole sequence of operations.
pub open spec fn apply_ops(st: SynthState, ops: Seq<OpView>) -> SynthState
    decreases ops.len(),
{
    if ops.len() == 0 {
        st
    } else {
        apply_ops(apply_op(st, ops[0]), ops.drop_first())
    }
}

/// Whether every operation of the sequence is legal for the state it meets
/// when the sequence is replayed from `st`.
pub open spec fn ops_legal_from(ops: Seq<OpView>, st: SynthState) -> bool
    decreases ops.len(),
{
    ops.len() == 0 || (op_legal(st, ops[0]) && ops_legal_from(
        ops.drop_first(),
        apply_op(st, ops[0]),
    ))
}

/// Whether `e` joins two distinct positions of the cover vertex list.
pub open spec fn edge_in_cover_pairs(vcs: Seq<usize>, e: Edge) -> bool {
    exists|a: int, b: int|
        0 <= a < vcs.len() && 0 <= b < vcs.len() && a != b && e.links(vcs[a], vcs[b])
}

/// Whether an operation only targets the fixed candidate universe: edge
/// mutations stay among the cover vertices, terminal mutations among the base
/// instance's terminals.
pub open spec fn op_in_universe(op: OpView, vcs: Seq<usize>, terms: Seq<usize>) -> bool {
    match op {
        OpView::EdgeInsertion(e) => edge_in_cover_pairs(vcs, e),
        OpView::EdgeDeletion(e) => edge_in_cover_pairs(vcs, e),
        OpView::TerminalActivation(x) => terms.contains(x),
        OpView::TerminalDeactivation(x) => terms.contains(x),
        _ => true,
    }
}

/// How many mutations (non-query operations) a sequence holds.
pub open spec fn count_mutations(ops: Seq<OpView>) -> nat
    decreases ops.len(),
{
    if ops.len() == 0 {
        0
    } else {
        (match ops.last() {
            OpView::Query(_) => count_mutations(ops.drop_last()),
            _ => count_mutations(ops.drop_last()) + 1,
        }) as nat
    }
}

pub proof fn lemma_apply_snoc(st: SynthState, ops: Seq<OpView>, op: OpView)
    ensures
        apply_ops(st, ops.push(op)) == apply_op(apply_ops(st, ops), op),
    decreases ops.len(),
{
    if ops.len() == 0 {
        assert(ops.push(op)[0] == op);
        assert(ops.push(op).drop_first() =~= Seq::<OpView>::empty());
        assert(apply_ops(apply_op(st, op), Seq::<OpView>::empty()) == apply_op(st, op));
        assert(apply_ops(st, Seq::<OpView>::empty()) == st);
    } else {
        assert(ops.push(op)[0] == ops[0]);
        assert(ops.push(op).drop_first() =~= ops.drop_first().push(op));
        lemma_apply_snoc(apply_op(st, ops[0]), ops.drop_first(), op);
    }
}

pub proof fn lemma_legal_snoc(st: SynthState, ops: Seq<OpView>, op: OpView)
    requires
        ops_legal_from(ops, st),
        op_legal(apply_ops(st, ops), op),
    ensures
        ops_legal_from(ops.push(op), st),
    decreases ops.len(),
{
    if ops.len() == 0 {
        assert(ops.push(op)[0] == op);
        assert(ops.push(op).drop_first() =~= Seq::<OpView>::empty());
        assert(apply_ops(st, Seq::<OpView>::empty()) == st);
        assert(ops_legal_from(Seq::<OpView>::empty(), apply_op(st, op)));
    } else {
        assert(ops.push(op)[0] == ops[0]);
        assert(ops.push(op).drop_first() =~= ops.drop_first().push(op));
        lemma_legal_snoc(apply_op(st, ops[0]), ops.drop_first(), op);
    }
}

/// Whether some edge of `v` joins the endpoints of `from`/`to`.
fn edge_present(v: &Vec<Edge>, from: usize, to: usize) -> (r: bool)
    ensures
        r == has_endpoints(v@, from, to),
{
    let mut i: usize = 0;
    while i < v.len()
        invariant
            i <= v@.len(),
            forall|k: int| 0 <= k < i ==> !(#[trigger] v@[k]).links(from, to),
        decreases v@.len() - i,
    {
        let e = v[i];
        if (e.from == from && e.to == to) || (e.from == to && e.to == from) {
            proof {
                assert(v@[i as int].links(from, to));
            }
            return true;
        }
        i = i + 1;
    }
    false
}

/// Whether `x` occurs in `v`.
fn vertex_present(v: &Vec<usize>, x: usize) -> (r: bool)
    ensures
        r == v@.contains(x),
{
    let mut i: usize = 0;
    while i < v.len()
        invariant
            i <= v@.len(),
            forall|k: int| 0 <= k < i ==> v@[k] != x,
        decreases v@.len() - i,
    {
        if v[i] == x {
            proof {
                assert(v@[i as int] == x);
            }
            return true;
        }
        i = i + 1;
    }
    false
}

/// Removes every edge joining the given endpoints.
fn remove_edges_by_endpoints(v: &Vec<Edge>, from: usize, to: usize) -> (r: Vec<Edge>)
    ensures
        r@ == remove_endpoints(v@, from, to),
{
    let mut r: Vec<Edge> = Vec::new();
    let mut i: usize = 0;
    proof {
        assert(v@.take(0) =~= Seq::<Edge>::empty());
    }
    while i < v.len()
        invariant
            i <= v@.len(),
            r@ == remove_endpoints(v@.take(i as int), from, to),
        decreases v@.len() - i,
    {
        proof {
            assert(v@.take(i + 1).drop_last() =~= v@.take(i as int));
            assert(v@.take(i + 1).last() == v@[i as int]);
        }
        let e = v[i];
        if !((e.from == from && e.to == to) || (e.from == to && e.to == from)) {
            r.push(e);
        }
        i = i + 1;
    }
    proof {
        assert(v@.take(v@.len() as int) =~= v@);
    }
    r
}

/// Removes every occurrence of `x`.
fn remove_terminal(v: &Vec<usize>, x: usize) -> (r: Vec<usize>)
    ensures
        r@ == remove_vertex(v@, x),
{
    let mut r: Vec<usize> = Vec::new();
    let mut i: usize = 0;
    proof {
        assert(v@.take(0) =~= Seq::<usize>::empty());
    }
    while i < v.len()
        invariant
            i <= v@.len(),
            r@ == remove_vertex(v@.take(i as int), x),
        decreases v@.len() - i,
    {
        proof {
            assert(v@.take(i + 1).drop_last() =~= v@.take(i as int));
            assert(v@.take(i + 1).last() == v@[i as int]);
        }
        let t = v[i];
        if t != x {
            r.push(t);
        }
        i = i + 1;
    }
    proof {
        assert(v@.take(v@.len() as int) =~= v@);
    }
    r
}

/// Synthesizes a randomized sequence of exactly `total_updates` legal
/// mutations over the candidate universe (edges among the cover vertices,
/// terminals of the base instance), each followed with probability
/// `query_num / query_den` by a snapshot query, and always ending on a query.
///
/// Every draw picks a category by the given weights among the categories that
/// currently have a legal target; if no positively weighted category has one,
/// the process fails with `InvalidProbabilityWeights`, as it does at once
/// when all four weights are zero.
pub fn generate_update_sequence(
    instance: &SteinerInstance,
    update_probs: UpdateProbabilities,
    query_num: u32,
    query_den: u32,
    vc: Vec<usize>,
    start_empty: bool,
    total_updates: usize,
) -> (r: Result<Vec<UpdateOperation>, SteinError>)
    requires
        query_den > 0,
        query_num <= query_den,
        update_probs.edge_insertion + update_probs.edge_deletion
            + update_probs.terminal_activation + update_probs.terminal_deactivation <= u64::MAX,
    ensures
        update_probs.edge_insertion + update_probs.edge_deletion
            + update_probs.terminal_activation + update_probs.terminal_deactivation == 0 ==> r
            is Err,
        update_probs.edge_insertion > 0 && update_probs.edge_deletion > 0 && vc@.len() >= 2 ==> r
            is Ok,
        update_probs.terminal_activation > 0 && update_probs.terminal_deactivation > 0
            && instance@.terminals.len() > 0 ==> r is Ok,
        match r {
            Ok(ops) => {
                &&& ops@.len() > 0
                &&& ops_view(ops@).last() is Query
                &&& ops_legal_from(ops_view(ops@), init_state(instance@, start_empty))
                &&& count_mutations(ops_view(ops@)) == total_updates
                &&& forall|i: int|
                    0 <= i < ops_view(ops@).len() ==> op_in_universe(
                        #[trigger] ops_view(ops@)[i],
                        vc@,
                        instance@.terminals,
                    )
            },
            Err(e) => e == SteinError::InvalidProbabilityWeights,
        },
{
    let w0 = update_probs.edge_insertion;
    let w1 = update_probs.edge_deletion;
    let w2 = update_probs.terminal_activation;
    let w3 = update_probs.terminal_deactivation;
    if w0 + w1 + w2 + w3 == 0 {
        return Err(SteinError::InvalidProbabilityWeights);
    }
    let ghost ist = init_state(instance@, start_empty);
    let mut current_edges: Vec<Edge>;
    let mut current_terminals: Vec<usize>;
    if !start_empty {
        current_edges = clone_edges(&instance.edges);
        current_terminals = clone_vertices(&instance.terminals);
    } else {
        current_edges = Vec::new();
        current_terminals = Vec::new();
    }
    // The candidate edge universe: every unordered pair of cover vertices.
    let mut all_edges: Vec<Edge> = Vec::new();
    let mut a: usize = 0;
    while a < vc.len()
        invariant
            forall|x: int|
                0 <= x < all_edges@.len() ==> edge_in_cover_pairs(vc@, #[trigger] all_edges@[x]),
            a >= 1 && vc@.len() >= 2 ==> all_edges@.len() > 0,
        decreases vc@.len() - a,
    {
        let mut b: usize = a + 1;
        while b < vc.len()
            invariant
                a < vc@.len(),
                a < b,
                forall|x: int|
                    0 <= x < all_edges@.len() ==> edge_in_cover_pairs(vc@, #[trigger] all_edges@[x]),
                a >= 1 && vc@.len() >= 2 ==> all_edges@.len() > 0,
                a == 0 && b >= 2 ==> all_edges@.len() > 0,
            decreases vc@.len() - b,
        {
            let va = vc[a];
            let vb = vc[b];
            let from: usize = if va < vb {
                va
            } else {
                vb
            };
            let to: usize = if va < vb {
                vb
            } else {
                va
            };
            all_edges.push(Edge { from, to, cost: 1 });
            proof {
                let n = all_edges@.len() - 1;
                assert(all_edges@[n].links(vc@[a as int], vc@[b as int]));
                assert(edge_in_cover_pairs(vc@, all_edges@[n]));
            }
            b = b + 1;
        }
        a = a + 1;
    }
    let mut updates: Vec<UpdateOperation> = Vec::new();
    let mut upd: usize = 0;
    while upd < total_updates
        invariant
            query_den > 0,
            query_num <= query_den,
            w0 == update_probs.edge_insertion,
            w1 == update_probs.edge_deletion,
            w2 == update_probs.terminal_activation,
            w3 == update_probs.terminal_deactivation,
            w0 + w1 + w2 + w3 <= u64::MAX,
            upd <= total_updates,
            ist == init_state(instance@, start_empty),
            ops_legal_from(ops_view(updates@), ist),
            apply_ops(ist, ops_view(updates@)) == (SynthState {
                edges: current_edges@,
                terminals: current_terminals@,
            }),
            count_mutations(ops_view(updates@)) == upd,
            forall|x: int|
                0 <= x < all_edges@.len() ==> edge_in_cover_pairs(vc@, #[trigger] all_edges@[x]),
            vc@.len() >= 2 ==> all_edges@.len() > 0,
            forall|x: int|
                0 <= x < ops_view(updates@).len() ==> op_in_universe(
                    #[trigger] ops_view(updates@)[x],
                    vc@,
                    instance@.terminals,
                ),
        decreases total_updates - upd,
    {
        let ghost st = apply_ops(ist, ops_view(updates@));
        // Collect the legal targets of each category.
        let mut avail_ins: Vec<Edge> = Vec::new();
        let mut avail_del: Vec<Edge> = Vec::new();
        let mut k: usize = 0;
        while k < all_edges.len()
            invariant
                forall|x: int|
                    0 <= x < all_edges@.len() ==> edge_in_cover_pairs(
                        vc@,
                        #[trigger] all_edges@[x],
                    ),
                k <= all_edges@.len(),
                avail_ins@.len() + avail_del@.len() == k,
                forall|x: int|
                    0 <= x < avail_ins@.len() ==> !has_endpoints(
                        current_edges@,
                        (#[trigger] avail_ins@[x]).from,
                        avail_ins@[x].to,
                    ),
                forall|x: int|
                    0 <= x < avail_ins@.len() ==> edge_in_cover_pairs(
                        vc@,
                        #[trigger] avail_ins@[x],
                    ),
                forall|x: int|
                    0 <= x < avail_del@.len() ==> has_endpoints(
                        current_edges@,
                        (#[trigger] avail_del@[x]).from,
                        avail_del@[x].to,
                    ),
                forall|x: int|
                    0 <= x < avail_del@.len() ==> edge_in_cover_pairs(
                        vc@,
                        #[trigger] avail_del@[x],
                    ),
            decreases all_edges@.len() - k,
        {
            let e = all_edges[k];
            if edge_present(&current_edges, e.from, e.to) {
                avail_del.push(e);
            } else {
                avail_ins.push(e);
            }
            k = k + 1;
        }
        let mut avail_act: Vec<usize> = Vec::new();
        let mut avail_dea: Vec<usize> = Vec::new();
        let mut k2: usize = 0;
        while k2 < instance.terminals.len()
            invariant
                k2 <= instance.terminals@.len(),
                avail_act@.len() + avail_dea@.len() == k2,
                forall|x: int|
                    0 <= x < avail_act@.len() ==> !current_terminals@.contains(
                        #[trigger] avail_act@[x],
                    ),
                forall|x: int|
                    0 <= x < avail_act@.len() ==> instance@.terminals.contains(
                        #[trigger] avail_act@[x],
                    ),
                forall|x: int|
                    0 <= x < avail_dea@.len() ==> current_terminals@.contains(
                        #[trigger] avail_dea@[x],
                    ),
                forall|x: int|
                    0 <= x < avail_dea@.len() ==> instance@.terminals.contains(
                        #[trigger] avail_dea@[x],
                    ),
            decreases instance.terminals@.len() - k2,
        {
            let t = instance.terminals[k2];
            proof {
                assert(instance@.terminals[k2 as int] == t);
                assert(instance@.terminals.contains(t));
            }
            if vertex_present(&current_terminals, t) {
                avail_dea.push(t);
            } else {
                avail_act.push(t);
            }
            k2 = k2 + 1;
        }
        let e0: u64 = if avail_ins.len() > 0 {
            w0
        } else {
            0
        };
        let e1: u64 = if avail_del.len() > 0 {
            w1
        } else {
            0
        };
        let e2: u64 = if avail_act.len() > 0 {
            w2
        } else {
            0
        };
        let e3: u64 = if avail_dea.len() > 0 {
            w3
        } else {
            0
        };
        if e0 + e1 + e2 + e3 == 0 {
            // No positively weighted category has a legal target left; this
            // cannot happen while both weights of a pair of opposite
            // categories are positive and their target universe is non-empty.
            proof {
                if w0 > 0 && w1 > 0 && vc@.len() >= 2 {
                    assert(avail_ins@.len() + avail_del@.len() == all_edges@.len());
                    assert(false);
                }
                if w2 > 0 && w3 > 0 && instance@.terminals.len() > 0 {
                    assert(avail_act@.len() + avail_dea@.len() == instance@.terminals.len());
                    assert(false);
                }
            }
            return Err(SteinError::InvalidProbabilityWeights);
        }
        let choice = rand_weighted4(e0, e1, e2, e3);
        let ghost before_ops = ops_view(updates@);
        if choice == 0 {
            let idx = rand_below(avail_ins.len());
            let target = avail_ins[idx];
            updates.push(UpdateOperation::EdgeInsertion(target));
            current_edges.push(target);
            proof {
                assert(ops_view(updates@) =~= before_ops.push(OpView::EdgeInsertion(target)));
                lemma_legal_snoc(ist, before_ops, OpView::EdgeInsertion(target));
                lemma_apply_snoc(ist, before_ops, OpView::EdgeInsertion(target));
                assert(ops_view(updates@).drop_last() =~= before_ops);
                assert(ops_view(updates@).last() == OpView::EdgeInsertion(target));
                assert(count_mutations(ops_view(updates@)) == upd + 1);
                assert(op_in_universe(OpView::EdgeInsertion(target), vc@, instance@.terminals));
                assert forall|x: int|
                    0 <= x < ops_view(updates@).len() implies op_in_universe(
                    #[trigger] ops_view(updates@)[x],
                    vc@,
                    instance@.terminals,
                ) by {
                    if x < before_ops.len() {
                        assert(ops_view(updates@)[x] == before_ops[x]);
                    }
                }
            }
        } else if choice == 1 {
            let idx = rand_below(avail_del.len());
            let target = avail_del[idx];
            updates.push(UpdateOperation::EdgeDeletion(target));
            let replaced = remove_edges_by_endpoints(&current_edges, target.from, target.to);
            current_edges = replaced;
            proof {
                assert(ops_view(updates@) =~= before_ops.push(OpView::EdgeDeletion(target)));
                lemma_legal_snoc(ist, before_ops, OpView::EdgeDeletion(target));
                lemma_apply_snoc(ist, before_ops, OpView::EdgeDeletion(target));
                assert(ops_view(updates@).drop_last() =~= before_ops);
                assert(ops_view(updates@).last() == OpView::EdgeDeletion(target));
                assert(count_mutations(ops_view(updates@)) == upd + 1);
                assert(op_in_universe(OpView::EdgeDeletion(target), vc@, instance@.terminals));
                assert forall|x: int|
                    0 <= x < ops_view(updates@).len() implies op_in_universe(
                    #[trigger] ops_view(updates@)[x],
                    vc@,
                    instance@.terminals,
                ) by {
                    if x < before_ops.len() {
                        assert(ops_view(updates@)[x] == before_ops[x]);
                    }
                }
            }
        } else if choice == 2 {
            let idx = rand_below(avail_act.len());
            let target = avail_act[idx];
            updates.push(UpdateOperation::TerminalActivation(target));
            current_terminals.push(target);
            proof {
                assert(ops_view(updates@) =~= before_ops.push(OpView::TerminalActivation(target)));
                lemma_legal_snoc(ist, before_ops, OpView::TerminalActivation(target));
                lemma_apply_snoc(ist, before_ops, OpView::TerminalActivation(target));
                assert(ops_view(updates@).drop_last() =~= before_ops);
                assert(ops_view(updates@).last() == OpView::TerminalActivation(target));
                assert(count_mutations(ops_view(updates@)) == upd + 1);
                assert(op_in_universe(OpView::TerminalActivation(target), vc@, instance@.terminals));
                assert forall|x: int|
                    0 <= x < ops_view(updates@).len() implies op_in_universe(
                    #[trigger] ops_view(updates@)[x],
                    vc@,
                    instance@.terminals,
                ) by {
                    if x < before_ops.len() {
                        assert(ops_view(updates@)[x] == before_ops[x]);
                    }
                }
            }
        } else {
            let idx = rand_below(avail_dea.len());
            let target = avail_dea[idx];
            updates.push(UpdateOperation::TerminalDeactivation(target));
            let replaced = remove_terminal(&current_terminals, target);
            current_terminals = replaced;
            proof {
                assert(ops_view(updates@) =~= before_ops.push(
                    OpView::TerminalDeactivation(target),
                ));
                lemma_legal_snoc(ist, before_ops, OpView::TerminalDeactivation(target));
                lemma_apply_snoc(ist, before_ops, OpView::TerminalDeactivation(target));
                assert(ops_view(updates@).drop_last() =~= before_ops);
                assert(ops_view(updates@).last() == OpView::TerminalDeactivation(target));
                assert(count_mutations(ops_view(updates@)) == upd + 1);
                assert(op_in_universe(OpView::TerminalDeactivation(target), vc@, instance@.terminals));
                assert forall|x: int|
                    0 <= x < ops_view(updates@).len() implies op_in_universe(
                    #[trigger] ops_view(updates@)[x],
                    vc@,
                    instance@.terminals,
                ) by {
                    if x < before_ops.len() {
                        assert(ops_view(updates@)[x] == before_ops[x]);
                    }
                }
            }
        }
        // Snapshot the new state with the configured probability.
        if rand_ratio(query_num, query_den) {
            let ghost mid_ops = ops_view(updates@);
            let snapshot = SteinerInstance::new(
                instance.num_nodes,
                clone_edges(&current_edges),
                clone_vertices(&current_terminals),
            );
            updates.push(UpdateOperation::Query(snapshot));
            proof {
                assert(ops_view(updates@) =~= mid_ops.push(OpView::Query(snapshot@)));
                lemma_legal_snoc(ist, mid_ops, OpView::Query(snapshot@));
                lemma_apply_snoc(ist, mid_ops, OpView::Query(snapshot@));
                assert(ops_view(updates@).drop_last() =~= mid_ops);
                assert(ops_view(updates@).last() == OpView::Query(snapshot@));
                assert(count_mutations(ops_view(updates@)) == count_mutations(mid_ops));
                assert forall|x: int|
                    0 <= x < ops_view(updates@).len() implies op_in_universe(
                    #[trigger] ops_view(updates@)[x],
                    vc@,
                    instance@.terminals,
                ) by {
                    if x < mid_ops.len() {
                        assert(ops_view(updates@)[x] == mid_ops[x]);
                    }
                }
            }
        }
        upd = upd + 1;
    }
    // Ensure that any full sequence ends with a query.
    let needs_query: bool;
    if updates.len() == 0 {
        needs_query = true;
    } else {
        let last: &UpdateOperation = &updates[updates.len() - 1];
        needs_query = !matches!(last, UpdateOperation::Query(_));
    }
    if needs_query {
        let ghost end_ops = ops_view(updates@);
        let snapshot = SteinerInstance::new(
            instance.num_nodes,
            clone_edges(&current_edges),
            clone_vertices(&current_terminals),
        );
        updates.push(UpdateOperation::Query(snapshot));
        proof {
            assert(ops_view(updates@) =~= end_ops.push(OpView::Query(snapshot@)));
            lemma_legal_snoc(ist, end_ops, OpView::Query(snapshot@));
            lemma_apply_snoc(ist, end_ops, OpView::Query(snapshot@));
            assert(ops_view(updates@).drop_last() =~= end_ops);
            assert(ops_view(updates@).last() == OpView::Query(snapshot@));
            assert forall|x: int|
                0 <= x < ops_view(updates@).len() implies op_in_universe(
                #[trigger] ops_view(updates@)[x],
                vc@,
                instance@.terminals,
            ) by {
                if x < end_ops.len() {
                    assert(ops_view(updates@)[x] == end_ops[x]);
                }
            }
        }
    } else {
        proof {
            assert(ops_view(updates@).last() == updates@[updates@.len() - 1]@);
        }
    }
    Ok(updates)
}

} // verus!
