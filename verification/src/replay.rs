//! Replaying a persisted update sequence: re-parsing the update log, re-
//! attaching query snapshots in order, and yielding the operations one at a
//! time through a resettable cursor.
use vstd::prelude::*;
use vstd::string::StrSliceExecFns;
use crate::text::{lines_of, spec_starts_with, starts_with_str, split_lines};
use crate::parser::{Parser, spec_parse_stp};
use crate::updates::{UpdateOperation, OpView, ops_view, spec_parse_update};
use crate::{SteinError, SteinerInstance};

verus! {

/// The largest vertex identifier an operation touches through an edge.
pub open spec fn spec_max_vertex_op(op: OpView) -> usize {
    match op {
        OpView::EdgeInsertion(e) => if e.from >= e.to {
            e.from
        } else {
            e.to
        },
        OpView::EdgeDeletion(e) => if e.from >= e.to {
            e.from
        } else {
            e.to
        },
        _ => 0,
    }
}

/// The largest vertex identifier any edge operation in `ops` touches.
pub open spec fn spec_max_vertex(ops: Seq<OpView>) -> usize
    decreases ops.len(),
{
    if ops.len() == 0 {
        0
    } else {
        let rest = spec_max_vertex(ops.drop_last());
        if spec_max_vertex_op(ops.last()) >= rest {
            spec_max_vertex_op(ops.last())
        } else {
            rest
        }
    }
}

/// What loading an update log against a list of snapshot documents yields:
/// the operations in order, each `Q` line replaced by a query carrying the
/// parse of the next unused snapshot, with `SECTION UPDATES` header lines
/// skipped.  Fails on a malformed line, or on a `Q` line once the snapshots
/// are exhausted.
pub open spec fn spec_replay(lines: Seq<Seq<char>>, snaps: Seq<Seq<char>>, q: nat) -> Result<
    Seq<OpView>,
    SteinError,
>
    decreases lines.len(),
{
    if lines.len() == 0 {
        Ok(Seq::<OpView>::empty())
    } else if spec_starts_with(lines[0], "SECTION UPDATES"@) {
        spec_replay(lines.drop_first(), snaps, q)
    } else {
        match spec_parse_update(lines[0]) {
            None => Err(SteinError::MalformedLine),
            Some(op) => match op {
                OpView::Query(_) => {
                    if q < snaps.len() {
                        match spec_replay(lines.drop_first(), snaps, q + 1) {
                            Ok(rest) => Ok(
                                seq![OpView::Query(spec_parse_stp(snaps[q as int]))] + rest,
                            ),
                            Err(e) => Err(e),
                        }
                    } else {
                        Err(SteinError::MissingSnapshot)
                    }
                },
                _ => {
                    match spec_replay(lines.drop_first(), snaps, q) {
                        Ok(rest) => Ok(seq![op] + rest),
                        Err(e) => Err(e),
                    }
                },
            },
        }
    }
}

/// A loaded dynamic workload: the full operation sequence and a cursor over
/// it.
pub struct DynamicInstance {
    pub num_vertices: usize,
    pub target_value: usize,
    pub update_sequence: Vec<UpdateOperation>,
    pub performed_steps: usize,
}

impl DynamicInstance {
    /// The operations not yet yielded by the cursor.
    pub open spec fn remaining_ops(self) -> Seq<OpView> {
        ops_view(self.update_sequence@).skip(self.performed_steps as int)
    }

    /// The state the cursor returns to after a reset.
    pub open spec fn after_reset(self) -> DynamicInstance {
        DynamicInstance { performed_steps: 0, ..self }
    }

    /// Loads a persisted update log, re-attaching the given snapshot
    /// documents to the `Q` references in order.
    pub fn from_str(
        update_specs: String,
        target_value: usize,
        query_instance_specs: &Vec<String>,
    ) -> (r: Result<DynamicInstance, SteinError>)
        ensures
            match r {
                Ok(d) => {
                    &&& spec_replay(
                        lines_of(update_specs@),
                        query_instance_specs.deep_view(),
                        0,
                    ) == Ok::<Seq<OpView>, SteinError>(ops_view(d.update_sequence@))
                    &&& d.num_vertices == spec_max_vertex(ops_view(d.update_sequence@))
                    &&& d.target_value == target_value
                    &&& d.performed_steps == 0
                },
                Err(e) => spec_replay(lines_of(update_specs@), query_instance_specs.deep_view(), 0)
                    == Err::<Seq<OpView>, SteinError>(e),
            },
    {
        let ghost snaps = query_instance_specs.deep_view();
        let mut update_sequence: Vec<UpdateOperation> = Vec::new();
        let mut num_queries: usize = 0;
        let text: &str = update_specs.as_str();
        let lines = split_lines(text);
        let ghost all = lines.deep_view();
        proof {
            assert(text@ == update_specs@);
            assert(all == lines_of(update_specs@));
            assert(all.skip(0) =~= all);
        }
        let mut i: usize = 0;
        while i < lines.len()
            invariant
                lines.deep_view() == all,
                all == lines_of(update_specs@),
                all.len() == lines@.len(),
                snaps == query_instance_specs.deep_view(),
                i <= lines@.len(),
                num_queries <= snaps.len(),
                spec_replay(all, snaps, 0) == (match spec_replay(
                    all.skip(i as int),
                    snaps,
                    num_queries as nat,
                ) {
                    Ok(rest) => Ok::<Seq<OpView>, SteinError>(
                        ops_view(update_sequence@) + rest,
                    ),
                    Err(e) => Err::<Seq<OpView>, SteinError>(e),
                }),
            decreases lines@.len() - i,
        {
            proof {
                assert(all[i as int] == lines@[i as int]@);
                assert(all.skip(i as int).drop_first() =~= all.skip(i + 1));
                assert(all.skip(i as int)[0] == all[i as int]);
            }
            let line = lines[i];
            if starts_with_str(line, "SECTION UPDATES") {
                i = i + 1;
                continue ;
            }
            let next_update = match UpdateOperation::from_str(line) {
                Ok(op) => op,
                Err(_) => {
                    proof {
                        assert(spec_replay(all.skip(i as int), snaps, num_queries as nat)
                            == Err::<Seq<OpView>, SteinError>(SteinError::MalformedLine));
                    }
                    return Err(SteinError::MalformedLine);
                },
            };
            let is_query = matches!(next_update, UpdateOperation::Query(_));
            if is_query {
                if num_queries >= query_instance_specs.len() {
                    proof {
                        assert(snaps.len() == query_instance_specs@.len());
                        assert(spec_replay(all.skip(i as int), snaps, num_queries as nat)
                            == Err::<Seq<OpView>, SteinError>(SteinError::MissingSnapshot));
                    }
                    return Err(SteinError::MissingSnapshot);
                }
                let snap_text: &String = &query_instance_specs[num_queries];
                let mut snap_parser = Parser::default();
                let query_instance = snap_parser.parse_stp(snap_text.as_str());
                proof {
                    assert(snaps.len() == query_instance_specs@.len());
                    assert(snaps[num_queries as int] == query_instance_specs@[num_queries as int]@);
                }
                let ghost before = ops_view(update_sequence@);
                update_sequence.push(UpdateOperation::Query(query_instance));
                num_queries = num_queries + 1;
                proof {
                    assert(ops_view(update_sequence@) =~= before.push(
                        OpView::Query(query_instance@),
                    ));
                    let tail = spec_replay(all.skip(i + 1), snaps, num_queries as nat);
                    if tail is Ok {
                        let rest = tail.unwrap();
                        assert(spec_replay(all.skip(i as int), snaps, (num_queries - 1) as nat)
                            == Ok::<Seq<OpView>, SteinError>(
                            seq![OpView::Query(query_instance@)] + rest,
                        ));
                        assert(before.push(OpView::Query(query_instance@)) + rest =~= before + (
                        seq![OpView::Query(query_instance@)] + rest));
                    } else {
                        assert(spec_replay(all.skip(i as int), snaps, (num_queries - 1) as nat)
                            == tail);
                    }
                }
            } else {
                let ghost before = ops_view(update_sequence@);
                let ghost opv = next_update@;
                update_sequence.push(next_update);
                proof {
                    assert(ops_view(update_sequence@) =~= before.push(opv));
                    let tail = spec_replay(all.skip(i + 1), snaps, num_queries as nat);
                    if tail is Ok {
                        let rest = tail.unwrap();
                        assert(spec_replay(all.skip(i as int), snaps, num_queries as nat)
                            == Ok::<Seq<OpView>, SteinError>(seq![opv] + rest));
                        assert(before.push(opv) + rest =~= before + (seq![opv] + rest));
                    } else {
                        assert(spec_replay(all.skip(i as int), snaps, num_queries as nat) == tail);
                    }
                }
            }
            i = i + 1;
        }
        proof {
            assert(all.skip(i as int) =~= Seq::<Seq<char>>::empty());
            assert(ops_view(update_sequence@) + Seq::<OpView>::empty() =~= ops_view(
                update_sequence@,
            ));
        }
        let num_vertices = Self::vertices_from_updates(&update_sequence);
        Ok(
            DynamicInstance {
                num_vertices,
                target_value,
                update_sequence,
                performed_steps: 0,
            },
        )
    }

    /// Rewinds the cursor to the start without re-parsing anything.
    pub fn reset(&mut self)
        ensures
            *final(self) == old(self).after_reset(),
    {
        self.performed_steps = 0;
    }

    /// Yields the next operation in original order, or `None` once the
    /// sequence is exhausted.
    pub fn get_next(&mut self) -> (r: Option<UpdateOperation>)
        ensures
            final(self).update_sequence == old(self).update_sequence,
            final(self).num_vertices == old(self).num_vertices,
            final(self).target_value == old(self).target_value,
            old(self).performed_steps < old(self).update_sequence@.len() ==> {
                &&& final(self).performed_steps == old(self).performed_steps + 1
                &&& r is Some
                &&& r.unwrap()@ == ops_view(old(self).update_sequence@)[
                    old(self).performed_steps as int
                ]
            },
            old(self).performed_steps >= old(self).update_sequence@.len() ==> {
                &&& final(self).performed_steps == old(self).performed_steps
                &&& r is None
            },
    {
        if self.performed_steps < self.update_sequence.len() {
            let op: &UpdateOperation = &self.update_sequence[self.performed_steps];
            let result = Some(op.clone());
            self.performed_steps = self.performed_steps + 1;
            return result;
        }
        None
    }

    /// The largest vertex identifier any edge operation mentions; zero when
    /// no operation touches an edge.
    fn vertices_from_updates(update_sequence: &Vec<UpdateOperation>) -> (r: usize)
        ensures
            r == spec_max_vertex(ops_view(update_sequence@)),
    {
        let ghost all = ops_view(update_sequence@);
        let mut m: usize = 0;
        let mut i: usize = 0;
        proof {
            assert(all.take(0) =~= Seq::<OpView>::empty());
        }
        while i < update_sequence.len()
            invariant
                all == ops_view(update_sequence@),
                i <= update_sequence@.len(),
                m == spec_max_vertex(all.take(i as int)),
            decreases update_sequence@.len() - i,
        {
            proof {
                assert(all.take(i + 1).drop_last() =~= all.take(i as int));
                assert(all.take(i + 1).last() == all[i as int]);
                assert(all[i as int] == update_sequence@[i as int]@);
            }
            let v = Self::max_vertex_of(&update_sequence[i]);
            if v > m {
                m = v;
            }
            i = i + 1;
        }
        proof {
            assert(all.take(update_sequence@.len() as int) =~= all);
        }
        m
    }

    /// The largest vertex identifier one operation touches through an edge.
    fn max_vertex_of(op: &UpdateOperation) -> (r: usize)
        ensures
            r == spec_max_vertex_op(op@),
    {
        match op {
            UpdateOperation::EdgeDeletion(e) | UpdateOperation::EdgeInsertion(e) => {
                if e.from >= e.to {
                    e.from
                } else {
                    e.to
                }
            },
            _ => 0,
        }
    }
}

/// Replay is deterministic and restartable: after a reset, the stream of
/// operations the cursor yields is exactly the loaded update sequence, so two
/// passes over the same loaded sequence, with a reset between them, yield
/// identical operations in identical order.
pub proof fn lemma_replay_idempotent(d1: DynamicInstance, d2: DynamicInstance)
    requires
        d1.update_sequence@ == d2.update_sequence@,
    ensures
        d1.after_reset().remaining_ops() == d2.after_reset().remaining_ops(),
        d1.after_reset().remaining_ops() == ops_view(d1.update_sequence@),
{
    assert(ops_view(d1.update_sequence@).skip(0) =~= ops_view(d1.update_sequence@));
    assert(ops_view(d2.update_sequence@).skip(0) =~= ops_view(d2.update_sequence@));
}

} // verus!
