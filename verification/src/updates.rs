//! Update operations: the atomic mutations and snapshot queries that form a
//! dynamic workload, their one-line text form, and the export of a whole
//! sequence into the update log plus its snapshot artifacts.
use vstd::prelude::*;
use vstd::string::StrSliceExecFns;
use vstd::string::StringExecFns;
use crate::text::{dec_digits, push_usize, push_u64, tok_at, nth_token, parse_usize_token,
    str_eq_str, spec_parse_usize};
use crate::export::render_chars;
use crate::{Edge, SteinerInstance, InstanceView};

verus! {

/// The mathematical value of an update operation.
pub ghost enum OpView {
    EdgeInsertion(Edge),
    EdgeDeletion(Edge),
    VertexInsertion,
    VertexDeletion(usize),
    TerminalActivation(usize),
    TerminalDeactivation(usize),
    Query(InstanceView),
}

/// One atomic mutation of the dynamic graph, or a snapshot query.
///
/// A `Query` carries the full instance state after all operations applied so
/// far.
#[derive(Debug)]
pub enum UpdateOperation {
    EdgeInsertion(Edge),
    EdgeDeletion(Edge),
    VertexInsertion,
    VertexDeletion(usize),
    TerminalActivation(usize),
    TerminalDeactivation(usize),
    Query(SteinerInstance),
}

impl View for UpdateOperation {
    type V = OpView;

    open spec fn view(&self) -> OpView {
        match self {
            UpdateOperation::EdgeInsertion(e) => OpView::EdgeInsertion(*e),
            UpdateOperation::EdgeDeletion(e) => OpView::EdgeDeletion(*e),
            UpdateOperation::VertexInsertion => OpView::VertexInsertion,
            UpdateOperation::VertexDeletion(x) => OpView::VertexDeletion(*x),
            UpdateOperation::TerminalActivation(x) => OpView::TerminalActivation(*x),
            UpdateOperation::TerminalDeactivation(x) => OpView::TerminalDeactivation(*x),
            UpdateOperation::Query(inst) => OpView::Query(inst@),
        }
    }
}

impl Clone for UpdateOperation {
    fn clone(&self) -> (r: Self)
        ensures
            r@ == self@,
    {
        match self {
            UpdateOperation::EdgeInsertion(e) => UpdateOperation::EdgeInsertion(*e),
            UpdateOperation::EdgeDeletion(e) => UpdateOperation::EdgeDeletion(*e),
            UpdateOperation::VertexInsertion => UpdateOperation::VertexInsertion,
            UpdateOperation::VertexDeletion(x) => UpdateOperation::VertexDeletion(*x),
            UpdateOperation::TerminalActivation(x) => UpdateOperation::TerminalActivation(*x),
            UpdateOperation::TerminalDeactivation(x) => UpdateOperation::TerminalDeactivation(*x),
            UpdateOperation::Query(inst) => UpdateOperation::Query(inst.clone()),
        }
    }
}

/// The views of a list of operations.
pub open spec fn ops_view(v: Seq<UpdateOperation>) -> Seq<OpView> {
    v.map_values(|op: UpdateOperation| op@)
}

/// The one-line text form of an operation; a query renders as the full
/// snapshot document.
pub open spec fn op_line(op: OpView) -> Seq<char> {
    match op {
        OpView::Query(v) => render_chars(v),
        OpView::EdgeInsertion(e) => "E I "@ + dec_digits(e.from as nat) + " "@ + dec_digits(
            e.to as nat,
        ) + " "@ + dec_digits(e.cost as nat),
        OpView::EdgeDeletion(e) => "E D "@ + dec_digits(e.from as nat) + " "@ + dec_digits(
            e.to as nat,
        ) + " "@ + dec_digits(e.cost as nat),
        OpView::VertexInsertion => "V I"@,
        OpView::VertexDeletion(x) => "V D "@ + dec_digits(x as nat),
        OpView::TerminalActivation(x) => "T A "@ + dec_digits(x as nat),
        OpView::TerminalDeactivation(x) => "T D "@ + dec_digits(x as nat),
    }
}

/// What parsing one update-log line yields: `None` when the line is empty,
/// its tag is unrecognized, a field is missing, or a number does not parse.
/// A `Q` line yields a query placeholder carrying an empty instance.
pub open spec fn spec_parse_update(s: Seq<char>) -> Option<OpView> {
    if s.len() == 0 {
        None
    } else if s[0] == 'T' {
        match tok_at(s, 1) {
            None => None,
            Some(a) => match tok_at(s, 2) {
                None => None,
                Some(t) => match spec_parse_usize(t) {
                    None => None,
                    Some(x) => if a == "A"@ {
                        Some(OpView::TerminalActivation(x))
                    } else {
                        Some(OpView::TerminalDeactivation(x))
                    },
                },
            },
        }
    } else if s[0] == 'E' {
        match tok_at(s, 1) {
            None => None,
            Some(a) => match tok_at(s, 2) {
                None => None,
                Some(ft) => match spec_parse_usize(ft) {
                    None => None,
                    Some(from) => match tok_at(s, 3) {
                        None => None,
                        Some(tt) => match spec_parse_usize(tt) {
                            None => None,
                            Some(to) => match tok_at(s, 4) {
                                None => None,
                                Some(ct) => match spec_parse_usize(ct) {
                                    None => None,
                                    Some(cost) => {
                                        let e = Edge { from, to, cost: cost as u64 };
                                        if a == "I"@ {
                                            Some(OpView::EdgeInsertion(e))
                                        } else {
                                            Some(OpView::EdgeDeletion(e))
                                        }
                                    },
                                },
                            },
                        },
                    },
                },
            },
        }
    } else if s[0] == 'V' {
        match tok_at(s, 1) {
            None => None,
            Some(a) => if a == "I"@ {
                Some(OpView::VertexInsertion)
            } else {
                match tok_at(s, 2) {
                    None => None,
                    Some(t) => match spec_parse_usize(t) {
                        None => None,
                        Some(x) => Some(OpView::VertexDeletion(x)),
                    },
                }
            },
        }
    } else if s[0] == 'Q' {
        Some(OpView::Query(InstanceView::empty()))
    } else {
        None
    }
}

/// A parse of an update-log line failed.
#[derive(Debug, Clone, Copy, PartialEq, Eq, Structural)]
pub struct ParseUpdateError;

impl UpdateOperation {
    /// Renders the operation on one line (a query as its whole snapshot
    /// document).
    pub fn to_string(&self) -> (r: String)
        ensures
            r@ == op_line(self@),
    {
        match self {
            UpdateOperation::Query(inst) => inst.to_string(),
            UpdateOperation::EdgeInsertion(e) => {
                let mut out = String::new();
                out.append("E I ");
                push_usize(&mut out, e.from);
                out.append(" ");
                push_usize(&mut out, e.to);
                out.append(" ");
                push_u64(&mut out, e.cost);
                proof {
                    assert(out@ =~= op_line(self@));
                }
                out
            },
            UpdateOperation::EdgeDeletion(e) => {
                let mut out = String::new();
                out.append("E D ");
                push_usize(&mut out, e.from);
                out.append(" ");
                push_usize(&mut out, e.to);
                out.append(" ");
                push_u64(&mut out, e.cost);
                proof {
                    assert(out@ =~= op_line(self@));
                }
                out
            },
            UpdateOperation::VertexInsertion => "V I".to_owned(),
            UpdateOperation::VertexDeletion(x) => {
                let mut out = String::new();
                out.append("V D ");
                push_usize(&mut out, *x);
                proof {
                    assert(out@ =~= op_line(self@));
                }
                out
            },
            UpdateOperation::TerminalActivation(x) => {
                let mut out = String::new();
                out.append("T A ");
                push_usize(&mut out, *x);
                proof {
                    assert(out@ =~= op_line(self@));
                }
                out
            },
            UpdateOperation::TerminalDeactivation(x) => {
                let mut out = String::new();
                out.append("T D ");
                push_usize(&mut out, *x);
                proof {
                    assert(out@ =~= op_line(self@));
                }
                out
            },
        }
    }

    /// Parses one update-log line; a `Q` line yields a query placeholder
    /// carrying an empty instance, to be filled from its snapshot by the
    /// replayer.
    pub fn from_str(s: &str) -> (r: Result<UpdateOperation, ParseUpdateError>)
        ensures
            match r {
                Ok(op) => spec_parse_update(s@) == Some(op@),
                Err(_) => spec_parse_update(s@) is None,
            },
    {
        let n = s.unicode_len();
        if n == 0 {
            return Err(ParseUpdateError);
        }
        let c0 = s.get_char(0);
        if c0 == 'T' {
            let action = match nth_token(s, 1) {
                Some(a) => a,
                None => {
                    return Err(ParseUpdateError);
                },
            };
            let target = match nth_token(s, 2) {
                Some(t) => t,
                None => {
                    return Err(ParseUpdateError);
                },
            };
            let target = match parse_usize_token(target) {
                Some(x) => x,
                None => {
                    return Err(ParseUpdateError);
                },
            };
            if str_eq_str(action, "A") {
                Ok(UpdateOperation::TerminalActivation(target))
            } else {
                Ok(UpdateOperation::TerminalDeactivation(target))
            }
        } else if c0 == 'E' {
            let action = match nth_token(s, 1) {
                Some(a) => a,
                None => {
                    return Err(ParseUpdateError);
                },
            };
            let from_vert = match nth_token(s, 2) {
                Some(t) => match parse_usize_token(t) {
                    Some(x) => x,
                    None => {
                        return Err(ParseUpdateError);
                    },
                },
                None => {
                    return Err(ParseUpdateError);
                },
            };
            let to_vert = match nth_token(s, 3) {
                Some(t) => match parse_usize_token(t) {
                    Some(x) => x,
                    None => {
                        return Err(ParseUpdateError);
                    },
                },
                None => {
                    return Err(ParseUpdateError);
                },
            };
            let cost = match nth_token(s, 4) {
                Some(t) => match parse_usize_token(t) {
                    Some(x) => x,
                    None => {
                        return Err(ParseUpdateError);
                    },
                },
                None => {
                    return Err(ParseUpdateError);
                },
            };
            let target = Edge { from: from_vert, to: to_vert, cost: cost as u64 };
            if str_eq_str(action, "I") {
                Ok(UpdateOperation::EdgeInsertion(target))
            } else {
                Ok(UpdateOperation::EdgeDeletion(target))
            }
        } else if c0 == 'V' {
            let action = match nth_token(s, 1) {
                Some(a) => a,
                None => {
                    return Err(ParseUpdateError);
                },
            };
            if str_eq_str(action, "I") {
                Ok(UpdateOperation::VertexInsertion)
            } else {
                let vertex = match nth_token(s, 2) {
                    Some(t) => match parse_usize_token(t) {
                        Some(x) => x,
                        None => {
                            return Err(ParseUpdateError);
                        },
                    },
                    None => {
                        return Err(ParseUpdateError);
                    },
                };
                Ok(UpdateOperation::VertexDeletion(vertex))
            }
        } else if c0 == 'Q' {
            Ok(UpdateOperation::Query(SteinerInstance::default()))
        } else {
            Err(ParseUpdateError)
        }
    }
}

/// How many queries a sequence of operations contains.
pub open spec fn count_queries(ops: Seq<OpView>) -> nat
    decreases ops.len(),
{
    if ops.len() == 0 {
        0
    } else {
        (match ops.last() {
            OpView::Query(_) => count_queries(ops.drop_last()) + 1,
            _ => count_queries(ops.drop_last()),
        }) as nat
    }
}

/// One entry of the main update log: a query becomes a reference line naming
/// its (1-based) snapshot number, anything else its own line.
pub open spec fn log_entry(op: OpView, qno: nat) -> Seq<char> {
    match op {
        OpView::Query(_) => "Q "@ + dec_digits(qno) + seq!['\n'],
        _ => op_line(op) + seq!['\n'],
    }
}

/// The body of the main update log for `ops`, with the first query numbered
/// `q`.
pub open spec fn log_body(ops: Seq<OpView>, q: nat) -> Seq<char>
    decreases ops.len(),
{
    if ops.len() == 0 {
        Seq::<char>::empty()
    } else {
        log_body(ops.drop_last(), q) + log_entry(ops.last(), q + count_queries(ops.drop_last()))
    }
}

/// The snapshot documents of the queries in `ops`, in order.
pub open spec fn query_snaps(ops: Seq<OpView>) -> Seq<Seq<char>>
    decreases ops.len(),
{
    if ops.len() == 0 {
        Seq::<Seq<char>>::empty()
    } else {
        match ops.last() {
            OpView::Query(v) => query_snaps(ops.drop_last()).push(render_chars(v)),
            _ => query_snaps(ops.drop_last()),
        }
    }
}

/// Splits a sequence of operations into the two persisted artifacts: the main
/// update log (one line per operation, queries by reference number) and one
/// snapshot document per query, in emission order.
pub fn export_update_sequence(updates: Vec<UpdateOperation>) -> (r: (String, Vec<String>))
    requires
        updates@.len() < usize::MAX,
    ensures
        r.0@ == "SECTION UPDATES"@ + seq!['\n'] + log_body(ops_view(updates@), 1),
        r.1.deep_view() == query_snaps(ops_view(updates@)),
{
    let ghost all = ops_view(updates@);
    let mut main_output = String::new();
    main_output.append("SECTION UPDATES");
    main_output.append("\n");
    proof {
        reveal_strlit("\n");
        assert(main_output@ =~= "SECTION UPDATES"@ + seq!['\n']);
        assert(all.take(0) =~= Seq::<OpView>::empty());
    }
    let mut query_instances: Vec<String> = Vec::new();
    let mut query_no: usize = 1;
    let mut i: usize = 0;
    while i < updates.len()
        invariant
            updates@.len() < usize::MAX,
            all == ops_view(updates@),
            i <= updates@.len(),
            query_no == 1 + count_queries(all.take(i as int)),
            query_no <= 1 + i,
            main_output@ == "SECTION UPDATES"@ + seq!['\n'] + log_body(all.take(i as int), 1),
            query_instances.deep_view() == query_snaps(all.take(i as int)),
        decreases updates@.len() - i,
    {
        proof {
            assert(all.take(i + 1).drop_last() =~= all.take(i as int));
            assert(all.take(i + 1).last() == all[i as int]);
            assert(all[i as int] == updates@[i as int]@);
        }
        let op: &UpdateOperation = &updates[i];
        match op {
            UpdateOperation::Query(_) => {
                main_output.append("Q ");
                push_usize(&mut main_output, query_no);
                main_output.append("\n");
                let ghost before = query_instances.deep_view();
                let snap = op.to_string();
                query_instances.push(snap);
                proof {
                    reveal_strlit("\n");
                    assert(main_output@ =~= "SECTION UPDATES"@ + seq!['\n'] + log_body(
                        all.take(i + 1),
                        1,
                    ));
                    assert(query_instances.deep_view() =~= before.push(snap@));
                    assert(query_instances.deep_view() =~= query_snaps(all.take(i + 1)));
                }
                query_no = query_no + 1;
            },
            _ => {
                let line = op.to_string();
                main_output.append(line.as_str());
                main_output.append("\n");
                proof {
                    reveal_strlit("\n");
                    assert(main_output@ =~= "SECTION UPDATES"@ + seq!['\n'] + log_body(
                        all.take(i + 1),
                        1,
                    ));
                    assert(query_instances.deep_view() == query_snaps(all.take(i + 1)));
                }
            },
        }
        i = i + 1;
    }
    proof {
        assert(all.take(updates@.len() as int) =~= all);
    }
    (main_output, query_instances)
}

} // verus!
