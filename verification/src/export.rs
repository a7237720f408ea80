//! Rendering an instance back into the static text format.
use vstd::prelude::*;
use vstd::string::StringExecFns;
use crate::text::{
    dec_digits, push_usize, push_u64, trim_spec, tokens_of, lines_of, split_ch, sep_free,
    all_digits, is_space, is_digit, spec_starts_with, spec_parse_usize, lemma_split_prefix,
    lemma_split_sepfree, lemma_sep_free_app, lemma_dec_digits, lemma_parse_of_dec,
};
use crate::parser::{
    Section, spec_parse_stp, spec_parse_lines, spec_move_section, spec_line_effect,
    spec_graph_line, spec_terminals_line, spec_nat_arg, spec_parse_edge,
};
use crate::{Edge, SteinerInstance, InstanceView};

verus! {

/// The one-line rendering of an edge.
pub open spec fn edge_line(e: Edge) -> Seq<char> {
    "E "@ + dec_digits(e.from as nat) + " "@ + dec_digits(e.to as nat) + " "@ + dec_digits(
        e.cost as nat,
    )
}

/// The one-line rendering of a terminal.
pub open spec fn terminal_line(t: usize) -> Seq<char> {
    "T "@ + dec_digits(t as nat)
}

pub open spec fn edge_lines(es: Seq<Edge>) -> Seq<Seq<char>> {
    es.map_values(|e: Edge| edge_line(e))
}

pub open spec fn terminal_lines(ts: Seq<usize>) -> Seq<Seq<char>> {
    ts.map_values(|t: usize| terminal_line(t))
}

/// The rendered document, line by line, in emission order.
pub open spec fn render_lines(v: InstanceView) -> Seq<Seq<char>> {
    seq!["SECTION Graph"@, "Nodes "@ + dec_digits(v.num_nodes as nat), "Edges "@ + dec_digits(
        v.num_edges as nat,
    )] + edge_lines(v.edges) + seq![
        "END"@,
        Seq::<char>::empty(),
        "SECTION Terminals"@,
        "Terminals "@ + dec_digits(v.num_terminals as nat),
    ] + terminal_lines(v.terminals) + seq!["END"@, Seq::<char>::empty(), "EOF"@]
}

/// A list of lines as one character sequence, each line followed by a newline.
pub open spec fn terminated(lines: Seq<Seq<char>>) -> Seq<char>
    decreases lines.len(),
{
    if lines.len() == 0 {
        Seq::<char>::empty()
    } else {
        lines[0] + seq!['\n'] + terminated(lines.drop_first())
    }
}

/// The rendered document as one character sequence.
pub open spec fn render_chars(v: InstanceView) -> Seq<char> {
    terminated(render_lines(v))
}

pub proof fn lemma_terminated_app(a: Seq<Seq<char>>, b: Seq<Seq<char>>)
    ensures
        terminated(a + b) == terminated(a) + terminated(b),
    decreases a.len(),
{
    if a.len() == 0 {
        assert(a + b =~= b);
        assert(terminated(a) + terminated(b) =~= terminated(b));
    } else {
        lemma_terminated_app(a.drop_first(), b);
        assert((a + b).drop_first() =~= a.drop_first() + b);
        assert((a + b)[0] == a[0]);
        assert(a[0] + seq!['\n'] + (terminated(a.drop_first()) + terminated(b)) =~= (a[0]
            + seq!['\n'] + terminated(a.drop_first())) + terminated(b));
    }
}

pub proof fn lemma_terminated_one(l: Seq<char>)
    ensures
        terminated(seq![l]) == l + seq!['\n'],
{
    assert(seq![l].drop_first() =~= Seq::<Seq<char>>::empty());
    assert(terminated(Seq::<Seq<char>>::empty()) == Seq::<char>::empty());
    assert(l + seq!['\n'] + Seq::<char>::empty() =~= l + seq!['\n']);
}

pub proof fn lemma_terminated_push(a: Seq<Seq<char>>, l: Seq<char>)
    ensures
        terminated(a.push(l)) == terminated(a) + l + seq!['\n'],
{
    assert(a.push(l) =~= a + seq![l]);
    lemma_terminated_app(a, seq![l]);
    lemma_terminated_one(l);
    assert(terminated(a) + (l + seq!['\n']) =~= terminated(a) + l + seq!['\n']);
}

impl SteinerInstance {
    /// Renders the instance in the static text format: the graph section with
    /// its counts and edge lines, then the terminals section, then `EOF`.
    pub fn to_string(&self) -> (r: String)
        ensures
            r@ == render_chars(self@),
    {
        let ghost v = self@;
        let mut output = String::new();
        output.append("SECTION Graph");
        output.append("\n");
        output.append("Nodes ");
        push_usize(&mut output, self.num_nodes);
        output.append("\n");
        output.append("Edges ");
        push_usize(&mut output, self.num_edges);
        output.append("\n");
        proof {
            reveal_strlit("\n");
            let head = seq!["SECTION Graph"@, "Nodes "@ + dec_digits(v.num_nodes as nat), "Edges "@
                + dec_digits(v.num_edges as nat)];
            lemma_terminated_push(seq!["SECTION Graph"@, "Nodes "@ + dec_digits(v.num_nodes as nat)],
                "Edges "@ + dec_digits(v.num_edges as nat));
            lemma_terminated_push(seq!["SECTION Graph"@], "Nodes "@ + dec_digits(v.num_nodes as nat));
            lemma_terminated_one("SECTION Graph"@);
            assert(seq!["SECTION Graph"@].push("Nodes "@ + dec_digits(v.num_nodes as nat)) =~= seq![
                "SECTION Graph"@,
                "Nodes "@ + dec_digits(v.num_nodes as nat),
            ]);
            assert(seq!["SECTION Graph"@, "Nodes "@ + dec_digits(v.num_nodes as nat)].push(
                "Edges "@ + dec_digits(v.num_edges as nat),
            ) =~= head);
            assert(output@ =~= terminated(head));
        }
        let mut i: usize = 0;
        while i < self.edges.len()
            invariant
                self@ == v,
                i <= self.edges.len(),
                output@ == terminated(
                    seq!["SECTION Graph"@, "Nodes "@ + dec_digits(v.num_nodes as nat), "Edges "@
                        + dec_digits(v.num_edges as nat)] + edge_lines(v.edges.take(i as int)),
                ),
            decreases self.edges.len() - i,
        {
            let e = self.edges[i];
            output.append("E ");
            push_usize(&mut output, e.from);
            output.append(" ");
            push_usize(&mut output, e.to);
            output.append(" ");
            push_u64(&mut output, e.cost);
            output.append("\n");
            proof {
                reveal_strlit("\n");
                let head = seq!["SECTION Graph"@, "Nodes "@ + dec_digits(v.num_nodes as nat),
                    "Edges "@ + dec_digits(v.num_edges as nat)];
                let done = head + edge_lines(v.edges.take(i as int));
                lemma_terminated_push(done, edge_line(v.edges[i as int]));
                assert(done.push(edge_line(v.edges[i as int])) =~= head + edge_lines(
                    v.edges.take(i + 1),
                ));
                assert(output@ =~= terminated(head + edge_lines(v.edges.take(i + 1))));
            }
            i = i + 1;
        }
        proof {
            assert(v.edges.take(v.edges.len() as int) =~= v.edges);
        }
        output.append("END");
        output.append("\n");
        output.append("\n");
        output.append("SECTION Terminals");
        output.append("\n");
        output.append("Terminals ");
        push_usize(&mut output, self.num_terminals);
        output.append("\n");
        proof {
            reveal_strlit("\n");
            let head = seq!["SECTION Graph"@, "Nodes "@ + dec_digits(v.num_nodes as nat), "Edges "@
                + dec_digits(v.num_edges as nat)] + edge_lines(v.edges);
            let mid = head + seq![
                "END"@,
                Seq::<char>::empty(),
                "SECTION Terminals"@,
                "Terminals "@ + dec_digits(v.num_terminals as nat),
            ];
            lemma_terminated_push(head, "END"@);
            lemma_terminated_push(head.push("END"@), Seq::<char>::empty());
            lemma_terminated_push(head.push("END"@).push(Seq::<char>::empty()),
                "SECTION Terminals"@);
            lemma_terminated_push(head.push("END"@).push(Seq::<char>::empty()).push(
                "SECTION Terminals"@,
            ), "Terminals "@ + dec_digits(v.num_terminals as nat));
            assert(head.push("END"@).push(Seq::<char>::empty()).push("SECTION Terminals"@).push(
                "Terminals "@ + dec_digits(v.num_terminals as nat),
            ) =~= mid);
            assert(output@ =~= terminated(mid));
        }
        let mut j: usize = 0;
        while j < self.terminals.len()
            invariant
                self@ == v,
                j <= self.terminals.len(),
                output@ == terminated(
                    seq!["SECTION Graph"@, "Nodes "@ + dec_digits(v.num_nodes as nat), "Edges "@
                        + dec_digits(v.num_edges as nat)] + edge_lines(v.edges) + seq![
                        "END"@,
                        Seq::<char>::empty(),
                        "SECTION Terminals"@,
                        "Terminals "@ + dec_digits(v.num_terminals as nat),
                    ] + terminal_lines(v.terminals.take(j as int)),
                ),
            decreases self.terminals.len() - j,
        {
            let t = self.terminals[j];
            output.append("T ");
            push_usize(&mut output, t);
            output.append("\n");
            proof {
                reveal_strlit("\n");
                let mid = seq!["SECTION Graph"@, "Nodes "@ + dec_digits(v.num_nodes as nat),
                    "Edges "@ + dec_digits(v.num_edges as nat)] + edge_lines(v.edges) + seq![
                    "END"@,
                    Seq::<char>::empty(),
                    "SECTION Terminals"@,
                    "Terminals "@ + dec_digits(v.num_terminals as nat),
                ];
                let done = mid + terminal_lines(v.terminals.take(j as int));
                lemma_terminated_push(done, terminal_line(v.terminals[j as int]));
                assert(done.push(terminal_line(v.terminals[j as int])) =~= mid + terminal_lines(
                    v.terminals.take(j + 1),
                ));
                assert(output@ =~= terminated(mid + terminal_lines(v.terminals.take(j + 1))));
            }
            j = j + 1;
        }
        proof {
            assert(v.terminals.take(v.terminals.len() as int) =~= v.terminals);
        }
        output.append("END");
        output.append("\n");
        output.append("\n");
        output.append("EOF");
        output.append("\n");
        proof {
            reveal_strlit("\n");
            let mid = seq!["SECTION Graph"@, "Nodes "@ + dec_digits(v.num_nodes as nat), "Edges "@
                + dec_digits(v.num_edges as nat)] + edge_lines(v.edges) + seq![
                "END"@,
                Seq::<char>::empty(),
                "SECTION Terminals"@,
                "Terminals "@ + dec_digits(v.num_terminals as nat),
            ] + terminal_lines(v.terminals);
            lemma_terminated_push(mid, "END"@);
            lemma_terminated_push(mid.push("END"@), Seq::<char>::empty());
            lemma_terminated_push(mid.push("END"@).push(Seq::<char>::empty()), "EOF"@);
            assert(mid.push("END"@).push(Seq::<char>::empty()).push("EOF"@) =~= render_lines(v));
            assert(output@ =~= terminated(render_lines(v)));
        }
        output
    }
}


// ---------------------------------------------------------------------------
// Round trip: parsing a rendered document recovers the instance
// ---------------------------------------------------------------------------

/// Digit strings contain no separators and no whitespace.
proof fn lemma_digits_plain(s: Seq<char>)
    requires
        all_digits(s),
    ensures
        sep_free(s, ' '),
        sep_free(s, '\n'),
        forall|i: int| 0 <= i < s.len() ==> !is_space(#[trigger] s[i]),
{
    assert(' ' as u32 == 32 && '\t' as u32 == 9 && '\r' as u32 == 13 && '\n' as u32 == 10);
    assert forall|i: int| 0 <= i < s.len() implies !is_space(#[trigger] s[i]) && s[i] != ' '
        && s[i] != '\n' by {
        assert(is_digit(s[i]));
    }
}

proof fn lemma_parse_one(sec: Section, v: InstanceView, l: Seq<char>)
    ensures
        spec_parse_lines(sec, v, seq![l]) == (
            spec_move_section(trim_spec(l), sec),
            spec_line_effect(sec, trim_spec(l), v),
        ),
{
    assert(seq![l].drop_first() =~= Seq::<Seq<char>>::empty());
    let m = spec_move_section(trim_spec(l), sec);
    let e = spec_line_effect(sec, trim_spec(l), v);
    assert(spec_parse_lines(m, e, Seq::<Seq<char>>::empty()) == (m, e));
}

proof fn lemma_parse_cons(sec: Section, v: InstanceView, lines: Seq<Seq<char>>)
    requires
        lines.len() > 0,
    ensures
        spec_parse_lines(sec, v, lines) == spec_parse_lines(
            spec_move_section(trim_spec(lines[0]), sec),
            spec_line_effect(sec, trim_spec(lines[0]), v),
            lines.drop_first(),
        ),
{
}

proof fn lemma_parse_lines_app(sec: Section, v: InstanceView, a: Seq<Seq<char>>, b: Seq<Seq<char>>)
    ensures
        spec_parse_lines(sec, v, a + b) == (spec_parse_lines(
            spec_parse_lines(sec, v, a).0,
            spec_parse_lines(sec, v, a).1,
            b,
        )),
    decreases a.len(),
{
    if a.len() == 0 {
        assert(a + b =~= b);
    } else {
        assert((a + b)[0] == a[0]);
        assert((a + b).drop_first() =~= a.drop_first() + b);
        let l = trim_spec(a[0]);
        lemma_parse_lines_app(spec_move_section(l, sec), spec_line_effect(sec, l, v), a.drop_first(), b);
    }
}

proof fn lemma_split_terminated(lines: Seq<Seq<char>>)
    requires
        forall|i: int| 0 <= i < lines.len() ==> sep_free(#[trigger] lines[i], '\n'),
    ensures
        split_ch(terminated(lines), '\n') == lines.push(Seq::<char>::empty()),
    decreases lines.len(),
{
    if lines.len() == 0 {
        assert(sep_free(Seq::<char>::empty(), '\n'));
        lemma_split_sepfree(Seq::<char>::empty(), '\n');
        assert(seq![Seq::<char>::empty()] =~= lines.push(Seq::<char>::empty()));
    } else {
        lemma_split_prefix(lines[0], terminated(lines.drop_first()), '\n');
        lemma_split_terminated(lines.drop_first());
        assert(seq![lines[0]] + lines.drop_first().push(Seq::<char>::empty()) =~= lines.push(
            Seq::<char>::empty(),
        ));
    }
}

proof fn lemma_lines_of_terminated(lines: Seq<Seq<char>>)
    requires
        lines.len() > 0,
        forall|i: int| 0 <= i < lines.len() ==> sep_free(#[trigger] lines[i], '\n'),
    ensures
        lines_of(terminated(lines)) == lines,
{
    lemma_split_terminated(lines);
    let parts = lines.push(Seq::<char>::empty());
    assert(parts.last().len() == 0);
    assert(parts.drop_last() =~= lines);
}

proof fn lemma_two_tokens(t0: Seq<char>, t1: Seq<char>)
    requires
        sep_free(t0, ' '),
        sep_free(t1, ' '),
    ensures
        tokens_of(t0 + seq![' '] + t1) == seq![t0, t1],
{
    lemma_split_prefix(t0, t1, ' ');
    lemma_split_sepfree(t1, ' ');
    assert(seq![t0] + seq![t1] =~= seq![t0, t1]);
}

proof fn lemma_four_tokens(t0: Seq<char>, t1: Seq<char>, t2: Seq<char>, t3: Seq<char>)
    requires
        sep_free(t0, ' '),
        sep_free(t1, ' '),
        sep_free(t2, ' '),
        sep_free(t3, ' '),
    ensures
        tokens_of(t0 + seq![' '] + t1 + seq![' '] + t2 + seq![' '] + t3) == seq![t0, t1, t2, t3],
{
    let r2 = t2 + seq![' '] + t3;
    let r1 = t1 + seq![' '] + r2;
    assert(t0 + seq![' '] + t1 + seq![' '] + t2 + seq![' '] + t3 =~= t0 + seq![' '] + r1);
    lemma_split_prefix(t0, r1, ' ');
    lemma_split_prefix(t1, r2, ' ');
    lemma_split_prefix(t2, t3, ' ');
    lemma_split_sepfree(t3, ' ');
    assert(seq![t0] + (seq![t1] + (seq![t2] + seq![t3])) =~= seq![t0, t1, t2, t3]);
}

/// The facts about the fixed text fragments that the round trip leans on.
proof fn lemma_literal_facts()
    ensures
        "SECTION Graph"@ == "SECTION"@ + seq![' '] + "Graph"@,
        "SECTION Terminals"@ == "SECTION"@ + seq![' '] + "Terminals"@,
        sep_free("SECTION"@, ' ') && sep_free("SECTION"@, '\n'),
        sep_free("Graph"@, ' ') && sep_free("Graph"@, '\n'),
        sep_free("Terminals"@, ' ') && sep_free("Terminals"@, '\n'),
        sep_free("Nodes"@, ' ') && sep_free("Nodes"@, '\n'),
        sep_free("Edges"@, ' ') && sep_free("Edges"@, '\n'),
        sep_free("E"@, ' ') && sep_free("E"@, '\n'),
        sep_free("T"@, ' ') && sep_free("T"@, '\n'),
        sep_free("END"@, ' ') && sep_free("END"@, '\n'),
        sep_free("EOF"@, ' ') && sep_free("EOF"@, '\n'),
        "Nodes "@ == "Nodes"@ + seq![' '],
        "Edges "@ == "Edges"@ + seq![' '],
        "Terminals "@ == "Terminals"@ + seq![' '],
        "E "@ == "E"@ + seq![' '],
        "T "@ == "T"@ + seq![' '],
        " "@ == seq![' '],
        "SECTION"@.len() == 7 && "SECTION"@[0] == 'S',
        "Graph"@.len() == 5 && "Graph"@[0] == 'G',
        "Terminals"@.len() == 9 && "Terminals"@[0] == 'T',
        "Obstacles"@.len() == 9 && "Obstacles"@[0] == 'O',
        "Nodes"@.len() == 5 && "Nodes"@[0] == 'N',
        "Edges"@.len() == 5 && "Edges"@[0] == 'E',
        "Arcs"@.len() == 4,
        "A"@.len() == 1 && "A"@[0] == 'A',
        "E"@.len() == 1 && "E"@[0] == 'E',
        "T"@.len() == 1 && "T"@[0] == 'T',
        "END"@.len() == 3 && "END"@[0] == 'E' && "END"@[2] == 'D',
        "EOF"@.len() == 3 && "EOF"@[0] == 'E' && "EOF"@[2] == 'F',
        "Start"@.len() == 5 && "Start"@[0] == 'S',
        "Comment"@.len() == 7 && "Comment"@[0] == 'C',
        "SECTION Graph"@.len() == 13 && "SECTION Graph"@[0] == 'S' && "SECTION Graph"@[12] == 'h',
        sep_free("SECTION Graph"@, '\n'),
        "SECTION Terminals"@.len() == 17 && "SECTION Terminals"@[0] == 'S' && "SECTION Terminals"@[16] == 's',
        sep_free("SECTION Terminals"@, '\n'),
        sep_free(Seq::<char>::empty(), ' ') && sep_free(Seq::<char>::empty(), '\n'),
{
    reveal_strlit("SECTION Graph");
    reveal_strlit("SECTION Terminals");
    reveal_strlit("SECTION");
    reveal_strlit("Graph");
    reveal_strlit("Terminals");
    reveal_strlit("Nodes");
    reveal_strlit("Edges");
    reveal_strlit("Arcs");
    reveal_strlit("Obstacles");
    reveal_strlit("E");
    reveal_strlit("A");
    reveal_strlit("T");
    reveal_strlit("END");
    reveal_strlit("EOF");
    reveal_strlit("Start");
    reveal_strlit("Comment");
    reveal_strlit("Nodes ");
    reveal_strlit("Edges ");
    reveal_strlit("Terminals ");
    reveal_strlit("E ");
    reveal_strlit("T ");
    reveal_strlit(" ");
    assert("SECTION Graph"@ =~= "SECTION"@ + seq![' '] + "Graph"@);
    assert("SECTION Terminals"@ =~= "SECTION"@ + seq![' '] + "Terminals"@);
    assert("Nodes "@ =~= "Nodes"@ + seq![' ']);
    assert("Edges "@ =~= "Edges"@ + seq![' ']);
    assert("Terminals "@ =~= "Terminals"@ + seq![' ']);
    assert("E "@ =~= "E"@ + seq![' ']);
    assert("T "@ =~= "T"@ + seq![' ']);
    assert(" "@ =~= seq![' ']);
}

/// A line whose first character is not an upper-case `S` cannot switch the
/// section.
proof fn lemma_not_section(l: Seq<char>, sec: Section)
    requires
        l.len() == 0 || l[0] != 'S',
    ensures
        spec_move_section(l, sec) == sec,
{
    lemma_literal_facts();
    if spec_starts_with(l, "SECTION"@) {
        assert(l.take(7)[0] == l[0]);
    }
}

/// Parsing the rendered edge lines appends exactly those edges.
proof fn lemma_parse_edge_lines(es: Seq<Edge>, v0: InstanceView)
    requires
        forall|i: int| 0 <= i < es.len() ==> (#[trigger] es[i]).cost <= usize::MAX,
    ensures
        spec_parse_lines(Section::Graph, v0, edge_lines(es)) == (
            Section::Graph,
            InstanceView { edges: v0.edges + es, ..v0 },
        ),
    decreases es.len(),
{
    lemma_literal_facts();
    if es.len() == 0 {
        assert(edge_lines(es) =~= Seq::<Seq<char>>::empty());
        assert(v0.edges + es =~= v0.edges);
        assert(InstanceView { edges: v0.edges, ..v0 } == v0);
    } else {
        let e = es[0];
        let d1 = dec_digits(e.from as nat);
        let d2 = dec_digits(e.to as nat);
        let d3 = dec_digits(e.cost as nat);
        let l = edge_line(e);
        lemma_dec_digits(e.from as nat);
        lemma_dec_digits(e.to as nat);
        lemma_dec_digits(e.cost as nat);
        lemma_digits_plain(d1);
        lemma_digits_plain(d2);
        lemma_digits_plain(d3);
        assert(edge_lines(es)[0] == l);
        assert(edge_lines(es).drop_first() =~= edge_lines(es.drop_first()));
        // The line needs no trimming: it starts with `E` and ends in a digit.
        assert(l =~= "E"@ + seq![' '] + d1 + seq![' '] + d2 + seq![' '] + d3);
        assert(l[0] == 'E');
        assert(l.last() == d3.last());
        assert(!is_space(l[0]));
        assert(!is_space(l.last()));
        assert(trim_spec(l) == l);
        // Its tokens are the tag and the three numbers.
        lemma_four_tokens("E"@, d1, d2, d3);
        assert(tokens_of(l) == seq!["E"@, d1, d2, d3]);
        assert(tokens_of(l)[0] == "E"@ && tokens_of(l)[1] == d1 && tokens_of(l)[2] == d2
            && tokens_of(l)[3] == d3);
        lemma_parse_of_dec(e.from as nat);
        lemma_parse_of_dec(e.to as nat);
        lemma_parse_of_dec(e.cost as nat);
        assert(spec_nat_arg(l, 1) == Some(e.from));
        assert(spec_nat_arg(l, 2) == Some(e.to));
        assert(spec_nat_arg(l, 3) == Some(e.cost as usize));
        assert(spec_parse_edge(l) == Some(e));
        assert(spec_graph_line(l, v0) == InstanceView { edges: v0.edges.push(e), ..v0 });
        lemma_not_section(l, Section::Graph);
        // Step once, then recurse over the remaining edge lines.
        assert(edge_lines(es).drop_first() =~= edge_lines(es.drop_first()));
        assert forall|i: int| 0 <= i < es.drop_first().len() implies (#[trigger] es.drop_first()[i]).cost <= usize::MAX by {
            assert(es.drop_first()[i] == es[i + 1]);
        }
        lemma_parse_edge_lines(es.drop_first(), InstanceView { edges: v0.edges.push(e), ..v0 });
        assert(v0.edges.push(e) + es.drop_first() =~= v0.edges + es);
    }
}

/// Parsing the rendered terminal lines appends exactly those terminals.
proof fn lemma_parse_terminal_lines(ts: Seq<usize>, v0: InstanceView)
    ensures
        spec_parse_lines(Section::Terminals, v0, terminal_lines(ts)) == (
            Section::Terminals,
            InstanceView { terminals: v0.terminals + ts, ..v0 },
        ),
    decreases ts.len(),
{
    lemma_literal_facts();
    if ts.len() == 0 {
        assert(terminal_lines(ts) =~= Seq::<Seq<char>>::empty());
        assert(v0.terminals + ts =~= v0.terminals);
        assert(InstanceView { terminals: v0.terminals, ..v0 } == v0);
    } else {
        let t = ts[0];
        let d = dec_digits(t as nat);
        let l = terminal_line(t);
        lemma_dec_digits(t as nat);
        lemma_digits_plain(d);
        assert(terminal_lines(ts)[0] == l);
        assert(terminal_lines(ts).drop_first() =~= terminal_lines(ts.drop_first()));
        assert(l =~= "T"@ + seq![' '] + d);
        assert(l[0] == 'T');
        assert(l.last() == d.last());
        assert(!is_space(l[0]));
        assert(!is_space(l.last()));
        assert(trim_spec(l) == l);
        lemma_two_tokens("T"@, d);
        assert(tokens_of(l) == seq!["T"@, d]);
        assert(tokens_of(l)[0] == "T"@ && tokens_of(l)[1] == d);
        lemma_parse_of_dec(t as nat);
        assert(spec_nat_arg(l, 1) == Some(t));
        assert(spec_terminals_line(l, v0) == InstanceView {
            terminals: v0.terminals.push(t),
            ..v0
        });
        lemma_not_section(l, Section::Terminals);
        lemma_parse_terminal_lines(ts.drop_first(), InstanceView {
            terminals: v0.terminals.push(t),
            ..v0
        });
        assert(v0.terminals.push(t) + ts.drop_first() =~= v0.terminals + ts);
    }
}

/// Parsing a rendered instance document yields the instance back, and
/// re-rendering that parse reproduces the document: the codec round-trips on
/// every instance the generator can produce (no arcs, no obstacles, costs
/// within the machine word).
pub proof fn lemma_parse_render_round_trip(v: InstanceView)
    requires
        v.num_arcs == 0,
        v.num_obstacles == 0,
        v.arcs.len() == 0,
        forall|i: int| 0 <= i < v.edges.len() ==> (#[trigger] v.edges[i]).cost <= usize::MAX,
    ensures
        spec_parse_stp(render_chars(v)) == v,
        render_chars(InstanceView { ..spec_parse_stp(render_chars(v)) }) == render_chars(v),
{
    lemma_literal_facts();
    let dn = dec_digits(v.num_nodes as nat);
    let dm = dec_digits(v.num_edges as nat);
    let dt = dec_digits(v.num_terminals as nat);
    lemma_dec_digits(v.num_nodes as nat);
    lemma_dec_digits(v.num_edges as nat);
    lemma_dec_digits(v.num_terminals as nat);
    lemma_digits_plain(dn);
    lemma_digits_plain(dm);
    lemma_digits_plain(dt);
    let ls = render_lines(v);
    // Every rendered line is newline-free, so splitting the document gives
    // back exactly the rendered lines.
    assert forall|i: int| 0 <= i < ls.len() implies sep_free(#[trigger] ls[i], '\n') by {
        if i == 0 {
        } else if i == 1 {
            lemma_sep_free_app("Nodes "@, dn, '\n');
            assert(sep_free("Nodes "@, '\n')) by {
                lemma_sep_free_app("Nodes"@, seq![' '], '\n');
            }
            assert(ls[i] == "Nodes "@ + dn);
        } else if i == 2 {
            assert(sep_free("Edges "@, '\n')) by {
                lemma_sep_free_app("Edges"@, seq![' '], '\n');
            }
            lemma_sep_free_app("Edges "@, dm, '\n');
            assert(ls[i] == "Edges "@ + dm);
        } else if i < 3 + v.edges.len() {
            let e = v.edges[i - 3];
            assert(ls[i] == edge_line(e));
            lemma_dec_digits(e.from as nat);
            lemma_dec_digits(e.to as nat);
            lemma_dec_digits(e.cost as nat);
            lemma_digits_plain(dec_digits(e.from as nat));
            lemma_digits_plain(dec_digits(e.to as nat));
            lemma_digits_plain(dec_digits(e.cost as nat));
            assert(sep_free("E "@, '\n')) by {
                lemma_sep_free_app("E"@, seq![' '], '\n');
            }
            assert(sep_free(" "@, '\n'));
            lemma_sep_free_app("E "@, dec_digits(e.from as nat), '\n');
            lemma_sep_free_app("E "@ + dec_digits(e.from as nat), " "@, '\n');
            lemma_sep_free_app("E "@ + dec_digits(e.from as nat) + " "@, dec_digits(e.to as nat), '\n');
            lemma_sep_free_app(
                "E "@ + dec_digits(e.from as nat) + " "@ + dec_digits(e.to as nat),
                " "@,
                '\n',
            );
            lemma_sep_free_app(
                "E "@ + dec_digits(e.from as nat) + " "@ + dec_digits(e.to as nat) + " "@,
                dec_digits(e.cost as nat),
                '\n',
            );
        } else if i == 3 + v.edges.len() {
            assert(ls[i] == "END"@);
        } else if i == 4 + v.edges.len() {
            assert(ls[i] == Seq::<char>::empty());
        } else if i == 5 + v.edges.len() {
            assert(ls[i] == "SECTION Terminals"@);
        } else if i == 6 + v.edges.len() {
            assert(sep_free("Terminals "@, '\n')) by {
                lemma_sep_free_app("Terminals"@, seq![' '], '\n');
            }
            lemma_sep_free_app("Terminals "@, dt, '\n');
            assert(ls[i] == "Terminals "@ + dt);
        } else if i < 7 + v.edges.len() + v.terminals.len() {
            let t = v.terminals[i - 7 - v.edges.len()];
            assert(ls[i] == terminal_line(t));
            lemma_dec_digits(t as nat);
            lemma_digits_plain(dec_digits(t as nat));
            assert(sep_free("T "@, '\n')) by {
                lemma_sep_free_app("T"@, seq![' '], '\n');
            }
            lemma_sep_free_app("T "@, dec_digits(t as nat), '\n');
        } else if i == 7 + v.edges.len() + v.terminals.len() {
            assert(ls[i] == "END"@);
        } else if i == 8 + v.edges.len() + v.terminals.len() {
            assert(ls[i] == Seq::<char>::empty());
        } else {
            assert(ls[i] == "EOF"@);
        }
    }
    lemma_lines_of_terminated(ls);
    assert(lines_of(render_chars(v)) == ls);
    // Walk the parse through the document, segment by segment.
    let e0 = InstanceView::empty();
    let l_sg = "SECTION Graph"@;
    let l_nodes = "Nodes "@ + dn;
    let l_edges = "Edges "@ + dm;
    let l_end = "END"@;
    let l_blank = Seq::<char>::empty();
    let l_st = "SECTION Terminals"@;
    let l_terms = "Terminals "@ + dt;
    let l_eof = "EOF"@;
    let seg_a = seq![l_sg, l_nodes, l_edges];
    let seg_b = seq![l_end, l_blank, l_st, l_terms];
    let seg_c = seq![l_end, l_blank, l_eof];
    assert(ls == seg_a + edge_lines(v.edges) + seg_b + terminal_lines(v.terminals) + seg_c);

    // Segment A: switch to the graph section and read both counts.
    assert(trim_spec(l_sg) == l_sg);
    lemma_two_tokens("SECTION"@, "Graph"@);
    assert(l_sg == "SECTION"@ + seq![' '] + "Graph"@);
    assert(spec_starts_with(l_sg, "SECTION"@)) by {
        assert(l_sg.take(7) =~= "SECTION"@);
    }
    assert(tokens_of(l_sg)[1] == "Graph"@);
    assert("Graph"@ != "Start"@ && "Graph"@ != "Comment"@);
    assert(spec_move_section(l_sg, Section::Start) == Section::Graph);
    assert(spec_line_effect(Section::Start, l_sg, e0) == e0);

    assert(trim_spec(l_nodes) == l_nodes) by {
        assert(l_nodes[0] == 'N');
        assert(l_nodes.last() == dn.last());
        assert(!is_space(l_nodes[0]));
        assert(!is_space(l_nodes.last()));
    }
    lemma_two_tokens("Nodes"@, dn);
    assert(l_nodes =~= "Nodes"@ + seq![' '] + dn);
    assert(tokens_of(l_nodes) == seq!["Nodes"@, dn]);
    lemma_parse_of_dec(v.num_nodes as nat);
    assert(spec_nat_arg(l_nodes, 1) == Some(v.num_nodes));
    assert("Nodes"@ != "Obstacles"@);
    let v1 = InstanceView { num_nodes: v.num_nodes, ..e0 };
    assert(spec_graph_line(l_nodes, e0) == v1);
    lemma_not_section(l_nodes, Section::Graph);

    assert(trim_spec(l_edges) == l_edges) by {
        assert(l_edges[0] == 'E');
        assert(l_edges.last() == dm.last());
        assert(!is_space(l_edges[0]));
        assert(!is_space(l_edges.last()));
    }
    lemma_two_tokens("Edges"@, dm);
    assert(l_edges =~= "Edges"@ + seq![' '] + dm);
    assert(tokens_of(l_edges) == seq!["Edges"@, dm]);
    lemma_parse_of_dec(v.num_edges as nat);
    assert(spec_nat_arg(l_edges, 1) == Some(v.num_edges));
    assert("Edges"@ != "Obstacles"@ && "Edges"@ != "Nodes"@);
    let v2 = InstanceView { num_edges: v.num_edges, ..v1 };
    assert(spec_graph_line(l_edges, v1) == v2);
    lemma_not_section(l_edges, Section::Graph);

    assert(seg_a[0] == l_sg && seg_a.drop_first() =~= seq![l_nodes, l_edges]);
    assert(seq![l_nodes, l_edges][0] == l_nodes);
    assert(seq![l_nodes, l_edges].drop_first() =~= seq![l_edges]);
    lemma_parse_cons(Section::Start, e0, seg_a);
    lemma_parse_cons(Section::Graph, e0, seq![l_nodes, l_edges]);
    lemma_parse_one(Section::Graph, v1, l_edges);
    assert(spec_parse_lines(Section::Start, e0, seg_a) == (Section::Graph, v2));

    // The edge lines append the edges.
    lemma_parse_edge_lines(v.edges, v2);
    let v3 = InstanceView { edges: Seq::<Edge>::empty() + v.edges, ..v2 };
    assert(spec_parse_lines(Section::Graph, v2, edge_lines(v.edges)) == (Section::Graph, v3));

    // Segment B: inert lines, then the switch to the terminals section and
    // the terminal count.
    lemma_split_sepfree(l_end, ' ');
    assert(tokens_of(l_end) == seq![l_end]);
    assert(tokens_of(l_end)[0] == "END"@);
    assert(trim_spec(l_end) == l_end) by {
        assert(!is_space('E') && !is_space('D'));
    }
    assert("END"@ != "Obstacles"@ && "END"@ != "Nodes"@ && "END"@ != "Edges"@ && "END"@
        != "Arcs"@ && "END"@ != "E"@ && "END"@ != "A"@);
    assert(spec_graph_line(l_end, v3) == v3);
    lemma_not_section(l_end, Section::Graph);

    lemma_split_sepfree(l_blank, ' ');
    assert(trim_spec(l_blank) == l_blank);
    assert(tokens_of(l_blank) == seq![l_blank]);
    assert(tokens_of(l_blank)[0].len() == 0);
    assert(spec_graph_line(l_blank, v3) == v3);
    assert(spec_move_section(l_blank, Section::Graph) == Section::Graph) by {
        lemma_literal_facts();
    }

    assert(trim_spec(l_st) == l_st);
    lemma_two_tokens("SECTION"@, "Terminals"@);
    assert(l_st == "SECTION"@ + seq![' '] + "Terminals"@);
    assert(tokens_of(l_st)[0] == "SECTION"@ && tokens_of(l_st)[1] == "Terminals"@);
    assert("SECTION"@ != "Obstacles"@ && "SECTION"@ != "Nodes"@ && "SECTION"@ != "Edges"@
        && "SECTION"@ != "Arcs"@ && "SECTION"@ != "E"@ && "SECTION"@ != "A"@);
    assert(spec_graph_line(l_st, v3) == v3);
    assert(spec_starts_with(l_st, "SECTION"@)) by {
        assert(l_st.take(7) =~= "SECTION"@);
    }
    assert("Terminals"@ != "Start"@ && "Terminals"@ != "Comment"@ && "Terminals"@ != "Graph"@);
    assert(spec_move_section(l_st, Section::Graph) == Section::Terminals);

    assert(trim_spec(l_terms) == l_terms) by {
        assert(l_terms[0] == 'T');
        assert(l_terms.last() == dt.last());
        assert(!is_space(l_terms[0]));
        assert(!is_space(l_terms.last()));
    }
    lemma_two_tokens("Terminals"@, dt);
    assert(l_terms =~= "Terminals"@ + seq![' '] + dt);
    assert(tokens_of(l_terms) == seq!["Terminals"@, dt]);
    lemma_parse_of_dec(v.num_terminals as nat);
    assert(spec_nat_arg(l_terms, 1) == Some(v.num_terminals));
    let v4 = InstanceView { num_terminals: v.num_terminals, ..v3 };
    assert(spec_terminals_line(l_terms, v4) == v4) by {
        assert(spec_nat_arg(l_terms, 1) == Some(v.num_terminals));
    }
    assert(spec_terminals_line(l_terms, v3) == v4);
    lemma_not_section(l_terms, Section::Terminals);

    assert(seg_b[0] == l_end);
    assert(seg_b.drop_first() =~= seq![l_blank, l_st, l_terms]);
    assert(seq![l_blank, l_st, l_terms][0] == l_blank);
    assert(seq![l_blank, l_st, l_terms].drop_first() =~= seq![l_st, l_terms]);
    assert(seq![l_st, l_terms][0] == l_st);
    assert(seq![l_st, l_terms].drop_first() =~= seq![l_terms]);
    lemma_parse_cons(Section::Graph, v3, seg_b);
    lemma_parse_cons(Section::Graph, v3, seq![l_blank, l_st, l_terms]);
    lemma_parse_cons(Section::Graph, v3, seq![l_st, l_terms]);
    lemma_parse_one(Section::Terminals, v3, l_terms);
    assert(spec_parse_lines(Section::Graph, v3, seg_b) == (Section::Terminals, v4));

    // The terminal lines append the terminals.
    lemma_parse_terminal_lines(v.terminals, v4);
    let v5 = InstanceView { terminals: Seq::<usize>::empty() + v.terminals, ..v4 };
    assert(spec_parse_lines(Section::Terminals, v4, terminal_lines(v.terminals)) == (
        Section::Terminals,
        v5,
    ));

    // Segment C: all inert in the terminals section.
    assert("END"@ != "Terminals"@ && "END"@ != "T"@);
    assert(spec_terminals_line(l_end, v5) == v5);
    lemma_not_section(l_end, Section::Terminals);
    assert(spec_terminals_line(l_blank, v5) == v5);
    assert(spec_move_section(l_blank, Section::Terminals) == Section::Terminals);
    lemma_split_sepfree(l_eof, ' ');
    assert(tokens_of(l_eof) == seq![l_eof]);
    assert("EOF"@ != "Terminals"@ && "EOF"@ != "T"@);
    assert(trim_spec(l_eof) == l_eof) by {
        assert(!is_space('E') && !is_space('F'));
    }
    assert(spec_terminals_line(l_eof, v5) == v5);
    lemma_not_section(l_eof, Section::Terminals);
    assert(seg_c[0] == l_end);
    assert(seg_c.drop_first() =~= seq![l_blank, l_eof]);
    assert(seq![l_blank, l_eof][0] == l_blank);
    assert(seq![l_blank, l_eof].drop_first() =~= seq![l_eof]);
    lemma_parse_cons(Section::Terminals, v5, seg_c);
    lemma_parse_cons(Section::Terminals, v5, seq![l_blank, l_eof]);
    lemma_parse_one(Section::Terminals, v5, l_eof);
    assert(spec_parse_lines(Section::Terminals, v5, seg_c) == (Section::Terminals, v5));

    // Chain the segments together.
    lemma_parse_lines_app(Section::Start, e0, seg_a, edge_lines(v.edges) + seg_b + terminal_lines(v.terminals) + seg_c);
    assert(seg_a + edge_lines(v.edges) + seg_b + terminal_lines(v.terminals) + seg_c =~= seg_a + (
    edge_lines(v.edges) + seg_b + terminal_lines(v.terminals) + seg_c));
    lemma_parse_lines_app(Section::Graph, v2, edge_lines(v.edges), seg_b + terminal_lines(v.terminals) + seg_c);
    assert(edge_lines(v.edges) + seg_b + terminal_lines(v.terminals) + seg_c =~= edge_lines(v.edges)
        + (seg_b + terminal_lines(v.terminals) + seg_c));
    lemma_parse_lines_app(Section::Graph, v3, seg_b, terminal_lines(v.terminals) + seg_c);
    assert(seg_b + terminal_lines(v.terminals) + seg_c =~= seg_b + (terminal_lines(v.terminals)
        + seg_c));
    lemma_parse_lines_app(Section::Terminals, v4, terminal_lines(v.terminals), seg_c);
    assert(spec_parse_lines(Section::Start, e0, ls).1 == v5);
    assert(Seq::<Edge>::empty() + v.edges =~= v.edges);
    assert(Seq::<usize>::empty() + v.terminals =~= v.terminals);
    assert(v.arcs =~= Seq::<Edge>::empty());
    assert(v5 == v);
}

} // verus!
