//! Line-oriented parser for the static instance text format.
//!
//! The format is a sequence of sections; a line `SECTION <name>` switches the
//! section, and every other line is interpreted according to the section it
//! stands in.  Unrecognized lines are ignored, as are lines whose numeric
//! fields do not parse.
use vstd::prelude::*;
use crate::text::{
    tok_at, trim_spec, lines_of, spec_starts_with, spec_parse_usize, nth_token, parse_usize_token,
    str_eq_str, starts_with_str, trim_str, split_lines,
};
use crate::{Edge, SteinerInstance, InstanceView};

verus! {

/// The sections of the static instance format this library understands.
#[derive(Clone, Copy, PartialEq, Eq, Structural, Debug)]
pub enum Section {
    Start,
    Comment,
    Graph,
    Terminals,
    Coordinates,
}

impl Section {
    /// The section's name as it appears after the `SECTION` keyword.
    pub open spec fn spec_name(self) -> Seq<char> {
        match self {
            Section::Start => "Start"@,
            Section::Comment => "Comment"@,
            Section::Graph => "Graph"@,
            Section::Terminals => "Terminals"@,
            Section::Coordinates => "Coordinates"@,
        }
    }

    pub fn to_string(&self) -> (r: String)
        ensures
            r@ == self.spec_name(),
    {
        match self {
            Section::Start => "Start".to_owned(),
            Section::Comment => "Comment".to_owned(),
            Section::Graph => "Graph".to_owned(),
            Section::Terminals => "Terminals".to_owned(),
            Section::Coordinates => "Coordinates".to_owned(),
        }
    }

    /// The section a name denotes, if any.
    pub open spec fn spec_of_name(tok: Seq<char>) -> Option<Section> {
        if tok == "Start"@ {
            Some(Section::Start)
        } else if tok == "Comment"@ {
            Some(Section::Comment)
        } else if tok == "Graph"@ {
            Some(Section::Graph)
        } else if tok == "Terminals"@ {
            Some(Section::Terminals)
        } else if tok == "Coordinates"@ {
            Some(Section::Coordinates)
        } else {
            None
        }
    }

    pub fn from_str(s: &str) -> (r: Result<Section, ()>)
        ensures
            match r {
                Ok(sec) => Section::spec_of_name(s@) == Some(sec),
                Err(_) => Section::spec_of_name(s@) is None,
            },
    {
        if str_eq_str(s, "Start") {
            Ok(Section::Start)
        } else if str_eq_str(s, "Comment") {
            Ok(Section::Comment)
        } else if str_eq_str(s, "Graph") {
            Ok(Section::Graph)
        } else if str_eq_str(s, "Terminals") {
            Ok(Section::Terminals)
        } else if str_eq_str(s, "Coordinates") {
            Ok(Section::Coordinates)
        } else {
            Err(())
        }
    }
}

/// The `n`-th token of `line` parsed as an unsigned integer, if present.
pub open spec fn spec_nat_arg(line: Seq<char>, n: int) -> Option<usize> {
    match tok_at(line, n) {
        Some(t) => spec_parse_usize(t),
        None => None,
    }
}

/// The edge a graph line denotes: endpoints from tokens one and two, cost from
/// token three with a default of one when absent or unparseable.
pub open spec fn spec_parse_edge(line: Seq<char>) -> Option<Edge> {
    match spec_nat_arg(line, 1) {
        None => None,
        Some(from) => match spec_nat_arg(line, 2) {
            None => None,
            Some(to) => {
                let cost = match spec_nat_arg(line, 3) {
                    Some(c) => c as u64,
                    None => 1u64,
                };
                Some(Edge { from, to, cost })
            },
        },
    }
}

/// The effect of one line read in the `Graph` section.
pub open spec fn spec_graph_line(line: Seq<char>, v: InstanceView) -> InstanceView {
    match tok_at(line, 0) {
        None => v,
        Some(t0) => {
            if t0 == "Obstacles"@ {
                match spec_nat_arg(line, 1) {
                    Some(n) => InstanceView { num_obstacles: n, ..v },
                    None => v,
                }
            } else if t0 == "Nodes"@ {
                match spec_nat_arg(line, 1) {
                    Some(n) => InstanceView { num_nodes: n, ..v },
                    None => v,
                }
            } else if t0 == "Edges"@ {
                match spec_nat_arg(line, 1) {
                    Some(n) => InstanceView { num_edges: n, ..v },
                    None => v,
                }
            } else if t0 == "Arcs"@ {
                match spec_nat_arg(line, 1) {
                    Some(n) => InstanceView { num_arcs: n, ..v },
                    None => v,
                }
            } else if t0 == "E"@ {
                match spec_parse_edge(line) {
                    Some(e) => InstanceView { edges: v.edges.push(e), ..v },
                    None => v,
                }
            } else if t0 == "A"@ {
                match spec_parse_edge(line) {
                    Some(e) => InstanceView { arcs: v.arcs.push(e), ..v },
                    None => v,
                }
            } else {
                v
            }
        },
    }
}

/// The effect of one line read in the `Terminals` section.
pub open spec fn spec_terminals_line(line: Seq<char>, v: InstanceView) -> InstanceView {
    match tok_at(line, 0) {
        None => v,
        Some(t0) => {
            if t0 == "Terminals"@ {
                match spec_nat_arg(line, 1) {
                    Some(n) => InstanceView { num_terminals: n, ..v },
                    None => v,
                }
            } else if t0 == "T"@ {
                match spec_nat_arg(line, 1) {
                    Some(t) => InstanceView { terminals: v.terminals.push(t), ..v },
                    None => v,
                }
            } else {
                v
            }
        },
    }
}

/// The effect of one line, read in section `sec`, on the instance built so far.
pub open spec fn spec_line_effect(sec: Section, line: Seq<char>, v: InstanceView) -> InstanceView {
    match sec {
        Section::Graph => spec_graph_line(line, v),
        Section::Terminals => spec_terminals_line(line, v),
        Section::Start => v,
        Section::Comment => v,
        Section::Coordinates => v,
    }
}

/// The section in force after reading `line` in section `cur`.
pub open spec fn spec_move_section(line: Seq<char>, cur: Section) -> Section {
    if !spec_starts_with(line, "SECTION"@) {
        cur
    } else {
        match tok_at(line, 1) {
            None => cur,
            Some(t) => match Section::spec_of_name(t) {
                Some(s) => s,
                None => cur,
            },
        }
    }
}

/// Folds the parser over a list of raw lines, trimming each.
pub open spec fn spec_parse_lines(sec: Section, v: InstanceView, lines: Seq<Seq<char>>) -> (
    Section,
    InstanceView,
)
    decreases lines.len(),
{
    if lines.len() == 0 {
        (sec, v)
    } else {
        let line = trim_spec(lines[0]);
        spec_parse_lines(
            spec_move_section(line, sec),
            spec_line_effect(sec, line, v),
            lines.drop_first(),
        )
    }
}

/// What parsing a whole document yields, starting from an empty instance in
/// the `Start` section.
pub open spec fn spec_parse_stp(s: Seq<char>) -> InstanceView {
    spec_parse_lines(Section::Start, InstanceView::empty(), lines_of(s)).1
}

/// A stateful reader of the static instance text format.
pub struct Parser {
    pub current_section: Section,
}

impl Default for Parser {
    fn default() -> (r: Self)
        ensures
            r.current_section == Section::Start,
    {
        Parser { current_section: Section::Start }
    }
}

impl Parser {
    /// Parses a whole document into an instance, one trimmed line at a time.
    pub fn parse_stp(&mut self, stp: &str) -> (r: SteinerInstance)
        ensures
            r@ == spec_parse_lines(
                old(self).current_section,
                InstanceView::empty(),
                lines_of(stp@),
            ).1,
            final(self).current_section == spec_parse_lines(
                old(self).current_section,
                InstanceView::empty(),
                lines_of(stp@),
            ).0,
    {
        let mut parsed_result = SteinerInstance::default();
        let lines = split_lines(stp);
        let ghost all = lines.deep_view();
        proof {
            assert(all.skip(0) =~= all);
        }
        let mut i: usize = 0;
        while i < lines.len()
            invariant
                lines.deep_view() == all,
                i <= lines.len(),
                all.len() == lines@.len(),
                spec_parse_lines(old(self).current_section, InstanceView::empty(), all) == (
                spec_parse_lines(self.current_section, parsed_result@, all.skip(i as int))),
            decreases lines.len() - i,
        {
            proof {
                assert(all[i as int] == lines@[i as int]@);
                assert(all.skip(i as int).drop_first() =~= all.skip(i + 1));
            }
            let line = trim_str(lines[i]);
            self.parse_stp_line(line, &mut parsed_result);
            i = i + 1;
        }
        proof {
            assert(all.skip(i as int) =~= Seq::<Seq<char>>::empty());
        }
        parsed_result
    }

    /// Reads one already-trimmed line: applies its effect under the current
    /// section, then lets the line switch the section.
    pub fn parse_stp_line(&mut self, line: &str, current_result: &mut SteinerInstance)
        ensures
            final(current_result)@ == spec_line_effect(
                old(self).current_section,
                line@,
                old(current_result)@,
            ),
            final(self).current_section == spec_move_section(line@, old(self).current_section),
    {
        match self.current_section {
            Section::Start => self.process_start_line(line, current_result),
            Section::Comment => self.process_comment_line(line, current_result),
            Section::Graph => self.process_graph_line(line, current_result),
            Section::Terminals => self.process_terminals_line(line, current_result),
            Section::Coordinates => self.process_coordinates_line(line, current_result),
        }
        self.move_section(line);
    }

    /// Switches the current section when the line is a `SECTION` header with a
    /// known section name; leaves it alone otherwise.
    pub fn move_section(&mut self, line: &str)
        ensures
            final(self).current_section == spec_move_section(line@, old(self).current_section),
    {
        if !starts_with_str(line, "SECTION") {
            return ;
        }
        let section_str = nth_token(line, 1);
        if section_str.is_none() {
            return ;
        }
        match Section::from_str(section_str.unwrap()) {
            Ok(section) => self.current_section = section,
            Err(_) => {
                return ;
            },
        }
    }

    /// Header lines before any section carry no content read here.
    pub fn process_start_line(&mut self, line: &str, current_result: &mut SteinerInstance)
        ensures
            final(current_result)@ == old(current_result)@,
            final(self).current_section == old(self).current_section,
    {
    }

    /// Comment lines carry no content read here.
    pub fn process_comment_line(&mut self, line: &str, current_result: &mut SteinerInstance)
        ensures
            final(current_result)@ == old(current_result)@,
            final(self).current_section == old(self).current_section,
    {
    }

    /// The `n`-th space-separated token of `line` parsed as an unsigned
    /// integer.
    pub fn nth_arg(&self, line: &str, n: usize) -> (r: Option<usize>)
        ensures
            r == spec_nat_arg(line@, n as int),
    {
        let target = nth_token(line, n);
        if target.is_none() {
            return None;
        }
        parse_usize_token(target.unwrap())
    }

    /// Reads the edge a graph line denotes; the cost field is optional and
    /// defaults to one.
    fn parse_edge(&self, line: &str) -> (r: Option<Edge>)
        ensures
            r == spec_parse_edge(line@),
    {
        let from = match self.nth_arg(line, 1) {
            Some(u) => u,
            None => {
                return None;
            },
        };
        let to = match self.nth_arg(line, 2) {
            Some(v) => v,
            None => {
                return None;
            },
        };
        let cost: u64 = match self.nth_arg(line, 3) {
            Some(w) => w as u64,
            None => 1,
        };
        Some(Edge { from, to, cost })
    }

    /// Reads one line of the `Graph` section: a count header, an edge line, or
    /// an arc line; anything else is ignored.
    pub fn process_graph_line(&mut self, line: &str, current_result: &mut SteinerInstance)
        ensures
            final(current_result)@ == spec_graph_line(line@, old(current_result)@),
            final(self).current_section == old(self).current_section,
    {
        let t0 = match nth_token(line, 0) {
            Some(t) => t,
            None => {
                return ;
            },
        };
        if str_eq_str(t0, "Obstacles") {
            let num = self.nth_arg(line, 1);
            if num.is_none() {
                return ;
            }
            current_result.num_obstacles = num.unwrap();
        } else if str_eq_str(t0, "Nodes") {
            let num = self.nth_arg(line, 1);
            if num.is_none() {
                return ;
            }
            current_result.num_nodes = num.unwrap();
        } else if str_eq_str(t0, "Edges") {
            let num = self.nth_arg(line, 1);
            if num.is_none() {
                return ;
            }
            current_result.num_edges = num.unwrap();
        } else if str_eq_str(t0, "Arcs") {
            let num = self.nth_arg(line, 1);
            if num.is_none() {
                return ;
            }
            current_result.num_arcs = num.unwrap();
        } else if str_eq_str(t0, "E") {
            let edge = match self.parse_edge(line) {
                Some(e) => e,
                None => {
                    return ;
                },
            };
            current_result.edges.push(edge);
        } else if str_eq_str(t0, "A") {
            let arc = match self.parse_edge(line) {
                Some(a) => a,
                None => {
                    return ;
                },
            };
            current_result.arcs.push(arc);
        }
    }

    /// Reads one line of the `Terminals` section: the terminal count header or
    /// a terminal line; anything else is ignored.
    pub fn process_terminals_line(&mut self, line: &str, current_result: &mut SteinerInstance)
        ensures
            final(current_result)@ == spec_terminals_line(line@, old(current_result)@),
            final(self).current_section == old(self).current_section,
    {
        let t0 = match nth_token(line, 0) {
            Some(t) => t,
            None => {
                return ;
            },
        };
        if str_eq_str(t0, "Terminals") {
            let num = self.nth_arg(line, 1);
            if num.is_none() {
                return ;
            }
            current_result.num_terminals = num.unwrap();
        } else if str_eq_str(t0, "T") {
            let terminal = match self.nth_arg(line, 1) {
                Some(t) => t,
                None => {
                    return ;
                },
            };
            current_result.terminals.push(terminal);
        }
    }

    /// Coordinate lines carry no content read here.
    pub fn process_coordinates_line(&mut self, line: &str, current_result: &mut SteinerInstance)
        ensures
            final(current_result)@ == old(current_result)@,
            final(self).current_section == old(self).current_section,
    {
    }
}

} // verus!
