use steinlib::{
    generate_random_with_fixed_vc, generate_update_sequence, DynamicInstance, Edge, Parser,
    SteinError, SteinerInstance, UpdateOperation, UpdateProbabilities,
};

const SNAPSHOT_STP: &str =
    "SECTION Graph\nNodes 3\nEdges 1\nE 1 2 5\nEND\nSECTION Terminals\nTerminals 1\nT 1\nEND\nEOF";

fn base_instance() -> SteinerInstance {
    let edges = vec![
        Edge {
            from: 1,
            to: 2,
            cost: 1,
        },
        Edge {
            from: 2,
            to: 3,
            cost: 1,
        },
    ];
    let terminals = vec![1, 3];
    SteinerInstance::new(4, edges, terminals)
}

fn probs() -> UpdateProbabilities {
    UpdateProbabilities {
        edge_insertion: 3,
        edge_deletion: 3,
        terminal_activation: 2,
        terminal_deactivation: 2,
    }
}

#[test]
fn generated_terminals_mutually_reachable() {
    // Sparse enough that rejection really happens, dense enough to converge.
    for _ in 0..10 {
        let (inst, cover) = generate_random_with_fixed_vc(12, 4, 4, 1, 2, 100_000)
            .expect("generation should converge at this density");
        assert_eq!(cover.len(), 4);
        // Every edge touches the cover set.
        for e in &inst.edges {
            assert!(
                cover.contains(&e.from) || cover.contains(&e.to),
                "edge misses the cover"
            );
        }
        // All terminals lie in one component: breadth-first search by hand.
        let mut reach = vec![false; inst.num_nodes + 1];
        let start = inst.terminals[0];
        reach[start] = true;
        let mut frontier = vec![start];
        while let Some(u) = frontier.pop() {
            for e in &inst.edges {
                let w = if e.from == u {
                    Some(e.to)
                } else if e.to == u {
                    Some(e.from)
                } else {
                    None
                };
                if let Some(w) = w {
                    if !reach[w] {
                        reach[w] = true;
                        frontier.push(w);
                    }
                }
            }
        }
        for t in &inst.terminals {
            assert!(reach[*t], "terminal {} unreachable from {}", t, start);
        }
    }
}

#[test]
fn synthesized_sequence_ends_with_query() {
    let inst = base_instance();
    for total in [0usize, 1, 5, 20] {
        let ops = generate_update_sequence(&inst, probs(), 1, 3, vec![1, 2, 3], false, total)
            .expect("synthesis failed");
        assert!(!ops.is_empty());
        assert!(matches!(ops.last().unwrap(), UpdateOperation::Query(_)));
    }
}

#[test]
fn synthesized_sequence_is_legal() {
    let inst = base_instance();
    for start_empty in [false, true] {
        let ops =
            generate_update_sequence(&inst, probs(), 1, 2, vec![1, 2, 3], start_empty, 40)
                .expect("synthesis failed");
        // Replay with shadow state.
        let mut edges: Vec<(usize, usize)> = if start_empty {
            Vec::new()
        } else {
            inst.edges.iter().map(|e| (e.from, e.to)).collect()
        };
        let mut terms: Vec<usize> = if start_empty {
            Vec::new()
        } else {
            inst.terminals.clone()
        };
        let mut mutations = 0;
        for op in &ops {
            match op {
                UpdateOperation::EdgeInsertion(e) => {
                    assert!(
                        !edges
                            .iter()
                            .any(|p| *p == (e.from, e.to) || *p == (e.to, e.from)),
                        "insertion of an edge already present"
                    );
                    edges.push((e.from, e.to));
                    mutations += 1;
                }
                UpdateOperation::EdgeDeletion(e) => {
                    assert!(
                        edges
                            .iter()
                            .any(|p| *p == (e.from, e.to) || *p == (e.to, e.from)),
                        "deletion of an edge not present"
                    );
                    edges.retain(|p| *p != (e.from, e.to) && *p != (e.to, e.from));
                    mutations += 1;
                }
                UpdateOperation::TerminalActivation(t) => {
                    assert!(!terms.contains(t), "activation of an active terminal");
                    terms.push(*t);
                    mutations += 1;
                }
                UpdateOperation::TerminalDeactivation(t) => {
                    assert!(terms.contains(t), "deactivation of an inactive terminal");
                    terms.retain(|x| x != t);
                    mutations += 1;
                }
                UpdateOperation::Query(snap) => {
                    // The snapshot is exactly the shadow state.
                    let snap_edges: Vec<(usize, usize)> =
                        snap.edges.iter().map(|e| (e.from, e.to)).collect();
                    assert_eq!(snap_edges, edges);
                    assert_eq!(snap.terminals, terms);
                    assert_eq!(snap.num_nodes, inst.num_nodes);
                }
                _ => panic!("unexpected operation kind"),
            }
        }
        assert_eq!(mutations, 40);
    }
}

#[test]
fn full_density_generation_always_succeeds() {
    // Full biased density with a cover vertex connects everything at once.
    for _ in 0..20 {
        let (inst, cover) =
            generate_random_with_fixed_vc(3, 2, 1, 1, 1, 1).expect("must accept first attempt");
        assert_eq!(cover.len(), 1);
        assert_eq!(inst.num_terminals, 2);
        // Exactly the two pairs touching the one cover vertex exist.
        assert_eq!(inst.num_edges, 2);
        for e in &inst.edges {
            assert!(cover.contains(&e.from) || cover.contains(&e.to));
            assert_eq!(e.cost, 1);
        }
    }
}

#[test]
fn generation_times_out_at_zero_density() {
    // Probability zero leaves two distinct terminals disconnected forever.
    let r = generate_random_with_fixed_vc(3, 2, 1, 0, 1, 25);
    assert_eq!(r.unwrap_err(), SteinError::GenerationTimeout);
}

#[test]
fn replay_scenario_three_records() {
    let log = "E I 1 2 1\nT A 1\nQ 1".to_string();
    let snaps = vec![SNAPSHOT_STP.to_string()];
    let mut dynamic = DynamicInstance::from_str(log, 7, &snaps).expect("replay failed");
    assert_eq!(dynamic.target_value, 7);
    assert_eq!(dynamic.num_vertices, 2);
    match dynamic.get_next() {
        Some(UpdateOperation::EdgeInsertion(e)) => {
            assert_eq!((e.from, e.to, e.cost), (1, 2, 1));
        }
        other => panic!("expected an edge insertion, got {:?}", other),
    }
    match dynamic.get_next() {
        Some(UpdateOperation::TerminalActivation(t)) => assert_eq!(t, 1),
        other => panic!("expected a terminal activation, got {:?}", other),
    }
    match dynamic.get_next() {
        Some(UpdateOperation::Query(snap)) => {
            assert_eq!(snap.num_nodes, 3);
            assert_eq!(snap.num_edges, 1);
            assert_eq!(snap.edges.len(), 1);
            assert_eq!(
                (snap.edges[0].from, snap.edges[0].to, snap.edges[0].cost),
                (1, 2, 5)
            );
            assert_eq!(snap.terminals, vec![1]);
        }
        other => panic!("expected a query, got {:?}", other),
    }
    assert!(dynamic.get_next().is_none());
}

#[test]
fn replay_twice_yields_identical_sequences() {
    // Build a persisted run, load it, and pass over it twice.
    let inst = base_instance();
    let ops = generate_update_sequence(&inst, probs(), 1, 2, vec![1, 2, 3], false, 15)
        .expect("synthesis failed");
    let (log, snaps) = steinlib::export_update_sequence(ops);
    let mut dynamic = DynamicInstance::from_str(log, 0, &snaps).expect("replay failed");

    let mut first: Vec<String> = Vec::new();
    while let Some(op) = dynamic.get_next() {
        first.push(op.to_string());
    }
    dynamic.reset();
    let mut second: Vec<String> = Vec::new();
    while let Some(op) = dynamic.get_next() {
        second.push(op.to_string());
    }
    assert!(!first.is_empty());
    assert_eq!(first, second);
}

#[test]
fn roundtrip_parse_serialize_line_set() {
    // A canonical document already in the emitted format.
    let canonical = "SECTION Graph\nNodes 4\nEdges 2\nE 1 2 3\nE 2 4 1\nEND\n\nSECTION Terminals\nTerminals 2\nT 1\nT 4\nEND\n\nEOF\n";
    let mut parser = Parser::default();
    let parsed = parser.parse_stp(canonical);
    let rendered = parsed.to_string();
    assert_eq!(rendered, canonical);

    // Parsing the re-rendered text yields the same instance again.
    let mut parser2 = Parser::default();
    let reparsed = parser2.parse_stp(&rendered);
    assert_eq!(reparsed.num_nodes, parsed.num_nodes);
    assert_eq!(reparsed.num_edges, parsed.num_edges);
    assert_eq!(reparsed.num_terminals, parsed.num_terminals);
    assert_eq!(reparsed.edges, parsed.edges);
    assert_eq!(reparsed.terminals, parsed.terminals);
}
