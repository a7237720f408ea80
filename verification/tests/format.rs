use steinlib::{
    export_update_sequence, generate_update_sequence, generate_vertex_subset, DynamicInstance,
    Edge, Parser, Section, SteinError, SteinerInstance, UpdateOperation, UpdateProbabilities,
};

#[test]
fn parse_literal_instance() {
    let text = "SECTION Graph\nNodes 3\nEdges 1\nE 1 2 5\nEND\nSECTION Terminals\nTerminals 1\nT 1\nEND\nEOF";
    let mut parser = Parser::default();
    let parsed = parser.parse_stp(text);
    assert_eq!(parsed.num_nodes, 3);
    assert_eq!(parsed.num_edges, 1);
    assert_eq!(parsed.edges.len(), 1);
    assert_eq!(
        (parsed.edges[0].from, parsed.edges[0].to, parsed.edges[0].cost),
        (1, 2, 5)
    );
    assert_eq!(parsed.terminals, vec![1]);
}

#[test]
fn serialize_exact_text() {
    let inst = SteinerInstance::new(
        3,
        vec![Edge {
            from: 1,
            to: 2,
            cost: 1,
        }],
        vec![1],
    );
    assert_eq!(
        inst.to_string(),
        "SECTION Graph\nNodes 3\nEdges 1\nE 1 2 1\nEND\n\nSECTION Terminals\nTerminals 1\nT 1\nEND\n\nEOF\n"
    );
}

#[test]
fn update_operation_text_round_trip() {
    let cases = [
        "E I 1 2 1",
        "E D 3 4 9",
        "T A 7",
        "T D 12",
        "V I",
        "V D 5",
    ];
    for line in cases {
        let op = UpdateOperation::from_str(line).expect("line should parse");
        assert_eq!(op.to_string(), line);
    }
    // Large numbers survive formatting and parsing.
    let op = UpdateOperation::from_str("E I 1048576 65536 123456789").unwrap();
    assert_eq!(op.to_string(), "E I 1048576 65536 123456789");
}

#[test]
fn export_layout_is_exact() {
    let snapshot = SteinerInstance::new(
        2,
        vec![Edge {
            from: 1,
            to: 2,
            cost: 1,
        }],
        vec![1],
    );
    let expected_snap = snapshot.to_string();
    let ops = vec![
        UpdateOperation::EdgeInsertion(Edge {
            from: 1,
            to: 2,
            cost: 1,
        }),
        UpdateOperation::Query(snapshot),
        UpdateOperation::TerminalActivation(1),
    ];
    let (log, snaps) = export_update_sequence(ops);
    assert_eq!(log, "SECTION UPDATES\nE I 1 2 1\nQ 1\nT A 1\n");
    assert_eq!(snaps.len(), 1);
    assert_eq!(snaps[0], expected_snap);
}

#[test]
fn malformed_update_lines_are_rejected() {
    assert!(UpdateOperation::from_str("").is_err());
    assert!(UpdateOperation::from_str("X 1 2").is_err());
    assert!(UpdateOperation::from_str("E I one 2 3").is_err());
    assert!(UpdateOperation::from_str("T A").is_err());
    let r = DynamicInstance::from_str("E I 1 2 1\nbogus line\n".to_string(), 0, &Vec::new());
    assert_eq!(r.err().unwrap(), SteinError::MalformedLine);
}

#[test]
fn missing_snapshot_is_reported() {
    let r = DynamicInstance::from_str("E I 1 2 1\nQ 1\n".to_string(), 0, &Vec::new());
    assert_eq!(r.err().unwrap(), SteinError::MissingSnapshot);
}

#[test]
fn zero_weights_are_rejected() {
    let inst = SteinerInstance::new(3, Vec::new(), vec![1]);
    let weights = UpdateProbabilities {
        edge_insertion: 0,
        edge_deletion: 0,
        terminal_activation: 0,
        terminal_deactivation: 0,
    };
    let r = generate_update_sequence(&inst, weights, 1, 2, vec![1, 2], false, 3);
    assert_eq!(r.err().unwrap(), SteinError::InvalidProbabilityWeights);
}

#[test]
fn exhausted_categories_are_rejected() {
    // Only deletions are weighted, but nothing is present to delete.
    let inst = SteinerInstance::new(3, Vec::new(), Vec::new());
    let weights = UpdateProbabilities {
        edge_insertion: 0,
        edge_deletion: 1,
        terminal_activation: 0,
        terminal_deactivation: 0,
    };
    let r = generate_update_sequence(&inst, weights, 1, 2, vec![1, 2], true, 3);
    assert_eq!(r.err().unwrap(), SteinError::InvalidProbabilityWeights);
}

#[test]
fn oversized_subset_request_fails() {
    assert_eq!(
        generate_vertex_subset(3, 5).err().unwrap(),
        SteinError::InvalidSubsetRequest
    );
    let r = steinlib::generate_random_with_fixed_vc(3, 5, 1, 1, 2, 10);
    assert_eq!(r.err().unwrap(), SteinError::InvalidSubsetRequest);
}

#[test]
fn full_subset_is_a_permutation() {
    let mut v = generate_vertex_subset(6, 6).expect("subset must exist");
    v.sort();
    assert_eq!(v, vec![1, 2, 3, 4, 5, 6]);
    let small = generate_vertex_subset(6, 2).expect("subset must exist");
    assert_eq!(small.len(), 2);
    assert!(small[0] != small[1]);
    assert!(small.iter().all(|x| (1..=6).contains(x)));
}

#[test]
fn single_category_weights_are_respected() {
    // With weight only on insertions, every mutation is an insertion, and
    // with query probability zero only the final query appears.
    let inst = SteinerInstance::new(4, Vec::new(), Vec::new());
    let weights = UpdateProbabilities {
        edge_insertion: 1,
        edge_deletion: 0,
        terminal_activation: 0,
        terminal_deactivation: 0,
    };
    let ops = generate_update_sequence(&inst, weights, 0, 1, vec![1, 2, 3, 4], true, 3)
        .expect("synthesis failed");
    assert_eq!(ops.len(), 4);
    for op in &ops[..3] {
        assert!(matches!(op, UpdateOperation::EdgeInsertion(_)));
    }
    assert!(matches!(ops[3], UpdateOperation::Query(_)));
}

#[test]
fn section_switching_and_token_args() {
    let mut parser = Parser::default();
    assert_eq!(parser.current_section, Section::Start);
    parser.move_section("SECTION Graph");
    assert_eq!(parser.current_section, Section::Graph);
    // Unknown names and non-header lines leave the section alone.
    parser.move_section("SECTION Nowhere");
    assert_eq!(parser.current_section, Section::Graph);
    parser.move_section("Nodes 3");
    assert_eq!(parser.current_section, Section::Graph);
    parser.move_section("SECTION Terminals");
    assert_eq!(parser.current_section, Section::Terminals);

    assert_eq!(parser.nth_arg("E 10 20 30", 2), Some(20));
    assert_eq!(parser.nth_arg("E 10 20 30", 4), None);
    assert_eq!(parser.nth_arg("E ten 20", 1), None);

    assert_eq!(Section::from_str("Comment"), Ok(Section::Comment));
    assert_eq!(Section::from_str("Nowhere"), Err(()));
    assert_eq!(Section::Coordinates.to_string(), "Coordinates");
}
