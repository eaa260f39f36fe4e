use flowgraph::graph::{detect_cycles, detect_iteration_groups, group_cycles};
use flowgraph::model::{ClassIndex, Edge, NextAktivitet, ProcessorIndex};
use flowgraph::render::{build_dot_nodes, consolidate_edge_list, consolidate_edges, generate_dot_graph};

fn t(target: &str, condition: Option<&str>, is_collection: bool) -> NextAktivitet {
    NextAktivitet {
        aktivitet_name: target.to_string(),
        condition: condition.map(|c| c.to_string()),
        is_collection,
    }
}

fn e(from: &str, to: &str, label: &str, is_collection: bool) -> Edge {
    Edge {
        from: from.to_string(),
        to: to.to_string(),
        label: label.to_string(),
        is_collection,
    }
}

fn walk(start: &str, index: &ProcessorIndex, classes: &ClassIndex) -> (Vec<String>, Vec<Edge>) {
    let mut visited = Vec::new();
    let mut defs = Vec::new();
    let mut edges = Vec::new();
    let mut visiting = Vec::new();
    build_dot_nodes(start, index, classes, &mut visited, &mut defs, &mut edges, &mut visiting);
    (defs, edges)
}

#[test]
fn merged_entry_has_one_transition_per_target() {
    let mut index = ProcessorIndex::new();
    index.merge("XAktivitet", "FirstProcessor", &vec![t("YAktivitet", None, false), t("ZAktivitet", None, false)], false);
    index.merge("XAktivitet", "SecondProcessor", &vec![t("YAktivitet", Some("senere"), false)], true);
    assert_eq!(index.len(), 1);
    let info = index.get("XAktivitet").unwrap();
    assert_eq!(info.processor_class, "FirstProcessor");
    assert!(info.has_manuell_behandling);
    let targets: Vec<&str> = info.next_aktiviteter.iter().map(|x| x.aktivitet_name.as_str()).collect();
    assert_eq!(targets, vec!["YAktivitet", "ZAktivitet"]);
}

#[test]
fn simple_flow_reaches_end_terminal() {
    let mut index = ProcessorIndex::new();
    index.merge("Start", "StartProcessor", &vec![t("End", None, false)], false);
    index.merge("End", "EndProcessor", &vec![], false);
    let classes = ClassIndex::new();
    let (defs, edges) = walk("Start", &index, &classes);
    assert!(defs.iter().any(|d| d.starts_with("\"Start\"")));
    assert!(defs.iter().any(|d| d.starts_with("\"End\"")));
    assert!(defs.iter().any(|d| d.starts_with("end [label=\"END\"")));
    assert_eq!(edges.len(), 2);
    assert_eq!((edges[0].from.as_str(), edges[0].to.as_str()), ("Start", "End"));
    assert_eq!((edges[1].from.as_str(), edges[1].to.as_str()), ("End", "end"));
}

#[test]
fn decision_emits_both_branch_edges() {
    let mut index = ProcessorIndex::new();
    index.merge(
        "Decide",
        "DecideProcessor",
        &vec![
            t("Yes", Some("flag==true"), false),
            t("No", Some("NOT (flag==true)"), false),
        ],
        false,
    );
    let classes = ClassIndex::new();
    let (_, edges) = walk("Decide", &index, &classes);
    let out: Vec<(&str, &str, &str)> = edges
        .iter()
        .filter(|edge| edge.from == "Decide")
        .map(|edge| (edge.from.as_str(), edge.to.as_str(), edge.label.as_str()))
        .collect();
    assert_eq!(out.len(), 2);
    assert_eq!(out[0], ("Decide", "Yes", "flag==true"));
    assert_eq!(out[1], ("Decide", "No", "NOT (flag==true)"));

    let doc = generate_dot_graph("Sak", "Decide", &index, &classes, "straight", false, false, true);
    assert!(doc.contains("\"Decide\" -> \"Yes\""));
    assert!(doc.contains("\"Decide\" -> \"No\""));
    assert!(!doc.contains("label=\"flag==true\""));
    let doc2 = generate_dot_graph("Sak", "Decide", &index, &classes, "straight", true, false, true);
    assert!(doc2.contains("label=\"flag==true\""));
}

#[test]
fn unknown_target_gets_dashed_terminal() {
    let mut index = ProcessorIndex::new();
    index.merge("Start", "StartProcessor", &vec![t("ManglerAktivitet", None, false)], false);
    let classes = ClassIndex::new();
    let (defs, edges) = walk("Start", &index, &classes);
    assert!(defs.iter().any(|d| d.starts_with("unknown_ManglerAktivitet [label=\"?\"")));
    assert!(edges.iter().any(|edge| edge.to == "unknown_ManglerAktivitet"));
    let doc = generate_dot_graph("Sak", "Start", &index, &classes, "straight", false, false, true);
    assert!(doc.contains("\"ManglerAktivitet\" -> unknown_ManglerAktivitet [style=dashed]"));
}

#[test]
fn back_edge_detection_on_two_cycle() {
    let mut index = ProcessorIndex::new();
    index.merge("VentAktivitet", "VentProcessor", &vec![t("SjekkAktivitet", None, false)], false);
    index.merge("SjekkAktivitet", "SjekkProcessor", &vec![t("VentAktivitet", None, false)], false);
    let cycles = detect_cycles("VentAktivitet", &index);
    assert_eq!(cycles.len(), 1);
    assert_eq!(cycles[0].0, "SjekkAktivitet");
    assert_eq!(cycles[0].1, "VentAktivitet");
    let edges = vec![
        e("VentAktivitet", "SjekkAktivitet", "", false),
        e("SjekkAktivitet", "VentAktivitet", "", false),
    ];
    let groups = group_cycles(&cycles, &edges);
    assert_eq!(groups.len(), 1);
    let mut members = groups[0].clone();
    members.sort();
    assert_eq!(members, vec!["SjekkAktivitet".to_string(), "VentAktivitet".to_string()]);
}

#[test]
fn no_cycles_without_back_edges() {
    let mut index = ProcessorIndex::new();
    index.merge("A1Aktivitet", "P1", &vec![t("A2Aktivitet", None, false)], false);
    index.merge("A2Aktivitet", "P2", &vec![], false);
    assert!(detect_cycles("A1Aktivitet", &index).is_empty());
    assert!(group_cycles(&Vec::new(), &Vec::new()).is_empty());
}

#[test]
fn iteration_group_follows_single_chain() {
    let mut index = ProcessorIndex::new();
    index.merge("FanOut", "FanOutProcessor", &vec![t("ChildActivity", None, true)], false);
    index.merge("ChildActivity", "ChildProcessor", &vec![t("OppsummerAktivitet", None, false)], false);
    index.merge("OppsummerAktivitet", "OppsummerProcessor", &vec![], false);
    let classes = ClassIndex::new();
    let (_, edges) = walk("FanOut", &index, &classes);
    assert!(edges[0].is_collection);
    let groups = detect_iteration_groups(&index, &edges);
    assert_eq!(groups.len(), 1);
    assert_eq!(groups[0].trigger_node, "FanOut");
    assert_eq!(groups[0].iterated_nodes[0], "ChildActivity");
    assert!(groups[0].iterated_nodes.len() > 1);
    assert_eq!(groups[0].iterated_nodes[1], "OppsummerAktivitet");
}

#[test]
fn consolidation_merges_parallel_edges() {
    let edges = vec![
        e("A", "B", "c1", false),
        e("A", "B", "", true),
        e("A", "B", "c1", false),
        e("A", "C", "else", false),
    ];
    let merged = consolidate_edge_list(&edges);
    assert_eq!(merged.len(), 2);
    assert_eq!(merged[0].label, "c1");
    assert!(merged[0].is_collection);
    assert_eq!(merged[1].label, "");
    let again = consolidate_edge_list(&merged);
    assert_eq!(again.len(), merged.len());
    for (x, y) in again.iter().zip(merged.iter()) {
        assert_eq!(x.from, y.from);
        assert_eq!(x.to, y.to);
        assert_eq!(x.label, y.label);
        assert_eq!(x.is_collection, y.is_collection);
    }
}

#[test]
fn consolidated_lines_follow_precedence() {
    let edges = vec![
        e("A", "B", "betingelse", false),
        e("VentAktivitet", "SjekkAktivitet", "", false),
        e("X", "unknown_X", "", false),
        e("F", "G", "", true),
    ];
    let cycle_edges = vec![("VentAktivitet".to_string(), "SjekkAktivitet".to_string())];
    let lines = consolidate_edges(&edges, &cycle_edges, true);
    assert_eq!(lines.len(), 4);
    assert_eq!(lines[0], "\"A\" -> \"B\" [label=\"betingelse\"]");
    assert_eq!(
        lines[1],
        "\"VentAktivitet\" -> \"SjekkAktivitet\" [color=\"#FF6B6B\", penwidth=2, style=bold, constraint=false]"
    );
    assert_eq!(lines[2], "\"X\" -> unknown_X [style=dashed]");
    assert_eq!(
        lines[3],
        "\"F\" -> \"G\" [label=\"multiple\", color=\"#4CAF50\", penwidth=2, style=bold]"
    );
}

#[test]
fn unknown_targets_stay_dashed_under_labels() {
    let edges = vec![e("A", "unknown_X", "betingelse", false)];
    let lines = consolidate_edges(&edges, &Vec::new(), true);
    assert_eq!(lines, vec!["\"A\" -> unknown_X [style=dashed]".to_string()]);
    let cycle_edges = vec![("A".to_string(), "unknown_X".to_string())];
    let lines2 = consolidate_edges(&edges, &cycle_edges, true);
    assert_eq!(lines2, vec!["\"A\" -> unknown_X [style=dashed]".to_string()]);
}

#[test]
fn fan_out_styling_survives_label_conflicts() {
    let edges = vec![
        e("A", "B", "first", true),
        e("A", "B", "second", false),
    ];
    let lines = consolidate_edges(&edges, &Vec::new(), true);
    assert_eq!(
        lines,
        vec!["\"A\" -> \"B\" [label=\"first (multiple)\", color=\"#4CAF50\", penwidth=2, style=bold]".to_string()]
    );
}

#[test]
fn iteration_groups_follow_edge_order() {
    let mut index = ProcessorIndex::new();
    index.merge("AndreAktivitet", "AndreProcessor", &vec![t("SisteAktivitet", None, false)], false);
    index.merge("FoersteAktivitet", "FoersteProcessor", &vec![t("SisteAktivitet", None, false)], false);
    index.merge("SisteAktivitet", "SisteProcessor", &vec![], false);
    let edges = vec![
        e("StartB", "AndreAktivitet", "", true),
        e("StartA", "FoersteAktivitet", "", true),
    ];
    let groups = detect_iteration_groups(&index, &edges);
    assert_eq!(groups.len(), 2);
    assert_eq!(groups[0].trigger_node, "StartB");
    assert_eq!(groups[0].iterated_nodes, vec!["AndreAktivitet", "SisteAktivitet"]);
    assert_eq!(groups[1].trigger_node, "StartA");
    assert_eq!(groups[1].iterated_nodes, vec!["FoersteAktivitet", "SisteAktivitet"]);
}

#[test]
fn cycle_groups_are_disjoint() {
    // Two two-node cycles joined by a forward edge: every back-edge node
    // must land in exactly one component.
    let mut index = ProcessorIndex::new();
    index.merge("AAktivitet", "PA", &vec![t("BAktivitet", None, false)], false);
    index.merge("BAktivitet", "PB", &vec![t("AAktivitet", None, false), t("CAktivitet", None, false)], false);
    index.merge("CAktivitet", "PC", &vec![t("DAktivitet", None, false)], false);
    index.merge("DAktivitet", "PD", &vec![t("CAktivitet", None, false)], false);
    let cycles = detect_cycles("AAktivitet", &index);
    let edges = vec![
        e("AAktivitet", "BAktivitet", "", false),
        e("BAktivitet", "AAktivitet", "", false),
        e("BAktivitet", "CAktivitet", "", false),
        e("CAktivitet", "DAktivitet", "", false),
        e("DAktivitet", "CAktivitet", "", false),
    ];
    let groups = group_cycles(&cycles, &edges);
    let mut seen = std::collections::HashSet::new();
    for g in &groups {
        for m in g {
            assert!(seen.insert(m.clone()), "node in two groups: {}", m);
        }
    }
    for n in ["AAktivitet", "BAktivitet", "CAktivitet", "DAktivitet"] {
        assert!(seen.contains(n));
    }
}

#[test]
fn long_labels_are_truncated_in_lines() {
    let long1 = "x".repeat(45);
    let long2 = "y".repeat(45);
    let edges = vec![e("A", "B", &long1, false), e("A", "B", &long2, false)];
    let lines = consolidate_edges(&edges, &Vec::new(), true);
    assert_eq!(lines.len(), 1);
    let expect = format!("\"A\" -> \"B\" [label=\"{}...\"]", "x".repeat(40));
    assert_eq!(lines[0], expect);
}

#[test]
fn raw_edges_keep_duplicates() {
    let mut index = ProcessorIndex::new();
    index.merge("Start", "StartProcessor", &vec![t("End", None, false)], false);
    index.merge("End", "EndProcessor", &vec![], false);
    let classes = ClassIndex::new();
    let doc = generate_dot_graph("Sak", "Start", &index, &classes, "straight", false, false, false);
    assert!(doc.contains("  \"Start\" -> \"End\";\n"));
    assert!(doc.contains("  \"End\" -> \"end\";\n"));
}

#[test]
fn first_distinct_label_wins() {
    let edges = vec![
        e("A", "B", "first", false),
        e("A", "B", "second", false),
        e("A", "B", "first", false),
    ];
    let merged = consolidate_edge_list(&edges);
    assert_eq!(merged.len(), 1);
    assert_eq!(merged[0].label, "first");
}

#[test]
fn document_sections_appear_in_order() {
    let mut index = ProcessorIndex::new();
    index.merge("Start", "StartProcessor", &vec![t("End", None, false)], false);
    index.merge("End", "EndProcessor", &vec![], false);
    let classes = ClassIndex::new();
    let doc = generate_dot_graph("MinSak", "Start", &index, &classes, "ortho", false, true, true);
    assert!(doc.starts_with("digraph BehandlingFlow {\n"));
    assert!(doc.contains("  splines=ortho;\n"));
    assert!(doc.contains("label=\"MinSak Flow\""));
    assert!(doc.contains("  start -> \"Start\";\n"));
    assert!(doc.contains("\"Start\" -> \"End\""));
    assert!(doc.contains("<B>Legend</B>"));
    assert!(doc.ends_with("}\n"));
    let bare = generate_dot_graph("MinSak", "Start", &index, &classes, "curved", false, false, true);
    assert!(bare.contains("  splines=spline;\n"));
    assert!(!bare.contains("Legend"));
}
