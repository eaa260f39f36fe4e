use flowgraph::classes::{build_class_index, extract_type_name, find_workflow_roots, is_alde_aktivitet};
use flowgraph::model::ClassIndex;
use flowgraph::processors::{build_processor_index, extract_type_parameter, has_manuell_behandling_call};
use flowgraph::syntax::{SourceTree, SyntaxNode, SyntaxTree};
use flowgraph::textscan::{
    extract_all_activity_constructors, find_next_constructor, is_inside_collection_operation,
    is_likely_aktivitet_class,
};
use flowgraph::transitions::extract_neste_aktivitet_calls;

fn n(kind: &str, text: &str, children: Vec<usize>) -> SyntaxNode {
    SyntaxNode { kind: kind.to_string(), text: text.to_string(), children }
}

fn single_call(nodes: &mut Vec<SyntaxNode>, callee: &str, target: &str) -> usize {
    let base = nodes.len();
    let text = format!("{}({}())", callee, target);
    nodes.push(n("call_expression", &text, vec![base + 1, base + 2]));
    nodes.push(n("simple_identifier", callee, vec![]));
    nodes.push(n("call_suffix", "", vec![base + 3]));
    nodes.push(n("value_arguments", "", vec![base + 4]));
    nodes.push(n("value_argument", "", vec![base + 5]));
    nodes.push(n("call_expression", &format!("{}()", target), vec![base + 6]));
    nodes.push(n("simple_identifier", target, vec![]));
    base
}

#[test]
fn likelihood_heuristic() {
    assert!(is_likely_aktivitet_class("VurderKravAktivitet"));
    assert!(is_likely_aktivitet_class("ChildActivity"));
    assert!(is_likely_aktivitet_class("AktivitetHolder"));
    assert!(!is_likely_aktivitet_class("vurderKravAktivitet"));
    assert!(!is_likely_aktivitet_class("Vurder-Aktivitet"));
    assert!(!is_likely_aktivitet_class("Ab"));
    assert!(!is_likely_aktivitet_class("VurderKrav"));
    let long = format!("{}Aktivitet", "X".repeat(100));
    assert!(!is_likely_aktivitet_class(&long));
}

#[test]
fn constructor_scan() {
    let m = find_next_constructor("foo BarAktivitet(x)").unwrap();
    assert_eq!(m.start, 4);
    assert_eq!(m.name, "BarAktivitet");
    assert_eq!(m.length, 13);
    assert!(find_next_constructor("ingen konstruktor her").is_none());
    let inner = find_next_constructor("nesteAktiviteter(").unwrap();
    assert_eq!(inner.start, 5);
    assert_eq!(inner.name, "Aktiviteter");
}

#[test]
fn textual_fallback_collects_distinct_names() {
    let mut out = Vec::new();
    extract_all_activity_constructors(
        "listOf(FooAktivitet(), BarAktivitet(), FooAktivitet())",
        &mut out,
        Some("flagg".to_string()),
    );
    let names: Vec<&str> = out.iter().map(|t| t.aktivitet_name.as_str()).collect();
    assert_eq!(names, vec!["FooAktivitet", "BarAktivitet"]);
    assert!(out.iter().all(|t| t.condition.as_deref() == Some("flagg")));
    assert!(out.iter().all(|t| !t.is_collection));

    let mut out2 = Vec::new();
    extract_all_activity_constructors("it.map { BarnAktivitet() }", &mut out2, None);
    assert_eq!(out2.len(), 1);
    assert!(out2[0].is_collection);
}

#[test]
fn open_collection_detection() {
    assert!(is_inside_collection_operation("barn.map { BarnAktivitet"));
    assert!(!is_inside_collection_operation("barn.map { BarnAktivitet() }"));
    assert!(is_inside_collection_operation("x.forEach { noe"));
}

#[test]
fn if_else_yields_one_transition_per_branch() {
    let mut nodes = Vec::new();
    nodes.push(n("function_declaration", "fun doProcess()", vec![1, 2]));
    nodes.push(n("simple_identifier", "doProcess", vec![]));
    nodes.push(n("function_body", "", vec![3]));
    nodes.push(n("if_expression", "if (flag==true) ...", vec![4, 5, 6, 7, 8, 16, 17]));
    nodes.push(n("if", "if", vec![]));
    nodes.push(n("(", "(", vec![]));
    nodes.push(n("equality_expression", "flag==true", vec![]));
    nodes.push(n(")", ")", vec![]));
    nodes.push(n("control_structure_body", "", vec![9]));
    assert_eq!(nodes.len(), 9);
    let mut rest = Vec::new();
    let ja = single_call(&mut rest, "nesteAktivitet", "JaAktivitet");
    assert_eq!(ja, 0);
    for node in &mut rest {
        for c in &mut node.children {
            *c += 9;
        }
    }
    nodes.extend(rest);
    nodes.push(n("else", "else", vec![]));
    nodes.push(n("control_structure_body", "", vec![18]));
    let mut rest2 = Vec::new();
    single_call(&mut rest2, "nesteAktivitet", "NeiAktivitet");
    for node in &mut rest2 {
        for c in &mut node.children {
            *c += 18;
        }
    }
    nodes.extend(rest2);
    let tree = SyntaxTree { nodes };
    assert!(tree.check_wf());
    let ts = extract_neste_aktivitet_calls(&tree, 0);
    assert_eq!(ts.len(), 2);
    assert_eq!(ts[0].aktivitet_name, "JaAktivitet");
    assert_eq!(ts[0].condition.as_deref(), Some("flag==true"));
    assert!(!ts[0].is_collection);
    assert_eq!(ts[1].aktivitet_name, "NeiAktivitet");
    assert_eq!(ts[1].condition.as_deref(), Some("NOT (flag==true)"));
}

#[test]
fn fan_out_through_map_lambda() {
    let mut nodes = Vec::new();
    nodes.push(n("function_declaration", "fun doProcess()", vec![1, 2]));
    nodes.push(n("simple_identifier", "doProcess", vec![]));
    nodes.push(n("function_body", "", vec![3]));
    nodes.push(n(
        "call_expression",
        "nesteAktiviteter(barn.map { ChildActivity(it) })",
        vec![4, 5],
    ));
    nodes.push(n("simple_identifier", "nesteAktiviteter", vec![]));
    nodes.push(n("call_suffix", "", vec![6]));
    nodes.push(n("value_arguments", "", vec![7]));
    nodes.push(n("value_argument", "", vec![8]));
    nodes.push(n("call_expression", "barn.map { ChildActivity(it) }", vec![9, 10]));
    nodes.push(n("navigation_expression", "barn.map", vec![]));
    nodes.push(n("call_suffix", "", vec![11]));
    nodes.push(n("annotated_lambda", "", vec![12]));
    nodes.push(n("lambda_literal", "", vec![13]));
    nodes.push(n("call_expression", "ChildActivity(it)", vec![14]));
    nodes.push(n("simple_identifier", "ChildActivity", vec![]));
    let tree = SyntaxTree { nodes };
    assert!(tree.check_wf());
    let ts = extract_neste_aktivitet_calls(&tree, 0);
    assert_eq!(ts.len(), 1);
    assert_eq!(ts[0].aktivitet_name, "ChildActivity");
    assert!(ts[0].is_collection);
    assert_eq!(ts[0].condition, None);
}

#[test]
fn fallback_runs_only_without_structural_findings() {
    let mut nodes = Vec::new();
    nodes.push(n(
        "function_declaration",
        "fun doProcess() = nesteAktiviteter(listOf(EkstraAktivitet()))",
        vec![1, 2],
    ));
    nodes.push(n("simple_identifier", "doProcess", vec![]));
    nodes.push(n("function_body", "", vec![]));
    let tree = SyntaxTree { nodes };
    assert!(tree.check_wf());
    let ts = extract_neste_aktivitet_calls(&tree, 0);
    let names: Vec<&str> = ts.iter().map(|t| t.aktivitet_name.as_str()).collect();
    assert_eq!(names, vec!["Aktiviteter", "EkstraAktivitet"]);
}

#[test]
fn generic_pattern_needs_multi_call_text() {
    let tree = SyntaxTree {
        nodes: vec![n(
            "call_expression",
            "nesteAktiviteter(listOf(BarnAktivitet()))",
            vec![],
        )],
    };
    assert!(tree.check_wf());
    let mut out = Vec::new();
    flowgraph::transitions::extract_aktiviteter_from_generic_nesteAktiviteter_pattern(
        &tree, 0, &mut out, None,
    );
    let names: Vec<&str> = out.iter().map(|t| t.aktivitet_name.as_str()).collect();
    assert_eq!(names, vec!["Aktiviteter", "BarnAktivitet"]);

    let tree2 = SyntaxTree {
        nodes: vec![n("call_expression", "nesteAktivitet(BarnAktivitet())", vec![])],
    };
    let mut out2 = Vec::new();
    flowgraph::transitions::extract_aktiviteter_from_generic_nesteAktiviteter_pattern(
        &tree2, 0, &mut out2, None,
    );
    assert!(out2.is_empty());
}

#[test]
fn nested_multi_call_search_descends_by_text() {
    let mut nodes = Vec::new();
    nodes.push(n(
        "binary_expression",
        "foo + nesteAktiviteter(BarnAktivitet())",
        vec![1],
    ));
    let mut rest = Vec::new();
    single_call(&mut rest, "nesteAktiviteter", "BarnAktivitet");
    for node in &mut rest {
        for c in &mut node.children {
            *c += 1;
        }
    }
    nodes.extend(rest);
    let tree = SyntaxTree { nodes };
    assert!(tree.check_wf());
    let mut out = Vec::new();
    flowgraph::transitions::search_for_nested_neste_aktiviteter(&tree, 0, &mut out, None);
    assert_eq!(out.len(), 1);
    assert_eq!(out[0].aktivitet_name, "BarnAktivitet");
    assert!(out[0].is_collection);
}

fn processor_tree() -> SyntaxTree {
    let mut nodes = Vec::new();
    nodes.push(n("source_file", "", vec![1]));
    nodes.push(n("class_declaration", "class StartAktivitetProcessor ...", vec![2, 3, 12]));
    nodes.push(n("type_identifier", "StartAktivitetProcessor", vec![]));
    nodes.push(n("delegation_specifier", "", vec![4]));
    nodes.push(n("constructor_invocation", "", vec![5]));
    nodes.push(n("user_type", "", vec![6, 7]));
    nodes.push(n("type_identifier", "AktivitetProcessor", vec![]));
    nodes.push(n("type_arguments", "", vec![8, 10]));
    nodes.push(n("type_projection", "", vec![9]));
    nodes.push(n("type_identifier", "Behandling", vec![]));
    nodes.push(n("type_projection", "", vec![11]));
    nodes.push(n("type_identifier", "StartAktivitet", vec![]));
    nodes.push(n(
        "function_declaration",
        "fun doProcess() { behandling.manuellBehandling = ManuellBehandling() }",
        vec![13, 14],
    ));
    nodes.push(n("simple_identifier", "doProcess", vec![]));
    nodes.push(n("function_body", "", vec![15, 16]));
    nodes.push(n(
        "assignment",
        "behandling.manuellBehandling = ManuellBehandling()",
        vec![],
    ));
    let mut rest = Vec::new();
    single_call(&mut rest, "nesteAktivitet", "EndAktivitet");
    for node in &mut rest {
        for c in &mut node.children {
            *c += 16;
        }
    }
    nodes.extend(rest);
    SyntaxTree { nodes }
}

#[test]
fn processor_index_from_tree() {
    let tree = processor_tree();
    assert!(tree.check_wf());
    assert_eq!(extract_type_parameter(&tree, 3).as_deref(), Some("StartAktivitet"));
    assert!(has_manuell_behandling_call(&tree, 12));
    let trees = vec![SourceTree { file: "prosessor.kt".to_string(), tree }];
    let index = build_processor_index(&trees);
    assert_eq!(index.len(), 1);
    let info = index.get("StartAktivitet").unwrap();
    assert_eq!(info.processor_class, "StartAktivitetProcessor");
    assert!(info.has_manuell_behandling);
    assert_eq!(info.next_aktiviteter.len(), 1);
    assert_eq!(info.next_aktiviteter[0].aktivitet_name, "EndAktivitet");
}

#[test]
fn class_index_and_roots() {
    let mut nodes = Vec::new();
    nodes.push(n("source_file", "", vec![1]));
    nodes.push(n("class_declaration", "class MinSakBehandling ...", vec![2, 3, 6]));
    nodes.push(n("type_identifier", "MinSakBehandling", vec![]));
    nodes.push(n("delegation_specifier", "", vec![4]));
    nodes.push(n("constructor_invocation", "", vec![5]));
    nodes.push(n("type_identifier", "Behandling", vec![]));
    nodes.push(n("function_declaration", "fun opprettInitiellAktivitet()", vec![7, 8]));
    nodes.push(n("simple_identifier", "opprettInitiellAktivitet", vec![]));
    nodes.push(n("function_body", "", vec![9]));
    nodes.push(n("call_expression", "StartAktivitet()", vec![10]));
    nodes.push(n("simple_identifier", "StartAktivitet", vec![]));
    let tree = SyntaxTree { nodes };
    assert!(tree.check_wf());
    assert_eq!(extract_type_name(&tree, 4), "Behandling");
    let trees = vec![SourceTree { file: "sak.kt".to_string(), tree }];
    let index = build_class_index(&trees);
    assert_eq!(index.len(), 1);
    let info = index.get("MinSakBehandling").unwrap();
    assert_eq!(info.supertypes, vec!["Behandling".to_string()]);
    assert_eq!(info.initial_aktivitet.as_deref(), Some("StartAktivitet"));
    let roots = find_workflow_roots(&index);
    assert_eq!(roots.len(), 1);
    assert_eq!(roots[0].0, "MinSakBehandling");
    assert_eq!(roots[0].1, "StartAktivitet");
}

#[test]
fn later_declaration_overwrites_earlier() {
    let mut index = ClassIndex::new();
    index.insert(flowgraph::model::ClassInfo {
        name: "SakAktivitet".to_string(),
        file: "a.kt".to_string(),
        supertypes: vec![],
        initial_aktivitet: None,
    });
    index.insert(flowgraph::model::ClassInfo {
        name: "SakAktivitet".to_string(),
        file: "b.kt".to_string(),
        supertypes: vec!["AldeAktivitet".to_string()],
        initial_aktivitet: None,
    });
    assert_eq!(index.len(), 1);
    assert_eq!(index.get("SakAktivitet").unwrap().file, "b.kt");
}

#[test]
fn alde_marker_lookup() {
    let mut index = ClassIndex::new();
    index.insert(flowgraph::model::ClassInfo {
        name: "ViktigAktivitet".to_string(),
        file: "a.kt".to_string(),
        supertypes: vec!["AldeAktivitet".to_string()],
        initial_aktivitet: None,
    });
    assert!(is_alde_aktivitet("ViktigAktivitet", &index));
    assert!(!is_alde_aktivitet("AnnenAktivitet", &index));
}
