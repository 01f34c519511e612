use amas::builder::GraphBuilder;
use amas::file::File;
use amas::graph::WorkspaceGraph;

fn s(v: &str) -> String {
    v.to_string()
}

#[test]
fn empty_graph_has_no_nodes_or_edges() {
    let g = WorkspaceGraph::new();
    assert_eq!(g.node_count(), 0);
    assert_eq!(g.edge_count(), 0);
    assert!(g.files().is_empty());
    assert!(g.edge_list().is_empty());
}

#[test]
fn add_file_assigns_sequential_indices_and_keeps_payloads() {
    let mut g = WorkspaceGraph::new();
    let a = g.add_file(File::new(s("/p/a.ts")));
    let b = g.add_file(File::new(s("/p/b.ts")));
    assert_eq!(a, 0);
    assert_eq!(b, 1);
    let files = g.files();
    assert_eq!(files.len(), 2);
    assert_eq!(files[0].name, "/p/a.ts");
    assert_eq!(files[1].name, "/p/b.ts");
}

#[test]
fn add_import_keeps_endpoints_in_order() {
    let mut g = WorkspaceGraph::new();
    let a = g.add_file(File::new(s("/p/a.ts")));
    let b = g.add_file(File::new(s("/p/b.ts")));
    g.add_import(a, b);
    assert_eq!(g.edge_count(), 1);
    assert_eq!(g.edge_list(), vec![(0, 1)]);
}

#[test]
fn parallel_edges_and_self_loops_are_kept() {
    let mut g = WorkspaceGraph::new();
    let a = g.add_file(File::new(s("/p/a.ts")));
    let b = g.add_file(File::new(s("/p/b.ts")));
    g.add_import(a, b);
    g.add_import(a, b);
    g.add_import(a, a);
    assert_eq!(g.edge_count(), 3);
    assert_eq!(g.edge_list(), vec![(0, 1), (0, 1), (0, 0)]);
    // a self-loop counts twice, each parallel edge separately
    assert_eq!(g.degree(a), 4);
    assert_eq!(g.degree(b), 2);
}

#[test]
fn builder_reuses_node_for_repeated_canonical_path() {
    let mut b = GraphBuilder::new();
    let first = b.insert_file(s("/p/a.ts"));
    let again = b.insert_file(s("/p/a.ts"));
    let other = b.insert_file(s("/p/b.ts"));
    assert_eq!(first, 0);
    assert_eq!(again, 0);
    assert_eq!(other, 1);
    assert_eq!(b.graph.node_count(), 2);
}

#[test]
fn builder_link_skips_unknown_targets() {
    let mut b = GraphBuilder::new();
    let a = b.insert_file(s("/p/a.ts"));
    b.insert_file(s("/p/b.ts"));
    b.link(a, &s("/p/missing.ts"));
    assert_eq!(b.graph.edge_count(), 0);
    b.link(a, &s("/p/b.ts"));
    assert_eq!(b.graph.edge_list(), vec![(0, 1)]);
}

#[test]
fn find_node_returns_first_index_or_none() {
    let mut b = GraphBuilder::new();
    b.insert_file(s("/p/a.ts"));
    b.insert_file(s("/p/b.ts"));
    assert_eq!(b.find_node(&s("/p/b.ts")), Some(1));
    assert_eq!(b.find_node(&s("/p/c.ts")), None);
}

#[test]
fn five_files_five_imports_give_expected_degrees() {
    let files = vec![s("/p/a.ts"), s("/p/b.ts"), s("/p/c.ts"), s("/p/d.ts"), s("/p/e.ts")];
    let imports = vec![
        (s("/p/a.ts"), s("/p/b.ts")),
        (s("/p/b.ts"), s("/p/c.ts")),
        (s("/p/b.ts"), s("/p/d.ts")),
        (s("/p/a.ts"), s("/p/e.ts")),
        (s("/p/b.ts"), s("/p/e.ts")),
    ];
    let b = GraphBuilder::build_graph(&files, &imports);
    assert_eq!(b.graph.node_count(), 5);
    assert_eq!(b.graph.edge_count(), 5);
    let a = b.find_node(&s("/p/a.ts")).unwrap();
    let bb = b.find_node(&s("/p/b.ts")).unwrap();
    let c = b.find_node(&s("/p/c.ts")).unwrap();
    let d = b.find_node(&s("/p/d.ts")).unwrap();
    let e = b.find_node(&s("/p/e.ts")).unwrap();
    assert_eq!(b.graph.degree(a), 2);
    assert_eq!(b.graph.degree(bb), 4);
    assert_eq!(b.graph.degree(c), 1);
    assert_eq!(b.graph.degree(d), 1);
    assert_eq!(b.graph.degree(e), 2);
}

#[test]
fn build_graph_drops_imports_with_unknown_endpoints() {
    let files = vec![s("/p/a.ts"), s("/p/b.ts")];
    let imports = vec![
        (s("/p/a.ts"), s("/p/b.ts")),
        (s("/p/a.ts"), s("/outside/x.ts")),
        (s("/outside/y.ts"), s("/p/b.ts")),
    ];
    let b = GraphBuilder::build_graph(&files, &imports);
    assert_eq!(b.graph.node_count(), 2);
    assert_eq!(b.graph.edge_list(), vec![(0, 1)]);
}
