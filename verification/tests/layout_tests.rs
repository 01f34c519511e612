use amas::builder::GraphBuilder;
use amas::file::File;
use amas::graph::WorkspaceGraph;
use amas::layout::compute_k;
use amas::layout::ForceDirectedLayout;
use amas::layout::Position;
use amas::layout::HEIGHT;
use amas::layout::WIDTH;
use amas::mathx::isqrt64;
use amas::workspace_layout::WorkspaceLayout;

fn s(v: &str) -> String {
    v.to_string()
}

fn sample_graph() -> WorkspaceGraph {
    let files = vec![s("/p/a.ts"), s("/p/b.ts"), s("/p/c.ts"), s("/p/d.ts"), s("/p/e.ts")];
    let imports = vec![
        (s("/p/a.ts"), s("/p/b.ts")),
        (s("/p/b.ts"), s("/p/c.ts")),
        (s("/p/b.ts"), s("/p/d.ts")),
        (s("/p/a.ts"), s("/p/e.ts")),
        (s("/p/b.ts"), s("/p/e.ts")),
    ];
    GraphBuilder::build_graph(&files, &imports).graph
}

#[test]
fn isqrt_rounds_down() {
    assert_eq!(isqrt64(0), 0);
    assert_eq!(isqrt64(1), 1);
    assert_eq!(isqrt64(10), 3);
    assert_eq!(isqrt64(999_999), 999);
    assert_eq!(isqrt64(1_000_000_000_000), 1_000_000);
}

#[test]
fn distance_is_euclidean_rounded_down() {
    let p = Position::new(0, 0);
    let q = Position::new(3000, 4000);
    assert_eq!(p.distance(&q), 5000);
    assert_eq!(q.distance(&p), 5000);
    assert_eq!(p.distance(&p), 0);
    let r = Position::new(1000, 1000);
    assert_eq!(p.distance(&r), 1414);
}

#[test]
fn ideal_edge_length_is_sqrt_of_area_per_node() {
    // the canvas is 800_000 x 600_000 milli-units
    assert_eq!(compute_k(1), 692_820);
    assert_eq!(compute_k(2), 489_897);
}

#[test]
fn force_magnitudes_follow_the_fixed_formulas() {
    let engine = ForceDirectedLayout::new(2);
    let k = compute_k(2);
    assert_eq!(k, 489_897);
    // repulsion at the ideal length is k; at distance zero, the constant
    assert_eq!(engine.calculate_repulsive_force(k), k);
    assert_eq!(engine.calculate_repulsive_force(0), 1_000_000);
    assert_eq!(engine.calculate_repulsive_force(1000), (k * k) / 1000);
    // attraction at the ideal length is k as well
    assert_eq!(engine.calculate_attractive_force(k), k);
    assert_eq!(engine.calculate_attractive_force(1000), 1_000_000 / k);
}

#[test]
fn seeded_initialization_is_reproducible_and_in_canvas() {
    let a = ForceDirectedLayout::new(16);
    let b = ForceDirectedLayout::new(16);
    assert_eq!(a.positions.len(), 16);
    for i in 0..16 {
        assert_eq!(a.positions[i], b.positions[i]);
        assert!(a.positions[i].x <= WIDTH);
        assert!(a.positions[i].y <= HEIGHT);
    }
    // and not all on one point
    assert!((0..16).any(|i| a.positions[i] != a.positions[0]));
}

#[test]
fn empty_graph_lays_out_to_an_empty_list() {
    let layout = WorkspaceLayout::new(WorkspaceGraph::new());
    let positions = layout.calculate_positions();
    assert!(positions.is_empty());
}

#[test]
fn every_position_stays_on_the_canvas() {
    let layout = WorkspaceLayout::new(sample_graph());
    let positions = layout.calculate_positions();
    assert_eq!(positions.len(), 5);
    for (_, p, conn) in positions.iter() {
        assert!(p.x <= WIDTH && p.y <= HEIGHT);
        for q in conn.iter() {
            assert!(q.x <= WIDTH && q.y <= HEIGHT);
        }
    }
}

#[test]
fn layout_is_deterministic_across_runs() {
    let layout = WorkspaceLayout::new(sample_graph());
    let first = layout.calculate_positions();
    let second = layout.calculate_positions();
    assert_eq!(first.len(), second.len());
    for i in 0..first.len() {
        assert_eq!(first[i].0.name, second[i].0.name);
        assert_eq!(first[i].1, second[i].1);
        assert_eq!(first[i].2, second[i].2);
    }
}

#[test]
fn connected_positions_follow_the_edges() {
    let layout = WorkspaceLayout::new(sample_graph());
    let positions = layout.calculate_positions();
    // node a (index 0) connects to b and e, one entry per edge instance
    assert_eq!(positions[0].2.len(), 2);
    assert_eq!(positions[0].2[0], positions[1].1);
    assert_eq!(positions[0].2[1], positions[4].1);
    // node b (index 1) connects to a, c, d, e
    assert_eq!(positions[1].2.len(), 4);
    assert_eq!(positions[1].2[0], positions[0].1);
    // node c (index 2) connects to b alone
    assert_eq!(positions[2].2, vec![positions[1].1]);
}

#[test]
fn temperature_cools_and_positions_move_under_iterate() {
    let g = sample_graph();
    let edges = g.edge_list();
    let mut engine = ForceDirectedLayout::new(5);
    let before = engine.temperature;
    engine.iterate(&edges);
    assert_eq!(engine.temperature, before * 95 / 100);
    assert_eq!(engine.positions.len(), 5);
}
