use amas::canva_state::CanvaState;
use amas::file::File;
use amas::graph::WorkspaceGraph;
use amas::view_state::ViewState;
use amas::view_state::MAX_ZOOM;
use amas::view_state::MIN_ZOOM;
use amas::workspace_layout::WorkspaceLayout;

fn s(v: &str) -> String {
    v.to_string()
}

fn empty_layout() -> WorkspaceLayout {
    WorkspaceLayout::new(WorkspaceGraph::new())
}

#[test]
fn fresh_viewport_is_identity() {
    let v = ViewState::new();
    assert_eq!(v.zoom, 1000);
    assert_eq!(v.translation_x, 0);
    assert_eq!(v.translation_y, 0);
    assert!(!v.drag_started);
}

#[test]
fn zoom_keeps_world_point_under_pointer() {
    let mut v = ViewState::new();
    v.track_pointer(123_456, 789_000);
    let before = v.world_at(123_456, 789_000);
    v.zoom_by(500);
    assert_eq!(v.zoom, 1500);
    let after = v.world_at(123_456, 789_000);
    assert_eq!(before, after);
    // and again zooming out
    v.zoom_by(-700);
    assert_eq!(v.zoom, 800);
    let again = v.world_at(123_456, 789_000);
    assert_eq!(before, again);
}

#[test]
fn zoom_is_clamped_to_its_bounds() {
    let mut layout = empty_layout();
    layout.zoom(1_000_000);
    assert_eq!(layout.view_state.zoom, MAX_ZOOM);
    assert!(layout.max_zoom_reached());
    layout.zoom(-9_000_000);
    assert_eq!(layout.view_state.zoom, MIN_ZOOM);
    assert!(!layout.max_zoom_reached());
    // at a bound, a push past it changes nothing at all
    let tx = layout.view_state.translation_x;
    layout.zoom(-50);
    assert_eq!(layout.view_state.zoom, MIN_ZOOM);
    assert_eq!(layout.view_state.translation_x, tx);
}

#[test]
fn drag_accumulates_translation_incrementally() {
    let mut layout = empty_layout();
    layout.track_mouse_position(100, 200);
    layout.start_mouse_drag();
    layout.track_mouse_position(150, 260);
    assert_eq!(layout.view_state.translation_x, 50);
    assert_eq!(layout.view_state.translation_y, 60);
    // the next move is measured from the previous position, not the start
    layout.track_mouse_position(160, 250);
    assert_eq!(layout.view_state.translation_x, 60);
    assert_eq!(layout.view_state.translation_y, 50);
    layout.end_mouse_drag();
    layout.track_mouse_position(500, 500);
    assert_eq!(layout.view_state.translation_x, 60);
    assert_eq!(layout.view_state.translation_y, 50);
}

#[test]
fn wheel_move_shifts_translation() {
    let mut layout = empty_layout();
    layout.move_(-30, 45);
    layout.move_(10, 5);
    assert_eq!(layout.view_state.translation_x, -20);
    assert_eq!(layout.view_state.translation_y, 50);
}

#[test]
fn hit_test_returns_first_containing_box_or_none() {
    let mut layout = empty_layout();
    layout.canva_state = CanvaState {
        files: vec![
            (File::new(s("a.ts")), (0, 0, 100, 100)),
            (File::new(s("b.ts")), (200, 0, 300, 100)),
            (File::new(s("c.ts")), (250, 0, 350, 100)),
        ],
    };
    assert_eq!(layout.get_file_at_position(50, 50), Some(s("a.ts")));
    assert_eq!(layout.get_file_at_position(210, 50), Some(s("b.ts")));
    // inside two overlapping boxes the first drawn wins
    assert_eq!(layout.get_file_at_position(260, 50), Some(s("b.ts")));
    assert_eq!(layout.get_file_at_position(340, 50), Some(s("c.ts")));
    // strictly outside every box
    assert_eq!(layout.get_file_at_position(150, 50), None);
    assert_eq!(layout.get_file_at_position(50, 500), None);
    // edges count as inside
    assert_eq!(layout.get_file_at_position(0, 0), Some(s("a.ts")));
    assert_eq!(layout.get_file_at_position(100, 100), Some(s("a.ts")));
}

#[test]
fn hover_tracks_the_box_under_the_pointer() {
    let mut layout = empty_layout();
    layout.canva_state = CanvaState { files: vec![(File::new(s("a.ts")), (0, 0, 100, 100))] };
    layout.track_hovered_file(50, 50);
    assert_eq!(layout.get_hovered_file(), Some(s("a.ts")));
    layout.track_hovered_file(500, 500);
    assert_eq!(layout.get_hovered_file(), None);
}

#[test]
fn click_selects_exactly_the_hovered_file() {
    let mut layout = empty_layout();
    layout.canva_state = CanvaState { files: vec![(File::new(s("a.ts")), (0, 0, 100, 100))] };
    layout.track_hovered_file(10, 10);
    layout.select_file_hovered_file();
    assert_eq!(layout.get_selected_files(), vec![s("a.ts")]);
    layout.track_hovered_file(500, 500);
    layout.select_file_hovered_file();
    assert!(layout.get_selected_files().is_empty());
}

#[test]
fn multiselect_toggles_membership() {
    let mut layout = empty_layout();
    layout.canva_state = CanvaState {
        files: vec![
            (File::new(s("a.ts")), (0, 0, 100, 100)),
            (File::new(s("b.ts")), (200, 0, 300, 100)),
        ],
    };
    layout.track_hovered_file(10, 10);
    layout.multiselect_files_hovered_file();
    layout.track_hovered_file(210, 10);
    layout.multiselect_files_hovered_file();
    assert_eq!(layout.get_selected_files(), vec![s("a.ts"), s("b.ts")]);
    // toggling an already selected file removes it
    layout.track_hovered_file(10, 10);
    layout.multiselect_files_hovered_file();
    assert_eq!(layout.get_selected_files(), vec![s("b.ts")]);
    // with nothing hovered, nothing changes
    layout.track_hovered_file(500, 500);
    layout.multiselect_files_hovered_file();
    assert_eq!(layout.get_selected_files(), vec![s("b.ts")]);
}

#[test]
fn draw_builds_screen_boxes_from_layout_and_viewport() {
    let files = vec![s("/p/a.ts"), s("/p/b.ts")];
    let imports = vec![(s("/p/a.ts"), s("/p/b.ts"))];
    let b = amas::builder::GraphBuilder::build_graph(&files, &imports);
    let mut layout = WorkspaceLayout::new(b.graph);
    let scene = layout.draw();
    assert_eq!(scene.len(), 2);
    let positions = layout.calculate_positions();
    for i in 0..2 {
        // at unit zoom and zero translation the screen center is the world
        // position times 1000 (milli-units times per-mille zoom)
        assert_eq!(scene[i].x, positions[i].1.x as i64 * 1000);
        assert_eq!(scene[i].y, positions[i].1.y as i64 * 1000);
        // a box of side 40 logical units at unit zoom, around the center
        assert_eq!(scene[i].x2 - scene[i].x1, 40_000_000);
        assert_eq!(scene[i].y2 - scene[i].y1, 40_000_000);
        assert_eq!(scene[i].x - scene[i].x1, 20_000_000);
        assert_eq!(scene[i].file.name, files[i]);
    }
    // each node's one edge points at the other node's screen center
    assert_eq!(scene[0].connected, vec![(scene[1].x, scene[1].y)]);
    assert_eq!(scene[1].connected, vec![(scene[0].x, scene[0].y)]);
    // the hit boxes were stored for hover queries
    let hit = layout.get_file_at_position(scene[0].x, scene[0].y);
    assert_eq!(hit, Some(s("/p/a.ts")));
}
