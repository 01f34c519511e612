use vstd::prelude::*;

use crate::canva_state::CanvaState;
use crate::file::File;
use crate::graph::WorkspaceGraph;
use crate::layout::ForceDirectedLayout;
use crate::layout::INITIAL_TEMPERATURE;
use crate::layout::Position;
use crate::layout::ideal_k;
use crate::layout::in_canvas;
use crate::layout::init_positions;
use crate::layout::layout_positions;
use crate::layout::lemma_run_len;
use crate::selection_state::SelectionState;
use crate::selection_state::spec_hit;
use crate::view_state::TRANSLATION_CAP;
use crate::view_state::ViewState;
use crate::view_state::spec_move;
use crate::view_state::spec_track;
use crate::view_state::spec_zoom;
use crate::view_state::MAX_ZOOM;

verus! {

/// How many iterations one layout runs.
pub const LAYOUT_ITERATIONS: usize = 100;

/// The world positions, in edge order, of every node an edge connects to
/// node `i` among the first `upto` edges — one entry per edge instance,
/// so parallel edges appear repeatedly.
pub open spec fn spec_connected(
    edges: Seq<(usize, usize)>,
    pos: Seq<Position>,
    i: int,
    upto: int,
) -> Seq<Position>
    decreases upto,
{
    if upto <= 0 {
        Seq::<Position>::empty()
    } else {
        let prefix = spec_connected(edges, pos, i, upto - 1);
        let e = edges[upto - 1];
        if e.0 == i {
            prefix.push(pos[e.1 as int])
        } else if e.1 == i {
            prefix.push(pos[e.0 as int])
        } else {
            prefix
        }
    }
}

/// A world coordinate on screen: scaled by the zoom, shifted by the
/// translation (milli-units times per-mille zoom gives micro-units).
pub open spec fn spec_screen(w: int, zoom: int, t: int) -> int {
    w * zoom + t
}

/// Half the side of a node's screen box: the box is a square of side 40
/// logical units times the zoom.
pub open spec fn spec_half_box(zoom: int) -> int {
    20_000 * zoom
}

/// World positions to screen points.
pub open spec fn spec_screen_pts(ps: Seq<Position>, zoom: int, tx: int, ty: int) -> Seq<
    (i64, i64),
> {
    Seq::new(
        ps.len(),
        |j: int|
            (
                spec_screen(ps[j].x as int, zoom, tx) as i64,
                spec_screen(ps[j].y as int, zoom, ty) as i64,
            ),
    )
}

/// Maps a world coordinate to the screen.
fn screen_coord(w: u64, zoom: u64, t: i64) -> (r: i64)
    requires
        w <= 1_000_000,
        zoom <= 10_000,
        -TRANSLATION_CAP <= t <= TRANSLATION_CAP,
    ensures
        r == spec_screen(w as int, zoom as int, t as int),
        -0x90_0000_0000_0000 <= r <= 0x90_0000_0000_0000,
    no_unwind
{
    proof {
        assert(0 <= (w as int) * (zoom as int) <= 10_000_000_000) by (nonlinear_arith)
            requires
                0 <= w <= 1_000_000,
                0 <= zoom <= 10_000,
        ;
    }
    (w as i64) * (zoom as i64) + t
}

/// Builds the scene entry of one node: the file, its screen center, the
/// screen points of its connected nodes, and its hit-test box.
#[verifier::loop_isolation(false)]
fn draw_item(item: &(File, Position, Vec<Position>), zoom: u64, tx: i64, ty: i64, half: i64) -> (d:
    DrawItem)
    requires
        in_canvas(item.1),
        forall|u: int| 0 <= u < item.2@.len() ==> in_canvas(#[trigger] item.2@[u]),
        100 <= zoom <= 10_000,
        -TRANSLATION_CAP <= tx <= TRANSLATION_CAP,
        -TRANSLATION_CAP <= ty <= TRANSLATION_CAP,
        half == spec_half_box(zoom as int),
        0 <= half <= 200_000_000,
    ensures
        d.file == item.0,
        d.x == spec_screen(item.1.x as int, zoom as int, tx as int),
        d.y == spec_screen(item.1.y as int, zoom as int, ty as int),
        d.connected@ == spec_screen_pts(item.2@, zoom as int, tx as int, ty as int),
        d.x1 == d.x - spec_half_box(zoom as int),
        d.y1 == d.y - spec_half_box(zoom as int),
        d.x2 == d.x + spec_half_box(zoom as int),
        d.y2 == d.y + spec_half_box(zoom as int),
{
    let sx = screen_coord(item.1.x, zoom, tx);
    let sy = screen_coord(item.1.y, zoom, ty);
    let mut conn: Vec<(i64, i64)> = Vec::new();
    let mut j: usize = 0;
    while j < item.2.len()
        invariant
            j <= item.2@.len(),
            conn@.len() == j,
            forall|u: int|
                0 <= u < j ==> #[trigger] conn@[u] == (
                    spec_screen(item.2@[u].x as int, zoom as int, tx as int) as i64,
                    spec_screen(item.2@[u].y as int, zoom as int, ty as int) as i64,
                ),
        decreases item.2@.len() - j,
    {
        let q = item.2[j];
        let qx = screen_coord(q.x, zoom, tx);
        let qy = screen_coord(q.y, zoom, ty);
        conn.push((qx, qy));
        j = j + 1;
    }
    proof {
        assert(conn@ =~= spec_screen_pts(item.2@, zoom as int, tx as int, ty as int));
    }
    let file = File::new(item.0.name.clone());
    DrawItem { file, x: sx, y: sy, connected: conn, x1: sx - half, y1: sy - half, x2: sx + half, y2: sy + half }
}

/// One node of the drawn scene: its file, its center on screen, the
/// screen centers of the nodes its edges connect it to (one per edge
/// instance), and its hit-test box.
pub struct DrawItem {
    pub file: File,
    pub x: i64,
    pub y: i64,
    pub connected: Vec<(i64, i64)>,
    pub x1: i64,
    pub y1: i64,
    pub x2: i64,
    pub y2: i64,
}

/// Every position a node is connected to is one of the layout's, so it
/// stays on the canvas.
pub proof fn lemma_connected_in_canvas(
    edges: Seq<(usize, usize)>,
    pos: Seq<Position>,
    i: int,
    upto: int,
    u: int,
)
    requires
        forall|t: int| 0 <= t < pos.len() ==> in_canvas(#[trigger] pos[t]),
        forall|e: int|
            0 <= e < edges.len() ==> (#[trigger] edges[e]).0 < pos.len() && edges[e].1 < pos.len(),
        0 <= upto <= edges.len(),
        0 <= u < spec_connected(edges, pos, i, upto).len(),
    ensures
        in_canvas(spec_connected(edges, pos, i, upto)[u]),
    decreases upto,
{
    if upto <= 0 {
    } else {
        let prefix = spec_connected(edges, pos, i, upto - 1);
        if u < prefix.len() {
            lemma_connected_in_canvas(edges, pos, i, upto - 1, u);
        }
    }
}

/// What one scene entry must hold: the node's file, its layout position
/// mapped to the screen under the given viewport, its connected nodes'
/// screen points, and the box of side 40 logical units times the zoom
/// around the center.
pub open spec fn scene_entry_ok(g: WorkspaceGraph, v: ViewState, d: DrawItem, i: int) -> bool {
    let lay = layout_positions(g.nodes().len(), g.edges(), LAYOUT_ITERATIONS as nat);
    let zoom = v.zoom as int;
    let tx = v.translation_x as int;
    let ty = v.translation_y as int;
    &&& d.file == g.nodes()[i]
    &&& d.x == spec_screen(lay[i].x as int, zoom, tx)
    &&& d.y == spec_screen(lay[i].y as int, zoom, ty)
    &&& d.connected@ == spec_screen_pts(
        spec_connected(g.edges(), lay, i, g.edges().len() as int),
        zoom,
        tx,
        ty,
    )
    &&& d.x1 == d.x - spec_half_box(zoom)
    &&& d.y1 == d.y - spec_half_box(zoom)
    &&& d.x2 == d.x + spec_half_box(zoom)
    &&& d.y2 == d.y + spec_half_box(zoom)
}

/// The whole interactive view over one workspace graph: the graph, the
/// pan/zoom viewport, the hover/selection state, and the boxes of the
/// last draw.
pub struct WorkspaceLayout {
    pub workspace_graph: WorkspaceGraph,
    pub view_state: ViewState,
    pub selection_state: SelectionState,
    pub canva_state: CanvaState,
}

impl WorkspaceLayout {
    pub open spec fn wf(self) -> bool {
        &&& self.workspace_graph.wf()
        &&& self.view_state.wf()
        &&& self.selection_state.wf()
    }

    pub fn new(workspace_graph: WorkspaceGraph) -> (w: WorkspaceLayout)
        requires
            workspace_graph.wf(),
        ensures
            w.wf(),
            w.workspace_graph == workspace_graph,
            w.view_state.zoom == crate::view_state::UNIT_ZOOM,
            w.view_state.translation_x == 0,
            w.view_state.translation_y == 0,
            !w.view_state.drag_started,
            w.view_state.mouse_position_x == 0,
            w.view_state.mouse_position_y == 0,
            w.selection_state.hovered_file is None,
            w.selection_state.selected_files.deep_view() == Seq::<Seq<char>>::empty(),
            w.canva_state.files@ == Seq::<(File, (i64, i64, i64, i64))>::empty(),
    {
        WorkspaceLayout {
            workspace_graph,
            view_state: ViewState::new(),
            selection_state: SelectionState::new(),
            canva_state: CanvaState::new(),
        }
    }

    /// Runs the layout engine over the graph and returns, per node, the
    /// file, its final position, and the positions of the nodes its edges
    /// connect it to. An empty graph gives an empty list; every returned
    /// position lies on the canvas. The layout is recomputed from scratch
    /// on every call — nothing is cached between runs — and depends on
    /// the graph alone.
    #[verifier::loop_isolation(false)]
    #[verifier::rlimit(100)]
    pub fn calculate_positions(&self) -> (r: Vec<(File, Position, Vec<Position>)>)
        requires
            self.workspace_graph.wf(),
        ensures
            r@.len() == self.workspace_graph.nodes().len(),
            forall|i: int|
                0 <= i < r@.len() ==> {
                    let lay = layout_positions(
                        self.workspace_graph.nodes().len(),
                        self.workspace_graph.edges(),
                        LAYOUT_ITERATIONS as nat,
                    );
                    &&& (#[trigger] r@[i]).0 == self.workspace_graph.nodes()[i]
                    &&& r@[i].1 == lay[i]
                    &&& in_canvas(r@[i].1)
                    &&& r@[i].2@ == spec_connected(
                        self.workspace_graph.edges(),
                        lay,
                        i,
                        self.workspace_graph.edges().len() as int,
                    )
                },
    {
        let n = self.workspace_graph.node_count();
        let mut r: Vec<(File, Position, Vec<Position>)> = Vec::new();
        if n == 0 {
            return r;
        }
        let files = self.workspace_graph.files();
        let edges = self.workspace_graph.edge_list();
        let mut engine = ForceDirectedLayout::new(n);
        engine.run(&edges, LAYOUT_ITERATIONS);
        let ghost lay = layout_positions(
            self.workspace_graph.nodes().len(),
            self.workspace_graph.edges(),
            LAYOUT_ITERATIONS as nat,
        );
        proof {
            lemma_run_len(
                init_positions(n as nat),
                edges@,
                ideal_k(n as nat),
                INITIAL_TEMPERATURE as int,
                LAYOUT_ITERATIONS as nat,
            );
            assert(engine.positions@ == lay);
            assert(engine.positions@.len() == n);
        }
        let mut i: usize = 0;
        while i < n
            invariant
                i <= n,
                n == self.workspace_graph.nodes().len(),
                files@ == self.workspace_graph.nodes(),
                edges@ == self.workspace_graph.edges(),
                engine.positions@ == lay,
                engine.positions@.len() == n,
                engine.wf(),
                r@.len() == i,
                forall|t: int|
                    0 <= t < i ==> {
                        &&& (#[trigger] r@[t]).0 == self.workspace_graph.nodes()[t]
                        &&& r@[t].1 == lay[t]
                        &&& in_canvas(r@[t].1)
                        &&& r@[t].2@ == spec_connected(
                            self.workspace_graph.edges(),
                            lay,
                            t,
                            self.workspace_graph.edges().len() as int,
                        )
                    },
            decreases n - i,
        {
            let mut conn: Vec<Position> = Vec::new();
            let mut e: usize = 0;
            proof {
                assert(conn@ =~= spec_connected(edges@, lay, i as int, 0));
            }
            while e < edges.len()
                invariant
                    e <= edges@.len(),
                    i < n,
                    n == engine.positions@.len(),
                    edges@ == self.workspace_graph.edges(),
                    engine.positions@ == lay,
                    self.workspace_graph.wf(),
                    conn@ == spec_connected(edges@, lay, i as int, e as int),
                decreases edges@.len() - e,
            {
                let (a, b) = edges[e];
                if a == i {
                    conn.push(engine.positions[b]);
                } else if b == i {
                    conn.push(engine.positions[a]);
                }
                e = e + 1;
            }
            let file = File::new(files[i].name.clone());
            let pos = engine.positions[i];
            r.push((file, pos, conn));
            i = i + 1;
        }
        r
    }

    /// Computes the scene of one frame: the layout run afresh, every node
    /// and its connections mapped to the screen under the current zoom
    /// and translation, and the hit-test boxes both returned and stored
    /// for the hover queries. Everything but the stored boxes is left
    /// unchanged.
    #[verifier::loop_isolation(false)]
    #[verifier::rlimit(100)]
    pub fn draw(&mut self) -> (scene: Vec<DrawItem>)
        requires
            old(self).wf(),
        ensures
            final(self).wf(),
            final(self).workspace_graph == old(self).workspace_graph,
            final(self).view_state == old(self).view_state,
            final(self).selection_state == old(self).selection_state,
            scene@.len() == old(self).workspace_graph.nodes().len(),
            final(self).canva_state.files@.len() == scene@.len(),
            forall|i: int|
                0 <= i < scene@.len() ==> scene_entry_ok(
                    old(self).workspace_graph,
                    old(self).view_state,
                    #[trigger] scene@[i],
                    i,
                ),
            forall|i: int|
                0 <= i < scene@.len() ==> final(self).canva_state.files@[i] == (
                    (#[trigger] scene@[i]).file,
                    (scene@[i].x1, scene@[i].y1, scene@[i].x2, scene@[i].y2),
                ),
    {
        let positions = self.calculate_positions();
        let zoom = self.view_state.zoom;
        let tx = self.view_state.translation_x;
        let ty = self.view_state.translation_y;
        proof {
            assert(20_000 * (zoom as int) <= 200_000_000) by (nonlinear_arith)
                requires
                    0 <= zoom <= 10_000,
            ;
            assert(20_000 * (zoom as int) >= 0) by (nonlinear_arith)
                requires
                    0 <= zoom,
            ;
        }
        let half: i64 = 20_000i64 * (zoom as i64);
        let mut scene: Vec<DrawItem> = Vec::new();
        let mut boxes: Vec<(File, (i64, i64, i64, i64))> = Vec::new();
        let mut i: usize = 0;
        while i < positions.len()
            invariant
                i <= positions@.len(),
                scene@.len() == i,
                boxes@.len() == i,
                zoom == old(self).view_state.zoom,
                tx == old(self).view_state.translation_x,
                ty == old(self).view_state.translation_y,
                half == spec_half_box(zoom as int),
                *self == *old(self),
                positions@.len() == old(self).workspace_graph.nodes().len(),
                forall|t: int|
                    0 <= t < positions@.len() ==> {
                        let lay = layout_positions(
                            old(self).workspace_graph.nodes().len(),
                            old(self).workspace_graph.edges(),
                            LAYOUT_ITERATIONS as nat,
                        );
                        &&& (#[trigger] positions@[t]).0 == old(self).workspace_graph.nodes()[t]
                        &&& positions@[t].1 == lay[t]
                        &&& in_canvas(positions@[t].1)
                        &&& positions@[t].2@ == spec_connected(
                            old(self).workspace_graph.edges(),
                            lay,
                            t,
                            old(self).workspace_graph.edges().len() as int,
                        )
                    },
                forall|t: int|
                    0 <= t < i ==> scene_entry_ok(
                        old(self).workspace_graph,
                        old(self).view_state,
                        #[trigger] scene@[t],
                        t,
                    ),
                forall|t: int|
                    0 <= t < i ==> boxes@[t] == (
                        (#[trigger] scene@[t]).file,
                        (scene@[t].x1, scene@[t].y1, scene@[t].x2, scene@[t].y2),
                    ),
            decreases positions@.len() - i,
        {
            let item = &positions[i];
            proof {
                let lay = layout_positions(
                    old(self).workspace_graph.nodes().len(),
                    old(self).workspace_graph.edges(),
                    LAYOUT_ITERATIONS as nat,
                );
                crate::layout::lemma_layout_in_canvas(
                    old(self).workspace_graph.nodes().len(),
                    old(self).workspace_graph.edges(),
                    LAYOUT_ITERATIONS as nat,
                );
                lemma_run_len(
                    init_positions(old(self).workspace_graph.nodes().len()),
                    old(self).workspace_graph.edges(),
                    ideal_k(old(self).workspace_graph.nodes().len()),
                    INITIAL_TEMPERATURE as int,
                    LAYOUT_ITERATIONS as nat,
                );
                assert(lay.len() == old(self).workspace_graph.nodes().len());
                assert forall|u: int| 0 <= u < item.2@.len() implies in_canvas(
                    #[trigger] item.2@[u],
                ) by {
                    lemma_connected_in_canvas(
                        old(self).workspace_graph.edges(),
                        lay,
                        i as int,
                        old(self).workspace_graph.edges().len() as int,
                        u,
                    );
                }
            }
            let d = draw_item(item, zoom, tx, ty, half);
            let file2 = File::new(item.0.name.clone());
            boxes.push((file2, (d.x1, d.y1, d.x2, d.y2)));
            scene.push(d);
            i = i + 1;
        }
        self.canva_state.set_files(boxes);
        scene
    }

    /// The name of the first drawn node whose box holds the screen point,
    /// if any.
    #[verifier::loop_isolation(false)]
    pub fn get_file_at_position(&self, x: i64, y: i64) -> (r: Option<String>)
        ensures
            match r {
                Some(name) => spec_hit(self.canva_state.files@, x as int, y as int) == Some(
                    name@,
                ),
                None => spec_hit(self.canva_state.files@, x as int, y as int) is None,
            },
    {
        let files = &self.canva_state.files;
        let ghost full = files@;
        let mut k: usize = 0;
        proof {
            assert(full.subrange(0, full.len() as int) =~= full);
        }
        while k < files.len()
            invariant
                k <= files@.len(),
                files@ == self.canva_state.files@,
                full == files@,
                spec_hit(full, x as int, y as int) == spec_hit(
                    full.subrange(k as int, full.len() as int),
                    x as int,
                    y as int,
                ),
            decreases files@.len() - k,
        {
            let ghost suffix = full.subrange(k as int, full.len() as int);
            proof {
                assert(suffix[0] == full[k as int]);
                assert(suffix.subrange(1, suffix.len() as int) =~= full.subrange(
                    k + 1int,
                    full.len() as int,
                ));
            }
            let b = files[k].1;
            if b.0 <= x && x <= b.2 && b.1 <= y && y <= b.3 {
                return Some(files[k].0.name.clone());
            }
            k = k + 1;
        }
        proof {
            assert(full.subrange(full.len() as int, full.len() as int) =~= Seq::<
                (File, (i64, i64, i64, i64)),
            >::empty());
        }
        None
    }

    /// Records the pointer position and, while a drag is active, pans by
    /// the step from the previously recorded position.
    pub fn track_mouse_position(&mut self, x: i64, y: i64)
        requires
            old(self).wf(),
        ensures
            final(self).wf(),
            final(self).view_state == spec_track(old(self).view_state, x as int, y as int),
            final(self).workspace_graph == old(self).workspace_graph,
            final(self).selection_state == old(self).selection_state,
            final(self).canva_state == old(self).canva_state,
    {
        self.view_state.track_pointer(x, y);
    }

    /// Marks a drag active at the recorded pointer position.
    pub fn start_mouse_drag(&mut self)
        requires
            old(self).wf(),
        ensures
            final(self).wf(),
            final(self).view_state == (ViewState {
                drag_started: true,
                drag_start_x: old(self).view_state.mouse_position_x,
                drag_start_y: old(self).view_state.mouse_position_y,
                ..old(self).view_state
            }),
            final(self).workspace_graph == old(self).workspace_graph,
            final(self).selection_state == old(self).selection_state,
            final(self).canva_state == old(self).canva_state,
    {
        self.view_state.begin_drag();
    }

    /// Ends the drag.
    pub fn end_mouse_drag(&mut self)
        requires
            old(self).wf(),
        ensures
            final(self).wf(),
            final(self).view_state == (ViewState {
                drag_started: false,
                ..old(self).view_state
            }),
            final(self).workspace_graph == old(self).workspace_graph,
            final(self).selection_state == old(self).selection_state,
            final(self).canva_state == old(self).canva_state,
    {
        self.view_state.finish_drag();
    }

    /// Zooms by `factor` per-mille around the pointer, keeping the world
    /// point under it fixed.
    pub fn zoom(&mut self, factor: i64)
        requires
            old(self).wf(),
        ensures
            final(self).wf(),
            final(self).view_state == spec_zoom(old(self).view_state, factor as int),
            final(self).workspace_graph == old(self).workspace_graph,
            final(self).selection_state == old(self).selection_state,
            final(self).canva_state == old(self).canva_state,
    {
        self.view_state.zoom_by(factor);
    }

    /// Pans by `(dx, dy)` (a wheel scroll).
    pub fn move_(&mut self, dx: i64, dy: i64)
        requires
            old(self).wf(),
        ensures
            final(self).wf(),
            final(self).view_state == spec_move(old(self).view_state, dx as int, dy as int),
            final(self).workspace_graph == old(self).workspace_graph,
            final(self).selection_state == old(self).selection_state,
            final(self).canva_state == old(self).canva_state,
    {
        self.view_state.move_by(dx, dy);
    }

    /// Whether the zoom stands at its maximum — the pinch gesture that
    /// reaches it while a node is hovered signals "open" to the host.
    pub fn max_zoom_reached(&self) -> (b: bool)
        ensures
            b == (self.view_state.zoom == MAX_ZOOM),
    {
        self.view_state.zoom == MAX_ZOOM
    }

    /// Recomputes the hovered file from the drawn boxes under the pointer.
    pub fn track_hovered_file(&mut self, x: i64, y: i64)
        requires
            old(self).wf(),
        ensures
            final(self).wf(),
            final(self).workspace_graph == old(self).workspace_graph,
            final(self).view_state == old(self).view_state,
            final(self).canva_state == old(self).canva_state,
            final(self).selection_state.selected_files == old(self).selection_state.selected_files,
            match spec_hit(old(self).canva_state.files@, x as int, y as int) {
                Some(name) => final(self).selection_state.hovered_file matches Some(h)
                    && h@ == name,
                None => final(self).selection_state.hovered_file is None,
            },
    {
        let hit = self.get_file_at_position(x, y);
        self.selection_state.hovered_file = hit;
    }

    /// Sets the selection to the hovered file alone, or clears it.
    pub fn select_file_hovered_file(&mut self)
        requires
            old(self).wf(),
        ensures
            final(self).wf(),
            final(self).workspace_graph == old(self).workspace_graph,
            final(self).view_state == old(self).view_state,
            final(self).canva_state == old(self).canva_state,
            final(self).selection_state.hovered_file == old(self).selection_state.hovered_file,
            match old(self).selection_state.hovered_file {
                Some(name) => final(self).selection_state.selected_files.deep_view() == seq![
                    name@,
                ],
                None => final(self).selection_state.selected_files.deep_view() == Seq::<
                    Seq<char>,
                >::empty(),
            },
    {
        self.selection_state.select_hovered();
    }

    /// Toggles the hovered file in the selection.
    pub fn multiselect_files_hovered_file(&mut self)
        requires
            old(self).wf(),
        ensures
            final(self).wf(),
            final(self).workspace_graph == old(self).workspace_graph,
            final(self).view_state == old(self).view_state,
            final(self).canva_state == old(self).canva_state,
            final(self).selection_state.hovered_file == old(self).selection_state.hovered_file,
            match old(self).selection_state.hovered_file {
                Some(name) => {
                    &&& crate::builder::contains_path(
                        old(self).selection_state.selected_files.deep_view(),
                        name@,
                    ) ==> final(self).selection_state.selected_files.deep_view()
                        == crate::selection_state::remove_path(
                        old(self).selection_state.selected_files.deep_view(),
                        name@,
                    )
                    &&& !crate::builder::contains_path(
                        old(self).selection_state.selected_files.deep_view(),
                        name@,
                    ) ==> final(self).selection_state.selected_files.deep_view() == old(
                        self,
                    ).selection_state.selected_files.deep_view().push(name@)
                },
                None => final(self).selection_state == old(self).selection_state,
            },
    {
        self.selection_state.toggle_hovered();
    }

    /// The hovered file's name, if any.
    pub fn get_hovered_file(&self) -> (r: Option<String>)
        ensures
            match r {
                Some(name) => self.selection_state.hovered_file matches Some(h) && name@ == h@,
                None => self.selection_state.hovered_file is None,
            },
    {
        match &self.selection_state.hovered_file {
            Some(name) => Some(name.clone()),
            None => None,
        }
    }

    /// The selected file names.
    #[verifier::loop_isolation(false)]
    pub fn get_selected_files(&self) -> (r: Vec<String>)
        ensures
            r.deep_view() == self.selection_state.selected_files.deep_view(),
    {
        let mut out: Vec<String> = Vec::new();
        let mut k: usize = 0;
        proof {
            assert(out.deep_view() =~= self.selection_state.selected_files.deep_view().subrange(
                0,
                0,
            ));
        }
        while k < self.selection_state.selected_files.len()
            invariant
                k <= self.selection_state.selected_files@.len(),
                out.deep_view() == self.selection_state.selected_files.deep_view().subrange(
                    0,
                    k as int,
                ),
            decreases self.selection_state.selected_files@.len() - k,
        {
            out.push(self.selection_state.selected_files[k].clone());
            proof {
                let dv = self.selection_state.selected_files.deep_view();
                assert(out.deep_view().last() == dv[k as int]);
                assert(out.deep_view().drop_last() =~= dv.subrange(0, k as int));
                assert(out.deep_view() =~= dv.subrange(0, k + 1int));
            }
            k = k + 1;
        }
        proof {
            assert(self.selection_state.selected_files.deep_view().subrange(
                0,
                self.selection_state.selected_files.deep_view().len() as int,
            ) =~= self.selection_state.selected_files.deep_view());
        }
        out
    }
}

} // verus!
