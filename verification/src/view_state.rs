use vstd::prelude::*;

verus! {

// ---------------------------------------------------------------------------
// The viewport: pan and zoom state over the rendered layout.
//
// Zoom is a per-mille factor (1000 is 1.0), clamped to [0.1, 10.0].
// Screen coordinates, the translation and pointer positions are
// micro-units: a world milli-unit times a per-mille zoom. Pointer input
// and the translation are saturated at fixed caps, an overflow guard far
// beyond any meaningful viewport.
// ---------------------------------------------------------------------------

/// Smallest zoom, per-mille (0.1).
pub const MIN_ZOOM: u64 = 100;

/// Largest zoom, per-mille (10.0).
pub const MAX_ZOOM: u64 = 10_000;

/// The starting zoom, per-mille (1.0).
pub const UNIT_ZOOM: u64 = 1000;

/// Pointer coordinates are saturated at this magnitude.
pub const POINTER_CAP: i64 = 0x4_0000_0000_0000;

/// The translation is saturated at this magnitude.
pub const TRANSLATION_CAP: i64 = 0x80_0000_0000_0000;

/// Clamps `v` into `[lo, hi]`.
pub open spec fn clamp_i(v: int, lo: int, hi: int) -> int {
    if v < lo {
        lo
    } else if v > hi {
        hi
    } else {
        v
    }
}

/// Signed division rounding toward zero, for a positive divisor.
pub open spec fn div_trunc(a: int, b: int) -> int {
    if a >= 0 {
        a / b
    } else {
        -((-a) / b)
    }
}

/// Divides rounding toward zero.
pub fn div_trunc_exec(a: i64, b: u64) -> (r: i64)
    requires
        1 <= b,
        -0x7FFF_FFFF_FFFF_FFFF <= a,
    ensures
        r == div_trunc(a as int, b as int),
        a >= 0 ==> 0 <= r <= a,
        a < 0 ==> a <= r <= 0,
{
    if a >= 0 {
        let q = (a as u64) / b;
        proof {
            crate::mathx::lemma_div_le_num(a as int, b as int);
        }
        q as i64
    } else {
        let m = (-a) as u64;
        let q = m / b;
        proof {
            crate::mathx::lemma_div_le_num(m as int, b as int);
        }
        -(q as i64)
    }
}

/// The world coordinate under a screen coordinate: the translation taken
/// off, the zoom divided out.
pub open spec fn spec_world_x(s: ViewState, px: int) -> int {
    div_trunc(px - s.translation_x, s.zoom as int)
}

/// The world coordinate under a screen coordinate, y.
pub open spec fn spec_world_y(s: ViewState, py: int) -> int {
    div_trunc(py - s.translation_y, s.zoom as int)
}

/// The viewport state: zoom, translation, and the transient drag and
/// pointer-tracking state.
pub struct ViewState {
    pub zoom: u64,
    pub translation_x: i64,
    pub translation_y: i64,
    pub drag_started: bool,
    pub drag_start_x: i64,
    pub drag_start_y: i64,
    pub mouse_position_x: i64,
    pub mouse_position_y: i64,
}

impl ViewState {
    /// Zoom in range, translation and recorded pointer positions within
    /// their caps.
    pub open spec fn wf(self) -> bool {
        &&& MIN_ZOOM <= self.zoom <= MAX_ZOOM
        &&& -TRANSLATION_CAP <= self.translation_x <= TRANSLATION_CAP
        &&& -TRANSLATION_CAP <= self.translation_y <= TRANSLATION_CAP
        &&& -POINTER_CAP <= self.drag_start_x <= POINTER_CAP
        &&& -POINTER_CAP <= self.drag_start_y <= POINTER_CAP
        &&& -POINTER_CAP <= self.mouse_position_x <= POINTER_CAP
        &&& -POINTER_CAP <= self.mouse_position_y <= POINTER_CAP
    }

    pub fn new() -> (s: ViewState)
        ensures
            s.wf(),
            s.zoom == UNIT_ZOOM,
            s.translation_x == 0,
            s.translation_y == 0,
            !s.drag_started,
            s.drag_start_x == 0,
            s.drag_start_y == 0,
            s.mouse_position_x == 0,
            s.mouse_position_y == 0,
    {
        ViewState {
            zoom: UNIT_ZOOM,
            translation_x: 0,
            translation_y: 0,
            drag_started: false,
            drag_start_x: 0,
            drag_start_y: 0,
            mouse_position_x: 0,
            mouse_position_y: 0,
        }
    }
}

/// What tracking the pointer at `(x, y)` does: the saturated position is
/// recorded and, while a drag is active, the step from the previously
/// recorded position is added to the translation and the recorded drag
/// position moves up — translation accumulates move by move, not from the
/// drag's start.
pub open spec fn spec_track(s: ViewState, x: int, y: int) -> ViewState {
    let cx = clamp_i(x, -POINTER_CAP as int, POINTER_CAP as int);
    let cy = clamp_i(y, -POINTER_CAP as int, POINTER_CAP as int);
    let s1 = ViewState { mouse_position_x: cx as i64, mouse_position_y: cy as i64, ..s };
    if s.drag_started {
        ViewState {
            translation_x: clamp_i(
                s.translation_x + (cx - s.drag_start_x),
                -TRANSLATION_CAP as int,
                TRANSLATION_CAP as int,
            ) as i64,
            translation_y: clamp_i(
                s.translation_y + (cy - s.drag_start_y),
                -TRANSLATION_CAP as int,
                TRANSLATION_CAP as int,
            ) as i64,
            drag_start_x: cx as i64,
            drag_start_y: cy as i64,
            ..s1
        }
    } else {
        s1
    }
}

/// What zooming by `delta` (per-mille) does: the zoom moves by `delta`
/// within its bounds and the translation is rebuilt so the world point
/// under the pointer stays under it; at the bounds, where nothing
/// changes, the state is left whole.
pub open spec fn spec_zoom(s: ViewState, delta: int) -> ViewState {
    let new_zoom = clamp_i(s.zoom + delta, MIN_ZOOM as int, MAX_ZOOM as int);
    if new_zoom == s.zoom {
        s
    } else {
        let wx = spec_world_x(s, s.mouse_position_x as int);
        let wy = spec_world_y(s, s.mouse_position_y as int);
        ViewState {
            zoom: new_zoom as u64,
            translation_x: clamp_i(
                s.mouse_position_x - wx * new_zoom,
                -TRANSLATION_CAP as int,
                TRANSLATION_CAP as int,
            ) as i64,
            translation_y: clamp_i(
                s.mouse_position_y - wy * new_zoom,
                -TRANSLATION_CAP as int,
                TRANSLATION_CAP as int,
            ) as i64,
            ..s
        }
    }
}

/// What panning by `(dx, dy)` does: the deltas are saturated like pointer
/// input and added to the translation.
pub open spec fn spec_move(s: ViewState, dx: int, dy: int) -> ViewState {
    let cdx = clamp_i(dx, -POINTER_CAP as int, POINTER_CAP as int);
    let cdy = clamp_i(dy, -POINTER_CAP as int, POINTER_CAP as int);
    ViewState {
        translation_x: clamp_i(
            s.translation_x + cdx,
            -TRANSLATION_CAP as int,
            TRANSLATION_CAP as int,
        ) as i64,
        translation_y: clamp_i(
            s.translation_y + cdy,
            -TRANSLATION_CAP as int,
            TRANSLATION_CAP as int,
        ) as i64,
        ..s
    }
}

/// Saturates a pointer coordinate.
fn clamp_pointer(v: i64) -> (r: i64)
    ensures
        r == clamp_i(v as int, -POINTER_CAP as int, POINTER_CAP as int),
        -POINTER_CAP <= r <= POINTER_CAP,
{
    if v < -POINTER_CAP {
        -POINTER_CAP
    } else if v > POINTER_CAP {
        POINTER_CAP
    } else {
        v
    }
}

/// Saturates a translation coordinate, given within `i64` range.
fn clamp_translation(v: i64) -> (r: i64)
    ensures
        r == clamp_i(v as int, -TRANSLATION_CAP as int, TRANSLATION_CAP as int),
        -TRANSLATION_CAP <= r <= TRANSLATION_CAP,
{
    if v < -TRANSLATION_CAP {
        -TRANSLATION_CAP
    } else if v > TRANSLATION_CAP {
        TRANSLATION_CAP
    } else {
        v
    }
}

impl ViewState {
    /// Records the pointer and, while dragging, pans by the step from the
    /// previously recorded position.
    pub fn track_pointer(&mut self, x: i64, y: i64)
        requires
            old(self).wf(),
        ensures
            final(self).wf(),
            *final(self) == spec_track(*old(self), x as int, y as int),
    {
        let cx = clamp_pointer(x);
        let cy = clamp_pointer(y);
        self.mouse_position_x = cx;
        self.mouse_position_y = cy;
        if self.drag_started {
            self.translation_x = clamp_translation(self.translation_x + (cx - self.drag_start_x));
            self.translation_y = clamp_translation(self.translation_y + (cy - self.drag_start_y));
            self.drag_start_x = cx;
            self.drag_start_y = cy;
        }
    }

    /// Marks a drag active, anchored at the recorded pointer position.
    pub fn begin_drag(&mut self)
        requires
            old(self).wf(),
        ensures
            final(self).wf(),
            *final(self) == (ViewState {
                drag_started: true,
                drag_start_x: old(self).mouse_position_x,
                drag_start_y: old(self).mouse_position_y,
                ..*old(self)
            }),
    {
        self.drag_started = true;
        self.drag_start_x = self.mouse_position_x;
        self.drag_start_y = self.mouse_position_y;
    }

    /// Clears the drag flag.
    pub fn finish_drag(&mut self)
        requires
            old(self).wf(),
        ensures
            final(self).wf(),
            *final(self) == (ViewState { drag_started: false, ..*old(self) }),
    {
        self.drag_started = false;
    }

    /// Zooms by `delta` per-mille around the recorded pointer position.
    pub fn zoom_by(&mut self, delta: i64)
        requires
            old(self).wf(),
        ensures
            final(self).wf(),
            *final(self) == spec_zoom(*old(self), delta as int),
    {
        let wide: i128 = self.zoom as i128 + delta as i128;
        let new_zoom: u64 = if wide < MIN_ZOOM as i128 {
            MIN_ZOOM
        } else if wide > MAX_ZOOM as i128 {
            MAX_ZOOM
        } else {
            wide as u64
        };
        if new_zoom == self.zoom {
            return ;
        }
        let wx = div_trunc_exec(self.mouse_position_x - self.translation_x, self.zoom);
        let wy = div_trunc_exec(self.mouse_position_y - self.translation_y, self.zoom);
        proof {
            let wxi = wx as int;
            let wyi = wy as int;
            let nzi = new_zoom as int;
            assert(-0x84_0000_0000_0000 <= wxi <= 0x84_0000_0000_0000);
            assert(-0x84_0000_0000_0000 <= wyi <= 0x84_0000_0000_0000);
            assert(-0x84_0000_0000_0000 * 10_000 <= wxi * nzi <= 0x84_0000_0000_0000 * 10_000)
                by (nonlinear_arith)
                requires
                    -0x84_0000_0000_0000 <= wxi <= 0x84_0000_0000_0000,
                    0 <= nzi <= 10_000,
            ;
            assert(-0x84_0000_0000_0000 * 10_000 <= wyi * nzi <= 0x84_0000_0000_0000 * 10_000)
                by (nonlinear_arith)
                requires
                    -0x84_0000_0000_0000 <= wyi <= 0x84_0000_0000_0000,
                    0 <= nzi <= 10_000,
            ;
        }
        let sx: i128 = (self.mouse_position_x as i128) - (wx as i128) * (new_zoom as i128);
        let sy: i128 = (self.mouse_position_y as i128) - (wy as i128) * (new_zoom as i128);
        let ntx: i64 = if sx < -TRANSLATION_CAP as i128 {
            -TRANSLATION_CAP
        } else if sx > TRANSLATION_CAP as i128 {
            TRANSLATION_CAP
        } else {
            sx as i64
        };
        let nty: i64 = if sy < -TRANSLATION_CAP as i128 {
            -TRANSLATION_CAP
        } else if sy > TRANSLATION_CAP as i128 {
            TRANSLATION_CAP
        } else {
            sy as i64
        };
        self.zoom = new_zoom;
        self.translation_x = ntx;
        self.translation_y = nty;
    }

    /// Pans by `(dx, dy)` (a wheel scroll).
    pub fn move_by(&mut self, dx: i64, dy: i64)
        requires
            old(self).wf(),
        ensures
            final(self).wf(),
            *final(self) == spec_move(*old(self), dx as int, dy as int),
    {
        let cdx = clamp_pointer(dx);
        let cdy = clamp_pointer(dy);
        self.translation_x = clamp_translation(self.translation_x + cdx);
        self.translation_y = clamp_translation(self.translation_y + cdy);
    }

    /// The world point under a screen point at the current zoom and
    /// translation.
    pub fn world_at(&self, px: i64, py: i64) -> (w: (i64, i64))
        requires
            self.wf(),
            -POINTER_CAP <= px <= POINTER_CAP,
            -POINTER_CAP <= py <= POINTER_CAP,
        ensures
            w.0 == spec_world_x(*self, px as int),
            w.1 == spec_world_y(*self, py as int),
    {
        let wx = div_trunc_exec(px - self.translation_x, self.zoom);
        let wy = div_trunc_exec(py - self.translation_y, self.zoom);
        (wx, wy)
    }
}

/// Dividing an exact multiple rounds to the factor itself.
pub proof fn lemma_div_trunc_exact(a: int, b: int)
    requires
        b >= 1,
    ensures
        div_trunc(a * b, b) == a,
{
    if a >= 0 {
        assert(a * b >= 0) by (nonlinear_arith)
            requires
                a >= 0,
                b >= 1,
        ;
        assert((a * b) / b == a) by (nonlinear_arith)
            requires
                b >= 1,
        ;
    } else {
        assert(a * b < 0) by (nonlinear_arith)
            requires
                a < 0,
                b >= 1,
        ;
        assert(-(a * b) == (-a) * b) by (nonlinear_arith);
        assert(((-a) * b) / b == -a) by (nonlinear_arith)
            requires
                b >= 1,
        ;
    }
}

/// Zooming keeps the world point under the pointer fixed: recomputing the
/// world coordinate at the same pointer right after a zoom yields exactly
/// the coordinate from before — the fixed-point translation is built so
/// the round trip is exact. The two saturation cases are left out: a
/// translation beyond the cap (about 3.6e16 micro-units) is clamped and
/// the round trip then lands on the clamp instead.
pub proof fn lemma_zoom_keeps_world_point(s: ViewState, delta: int)
    requires
        s.wf(),
        -TRANSLATION_CAP <= s.mouse_position_x - spec_world_x(s, s.mouse_position_x as int)
            * clamp_i(s.zoom + delta, MIN_ZOOM as int, MAX_ZOOM as int) <= TRANSLATION_CAP,
        -TRANSLATION_CAP <= s.mouse_position_y - spec_world_y(s, s.mouse_position_y as int)
            * clamp_i(s.zoom + delta, MIN_ZOOM as int, MAX_ZOOM as int) <= TRANSLATION_CAP,
    ensures
        spec_world_x(spec_zoom(s, delta), s.mouse_position_x as int) == spec_world_x(
            s,
            s.mouse_position_x as int,
        ),
        spec_world_y(spec_zoom(s, delta), s.mouse_position_y as int) == spec_world_y(
            s,
            s.mouse_position_y as int,
        ),
{
    let new_zoom = clamp_i(s.zoom + delta, MIN_ZOOM as int, MAX_ZOOM as int);
    if new_zoom == s.zoom {
    } else {
        let wx = spec_world_x(s, s.mouse_position_x as int);
        let wy = spec_world_y(s, s.mouse_position_y as int);
        let z2 = spec_zoom(s, delta);
        assert(z2.translation_x == s.mouse_position_x - wx * new_zoom);
        assert(z2.translation_y == s.mouse_position_y - wy * new_zoom);
        assert(s.mouse_position_x - z2.translation_x == wx * new_zoom);
        assert(s.mouse_position_y - z2.translation_y == wy * new_zoom);
        lemma_div_trunc_exact(wx, new_zoom);
        lemma_div_trunc_exact(wy, new_zoom);
    }
}

} // verus!
