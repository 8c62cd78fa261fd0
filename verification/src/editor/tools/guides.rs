//! Guides and snapping: grid, centre, safe area, rule of thirds, onion skin.
//!
//! Pure guide geometry: where guide lines and snap targets are, as plain
//! coordinates. Canvas sizes are `u32` pixels and positions are `i32`, because
//! a dragged point may sit outside the canvas. A zero extent has no centre and
//! a zero spacing has no grid, so the snap helpers return their input
//! unchanged in those cases.

use vstd::prelude::*;

verus! {

/// Grid spacing in pixels used when a canvas does not choose its own.
pub const DEFAULT_GRID_SPACING: u32 = 4;

/// Safe-area inset in pixels, applied to each side, by default.
pub const DEFAULT_SAFE_AREA_INSET: u32 = 4;

/// How many frames on each side of the current one onion skinning ghosts by
/// default.
pub const DEFAULT_ONION_RADIUS: usize = 1;

/// A point in canvas pixel coordinates.
#[derive(Debug, Clone, Copy, PartialEq, Eq, Default, Structural)]
pub struct Point {
    /// Horizontal coordinate; `0` is the left edge.
    pub x: i32,
    /// Vertical coordinate; `0` is the top edge.
    pub y: i32,
}

impl Point {
    /// A point at `(x, y)`.
    pub fn new(x: i32, y: i32) -> (r: Self)
        ensures
            r == (Point { x, y }),
    {
        Point { x, y }
    }
}

/// A straight guide line, as the two endpoints the UI connects.
#[derive(Debug, Clone, Copy, PartialEq, Eq, Structural)]
pub struct GuideLine {
    /// The first endpoint.
    pub from: Point,
    /// The second endpoint.
    pub to: Point,
}

/// The vertical line at `x` spanning `0..height`.
pub open spec fn vertical_line(x: i32, height: i32) -> GuideLine {
    GuideLine { from: Point { x, y: 0 }, to: Point { x, y: height } }
}

/// The horizontal line at `y` spanning `0..width`.
pub open spec fn horizontal_line(y: i32, width: i32) -> GuideLine {
    GuideLine { from: Point { x: 0, y }, to: Point { x: width, y } }
}

impl GuideLine {
    /// A vertical line at `x`, spanning the canvas height `0..height`.
    pub fn vertical(x: i32, height: i32) -> (r: Self)
        ensures
            r == vertical_line(x, height),
    {
        GuideLine { from: Point::new(x, 0), to: Point::new(x, height) }
    }

    /// A horizontal line at `y`, spanning the canvas width `0..width`.
    pub fn horizontal(y: i32, width: i32) -> (r: Self)
        ensures
            r == horizontal_line(y, width),
    {
        GuideLine { from: Point::new(0, y), to: Point::new(width, y) }
    }
}

/// A rectangle in canvas pixel coordinates: top-left corner plus size.
#[derive(Debug, Clone, Copy, PartialEq, Eq, Structural)]
pub struct Rect {
    /// Left edge.
    pub x: i32,
    /// Top edge.
    pub y: i32,
    /// Width in pixels.
    pub width: u32,
    /// Height in pixels.
    pub height: u32,
}

/// Grid lines for one canvas: full-height verticals and full-width
/// horizontals, ascending, at every multiple of the spacing below the
/// opposite edge.
#[derive(Debug, Clone, PartialEq, Eq)]
pub struct GridLines {
    /// Vertical lines, left to right.
    pub vertical: Vec<GuideLine>,
    /// Horizontal lines, top to bottom.
    pub horizontal: Vec<GuideLine>,
}

/// The centre cross: one vertical and one horizontal line through the middle.
#[derive(Debug, Clone, Copy, PartialEq, Eq, Structural)]
pub struct CentreCross {
    /// The vertical centre line.
    pub vertical: GuideLine,
    /// The horizontal centre line.
    pub horizontal: GuideLine,
}

/// The two rule-of-thirds lines per axis.
#[derive(Debug, Clone, Copy, PartialEq, Eq)]
pub struct ThirdsLines {
    /// The one-third and two-thirds vertical lines, left to right.
    pub vertical: [GuideLine; 2],
    /// The one-third and two-thirds horizontal lines, top to bottom.
    pub horizontal: [GuideLine; 2],
}

/// Every guide for one canvas: grid, centre, safe area and thirds.
#[derive(Debug, Clone, PartialEq, Eq)]
pub struct GuideGeometry {
    /// Canvas width the geometry was built for.
    pub width: u32,
    /// Canvas height the geometry was built for.
    pub height: u32,
    /// The grid lines.
    pub grid: GridLines,
    /// The centre cross.
    pub centre: CentreCross,
    /// The safe-area rectangle.
    pub safe_area: Rect,
    /// The rule-of-thirds lines.
    pub thirds: ThirdsLines,
}

/// A canvas length as a guide coordinate, saturating at `i32::MAX`.
pub open spec fn spec_coordinate(v: u32) -> i32 {
    if v > i32::MAX as u32 {
        i32::MAX
    } else {
        v as i32
    }
}

/// A canvas length as a guide coordinate: saturate, never wrap.
pub fn coordinate(value: u32) -> (r: i32)
    ensures
        r == spec_coordinate(value),
{
    if value > i32::MAX as u32 {
        i32::MAX
    } else {
        value as i32
    }
}

/// An integer clamped into the `i32` range.
pub open spec fn clamp_i32(v: int) -> i32 {
    if v < i32::MIN {
        i32::MIN
    } else if v > i32::MAX {
        i32::MAX
    } else {
        v as i32
    }
}

/// The nearest grid line to `value`; halfway rounds away from zero.
pub open spec fn spec_snap_to_grid(value: i32, spacing: u32) -> i32 {
    if spacing == 0 {
        value
    } else {
        let step = spacing as int;
        let half = step / 2;
        if value >= 0 {
            clamp_i32((value + half) / step * step)
        } else {
            clamp_i32(-((-value + half) / step * step))
        }
    }
}

/// Snap one coordinate to the nearest grid line.
///
/// The grid is the multiples of `spacing` anchored at 0. A coordinate exactly
/// halfway between two lines rounds away from zero, so `2` snaps to `4` and
/// `-2` to `-4` with a spacing of 4. A spacing of 0 leaves it unchanged.
pub fn snap_to_grid(value: i32, spacing: u32) -> (r: i32)
    ensures
        r == spec_snap_to_grid(value, spacing),
{
    if spacing == 0 {
        return value;
    }
    let step = spacing as i64;
    let raw = value as i64;
    let half = step / 2;
    let magnitude: i64 = if raw >= 0 {
        raw
    } else {
        -raw
    };
    let q = (magnitude + half) / step;
    assert(q * step <= magnitude + half) by (nonlinear_arith)
        requires
            q as int == (magnitude + half) as int / step as int,
            step > 0,
            magnitude + half >= 0,
    ;
    assert(q * step >= 0) by (nonlinear_arith)
        requires
            q >= 0,
            step > 0,
    ;
    let rounded = q * step;
    let snapped: i64 = if raw >= 0 {
        rounded
    } else {
        -rounded
    };
    if snapped < i32::MIN as i64 {
        i32::MIN
    } else if snapped > i32::MAX as i64 {
        i32::MAX
    } else {
        snapped as i32
    }
}

/// Snap a point to the nearest grid intersection, each axis independently.
pub fn snap_point_to_grid(point: Point, spacing: u32) -> (r: Point)
    ensures
        r == (Point {
            x: spec_snap_to_grid(point.x, spacing),
            y: spec_snap_to_grid(point.y, spacing),
        }),
{
    Point::new(snap_to_grid(point.x, spacing), snap_to_grid(point.y, spacing))
}

/// The centre coordinate of one axis: `extent / 2`.
pub open spec fn spec_centre(extent: u32) -> i32 {
    spec_coordinate(extent / 2)
}

/// The centre coordinate of one axis, as the centre cross draws it.
///
/// For an even extent this is `extent / 2`, the first pixel of the lower-right
/// half; for an odd extent it is the true middle pixel. A zero extent gives 0.
pub fn centre_coordinate(extent: u32) -> (r: i32)
    ensures
        r == spec_centre(extent),
{
    coordinate(extent / 2)
}

/// Snap one coordinate to a canvas centre line; a zero extent has no centre.
pub fn snap_to_centre(value: i32, extent: u32) -> (r: i32)
    ensures
        r == (if extent == 0 {
            value
        } else {
            spec_centre(extent)
        }),
{
    if extent == 0 {
        return value;
    }
    centre_coordinate(extent)
}

/// Snap a point to the canvas centre: both axes move to the centre cross.
pub fn snap_point_to_centre(point: Point, width: u32, height: u32) -> (r: Point)
    ensures
        r == (Point {
            x: if width == 0 {
                point.x
            } else {
                spec_centre(width)
            },
            y: if height == 0 {
                point.y
            } else {
                spec_centre(height)
            },
        }),
{
    Point::new(snap_to_centre(point.x, width), snap_to_centre(point.y, height))
}

/// How many grid lines fit below `extent` at `spacing`.
pub open spec fn grid_count(extent: u32, spacing: u32) -> int {
    if extent == 0 {
        0
    } else {
        (extent - 1) / (spacing as int) + 1
    }
}

/// The vertical grid lines of a canvas.
pub open spec fn grid_verticals(width: u32, height: u32, spacing: u32) -> Seq<GuideLine> {
    Seq::new(
        grid_count(width, spacing) as nat,
        |k: int| vertical_line(spec_coordinate((k * spacing) as u32), spec_coordinate(height)),
    )
}

/// The horizontal grid lines of a canvas.
pub open spec fn grid_horizontals(width: u32, height: u32, spacing: u32) -> Seq<GuideLine> {
    Seq::new(
        grid_count(height, spacing) as nat,
        |k: int| horizontal_line(spec_coordinate((k * spacing) as u32), spec_coordinate(width)),
    )
}

/// Grid line `k` of one axis.
pub open spec fn axis_line(vertical: bool, k: int, spacing: u32, span: i32) -> GuideLine {
    if vertical {
        vertical_line(spec_coordinate((k * spacing) as u32), span)
    } else {
        horizontal_line(spec_coordinate((k * spacing) as u32), span)
    }
}

/// The lines at every multiple of `spacing` below `extent`.
fn grid_axis(extent: u32, spacing: u32, span: i32, vertical: bool) -> (r: Vec<GuideLine>)
    requires
        spacing > 0,
    ensures
        r@ == Seq::new(
            grid_count(extent, spacing) as nat,
            |k: int| axis_line(vertical, k, spacing, span),
        ),
{
    let mut out: Vec<GuideLine> = Vec::new();
    let mut x: u32 = 0;
    let ghost mut k: int = 0;
    let mut done = false;
    while !done
        invariant
            0 <= k,
            spacing > 0,
            !done ==> x as int == k * spacing,
            done ==> k == grid_count(extent, spacing),
            !done ==> k <= grid_count(extent, spacing),
            !done ==> (k - 1) * spacing < extent || k == 0,
            out@ == Seq::new(k as nat, |j: int| axis_line(vertical, j, spacing, span)),
        decreases (if done {
            0int
        } else {
            2int
        }) + (if x < extent {
            extent - x
        } else {
            0int
        }),
    {
        if x < extent {
            let line = if vertical {
                GuideLine::vertical(coordinate(x), span)
            } else {
                GuideLine::horizontal(coordinate(x), span)
            };
            proof {
                assert((k * spacing) as u32 == x);
                assert(line == axis_line(vertical, k, spacing, span));
            }
            out.push(line);
            proof {
                assert(out@ =~= Seq::new(
                    (k + 1) as nat,
                    |j: int| axis_line(vertical, j, spacing, span),
                ));
                assert(k < grid_count(extent, spacing)) by (nonlinear_arith)
                    requires
                        x as int == k * spacing,
                        x < extent,
                        spacing > 0,
                        k >= 0,
                ;
            }
            match x.checked_add(spacing) {
                Some(next) => {
                    proof {
                        assert(next as int == (k + 1) * spacing) by (nonlinear_arith)
                            requires
                                next as int == x + spacing,
                                x as int == k * spacing,
                        ;
                        k = k + 1;
                    }
                    x = next;
                },
                None => {
                    proof {
                        k = k + 1;
                        assert(k == grid_count(extent, spacing)) by (nonlinear_arith)
                            requires
                                (k - 1) * spacing < extent,
                                (k - 1) * spacing + spacing > u32::MAX,
                                extent <= u32::MAX,
                                spacing > 0,
                                k >= 1,
                                extent > 0,
                        ;
                    }
                    done = true;
                },
            }
        } else {
            proof {
                if extent > 0 {
                    assert(k == grid_count(extent, spacing)) by (nonlinear_arith)
                        requires
                            k * spacing >= extent,
                            (k - 1) * spacing < extent || k == 0,
                            spacing > 0,
                            k >= 0,
                            extent > 0,
                    ;
                }
            }
            done = true;
        }
    }
    out
}

/// Grid lines for a `width` x `height` canvas at `spacing` pixel pitch; a zero
/// spacing returns an empty grid.
pub fn grid_lines(width: u32, height: u32, spacing: u32) -> (r: GridLines)
    ensures
        spacing == 0 ==> r.vertical@.len() == 0 && r.horizontal@.len() == 0,
        spacing > 0 ==> r.vertical@ == grid_verticals(width, height, spacing) && r.horizontal@
            == grid_horizontals(width, height, spacing),
{
    if spacing == 0 {
        return GridLines { vertical: Vec::new(), horizontal: Vec::new() };
    }
    let vertical = grid_axis(width, spacing, coordinate(height), true);
    let horizontal = grid_axis(height, spacing, coordinate(width), false);
    assert(vertical@ =~= grid_verticals(width, height, spacing));
    assert(horizontal@ =~= grid_horizontals(width, height, spacing));
    GridLines { vertical, horizontal }
}

/// The centre cross of a canvas.
pub open spec fn spec_centre_cross(width: u32, height: u32) -> CentreCross {
    CentreCross {
        vertical: vertical_line(spec_centre(width), spec_coordinate(height)),
        horizontal: horizontal_line(spec_centre(height), spec_coordinate(width)),
    }
}

/// The centre cross for a `width` x `height` canvas.
pub fn centre_cross(width: u32, height: u32) -> (r: CentreCross)
    ensures
        r == spec_centre_cross(width, height),
{
    CentreCross {
        vertical: GuideLine::vertical(centre_coordinate(width), coordinate(height)),
        horizontal: GuideLine::horizontal(centre_coordinate(height), coordinate(width)),
    }
}

/// `a - b`, or zero when `b` is larger.
pub open spec fn sub_or_zero(a: int, b: int) -> int {
    if a < b {
        0
    } else {
        a - b
    }
}

/// The safe-area rectangle of a canvas.
pub open spec fn spec_safe_area(width: u32, height: u32, inset: u32) -> Rect {
    let twice = if 2 * inset > u32::MAX {
        u32::MAX as int
    } else {
        2 * inset
    };
    Rect {
        x: spec_coordinate(if inset < width / 2 {
            inset
        } else {
            width / 2
        }),
        y: spec_coordinate(if inset < height / 2 {
            inset
        } else {
            height / 2
        }),
        width: sub_or_zero(width as int, twice) as u32,
        height: sub_or_zero(height as int, twice) as u32,
    }
}

/// The safe-area rectangle: inset by `inset` pixels on each side; an inset
/// that reaches the middle collapses the rectangle rather than inverting it.
pub fn safe_area(width: u32, height: u32, inset: u32) -> (r: Rect)
    ensures
        r == spec_safe_area(width, height, inset),
{
    let twice = if inset > u32::MAX / 2 {
        u32::MAX
    } else {
        inset * 2
    };
    let x_inset = if inset < width / 2 {
        inset
    } else {
        width / 2
    };
    let y_inset = if inset < height / 2 {
        inset
    } else {
        height / 2
    };
    Rect {
        x: coordinate(x_inset),
        y: coordinate(y_inset),
        width: width.saturating_sub(twice),
        height: height.saturating_sub(twice),
    }
}

/// One or two thirds of an extent, rounded to the nearest pixel.
pub open spec fn spec_third(extent: u32, numerator: u32) -> u32 {
    let scaled = (extent as int * 2 * numerator as int + 3) / 6;
    if scaled > u32::MAX {
        u32::MAX
    } else {
        scaled as u32
    }
}

/// One or two thirds of an extent, rounded to the nearest pixel.
fn third(extent: u32, numerator: u32) -> (r: u32)
    requires
        numerator == 1 || numerator == 2,
    ensures
        r == spec_third(extent, numerator),
{
    let e = extent as u64;
    let scaled = if numerator == 1 {
        e * 2 + 3
    } else {
        e * 4 + 3
    };
    let q = scaled / 6;
    if q > u32::MAX as u64 {
        u32::MAX
    } else {
        q as u32
    }
}

/// The thirds lines of a canvas.
pub open spec fn spec_thirds(width: u32, height: u32) -> ThirdsLines {
    ThirdsLines {
        vertical: [
            vertical_line(spec_coordinate(spec_third(width, 1)), spec_coordinate(height)),
            vertical_line(spec_coordinate(spec_third(width, 2)), spec_coordinate(height)),
        ],
        horizontal: [
            horizontal_line(spec_coordinate(spec_third(height, 1)), spec_coordinate(width)),
            horizontal_line(spec_coordinate(spec_third(height, 2)), spec_coordinate(width)),
        ],
    }
}

/// The rule-of-thirds lines: one third and two thirds of each axis, rounded
/// to the nearest pixel.
pub fn thirds_lines(width: u32, height: u32) -> (r: ThirdsLines)
    ensures
        r == spec_thirds(width, height),
{
    ThirdsLines {
        vertical: [
            GuideLine::vertical(coordinate(third(width, 1)), coordinate(height)),
            GuideLine::vertical(coordinate(third(width, 2)), coordinate(height)),
        ],
        horizontal: [
            GuideLine::horizontal(coordinate(third(height, 1)), coordinate(width)),
            GuideLine::horizontal(coordinate(third(height, 2)), coordinate(width)),
        ],
    }
}

impl GuideGeometry {
    /// Build every guide for a `width` x `height` canvas, with `spacing` the
    /// grid pitch and `inset` the safe-area margin per side.
    pub fn for_canvas(width: u32, height: u32, spacing: u32, inset: u32) -> (r: Self)
        ensures
            r.width == width,
            r.height == height,
            spacing == 0 ==> r.grid.vertical@.len() == 0 && r.grid.horizontal@.len() == 0,
            spacing > 0 ==> r.grid.vertical@ == grid_verticals(width, height, spacing)
                && r.grid.horizontal@ == grid_horizontals(width, height, spacing),
            r.centre == spec_centre_cross(width, height),
            r.safe_area == spec_safe_area(width, height, inset),
            r.thirds == spec_thirds(width, height),
    {
        GuideGeometry {
            width,
            height,
            grid: grid_lines(width, height, spacing),
            centre: centre_cross(width, height),
            safe_area: safe_area(width, height, inset),
            thirds: thirds_lines(width, height),
        }
    }

    /// Build every guide using the default spacing and inset.
    pub fn with_defaults(width: u32, height: u32) -> (r: Self)
        ensures
            r.width == width,
            r.height == height,
            r.grid.vertical@ == grid_verticals(width, height, DEFAULT_GRID_SPACING),
            r.grid.horizontal@ == grid_horizontals(width, height, DEFAULT_GRID_SPACING),
            r.centre == spec_centre_cross(width, height),
            r.safe_area == spec_safe_area(width, height, DEFAULT_SAFE_AREA_INSET),
            r.thirds == spec_thirds(width, height),
    {
        GuideGeometry::for_canvas(width, height, DEFAULT_GRID_SPACING, DEFAULT_SAFE_AREA_INSET)
    }
}

/// The editor's six guide switches.
#[derive(Debug, Clone, Copy, PartialEq, Eq, Default, Structural)]
pub struct GuideToggles {
    /// Ghost neighbouring frames.
    pub onion: bool,
    /// Draw the grid.
    pub grid: bool,
    /// Snap free points to grid lines.
    pub snap_grid: bool,
    /// Snap free points to the centre cross.
    pub snap_centre: bool,
    /// Draw the safe-area rectangle.
    pub safe_area: bool,
    /// Draw the rule-of-thirds lines.
    pub thirds: bool,
}

impl GuideToggles {
    /// Apply the enabled snaps to a free point: centre wins over grid, and
    /// with both off the point is unchanged.
    pub fn snap(&self, point: Point, width: u32, height: u32, spacing: u32) -> (r: Point)
        ensures
            self.snap_centre ==> r == (Point {
                x: if width == 0 {
                    point.x
                } else {
                    spec_centre(width)
                },
                y: if height == 0 {
                    point.y
                } else {
                    spec_centre(height)
                },
            }),
            !self.snap_centre && self.snap_grid ==> r == (Point {
                x: spec_snap_to_grid(point.x, spacing),
                y: spec_snap_to_grid(point.y, spacing),
            }),
            !self.snap_centre && !self.snap_grid ==> r == point,
    {
        if self.snap_centre {
            snap_point_to_centre(point, width, height)
        } else if self.snap_grid {
            snap_point_to_grid(point, spacing)
        } else {
            point
        }
    }
}

/// A frame to ghost while onion skinning: which one, and how far off it is.
#[derive(Debug, Clone, Copy, PartialEq, Eq, Structural)]
pub struct OnionNeighbour {
    /// Index into the frame list.
    pub index: usize,
    /// Signed distance from the current frame.
    pub offset: i32,
}

/// A distance as a signed offset, saturating at `i32::MAX`.
pub open spec fn offset_of(distance: int) -> i32 {
    if distance > i32::MAX {
        i32::MAX
    } else {
        distance as i32
    }
}

/// The neighbours at distances `1..=d`, nearest first, earlier before later.
pub open spec fn neighbours_upto(frame_count: int, current: int, d: int) -> Seq<OnionNeighbour>
    decreases d,
{
    if d <= 0 {
        Seq::empty()
    } else {
        let before = neighbours_upto(frame_count, current, d - 1);
        let earlier = if current >= d {
            seq![OnionNeighbour { index: (current - d) as usize, offset: (-offset_of(d)) as i32 }]
        } else {
            Seq::empty()
        };
        let later = if current + d < frame_count {
            seq![OnionNeighbour { index: (current + d) as usize, offset: offset_of(d) }]
        } else {
            Seq::empty()
        };
        before + earlier + later
    }
}

/// Which frames to ghost around `current` among `frame_count` frames, nearest
/// first: `-1, +1, -2, +2, ...`. `radius` is clamped to the frame count; an
/// out-of-range `current` or a zero radius gives an empty list.
pub fn onion_neighbours(frame_count: usize, current: usize, radius: usize) -> (r: Vec<
    OnionNeighbour,
>)
    ensures
        current >= frame_count ==> r@.len() == 0,
        current < frame_count ==> r@ == neighbours_upto(
            frame_count as int,
            current as int,
            if radius < frame_count {
                radius as int
            } else {
                frame_count as int
            },
        ),
{
    let mut out: Vec<OnionNeighbour> = Vec::new();
    if current >= frame_count {
        return out;
    }
    let r = if radius < frame_count {
        radius
    } else {
        frame_count
    };
    let mut i: usize = 0;
    while i < r
        invariant
            i <= r,
            r <= frame_count,
            current < frame_count,
            out@ == neighbours_upto(frame_count as int, current as int, i as int),
        decreases r - i,
    {
        let d = i + 1;
        let ghost before = out@;
        let off: i32 = if d > i32::MAX as usize {
            i32::MAX
        } else {
            d as i32
        };
        if current >= d {
            out.push(OnionNeighbour { index: current - d, offset: -off });
        }
        let ghost mid = out@;
        if d < frame_count - current {
            out.push(OnionNeighbour { index: current + d, offset: off });
        }
        proof {
            let earlier = if current >= d {
                seq![OnionNeighbour { index: (current - d) as usize, offset: (-offset_of(d as int)) as i32 }]
            } else {
                Seq::empty()
            };
            let later = if current + d < frame_count {
                seq![OnionNeighbour { index: (current + d) as usize, offset: offset_of(d as int) }]
            } else {
                Seq::empty()
            };
            assert(mid =~= before + earlier);
            assert(out@ =~= before + earlier + later);
        }
        i = d;
    }
    out
}

/// A multiple of the step, nudged by less than a step, rounds back to it.
proof fn lemma_round_multiple(k: int, step: int, half: int)
    requires
        step > 0,
        0 <= half < step,
        k >= 0,
    ensures
        (k * step + half) / step == k,
{
    vstd::arithmetic::div_mod::lemma_fundamental_div_mod_converse(k * step + half, step, k, half);
}

/// Rounding a magnitude to the grid never decreases as the magnitude grows.
proof fn lemma_round_ordered(a: int, b: int, step: int, half: int)
    requires
        step > 0,
        0 <= a <= b,
        half >= 0,
    ensures
        (a + half) / step * step <= (b + half) / step * step,
{
    vstd::arithmetic::div_mod::lemma_div_is_ordered(a + half, b + half, step);
    vstd::arithmetic::mul::lemma_mul_inequality((a + half) / step, (b + half) / step, step);
}

/// Snapping is idempotent: a snapped coordinate is already on the grid (or
/// at the end of the `i32` range the snap clamps to).
pub proof fn lemma_snap_idempotent(value: i32, spacing: u32)
    ensures
        spec_snap_to_grid(spec_snap_to_grid(value, spacing), spacing) == spec_snap_to_grid(
            value,
            spacing,
        ),
{
    if spacing > 0 {
        let step = spacing as int;
        let half = step / 2;
        let r = spec_snap_to_grid(value, spacing);
        if value >= 0 {
            let k = (value + half) / step;
            vstd::arithmetic::div_mod::lemma_div_pos_is_pos(value + half, step);
            assert(k * step >= 0) by (nonlinear_arith)
                requires
                    k >= 0,
                    step > 0,
            ;
            if k * step <= i32::MAX {
                lemma_round_multiple(k, step, half);
            } else {
                lemma_round_ordered(value as int, i32::MAX as int, step, half);
            }
        } else {
            let k = (-value + half) / step;
            vstd::arithmetic::div_mod::lemma_div_pos_is_pos(-value + half, step);
            assert(k * step >= 0) by (nonlinear_arith)
                requires
                    k >= 0,
                    step > 0,
            ;
            if -(k * step) >= i32::MIN {
                lemma_round_multiple(k, step, half);
                if k * step == 0 {
                    lemma_round_multiple(0, step, half);
                }
            } else {
                lemma_round_ordered(-value, 0x8000_0000, step, half);
            }
        }
    }
}

} // verus!
