//! Field of view: one ray to each point of a perimeter marks what the viewer
//! sees; a second pass decides what is drawn in each cell that is seen.

use vstd::prelude::*;
use vstd::arithmetic::div_mod::lemma_fundamental_div_mod_converse;
use crate::actor::NPCTracker;
use crate::display::{BROWN, LIGHT_BLUE, WHITE};
use crate::game::GameState;
use crate::items::{Item, ItemsTable};
use crate::map::{is_canopy, is_clear, spec_is_clear, Grid, Tile};
use crate::pathfinding::is_cell;
use crate::ship::{Ship, ShipsTable};
use crate::table::Table;
use crate::util::{bresenham_circle, circle_point, circle_steps, circle_x, Coord};
use crate::weather::CoordSet;

verus! {

/// How many steps of its reach a ray loses in each canopy cell it crosses.
pub const CANOPY_LOSS: i128 = 3;

/// What a ray meets on its way: the terrain, the fog, the halo round the
/// viewer in which fog does not count, and where the viewer stands.
pub struct Scene {
    pub map: Seq<Vec<Tile>>,
    pub fog: Set<(int, int)>,
    pub no_fog: Set<(int, int)>,
    pub viewer: Coord,
}

/// The error that the line drawing carries after `i` steps along the longer
/// axis, for a line that spans `dmaj` cells on the longer and `dmin` on the
/// shorter axis.
pub open spec fn line_error(dmaj: int, dmin: int, i: nat) -> int
    decreases i,
{
    if i == 0 {
        0
    } else {
        let e = line_error(dmaj, dmin, (i - 1) as nat) + dmin;
        if e > dmaj / 2 { e - dmaj } else { e }
    }
}

/// How far the line has moved along the shorter axis after `i` steps along
/// the longer one: it moves whenever the error passes half the longer span.
pub open spec fn line_minor(dmaj: int, dmin: int, i: nat) -> int
    decreases i,
{
    if i == 0 {
        0
    } else {
        let e = line_error(dmaj, dmin, (i - 1) as nat) + dmin;
        line_minor(dmaj, dmin, (i - 1) as nat) + if e > dmaj / 2 { 1int } else { 0int }
    }
}

/// The absolute value.
pub open spec fn span(d: int) -> int {
    if d < 0 { -d } else { d }
}

/// The direction of a step: backwards for a negative offset, else forwards.
pub open spec fn step_of(d: int) -> int {
    if d < 0 { -1 } else { 1 }
}

/// The number of steps that a ray to the offset `(dr, dc)` may take at most.
pub open spec fn ray_reach(dr: int, dc: int) -> int {
    if span(dc) <= span(dr) { span(dr) } else { span(dc) }
}

/// The point that a ray from `viewer` to the offset `(dr, dc)` is on after `i` steps.
pub open spec fn line_point(viewer: Coord, dr: int, dc: int, i: int) -> (int, int) {
    if span(dc) <= span(dr) {
        (
            viewer.0 + step_of(dr) * i,
            viewer.1 + step_of(dc) * line_minor(span(dr), span(dc), i as nat),
        )
    } else {
        (
            viewer.0 + step_of(dr) * line_minor(span(dc), span(dr), i as nat),
            viewer.1 + step_of(dc) * i,
        )
    }
}

/// Whether a point with signed coordinates is a cell of the map.
pub open spec fn on_map(map: Seq<Vec<Tile>>, p: (int, int)) -> bool {
    0 <= p.0 < map.len() && 0 <= p.1 < map[p.0].len()
}

/// The cells of a set as points with signed coordinates.
pub open spec fn points_of(cells: CoordSet) -> Set<(int, int)> {
    Set::new(
        |p: (int, int)|
            0 <= p.0 <= usize::MAX && 0 <= p.1 <= usize::MAX && cells@.contains_key(
                (p.0 as usize, p.1 as usize),
            ),
    )
}

/// The tile at a point on the map.
pub open spec fn tile_at(map: Seq<Vec<Tile>>, p: (int, int)) -> Tile {
    map[p.0][p.1]
}

/// Whether a ray ends on `p` because fog lies there, outside the halo.
pub open spec fn fogged(scene: Scene, p: (int, int)) -> bool {
    scene.fog.contains(p) && !scene.no_fog.contains(p)
}

/// Whether a ray ends on `p`: on a tile that light does not pass, or in fog.
pub open spec fn stops_ray(scene: Scene, p: (int, int)) -> bool {
    !spec_is_clear(tile_at(scene.map, p)) || fogged(scene, p)
}

/// The number of cells that a ray to the offset `(dr, dc)` marks from its
/// `i`-th step on, when it may go on as far as step `limit`. The ray ends
/// where it leaves the map, which it does not mark, and on the first cell
/// that stops it, which it marks. Each canopy cell it crosses after its first
/// cell takes three steps off its limit.
pub open spec fn ray_len(scene: Scene, dr: int, dc: int, i: int, limit: int) -> nat
    decreases (if i <= limit { limit - i + 1 } else { 0 }),
{
    if i < 0 || i > limit {
        0
    } else {
        let p = line_point(scene.viewer, dr, dc, i);
        if !on_map(scene.map, p) {
            0
        } else if stops_ray(scene, p) {
            1
        } else if tile_at(scene.map, p) is Tree && i != 0 {
            1 + ray_len(scene, dr, dc, i + 1, limit - 3)
        } else {
            1 + ray_len(scene, dr, dc, i + 1, limit)
        }
    }
}

/// The number of cells that a ray to the offset `(dr, dc)` marks.
pub open spec fn ray_cells(scene: Scene, dr: int, dc: int) -> nat {
    ray_len(scene, dr, dc, 0, ray_reach(dr, dc))
}

/// The place of the point `p` in a viewport of `height` rows and `width`
/// columns whose middle is the viewer, if it has one.
pub open spec fn view_index(viewer: Coord, height: int, width: int, p: (int, int)) -> Option<int> {
    let vr = p.0 - viewer.0 + height / 2;
    let vc = p.1 - viewer.1 + width / 2;
    if 0 <= vr < height && 0 <= vc < width {
        Some(vr * width + vc)
    } else {
        None
    }
}

/// Whether one of the first `n` points of the ray to the offset `(dr, dc)`
/// has the place `idx` in the viewport.
pub open spec fn marked_upto(
    scene: Scene,
    dr: int,
    dc: int,
    height: int,
    width: int,
    n: int,
    idx: int,
) -> bool {
    exists|i: int|
        0 <= i < n && #[trigger] view_index(
            scene.viewer,
            height,
            width,
            line_point(scene.viewer, dr, dc, i),
        ) == Some(idx)
}

/// Whether the ray to the offset `(dr, dc)` marks the place `idx` of the viewport.
pub open spec fn ray_hits(scene: Scene, dr: int, dc: int, height: int, width: int, idx: int) -> bool {
    marked_upto(scene, dr, dc, height, width, ray_cells(scene, dr, dc) as int, idx)
}

/// The place of the viewer in the viewport.
pub open spec fn centre(height: int, width: int) -> int {
    (height / 2) * width + width / 2
}

/// Whether the place `idx` of the viewport is lit: it is the viewer's own,
/// or a ray to some point of the perimeter marks it.
pub open spec fn lit(
    scene: Scene,
    perimeter: Seq<(int, int)>,
    height: int,
    width: int,
    idx: int,
) -> bool {
    idx == centre(height, width) || exists|j: int|
        0 <= j < perimeter.len() && #[trigger] ray_hits(
            scene,
            perimeter[j].0,
            perimeter[j].1,
            height,
            width,
            idx,
        )
}

/// A list of offsets as pairs of numbers without bounds.
pub open spec fn offsets_of(c: Seq<(i32, i32)>) -> Seq<(int, int)> {
    Seq::new(c.len(), |j: int| (c[j].0 as int, c[j].1 as int))
}

/// The scene that a map, its fog and a halo make for a viewer.
pub open spec fn scene_of(map: Grid, clouds: CoordSet, no_fog: CoordSet, viewer: Coord) -> Scene {
    Scene { map: map@, fog: points_of(clouds), no_fog: points_of(no_fog), viewer }
}

/// The line never runs ahead of its steps, and its error stays within half
/// the longer span of nought.
proof fn lemma_line_bounds(dmaj: int, dmin: int, i: nat)
    requires
        0 <= dmin <= dmaj,
    ensures
        0 <= line_minor(dmaj, dmin, i) <= i,
        dmaj / 2 - dmaj <= line_error(dmaj, dmin, i) <= dmaj / 2,
    decreases i,
{
    if i > 0 {
        lemma_line_bounds(dmaj, dmin, (i - 1) as nat);
    }
}

/// The line keeps close to the straight line from its first point to its
/// last: after `i` steps along the longer axis it has moved along the
/// shorter one by the number of cells that is nearest to `i * dmin / dmaj`,
/// to within half a cell.
pub proof fn lemma_line_close(dmaj: int, dmin: int, i: nat)
    requires
        0 <= dmin <= dmaj,
    ensures
        line_error(dmaj, dmin, i) == i * dmin - line_minor(dmaj, dmin, i) * dmaj,
        dmaj / 2 - dmaj <= i * dmin - line_minor(dmaj, dmin, i) * dmaj <= dmaj / 2,
    decreases i,
{
    lemma_line_bounds(dmaj, dmin, i);
    if i > 0 {
        let j = (i - 1) as nat;
        lemma_line_close(dmaj, dmin, j);
        let m = line_minor(dmaj, dmin, j);
        assert(i * dmin == j * dmin + dmin) by (nonlinear_arith)
            requires
                i == j + 1,
        ;
        assert((m + 1) * dmaj == m * dmaj + dmaj) by (nonlinear_arith);
    } else {
        assert(0 * dmin - 0 * dmaj == 0) by (nonlinear_arith);
    }
}

/// The place in the viewport of a point within it is within the buffer.
proof fn lemma_index_in_range(vr: int, vc: int, height: int, width: int)
    requires
        0 <= vr < height,
        0 <= vc < width,
    ensures
        0 <= vr * width + vc < height * width,
{
    assert(vr * width + vc < height * width) by (nonlinear_arith)
        requires
            0 <= vr <= height - 1,
            0 <= vc < width,
    ;
    assert(0 <= vr * width) by (nonlinear_arith)
        requires
            0 <= vr,
            0 <= width,
    ;
}

/// One more point of a ray marks its own place and no other.
proof fn lemma_marked_step(scene: Scene, dr: int, dc: int, height: int, width: int, n: int, idx: int)
    requires
        0 <= n,
    ensures
        marked_upto(scene, dr, dc, height, width, n + 1, idx) <==> (marked_upto(
            scene,
            dr,
            dc,
            height,
            width,
            n,
            idx,
        ) || view_index(scene.viewer, height, width, line_point(scene.viewer, dr, dc, n)) == Some(
            idx,
        )),
{
    if marked_upto(scene, dr, dc, height, width, n + 1, idx) {
        let j = choose|j: int|
            0 <= j < n + 1 && #[trigger] view_index(
                scene.viewer,
                height,
                width,
                line_point(scene.viewer, dr, dc, j),
            ) == Some(idx);
        if j < n {
            assert(marked_upto(scene, dr, dc, height, width, n, idx));
        }
    }
    if marked_upto(scene, dr, dc, height, width, n, idx) {
        let j = choose|j: int|
            0 <= j < n && #[trigger] view_index(
                scene.viewer,
                height,
                width,
                line_point(scene.viewer, dr, dc, j),
            ) == Some(idx);
        assert(0 <= j < n + 1);
    }
}

/// What a buffer holds once the first `n` points of a ray are marked in it.
spec fn marked_buffer(
    first: Seq<bool>,
    now: Seq<bool>,
    scene: Scene,
    dr: int,
    dc: int,
    height: int,
    width: int,
    n: int,
) -> bool {
    &&& now.len() == first.len()
    &&& forall|idx: int|
        0 <= idx < now.len() ==> (#[trigger] now[idx] <==> (first[idx] || marked_upto(
            scene,
            dr,
            dc,
            height,
            width,
            n,
            idx,
        )))
}

/// A buffer with the first `n` points of a ray marked, and then the next
/// point, has the first `n + 1` points marked.
proof fn lemma_mark_one(
    first: Seq<bool>,
    before: Seq<bool>,
    now: Seq<bool>,
    scene: Scene,
    dr: int,
    dc: int,
    height: int,
    width: int,
    n: int,
)
    requires
        0 <= n,
        marked_buffer(first, before, scene, dr, dc, height, width, n),
        now.len() == before.len(),
        height * width == now.len(),
        0 <= height,
        0 <= width,
        forall|idx: int|
            0 <= idx < now.len() ==> (#[trigger] now[idx] <==> (before[idx] || view_index(
                scene.viewer,
                height,
                width,
                line_point(scene.viewer, dr, dc, n),
            ) == Some(idx))),
    ensures
        marked_buffer(first, now, scene, dr, dc, height, width, n + 1),
{
    assert forall|idx: int| 0 <= idx < now.len() implies (#[trigger] now[idx] <==> (first[idx]
        || marked_upto(scene, dr, dc, height, width, n + 1, idx))) by {
        lemma_marked_step(scene, dr, dc, height, width, n, idx);
    }
}

/// Marks the place of the point `(r, c)` in the viewport round `(r1, c1)`, if it has one.
fn mark_point(
    v_matrix: &mut Vec<bool>,
    r: i128,
    c: i128,
    r1: usize,
    c1: usize,
    height: usize,
    width: usize,
)
    requires
        old(v_matrix)@.len() == height * width,
        0 <= r <= usize::MAX,
        0 <= c <= usize::MAX,
    ensures
        final(v_matrix)@.len() == old(v_matrix)@.len(),
        forall|idx: int|
            0 <= idx < old(v_matrix)@.len() ==> (#[trigger] final(v_matrix)@[idx] <==> (old(v_matrix)@[idx] || view_index((r1, c1), height as int, width as int, (r as int, c as int))
                == Some(idx))),
{
    let size: usize = v_matrix.len();
    let vr: i128 = r - r1 as i128 + (height / 2) as i128;
    let vc: i128 = c - c1 as i128 + (width / 2) as i128;
    if 0 <= vr && vr < height as i128 && 0 <= vc && vc < width as i128 {
        proof {
            lemma_index_in_range(vr as int, vc as int, height as int, width as int);
            assert(0 <= vr * width) by (nonlinear_arith)
                requires
                    0 <= vr,
                    0 <= width,
            ;
            assert(size == height * width);
            assert((vr as usize) * width == vr * width);
        }
        let vmi: usize = (vr as usize) * width + (vc as usize);
        v_matrix.set(vmi, true);
    }
}

/// Casts one ray from the viewer at `(r1, c1)` toward the offset `(dr, dc)`,
/// and marks in `v_matrix` the places of the viewport that it passes.
pub fn mark_visible(
    r1: usize,
    c1: usize,
    dr: i32,
    dc: i32,
    map: &Grid,
    clouds: &CoordSet,
    no_fog: &CoordSet,
    v_matrix: &mut Vec<bool>,
    height: usize,
    width: usize,
)
    requires
        old(v_matrix)@.len() == height * width,
    ensures
        final(v_matrix)@.len() == old(v_matrix)@.len(),
        forall|idx: int|
            0 <= idx < old(v_matrix)@.len() ==> (#[trigger] final(v_matrix)@[idx] <==> (old(v_matrix)@[idx] || ray_hits(
                scene_of(*map, *clouds, *no_fog, (r1, c1)),
                dr as int,
                dc as int,
                height as int,
                width as int,
                idx,
            ))),
{
    let ghost scene = scene_of(*map, *clouds, *no_fog, (r1, c1));
    let ghost h = height as int;
    let ghost w = width as int;
    let ghost first = v_matrix@;
    let ar: i128 = if dr < 0 { -(dr as i128) } else { dr as i128 };
    let ac: i128 = if dc < 0 { -(dc as i128) } else { dc as i128 };
    let sr: i128 = if dr < 0 { -1 } else { 1 };
    let sc: i128 = if dc < 0 { -1 } else { 1 };
    let by_rows: bool = ac <= ar;
    let dmaj: i128 = if by_rows { ar } else { ac };
    let dmin: i128 = if by_rows { ac } else { ar };
    let criterion: i128 = dmaj / 2;
    let mut limit: i128 = dmaj;
    let mut i: i128 = 0;
    let mut minor: i128 = 0;
    let mut error: i128 = 0;
    while i <= limit
        invariant_except_break
            ray_cells(scene, dr as int, dc as int) == i + ray_len(
                scene,
                dr as int,
                dc as int,
                i as int,
                limit as int,
            ),
            marked_buffer(first, v_matrix@, scene, dr as int, dc as int, h, w, i as int),
        invariant
            0 <= i,
            limit <= dmaj,
            0 <= dmin <= dmaj <= 0x8000_0000,
            dmaj == ray_reach(dr as int, dc as int),
            by_rows == (span(dc as int) <= span(dr as int)),
            dmaj == (if by_rows { span(dr as int) } else { span(dc as int) }),
            dmin == (if by_rows { span(dc as int) } else { span(dr as int) }),
            sr == step_of(dr as int),
            sc == step_of(dc as int),
            criterion == dmaj / 2,
            minor == line_minor(dmaj as int, dmin as int, i as nat),
            error == line_error(dmaj as int, dmin as int, i as nat),
            scene == scene_of(*map, *clouds, *no_fog, (r1, c1)),
            h == height as int,
            w == width as int,
            first == old(v_matrix)@,
            v_matrix@.len() == height * width,
        ensures
            marked_buffer(
                first,
                v_matrix@,
                scene,
                dr as int,
                dc as int,
                h,
                w,
                ray_cells(scene, dr as int, dc as int) as int,
            ),
        decreases (if i <= limit { limit - i + 1 } else { 0 }),
    {
        proof {
            lemma_line_bounds(dmaj as int, dmin as int, i as nat);
        }
        let ghost p = line_point(scene.viewer, dr as int, dc as int, i as int);
        let r: i128 = if by_rows { r1 as i128 + sr * i } else { r1 as i128 + sr * minor };
        let c: i128 = if by_rows { c1 as i128 + sc * minor } else { c1 as i128 + sc * i };
        assert(p == (r as int, c as int));
        if r < 0 || c < 0 || r >= map.len() as i128 {
            break ;
        }
        let ru: usize = r as usize;
        if c >= map[ru].len() as i128 {
            break ;
        }
        let cu: usize = c as usize;
        assert(on_map(scene.map, p));
        let ghost before = v_matrix@;
        mark_point(v_matrix, r, c, r1, c1, height, width);
        proof {
            lemma_mark_one(first, before, v_matrix@, scene, dr as int, dc as int, h, w, i as int);
        }
        let tile = &map[ru][cu];
        if !is_clear(tile) {
            break ;
        }
        if clouds.contains_key(&(ru, cu)) && !no_fog.contains_key(&(ru, cu)) {
            break ;
        }
        assert(!stops_ray(scene, p));
        if is_canopy(tile) && i != 0 {
            limit = limit - CANOPY_LOSS;
        }
        i = i + 1;
        error = error + dmin;
        if error > criterion {
            error = error - dmaj;
            minor = minor + 1;
        }
    }
}

/// A buffer of `size` places, none of them marked.
fn blank_buffer(size: usize) -> (v: Vec<bool>)
    ensures
        v@.len() == size,
        forall|i: int| 0 <= i < size ==> !#[trigger] v@[i],
{
    let mut v: Vec<bool> = Vec::new();
    let mut i: usize = 0;
    while i < size
        invariant
            i <= size,
            v@.len() == i,
            forall|j: int| 0 <= j < i ==> !#[trigger] v@[j],
        decreases size - i,
    {
        v.push(false);
        i += 1;
    }
    v
}

/// What the viewer at `(viewer_r, viewer_c)` sees, as a buffer of `height`
/// rows of `width` places with the viewer in the middle: a place is marked
/// exactly when it is the viewer's own or a ray to some point of the
/// perimeter passes it. The viewer's own place is always marked.
pub fn compute_visibility(
    map: &Grid,
    clouds: &CoordSet,
    no_fog: &CoordSet,
    viewer_r: usize,
    viewer_c: usize,
    perimeter: &Vec<(i32, i32)>,
    height: usize,
    width: usize,
) -> (visible: Vec<bool>)
    requires
        height > 0,
        width > 0,
        height * width <= usize::MAX,
    ensures
        visible@.len() == height * width,
        forall|idx: int|
            0 <= idx < visible@.len() ==> (#[trigger] visible@[idx] <==> lit(
                scene_of(*map, *clouds, *no_fog, (viewer_r, viewer_c)),
                offsets_of(perimeter@),
                height as int,
                width as int,
                idx,
            )),
        0 <= centre(height as int, width as int) < visible@.len(),
        visible@[centre(height as int, width as int)],
{
    let ghost scene = scene_of(*map, *clouds, *no_fog, (viewer_r, viewer_c));
    let ghost h = height as int;
    let ghost w = width as int;
    proof {
        assert(0 <= h * w) by (nonlinear_arith)
            requires
                0 <= h,
                0 <= w,
        ;
        lemma_index_in_range(h / 2, w / 2, h, w);
    }
    let size: usize = height * width;
    let mut visible = blank_buffer(size);
    let mid: usize = (height / 2) * width + width / 2;
    visible.set(mid, true);
    let mut j: usize = 0;
    while j < perimeter.len()
        invariant
            j <= perimeter@.len(),
            visible@.len() == height * width,
            scene == scene_of(*map, *clouds, *no_fog, (viewer_r, viewer_c)),
            h == height as int,
            w == width as int,
            forall|idx: int|
                0 <= idx < visible@.len() ==> (#[trigger] visible@[idx] <==> lit(
                    scene,
                    offsets_of(perimeter@).subrange(0, j as int),
                    h,
                    w,
                    idx,
                )),
        decreases perimeter@.len() - j,
    {
        let ghost before = visible@;
        let ghost shorter = offsets_of(perimeter@).subrange(0, j as int);
        let ghost longer = offsets_of(perimeter@).subrange(0, j + 1);
        let loc: (i32, i32) = perimeter[j];
        mark_visible(viewer_r, viewer_c, loc.0, loc.1, map, clouds, no_fog, &mut visible, height, width);
        proof {
            assert forall|idx: int| 0 <= idx < visible@.len() implies (#[trigger] visible@[idx]
                <==> lit(scene, longer, h, w, idx)) by {
                let hit = ray_hits(scene, loc.0 as int, loc.1 as int, h, w, idx);
                assert(visible@[idx] == (before[idx] || hit));
                assert(before[idx] == lit(scene, shorter, h, w, idx));
                if lit(scene, shorter, h, w, idx) && idx != centre(h, w) {
                    let x = choose|x: int|
                        0 <= x < shorter.len() && #[trigger] ray_hits(
                            scene,
                            shorter[x].0,
                            shorter[x].1,
                            h,
                            w,
                            idx,
                        );
                    assert(longer[x] == shorter[x]);
                    assert(ray_hits(scene, longer[x].0, longer[x].1, h, w, idx));
                }
                if hit {
                    assert(longer[j as int] == (loc.0 as int, loc.1 as int));
                    assert(ray_hits(scene, longer[j as int].0, longer[j as int].1, h, w, idx));
                }
                if lit(scene, longer, h, w, idx) && idx != centre(h, w) {
                    let x = choose|x: int|
                        0 <= x < longer.len() && #[trigger] ray_hits(
                            scene,
                            longer[x].0,
                            longer[x].1,
                            h,
                            w,
                            idx,
                        );
                    if x < j {
                        assert(shorter[x] == longer[x]);
                        assert(ray_hits(scene, shorter[x].0, shorter[x].1, h, w, idx));
                    }
                }
            }
        }
        j += 1;
    }
    proof {
        assert(offsets_of(perimeter@).subrange(0, j as int) =~= offsets_of(perimeter@));
    }
    visible
}

/// Two scenes agree except at `q`: they have the same viewer, their maps the
/// same shape, and at every other point of the map the same tile and the
/// same answer to whether fog ends a ray there.
pub open spec fn agree_except(scene: Scene, other: Scene, q: (int, int)) -> bool {
    &&& other.viewer == scene.viewer
    &&& forall|p: (int, int)| #[trigger] on_map(other.map, p) == on_map(scene.map, p)
    &&& forall|p: (int, int)|
        on_map(scene.map, p) && p != q ==> #[trigger] tile_at(other.map, p) == tile_at(scene.map, p)
            && fogged(other, p) == fogged(scene, p)
}

/// A ray never comes to the same point twice.
pub proof fn lemma_points_differ(viewer: Coord, dr: int, dc: int, i: int, j: int)
    requires
        i != j,
    ensures
        line_point(viewer, dr, dc, i) != line_point(viewer, dr, dc, j),
{
    assert(step_of(dr) * i != step_of(dr) * j) by (nonlinear_arith)
        requires
            i != j,
            step_of(dr) == 1 || step_of(dr) == -1,
    ;
    assert(step_of(dc) * i != step_of(dc) * j) by (nonlinear_arith)
        requires
            i != j,
            step_of(dc) == 1 || step_of(dc) == -1,
    ;
}

/// Where two scenes agree except at the ray's `k`-th point, and that point
/// stops the ray in the other scene, the ray ends there in the other scene.
proof fn lemma_cut(scene: Scene, other: Scene, dr: int, dc: int, k: int, i: int, limit: int)
    requires
        0 <= i <= k,
        k < i + ray_len(scene, dr, dc, i, limit),
        agree_except(scene, other, line_point(scene.viewer, dr, dc, k)),
        stops_ray(other, line_point(scene.viewer, dr, dc, k)),
    ensures
        ray_len(other, dr, dc, i, limit) == k - i + 1,
    decreases k - i,
{
    let p = line_point(scene.viewer, dr, dc, i);
    assert(on_map(other.map, p) == on_map(scene.map, p));
    if i < k {
        lemma_points_differ(scene.viewer, dr, dc, i, k);
        assert(tile_at(other.map, p) == tile_at(scene.map, p));
        let next = if tile_at(scene.map, p) is Tree && i != 0 { limit - 3 } else { limit };
        lemma_cut(scene, other, dr, dc, k, i + 1, next);
    }
}

/// Where two scenes agree except at a point that the ray does not mark, the
/// ray marks as many cells in the one as in the other.
proof fn lemma_same(scene: Scene, other: Scene, dr: int, dc: int, q: (int, int), i: int, limit: int)
    requires
        0 <= i,
        agree_except(scene, other, q),
        forall|j: int|
            i <= j < i + ray_len(scene, dr, dc, i, limit) ==> #[trigger] line_point(
                scene.viewer,
                dr,
                dc,
                j,
            ) != q,
    ensures
        ray_len(other, dr, dc, i, limit) == ray_len(scene, dr, dc, i, limit),
    decreases (if i <= limit { limit - i + 1 } else { 0 }),
{
    let p = line_point(scene.viewer, dr, dc, i);
    assert(on_map(other.map, p) == on_map(scene.map, p));
    if i <= limit && on_map(scene.map, p) {
        assert(ray_len(scene, dr, dc, i, limit) >= 1);
        assert(line_point(scene.viewer, dr, dc, i) != q);
        assert(tile_at(other.map, p) == tile_at(scene.map, p));
        if !stops_ray(scene, p) {
            let next = if tile_at(scene.map, p) is Tree && i != 0 { limit - 3 } else { limit };
            assert forall|j: int|
                i + 1 <= j < i + 1 + ray_len(scene, dr, dc, i + 1, next) implies #[trigger] line_point(
                scene.viewer,
                dr,
                dc,
                j,
            ) != q by {
                assert(i <= j < i + ray_len(scene, dr, dc, i, limit));
            }
            lemma_same(scene, other, dr, dc, q, i + 1, next);
        }
    }
}

/// Whether `b` is `a` with the tile at the point `q` exchanged for another.
pub open spec fn map_changed_at(a: Seq<Vec<Tile>>, b: Seq<Vec<Tile>>, q: (int, int)) -> bool {
    &&& on_map(a, q)
    &&& b.len() == a.len()
    &&& forall|r: int| 0 <= r < a.len() ==> (#[trigger] b[r]).len() == a[r].len()
    &&& forall|r: int, c: int|
        0 <= r < a.len() && 0 <= c < a[r].len() && (r, c) != q ==> #[trigger] b[r][c] == a[r][c]
}

/// A wall put on a cell that a ray passes ends the ray on that cell: what
/// lay beyond it on that ray is no longer marked by it.
pub proof fn lemma_wall_cuts_ray(scene: Scene, walled: Scene, dr: int, dc: int, k: int)
    requires
        0 <= k < ray_cells(scene, dr, dc),
        walled.viewer == scene.viewer,
        walled.fog == scene.fog,
        walled.no_fog == scene.no_fog,
        map_changed_at(scene.map, walled.map, line_point(scene.viewer, dr, dc, k)),
        !spec_is_clear(tile_at(walled.map, line_point(scene.viewer, dr, dc, k))),
    ensures
        ray_cells(walled, dr, dc) == k + 1,
{
    assert forall|p: (int, int)| #[trigger] on_map(walled.map, p) == on_map(scene.map, p) by {
        if 0 <= p.0 < scene.map.len() {
            assert(walled.map[p.0].len() == scene.map[p.0].len());
        }
    }
    lemma_cut(scene, walled, dr, dc, k, 0, ray_reach(dr, dc));
}

/// A change to one cell of the map leaves every ray that does not come to
/// that cell as it was.
pub proof fn lemma_other_rays_unchanged(
    scene: Scene,
    changed: Scene,
    dr: int,
    dc: int,
    q: (int, int),
)
    requires
        changed.viewer == scene.viewer,
        changed.fog == scene.fog,
        changed.no_fog == scene.no_fog,
        map_changed_at(scene.map, changed.map, q),
        forall|j: int|
            0 <= j < ray_cells(scene, dr, dc) ==> #[trigger] line_point(scene.viewer, dr, dc, j)
                != q,
    ensures
        ray_cells(changed, dr, dc) == ray_cells(scene, dr, dc),
        forall|j: int|
            0 <= j < ray_cells(changed, dr, dc) ==> #[trigger] line_point(changed.viewer, dr, dc, j)
                != q,
{
    assert forall|p: (int, int)| #[trigger] on_map(changed.map, p) == on_map(scene.map, p) by {
        if 0 <= p.0 < scene.map.len() {
            assert(changed.map[p.0].len() == scene.map[p.0].len());
        }
    }
    lemma_same(scene, changed, dr, dc, q, 0, ray_reach(dr, dc));
}

/// A wall put on any cell of the map lets no ray mark more than it did.
pub proof fn lemma_wall_shortens_ray(scene: Scene, walled: Scene, dr: int, dc: int, q: (int, int))
    requires
        walled.viewer == scene.viewer,
        walled.fog == scene.fog,
        walled.no_fog == scene.no_fog,
        map_changed_at(scene.map, walled.map, q),
        !spec_is_clear(tile_at(walled.map, q)),
    ensures
        ray_cells(walled, dr, dc) <= ray_cells(scene, dr, dc),
{
    if exists|k: int|
        0 <= k < ray_cells(scene, dr, dc) && #[trigger] line_point(scene.viewer, dr, dc, k) == q {
        let k = choose|k: int|
            0 <= k < ray_cells(scene, dr, dc) && #[trigger] line_point(scene.viewer, dr, dc, k)
                == q;
        lemma_wall_cuts_ray(scene, walled, dr, dc, k);
    } else {
        lemma_other_rays_unchanged(scene, walled, dr, dc, q);
    }
}

/// A wall put on any cell of the map hides and never reveals: whatever
/// place of the viewport is lit with the wall was lit without it.
pub proof fn lemma_occlusion_monotone(
    scene: Scene,
    walled: Scene,
    perimeter: Seq<(int, int)>,
    height: int,
    width: int,
    q: (int, int),
    idx: int,
)
    requires
        walled.viewer == scene.viewer,
        walled.fog == scene.fog,
        walled.no_fog == scene.no_fog,
        map_changed_at(scene.map, walled.map, q),
        !spec_is_clear(tile_at(walled.map, q)),
        lit(walled, perimeter, height, width, idx),
    ensures
        lit(scene, perimeter, height, width, idx),
{
    if idx != centre(height, width) {
        let j = choose|j: int|
            0 <= j < perimeter.len() && #[trigger] ray_hits(
                walled,
                perimeter[j].0,
                perimeter[j].1,
                height,
                width,
                idx,
            );
        let dr = perimeter[j].0;
        let dc = perimeter[j].1;
        lemma_wall_shortens_ray(scene, walled, dr, dc, q);
        let i = choose|i: int|
            0 <= i < ray_cells(walled, dr, dc) && #[trigger] view_index(
                walled.viewer,
                height,
                width,
                line_point(walled.viewer, dr, dc, i),
            ) == Some(idx);
        assert(0 <= i < ray_cells(scene, dr, dc) && view_index(
            scene.viewer,
            height,
            width,
            line_point(scene.viewer, dr, dc, i),
        ) == Some(idx));
        assert(ray_hits(scene, dr, dc, height, width, idx));
    }
}

/// Fog on a cell of the halo changes no ray.
pub proof fn lemma_halo_ignores_fog(scene: Scene, foggier: Scene, dr: int, dc: int, q: (int, int))
    requires
        foggier.viewer == scene.viewer,
        foggier.map == scene.map,
        foggier.no_fog == scene.no_fog,
        foggier.fog == scene.fog.insert(q),
        scene.no_fog.contains(q),
    ensures
        ray_cells(foggier, dr, dc) == ray_cells(scene, dr, dc),
{
    let far: (int, int) = (-1, -1);
    assert forall|j: int| 0 <= j < 0 + ray_len(scene, dr, dc, 0, ray_reach(dr, dc)) implies #[trigger] line_point(
        scene.viewer,
        dr,
        dc,
        j,
    ) != far by {
        lemma_marked_on_map(scene, dr, dc, j, 0, ray_reach(dr, dc));
    }
    lemma_same(scene, foggier, dr, dc, far, 0, ray_reach(dr, dc));
}

/// Fog on a cell outside the halo that a ray passes ends the ray on that cell.
pub proof fn lemma_fog_cuts_ray(scene: Scene, foggier: Scene, dr: int, dc: int, k: int)
    requires
        0 <= k < ray_cells(scene, dr, dc),
        foggier.viewer == scene.viewer,
        foggier.map == scene.map,
        foggier.no_fog == scene.no_fog,
        foggier.fog == scene.fog.insert(line_point(scene.viewer, dr, dc, k)),
        !scene.no_fog.contains(line_point(scene.viewer, dr, dc, k)),
    ensures
        ray_cells(foggier, dr, dc) == k + 1,
{
    lemma_cut(scene, foggier, dr, dc, k, 0, ray_reach(dr, dc));
}

/// Every point that a ray marks is a cell of the map.
proof fn lemma_marked_on_map(scene: Scene, dr: int, dc: int, k: int, i: int, limit: int)
    requires
        0 <= i <= k,
        k < i + ray_len(scene, dr, dc, i, limit),
    ensures
        on_map(scene.map, line_point(scene.viewer, dr, dc, k)),
    decreases k - i,
{
    let p = line_point(scene.viewer, dr, dc, i);
    if i < k {
        let next = if tile_at(scene.map, p) is Tree && i != 0 { limit - 3 } else { limit };
        lemma_marked_on_map(scene, dr, dc, k, i + 1, next);
    }
}

/// Whether the ray's point `i` is a cell of the map that neither stops the ray nor is canopy.
pub open spec fn open_ground(scene: Scene, dr: int, dc: int, i: int) -> bool {
    let p = line_point(scene.viewer, dr, dc, i);
    on_map(scene.map, p) && !stops_ray(scene, p) && !(tile_at(scene.map, p) is Tree && i != 0)
}

/// Over a stretch of open ground a ray marks every cell.
proof fn lemma_open_stretch(scene: Scene, dr: int, dc: int, i: int, j: int, limit: int)
    requires
        0 <= i <= j <= limit + 1,
        forall|x: int| i <= x < j ==> #[trigger] open_ground(scene, dr, dc, x),
    ensures
        ray_len(scene, dr, dc, i, limit) == (j - i) + ray_len(scene, dr, dc, j, limit),
    decreases j - i,
{
    if i < j {
        assert(open_ground(scene, dr, dc, i));
        lemma_open_stretch(scene, dr, dc, i + 1, j, limit);
    }
}

/// Over open ground a ray marks every cell up to its reach.
pub proof fn lemma_open_ray(scene: Scene, dr: int, dc: int)
    requires
        forall|x: int| 0 <= x <= ray_reach(dr, dc) ==> #[trigger] open_ground(scene, dr, dc, x),
    ensures
        ray_cells(scene, dr, dc) == ray_reach(dr, dc) + 1,
{
    let reach = ray_reach(dr, dc);
    lemma_open_stretch(scene, dr, dc, 0, reach + 1, reach);
}

/// One canopy cell on otherwise open ground takes three cells off what the
/// ray marks, but never the canopy cell itself nor what lies before it.
pub proof fn lemma_single_canopy(scene: Scene, dr: int, dc: int, j: int)
    requires
        0 < j <= ray_reach(dr, dc),
        forall|x: int|
            0 <= x <= ray_reach(dr, dc) && x != j ==> #[trigger] open_ground(scene, dr, dc, x),
        on_map(scene.map, line_point(scene.viewer, dr, dc, j)),
        !stops_ray(scene, line_point(scene.viewer, dr, dc, j)),
        tile_at(scene.map, line_point(scene.viewer, dr, dc, j)) is Tree,
    ensures
        ray_cells(scene, dr, dc) == if j + 3 <= ray_reach(dr, dc) {
            ray_reach(dr, dc) + 1 - 3
        } else {
            j + 1
        },
{
    let reach = ray_reach(dr, dc);
    lemma_open_stretch(scene, dr, dc, 0, j, reach);
    assert(ray_len(scene, dr, dc, j, reach) == 1 + ray_len(scene, dr, dc, j + 1, reach - 3));
    if j + 3 <= reach {
        lemma_open_stretch(scene, dr, dc, j + 1, reach - 2, reach - 3);
        assert(ray_len(scene, dr, dc, reach - 2, reach - 3) == 0);
    } else {
        assert(ray_len(scene, dr, dc, j + 1, reach - 3) == 0);
    }
}

/// The perimeter of the view at radius 3, as offsets from the viewer.
pub open spec fn perimeter_3() -> Seq<(int, int)> {
    seq![
        (3, 0), (3, 0), (-3, 0), (-3, 0), (0, 3), (0, -3), (0, 3), (0, -3), (3, 1), (3, -1),
        (-3, 1), (-3, -1), (1, 3), (1, -3), (-1, 3), (-1, -3), (2, 2), (2, -2), (-2, 2),
        (-2, -2), (2, 2), (2, -2), (-2, 2), (-2, -2),
    ]
}

/// The perimeter of the view at radius 3.
pub fn radius_3() -> (c: Vec<(i32, i32)>)
    ensures
        offsets_of(c@) == perimeter_3(),
{
    let c: Vec<(i32, i32)> = vec![
        (3, 0), (3, 0), (-3, 0), (-3, 0), (0, 3), (0, -3), (0, 3), (0, -3), (3, 1), (3, -1),
        (-3, 1), (-3, -1), (1, 3), (1, -3), (-1, 3), (-1, -3), (2, 2), (2, -2), (-2, 2),
        (-2, -2), (2, 2), (2, -2), (-2, 2), (-2, -2),
    ];
    assert(offsets_of(c@) =~= perimeter_3());
    c
}

/// The perimeter of the view at radius 5, as offsets from the viewer.
pub open spec fn perimeter_5() -> Seq<(int, int)> {
    seq![
        (5, 0), (5, 0), (-5, 0), (-5, 0), (0, 5), (0, -5), (0, 5), (0, -5), (5, 1), (5, -1),
        (-5, 1), (-5, -1), (1, 5), (1, -5), (-1, 5), (-1, -5), (5, 2), (5, -2), (-5, 2),
        (-5, -2), (2, 5), (2, -5), (-2, 5), (-2, -5), (4, 3), (4, -3), (-4, 3), (-4, -3),
        (3, 4), (3, -4), (-3, 4), (-3, -4), (-3, -3), (3, 3), (-3, 3), (3, -3),
    ]
}

/// The perimeter of the view at radius 5.
pub fn radius_5() -> (c: Vec<(i32, i32)>)
    ensures
        offsets_of(c@) == perimeter_5(),
{
    let c: Vec<(i32, i32)> = vec![
        (5, 0), (5, 0), (-5, 0), (-5, 0), (0, 5), (0, -5), (0, 5), (0, -5), (5, 1), (5, -1),
        (-5, 1), (-5, -1), (1, 5), (1, -5), (-1, 5), (-1, -5), (5, 2), (5, -2), (-5, 2),
        (-5, -2), (2, 5), (2, -5), (-2, 5), (-2, -5), (4, 3), (4, -3), (-4, 3), (-4, -3),
        (3, 4), (3, -4), (-3, 4), (-3, -4), (-3, -3), (3, 3), (-3, 3), (3, -3),
    ];
    assert(offsets_of(c@) =~= perimeter_5());
    c
}

/// The perimeter of the view at radius 7, as offsets from the viewer.
pub open spec fn perimeter_7() -> Seq<(int, int)> {
    seq![
        (7, 0), (7, 0), (-7, 0), (-7, 0), (0, 7), (0, -7), (0, 7), (0, -7), (7, 1), (7, -1),
        (-7, 1), (-7, -1), (1, 7), (1, -7), (-1, 7), (-1, -7), (7, 2), (7, -2), (-7, 2),
        (-7, -2), (2, 7), (2, -7), (-2, 7), (-2, -7), (6, 3), (6, -3), (-6, 3), (-6, -3),
        (3, 6), (3, -6), (-3, 6), (-3, -6), (6, 4), (6, -4), (-6, 4), (-6, -4), (4, 6),
        (4, -6), (-4, 6), (-4, -6), (5, 5), (5, -5), (-5, 5), (-5, -5), (5, 5), (5, -5),
        (-5, 5), (-5, -5), (-4, -5), (4, 5), (-4, 5), (4, -5), (-5, -4), (5, 4), (-5, 4),
        (5, -4),
    ]
}

/// The perimeter of the view at radius 7.
pub fn radius_7() -> (c: Vec<(i32, i32)>)
    ensures
        offsets_of(c@) == perimeter_7(),
{
    let c: Vec<(i32, i32)> = vec![
        (7, 0), (7, 0), (-7, 0), (-7, 0), (0, 7), (0, -7), (0, 7), (0, -7), (7, 1), (7, -1),
        (-7, 1), (-7, -1), (1, 7), (1, -7), (-1, 7), (-1, -7), (7, 2), (7, -2), (-7, 2),
        (-7, -2), (2, 7), (2, -7), (-2, 7), (-2, -7), (6, 3), (6, -3), (-6, 3), (-6, -3),
        (3, 6), (3, -6), (-3, 6), (-3, -6), (6, 4), (6, -4), (-6, 4), (-6, -4), (4, 6),
        (4, -6), (-4, 6), (-4, -6), (5, 5), (5, -5), (-5, 5), (-5, -5), (5, 5), (5, -5),
        (-5, 5), (-5, -5), (-4, -5), (4, 5), (-4, 5), (4, -5), (-5, -4), (5, 4), (-5, 4),
        (5, -4),
    ];
    assert(offsets_of(c@) =~= perimeter_7());
    c
}

/// The perimeter of the view at radius 9, as offsets from the viewer.
pub open spec fn perimeter_9() -> Seq<(int, int)> {
    seq![
        (9, 0), (9, 0), (-9, 0), (-9, 0), (0, 9), (0, -9), (0, 9), (0, -9), (9, 1), (9, -1),
        (-9, 1), (-9, -1), (1, 9), (1, -9), (-1, 9), (-1, -9), (9, 2), (9, -2), (-9, 2),
        (-9, -2), (2, 9), (2, -9), (-2, 9), (-2, -9), (9, 3), (9, -3), (-9, 3), (-9, -3),
        (3, 9), (3, -9), (-3, 9), (-3, -9), (8, 4), (8, -4), (-8, 4), (-8, -4), (4, 8),
        (4, -8), (-4, 8), (-4, -8), (8, 5), (8, -5), (-8, 5), (-8, -5), (5, 8), (5, -8),
        (-5, 8), (-5, -8), (7, 6), (7, -6), (-7, 6), (-7, -6), (6, 7), (6, -7), (-6, 7),
        (-6, -7), (-6, -6), (6, 6), (6, -6), (-6, 6), (-7, -5), (7, 5), (-7, 5), (7, -5),
        (-5, -7), (5, 7), (-5, 7), (5, -7),
    ]
}

/// The perimeter of the view at radius 9.
pub fn radius_9() -> (c: Vec<(i32, i32)>)
    ensures
        offsets_of(c@) == perimeter_9(),
{
    let c: Vec<(i32, i32)> = vec![
        (9, 0), (9, 0), (-9, 0), (-9, 0), (0, 9), (0, -9), (0, 9), (0, -9), (9, 1), (9, -1),
        (-9, 1), (-9, -1), (1, 9), (1, -9), (-1, 9), (-1, -9), (9, 2), (9, -2), (-9, 2),
        (-9, -2), (2, 9), (2, -9), (-2, 9), (-2, -9), (9, 3), (9, -3), (-9, 3), (-9, -3),
        (3, 9), (3, -9), (-3, 9), (-3, -9), (8, 4), (8, -4), (-8, 4), (-8, -4), (4, 8),
        (4, -8), (-4, 8), (-4, -8), (8, 5), (8, -5), (-8, 5), (-8, -5), (5, 8), (5, -8),
        (-5, 8), (-5, -8), (7, 6), (7, -6), (-7, 6), (-7, -6), (6, 7), (6, -7), (-6, 7),
        (-6, -7), (-6, -6), (6, 6), (6, -6), (-6, 6), (-7, -5), (7, 5), (-7, 5), (7, -5),
        (-5, -7), (5, 7), (-5, 7), (5, -7),
    ];
    assert(offsets_of(c@) =~= perimeter_9());
    c
}

/// The width of the standard viewport.
pub const FOV_WIDTH: usize = 41;

/// The height of the standard viewport.
pub const FOV_HEIGHT: usize = 21;

/// The `j`-th point of the rim of the standard viewport: its top and bottom
/// rows column by column, then its left and right columns row by row, then
/// the corner that both leave out.
pub open spec fn rim_point(j: int) -> (i32, i32) {
    if j < 80 {
        (if j % 2 == 0 { -10i32 } else { 10i32 }, (j / 2 - 20) as i32)
    } else if j < 120 {
        (((j - 80) / 2 - 10) as i32, if j % 2 == 0 { -20i32 } else { 20i32 })
    } else {
        (10i32, 20i32)
    }
}

/// The perimeter of the view in full daylight: the rim of the standard viewport.
pub fn radius_full() -> (c: Vec<(i32, i32)>)
    ensures
        c@.len() == 121,
        forall|j: int| 0 <= j < 121 ==> #[trigger] c@[j] == rim_point(j),
{
    let mut c: Vec<(i32, i32)> = Vec::new();
    let width_radius: i32 = (FOV_WIDTH / 2) as i32;
    let height_radius: i32 = (FOV_HEIGHT / 2) as i32;
    let mut col: i32 = -width_radius;
    while col < width_radius
        invariant
            width_radius == 20,
            height_radius == 10,
            -20 <= col <= 20,
            c@.len() == 2 * (col + 20),
            forall|j: int| 0 <= j < c@.len() ==> #[trigger] c@[j] == rim_point(j),
        decreases 20 - col,
    {
        c.push((-height_radius, col));
        c.push((height_radius, col));
        col += 1;
    }
    let mut row: i32 = -height_radius;
    while row < height_radius
        invariant
            width_radius == 20,
            height_radius == 10,
            -10 <= row <= 10,
            c@.len() == 80 + 2 * (row + 10),
            forall|j: int| 0 <= j < c@.len() ==> #[trigger] c@[j] == rim_point(j),
        decreases 10 - row,
    {
        c.push((row, -width_radius));
        c.push((row, width_radius));
        row += 1;
    }
    c.push((height_radius, width_radius));
    c
}

/// Whether `c` lies in the halo round `viewer` in which fog does not count:
/// the viewer's cell and its eight neighbours, and with a light also the
/// cells two steps away, but for the four diagonal ones.
pub open spec fn in_halo(viewer: Coord, light: bool, c: Coord) -> bool {
    let dr = span(c.0 - viewer.0);
    let dc = span(c.1 - viewer.1);
    (dr <= 1 && dc <= 1) || (light && dr <= 2 && dc <= 2 && !(dr == 2 && dc == 2))
}

/// Adds to `zone` the cell at the offset `(dr, dc)` from the viewer, if its
/// coordinates are within the range of `usize`.
fn add_to_zone(zone: &mut CoordSet, row: usize, col: usize, dr: i32, dc: i32)
    ensures
        final(zone)@.dom() == if 0 <= row + dr <= usize::MAX && 0 <= col + dc <= usize::MAX {
            old(zone)@.dom().insert(((row + dr) as usize, (col + dc) as usize))
        } else {
            old(zone)@.dom()
        },
{
    let r: i128 = row as i128 + dr as i128;
    let c: i128 = col as i128 + dc as i128;
    if 0 <= r && r <= usize::MAX as i128 && 0 <= c && c <= usize::MAX as i128 {
        zone.insert((r as usize, c as usize), ());
        proof {
            assert(zone@.dom() =~= old(zone)@.dom().insert((r as usize, c as usize)));
        }
    }
}

/// Whether `c` is the cell at the offset `pts[j]` from `(row, col)`.
spec fn ring_hit(row: usize, col: usize, pts: Seq<(i32, i32)>, j: int, c: Coord) -> bool {
    0 <= row + pts[j].0 <= usize::MAX && 0 <= col + pts[j].1 <= usize::MAX && c == (
        (row + pts[j].0) as usize,
        (col + pts[j].1) as usize,
    )
}

/// The radius of the ring that a light adds to the halo.
pub const LIGHT_RADIUS: i32 = 2;

/// The halo round the viewer at `(row, col)` in which fog does not count.
pub fn no_fog_zone(row: usize, col: usize, light: bool) -> (zone: CoordSet)
    ensures
        forall|c: Coord| #[trigger] zone@.contains_key(c) <==> in_halo((row, col), light, c),
{
    let mut zone: CoordSet = Table::new();
    add_to_zone(&mut zone, row, col, -1, -1);
    add_to_zone(&mut zone, row, col, -1, 0);
    add_to_zone(&mut zone, row, col, -1, 1);
    add_to_zone(&mut zone, row, col, 0, -1);
    add_to_zone(&mut zone, row, col, 0, 0);
    add_to_zone(&mut zone, row, col, 0, 1);
    add_to_zone(&mut zone, row, col, 1, -1);
    add_to_zone(&mut zone, row, col, 1, 0);
    add_to_zone(&mut zone, row, col, 1, 1);
    proof {
        assert forall|c: Coord| #[trigger] zone@.contains_key(c) <==> in_halo(
            (row, col),
            false,
            c,
        ) by {
            assert(zone@.contains_key(c) == zone@.dom().contains(c));
        }
    }
    if light {
        let pts = bresenham_circle(0, 0, LIGHT_RADIUS);
        proof {
            lemma_light_ring();
        }
        let ghost base = zone@.dom();
        let mut i: usize = 0;
        while i < pts.len()
            invariant
                i <= pts@.len(),
                forall|c: Coord|
                    #![trigger zone@.dom().contains(c)]
                    zone@.dom().contains(c) <==> (base.contains(c) || exists|j: int|
                        0 <= j < i && #[trigger] ring_hit(row, col, pts@, j, c)),
            decreases pts@.len() - i,
        {
            let ghost before = zone@.dom();
            let pt: (i32, i32) = pts[i];
            add_to_zone(&mut zone, row, col, pt.0, pt.1);
            proof {
                assert forall|c: Coord|
                    #![trigger zone@.dom().contains(c)]
                    zone@.dom().contains(c) <==> (base.contains(c) || exists|j: int|
                        0 <= j < i + 1 && #[trigger] ring_hit(row, col, pts@, j, c)) by {
                    if zone@.dom().contains(c) && !before.contains(c) {
                        assert(ring_hit(row, col, pts@, i as int, c));
                    }
                    if before.contains(c) && !base.contains(c) {
                        let j = choose|j: int|
                            0 <= j < i && #[trigger] ring_hit(row, col, pts@, j, c);
                        assert(0 <= j < i + 1 && ring_hit(row, col, pts@, j, c));
                    }
                    if exists|j: int| 0 <= j < i + 1 && #[trigger] ring_hit(row, col, pts@, j, c) {
                        let j = choose|j: int|
                            0 <= j < i + 1 && #[trigger] ring_hit(row, col, pts@, j, c);
                        if j < i {
                            assert(before.contains(c));
                        } else {
                            assert(zone@.dom().contains(c));
                        }
                    }
                }
            }
            i += 1;
        }
        proof {
            assert forall|c: Coord| #[trigger] zone@.contains_key(c) <==> in_halo(
                (row, col),
                true,
                c,
            ) by {
                assert(zone@.contains_key(c) == zone@.dom().contains(c));
                assert(base.contains(c) == in_halo((row, col), false, c));
                let dr = c.0 - row;
                let dc = c.1 - col;
                if in_halo((row, col), true, c) && !in_halo((row, col), false, c) {
                    let n: int = if span(dr) == 2 && span(dc) == 1 {
                        1
                    } else if span(dr) == 1 && span(dc) == 2 {
                        1
                    } else {
                        0
                    };
                    let k: int = if span(dc) == 2 {
                        if dr >= 0 {
                            if dc > 0 { 0 } else { 1 }
                        } else {
                            if dc > 0 { 2 } else { 3 }
                        }
                    } else {
                        if dr > 0 {
                            if dc >= 0 { 4 } else { 5 }
                        } else {
                            if dc >= 0 { 6 } else { 7 }
                        }
                    };
                    let j = 8 * n + k;
                    assert(pts@[8 * n + k].0 == circle_point(0, 0, 2, n, k).0);
                    assert(pts@[j].0 == dr && pts@[j].1 == dc);
                    assert(ring_hit(row, col, pts@, j, c));
                }
                if zone@.dom().contains(c) && !base.contains(c) {
                    let j = choose|j: int| 0 <= j < 16 && #[trigger] ring_hit(row, col, pts@, j, c);
                    let n = j / 8;
                    let k = j % 8;
                    assert(j == 8 * n + k);
                    assert(pts@[8 * n + k].0 == circle_point(0, 0, 2, n, k).0);
                }
            }
        }
    }
    zone
}

/// The circle of radius two takes two steps, both at distance two.
proof fn lemma_light_ring()
    ensures
        circle_steps(2, 0) == 2,
        circle_x(2, 0) == 2,
        circle_x(2, 1) == 2,
{
    assert(circle_x(2, 0) == 2);
    assert(circle_x(2, 1) == 2) by {
        assert(1 * 1 + 2 * 2 - 2 * 2 == 1) by (nonlinear_arith);
    }
    assert(circle_x(2, 2) == 1) by {
        assert(2 * 2 + 2 * 2 - 2 * 2 == 4) by (nonlinear_arith);
    }
    assert(circle_steps(2, 2) == 0);
    assert(circle_steps(2, 1) == 1);
    assert(circle_steps(2, 0) == 2);
}

/// The first item of a pile, from position `from` on, that is not hidden.
pub open spec fn first_visible(pile: Seq<Item>, from: int) -> Option<Item>
    decreases pile.len() - from,
{
    if from < 0 || from >= pile.len() {
        None
    } else if !pile[from].hidden {
        Some(pile[from])
    } else {
        first_visible(pile, from + 1)
    }
}

/// What is drawn in a cell that is seen: a creature before anything else,
/// else the topmost item that is not hidden, else fog where fog lies outside
/// the halo, else the ground.
pub open spec fn resolved_tile(
    map: Seq<Vec<Tile>>,
    npcs: NPCTracker,
    items: ItemsTable,
    in_fog: bool,
    cell: Coord,
) -> Tile {
    if npcs.tracked_at(cell) {
        Tile::Creature(npcs.monster_at(cell).color, npcs.monster_at(cell).symbol)
    } else {
        match first_visible(items.pile(cell), 0) {
            Some(item) => Tile::Thing(item.color, item.symbol),
            None => if in_fog {
                Tile::Fog
            } else {
                map[cell.0 as int][cell.1 as int]
            },
        }
    }
}

/// The first item that is not hidden, found by position.
proof fn lemma_first_visible(pile: Seq<Item>, from: int, i: int)
    requires
        0 <= from <= i < pile.len(),
        !pile[i].hidden,
        forall|j: int| from <= j < i ==> (#[trigger] pile[j]).hidden,
    ensures
        first_visible(pile, from) == Some(pile[i]),
    decreases i - from,
{
    if from < i {
        assert(pile[from].hidden);
        lemma_first_visible(pile, from + 1, i);
    }
}

/// Where every item is hidden, none is the first that is not.
proof fn lemma_none_visible(pile: Seq<Item>, from: int)
    requires
        0 <= from,
        forall|j: int| from <= j < pile.len() ==> (#[trigger] pile[j]).hidden,
    ensures
        first_visible(pile, from).is_none(),
    decreases pile.len() - from,
{
    if from < pile.len() {
        assert(pile[from].hidden);
        lemma_none_visible(pile, from + 1);
    }
}

/// What is drawn in the cell `(r, c)` of the map, which is seen.
pub fn calc_actual_tile(
    r: usize,
    c: usize,
    map: &Grid,
    npcs: &NPCTracker,
    items: &ItemsTable,
    clouds: &CoordSet,
    no_fog: &CoordSet,
) -> (tile: Tile)
    requires
        is_cell(map@, (r, c)),
    ensures
        tile == resolved_tile(
            map@,
            *npcs,
            *items,
            clouds@.contains_key((r, c)) && !no_fog@.contains_key((r, c)),
            (r, c),
        ),
{
    match npcs.loc_index.get(&(r, c)) {
        Some(id) => {
            match npcs.npc_list.get(id) {
                Some(m) => {
                    return Tile::Creature(m.color, m.symbol);
                },
                None => {},
            }
        },
        None => {},
    }
    match items.top_visible(r, c) {
        Some(item) => {
            proof {
                let pile = items.pile((r, c));
                let i = choose|i: int|
                    0 <= i < pile.len() && *item == #[trigger] pile[i] && !item.hidden && forall|
                        j: int,
                    |
                        0 <= j < i ==> (#[trigger] pile[j]).hidden;
                lemma_first_visible(pile, 0, i);
            }
            return Tile::Thing(item.color, item.symbol);
        },
        None => {
            proof {
                lemma_none_visible(items.pile((r, c)), 0);
            }
        },
    }
    if clouds.contains_key(&(r, c)) && !no_fog.contains_key(&(r, c)) {
        Tile::Fog
    } else {
        map[r][c].clone()
    }
}

/// Draws the end of a vessel at row `vr`, column `vc` of the viewport, unless
/// that place is outside the viewport, is not seen, or shows a creature.
pub open spec fn stamp_end(
    buf: Seq<Tile>,
    height: int,
    width: int,
    vr: int,
    vc: int,
    ch: char,
) -> Seq<Tile> {
    if 0 <= vr < height && 0 <= vc < width && !(buf[vr * width + vc] is Blank) && !(buf[vr * width
        + vc] is Creature) {
        buf.update(vr * width + vc, Tile::ShipPart(ch))
    } else {
        buf
    }
}

/// Draws a vessel whose deck is at row `vr`, column `vc` of the viewport:
/// the deck over whatever is there, then the bow, then the aft.
pub open spec fn stamp_ship(
    buf: Seq<Tile>,
    height: int,
    width: int,
    vr: int,
    vc: int,
    ship: Ship,
) -> Seq<Tile> {
    let deck = buf.update(vr * width + vc, Tile::ShipPart(ship.deck_ch));
    let bow = stamp_end(
        deck,
        height,
        width,
        vr + (ship.bow_row - ship.row),
        vc + (ship.bow_col - ship.col),
        ship.bow_ch,
    );
    stamp_end(
        bow,
        height,
        width,
        vr + (ship.aft_row - ship.row),
        vc + (ship.aft_col - ship.col),
        ship.aft_ch,
    )
}

/// Draws the end of a vessel into the viewport, as `stamp_end` says.
fn stamp_part(v_matrix: &mut Vec<Tile>, vr: i128, vc: i128, ch: char, height: usize, width: usize)
    requires
        old(v_matrix)@.len() == height * width,
    ensures
        final(v_matrix)@ == stamp_end(
            old(v_matrix)@,
            height as int,
            width as int,
            vr as int,
            vc as int,
            ch,
        ),
        final(v_matrix)@.len() == old(v_matrix)@.len(),
{
    let size: usize = v_matrix.len();
    if 0 <= vr && vr < height as i128 && 0 <= vc && vc < width as i128 {
        proof {
            lemma_index_in_range(vr as int, vc as int, height as int, width as int);
            assert(0 <= vr * width) by (nonlinear_arith)
                requires
                    0 <= vr,
                    0 <= width,
            ;
            assert(size == height * width);
            assert((vr as usize) * width == vr * width);
        }
        let i: usize = (vr as usize) * width + (vc as usize);
        let covered = matches!(v_matrix[i], Tile::Blank | Tile::Creature(_, _));
        if !covered {
            v_matrix.set(i, Tile::ShipPart(ch));
        }
    }
}

/// The signed distance from `from` to `to`.
fn gap(to: usize, from: usize) -> (d: i128)
    ensures
        d == to - from,
{
    to as i128 - from as i128
}

/// Draws the vessel `ship`, whose deck shows at row `row`, column `col` of
/// the viewport, into the viewport.
pub fn add_ship(
    v_matrix: &mut Vec<Tile>,
    row: usize,
    col: usize,
    ship: &Ship,
    height: usize,
    width: usize,
)
    requires
        old(v_matrix)@.len() == height * width,
        row < height,
        col < width,
    ensures
        final(v_matrix)@ == stamp_ship(
            old(v_matrix)@,
            height as int,
            width as int,
            row as int,
            col as int,
            *ship,
        ),
        final(v_matrix)@.len() == old(v_matrix)@.len(),
{
    let size: usize = v_matrix.len();
    proof {
        lemma_index_in_range(row as int, col as int, height as int, width as int);
        assert(0 <= row * width) by (nonlinear_arith)
            requires
                0 <= row,
                0 <= width,
        ;
        assert(size == height * width);
    }
    v_matrix.set(row * width + col, Tile::ShipPart(ship.deck_ch));
    let bow_row: i128 = gap(ship.bow_row, ship.row) + row as i128;
    let bow_col: i128 = gap(ship.bow_col, ship.col) + col as i128;
    let aft_row: i128 = gap(ship.aft_row, ship.row) + row as i128;
    let aft_col: i128 = gap(ship.aft_col, ship.col) + col as i128;
    stamp_part(v_matrix, bow_row, bow_col, ship.bow_ch, height, width);
    stamp_part(v_matrix, aft_row, aft_col, ship.aft_ch, height, width);
}

/// The point of the map that shows at place `idx` of the viewport.
pub open spec fn cell_of_index(viewer: Coord, height: int, width: int, idx: int) -> (int, int) {
    (viewer.0 - height / 2 + idx / width, viewer.1 - width / 2 + idx % width)
}

/// Whether a deck at the place `idx` of the viewport is looked for: decks
/// are looked for as many rows above the middle as below it, and as many
/// columns to its left as to its right, so that a viewport with an odd
/// number of rows or columns is searched without its last row or column.
pub open spec fn deck_sought(height: int, width: int, idx: int) -> bool {
    idx / width < 2 * (height / 2) && idx % width < 2 * (width / 2)
}

/// The viewport after the vessels whose decks show at its first `n` places
/// are drawn, place by place. A vessel is drawn where its deck is looked
/// for and is on a cell of the map that is seen.
pub open spec fn overlay(
    buf: Seq<Tile>,
    map: Seq<Vec<Tile>>,
    ships: Map<Coord, Ship>,
    viewer: Coord,
    height: int,
    width: int,
    n: nat,
) -> Seq<Tile>
    decreases n,
{
    if n == 0 {
        buf
    } else {
        let prev = overlay(buf, map, ships, viewer, height, width, (n - 1) as nat);
        let idx = n - 1;
        let p = cell_of_index(viewer, height, width, idx);
        if deck_sought(height, width, idx) && on_map(map, p) && !(prev[idx] is Blank)
            && ships.contains_key((p.0 as usize, p.1 as usize)) {
            stamp_ship(
                prev,
                height,
                width,
                idx / width,
                idx % width,
                ships[(p.0 as usize, p.1 as usize)],
            )
        } else {
            prev
        }
    }
}

/// The cell of the map that shows at row `vr`, column `vc` of the viewport
/// round `(viewer_r, viewer_c)`, if it is one.
fn map_cell(
    map: &Grid,
    viewer_r: usize,
    viewer_c: usize,
    height: usize,
    width: usize,
    vr: usize,
    vc: usize,
) -> (res: Option<Coord>)
    requires
        vr < height,
        vc < width,
    ensures
        match res {
            Some(c) => on_map(
                map@,
                (viewer_r - height / 2 + vr, viewer_c - width / 2 + vc),
            ) && c.0 == viewer_r - height / 2 + vr && c.1 == viewer_c - width / 2 + vc,
            None => !on_map(map@, (viewer_r - height / 2 + vr, viewer_c - width / 2 + vc)),
        },
{
    let r: i128 = viewer_r as i128 - (height / 2) as i128 + vr as i128;
    let c: i128 = viewer_c as i128 - (width / 2) as i128 + vc as i128;
    if r < 0 || c < 0 || r >= map.len() as i128 {
        return None;
    }
    let ru: usize = r as usize;
    if c >= map[ru].len() as i128 {
        return None;
    }
    Some((ru, c as usize))
}

/// Draws into the viewport every vessel whose deck is looked for and seen in it.
pub fn add_ships_to_v_matrix(
    map: &Grid,
    v_matrix: &mut Vec<Tile>,
    ships: &ShipsTable,
    player_row: usize,
    player_col: usize,
    height: usize,
    width: usize,
)
    requires
        old(v_matrix)@.len() == height * width,
    ensures
        final(v_matrix)@ == overlay(
            old(v_matrix)@,
            map@,
            ships@,
            (player_row, player_col),
            height as int,
            width as int,
            (height * width) as nat,
        ),
        final(v_matrix)@.len() == old(v_matrix)@.len(),
{
    let ghost first = v_matrix@;
    let ghost viewer: Coord = (player_row, player_col);
    let ghost h = height as int;
    let ghost w = width as int;
    let size: usize = v_matrix.len();
    let mut r: usize = 0;
    proof {
        assert(0 * w == 0) by (nonlinear_arith);
    }
    while r < height
        invariant
            r <= height,
            h == height as int,
            w == width as int,
            viewer == (player_row, player_col),
            size == height * width,
            v_matrix@.len() == height * width,
            0 <= r * w <= h * w,
            v_matrix@ == overlay(first, map@, ships@, viewer, h, w, (r * w) as nat),
        decreases height - r,
    {
        proof {
            assert(r * w + w <= h * w) by (nonlinear_arith)
                requires
                    0 <= r,
                    r + 1 <= h,
                    0 <= w,
            ;
        }
        let mut c: usize = 0;
        while c < width
            invariant
                r < height,
                c <= width,
                h == height as int,
                w == width as int,
                viewer == (player_row, player_col),
                size == height * width,
                v_matrix@.len() == height * width,
                0 <= r * w,
                r * w + w <= h * w,
                v_matrix@ == overlay(first, map@, ships@, viewer, h, w, (r * w + c) as nat),
            decreases width - c,
        {
            let ghost idx = r * w + c;
            proof {
                lemma_fundamental_div_mod_converse(idx, w, r as int, c as int);
                lemma_index_in_range(r as int, c as int, h, w);
            }
            let i: usize = r * width + c;
            let sought: bool = r < 2 * (height / 2) && c < 2 * (width / 2);
            match map_cell(map, player_row, player_col, height, width, r, c) {
                Some(loc) => {
                    if sought && !matches!(v_matrix[i], Tile::Blank) {
                        match ships.get(&loc) {
                            Some(ship) => {
                                add_ship(v_matrix, r, c, ship, height, width);
                            },
                            None => {},
                        }
                    }
                },
                None => {},
            }
            c += 1;
        }
        proof {
            assert((r + 1) * w == r * w + w) by (nonlinear_arith);
            assert((r + 1) * w <= h * w) by (nonlinear_arith)
                requires
                    r + 1 <= h,
                    0 <= w,
            ;
        }
        r += 1;
    }
    proof {
        assert(r * w == h * w);
    }
}

/// The halo round `viewer` as a set of points.
pub open spec fn halo_points(viewer: Coord, light: bool) -> Set<(int, int)> {
    Set::new(
        |p: (int, int)|
            0 <= p.0 <= usize::MAX && 0 <= p.1 <= usize::MAX && in_halo(
                viewer,
                light,
                (p.0 as usize, p.1 as usize),
            ),
    )
}

/// The scene that a game makes for its player: the map with its fog, and
/// the halo round the player, which is wider where the player carries a light.
pub open spec fn player_scene(state: GameState) -> Scene {
    Scene {
        map: state.map@,
        fog: points_of(state.weather.clouds),
        no_fog: halo_points(
            (state.player.row, state.player.col),
            state.player.inventory.has_light(),
        ),
        viewer: (state.player.row, state.player.col),
    }
}

/// The rim of the standard viewport as a list of offsets.
pub open spec fn perimeter_full() -> Seq<(int, int)> {
    Seq::new(121, |j: int| (rim_point(j).0 as int, rim_point(j).1 as int))
}

/// The perimeter that goes with a vision radius: a ring for 3, 5, 7 and 9,
/// and the rim of the standard viewport for every other number.
pub open spec fn perimeter_for(vision_radius: u8) -> Seq<(int, int)> {
    if vision_radius == 3 {
        perimeter_3()
    } else if vision_radius == 5 {
        perimeter_5()
    } else if vision_radius == 7 {
        perimeter_7()
    } else if vision_radius == 9 {
        perimeter_9()
    } else {
        perimeter_full()
    }
}

/// Whether the player sees the place `idx` of the viewport as a cell of the map.
pub open spec fn sees_place(state: GameState, height: int, width: int, idx: int) -> bool {
    lit(player_scene(state), perimeter_for(state.vision_radius), height, width, idx) && on_map(
        state.map@,
        cell_of_index((state.player.row, state.player.col), height, width, idx),
    )
}

/// What shows at the place `idx` of the viewport before vessels and the
/// player are drawn: nothing where the player does not see a cell of the map.
pub open spec fn seen_tile(
    state: GameState,
    items: ItemsTable,
    height: int,
    width: int,
    idx: int,
) -> Tile {
    let p = cell_of_index((state.player.row, state.player.col), height, width, idx);
    if sees_place(state, height, width, idx) {
        resolved_tile(
            state.map@,
            state.npcs,
            items,
            fogged(player_scene(state), p),
            (p.0 as usize, p.1 as usize),
        )
    } else {
        Tile::Blank
    }
}

/// How the player is drawn: brown aboard a vessel, light blue when swimming
/// in deep water, else white.
pub open spec fn player_tile(state: GameState, ships: ShipsTable) -> Tile {
    let loc = (state.player.row, state.player.col);
    if state.player.on_ship {
        Tile::Player(BROWN)
    } else if is_cell(state.map@, loc) && state.map@[loc.0 as int][loc.1 as int] is DeepWater
        && !ships@.contains_key(loc) {
        Tile::Player(LIGHT_BLUE)
    } else {
        Tile::Player(WHITE)
    }
}

/// The whole viewport: what is seen, then the vessels over it, then the
/// player in the middle.
pub open spec fn spec_v_matrix(
    state: GameState,
    items: ItemsTable,
    ships: ShipsTable,
    height: int,
    width: int,
) -> Seq<Tile> {
    let base = Seq::new(
        (height * width) as nat,
        |idx: int| seen_tile(state, items, height, width, idx),
    );
    overlay(
        base,
        state.map@,
        ships@,
        (state.player.row, state.player.col),
        height,
        width,
        (height * width) as nat,
    ).update(centre(height, width), player_tile(state, ships))
}

/// Whether one of the first `n` places of the viewport shows the cell `c` to the player.
pub open spec fn sees_upto(state: GameState, height: int, width: int, n: int, c: Coord) -> bool {
    exists|idx: int|
        0 <= idx < n && #[trigger] sees_place(state, height, width, idx) && cell_of_index(
            (state.player.row, state.player.col),
            height,
            width,
            idx,
        ) == (c.0 as int, c.1 as int)
}

/// A viewport of `size` places that shows nothing.
fn blank_tiles(size: usize) -> (v: Vec<Tile>)
    ensures
        v@.len() == size,
        forall|i: int| 0 <= i < size ==> #[trigger] v@[i] == Tile::Blank,
{
    let mut v: Vec<Tile> = Vec::new();
    let mut i: usize = 0;
    while i < size
        invariant
            i <= size,
            v@.len() == i,
            forall|j: int| 0 <= j < i ==> #[trigger] v@[j] == Tile::Blank,
        decreases size - i,
    {
        v.push(Tile::Blank);
        i += 1;
    }
    v
}

/// The perimeter for the vision radius of the moment.
fn choose_perimeter(vision_radius: u8) -> (c: Vec<(i32, i32)>)
    ensures
        offsets_of(c@) == perimeter_for(vision_radius),
{
    if vision_radius == 3 {
        radius_3()
    } else if vision_radius == 5 {
        radius_5()
    } else if vision_radius == 7 {
        radius_7()
    } else if vision_radius == 9 {
        radius_9()
    } else {
        let c = radius_full();
        proof {
            assert(offsets_of(c@) =~= perimeter_full());
        }
        c
    }
}

/// The tile for the player.
fn player_glyph(state: &GameState, ships: &ShipsTable) -> (tile: Tile)
    ensures
        tile == player_tile(*state, *ships),
{
    let row: usize = state.player.row;
    let col: usize = state.player.col;
    if state.player.on_ship {
        Tile::Player(BROWN)
    } else if row < state.map.len() && col < state.map[row].len() && matches!(
        state.map[row][col],
        Tile::DeepWater
    ) && !ships.contains_key(&(row, col)) {
        Tile::Player(LIGHT_BLUE)
    } else {
        Tile::Player(WHITE)
    }
}

/// What the player sees, as a viewport of `height` rows of `width` places
/// with the player in the middle, ready to be drawn; and every cell of the
/// map that shows in it is remembered as seen.
pub fn calc_v_matrix(
    state: &mut GameState,
    items: &ItemsTable,
    ships: &ShipsTable,
    height: usize,
    width: usize,
) -> (v_matrix: Vec<Tile>)
    requires
        height > 0,
        width > 0,
        height * width <= usize::MAX,
    ensures
        v_matrix@ == spec_v_matrix(*old(state), *items, *ships, height as int, width as int),
        v_matrix@.len() == height * width,
        v_matrix@[centre(height as int, width as int)] == player_tile(*old(state), *ships),
        forall|c: Coord| #[trigger]
            final(state).world_seen@.contains_key(c) <==> (old(state).world_seen@.contains_key(c)
                || sees_upto(*old(state), height as int, width as int, height * width, c)),
        *final(state) == (GameState { world_seen: final(state).world_seen, ..*old(state) }),
{
    let ghost state0 = *state;
    let ghost h = height as int;
    let ghost w = width as int;
    let ghost viewer: Coord = (state.player.row, state.player.col);
    let pr: usize = state.player.row;
    let pc: usize = state.player.col;
    let perimeter = choose_perimeter(state.vision_radius);
    let light: bool = state.player.inventory.active_light_source();
    let no_fog = no_fog_zone(pr, pc, light);
    let visible = compute_visibility(
        &state.map,
        &state.weather.clouds,
        &no_fog,
        pr,
        pc,
        &perimeter,
        height,
        width,
    );
    proof {
        assert(points_of(no_fog) =~= halo_points(viewer, light));
        assert(scene_of(state.map, state.weather.clouds, no_fog, viewer) == player_scene(state0));
        assert(0 * w == 0) by (nonlinear_arith);
    }
    let size: usize = height * width;
    let mut v_matrix = blank_tiles(size);
    let mut r: usize = 0;
    while r < height
        invariant
            r <= height,
            h == height as int,
            w == width as int,
            size == height * width,
            viewer == (pr, pc),
            viewer == (state0.player.row, state0.player.col),
            0 <= r * w <= h * w,
            v_matrix@.len() == size,
            visible@.len() == size,
            *state == (GameState { world_seen: state.world_seen, ..state0 }),
            points_of(no_fog) == halo_points(viewer, light),
            light == state0.player.inventory.has_light(),
            forall|idx: int|
                0 <= idx < size ==> (#[trigger] visible@[idx] <==> lit(
                    player_scene(state0),
                    perimeter_for(state0.vision_radius),
                    h,
                    w,
                    idx,
                )),
            forall|idx: int|
                0 <= idx < r * w ==> #[trigger] v_matrix@[idx] == seen_tile(state0, *items, h, w, idx),
            forall|idx: int| r * w <= idx < size ==> #[trigger] v_matrix@[idx] == Tile::Blank,
            forall|c: Coord| #[trigger]
                state.world_seen@.contains_key(c) <==> (state0.world_seen@.contains_key(c)
                    || sees_upto(state0, h, w, r * w, c)),
        decreases height - r,
    {
        proof {
            assert(r * w + w <= h * w) by (nonlinear_arith)
                requires
                    0 <= r,
                    r + 1 <= h,
                    0 <= w,
            ;
        }
        let mut c: usize = 0;
        while c < width
            invariant
                r < height,
                c <= width,
                h == height as int,
                w == width as int,
                size == height * width,
                viewer == (pr, pc),
                viewer == (state0.player.row, state0.player.col),
                0 <= r * w,
                r * w + w <= h * w,
                v_matrix@.len() == size,
                visible@.len() == size,
                *state == (GameState { world_seen: state.world_seen, ..state0 }),
                points_of(no_fog) == halo_points(viewer, light),
                light == state0.player.inventory.has_light(),
                forall|idx: int|
                    0 <= idx < size ==> (#[trigger] visible@[idx] <==> lit(
                        player_scene(state0),
                        perimeter_for(state0.vision_radius),
                        h,
                        w,
                        idx,
                    )),
                forall|idx: int|
                    0 <= idx < r * w + c ==> #[trigger] v_matrix@[idx] == seen_tile(
                        state0,
                        *items,
                        h,
                        w,
                        idx,
                    ),
                forall|idx: int|
                    r * w + c <= idx < size ==> #[trigger] v_matrix@[idx] == Tile::Blank,
                forall|x: Coord| #[trigger]
                    state.world_seen@.contains_key(x) <==> (state0.world_seen@.contains_key(x)
                        || sees_upto(state0, h, w, r * w + c, x)),
            decreases width - c,
        {
            let ghost idx = r * w + c;
            let ghost seen_before = state.world_seen@;
            proof {
                lemma_fundamental_div_mod_converse(idx, w, r as int, c as int);
                lemma_index_in_range(r as int, c as int, h, w);
            }
            let j: usize = r * width + c;
            let mut shown: bool = false;
            if visible[j] {
                match map_cell(&state.map, pr, pc, height, width, r, c) {
                    Some(loc) => {
                        let tile = calc_actual_tile(
                            loc.0,
                            loc.1,
                            &state.map,
                            &state.npcs,
                            items,
                            &state.weather.clouds,
                            &no_fog,
                        );
                        v_matrix.set(j, tile);
                        state.world_seen.insert(loc, ());
                        shown = true;
                    },
                    None => {},
                }
            }
            proof {
                let p = cell_of_index(viewer, h, w, idx);
                assert(shown == sees_place(state0, h, w, idx));
                assert(v_matrix@[idx] == seen_tile(state0, *items, h, w, idx));
                assert forall|x: Coord| #[trigger]
                    state.world_seen@.contains_key(x) <==> (state0.world_seen@.contains_key(x)
                        || sees_upto(state0, h, w, idx + 1, x)) by {
                    let here = shown && p == (x.0 as int, x.1 as int);
                    assert(state.world_seen@.contains_key(x) == (seen_before.contains_key(x)
                        || here));
                    if sees_upto(state0, h, w, idx, x) {
                        let i0 = choose|i0: int|
                            0 <= i0 < idx && #[trigger] sees_place(state0, h, w, i0)
                                && cell_of_index(viewer, h, w, i0) == (x.0 as int, x.1 as int);
                        assert(0 <= i0 < idx + 1);
                    }
                    if here {
                        assert(sees_place(state0, h, w, idx));
                    }
                    if sees_upto(state0, h, w, idx + 1, x) {
                        let i0 = choose|i0: int|
                            0 <= i0 < idx + 1 && #[trigger] sees_place(state0, h, w, i0)
                                && cell_of_index(viewer, h, w, i0) == (x.0 as int, x.1 as int);
                        if i0 < idx {
                            assert(sees_upto(state0, h, w, idx, x));
                        }
                    }
                }
            }
            c += 1;
        }
        proof {
            assert((r + 1) * w == r * w + w) by (nonlinear_arith);
        }
        r += 1;
    }
    proof {
        assert(r * w == h * w);
        assert(v_matrix@ =~= Seq::new(
            (h * w) as nat,
            |idx: int| seen_tile(state0, *items, h, w, idx),
        ));
        lemma_index_in_range(h / 2, w / 2, h, w);
    }
    add_ships_to_v_matrix(&state.map, &mut v_matrix, ships, pr, pc, height, width);
    let mid: usize = (height / 2) * width + width / 2;
    let glyph = player_glyph(state, ships);
    v_matrix.set(mid, glyph);
    v_matrix
}

} // verus!
