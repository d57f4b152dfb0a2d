//! The ray marcher: fixed-size steps along a ray until a wall is struck.
use vstd::prelude::*;
use vstd::arithmetic::div_mod::{lemma_div_is_ordered, lemma_fundamental_div_mod};
use crate::map::{TileMap, EMPTY};

verus! {

/// Positions are measured in millionths of a grid cell.
pub const UNITS_PER_CELL: i64 = 1_000_000;

/// The standard step length, a hundredth of a cell, in position units.
pub const STEP_UNITS: i64 = 10_000;

/// The standard range of a ray, twenty cells, in steps.
pub const MAX_STEPS: u32 = 2000;

/// A ray: its origin (`x`, `y`) and the displacement (`dx`, `dy`) of one
/// step, all in position units.
#[derive(Clone, Copy, Debug, PartialEq, Eq, Structural)]
pub struct Ray {
    pub x: i64,
    pub y: i64,
    pub dx: i64,
    pub dy: i64,
}

/// Where a ray stopped: after `steps` steps, in a cell holding `tile`.
#[derive(Clone, Copy, Debug, PartialEq, Eq, Structural)]
pub struct RayHit {
    pub steps: u32,
    pub tile: char,
}

/// The grid line (column or row) that a position coordinate falls in.
pub open spec fn cell_of(p: int) -> int {
    p / (UNITS_PER_CELL as int)
}

/// The point a ray has reached after `k` steps, horizontal part.
pub open spec fn point_x(ray: Ray, k: int) -> int {
    ray.x + k * ray.dx
}

/// The point a ray has reached after `k` steps, vertical part.
pub open spec fn point_y(ray: Ray, k: int) -> int {
    ray.y + k * ray.dy
}

/// The symbol of the cell that holds the point (`px`, `py`); every point
/// outside the grid reads as empty.
pub open spec fn symbol_at(map: TileMap, px: int, py: int) -> char {
    if 0 <= px && 0 <= py && map.in_grid(cell_of(px), cell_of(py)) {
        map.tile(cell_of(px), cell_of(py))
    } else {
        EMPTY
    }
}

/// The symbol under the ray after `k` steps.
pub open spec fn probe(map: TileMap, ray: Ray, k: int) -> char {
    symbol_at(map, point_x(ray, k), point_y(ray, k))
}

/// The first step from `k` up to `max_steps` whose cell is not empty.
pub open spec fn march_from(map: TileMap, ray: Ray, k: int, max_steps: int) -> Option<RayHit>
    decreases max_steps + 1 - k,
{
    if k > max_steps || k < 0 {
        None
    } else if probe(map, ray, k) != EMPTY {
        Some(RayHit { steps: k as u32, tile: probe(map, ray, k) })
    } else {
        march_from(map, ray, k + 1, max_steps)
    }
}

/// What marching `ray` over `map` for at most `max_steps` steps yields.
pub open spec fn march_spec(map: TileMap, ray: Ray, max_steps: int) -> Option<RayHit> {
    march_from(map, ray, 0, max_steps)
}

/// The symbol under the ray after `k` steps.
pub fn cell_symbol(map: &TileMap, ray: &Ray, k: u64) -> (s: char)
    requires
        map.wf(),
        k <= u32::MAX as u64 + 1,
    ensures
        s == probe(*map, *ray, k as int),
{
    let kk = k as i128;
    assert(-0x8000_0000_0000_0000 * 0x1_0000_0000 <= kk * (ray.dx as i128) <= 0x8000_0000_0000_0000
        * 0x1_0000_0000) by (nonlinear_arith)
        requires
            0 <= kk <= 0x1_0000_0000,
            -0x8000_0000_0000_0000 <= ray.dx < 0x8000_0000_0000_0000,
    ;
    assert(-0x8000_0000_0000_0000 * 0x1_0000_0000 <= kk * (ray.dy as i128) <= 0x8000_0000_0000_0000
        * 0x1_0000_0000) by (nonlinear_arith)
        requires
            0 <= kk <= 0x1_0000_0000,
            -0x8000_0000_0000_0000 <= ray.dy < 0x8000_0000_0000_0000,
    ;
    let px: i128 = ray.x as i128 + kk * (ray.dx as i128);
    let py: i128 = ray.y as i128 + kk * (ray.dy as i128);
    if px < 0 || py < 0 {
        return EMPTY;
    }
    let col: i128 = px / (UNITS_PER_CELL as i128);
    let row: i128 = py / (UNITS_PER_CELL as i128);
    if col < map.width as i128 && row < map.height as i128 {
        map.tile_at(col as usize, row as usize)
    } else {
        EMPTY
    }
}

/// Marches `ray` over `map`, probing after 0, 1, ..., `max_steps` steps,
/// and reports the first probe that falls in a non-empty cell, or `None`
/// when every probe falls in an empty cell or outside the grid.
pub fn march(map: &TileMap, ray: &Ray, max_steps: u32) -> (r: Option<RayHit>)
    requires
        map.wf(),
    ensures
        r == march_spec(*map, *ray, max_steps as int),
{
    let mut k: u64 = 0;
    while k <= max_steps as u64
        invariant
            map.wf(),
            k <= max_steps as u64 + 1,
            march_spec(*map, *ray, max_steps as int) == march_from(
                *map,
                *ray,
                k as int,
                max_steps as int,
            ),
        decreases max_steps as u64 + 1 - k,
    {
        let s = cell_symbol(map, ray, k);
        if s != EMPTY {
            return Some(RayHit { steps: k as u32, tile: s });
        }
        k = k + 1;
    }
    None
}

/// The marcher never stops in an empty cell: a hit lies in a non-empty cell
/// within range, every probe before it lies in an empty cell or outside the
/// grid, and a miss means that every probe within range did.
pub proof fn lemma_march_stops_only_at_walls(map: TileMap, ray: Ray, max_steps: u32)
    ensures
        match march_spec(map, ray, max_steps as int) {
            Some(hit) => {
                &&& hit.steps <= max_steps
                &&& hit.tile != EMPTY
                &&& hit.tile == probe(map, ray, hit.steps as int)
                &&& forall|j: int| 0 <= j < hit.steps ==> probe(map, ray, j) == EMPTY
            },
            None => forall|j: int| 0 <= j <= max_steps ==> probe(map, ray, j) == EMPTY,
        },
{
    lemma_march_from_stops_only_at_walls(map, ray, 0, max_steps as int);
}

proof fn lemma_march_from_stops_only_at_walls(map: TileMap, ray: Ray, k: int, max_steps: int)
    requires
        0 <= k,
        max_steps <= u32::MAX,
    ensures
        match march_from(map, ray, k, max_steps) {
            Some(hit) => {
                &&& k <= hit.steps <= max_steps
                &&& hit.tile != EMPTY
                &&& hit.tile == probe(map, ray, hit.steps as int)
                &&& forall|j: int| k <= j < hit.steps ==> probe(map, ray, j) == EMPTY
            },
            None => forall|j: int| k <= j <= max_steps ==> probe(map, ray, j) == EMPTY,
        },
    decreases max_steps + 1 - k,
{
    if k <= max_steps && probe(map, ray, k) == EMPTY {
        lemma_march_from_stops_only_at_walls(map, ray, k + 1, max_steps);
    }
}

/// Probes that all fall in empty cells are passed over.
proof fn lemma_march_passes(map: TileMap, ray: Ray, j: int, k: int, max_steps: int)
    requires
        0 <= j <= k <= max_steps + 1,
        forall|i: int| j <= i < k ==> probe(map, ray, i) == EMPTY,
    ensures
        march_from(map, ray, j, max_steps) == march_from(map, ray, k, max_steps),
    decreases k - j,
{
    if j < k {
        lemma_march_passes(map, ray, j + 1, k, max_steps);
    }
}

/// A ray cast along the x axis at a wall whose near face lies `d` position
/// units ahead, across empty cells, strikes that wall after travelling at
/// least `d` and less than `d` plus one step, provided that a step is no
/// longer than a cell and the range reaches the wall.
pub proof fn lemma_axis_ray_hits_at_wall_distance(
    map: TileMap,
    ray: Ray,
    max_steps: u32,
    wall_col: int,
)
    requires
        map.wf(),
        ray.x >= 0,
        ray.y >= 0,
        ray.dy == 0,
        0 < ray.dx <= UNITS_PER_CELL,
        cell_of(ray.x as int) < wall_col < map.width,
        cell_of(ray.y as int) < map.height,
        forall|c: int|
            cell_of(ray.x as int) <= c < wall_col ==> map.tile(
                c,
                cell_of(ray.y as int),
            ) == EMPTY,
        map.tile(wall_col, cell_of(ray.y as int)) != EMPTY,
        wall_col * UNITS_PER_CELL <= ray.x + max_steps * ray.dx,
    ensures
        ({
            let d = wall_col * UNITS_PER_CELL - ray.x;
            match march_spec(map, ray, max_steps as int) {
                Some(hit) => {
                    &&& hit.tile == map.tile(wall_col, cell_of(ray.y as int))
                    &&& d <= hit.steps * ray.dx < d + ray.dx
                },
                None => false,
            }
        }),
{
    let u = UNITS_PER_CELL as int;
    let dx = ray.dx as int;
    let x = ray.x as int;
    let d = wall_col * u - x;
    lemma_fundamental_div_mod(x, u);
    assert(d > 0);
    let ks = (d + dx - 1) / dx;
    lemma_fundamental_div_mod(d + dx - 1, dx);
    assert(dx * ks >= d && dx * ks - dx < d);
    assert(ks * dx == dx * ks) by (nonlinear_arith);
    assert(ks >= 1) by (nonlinear_arith)
        requires
            dx * ks >= d,
            d > 0,
            dx > 0,
    ;
    assert(ks <= max_steps) by (nonlinear_arith)
        requires
            dx * ks - dx < d,
            d <= max_steps * dx,
            dx > 0,
    ;
    assert((ks - 1) * dx == dx * ks - dx) by (nonlinear_arith);
    assert forall|i: int| 0 <= i < ks implies probe(map, ray, i) == EMPTY by {
        assert(i * dx <= (ks - 1) * dx && 0 <= i * dx) by (nonlinear_arith)
            requires
                0 <= i < ks,
                dx > 0,
        ;
        let px = x + i * dx;
        assert(ray.y + i * ray.dy == ray.y) by (nonlinear_arith)
            requires
                ray.dy == 0,
        ;
        lemma_fundamental_div_mod(px, u);
        lemma_div_is_ordered(x, px, u);
        assert(px / u < wall_col) by (nonlinear_arith)
            requires
                px == u * (px / u) + px % u,
                px % u >= 0,
                px < wall_col * u,
                u > 0,
        ;
    }
    lemma_march_passes(map, ray, 0, ks, max_steps as int);
    let pk = x + ks * dx;
    assert(ray.y + ks * ray.dy == ray.y) by (nonlinear_arith)
        requires
            ray.dy == 0,
    ;
    lemma_fundamental_div_mod(pk, u);
    assert(cell_of(pk) == wall_col);
}

/// The marcher has no hidden state: two maps with the same grid give the
/// same result for the same ray and range.
pub proof fn lemma_march_depends_only_on_grid(
    a: TileMap,
    b: TileMap,
    ray: Ray,
    max_steps: u32,
)
    requires
        a.width == b.width,
        a.height == b.height,
        a.tiles@ == b.tiles@,
    ensures
        march_spec(a, ray, max_steps as int) == march_spec(b, ray, max_steps as int),
{
    lemma_march_from_same_grid(a, b, ray, 0, max_steps as int);
}

proof fn lemma_march_from_same_grid(a: TileMap, b: TileMap, ray: Ray, k: int, max_steps: int)
    requires
        a.width == b.width,
        a.height == b.height,
        a.tiles@ == b.tiles@,
    ensures
        march_from(a, ray, k, max_steps) == march_from(b, ray, k, max_steps),
    decreases max_steps + 1 - k,
{
    assert(probe(a, ray, k) == probe(b, ray, k));
    if 0 <= k <= max_steps {
        lemma_march_from_same_grid(a, b, ray, k + 1, max_steps);
    }
}

} // verus!
