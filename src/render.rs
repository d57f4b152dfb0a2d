//! The frame composer: clear, minimap, viewer marker, turn, 3D columns.
use vstd::prelude::*;
use vstd::arithmetic::div_mod::lemma_fundamental_div_mod;
use crate::framebuffer::{blank, fill_rect, Framebuffer};
use crate::map::{color_for, color_spec, Color, TileMap, EMPTY};
use crate::pose::{
    advanced, column_angle, column_angle_spec, column_offset, offset_spec, Pose, TrigTable,
};
use crate::projection::{corrected_spec, height_spec, project_column, top_spec};
use crate::ray::{
    cell_of, lemma_march_stops_only_at_walls, march, march_spec, point_x, point_y, Ray, RayHit,
    MAX_STEPS, STEP_UNITS, UNITS_PER_CELL,
};

verus! {

/// The side of the square that marks the viewer on the minimap, in pixels.
pub const MARKER_SIZE: usize = 5;

/// The color of the viewer marker: white.
pub open spec fn marker_color() -> Color {
    Color { r: 255, g: 255, b: 255 }
}

/// The width in pixels of a minimap tile: the minimap takes the left half.
pub open spec fn tile_width(frame_w: int, map_w: int) -> int {
    if map_w <= 0 {
        0
    } else {
        frame_w / map_w / 2
    }
}

/// The height in pixels of a minimap tile.
pub open spec fn tile_height(frame_h: int, map_h: int) -> int {
    if map_h <= 0 {
        0
    } else {
        frame_h / map_h
    }
}

/// The minimap pixel coordinate of a position coordinate, for tiles `scale`
/// pixels wide: rounded down, and held within `[0, usize::MAX]`.
pub open spec fn marker_coord(coord: int, scale: int) -> int {
    if coord <= 0 {
        0
    } else if (coord * scale) / (UNITS_PER_CELL as int) > usize::MAX {
        usize::MAX as int
    } else {
        (coord * scale) / (UNITS_PER_CELL as int)
    }
}

/// The bytes after the first `t` cells of the map, in row-major order, are
/// drawn as `tw` by `th` rectangles; empty cells are left out.
pub open spec fn minimap_upto(
    bytes: Seq<u8>,
    map: TileMap,
    frame_w: int,
    tw: int,
    th: int,
    t: nat,
) -> Seq<u8>
    decreases t,
{
    if t == 0 {
        bytes
    } else {
        let prev = minimap_upto(bytes, map, frame_w, tw, th, (t - 1) as nat);
        let col = (t - 1) % (map.width as int);
        let row = (t - 1) / (map.width as int);
        let symbol = map.tile(col, row);
        if symbol == EMPTY {
            prev
        } else {
            fill_rect(prev, frame_w, col * tw, row * th, tw, th, color_spec(symbol))
        }
    }
}

/// The color that marks the path of a ray on the minimap: light gray.
pub open spec fn trace_color() -> Color {
    Color { r: 160, g: 160, b: 160 }
}

/// The bytes after the first `k` probes of `ray` are marked on the minimap,
/// one pixel each; probes outside the grid are not marked.
pub open spec fn trace_upto(
    bytes: Seq<u8>,
    map: TileMap,
    ray: Ray,
    frame_w: int,
    tw: int,
    th: int,
    k: nat,
) -> Seq<u8>
    decreases k,
{
    if k == 0 {
        bytes
    } else {
        let prev = trace_upto(bytes, map, ray, frame_w, tw, th, (k - 1) as nat);
        let px = point_x(ray, k - 1);
        let py = point_y(ray, k - 1);
        if 0 <= px && 0 <= py && map.in_grid(cell_of(px), cell_of(py)) {
            fill_rect(
                prev,
                frame_w,
                (px * tw) / (UNITS_PER_CELL as int),
                (py * th) / (UNITS_PER_CELL as int),
                1,
                1,
                trace_color(),
            )
        } else {
            prev
        }
    }
}

/// How many probes a march made: up to and including the hit, or all of
/// them on a miss.
pub open spec fn probes_made(hit: Option<RayHit>) -> nat {
    match hit {
        Some(h) => (h.steps + 1) as nat,
        None => (MAX_STEPS + 1) as nat,
    }
}

/// The ray cast for column `i` of `columns`.
pub open spec fn column_ray(pose: Pose, trig: TrigTable, i: int, columns: int) -> Ray {
    let a = column_angle_spec(pose.angle as int, i, columns);
    Ray { x: pose.x, y: pose.y, dx: trig.cos@[a], dy: trig.sin@[a] }
}

/// The bytes after the ray of column `i` of `columns` is traced on the
/// minimap and its column drawn into the right half: nothing for a miss, else
/// a strip one pixel wide in the color of the wall
/// struck, as tall as its perpendicular distance gives.
pub open spec fn column_draw(
    bytes: Seq<u8>,
    map: TileMap,
    pose: Pose,
    trig: TrigTable,
    frame_w: int,
    frame_h: int,
    i: int,
    columns: int,
) -> Seq<u8> {
    let ray = column_ray(pose, trig, i, columns);
    let hit = march_spec(map, ray, MAX_STEPS as int);
    let traced = trace_upto(
        bytes,
        map,
        ray,
        frame_w,
        tile_width(frame_w, map.width as int),
        tile_height(frame_h, map.height as int),
        probes_made(hit),
    );
    match hit {
        None => traced,
        Some(hit) => {
            let raw = hit.steps * STEP_UNITS;
            let cos = trig.cos@[offset_spec(i, columns)];
            let height = height_spec(corrected_spec(raw, cos as int), frame_h);
            fill_rect(
                traced,
                frame_w,
                frame_w / 2 + i,
                top_spec(height, frame_h),
                1,
                height,
                color_spec(hit.tile),
            )
        },
    }
}

/// The bytes after the first `k` columns are drawn.
pub open spec fn columns_upto(
    bytes: Seq<u8>,
    map: TileMap,
    pose: Pose,
    trig: TrigTable,
    frame_w: int,
    frame_h: int,
    k: nat,
) -> Seq<u8>
    decreases k,
{
    if k == 0 {
        bytes
    } else {
        column_draw(
            columns_upto(bytes, map, pose, trig, frame_w, frame_h, (k - 1) as nat),
            map,
            pose,
            trig,
            frame_w,
            frame_h,
            k - 1,
            frame_w / 2,
        )
    }
}

/// Everything a frame is made of: a map, the viewer, the direction table
/// and the framebuffer it is drawn into.
#[derive(Clone, Debug)]
pub struct Renderer {
    pub map: TileMap,
    pub pose: Pose,
    pub trig: TrigTable,
    pub frame: Framebuffer,
}

/// The pose one frame later.
pub open spec fn turned(pose: Pose) -> Pose {
    Pose { angle: advanced(pose.angle as int) as u32, ..pose }
}

/// The bytes of the next frame of `r`: the cleared buffer, then the minimap
/// tiles, then the viewer marker, then, after the viewer has turned, for
/// each column of the right half its ray's path on the minimap and its strip.
pub open spec fn frame_spec(r: Renderer) -> Seq<u8> {
    let w = r.frame.width as int;
    let h = r.frame.height as int;
    let tw = tile_width(w, r.map.width as int);
    let th = tile_height(h, r.map.height as int);
    let tiles = minimap_upto(
        blank((w * h * 3) as nat),
        r.map,
        w,
        tw,
        th,
        (r.map.width * r.map.height) as nat,
    );
    let marked = fill_rect(
        tiles,
        w,
        marker_coord(r.pose.x as int, tw),
        marker_coord(r.pose.y as int, th),
        MARKER_SIZE as int,
        MARKER_SIZE as int,
        marker_color(),
    );
    columns_upto(marked, r.map, turned(r.pose), r.trig, w, h, (w / 2) as nat)
}

/// The minimap pixel coordinate of a position coordinate.
fn to_minimap(coord: i64, scale: usize) -> (p: usize)
    ensures
        p == marker_coord(coord as int, scale as int),
{
    if coord <= 0 {
        return 0;
    }
    assert(0 <= (coord as u128) * (scale as u128) <= 0x8000_0000_0000_0000 * 0x1_0000_0000_0000_0000)
        by (nonlinear_arith)
        requires
            0 < coord < 0x8000_0000_0000_0000,
            scale < 0x1_0000_0000_0000_0000,
    ;
    let p: u128 = ((coord as u128) * (scale as u128)) / (UNITS_PER_CELL as u128);
    if p > usize::MAX as u128 {
        usize::MAX
    } else {
        p as usize
    }
}

/// The minimap pixel coordinate of the in-grid position coordinate `p`, for
/// a grid `cells` wide and tiles `scale` pixels wide.
fn grid_to_minimap(p: i128, scale: usize, cells: usize, frame: usize) -> (m: usize)
    requires
        0 <= p < cells * UNITS_PER_CELL,
        cells * scale <= frame,
    ensures
        m == (p * scale) / (UNITS_PER_CELL as int),
{
    proof {
        assert(0 <= p * scale <= (cells * UNITS_PER_CELL) * scale) by (nonlinear_arith)
            requires
                0 <= p < cells * UNITS_PER_CELL,
                scale >= 0,
        ;
        assert((cells * UNITS_PER_CELL) * scale == (cells * scale) * UNITS_PER_CELL)
            by (nonlinear_arith);
        assert((cells * scale) * UNITS_PER_CELL <= frame * UNITS_PER_CELL) by (nonlinear_arith)
            requires
                cells * scale <= frame,
        ;
        assert(frame * UNITS_PER_CELL <= 0x1_0000_0000_0000_0000 * 1_000_000) by (nonlinear_arith)
            requires
                frame < 0x1_0000_0000_0000_0000,
        ;
        assert((frame * UNITS_PER_CELL) / (UNITS_PER_CELL as int) == frame) by (nonlinear_arith);
        vstd::arithmetic::div_mod::lemma_div_is_ordered(
            p * scale,
            frame * UNITS_PER_CELL,
            UNITS_PER_CELL as int,
        );
    }
    ((p * (scale as i128)) / (UNITS_PER_CELL as i128)) as usize
}

/// Marks the first `count` probes of `ray` that lie in the grid on the
/// minimap, one pixel each.
fn draw_trace(
    frame: &mut Framebuffer,
    map: &TileMap,
    ray: &Ray,
    count: u64,
    tw: usize,
    th: usize,
)
    requires
        old(frame).wf(),
        map.wf(),
        count <= u32::MAX as u64 + 1,
        tw == tile_width(old(frame).width as int, map.width as int),
        th == tile_height(old(frame).height as int, map.height as int),
    ensures
        final(frame).wf(),
        final(frame).width == old(frame).width,
        final(frame).height == old(frame).height,
        final(frame).pixels@ == trace_upto(
            old(frame).pixels@,
            *map,
            *ray,
            old(frame).width as int,
            tw as int,
            th as int,
            count as nat,
        ),
{
    let ghost before = frame.pixels@;
    let w = frame.width;
    let h = frame.height;
    proof {
        if map.width > 0 {
            lemma_fundamental_div_mod(w as int, map.width as int);
            assert(map.width * tw <= map.width * (w / map.width)) by (nonlinear_arith)
                requires
                    tw <= w / map.width,
            ;
        }
        if map.height > 0 {
            lemma_fundamental_div_mod(h as int, map.height as int);
            assert(map.height * th <= map.height * (h / map.height)) by (nonlinear_arith)
                requires
                    th <= h / map.height,
            ;
        }
    }
    let mut k: u64 = 0;
    while k < count
        invariant
            frame.wf(),
            frame.width == w,
            frame.height == h,
            map.wf(),
            k <= count,
            count <= u32::MAX as u64 + 1,
            map.width * tw <= w,
            map.height * th <= h,
            frame.pixels@ == trace_upto(before, *map, *ray, w as int, tw as int, th as int, k as nat),
        decreases count - k,
    {
        let kk = k as i128;
        assert(-0x8000_0000_0000_0000 * 0x1_0000_0000 <= kk * (ray.dx as i128)
            <= 0x8000_0000_0000_0000 * 0x1_0000_0000) by (nonlinear_arith)
            requires
                0 <= kk <= 0x1_0000_0000,
                -0x8000_0000_0000_0000 <= ray.dx < 0x8000_0000_0000_0000,
        ;
        assert(-0x8000_0000_0000_0000 * 0x1_0000_0000 <= kk * (ray.dy as i128)
            <= 0x8000_0000_0000_0000 * 0x1_0000_0000) by (nonlinear_arith)
            requires
                0 <= kk <= 0x1_0000_0000,
                -0x8000_0000_0000_0000 <= ray.dy < 0x8000_0000_0000_0000,
        ;
        let px: i128 = ray.x as i128 + kk * (ray.dx as i128);
        let py: i128 = ray.y as i128 + kk * (ray.dy as i128);
        if px >= 0 && py >= 0 && px / (UNITS_PER_CELL as i128) < map.width as i128 && py / (
        UNITS_PER_CELL as i128) < map.height as i128 {
            proof {
                lemma_within_cells(px as int, map.width as int);
                lemma_within_cells(py as int, map.height as int);
            }
            let mx = grid_to_minimap(px, tw, map.width, w);
            let my = grid_to_minimap(py, th, map.height, h);
            frame.draw_rectangle(mx, my, 1, 1, Color { r: 160, g: 160, b: 160 });
        }
        k = k + 1;
    }
}

/// A position whose cell is below `cells` lies below `cells` cells.
proof fn lemma_within_cells(p: int, cells: int)
    requires
        0 <= p,
        cell_of(p) < cells,
    ensures
        p < cells * UNITS_PER_CELL,
{
    let u = UNITS_PER_CELL as int;
    lemma_fundamental_div_mod(p, u);
    assert(p < cells * u) by (nonlinear_arith)
        requires
            p / u < cells,
            p == u * (p / u) + p % u,
            p % u < u,
    ;
}

/// A cell's rectangle starts within the frame: `index * (frame / cells) <= frame`.
proof fn lemma_tile_origin(index: int, cells: int, frame: int, tile: int)
    requires
        0 <= index < cells,
        0 <= frame,
        0 <= tile <= frame / cells,
    ensures
        index * tile <= frame,
{
    lemma_fundamental_div_mod(frame, cells);
    assert(index * tile <= cells * (frame / cells)) by (nonlinear_arith)
        requires
            0 <= index < cells,
            0 <= tile <= frame / cells,
    ;
}

impl Renderer {
    /// Each part is well formed.
    pub open spec fn wf(&self) -> bool {
        &&& self.map.wf()
        &&& self.pose.wf()
        &&& self.trig.wf()
        &&& self.frame.wf()
    }

    /// A renderer with a cleared `width` by `height` framebuffer.
    pub fn new(map: TileMap, pose: Pose, trig: TrigTable, width: usize, height: usize) -> (r:
        Renderer)
        requires
            map.wf(),
            pose.wf(),
            trig.wf(),
            width * height * 3 <= usize::MAX,
        ensures
            r.wf(),
            r.map == map,
            r.pose == pose,
            r.trig == trig,
            r.frame.width == width,
            r.frame.height == height,
            r.frame.pixels@ == blank((width * height * 3) as nat),
    {
        Renderer { map, pose, trig, frame: Framebuffer::new(width, height) }
    }

    /// Composes the next frame and turns the viewer by one frame's rotation.
    pub fn render_frame(&mut self)
        requires
            old(self).wf(),
        ensures
            final(self).wf(),
            final(self).map == old(self).map,
            final(self).trig == old(self).trig,
            final(self).pose == turned(old(self).pose),
            final(self).frame.width == old(self).frame.width,
            final(self).frame.height == old(self).frame.height,
            final(self).frame.pixels@ == frame_spec(*old(self)),
    {
        let ghost start = *self;
        let w = self.frame.width;
        let h = self.frame.height;
        self.frame.clear();
        let mw = self.map.width;
        let mh = self.map.height;
        let tw: usize = if mw == 0 {
            0
        } else {
            w / mw / 2
        };
        let th: usize = if mh == 0 {
            0
        } else {
            h / mh
        };
        let cells = self.map.tiles.len();
        let mut t: usize = 0;
        while t < cells
            invariant
                self.wf(),
                self.map == start.map,
                self.pose == start.pose,
                self.trig == start.trig,
                self.frame.width == w,
                self.frame.height == h,
                w == start.frame.width,
                h == start.frame.height,
                cells == mw * mh,
                mw == self.map.width,
                mh == self.map.height,
                tw == tile_width(w as int, mw as int),
                th == tile_height(h as int, mh as int),
                t <= cells,
                self.frame.pixels@ == minimap_upto(
                    blank((w * h * 3) as nat),
                    self.map,
                    w as int,
                    tw as int,
                    th as int,
                    t as nat,
                ),
            decreases cells - t,
        {
            let col = t % mw;
            let row = t / mw;
            proof {
                lemma_fundamental_div_mod(t as int, mw as int);
                assert(row < mh) by (nonlinear_arith)
                    requires
                        t < mw * mh,
                        t == mw * row + col,
                        0 <= col,
                ;
                assert(w / mw / 2 <= w / mw);
                lemma_tile_origin(col as int, mw as int, w as int, tw as int);
                lemma_tile_origin(row as int, mh as int, h as int, th as int);
            }
            let symbol = self.map.tile_at(col, row);
            if symbol != EMPTY {
                self.frame.draw_rectangle(col * tw, row * th, tw, th, color_for(symbol));
            }
            t = t + 1;
        }
        let mx = to_minimap(self.pose.x, tw);
        let my = to_minimap(self.pose.y, th);
        self.frame.draw_rectangle(
            mx,
            my,
            MARKER_SIZE,
            MARKER_SIZE,
            Color { r: 255, g: 255, b: 255 },
        );
        self.pose.advance();
        let columns = w / 2;
        let mut i: usize = 0;
        while i < columns
            invariant
                self.wf(),
                self.map == start.map,
                self.pose == turned(start.pose),
                self.trig == start.trig,
                self.frame.width == w,
                self.frame.height == h,
                w == start.frame.width,
                h == start.frame.height,
                columns == w / 2,
                i <= columns,
                tw == tile_width(w as int, self.map.width as int),
                th == tile_height(h as int, self.map.height as int),
                self.frame.pixels@ == columns_upto(
                    fill_rect(
                        minimap_upto(
                            blank((w * h * 3) as nat),
                            start.map,
                            w as int,
                            tile_width(w as int, mw as int),
                            tile_height(h as int, mh as int),
                            (mw * mh) as nat,
                        ),
                        w as int,
                        marker_coord(start.pose.x as int, tile_width(w as int, mw as int)),
                        marker_coord(start.pose.y as int, tile_height(h as int, mh as int)),
                        MARKER_SIZE as int,
                        MARKER_SIZE as int,
                        marker_color(),
                    ),
                    self.map,
                    self.pose,
                    self.trig,
                    w as int,
                    h as int,
                    i as nat,
                ),
            decreases columns - i,
        {
            let angle = column_angle(self.pose.angle, i, columns);
            let ray = Ray {
                x: self.pose.x,
                y: self.pose.y,
                dx: self.trig.cos[angle as usize],
                dy: self.trig.sin[angle as usize],
            };
            let hit = march(&self.map, &ray, MAX_STEPS);
            proof {
                lemma_march_stops_only_at_walls(self.map, ray, MAX_STEPS);
            }
            let probes: u64 = match hit {
                Some(found) => found.steps as u64 + 1,
                None => MAX_STEPS as u64 + 1,
            };
            draw_trace(&mut self.frame, &self.map, &ray, probes, tw, th);
            match hit {
                Some(found) => {
                    let raw: i64 = found.steps as i64 * STEP_UNITS;
                    let offset = column_offset(i, columns);
                    let cos = self.trig.cos[offset as usize];
                    let strip = project_column(raw, cos, h);
                    self.frame.draw_rectangle(
                        columns + i,
                        strip.top,
                        1,
                        strip.height,
                        color_for(found.tile),
                    );
                },
                None => {},
            }
            i = i + 1;
        }
    }
}

} // verus!
