use raycaster::framebuffer::BACKGROUND;
use raycaster::map::{color_for, TileMap};
use raycaster::pose::{column_angle, column_offset, Pose, TrigTable, ANGLE_UNITS_PER_TURN};
use raycaster::projection::{project_column, Column, COS_ONE};
use raycaster::ray::{march, Ray, RayHit, MAX_STEPS, STEP_UNITS};
use raycaster::render::Renderer;

const LEVEL: &str = "0000222222220000\n\
1              0\n\
1      11111   0\n\
1     0        0\n\
0     0  1110000\n\
0     3        0\n\
0   10000      0\n\
0   0   11100  0\n\
0   0   0      0\n\
0   0   1  00000\n\
0       1      0\n\
2       1      0\n\
0       0      0\n\
0 0000000      0\n\
0              0\n\
0002222222200000\n";

fn level() -> TileMap {
    let text: Vec<char> = LEVEL.chars().collect();
    TileMap::from_text(&text, 16, 16).unwrap()
}

fn table() -> TrigTable {
    let n = ANGLE_UNITS_PER_TURN as usize;
    let mut cos = Vec::with_capacity(n);
    let mut sin = Vec::with_capacity(n);
    for a in 0..n {
        let rad = a as f64 * 2.0 * std::f64::consts::PI / n as f64;
        cos.push((rad.cos() * COS_ONE as f64).round() as i64);
        sin.push((rad.sin() * COS_ONE as f64).round() as i64);
    }
    TrigTable::new(cos, sin).unwrap()
}

// 1.523 rad in 128ths of a degree, rounded
const FACING: u32 = 11169;

#[test]
fn center_column_scenario() {
    let m = level();
    let t = table();
    let a = column_angle(FACING, 256, 512);
    assert_eq!(a, FACING);
    assert_eq!(column_offset(256, 512), 0);
    let ray = Ray { x: 3_456_000, y: 2_345_000, dx: t.cos[a as usize], dy: t.sin[a as usize] };
    let hit = march(&m, &ray, MAX_STEPS).unwrap();
    assert_eq!(hit, RayHit { steps: 1067, tile: '0' });
    let strip = project_column(hit.steps as i64 * STEP_UNITS, t.cos[0], 512);
    assert_eq!(strip, Column { top: 233, height: 47 });
}

#[test]
fn rendered_frame_scenario() {
    let pose = Pose { x: 3_456_000, y: 2_345_000, angle: FACING - 128 };
    let mut r = Renderer::new(level(), pose, table(), 1024, 512);
    r.render_frame();
    assert_eq!(r.pose.angle, FACING);
    let px = |x: usize, y: usize| -> [u8; 3] {
        let o = (x + y * 1024) * 3;
        [r.frame.pixels[o], r.frame.pixels[o + 1], r.frame.pixels[o + 2]]
    };
    let wall = color_for('0');
    let wall = [wall.r, wall.g, wall.b];
    // the center column of the 3D view
    assert_eq!(px(768, 232), [BACKGROUND; 3]);
    assert_eq!(px(768, 233), wall);
    assert_eq!(px(768, 279), wall);
    assert_eq!(px(768, 280), [BACKGROUND; 3]);
    // the minimap: tile (0, 0) is '0', tile (1, 1) is empty, tile (0, 1) is '1'
    assert_eq!(px(0, 0), wall);
    assert_eq!(px(31, 31), wall);
    assert_eq!(px(40, 40), [BACKGROUND; 3]);
    let magenta = color_for('1');
    assert_eq!(px(0, 32), [magenta.r, magenta.g, magenta.b]);
    // the viewer marker at (3.456 * 32, 2.345 * 32), its corner under the rays' start
    assert_eq!(px(110, 75), [160, 160, 160]);
    assert_eq!(px(114, 79), [255, 255, 255]);
    assert_eq!(px(115, 79), [BACKGROUND; 3]);
    // the center ray's path, one cell out
    assert_eq!(px(112, 107), [160, 160, 160]);
    let traced = r.frame.pixels.chunks(3).filter(|p| *p == &[160, 160, 160][..]).count();
    assert_eq!(traced, 31737);
}

#[test]
fn frames_turn_half_way_in_180() {
    let pose = Pose { x: 3_456_000, y: 2_345_000, angle: FACING };
    let mut r = Renderer::new(level(), pose, table(), 64, 32);
    for _ in 0..180 {
        r.render_frame();
    }
    assert_eq!(r.pose.angle, (FACING + ANGLE_UNITS_PER_TURN / 2) % ANGLE_UNITS_PER_TURN);
    assert_eq!(r.pose.x, 3_456_000);
    assert_eq!(r.pose.y, 2_345_000);
}

#[test]
fn marker_near_edge_is_clipped() {
    let pose = Pose { x: i64::MAX, y: -7, angle: 0 };
    let mut r = Renderer::new(level(), pose, table(), 64, 32);
    r.render_frame();
    assert_eq!(r.frame.pixels.len(), 64 * 32 * 3);
}
