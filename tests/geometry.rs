use raycaster::framebuffer::{Framebuffer, BACKGROUND};
use raycaster::map::{color_for, Color, MapError, TileMap, EMPTY};
use raycaster::pose::{
    column_angle, column_offset, Pose, TrigTable, ANGLE_UNITS_PER_TURN, FIELD_OF_VIEW,
    ROTATION_PER_FRAME,
};
use raycaster::projection::{column_height, corrected_distance, project_column, Column, COS_ONE};
use raycaster::ray::{cell_symbol, march, Ray, RayHit, MAX_STEPS, STEP_UNITS, UNITS_PER_CELL};

fn corridor() -> TileMap {
    // one row: open cells 0..=4, a wall '1' at column 5, then open again
    let mut tiles: Vec<char> = "     1    ".chars().collect();
    tiles.extend("2222222222".chars());
    TileMap::new(10, 2, tiles).unwrap()
}

#[test]
fn map_from_text_strips_newlines() {
    let text: Vec<char> = "12\n 2\n".chars().collect();
    let m = TileMap::from_text(&text, 2, 2).unwrap();
    assert_eq!(m.tile_at(0, 0), '1');
    assert_eq!(m.tile_at(1, 0), '2');
    assert_eq!(m.tile_at(0, 1), EMPTY);
    assert_eq!(m.tile_at(1, 1), '2');
}

#[test]
fn map_from_text_wrong_length() {
    let text: Vec<char> = "12\n 2\n3".chars().collect();
    assert_eq!(TileMap::from_text(&text, 2, 2).unwrap_err(), MapError::WrongLength { found: 5 });
    let short: Vec<char> = "\n\n".chars().collect();
    assert_eq!(TileMap::from_text(&short, 1, 1).unwrap_err(), MapError::WrongLength { found: 0 });
}

#[test]
fn map_new_checks_size() {
    assert!(TileMap::new(3, 2, vec![' '; 6]).is_some());
    assert!(TileMap::new(3, 2, vec![' '; 5]).is_none());
    assert!(TileMap::new(usize::MAX, 2, vec![' '; 5]).is_none());
}

#[test]
fn colors_of_symbols() {
    assert_eq!(color_for('1'), Color { r: 255, g: 0, b: 255 });
    assert_eq!(color_for('2'), Color { r: 0, g: 255, b: 255 });
    assert_eq!(color_for('0'), Color { r: 255, g: 255, b: 0 });
    assert_eq!(color_for('x'), Color { r: 255, g: 255, b: 0 });
}

#[test]
fn new_framebuffer_is_background() {
    let fb = Framebuffer::new(4, 3);
    assert_eq!(fb.pixels.len(), 36);
    assert!(fb.pixels.iter().all(|b| *b == BACKGROUND));
}

#[test]
fn rectangle_sets_exactly_its_pixels() {
    let mut fb = Framebuffer::new(4, 3);
    let c = Color { r: 1, g: 2, b: 3 };
    fb.draw_rectangle(1, 1, 2, 1, c);
    for py in 0..3 {
        for px in 0..4 {
            let o = (px + py * 4) * 3;
            let inside = py == 1 && (px == 1 || px == 2);
            let want = if inside { [1, 2, 3] } else { [BACKGROUND; 3] };
            assert_eq!(&fb.pixels[o..o + 3], &want[..], "pixel {} {}", px, py);
        }
    }
}

#[test]
fn rectangle_is_clipped_at_the_edges() {
    let mut fb = Framebuffer::new(4, 3);
    let c = Color { r: 9, g: 9, b: 9 };
    fb.draw_rectangle(3, 2, usize::MAX, usize::MAX, c);
    assert_eq!(fb.pixels.len(), 36);
    assert_eq!(&fb.pixels[33..36], &[9, 9, 9]);
    assert!(fb.pixels[..33].iter().all(|b| *b == BACKGROUND));
    fb.draw_rectangle(usize::MAX, 0, 10, 10, c);
    fb.draw_rectangle(0, 7, 10, 10, c);
    assert_eq!(fb.pixels.len(), 36);
    assert!(fb.pixels[..33].iter().all(|b| *b == BACKGROUND));
}

#[test]
fn clear_restores_background() {
    let mut fb = Framebuffer::new(2, 2);
    fb.draw_rectangle(0, 0, 2, 2, Color { r: 0, g: 0, b: 0 });
    fb.clear();
    assert!(fb.pixels.iter().all(|b| *b == BACKGROUND));
}

#[test]
fn axis_ray_hits_wall_within_one_step() {
    let m = corridor();
    // from the middle of cell 0 toward +x: the wall face at x = 5 is 4.5 cells away
    let ray = Ray { x: 500_000, y: 500_000, dx: STEP_UNITS, dy: 0 };
    let hit = march(&m, &ray, MAX_STEPS).unwrap();
    assert_eq!(hit, RayHit { steps: 450, tile: '1' });
    let ray = Ray { x: 123_456, y: 500_000, dx: STEP_UNITS, dy: 0 };
    let hit = march(&m, &ray, MAX_STEPS).unwrap();
    let d = 5 * UNITS_PER_CELL - 123_456;
    let travelled = hit.steps as i64 * STEP_UNITS;
    assert!(d <= travelled && travelled < d + STEP_UNITS);
    assert_eq!(hit.tile, '1');
}

#[test]
fn ray_passes_empty_cells() {
    let m = corridor();
    // start at the edge of cell 6, heading +x through the empty cells 6..=9
    let ray = Ray { x: 6_000_000, y: 500_000, dx: STEP_UNITS, dy: 0 };
    assert_eq!(march(&m, &ray, MAX_STEPS), None);
    for k in 0..=MAX_STEPS as u64 {
        assert_eq!(cell_symbol(&m, &ray, k), EMPTY);
    }
    // heading -x from cell 9, it passes 9..=6 and stops in the wall
    let back = Ray { x: 9_500_000, y: 500_000, dx: -STEP_UNITS, dy: 0 };
    let hit = march(&m, &back, MAX_STEPS).unwrap();
    assert_eq!(hit.tile, '1');
    assert_eq!(hit.steps, 351);
}

#[test]
fn ray_down_hits_second_row() {
    let m = corridor();
    let ray = Ray { x: 500_000, y: 500_000, dx: 0, dy: STEP_UNITS };
    assert_eq!(march(&m, &ray, MAX_STEPS), Some(RayHit { steps: 50, tile: '2' }));
}

#[test]
fn ray_out_of_range_misses() {
    let m = corridor();
    let ray = Ray { x: 500_000, y: 500_000, dx: STEP_UNITS, dy: 0 };
    assert_eq!(march(&m, &ray, 449), None);
    assert_eq!(march(&m, &ray, 450), Some(RayHit { steps: 450, tile: '1' }));
    let outside = Ray { x: -50_000_000, y: 500_000, dx: STEP_UNITS, dy: 0 };
    assert_eq!(march(&m, &outside, MAX_STEPS), None);
}

#[test]
fn march_twice_same_result() {
    let m = corridor();
    let ray = Ray { x: 1_234_567, y: 765_432, dx: 7071, dy: -7071 };
    let a = march(&m, &ray, MAX_STEPS);
    let b = march(&m, &ray, MAX_STEPS);
    assert_eq!(a, b);
}

#[test]
fn straight_ray_is_not_corrected() {
    assert_eq!(corrected_distance(2_000_000, COS_ONE), 2_000_000);
    assert_eq!(corrected_distance(2_000_000, 5_000), 1_000_000);
    assert_eq!(corrected_distance(3, -5_000), -1);
    let c = project_column(2_000_000, COS_ONE, 512);
    assert_eq!(c, Column { top: 128, height: 256 });
    assert_eq!(c.top + c.height / 2, 256);
}

#[test]
fn nearer_walls_are_taller() {
    let mut last = usize::MAX;
    for d in [1, 500_000, 1_000_000, 1_500_000, 2_000_000, 4_000_000, 10_670_000, 20_000_000] {
        let h = column_height(d, 512);
        assert!(h <= last);
        last = h;
    }
    assert_eq!(column_height(1_000_000, 512), 512);
    assert_eq!(column_height(4_000_000, 512), 128);
    assert_eq!(column_height(10_670_000, 512), 47);
    assert_eq!(column_height(0, 512), 512);
    assert_eq!(column_height(-5, 512), 512);
    assert_eq!(column_height(1, usize::MAX), usize::MAX);
}

#[test]
fn advance_turns_one_degree() {
    let mut p = Pose { x: 1, y: 2, angle: 0 };
    p.advance();
    assert_eq!(p, Pose { x: 1, y: 2, angle: ROTATION_PER_FRAME });
    let mut q = Pose { x: 1, y: 2, angle: ANGLE_UNITS_PER_TURN - 1 };
    q.advance();
    assert_eq!(q.angle, ROTATION_PER_FRAME - 1);
}

#[test]
fn half_turn_after_180_frames() {
    for start in [0u32, 11169, ANGLE_UNITS_PER_TURN - 1] {
        let mut p = Pose { x: 0, y: 0, angle: start };
        for _ in 0..180 {
            p.advance();
        }
        assert_eq!(p.angle, (start + ANGLE_UNITS_PER_TURN / 2) % ANGLE_UNITS_PER_TURN);
    }
}

#[test]
fn columns_spread_over_field_of_view() {
    assert_eq!(column_offset(0, 512), ANGLE_UNITS_PER_TURN - FIELD_OF_VIEW / 2);
    assert_eq!(column_offset(256, 512), 0);
    assert_eq!(column_offset(511, 512), FIELD_OF_VIEW / 2 - 15);
    assert_eq!(column_angle(11169, 256, 512), 11169);
    assert_eq!(column_angle(100, 0, 512), ANGLE_UNITS_PER_TURN + 100 - FIELD_OF_VIEW / 2);
}

#[test]
fn trig_table_is_checked() {
    let n = ANGLE_UNITS_PER_TURN as usize;
    assert!(TrigTable::new(vec![COS_ONE; 3], vec![0; 3]).is_none());
    let mut cos = vec![0i64; n];
    let sin = vec![0i64; n];
    assert!(TrigTable::new(cos.clone(), sin.clone()).is_none());
    cos[0] = COS_ONE;
    assert!(TrigTable::new(cos.clone(), sin.clone()).is_some());
    cos[7] = COS_ONE + 1;
    assert!(TrigTable::new(cos, sin).is_none());
}
