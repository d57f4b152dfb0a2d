//! The viewer pose, angles in fixed units, and the table of directions.
use vstd::prelude::*;
use vstd::arithmetic::div_mod::{lemma_add_mod_noop, lemma_mod_twice, lemma_small_mod};
use crate::projection::COS_ONE;

verus! {

/// Angles are measured in 128ths of a degree; this many make a full turn.
pub const ANGLE_UNITS_PER_TURN: u32 = 46080;

/// The fixed amount the viewer turns each frame: one degree.
pub const ROTATION_PER_FRAME: u32 = 128;

/// The field of view: sixty degrees, split evenly left and right.
pub const FIELD_OF_VIEW: u32 = 7680;

/// The viewer: position (`x`, `y`) in position units and facing `angle`,
/// counterclockwise from the +x axis, in angle units.
#[derive(Clone, Copy, Debug, PartialEq, Eq, Structural)]
pub struct Pose {
    pub x: i64,
    pub y: i64,
    pub angle: u32,
}

/// The facing angle one frame later.
pub open spec fn advanced(angle: int) -> int {
    (angle + ROTATION_PER_FRAME) % (ANGLE_UNITS_PER_TURN as int)
}

/// The facing angle `frames` frames later.
pub open spec fn advanced_by(angle: int, frames: nat) -> int
    decreases frames,
{
    if frames == 0 {
        angle
    } else {
        advanced(advanced_by(angle, (frames - 1) as nat))
    }
}

/// The angle of column `i` of `columns` relative to the facing direction,
/// reduced into a full turn: the field of view spread evenly over the
/// columns, starting half the field to the right of the facing direction.
pub open spec fn offset_spec(i: int, columns: int) -> int {
    (ANGLE_UNITS_PER_TURN + (FIELD_OF_VIEW * i) / columns - FIELD_OF_VIEW / 2) % (
    ANGLE_UNITS_PER_TURN as int)
}

/// The absolute angle of column `i` of `columns` for a viewer facing `facing`.
pub open spec fn column_angle_spec(facing: int, i: int, columns: int) -> int {
    (facing + offset_spec(i, columns)) % (ANGLE_UNITS_PER_TURN as int)
}

impl Pose {
    /// The angle lies within one turn.
    pub open spec fn wf(&self) -> bool {
        self.angle < ANGLE_UNITS_PER_TURN
    }

    /// Turns the viewer by the per-frame rotation; the position stays.
    pub fn advance(&mut self)
        requires
            old(self).wf(),
        ensures
            final(self).wf(),
            final(self).x == old(self).x,
            final(self).y == old(self).y,
            final(self).angle == advanced(old(self).angle as int),
    {
        self.angle = (self.angle + ROTATION_PER_FRAME) % ANGLE_UNITS_PER_TURN;
    }
}

/// The angle of column `i` of `columns` relative to the facing direction,
/// in `[0, ANGLE_UNITS_PER_TURN)`.
pub fn column_offset(i: usize, columns: usize) -> (a: u32)
    requires
        i < columns,
    ensures
        a == offset_spec(i as int, columns as int),
        a < ANGLE_UNITS_PER_TURN,
{
    let wide: u128 = FIELD_OF_VIEW as u128 * i as u128;
    proof {
        let n = columns as int;
        assert(FIELD_OF_VIEW * i <= FIELD_OF_VIEW * n) by (nonlinear_arith)
            requires
                i < n,
        ;
        assert((FIELD_OF_VIEW * n) / n == FIELD_OF_VIEW as int) by (nonlinear_arith)
            requires
                n > 0,
        ;
        vstd::arithmetic::div_mod::lemma_div_is_ordered(FIELD_OF_VIEW * i, FIELD_OF_VIEW * n, n);
    }
    let spread: u32 = (wide / columns as u128) as u32;
    (ANGLE_UNITS_PER_TURN + spread - FIELD_OF_VIEW / 2) % ANGLE_UNITS_PER_TURN
}

/// The absolute angle of column `i` of `columns` for a viewer facing `facing`.
pub fn column_angle(facing: u32, i: usize, columns: usize) -> (a: u32)
    requires
        facing < ANGLE_UNITS_PER_TURN,
        i < columns,
    ensures
        a == column_angle_spec(facing as int, i as int, columns as int),
        a < ANGLE_UNITS_PER_TURN,
{
    (facing + column_offset(i, columns)) % ANGLE_UNITS_PER_TURN
}

/// A table of fixed-point cosines and sines, one entry per angle unit.
#[derive(Clone, Debug)]
pub struct TrigTable {
    pub cos: Vec<i64>,
    pub sin: Vec<i64>,
}

impl TrigTable {
    /// One entry per angle of a turn, each within [-1, 1], and the angle
    /// zero exactly along +x.
    pub open spec fn wf(&self) -> bool {
        &&& self.cos@.len() == ANGLE_UNITS_PER_TURN
        &&& self.sin@.len() == ANGLE_UNITS_PER_TURN
        &&& self.cos@[0] == COS_ONE
        &&& self.sin@[0] == 0
        &&& forall|a: int|
            0 <= a < ANGLE_UNITS_PER_TURN ==> -COS_ONE <= #[trigger] self.cos@[a] <= COS_ONE
        &&& forall|a: int|
            0 <= a < ANGLE_UNITS_PER_TURN ==> -COS_ONE <= #[trigger] self.sin@[a] <= COS_ONE
    }

    /// A table from its entries; `None` unless it is well formed.
    pub fn new(cos: Vec<i64>, sin: Vec<i64>) -> (r: Option<TrigTable>)
        ensures
            r is Some <==> (TrigTable { cos, sin }).wf(),
            r matches Some(t) ==> t.cos@ == cos@ && t.sin@ == sin@,
    {
        if cos.len() != ANGLE_UNITS_PER_TURN as usize || sin.len() != ANGLE_UNITS_PER_TURN as usize {
            return None;
        }
        if cos[0] != COS_ONE || sin[0] != 0 {
            return None;
        }
        let mut a: usize = 0;
        while a < cos.len()
            invariant
                a <= cos@.len(),
                cos@.len() == ANGLE_UNITS_PER_TURN,
                sin@.len() == ANGLE_UNITS_PER_TURN,
                forall|b: int| 0 <= b < a ==> -COS_ONE <= #[trigger] cos@[b] <= COS_ONE,
                forall|b: int| 0 <= b < a ==> -COS_ONE <= #[trigger] sin@[b] <= COS_ONE,
            decreases cos.len() - a,
        {
            if cos[a] < -COS_ONE || cos[a] > COS_ONE || sin[a] < -COS_ONE || sin[a] > COS_ONE {
                return None;
            }
            a = a + 1;
        }
        Some(TrigTable { cos, sin })
    }
}

/// Rotation accumulates: `frames` frames turn the viewer by `frames` times
/// the per-frame rotation, modulo a full turn.
pub proof fn lemma_advanced_by(angle: int, frames: nat)
    requires
        0 <= angle < ANGLE_UNITS_PER_TURN,
    ensures
        advanced_by(angle, frames) == (angle + frames * ROTATION_PER_FRAME) % (
        ANGLE_UNITS_PER_TURN as int),
    decreases frames,
{
    let t = ANGLE_UNITS_PER_TURN as int;
    if frames == 0 {
        lemma_small_mod(angle as nat, t as nat);
    } else {
        lemma_advanced_by(angle, (frames - 1) as nat);
        let before = angle + (frames - 1) * ROTATION_PER_FRAME;
        lemma_add_mod_noop(before, ROTATION_PER_FRAME as int, t);
        lemma_mod_twice(before, t);
        lemma_small_mod(ROTATION_PER_FRAME as nat, t as nat);
        assert(before + ROTATION_PER_FRAME == angle + frames * ROTATION_PER_FRAME) by (
        nonlinear_arith)
            requires
                before == angle + (frames - 1) * ROTATION_PER_FRAME,
        ;
    }
}

/// After 180 frames the viewer faces the opposite way: its angle has
/// advanced by half a turn, modulo a full turn.
pub proof fn lemma_half_turn_after_180_frames(angle: int)
    requires
        0 <= angle < ANGLE_UNITS_PER_TURN,
    ensures
        advanced_by(angle, 180) == (angle + ANGLE_UNITS_PER_TURN / 2) % (
        ANGLE_UNITS_PER_TURN as int),
{
    lemma_advanced_by(angle, 180);
}

/// With an even number of columns, the middle column looks straight ahead:
/// its offset is zero and its angle is the facing angle.
pub proof fn lemma_center_column_faces_forward(facing: int, columns: int)
    requires
        0 <= facing < ANGLE_UNITS_PER_TURN,
        columns > 0,
        columns % 2 == 0,
    ensures
        offset_spec(columns / 2, columns) == 0,
        column_angle_spec(facing, columns / 2, columns) == facing,
{
    let half = columns / 2;
    assert(FIELD_OF_VIEW * half == (FIELD_OF_VIEW / 2) * columns) by (nonlinear_arith)
        requires
            columns == 2 * half,
    ;
    assert((FIELD_OF_VIEW * half) / columns == FIELD_OF_VIEW / 2) by (nonlinear_arith)
        requires
            FIELD_OF_VIEW * half == (FIELD_OF_VIEW / 2) * columns,
            columns > 0,
    ;
    lemma_small_mod(facing as nat, ANGLE_UNITS_PER_TURN as nat);
}

} // verus!
