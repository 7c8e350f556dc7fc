use vstd::prelude::*;

use crate::target::TargetInfo;

verus! {

/// Number of positions of the sweep line, from +60 to -60 degrees.
pub const SWEEP_STEP_COUNT: usize = 13;

/// Screen position of the radar, in pixels.
pub const RADAR_ORIGIN_X: i32 = 120;
pub const RADAR_ORIGIN_Y: i32 = 120;
/// Radius of the outer ring in pixels.
pub const RADAR_RADIUS_PX: i32 = 115;
/// Distance shown at the outer ring, in millimetres.
pub const MAX_RANGE_MM: i32 = 6000;

/// Integer division rounding toward zero, as Rust's `/` does.
pub open spec fn div_toward_zero(a: int, b: int) -> int
    recommends
        b > 0,
{
    if a >= 0 {
        a / b
    } else {
        -((-a) / b)
    }
}

/// The sweep step after `step` and the direction it moves in: the sweep turns
/// around at either end.
pub open spec fn sweep_after(step: int, forward: bool) -> (int, bool) {
    let fwd = if step == SWEEP_STEP_COUNT - 1 {
        false
    } else if step == 0 {
        true
    } else {
        forward
    };
    (if fwd {
        step + 1
    } else {
        step - 1
    }, fwd)
}

/// Advances the sweep line one step, turning around at the first and last step.
pub fn advance_sweep(step: usize, forward: bool) -> (next: (usize, bool))
    requires
        step < SWEEP_STEP_COUNT,
    ensures
        (next.0 as int, next.1) == sweep_after(step as int, forward),
        next.0 < SWEEP_STEP_COUNT,
{
    let mut sweep_step = step;
    let mut sweep_forward = forward;
    if sweep_step == SWEEP_STEP_COUNT - 1 {
        sweep_forward = false;
    } else if sweep_step == 0 {
        sweep_forward = true;
    }
    if sweep_forward {
        sweep_step += 1;
    } else {
        sweep_step -= 1;
    }
    (sweep_step, sweep_forward)
}

/// The end point, on the 6 m ring, of the sweep line at `step`.
pub open spec fn sweep_endpoint_spec(step: int) -> (i32, i32) {
    if step == 0 {
        (220, 178)
    } else if step == 1 {
        (208, 194)
    } else if step == 2 {
        (194, 208)
    } else if step == 3 {
        (178, 220)
    } else if step == 4 {
        (159, 228)
    } else if step == 5 {
        (140, 233)
    } else if step == 6 {
        (120, 235)
    } else if step == 7 {
        (100, 233)
    } else if step == 8 {
        (81, 228)
    } else if step == 9 {
        (62, 220)
    } else if step == 10 {
        (46, 208)
    } else if step == 11 {
        (32, 194)
    } else {
        (20, 178)
    }
}

/// The end point of the sweep line drawn at `step`.
pub fn sweep_endpoint(step: usize) -> (p: (i32, i32))
    requires
        step < SWEEP_STEP_COUNT,
    ensures
        p == sweep_endpoint_spec(step as int),
{
    let table: [(i32, i32); 13] = [
        (220, 178),
        (208, 194),
        (194, 208),
        (178, 220),
        (159, 228),
        (140, 233),
        (120, 235),
        (100, 233),
        (81, 228),
        (62, 220),
        (46, 208),
        (32, 194),
        (20, 178),
    ];
    table[step]
}

/// Divides rounding toward zero.
fn scale_toward_zero(v: i32) -> (r: i32)
    requires
        -0x8000 <= v <= 0x8000,
    ensures
        r == div_toward_zero(v * RADAR_RADIUS_PX, MAX_RANGE_MM as int),
        -700 <= r <= 700,
{
    let scaled = v * RADAR_RADIUS_PX;
    if scaled >= 0 {
        scaled / MAX_RANGE_MM
    } else {
        -((-scaled) / MAX_RANGE_MM)
    }
}

/// Where on the screen a target is drawn: x grows to the left of the radar,
/// y downwards, 6 m at the outer ring.
pub fn target_to_point(target: &TargetInfo) -> (p: (i32, i32))
    ensures
        p.0 == RADAR_ORIGIN_X - div_toward_zero(target.x_coordinate * RADAR_RADIUS_PX, MAX_RANGE_MM as int),
        p.1 == RADAR_ORIGIN_Y + div_toward_zero(target.y_coordinate * RADAR_RADIUS_PX, MAX_RANGE_MM as int),
{
    let x = target.x_coordinate as i32;
    let y = target.y_coordinate as i32;
    (RADAR_ORIGIN_X - scale_toward_zero(x), RADAR_ORIGIN_Y + scale_toward_zero(y))
}

/// Whether a target slot is unused: the radar reports both coordinates as zero.
pub fn is_unused_slot(target: &TargetInfo) -> (unused: bool)
    ensures
        unused == (target.x_coordinate == 0 && target.y_coordinate == 0),
{
    target.x_coordinate == 0 && target.y_coordinate == 0
}

/// The eight corner strokes of the lock-on marker around `c`, whose box
/// reaches 9 pixels from the centre and whose strokes are 7 pixels long.
pub open spec fn marker_segments_spec(c: (int, int)) -> Seq<((int, int), (int, int))> {
    let (l, r, t, b) = (c.0 - 9, c.0 + 9, c.1 - 9, c.1 + 9);
    seq![
        ((l, t), (l + 7, t)),
        ((l, t), (l, t + 7)),
        ((r - 7, t), (r, t)),
        ((r, t), (r, t + 7)),
        ((l, b), (l + 7, b)),
        ((l, b - 7), (l, b)),
        ((r - 7, b), (r, b)),
        ((r, b - 7), (r, b)),
    ]
}

/// The corner strokes of the lock-on marker drawn around a target at `center`.
pub fn target_marker_segments(center: (i32, i32)) -> (segs: Vec<((i32, i32), (i32, i32))>)
    requires
        i32::MIN + 9 <= center.0 <= i32::MAX - 9,
        i32::MIN + 9 <= center.1 <= i32::MAX - 9,
    ensures
        segs@.len() == 8,
        forall|i: int|
            0 <= i < 8 ==> {
                let (a, b) = #[trigger] segs@[i];
                ((a.0 as int, a.1 as int), (b.0 as int, b.1 as int)) == marker_segments_spec(
                    (center.0 as int, center.1 as int),
                )[i]
            },
{
    let half_size: i32 = 9;
    let corner_length: i32 = 7;
    let left = center.0 - half_size;
    let right = center.0 + half_size;
    let top = center.1 - half_size;
    let bottom = center.1 + half_size;
    let left_end = left + corner_length;
    let right_start = right - corner_length;
    let top_end = top + corner_length;
    let bottom_start = bottom - corner_length;
    let segs = vec![
        ((left, top), (left_end, top)),
        ((left, top), (left, top_end)),
        ((right_start, top), (right, top)),
        ((right, top), (right, top_end)),
        ((left, bottom), (left_end, bottom)),
        ((left, bottom_start), (left, bottom)),
        ((right_start, bottom), (right, bottom)),
        ((right, bottom_start), (right, bottom)),
    ];
    segs
}

/// The top-left corner of the 21 by 21 square cleared around a drawn target.
pub fn erase_origin(target: &TargetInfo) -> (p: (i32, i32))
    ensures
        p.0 == target_to_point_spec(target).0 - 10,
        p.1 == target_to_point_spec(target).1 - 10,
{
    let p = target_to_point(target);
    (p.0 - 10, p.1 - 10)
}

/// The screen position of a target, as `target_to_point` computes it.
pub open spec fn target_to_point_spec(target: &TargetInfo) -> (int, int) {
    (
        RADAR_ORIGIN_X - div_toward_zero(target.x_coordinate * RADAR_RADIUS_PX, MAX_RANGE_MM as int),
        RADAR_ORIGIN_Y + div_toward_zero(target.y_coordinate * RADAR_RADIUS_PX, MAX_RANGE_MM as int),
    )
}

/// Law (sweep stays on screen): from any step, the sweep only ever moves to a
/// neighbouring step within the range.
pub proof fn lemma_sweep_in_range(step: int, forward: bool)
    requires
        0 <= step < SWEEP_STEP_COUNT,
    ensures
        0 <= sweep_after(step, forward).0 < SWEEP_STEP_COUNT,
        sweep_after(step, forward).0 == step + 1 || sweep_after(step, forward).0 == step - 1,
{
}

/// Whether `p` lies on the outer ring, 114 to 116 pixels from the radar, at
/// or below the edges of the scan area.
pub open spec fn on_outer_ring_in_scan_area(p: (i32, i32)) -> bool {
    let dx = p.0 - RADAR_ORIGIN_X;
    let dy = p.1 - RADAR_ORIGIN_Y;
    &&& 114 * 114 <= dx * dx + dy * dy <= 116 * 116
    &&& p.1 >= 178
}

/// Law (the sweep stays on the outer ring inside the scan area): every end
/// point of the sweep line lies on the outer ring, between 114 and 116 pixels
/// from the radar, below the radar at or under the edges of the +/-60 degree
/// scan area (y at least 178), and the steps go from the right edge (220, 178)
/// to the left edge (20, 178) with x falling strictly at every step.
pub proof fn lemma_sweep_on_ring(step: int)
    requires
        0 <= step < SWEEP_STEP_COUNT,
    ensures
        on_outer_ring_in_scan_area(sweep_endpoint_spec(step)),
        step + 1 < SWEEP_STEP_COUNT ==> sweep_endpoint_spec(step + 1).0 < sweep_endpoint_spec(step).0,
        sweep_endpoint_spec(0) == (220i32, 178i32),
        sweep_endpoint_spec(SWEEP_STEP_COUNT - 1) == (20i32, 178i32),
{
    if step == 0 {
        assert(sweep_endpoint_spec(0) == (220i32, 178i32));
        assert(on_outer_ring_in_scan_area((220i32, 178i32))) by (nonlinear_arith);
    } else if step == 1 {
        assert(sweep_endpoint_spec(1) == (208i32, 194i32));
        assert(on_outer_ring_in_scan_area((208i32, 194i32))) by (nonlinear_arith);
    } else if step == 2 {
        assert(sweep_endpoint_spec(2) == (194i32, 208i32));
        assert(on_outer_ring_in_scan_area((194i32, 208i32))) by (nonlinear_arith);
    } else if step == 3 {
        assert(sweep_endpoint_spec(3) == (178i32, 220i32));
        assert(on_outer_ring_in_scan_area((178i32, 220i32))) by (nonlinear_arith);
    } else if step == 4 {
        assert(sweep_endpoint_spec(4) == (159i32, 228i32));
        assert(on_outer_ring_in_scan_area((159i32, 228i32))) by (nonlinear_arith);
    } else if step == 5 {
        assert(sweep_endpoint_spec(5) == (140i32, 233i32));
        assert(on_outer_ring_in_scan_area((140i32, 233i32))) by (nonlinear_arith);
    } else if step == 6 {
        assert(sweep_endpoint_spec(6) == (120i32, 235i32));
        assert(on_outer_ring_in_scan_area((120i32, 235i32))) by (nonlinear_arith);
    } else if step == 7 {
        assert(sweep_endpoint_spec(7) == (100i32, 233i32));
        assert(on_outer_ring_in_scan_area((100i32, 233i32))) by (nonlinear_arith);
    } else if step == 8 {
        assert(sweep_endpoint_spec(8) == (81i32, 228i32));
        assert(on_outer_ring_in_scan_area((81i32, 228i32))) by (nonlinear_arith);
    } else if step == 9 {
        assert(sweep_endpoint_spec(9) == (62i32, 220i32));
        assert(on_outer_ring_in_scan_area((62i32, 220i32))) by (nonlinear_arith);
    } else if step == 10 {
        assert(sweep_endpoint_spec(10) == (46i32, 208i32));
        assert(on_outer_ring_in_scan_area((46i32, 208i32))) by (nonlinear_arith);
    } else if step == 11 {
        assert(sweep_endpoint_spec(11) == (32i32, 194i32));
        assert(on_outer_ring_in_scan_area((32i32, 194i32))) by (nonlinear_arith);
    } else if step == 12 {
        assert(sweep_endpoint_spec(12) == (20i32, 178i32));
        assert(on_outer_ring_in_scan_area((20i32, 178i32))) by (nonlinear_arith);
    }
}

} // verus!
