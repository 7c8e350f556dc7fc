use vstd::prelude::*;

verus! {

/// One target reported by the LD2450 radar.
#[derive(Debug, Clone, Copy, PartialEq, Eq, Structural)]
pub struct TargetInfo {
    /// Sideways position in millimetres.
    pub x_coordinate: i16,
    /// Forward position in millimetres.
    pub y_coordinate: i16,
    /// Speed in centimetres per second.
    pub speed: i16,
    /// Straight-line distance from the radar in millimetres, rounded down.
    pub actual_distance: u32,
    /// Size of one distance gate in millimetres.
    pub distance_resolution: u16,
}

/// The little-endian 16-bit value of `lo`, `hi`.
pub open spec fn le_u16(lo: u8, hi: u8) -> int {
    lo as int + 256 * (hi as int)
}

/// The LD2450 sign convention: the top bit set means a positive value, clear
/// means negative; the low 15 bits are the magnitude.
pub open spec fn signed_magnitude(raw: int) -> int {
    if raw >= 0x8000 {
        raw - 0x8000
    } else {
        -raw
    }
}

/// Whether `r` is the square root of `n` rounded down.
pub open spec fn is_floor_sqrt(r: int, n: int) -> bool {
    r >= 0 && r * r <= n && n < (r + 1) * (r + 1)
}

/// What an 8-byte target record says, as integers: the coordinates, the speed
/// and the distance resolution.
pub open spec fn record_fields(d: Seq<u8>) -> (int, int, int, int) {
    (
        signed_magnitude(le_u16(d[0], d[1])),
        signed_magnitude(le_u16(d[2], d[3])),
        signed_magnitude(le_u16(d[4], d[5])),
        le_u16(d[6], d[7]),
    )
}

/// Whether `t` is the decoding of the target record `d`.
pub open spec fn decodes_to(d: Seq<u8>, t: TargetInfo) -> bool {
    let (x, y, s, r) = record_fields(d);
    &&& t.x_coordinate == x
    &&& t.y_coordinate == y
    &&& t.speed == s
    &&& t.distance_resolution == r
    &&& is_floor_sqrt(t.actual_distance as int, x * x + y * y)
}

/// `u16::from_le_bytes`: the documentation states the result is the
/// little-endian value of the two bytes.
#[verifier::external_body]
fn u16_from_le(lo: u8, hi: u8) -> (v: u16)
    ensures
        v == le_u16(lo, hi),
{
    u16::from_le_bytes([lo, hi])
}

/// `u32::isqrt`: the documentation states the result is the square root
/// rounded down.
#[verifier::external_body]
fn u32_isqrt(n: u32) -> (r: u32)
    ensures
        is_floor_sqrt(r as int, n as int),
{
    n.isqrt()
}

/// Decodes one signed field of a record.
fn decode_signed(lo: u8, hi: u8) -> (v: i16)
    ensures
        v == signed_magnitude(le_u16(lo, hi)),
        -0x7FFF <= v <= 0x7FFF,
{
    let raw = u16_from_le(lo, hi);
    let magnitude = (raw & 0x7FFF) as i16;
    assert(raw & 0x7FFF == raw % 0x8000) by (bit_vector);
    assert((raw & 0x8000 != 0) == (raw >= 0x8000)) by (bit_vector);
    if raw & 0x8000 != 0 {
        magnitude
    } else {
        -magnitude
    }
}

/// Decodes the 8-byte record of one target: x, y, speed and distance
/// resolution, and the distance computed from x and y.
pub fn process_data(data: &[u8]) -> (target_info: TargetInfo)
    requires
        data@.len() >= 8,
    ensures
        decodes_to(data@, target_info),
{
    let mut target_info = TargetInfo {
        x_coordinate: 0,
        y_coordinate: 0,
        speed: 0,
        actual_distance: 0,
        distance_resolution: 0,
    };
    target_info.x_coordinate = decode_signed(data[0], data[1]);
    target_info.y_coordinate = decode_signed(data[2], data[3]);
    target_info.speed = decode_signed(data[4], data[5]);
    target_info.distance_resolution = u16_from_le(data[6], data[7]);

    let x = target_info.x_coordinate as i32;
    let y = target_info.y_coordinate as i32;
    assert(0 <= x * x <= 0x7FFF * 0x7FFF) by (nonlinear_arith)
        requires
            -0x7FFF <= x <= 0x7FFF,
    ;
    assert(0 <= y * y <= 0x7FFF * 0x7FFF) by (nonlinear_arith)
        requires
            -0x7FFF <= y <= 0x7FFF,
    ;
    let sum = x * x + y * y;
    target_info.actual_distance = u32_isqrt(sum as u32);
    target_info
}

} // verus!
