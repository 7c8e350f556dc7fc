use vstd::prelude::*;

verus! {

/// Timer ticks per microsecond once the tick generator divides the 12 MHz
/// reference by 6.
pub const TICK_PER_MICROSEC: u64 = 2;

/// `a - b` wrapping around 2^64.
pub open spec fn wrapping_sub_u64(a: u64, b: u64) -> int {
    if a >= b {
        a - b
    } else {
        a - b + 0x1_0000_0000_0000_0000
    }
}

/// The 64-bit tick count from the low and high halves of the counter.
pub fn timer_ticks(low: u32, high: u32) -> (ticks: u64)
    ensures
        ticks == high as int * 0x1_0000_0000 + low as int,
{
    let t: u64 = (high as u64) << 32u64 | (low as u64);
    assert(t == high as int * 0x1_0000_0000 + low as int) by (bit_vector)
        requires
            t == (high as u64) << 32u64 | (low as u64),
    ;
    t
}

/// Whether a busy-wait of `micro_sec` microseconds that began at tick `start`
/// must keep waiting at tick `now`: fewer than the delay's ticks (two per
/// microsecond) have passed since `start`. The ticks passed are counted
/// around a wrap of the counter at 2^64.
pub fn delay_microsec(start: u64, now: u64, micro_sec: u64) -> (waiting: bool)
    requires
        micro_sec <= u64::MAX / 2,
    ensures
        waiting == (wrapping_sub_u64(now, start) < 2 * micro_sec),
{
    let delay_tick = 2 * micro_sec;
    now.wrapping_sub(start) < delay_tick
}

/// The same decision as `delay_microsec`, with the tick rate named.
pub fn delay_microsec_polling(start: u64, now: u64, micro_sec: u64) -> (waiting: bool)
    requires
        micro_sec <= u64::MAX / 2,
    ensures
        waiting == (wrapping_sub_u64(now, start) < TICK_PER_MICROSEC * micro_sec),
{
    let delay_tick = TICK_PER_MICROSEC * micro_sec;
    now.wrapping_sub(start) < delay_tick
}

/// The ALARM0 deadline for a delay of `micro_sec` microseconds from tick
/// `now`: the low 32 bits of the counter plus the delay, wrapping around 2^32.
/// The alarm compares 32 bits only, so the delay must stay below 2^32 - 1 ticks.
pub fn delay_microsec_interrupt(now: u64, micro_sec: u64) -> (deadline: u32)
    requires
        TICK_PER_MICROSEC * micro_sec < u32::MAX,
    ensures
        deadline == (now as int % 0x1_0000_0000 + TICK_PER_MICROSEC * micro_sec) % 0x1_0000_0000,
{
    let delay_ticks = TICK_PER_MICROSEC * micro_sec;
    let current_low = #[verifier::truncate] (now as u32);
    assert(current_low == now as int % 0x1_0000_0000) by (bit_vector)
        requires
            current_low == now as u32,
    ;
    current_low.wrapping_add(delay_ticks as u32)
}

/// Law (the wait lasts the delay): while the counter has not wrapped since
/// `start`, the busy-wait goes on exactly while fewer than the delay's ticks
/// have passed since `start`, from any start tick.
pub proof fn lemma_delay_waits_until_elapsed(start: u64, now: u64, micro_sec: u64)
    requires
        micro_sec <= u64::MAX / 2,
        start <= now,
    ensures
        (wrapping_sub_u64(now, start) < 2 * micro_sec) == (now - start < 2 * micro_sec),
{
}

/// Law (the wait survives a wrap): when the counter wrapped once since
/// `start`, the ticks passed are still counted, across the wrap.
pub proof fn lemma_delay_counts_across_wrap(start: u64, now: u64)
    requires
        now < start,
    ensures
        wrapping_sub_u64(now, start) == now + 0x1_0000_0000_0000_0000 - start,
{
}

/// Law (halves recombine): the tick count splits back into the two halves it
/// was read from.
pub proof fn lemma_ticks_split(low: u32, high: u32)
    ensures
        (high as int * 0x1_0000_0000 + low as int) % 0x1_0000_0000 == low,
        (high as int * 0x1_0000_0000 + low as int) / 0x1_0000_0000 == high,
{
    vstd::arithmetic::div_mod::lemma_fundamental_div_mod_converse(
        high as int * 0x1_0000_0000 + low as int,
        0x1_0000_0000,
        high as int,
        low as int,
    );
}

} // verus!
