use vstd::prelude::*;

verus! {

/// A register value with the bits under `mask` replaced by `bits` and every
/// other bit kept: the read-modify-write step of setting a register field.
pub fn replace_bits(reg: u32, mask: u32, bits: u32) -> (r: u32)
    requires
        bits & !mask == 0,
    ensures
        r & mask == bits,
        r & !mask == reg & !mask,
        r == (reg & !mask) | bits,
{
    let r = (reg & !mask) | bits;
    assert(r & mask == bits && r & !mask == reg & !mask) by (bit_vector)
        requires
            r == (reg & !mask) | bits,
            bits & !mask == 0,
    ;
    r
}

/// The SPI address byte that reads register `reg` of an MFRC522: bit 7 set
/// for a read, the register number in bits 6 to 1.
pub fn rc522_read_command(reg: u8) -> (cmd: u8)
    ensures
        cmd == 0x80u8 | (reg << 1u8),
{
    let cmd = (1u8 << 7u8) | (reg << 1u8);
    assert(cmd == 0x80u8 | (reg << 1u8)) by (bit_vector)
        requires
            cmd == (1u8 << 7u8) | (reg << 1u8),
    ;
    cmd
}

/// The SPI address byte that writes register `reg` of an MFRC522: bit 7
/// clear, the register number in bits 6 to 1.
pub fn rc522_write_command(reg: u8) -> (cmd: u8)
    ensures
        cmd == (reg << 1u8),
{
    let cmd = (0u8 << 7u8) | (reg << 1u8);
    assert(cmd == (reg << 1u8)) by (bit_vector)
        requires
            cmd == (0u8 << 7u8) | (reg << 1u8),
    ;
    cmd
}

/// Law (address layout): for the 64 registers of the MFRC522 the address byte
/// is twice the register number, plus 128 for a read.
pub proof fn lemma_rc522_address(reg: u8)
    requires
        reg < 64,
    ensures
        (0x80u8 | (reg << 1u8)) == 128 + 2 * reg,
        (reg << 1u8) == 2 * reg,
{
    assert((0x80u8 | (reg << 1u8)) == 128 + 2 * reg && (reg << 1u8) == 2 * reg) by (bit_vector)
        requires
            reg < 64,
    ;
}

/// The frequency counter's result register in kHz: the low 5 bits are a
/// fraction and are dropped.
pub fn fc0_result_khz(raw: u32) -> (khz: u32)
    ensures
        khz == raw / 32,
{
    let khz = raw >> 5u32;
    assert(khz == raw / 32) by (bit_vector)
        requires
            khz == raw >> 5u32,
    ;
    khz
}

/// Whether a measured clock is within 1% (rounded down) of the expected one.
pub fn clock_within_tolerance(measured_khz: u32, expected_khz: u32) -> (ok: bool)
    ensures
        ok == (if measured_khz >= expected_khz {
            measured_khz - expected_khz
        } else {
            expected_khz - measured_khz
        } <= expected_khz / 100),
{
    let tolerance_khz = expected_khz / 100;
    let diff = if measured_khz >= expected_khz {
        measured_khz - expected_khz
    } else {
        expected_khz - measured_khz
    };
    diff <= tolerance_khz
}


/// Reference divider of PLL_SYS: the 12 MHz crystal is used undivided.
pub const PLL_REFDIV: u32 = 1;
/// Feedback divider of PLL_SYS: VCO = 12 MHz x 125 = 1500 MHz.
pub const PLL_FBDIV: u32 = 125;
/// First post divider of PLL_SYS.
pub const PLL_POSTDIV1: u32 = 5;
/// Second post divider of PLL_SYS.
pub const PLL_POSTDIV2: u32 = 1;

/// The PLL output in kHz for a reference of `ref_khz`.
pub open spec fn pll_output_khz(ref_khz: int, refdiv: int, fbdiv: int, postdiv1: int, postdiv2: int) -> int {
    ref_khz / refdiv * fbdiv / postdiv1 / postdiv2
}

/// Law (the PLL settings give 300 MHz): from the 12 MHz crystal, the chosen
/// dividers give a 1500 MHz VCO and a 300 MHz output, the frequency the clock
/// check expects.
pub proof fn lemma_pll_settings_give_300mhz()
    ensures
        12_000int / (PLL_REFDIV as int) * (PLL_FBDIV as int) == 1_500_000,
        pll_output_khz(
            12_000,
            PLL_REFDIV as int,
            PLL_FBDIV as int,
            PLL_POSTDIV1 as int,
            PLL_POSTDIV2 as int,
        ) == 300_000,
{
}

/// The field values used below lie inside their fields.
proof fn lemma_field_values_fit()
    by (bit_vector)
    ensures
        1u32 & !0x3fu32 == 0,
        125u32 & !0xfffu32 == 0,
        0x50000u32 & !0x70000u32 == 0,
        0x1000u32 & !0x7000u32 == 0,
        0x40u32 & !0x1c0u32 == 0,
        0x40u32 & !0x1ccu32 == 0,
{
}

/// PLL_SYS CS with REFDIV (bits 5 to 0) set to `PLL_REFDIV`, the other bits kept.
pub fn pll_cs_with_refdiv(cs: u32) -> (r: u32)
    ensures
        r & 0x3f == PLL_REFDIV,
        r & !0x3fu32 == cs & !0x3fu32,
{
    proof {
        lemma_field_values_fit();
    }
    replace_bits(cs, 0x3f, PLL_REFDIV)
}

/// PLL_SYS FBDIV_INT with the divider (bits 11 to 0) set to `PLL_FBDIV`, the
/// other bits kept.
pub fn pll_fbdiv_with_divider(fbdiv: u32) -> (r: u32)
    ensures
        r & 0xfff == PLL_FBDIV,
        r & !0xfffu32 == fbdiv & !0xfffu32,
{
    proof {
        lemma_field_values_fit();
    }
    replace_bits(fbdiv, 0xfff, PLL_FBDIV)
}

/// PLL_SYS PRIM with POSTDIV1 (bits 18 to 16) set to `PLL_POSTDIV1` and
/// POSTDIV2 (bits 14 to 12) set to `PLL_POSTDIV2`, the other bits kept.
pub fn pll_prim_with_postdivs(prim: u32) -> (r: u32)
    ensures
        (r >> 16u32) & 7 == PLL_POSTDIV1,
        (r >> 12u32) & 7 == PLL_POSTDIV2,
        r & !0x77000u32 == prim & !0x77000u32,
{
    proof {
        lemma_field_values_fit();
    }
    let r1 = replace_bits(prim, 0x70000, 0x50000);
    let r = replace_bits(r1, 0x7000, 0x1000);
    assert((r >> 16u32) & 7 == 5 && (r >> 12u32) & 7 == 1 && r & !0x77000u32 == prim & !0x77000u32)
        by (bit_vector)
        requires
            r1 & 0x70000 == 0x50000,
            r1 & !0x70000u32 == prim & !0x70000u32,
            r & 0x7000 == 0x1000,
            r & !0x7000u32 == r1 & !0x7000u32,
    ;
    r
}

/// A GPIO CTRL register with FUNCSEL (bits 4 to 0) set to `function`, the
/// other bits kept.
pub fn gpio_ctrl_with_funcsel(ctrl: u32, function: u32) -> (r: u32)
    requires
        function < 32,
    ensures
        r & 0x1f == function,
        r & !0x1fu32 == ctrl & !0x1fu32,
{
    assert(function & !0x1fu32 == 0) by (bit_vector)
        requires
            function < 32,
    ;
    replace_bits(ctrl, 0x1f, function)
}

/// A GPIO pad register set up for a driven output: ISO (bit 8) and OD (bit 7)
/// cleared, IE (bit 6) set, the other bits kept.
pub fn pad_for_output(pad: u32) -> (r: u32)
    ensures
        (r >> 8u32) & 1 == 0,
        (r >> 7u32) & 1 == 0,
        (r >> 6u32) & 1 == 1,
        r & !0x1c0u32 == pad & !0x1c0u32,
{
    proof {
        lemma_field_values_fit();
    }
    let r = replace_bits(pad, 0x1c0, 0x40);
    assert((r >> 8u32) & 1 == 0 && (r >> 7u32) & 1 == 0 && (r >> 6u32) & 1 == 1) by (bit_vector)
        requires
            r & 0x1c0 == 0x40,
    ;
    r
}

/// A GPIO pad register set up for I2C: ISO (bit 8), OD (bit 7), the pull-up
/// (bit 3) and the pull-down (bit 2) cleared, IE (bit 6) set, the other bits
/// kept.
pub fn pad_for_i2c(pad: u32) -> (r: u32)
    ensures
        (r >> 8u32) & 1 == 0,
        (r >> 7u32) & 1 == 0,
        (r >> 6u32) & 1 == 1,
        (r >> 3u32) & 1 == 0,
        (r >> 2u32) & 1 == 0,
        r & !0x1ccu32 == pad & !0x1ccu32,
{
    proof {
        lemma_field_values_fit();
    }
    let r = replace_bits(pad, 0x1cc, 0x40);
    assert((r >> 8u32) & 1 == 0 && (r >> 7u32) & 1 == 0 && (r >> 6u32) & 1 == 1 && (r >> 3u32) & 1
        == 0 && (r >> 2u32) & 1 == 0) by (bit_vector)
        requires
            r & 0x1cc == 0x40,
    ;
    r
}

/// IC_CON of the I2C block set up as a controller: MASTER_MODE (bit 0) set,
/// 2 (fast mode) or-ed into the SPEED field (bits 2 to 1, so bit 2 set),
/// RESTART_EN (bit 5) and SLAVE_DISABLE (bit 6) set; no bit cleared.
pub fn ic_con_controller(con: u32) -> (r: u32)
    ensures
        r == con | 0x65,
        r & 1 == 1,
        (r >> 2u32) & 1 == 1,
        (r >> 5u32) & 1 == 1,
        (r >> 6u32) & 1 == 1,
        r & !0x65u32 == con & !0x65u32,
{
    let r = con | (1 << 0) | (2 << 1) | (1 << 5) | (1 << 6);
    assert(r == con | 0x65 && r & 1 == 1 && (r >> 2u32) & 1 == 1 && (r >> 5u32) & 1 == 1 && (r
        >> 6u32) & 1 == 1 && r & !0x65u32 == con & !0x65u32) by (bit_vector)
        requires
            r == con | (1u32 << 0u32) | (2u32 << 1u32) | (1u32 << 5u32) | (1u32 << 6u32),
    ;
    r
}


/// How many status polls a wait for a block to leave reset may take.
pub const RESET_WAIT_POLLS: u32 = 1_000_000;

/// One step of the wait for a block to leave reset: with `remaining` polls
/// left, the count after this poll, or `None` when the wait has run out.
pub fn reset_wait_step(remaining: u32) -> (next: Option<u32>)
    ensures
        remaining > 1 ==> next == Some((remaining - 1) as u32),
        remaining <= 1 ==> next is None,
{
    if remaining <= 1 {
        None
    } else {
        Some(remaining - 1)
    }
}

} // verus!
