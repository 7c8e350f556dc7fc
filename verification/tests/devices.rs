use low_level_lab::lcd::{Lcd, LcdCol, LcdRow, LcdStep};
use low_level_lab::lcd_wave::{animate_sine_wave, create_wave_glyphs};
use low_level_lab::led::{blink_once, ConsoleLed, Led, MemoryLed};
use low_level_lab::pico_regs::{
    clock_within_tolerance, fc0_result_khz, gpio_ctrl_with_funcsel, ic_con_controller, pad_for_i2c,
    pad_for_output, pll_cs_with_refdiv, pll_fbdiv_with_divider, pll_prim_with_postdivs,
    rc522_read_command, rc522_write_command, replace_bits, reset_wait_step, RESET_WAIT_POLLS,
};
use low_level_lab::pico_timer::{delay_microsec, delay_microsec_interrupt, delay_microsec_polling, timer_ticks};
use low_level_lab::raspbot::{move_bot_left, move_bot_right, stop_all_wheels, wheel_payload, MotorDirection, MotorId, MotorInfo};

fn nibble(out: u8) -> Vec<LcdStep> {
    vec![
        LcdStep::I2cWrite(out),
        LcdStep::I2cWrite(out | 4),
        LcdStep::Delay(150),
        LcdStep::I2cWrite(out),
        LcdStep::Delay(7500),
    ]
}

#[test]
fn lcd_write_byte_at_sequence() {
    let mut lcd = Lcd::init();
    let init = lcd.take_steps();
    assert_eq!(init.len(), 87);
    assert_eq!(init[0], LcdStep::I2cWrite(0x00));
    assert_eq!(init[12], LcdStep::Delay(7_500_000));
    assert_eq!(init[13], LcdStep::I2cWrite(0x38));
    assert!(lcd.take_steps().is_empty());

    lcd.write_byte_at(LcdRow::Row1, LcdCol::Col1, b'A');
    let steps = lcd.take_steps();
    let mut expected = Vec::new();
    expected.extend(nibble(0x88));
    expected.extend(nibble(0x08));
    expected.extend(nibble(0x49));
    expected.extend(nibble(0x19));
    assert_eq!(steps, expected);
}

#[test]
fn lcd_second_row_address() {
    let mut lcd = Lcd::init();
    lcd.take_steps();
    lcd.write_byte_at(LcdRow::Row2, LcdCol::Col16, 0);
    let steps = lcd.take_steps();
    // 0xCF = set DDRAM address 0x4F
    assert_eq!(steps[0], LcdStep::I2cWrite(0xC8));
    assert_eq!(steps[5], LcdStep::I2cWrite(0xF8));
    assert_eq!(steps[10], LcdStep::I2cWrite(0x09));
    assert_eq!(steps[15], LcdStep::I2cWrite(0x09));
    assert_eq!(LcdCol::from_index(15), LcdCol::Col16);
    assert_eq!(LcdCol::Col16.index(), 15);
    assert_eq!(LcdRow::Row2.index(), 1);
}

#[test]
fn wave_glyphs_and_animation() {
    let mut lcd = Lcd::init();
    lcd.take_steps();
    create_wave_glyphs(&mut lcd);
    let steps = lcd.take_steps();
    assert_eq!(steps.len(), 8 * 90);
    // slot 2: Set CGRAM address 0x50, then rows 0, 0, 0x1F, 0, ...
    assert_eq!(steps[180], LcdStep::I2cWrite(0x58));
    assert_eq!(steps[185], LcdStep::I2cWrite(0x08));
    assert_eq!(steps[190 + 20], LcdStep::I2cWrite(0x19));
    assert_eq!(steps[190 + 25], LcdStep::I2cWrite(0xF9));

    animate_sine_wave(&mut lcd, 0);
    let steps = lcd.take_steps();
    assert_eq!(steps.len(), 16 * 60);
    // column 1, phase 0: height 8 goes to row 2 as glyph 0 (cursor 0xC0)
    assert_eq!(steps[40], LcdStep::I2cWrite(0xC8));
    assert_eq!(steps[50], LcdStep::I2cWrite(0x09));
    assert_eq!(steps[55], LcdStep::I2cWrite(0x09));
    // column 2, phase 2: height 10 goes to row 2 as glyph 2 (cursor 0xC1)
    assert_eq!(steps[60 + 40 + 5], LcdStep::I2cWrite(0x18));
    assert_eq!(steps[60 + 55], LcdStep::I2cWrite(0x29));
}

#[test]
fn timer_arithmetic() {
    assert_eq!(timer_ticks(5, 1), (1u64 << 32) + 5);
    assert_eq!(timer_ticks(u32::MAX, u32::MAX), u64::MAX);
    assert!(delay_microsec(100, 110, 10));
    assert!(!delay_microsec(100, 120, 10));
    assert!(!delay_microsec(100, 150, 10));
    // a start right after the timer reset still waits the whole delay
    assert!(delay_microsec(0, 0, 1));
    assert!(delay_microsec(0, 5, 10));
    assert!(!delay_microsec(0, 20, 10));
    // ticks are counted across a wrap of the counter
    assert!(delay_microsec(u64::MAX - 4, 3, 10));
    assert!(!delay_microsec(u64::MAX - 4, 15, 10));
    assert!(delay_microsec_polling(1000, 1999, 500));
    assert!(!delay_microsec_polling(1000, 2000, 500));
    assert_eq!(delay_microsec_interrupt(0x1_0000_0005, 10), 25);
    assert_eq!(delay_microsec_interrupt(0xFFFF_FFF0, 10), 4);
    assert_eq!(delay_microsec_interrupt(7, 1_000_000), 2_000_007);
}

#[test]
fn leds_blink() {
    let mut c = ConsoleLed { on: false };
    assert_eq!(blink_once(&mut c), (true, false));
    assert!(!c.is_on());
    let mut m = MemoryLed { on: false, toggle_count: 0 };
    assert_eq!(blink_once(&mut m), (true, false));
    assert_eq!(m.toggle_count, 2);
    m.turn_off();
    assert_eq!(m.toggle_count, 2);
    m.turn_on();
    m.turn_on();
    assert_eq!(m.toggle_count, 3);
    assert!(m.is_on());
}

#[test]
fn bot_commands() {
    let info = MotorInfo { id: MotorId::Two, direction: MotorDirection::Backward, speed: 200 };
    assert_eq!(wheel_payload(&info), [2, 1, 200]);
    let right = move_bot_right(255);
    assert_eq!(
        right.iter().map(wheel_payload).collect::<Vec<_>>(),
        vec![[0, 0, 255], [3, 0, 255], [1, 1, 255], [2, 1, 255]]
    );
    let left = move_bot_left(9);
    assert_eq!(
        left.iter().map(wheel_payload).collect::<Vec<_>>(),
        vec![[0, 1, 9], [3, 1, 9], [1, 0, 9], [2, 0, 9]]
    );
    let stop = stop_all_wheels();
    assert_eq!(
        stop.iter().map(wheel_payload).collect::<Vec<_>>(),
        vec![[0, 1, 0], [1, 1, 0], [2, 1, 0], [3, 1, 0]]
    );
}

#[test]
fn register_values() {
    assert_eq!(rc522_read_command(0x37), 0xEE);
    assert_eq!(rc522_write_command(0x37), 0x6E);
    assert_eq!(rc522_read_command(0x01), 0x82);
    assert_eq!(rc522_write_command(0x80), 0x00);
    assert_eq!(fc0_result_khz(64), 2);
    assert_eq!(fc0_result_khz(300_000 * 32 + 31), 300_000);
    assert!(clock_within_tolerance(300_000, 300_000));
    assert!(clock_within_tolerance(303_000, 300_000));
    assert!(clock_within_tolerance(297_000, 300_000));
    assert!(!clock_within_tolerance(303_001, 300_000));
    assert!(!clock_within_tolerance(296_999, 300_000));
}

#[test]
fn register_fields() {
    // FBDIV = 125 in the low 12 bits, upper bits kept.
    assert_eq!(replace_bits(0xABCD_E123, (1 << 12) - 1, 125), 0xABCD_E07D);
    // POSTDIV1 = 5 in bits 18..16.
    assert_eq!(replace_bits(0xFFFF_FFFF, 0b111 << 16, 0b101 << 16), 0xFFFD_FFFF);
    // Clearing a reset bit.
    assert_eq!(replace_bits(0x0000_4020, 1 << 14, 0), 0x0000_0020);
    // Setting bit 0 and bit 5 together.
    assert_eq!(replace_bits(0, 0b100001, 0b100001), 0b100001);
}

#[test]
fn pll_and_pad_fields() {
    assert_eq!(pll_cs_with_refdiv(0x8000_003F), 0x8000_0001);
    assert_eq!(pll_fbdiv_with_divider(0xFFFF_F000), 0xFFFF_F07D);
    assert_eq!(pll_prim_with_postdivs(0), 0x0005_1000);
    assert_eq!(pll_prim_with_postdivs(0xFFFF_FFFF), 0xFFFD_9FFF);
    assert_eq!(gpio_ctrl_with_funcsel(0x0000_001F, 5), 0x0000_0005);
    assert_eq!(pad_for_output(0x0000_0196), 0x0000_0056);
    assert_eq!(pad_for_i2c(0x0000_01CE), 0x0000_0042);
    assert_eq!(ic_con_controller(0), 0x65);
}

#[test]
fn reset_wait_runs_out() {
    assert_eq!(reset_wait_step(RESET_WAIT_POLLS), Some(999_999));
    assert_eq!(reset_wait_step(2), Some(1));
    assert_eq!(reset_wait_step(1), None);
    assert_eq!(reset_wait_step(0), None);
    let mut left = 5u32;
    let mut polls = 0;
    while let Some(next) = reset_wait_step(left) {
        left = next;
        polls += 1;
    }
    assert_eq!(polls, 4);
}
