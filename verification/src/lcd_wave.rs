use vstd::prelude::*;

use crate::lcd::{col_of, custom_char_steps, write_at_steps, Lcd, LcdCol, LcdRow, LcdStep};

verus! {

/// The pattern of custom character `h`: a five-pixel line on row `h`, the
/// other rows blank.
pub open spec fn wave_glyph(h: int) -> Seq<u8> {
    Seq::new(8, |i: int| if i == h { 0b11111u8 } else { 0u8 })
}

/// The bus operations that store the first `k` wave glyphs.
pub open spec fn glyphs_steps(k: nat) -> Seq<LcdStep>
    decreases k,
{
    if k == 0 {
        Seq::empty()
    } else {
        glyphs_steps((k - 1) as nat) + custom_char_steps((k - 1) as u8, wave_glyph(k - 1))
    }
}

/// Stores eight custom characters, each a horizontal line at a different
/// height, in slots 0 to 7.
pub fn create_wave_glyphs(lcd: &mut Lcd)
    ensures
        final(lcd).pending() == old(lcd).pending() + glyphs_steps(8),
{
    let mut height: usize = 0;
    assert(lcd.pending() =~= old(lcd).pending() + glyphs_steps(0));
    while height < 8
        invariant
            height <= 8,
            lcd.pending() == old(lcd).pending() + glyphs_steps(height as nat),
        decreases 8 - height,
    {
        let mut pixels = [0u8; 8];
        pixels[height] = 0b11111;
        assert(pixels@ =~= wave_glyph(height as int));
        lcd.define_custom_char(height as u8, pixels);
        assert(lcd.pending() =~= old(lcd).pending() + glyphs_steps((height + 1) as nat));
        height += 1;
    }
}

/// One period of a sine wave as heights 0 to 15 over the two rows of eight
/// pixels, sampled 32 times.
pub open spec fn sine_table() -> Seq<u8> {
    seq![
        8u8, 9, 10, 12, 13, 14, 14, 15, 15, 15, 14, 14, 13, 12, 10, 9, 8, 6, 5, 3, 2, 1, 1, 0, 0, 0,
        1, 1, 2, 3, 5, 6,
    ]
}

/// The bus operations that redraw column `c` for animation frame `frame`:
/// blank both cells, then show the glyph for the wave height in the upper
/// row (heights 0 to 7) or the lower row (8 to 15).
pub open spec fn column_steps(frame: int, c: int, column: LcdCol) -> Seq<LcdStep> {
    let height = sine_table()[(c * 2 + frame) % 32];
    write_at_steps(LcdRow::Row1, column, 32) + write_at_steps(LcdRow::Row2, column, 32) + if height
        < 8 {
        write_at_steps(LcdRow::Row1, column, height)
    } else {
        write_at_steps(LcdRow::Row2, column, (height - 8) as u8)
    }
}

/// The bus operations that redraw the first `k` columns for frame `frame`.
pub open spec fn frame_steps(frame: int, k: nat) -> Seq<LcdStep>
    decreases k,
{
    if k == 0 {
        Seq::empty()
    } else {
        frame_steps(frame, (k - 1) as nat) + column_steps(frame, k - 1, col_of(k - 1))
    }
}

/// Redraws one column of the wave.
fn draw_column(lcd: &mut Lcd, sine: &[u8; 32], frame: usize, column_index: usize)
    requires
        column_index < 16,
        frame + 30 <= usize::MAX,
        sine@ == sine_table(),
    ensures
        final(lcd).pending() == old(lcd).pending() + column_steps(
            frame as int,
            column_index as int,
            col_of(column_index as int),
        ),
{
    let column = LcdCol::from_index(column_index);
    lcd.write_byte_at(LcdRow::Row1, column, 32u8);
    lcd.write_byte_at(LcdRow::Row2, column, 32u8);
    let phase = (column_index * 2 + frame) % 32;
    let height = sine[phase];
    if height < 8 {
        lcd.write_byte_at(LcdRow::Row1, column, height);
    } else {
        lcd.write_byte_at(LcdRow::Row2, column, height - 8);
    }
    assert(lcd.pending() =~= old(lcd).pending() + column_steps(
        frame as int,
        column_index as int,
        column,
    ));
}

/// Draws frame `frame` of a sine wave moving across the 16 columns.
pub fn animate_sine_wave(lcd: &mut Lcd, frame: usize)
    requires
        frame + 30 <= usize::MAX,
    ensures
        final(lcd).pending() == old(lcd).pending() + frame_steps(frame as int, 16),
{
    let sine: [u8; 32] = [
        8, 9, 10, 12, 13, 14, 14, 15, 15, 15, 14, 14, 13, 12, 10, 9, 8, 6, 5, 3, 2, 1, 1, 0, 0, 0,
        1, 1, 2, 3, 5, 6,
    ];
    assert(sine@ =~= sine_table());
    let mut column_index: usize = 0;
    assert(lcd.pending() =~= old(lcd).pending() + frame_steps(frame as int, 0));
    while column_index < 16
        invariant
            column_index <= 16,
            frame + 30 <= usize::MAX,
            sine@ == sine_table(),
            lcd.pending() == old(lcd).pending() + frame_steps(frame as int, column_index as nat),
        decreases 16 - column_index,
    {
        draw_column(lcd, &sine, frame, column_index);
        assert(lcd.pending() =~= old(lcd).pending() + frame_steps(
            frame as int,
            (column_index + 1) as nat,
        ));
        column_index += 1;
    }
}

/// The bus operations that show wave height `h` (0 to 15) in `column`: the
/// glyph with the line at row `h % 8` of its cell, in the upper cell for
/// heights below 8 and in the lower cell otherwise.
pub open spec fn show_height(h: u8, column: LcdCol) -> Seq<LcdStep> {
    if h < 8 {
        write_at_steps(LcdRow::Row1, column, h)
    } else {
        write_at_steps(LcdRow::Row2, column, (h - 8) as u8)
    }
}

/// Law (each column shows its sample of the period): in frame `frame`,
/// column `c` is blanked in both rows and then shows the sample of the sine
/// period at phase `2c + frame`, taken modulo the length of the period table,
/// so the wave moves one sample per frame and repeats after a whole period.
pub proof fn lemma_column_shows_phase(frame: int, c: int)
    requires
        0 <= frame,
        0 <= c < 16,
    ensures
        sine_table().len() == 32,
        column_steps(frame, c, col_of(c)) == write_at_steps(LcdRow::Row1, col_of(c), 32)
            + write_at_steps(LcdRow::Row2, col_of(c), 32) + show_height(
            sine_table()[(2 * c + frame) % (sine_table().len() as int)],
            col_of(c),
        ),
{
}

/// Law (a frame shows the whole period): in frame 0 the sixteen columns show
/// the sixteen even phases of the 32-sample period, phase `p` in column
/// `p / 2`, from the crest to the trough and back.
pub proof fn lemma_first_frame_covers_period(p: int)
    requires
        0 <= p < 32,
        p % 2 == 0,
    ensures
        column_steps(0, p / 2, col_of(p / 2)) == write_at_steps(LcdRow::Row1, col_of(p / 2), 32)
            + write_at_steps(LcdRow::Row2, col_of(p / 2), 32) + show_height(
            sine_table()[p],
            col_of(p / 2),
        ),
{
    lemma_column_shows_phase(0, p / 2);
}

} // verus!
