use vstd::prelude::*;

verus! {

/// A row of the 16x2 character display.
#[derive(Debug, Clone, Copy, PartialEq, Eq, Structural)]
pub enum LcdRow {
    Row1,
    Row2,
}

/// A column of the 16x2 character display.
#[derive(Debug, Clone, Copy, PartialEq, Eq, Structural)]
pub enum LcdCol {
    Col1,
    Col2,
    Col3,
    Col4,
    Col5,
    Col6,
    Col7,
    Col8,
    Col9,
    Col10,
    Col11,
    Col12,
    Col13,
    Col14,
    Col15,
    Col16,
}

/// One operation on the I2C bus to the PCF8574 expander behind the display.
#[derive(Debug, Clone, Copy, PartialEq, Eq, Structural)]
pub enum LcdStep {
    /// Send one byte to the expander; its bits drive D7-D4, BL, EN, RW, RS.
    I2cWrite(u8),
    /// Busy-wait for the given number of CPU cycles.
    Delay(u32),
}

/// RS: the byte is character data rather than a command.
pub const LCD_RS: u8 = 1;
/// EN: the display latches D7-D4 on the falling edge of this line.
pub const LCD_EN: u8 = 4;
/// RW: read rather than write.
pub const LCD_RW: u8 = 2;
/// BL: the backlight.
pub const LCD_BACKLIGHT: u8 = 8;

/// The zero-based index of a row.
pub open spec fn row_index(r: LcdRow) -> u8 {
    match r {
        LcdRow::Row1 => 0,
        LcdRow::Row2 => 1,
    }
}

/// The zero-based index of a column.
pub open spec fn col_index(c: LcdCol) -> u8 {
    match c {
        LcdCol::Col1 => 0,
        LcdCol::Col2 => 1,
        LcdCol::Col3 => 2,
        LcdCol::Col4 => 3,
        LcdCol::Col5 => 4,
        LcdCol::Col6 => 5,
        LcdCol::Col7 => 6,
        LcdCol::Col8 => 7,
        LcdCol::Col9 => 8,
        LcdCol::Col10 => 9,
        LcdCol::Col11 => 10,
        LcdCol::Col12 => 11,
        LcdCol::Col13 => 12,
        LcdCol::Col14 => 13,
        LcdCol::Col15 => 14,
        LcdCol::Col16 => 15,
    }
}

/// The column with zero-based index `i` (the last column for larger indexes).
pub open spec fn col_of(i: int) -> LcdCol {
    if i == 0 {
        LcdCol::Col1
    } else if i == 1 {
        LcdCol::Col2
    } else if i == 2 {
        LcdCol::Col3
    } else if i == 3 {
        LcdCol::Col4
    } else if i == 4 {
        LcdCol::Col5
    } else if i == 5 {
        LcdCol::Col6
    } else if i == 6 {
        LcdCol::Col7
    } else if i == 7 {
        LcdCol::Col8
    } else if i == 8 {
        LcdCol::Col9
    } else if i == 9 {
        LcdCol::Col10
    } else if i == 10 {
        LcdCol::Col11
    } else if i == 11 {
        LcdCol::Col12
    } else if i == 12 {
        LcdCol::Col13
    } else if i == 13 {
        LcdCol::Col14
    } else if i == 14 {
        LcdCol::Col15
    } else {
        LcdCol::Col16
    }
}

impl LcdRow {
    /// The zero-based index of the row.
    pub fn index(&self) -> (i: u8)
        ensures
            i == row_index(*self),
    {
        match self {
            LcdRow::Row1 => 0,
            LcdRow::Row2 => 1,
        }
    }
}

impl LcdCol {
    /// The zero-based index of the column.
    pub fn index(&self) -> (i: u8)
        ensures
            i == col_index(*self),
    {
        match self {
            LcdCol::Col1 => 0,
            LcdCol::Col2 => 1,
            LcdCol::Col3 => 2,
            LcdCol::Col4 => 3,
            LcdCol::Col5 => 4,
            LcdCol::Col6 => 5,
            LcdCol::Col7 => 6,
            LcdCol::Col8 => 7,
            LcdCol::Col9 => 8,
            LcdCol::Col10 => 9,
            LcdCol::Col11 => 10,
            LcdCol::Col12 => 11,
            LcdCol::Col13 => 12,
            LcdCol::Col14 => 13,
            LcdCol::Col15 => 14,
            LcdCol::Col16 => 15,
        }
    }

    /// The column with zero-based index `i`.
    pub fn from_index(i: usize) -> (c: LcdCol)
        requires
            i < 16,
        ensures
            c == col_of(i as int),
            col_index(c) == i,
    {
        if i == 0 {
            LcdCol::Col1
        } else if i == 1 {
            LcdCol::Col2
        } else if i == 2 {
            LcdCol::Col3
        } else if i == 3 {
            LcdCol::Col4
        } else if i == 4 {
            LcdCol::Col5
        } else if i == 5 {
            LcdCol::Col6
        } else if i == 6 {
            LcdCol::Col7
        } else if i == 7 {
            LcdCol::Col8
        } else if i == 8 {
            LcdCol::Col9
        } else if i == 9 {
            LcdCol::Col10
        } else if i == 10 {
            LcdCol::Col11
        } else if i == 11 {
            LcdCol::Col12
        } else if i == 12 {
            LcdCol::Col13
        } else if i == 13 {
            LcdCol::Col14
        } else if i == 14 {
            LcdCol::Col15
        } else {
            LcdCol::Col16
        }
    }
}

/// The expander byte that puts `nibble` on D7-D4 with the backlight on and RS
/// telling data from command.
pub open spec fn nibble_output(nibble: u8, is_data: bool) -> u8 {
    ((nibble & 0x0F) << 4u8) | LCD_BACKLIGHT | (if is_data {
        LCD_RS
    } else {
        0u8
    })
}

/// The bus operations that hand one nibble to the display: set the lines,
/// raise EN, hold it about 1 us, lower it, then let the display settle about
/// 50 us.
pub open spec fn nibble_steps(nibble: u8, is_data: bool) -> Seq<LcdStep> {
    let out = nibble_output(nibble, is_data);
    seq![
        LcdStep::I2cWrite(out),
        LcdStep::I2cWrite(out | LCD_EN),
        LcdStep::Delay(150),
        LcdStep::I2cWrite(out),
        LcdStep::Delay(7_500),
    ]
}

/// The bus operations that hand a whole byte to the display, high nibble first.
pub open spec fn byte_steps(byte: u8, is_data: bool) -> Seq<LcdStep> {
    nibble_steps(byte >> 4u8, is_data) + nibble_steps(byte & 0x0F, is_data)
}

/// The Set DDRAM Address command for a cell: row 1 starts at 0x00, row 2 at 0x40.
pub open spec fn cursor_command(row: LcdRow, column: LcdCol) -> u8 {
    0x80u8 | (if row == LcdRow::Row1 {
        0x00u8
    } else {
        0x40u8
    }) | col_index(column)
}

/// The bus operations that write `byte` into a cell.
pub open spec fn write_at_steps(row: LcdRow, column: LcdCol, byte: u8) -> Seq<LcdStep> {
    byte_steps(cursor_command(row, column), false) + byte_steps(byte, true)
}

/// The bus operations of the power-up handshake: three 0x3 nibbles a few
/// milliseconds apart, 0x2 to enter 4-bit mode, then function set (0x28),
/// display off (0x08), clear (0x01, with time to finish), entry mode (0x06)
/// and display on (0x0C).
pub open spec fn startup_steps() -> Seq<LcdStep> {
    nibble_steps(0x03, false) + seq![LcdStep::Delay(750_000)] + nibble_steps(0x03, false) + seq![
        LcdStep::Delay(675_000),
    ] + nibble_steps(0x03, false) + seq![LcdStep::Delay(22_500)] + nibble_steps(0x02, false)
        + byte_steps(0x28, false) + byte_steps(0x08, false) + byte_steps(0x01, false) + seq![
        LcdStep::Delay(300_000),
    ] + byte_steps(0x06, false) + byte_steps(0x0c, false)
}

/// One backlight blink that checks the expander answers: off, wait, on, wait.
pub open spec fn blink_steps() -> Seq<LcdStep> {
    seq![
        LcdStep::I2cWrite(0x00),
        LcdStep::Delay(3_000_000),
        LcdStep::I2cWrite(0x08),
        LcdStep::Delay(3_000_000),
    ]
}

/// `k` backlight blinks in a row.
pub open spec fn blinks(k: nat) -> Seq<LcdStep>
    decreases k,
{
    if k == 0 {
        Seq::empty()
    } else {
        blinks((k - 1) as nat) + blink_steps()
    }
}

/// Everything sent once the I2C controller is set up: three backlight blinks,
/// a wait for the display to power up, then the startup handshake.
pub open spec fn init_steps() -> Seq<LcdStep> {
    blinks(3) + seq![LcdStep::Delay(7_500_000)] + startup_steps()
}

/// The data writes of the first `k` rows of a custom character pattern.
pub open spec fn rows_steps(rows: Seq<u8>, k: nat) -> Seq<LcdStep>
    decreases k,
{
    if k == 0 {
        Seq::empty()
    } else {
        rows_steps(rows, (k - 1) as nat) + byte_steps(rows[k - 1], true)
    }
}

/// The Set CGRAM Address command for a custom character slot.
pub open spec fn cgram_command(slot: u8) -> u8 {
    0x40u8 | ((slot & 0x07) << 3u8)
}

/// The bus operations that store an eight-row pattern in a custom character slot.
pub open spec fn custom_char_steps(slot: u8, rows: Seq<u8>) -> Seq<LcdStep> {
    byte_steps(cgram_command(slot), false) + rows_steps(rows, 8)
}

/// A 16x2 character display behind a PCF8574 I2C expander. The driver does not
/// touch the bus itself: it queues the bus operations, which the caller
/// performs in order.
pub struct Lcd {
    steps: Vec<LcdStep>,
}

impl Lcd {
    /// The queued bus operations, oldest first.
    pub closed spec fn pending(&self) -> Seq<LcdStep> {
        self.steps@
    }

    /// A display driver whose queue holds the power-up and startup sequence.
    pub fn init() -> (lcd: Lcd)
        ensures
            lcd.pending() == init_steps(),
    {
        let mut steps: Vec<LcdStep> = Vec::new();
        let mut k: usize = 0;
        assert(steps@ =~= blinks(0));
        while k < 3
            invariant
                k <= 3,
                steps@ == blinks(k as nat),
            decreases 3 - k,
        {
            steps.push(LcdStep::I2cWrite(0x00));
            steps.push(LcdStep::Delay(3_000_000));
            steps.push(LcdStep::I2cWrite(0x08));
            steps.push(LcdStep::Delay(3_000_000));
            assert(steps@ =~= blinks((k + 1) as nat));
            k += 1;
        }
        steps.push(LcdStep::Delay(7_500_000));
        Self::startup_sequence(&mut steps);
        let lcd = Lcd { steps };
        assert(lcd.pending() =~= init_steps());
        lcd
    }

    /// Hands the queued bus operations to the caller and empties the queue.
    pub fn take_steps(&mut self) -> (steps: Vec<LcdStep>)
        ensures
            steps@ == old(self).pending(),
            final(self).pending() == Seq::<LcdStep>::empty(),
    {
        let mut taken: Vec<LcdStep> = Vec::new();
        std::mem::swap(&mut taken, &mut self.steps);
        taken
    }

    /// Queues the writing of `byte` into the cell at `row`, `column`.
    pub fn write_byte_at(&mut self, row: LcdRow, column: LcdCol, byte: u8)
        ensures
            final(self).pending() == old(self).pending() + write_at_steps(row, column, byte),
    {
        Self::set_cursor(&mut self.steps, row, column);
        Self::lcd_write_byte(&mut self.steps, byte, true);
        assert(self.steps@ =~= old(self).steps@ + write_at_steps(row, column, byte));
    }

    /// Queues the storing of an eight-row pattern in custom character slot
    /// `slot`; writing byte `slot` into a cell then shows it.
    pub fn define_custom_char(&mut self, slot: u8, rows: [u8; 8])
        ensures
            final(self).pending() == old(self).pending() + custom_char_steps(slot, rows@),
    {
        let command = 0x40u8 | ((slot & 0x07) << 3u8);
        Self::lcd_write_byte(&mut self.steps, command, false);
        let mut i: usize = 0;
        assert(self.steps@ =~= old(self).steps@ + byte_steps(cgram_command(slot), false)
            + rows_steps(rows@, 0));
        while i < 8
            invariant
                i <= 8,
                self.steps@ == old(self).steps@ + byte_steps(cgram_command(slot), false) + rows_steps(
                    rows@,
                    i as nat,
                ),
            decreases 8 - i,
        {
            Self::lcd_write_byte(&mut self.steps, rows[i], true);
            assert(self.steps@ =~= old(self).steps@ + byte_steps(cgram_command(slot), false)
                + rows_steps(rows@, (i + 1) as nat));
            i += 1;
        }
        assert(self.steps@ =~= old(self).steps@ + custom_char_steps(slot, rows@));
    }

    /// Queues one nibble.
    fn lcd_write_nibble(out: &mut Vec<LcdStep>, nibble: u8, is_data: bool)
        ensures
            final(out)@ == old(out)@ + nibble_steps(nibble, is_data),
    {
        let rs = if is_data {
            LCD_RS
        } else {
            0
        };
        let output = ((nibble & 0b0000_1111) << 4u8) | LCD_BACKLIGHT | rs;
        out.push(LcdStep::I2cWrite(output));
        out.push(LcdStep::I2cWrite(output | LCD_EN));
        out.push(LcdStep::Delay(150));
        out.push(LcdStep::I2cWrite(output));
        out.push(LcdStep::Delay(7_500));
        assert(out@ =~= old(out)@ + nibble_steps(nibble, is_data));
    }

    /// Queues a whole byte, high nibble first.
    pub fn lcd_write_byte(out: &mut Vec<LcdStep>, byte: u8, is_data: bool)
        ensures
            final(out)@ == old(out)@ + byte_steps(byte, is_data),
    {
        Self::lcd_write_nibble(out, byte >> 4u8, is_data);
        Self::lcd_write_nibble(out, byte & 0b0000_1111, is_data);
        assert(out@ =~= old(out)@ + byte_steps(byte, is_data));
    }

    /// Queues the command that moves the cursor to `row`, `column`.
    pub fn set_cursor(out: &mut Vec<LcdStep>, row: LcdRow, column: LcdCol)
        ensures
            final(out)@ == old(out)@ + byte_steps(cursor_command(row, column), false),
    {
        let row_address: u8 = if row == LcdRow::Row1 {
            0x00
        } else {
            0x40
        };
        let byte_to_select_row = 0b1000_0000u8 | row_address | column.index();
        Self::lcd_write_byte(out, byte_to_select_row, false);
    }

    /// Queues the startup handshake.
    fn startup_sequence(out: &mut Vec<LcdStep>)
        ensures
            final(out)@ == old(out)@ + startup_steps(),
    {
        Self::lcd_write_nibble(out, 0x03, false);
        out.push(LcdStep::Delay(750_000));
        Self::lcd_write_nibble(out, 0x03, false);
        out.push(LcdStep::Delay(675_000));
        Self::lcd_write_nibble(out, 0x03, false);
        out.push(LcdStep::Delay(22_500));
        Self::lcd_write_nibble(out, 0x02, false);
        Self::lcd_write_byte(out, 0x28, false);
        Self::lcd_write_byte(out, 0x08, false);
        Self::lcd_write_byte(out, 0x01, false);
        out.push(LcdStep::Delay(300_000));
        Self::lcd_write_byte(out, 0x06, false);
        Self::lcd_write_byte(out, 0x0c, false);
        assert(out@ =~= old(out)@ + startup_steps());
    }
}

/// The command byte that two nibble writes `hi` and `lo` hand to the display.
pub open spec fn command_of_nibbles(hi: u8, lo: u8) -> u8 {
    (hi & 0xF0) | (lo >> 4u8)
}

/// Law (the display is on after start-up): the last byte the power-up and
/// startup sequence sends is a command (RS clear on both nibbles) of the
/// Display Control family (0x08 to 0x0F) with the display bit (0x04) set, so
/// the characters written afterwards are shown.
pub proof fn lemma_init_ends_with_display_on()
    ensures
        init_steps().len() >= 10,
        ({
            let s = init_steps();
            let n = s.len() as int;
            s[n - 10] matches LcdStep::I2cWrite(hi) && s[n - 5] matches LcdStep::I2cWrite(lo) && hi
                & LCD_RS == 0 && lo & LCD_RS == 0 && command_of_nibbles(hi, lo) & 0xF8 == 0x08
                && command_of_nibbles(hi, lo) & 0x04 == 0x04
        }),
{
    let s = init_steps();
    let tail = byte_steps(0x0cu8, false);
    let head = blinks(3) + seq![LcdStep::Delay(7_500_000)] + (nibble_steps(0x03, false) + seq![
        LcdStep::Delay(750_000),
    ] + nibble_steps(0x03, false) + seq![LcdStep::Delay(675_000)] + nibble_steps(0x03, false)
        + seq![LcdStep::Delay(22_500)] + nibble_steps(0x02, false) + byte_steps(0x28, false)
        + byte_steps(0x08, false) + byte_steps(0x01, false) + seq![LcdStep::Delay(300_000)]
        + byte_steps(0x06, false));
    assert(s =~= head + tail);
    let n = s.len() as int;
    assert(tail.len() == 10);
    assert(s[n - 10] == tail[0]);
    assert(s[n - 5] == tail[5]);
    assert(nibble_output(0x0cu8 >> 4u8, false) == 0x08u8) by (bit_vector);
    assert(nibble_output(0x0cu8 & 0x0F, false) == 0xC8u8) by (bit_vector);
    assert(command_of_nibbles(0x08u8, 0xC8u8) & 0xF8 == 0x08 && command_of_nibbles(0x08u8, 0xC8u8)
        & 0x04 == 0x04 && 0x08u8 & LCD_RS == 0 && 0xC8u8 & LCD_RS == 0) by (bit_vector);
}

} // verus!
