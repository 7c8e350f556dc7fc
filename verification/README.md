# low_level_lab

Verified building blocks of a set of embedded and networking labs, written in
Verus.

- `src/` is the library. Every function there carries a `requires`/`ensures`
  contract that Verus proves, except the few `external_body` wrappers around
  std calls, whose contracts are trusted; the public `lemma_*` proof functions
  state laws that span several calls (FIFO order of the ring buffer, one report per
  radar frame, bit placement of the bit writer, and so on).
  - `ring_buffer`, `frame_parser`, `target`, `ld2450`, `radar_view`: the
    LD2450 radar receive path and the screen geometry of the radar view.
  - `bit_writer`, `bit_reader`: packing values of a few bits into bytes.
  - `http_request`, `http_response`, `text`, `decimal`, `task_rules`: request
    line parsing, response framing, word counting and the task service's
    validation rules.
  - `lcd`, `lcd_wave`, `pico_timer`, `pico_regs`, `led`, `raspbot`: the bus
    sequences, register values and timer arithmetic of the RP2350 and
    Raspberry Pi labs, computed as plain values.
- `app/` is the unverified shell: `main`, sockets and files, memory-mapped
  registers, I2C and serial devices, drawing. It performs what the library
  computes.
- `tests/` runs the library on concrete inputs.
