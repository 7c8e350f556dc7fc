//! Verified building blocks of a collection of low-level labs: a byte ring
//! buffer and LD2450 radar frame handling, a bit writer, an HTTP request-line
//! parser, HD44780 LCD bus sequences and timer arithmetic for the RP2350.

pub mod ring_buffer;
pub mod frame_parser;
pub mod target;
pub mod ld2450;
pub mod radar_view;
pub mod bit_writer;
pub mod bit_reader;
pub mod http_request;
pub mod text;
pub mod decimal;
pub mod task_rules;
pub mod http_response;
pub mod lcd;
pub mod lcd_wave;
pub mod pico_timer;
pub mod led;
pub mod raspbot;
pub mod pico_regs;

pub use ring_buffer::RingBuffer;
pub use frame_parser::{Parser, ParserState};
pub use target::{process_data, TargetInfo};
pub use ld2450::{Ld2450, SensorError, SensorInfo, UartRead};
