use low_level_lab::ld2450::{Ld2450, SensorError, UartRead};
use low_level_lab::radar_view::{
    advance_sweep, erase_origin, is_unused_slot, sweep_endpoint, target_marker_segments,
    target_to_point,
};
use low_level_lab::{process_data, Parser, ParserState, RingBuffer, TargetInfo};

const FRAME: [u8; 30] = [
    0xAA, 0xFF, 0x03, 0x00, 0x0E, 0x03, 0xB1, 0x86, 0x10, 0x00, 0x40, 0x01, 0x00, 0x00, 0x00,
    0x00, 0x00, 0x00, 0x00, 0x00, 0x00, 0x00, 0x00, 0x00, 0x00, 0x00, 0x00, 0x00, 0x55, 0xCC,
];

#[test]
fn ring_buffer_is_fifo() {
    let mut rb = RingBuffer::<4>::init();
    assert!(rb.is_empty());
    assert!(rb.push(1));
    assert!(rb.push(2));
    assert!(rb.push(3));
    assert_eq!(rb.pop(), Some(1));
    assert!(rb.push(4));
    assert!(rb.push(5));
    assert_eq!(rb.current_len(), 4);
    assert_eq!(rb.pop(), Some(2));
    assert_eq!(rb.pop(), Some(3));
    assert_eq!(rb.pop(), Some(4));
    assert_eq!(rb.pop(), Some(5));
    assert_eq!(rb.pop(), None);
}

#[test]
fn ring_buffer_refuses_when_full() {
    let mut rb = RingBuffer::<2>::init();
    assert!(rb.push(7));
    assert!(rb.push(8));
    assert!(!rb.push(9));
    assert_eq!(rb.current_len(), 2);
    assert_eq!(rb.size(), 2);
    assert_eq!(rb.pop(), Some(7));
    assert_eq!(rb.pop(), Some(8));
}

#[test]
fn ring_buffer_reset_empties() {
    let mut rb = RingBuffer::<3>::init();
    rb.push(1);
    rb.push(2);
    rb.reset();
    assert!(rb.is_empty());
    assert_eq!(rb.pop(), None);
    assert!(rb.push(6));
    assert_eq!(rb.pop(), Some(6));
}

#[test]
fn ring_buffer_zero_capacity() {
    let mut rb = RingBuffer::<0>::init();
    assert!(!rb.push(1));
    assert_eq!(rb.pop(), None);
}

#[test]
fn parser_recognises_frame() {
    let mut p = Parser::init();
    for (i, b) in FRAME.iter().take(29).enumerate() {
        let st = p.push(*b);
        let expected = if i < 4 {
            ParserState::Header
        } else if i < 28 {
            ParserState::Data
        } else {
            ParserState::Eof
        };
        assert_eq!(st, expected, "byte {}", i);
        if i < 28 {
            assert!(p.get_data().is_none());
        }
    }
    let data = p.get_data().unwrap();
    assert_eq!(data[0], [0x0E, 0x03, 0xB1, 0x86, 0x10, 0x00, 0x40, 0x01]);
    assert_eq!(data[1], [0; 8]);
    assert_eq!(data[2], [0; 8]);
    assert_eq!(p.push(0xCC), ParserState::Eof);
}

#[test]
fn parser_drops_noise_and_bad_header() {
    let mut p = Parser::init();
    assert_eq!(p.push(0x12), ParserState::Header);
    assert_eq!(p.push(0xAA), ParserState::Header);
    assert_eq!(p.push(0xFF), ParserState::Header);
    assert_eq!(p.push(0x04), ParserState::Header);
    // the broken header was discarded: the next byte must start a header again
    assert_eq!(p.push(0x03), ParserState::Header);
    for b in FRAME.iter().take(4) {
        assert_eq!(p.push(*b), ParserState::Header);
    }
    assert_eq!(p.push(0x01), ParserState::Data);
}

#[test]
fn parser_bad_footer_resets() {
    let mut p = Parser::init();
    for b in FRAME.iter().take(28) {
        p.push(*b);
    }
    assert_eq!(p.push(0x56), ParserState::Header);
    assert!(p.get_data().is_none());
    assert_eq!(p.push(0xAA), ParserState::Header);
}

#[test]
fn parser_reset_forgets_frame() {
    let mut p = Parser::init();
    for b in FRAME.iter().take(29) {
        p.push(*b);
    }
    assert!(p.get_data().is_some());
    p.reset();
    assert!(p.get_data().is_none());
}

#[test]
fn process_data_decodes_documented_example() {
    let t = process_data(&FRAME[4..12]);
    assert_eq!(t.x_coordinate, -782);
    assert_eq!(t.y_coordinate, 1713);
    assert_eq!(t.speed, -16);
    assert_eq!(t.distance_resolution, 320);
    // sqrt(782^2 + 1713^2) = 1883.07...
    assert_eq!(t.actual_distance, 1883);
}

#[test]
fn process_data_positive_and_negative() {
    // x = +300 (top bit set), y = -400 (top bit clear)
    let d = [0x2C, 0x81, 0x90, 0x01, 0x05, 0x80, 0x10, 0x00];
    let t = process_data(&d);
    assert_eq!(t.x_coordinate, 300);
    assert_eq!(t.y_coordinate, -400);
    assert_eq!(t.speed, 5);
    assert_eq!(t.distance_resolution, 16);
    assert_eq!(t.actual_distance, 500);
}

#[test]
fn process_data_empty_slot() {
    let t = process_data(&[0u8; 8]);
    assert_eq!(t.x_coordinate, 0);
    assert_eq!(t.y_coordinate, 0);
    assert_eq!(t.actual_distance, 0);
    assert!(is_unused_slot(&t));
}

#[test]
fn sensor_reports_frame_at_first_footer_byte() {
    let mut s = Ld2450::new();
    let mut reports = Vec::new();
    for b in FRAME.iter() {
        match s.poll::<()>(UartRead::Byte(*b)) {
            Ok(Some(info)) => reports.push(info),
            Ok(None) => {}
            Err(_) => panic!("unexpected error"),
        }
    }
    assert_eq!(reports.len(), 1);
    let t = reports[0].targets_info[0];
    assert_eq!((t.x_coordinate, t.y_coordinate, t.speed), (-782, 1713, -16));
    assert_eq!(reports[0].targets_info[1].actual_distance, 0);
}

#[test]
fn sensor_uart_error_resets() {
    let mut s = Ld2450::new();
    for b in FRAME.iter().take(10) {
        s.poll::<u8>(UartRead::Byte(*b)).unwrap();
    }
    match s.poll::<u8>(UartRead::Failed(7)) {
        Err(SensorError::Uart(7)) => {}
        _ => panic!("expected the UART error"),
    }
    // the partial frame is gone: a whole frame is needed again
    let mut got = 0;
    for b in FRAME.iter() {
        if let Ok(Some(_)) = s.poll::<u8>(UartRead::Byte(*b)) {
            got += 1;
        }
    }
    assert_eq!(got, 1);
}

#[test]
fn sensor_buffer_full() {
    let mut s = Ld2450::new();
    // polls that only queue: WouldBlock drains one byte per poll, so fill with
    // bytes faster than they drain by never giving WouldBlock; 128 queued bytes
    // are reached after enough pushes because each poll pops one.
    let mut full = false;
    for _ in 0..1000 {
        match s.poll::<()>(UartRead::Byte(0x00)) {
            Err(SensorError::BufferFull) => {
                full = true;
                break;
            }
            _ => {}
        }
    }
    // one byte in, one byte out per poll: the queue never fills
    assert!(!full);
    assert!(matches!(s.poll::<()>(UartRead::WouldBlock), Ok(None)));
}

#[test]
fn sweep_bounces() {
    let (mut step, mut fwd) = (0usize, true);
    let mut seen = Vec::new();
    for _ in 0..26 {
        let n = advance_sweep(step, fwd);
        step = n.0;
        fwd = n.1;
        seen.push(step);
    }
    assert_eq!(seen[0], 1);
    assert_eq!(seen[11], 12);
    assert_eq!(seen[12], 11);
    assert_eq!(seen[23], 0);
    assert_eq!(seen[24], 1);
    assert_eq!(sweep_endpoint(0), (220, 178));
    assert_eq!(sweep_endpoint(6), (120, 235));
    assert_eq!(sweep_endpoint(12), (20, 178));
}

#[test]
fn target_screen_position() {
    let t = TargetInfo {
        x_coordinate: -782,
        y_coordinate: 1713,
        speed: 0,
        actual_distance: 0,
        distance_resolution: 0,
    };
    // -782 * 115 / 6000 = -14 (toward zero); 1713 * 115 / 6000 = 32
    assert_eq!(target_to_point(&t), (134, 152));
    assert_eq!(erase_origin(&t), (124, 142));
    assert!(!is_unused_slot(&t));
    let segs = target_marker_segments((134, 152));
    assert_eq!(segs.len(), 8);
    assert_eq!(segs[0], ((125, 143), (132, 143)));
    assert_eq!(segs[7], ((143, 154), (143, 161)));
}

#[test]
fn ring_buffer_after_reset_takes_full_capacity() {
    let mut rb = RingBuffer::<3>::init();
    assert!(rb.push(1));
    assert!(rb.push(2));
    assert!(rb.push(3));
    assert_eq!(rb.pop(), Some(1));
    rb.reset();
    assert_eq!(rb.current_len(), 0);
    assert_eq!(rb.size(), 3);
    assert!(rb.push(7));
    assert!(rb.push(8));
    assert!(rb.push(9));
    assert!(!rb.push(10));
    assert_eq!(rb.pop(), Some(7));
    assert_eq!(rb.pop(), Some(8));
    assert_eq!(rb.pop(), Some(9));
    assert_eq!(rb.pop(), None);
}

#[test]
fn ring_buffer_len_counts_pushes_and_pops() {
    let mut rb = RingBuffer::<2>::init();
    let mut net: usize = 0;
    for (i, b) in [5u8, 6, 7, 8].iter().enumerate() {
        if rb.push(*b) {
            net += 1;
        }
        if i % 2 == 1 && rb.pop().is_some() {
            net -= 1;
        }
        assert_eq!(rb.current_len(), net);
        assert!(rb.current_len() <= rb.size());
    }
    assert_eq!(net, 1);
}

#[test]
fn parser_data_follows_last_push() {
    let mut p = Parser::init();
    let mut last = None;
    for b in FRAME.iter().take(29) {
        last = Some(p.push(*b));
        assert_eq!(p.get_data().is_some(), last == Some(ParserState::Eof));
    }
    let d = p.get_data().unwrap();
    assert_eq!(d[0], [0x0E, 0x03, 0xB1, 0x86, 0x10, 0x00, 0x40, 0x01]);
    assert_eq!(d[1], [0u8; 8]);
    assert_eq!(d[2], [0u8; 8]);
    assert_eq!(p.push(0xCC), ParserState::Eof);
    assert!(p.get_data().is_some());
    p.reset();
    assert!(p.get_data().is_none());
    assert_eq!(p.push(0x00), ParserState::Header);
    assert!(p.get_data().is_none());
}
