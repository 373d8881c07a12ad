use opengyro::myhal::reciever::Reciever;
use opengyro::myhal_implementations::dsmrx::{Dsm1024Servo, DsmRx, DsmSystem};

fn frame_bytes(fades: u8, system: u8, words: [u16; 7]) -> [u8; 16] {
    let mut bytes = [0u8; 16];
    bytes[0] = fades;
    bytes[1] = system;
    for (i, word) in words.iter().enumerate() {
        let pair = word.to_be_bytes();
        bytes[2 * i + 2] = pair[0];
        bytes[2 * i + 3] = pair[1];
    }
    bytes
}

fn word(channel: u16, position: u16) -> u16 {
    channel * 1024 + position
}

/// Feeds `bytes` one per millisecond starting at `start_ms`; returns the time of the last byte.
fn feed(rx: &mut DsmRx, bytes: &[u8], start_ms: usize) -> usize {
    let mut t = start_ms;
    for (i, b) in bytes.iter().enumerate() {
        t = start_ms + i;
        rx.handle_serial_event(*b, t);
        assert!(rx.buffer_index < 16);
    }
    t
}

#[test]
fn new_receiver_is_empty() {
    let rx = DsmRx::new(100);
    assert_eq!(rx.buffer, [0u8; 16]);
    assert_eq!(rx.buffer_index, 0);
    assert!(!rx.has_new_data());
    assert!(!rx.frame_is_avaliable());
}

#[test]
fn channels_before_any_frame_are_defaults() {
    let mut rx = DsmRx::new(0);
    assert_eq!(rx.get_channels(), [0, 1500, 1500, 1500, 1500, 1500, 1500]);
    let mut rx = DsmRx::new(0);
    assert_eq!(rx.get_frame().map(|f| f.fades), None);
}

#[test]
fn sixteen_bytes_make_a_frame() {
    let words = [
        word(0, 0),
        word(1, 512),
        word(2, 1023),
        word(3, 100),
        word(4, 200),
        word(5, 300),
        word(6, 400),
    ];
    let bytes = frame_bytes(2, 0xb2, words);
    let mut rx = DsmRx::new(0);
    feed(&mut rx, &bytes[..15], 1);
    assert!(!rx.has_new_data());
    assert_eq!(rx.buffer_index, 15);
    assert_eq!(&rx.buffer[..15], &bytes[..15]);
    rx.handle_serial_event(bytes[15], 16);
    assert!(rx.has_new_data());
    assert_eq!(rx.buffer_index, 0);
    assert_eq!(rx.buffer, [0u8; 16]);
    let frame = rx.get_frame().unwrap();
    assert!(!rx.has_new_data());
    assert_eq!(frame.fades, 2);
    assert_eq!(frame.system, DsmSystem::DsmX_11Ms);
    assert_eq!(frame.servos[1], Dsm1024Servo { channel_id: 1, position: 512 });
    assert_eq!(rx.get_channels(), [903, 1499, 2095, 1019, 1136, 1252, 1369]);
}

#[test]
fn reading_channels_clears_new_data_until_next_frame() {
    let bytes = frame_bytes(0, 0x12, [word(0, 10), word(1, 20), word(2, 30), word(3, 40), word(4, 50), word(5, 60), word(6, 70)]);
    let mut rx = DsmRx::new(0);
    let t = feed(&mut rx, &bytes, 1);
    assert!(rx.has_new_data());
    let channels = rx.get_channels();
    assert_eq!(channels[0], 903 + 10 * 1166 / 1000);
    assert!(!rx.has_new_data());
    // A partial frame leaves the flag cleared.
    let t = feed(&mut rx, &bytes[..10], t + 1);
    assert!(!rx.has_new_data());
    // Completing it sets the flag again.
    feed(&mut rx, &bytes[10..], t + 1);
    assert!(rx.has_new_data());
    // Reading the channels again gives the same widths.
    assert_eq!(rx.get_channels(), channels);
}

#[test]
fn gap_longer_than_17_ms_starts_a_new_frame() {
    let bytes = frame_bytes(7, 0x01, [word(6, 1), word(5, 2), word(4, 3), word(3, 4), word(2, 5), word(1, 6), word(0, 7)]);
    let mut rx = DsmRx::new(0);
    let t = feed(&mut rx, &[0xaa, 0xbb, 0xcc, 0xdd, 0xee], 1);
    assert_eq!(rx.buffer_index, 5);
    rx.handle_serial_event(bytes[0], t + 18);
    assert_eq!(rx.buffer_index, 1);
    assert_eq!(rx.buffer[0], bytes[0]);
    assert_eq!(&rx.buffer[1..], &[0u8; 15]);
    feed(&mut rx, &bytes[1..], t + 19);
    let frame = rx.get_frame().unwrap();
    assert_eq!(frame.fades, 7);
    assert_eq!(frame.system, DsmSystem::Dsm2_22Ms);
    assert_eq!(frame.servos[0], Dsm1024Servo { channel_id: 6, position: 1 });
}

#[test]
fn gap_of_exactly_17_ms_continues_the_frame() {
    let mut rx = DsmRx::new(0);
    rx.handle_serial_event(0x11, 5);
    rx.handle_serial_event(0x22, 22);
    assert_eq!(rx.buffer_index, 2);
    assert_eq!(&rx.buffer[..2], &[0x11, 0x22]);
    rx.handle_serial_event(0x33, 40);
    assert_eq!(rx.buffer_index, 1);
    assert_eq!(rx.buffer[0], 0x33);
}

#[test]
fn later_servo_with_same_channel_wins() {
    let bytes = frame_bytes(0, 0xa2, [word(2, 100), word(2, 200), word(4, 0), word(4, 1023), word(0, 5), word(6, 6), word(2, 300)]);
    let mut rx = DsmRx::new(0);
    feed(&mut rx, &bytes, 0);
    let channels = rx.get_channels();
    assert_eq!(channels, [903 + 5, 1500, 903 + 349, 1500, 2095, 1500, 903 + 6]);
}

#[test]
fn failsafe_after_one_second_without_frame() {
    let mut rx = DsmRx::new(50);
    assert!(!rx.is_in_failsafe(50));
    assert!(!rx.is_in_failsafe(1050));
    assert!(rx.is_in_failsafe(1051));
    // Bytes that do not complete a frame do not hold off failsafe.
    feed(&mut rx, &[1, 2, 3], 1000);
    assert!(rx.is_in_failsafe(1051));
    // A completed frame does.
    let bytes = frame_bytes(0, 0xb2, [0; 7]);
    rx.handle_serial_event(0, 1100);
    feed(&mut rx, &bytes[1..], 1101);
    assert!(!rx.is_in_failsafe(1115));
    assert!(!rx.is_in_failsafe(2115));
    assert!(rx.is_in_failsafe(2116));
}

#[test]
fn frame_is_available_only_with_full_buffer() {
    let mut rx = DsmRx::new(0);
    assert!(!rx.frame_is_avaliable());
    rx.buffer_index = 16;
    assert!(rx.frame_is_avaliable());
}

#[test]
fn pause_after_full_buffer_starts_a_new_frame() {
    let bytes = frame_bytes(9, 0xb2, [word(0, 1), word(1, 2), word(2, 3), word(3, 4), word(4, 5), word(5, 6), word(6, 7)]);
    let mut rx = DsmRx::new(0);
    rx.buffer = [0xee; 16];
    rx.buffer_index = 16;
    rx.handle_serial_event(bytes[0], 30);
    assert_eq!(rx.buffer_index, 1);
    assert_eq!(rx.buffer[0], bytes[0]);
    assert_eq!(&rx.buffer[1..], &[0u8; 15]);
    assert!(!rx.has_new_data());
    feed(&mut rx, &bytes[1..], 31);
    assert!(rx.has_new_data());
    assert_eq!(rx.buffer_index, 0);
    let frame = rx.get_frame().unwrap();
    assert_eq!(frame.fades, 9);
    assert_eq!(frame.servos[6], Dsm1024Servo { channel_id: 6, position: 7 });
}

#[test]
fn bytes_past_the_buffered_ones_stay_zero() {
    let bytes = frame_bytes(1, 0x12, [word(1, 11), word(2, 22), word(3, 33), word(4, 44), word(5, 55), word(6, 66), word(0, 77)]);
    let mut rx = DsmRx::new(0);
    let mut t = 0;
    for round in 0..3 {
        for (i, b) in bytes.iter().enumerate() {
            t += if i == 0 && round > 0 { 40 } else { 1 };
            rx.handle_serial_event(*b, t);
            assert!(rx.buffer_index < 16);
            assert!(!rx.frame_is_avaliable());
            assert!(rx.buffer[rx.buffer_index..].iter().all(|b| *b == 0));
        }
        // A partial frame, then a pause.
        for b in &bytes[..5] {
            t += 1;
            rx.handle_serial_event(*b, t);
            assert!(rx.buffer[rx.buffer_index..].iter().all(|b| *b == 0));
        }
    }
}
