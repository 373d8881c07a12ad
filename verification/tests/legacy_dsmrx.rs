use opengyro::dsmrx::{Dsm1024Servo, DsmRx};

#[test]
fn legacy_servo_keeps_channel_shifted_by_two_bits() {
    let servo = Dsm1024Servo::from(0x1BFFu16);
    assert_eq!(servo.channel_id, 24);
    assert_eq!(servo.position, 1023);
    let servo = Dsm1024Servo::from([0x04u8, 0x05u8]);
    assert_eq!(servo.channel_id, 4);
    assert_eq!(servo.position, 5);
    let servo = Dsm1024Servo::from(0xFFFFu16);
    assert_eq!(servo.channel_id, 252);
    assert_eq!(servo.position, 1023);
}

#[test]
fn legacy_bytes_fill_the_buffer_in_order() {
    let mut rx = DsmRx::new(0);
    for i in 0..20u8 {
        rx.handle_serial_event(i + 1, i as usize);
    }
    assert_eq!(rx.buffer_index, 20);
    let expected: Vec<u8> = (1..=20).collect();
    assert_eq!(&rx.buffer[..], &expected[..]);
    // A silence longer than 17 ms starts again at the front.
    rx.handle_serial_event(0x99, 100);
    assert_eq!(rx.buffer_index, 1);
    assert_eq!(rx.buffer[0], 0x99);
    assert_eq!(&rx.buffer[1..], &[0u8; 19]);
}

#[test]
fn legacy_parse_frame_decodes_and_clears() {
    let mut rx = DsmRx::new(0);
    let bytes: [u8; 16] = [
        0x03, 0x12, 0x00, 0x01, 0x04, 0x02, 0x08, 0x03, 0x0c, 0x04, 0x10, 0x05, 0x14, 0x06,
        0x18, 0x07,
    ];
    for (i, b) in bytes.iter().enumerate() {
        rx.handle_serial_event(*b, i);
    }
    let frame = rx.parse_frame();
    assert_eq!(rx.buffer_index, 0);
    assert_eq!(rx.buffer, [0u8; 20]);
    let text = format!("{:?}", frame);
    assert!(text.starts_with("DsmInternalFrame { fades: 3, system: Dsm2_11Ms, servos: ["));
    assert!(text.contains("Dsm1024Servo { channel_id: 0, position: 1 }"));
    assert!(text.contains("Dsm1024Servo { channel_id: 4, position: 2 }"));
    assert!(text.contains("Dsm1024Servo { channel_id: 24, position: 7 }"));
}
