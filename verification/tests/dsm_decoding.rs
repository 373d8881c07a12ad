use opengyro::myhal_implementations::dsmrx::{Dsm1024Servo, DsmInternalFrame, DsmSystem};

#[test]
fn system_byte_mapping() {
    assert_eq!(DsmSystem::from(0x01u8), DsmSystem::Dsm2_22Ms);
    assert_eq!(DsmSystem::from(0x12u8), DsmSystem::Dsm2_11Ms);
    assert_eq!(DsmSystem::from(0xa2u8), DsmSystem::DsmX_22Ms);
    assert_eq!(DsmSystem::from(0xb2u8), DsmSystem::DsmX_11Ms);
    assert_eq!(DsmSystem::from(0x00u8), DsmSystem::Invalid);
    assert_eq!(DsmSystem::from(0x02u8), DsmSystem::Invalid);
    assert_eq!(DsmSystem::from(0xffu8), DsmSystem::Invalid);
}

#[test]
fn servo_from_word_splits_channel_and_position() {
    assert_eq!(Dsm1024Servo::from(0x0000u16), Dsm1024Servo { channel_id: 0, position: 0 });
    assert_eq!(Dsm1024Servo::from(0x1BFFu16), Dsm1024Servo { channel_id: 6, position: 1023 });
    assert_eq!(Dsm1024Servo::from(0x0600u16), Dsm1024Servo { channel_id: 1, position: 512 });
    assert_eq!(Dsm1024Servo::from(0xFFFFu16), Dsm1024Servo { channel_id: 63, position: 1023 });
}

#[test]
fn servo_word_round_trip_for_every_word() {
    for word in 0..=u16::MAX {
        let servo = Dsm1024Servo::from(word);
        assert!(servo.channel_id < 64);
        assert!(servo.position < 1024);
        assert_eq!(servo.channel_id as u32 * 1024 + servo.position as u32, word as u32);
    }
}

#[test]
fn servo_from_big_endian_bytes() {
    assert_eq!(Dsm1024Servo::from([0x18u8, 0x00u8]), Dsm1024Servo { channel_id: 6, position: 0 });
    assert_eq!(Dsm1024Servo::from([0x02u8, 0xAAu8]), Dsm1024Servo { channel_id: 0, position: 0x2AA });
    for hi in 0..=255u8 {
        for lo in [0u8, 1, 0x7f, 0xff] {
            assert_eq!(
                Dsm1024Servo::from([hi, lo]),
                Dsm1024Servo::from(u16::from_be_bytes([hi, lo]))
            );
        }
    }
}

#[test]
fn pulse_width_exact_values() {
    let us = |position: u16| Dsm1024Servo { channel_id: 0, position }.get_us();
    assert_eq!(us(0), 903);
    assert_eq!(us(1), 904);
    assert_eq!(us(512), 1499);
    assert_eq!(us(1000), 2069);
    assert_eq!(us(1023), 2095);
    assert_eq!(us(3500), 4983);
}

#[test]
fn pulse_width_matches_binary64_for_every_position() {
    for position in 0..=u16::MAX {
        let scaled = (position as f64 * 1.166) as u16;
        if scaled as u32 + 903 <= u16::MAX as u32 {
            let servo = Dsm1024Servo { channel_id: 0, position };
            assert_eq!(servo.get_us(), scaled + 903, "position {}", position);
        }
    }
}

#[test]
fn pulse_width_of_ten_bit_positions_is_exact_scaling() {
    for position in 0..1024u16 {
        let servo = Dsm1024Servo { channel_id: 3, position };
        assert_eq!(servo.get_us() as u32, 903 + position as u32 * 1166 / 1000);
    }
}

#[test]
fn frame_decodes_fades_system_and_servos() {
    let bytes: [u8; 16] = [
        0x05, 0xa2, 0x00, 0x10, 0x05, 0xff, 0x08, 0x00, 0x0d, 0x55, 0x10, 0x01, 0x17, 0xfe,
        0x18, 0xaa,
    ];
    let frame = DsmInternalFrame::from(&bytes);
    assert_eq!(frame.fades, 5);
    assert_eq!(frame.system, DsmSystem::DsmX_22Ms);
    let expected = [
        Dsm1024Servo { channel_id: 0, position: 0x010 },
        Dsm1024Servo { channel_id: 1, position: 0x1ff },
        Dsm1024Servo { channel_id: 2, position: 0x000 },
        Dsm1024Servo { channel_id: 3, position: 0x155 },
        Dsm1024Servo { channel_id: 4, position: 0x001 },
        Dsm1024Servo { channel_id: 5, position: 0x3fe },
        Dsm1024Servo { channel_id: 6, position: 0x0aa },
    ];
    assert_eq!(frame.servos, expected);
}

#[test]
fn frame_servo_words_match_pair_conversion() {
    let bytes: [u8; 16] = [
        0xff, 0x01, 0xfc, 0x00, 0x03, 0xff, 0x12, 0x34, 0xab, 0xcd, 0x00, 0x00, 0x80, 0x01,
        0x7f, 0xfe,
    ];
    let frame = DsmInternalFrame::from(&bytes);
    assert_eq!(frame.fades, 0xff);
    assert_eq!(frame.system, DsmSystem::Dsm2_22Ms);
    for i in 0..7 {
        assert_eq!(frame.servos[i], Dsm1024Servo::from([bytes[2 * i + 2], bytes[2 * i + 3]]));
    }
}
