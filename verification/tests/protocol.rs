use badgemagic::protocol::{
    Brightness, Mode, PayloadBuffer, Speed, State, Style, Timestamp,
};

#[test]
fn speed_to_u8_and_back() {
    for i in u8::MIN..u8::MAX {
        if let Some(speed) = Speed::from_byte(i) {
            assert_eq!(speed.to_byte(), i);
        } else {
            assert!(!(1..8).contains(&i));
        }
    }
}

#[test]
fn brightness_to_u8_and_back() {
    let valid_brightness_values: [(Brightness, u8); 4] = [
        (Brightness::Full, 0x00),
        (Brightness::ThreeQuarters, 0x10),
        (Brightness::Half, 0x20),
        (Brightness::OneQuarter, 0x30),
    ];

    for (value, raw) in valid_brightness_values {
        assert_eq!(value.to_byte(), raw);
        assert_eq!(Brightness::from_byte(raw).unwrap(), value);
    }
}

#[test]
fn brightness_rejects_other_bytes() {
    for i in u8::MIN..=u8::MAX {
        let decoded = Brightness::from_byte(i);
        if i == 0x00 || i == 0x10 || i == 0x20 || i == 0x30 {
            assert!(decoded.is_some());
        } else {
            assert!(decoded.is_none());
        }
    }
}

#[test]
fn mode_codes() {
    let expected: [(Mode, u8); 9] = [
        (Mode::Left, 0),
        (Mode::Right, 1),
        (Mode::Up, 2),
        (Mode::Down, 3),
        (Mode::Center, 4),
        (Mode::Fast, 5),
        (Mode::Drop, 6),
        (Mode::Curtain, 7),
        (Mode::Laser, 8),
    ];
    for (mode, code) in expected {
        assert_eq!(mode.to_byte(), code);
    }
}

#[test]
fn state_from_bool() {
    assert_eq!(State::from(true), State::On);
    assert_eq!(State::from(false), State::Off);
}

#[test]
fn defaults() {
    assert_eq!(Speed::default(), Speed::Fps2_8);
    assert_eq!(Mode::default(), Mode::Left);
    assert_eq!(Brightness::default(), Brightness::Full);
    assert_eq!(State::default(), State::Off);
    let style = Style::default();
    assert_eq!(style.speed(Speed::Fps1_2).mode(Mode::Laser), style.mode(Mode::Laser).speed(Speed::Fps1_2));
}

#[test]
fn new_payload_is_one_empty_header() {
    let mut payload = PayloadBuffer::new();
    assert_eq!(payload.num_messages(), 0);
    let bytes = payload.as_bytes();
    assert_eq!(bytes.len(), 64);
    assert_eq!(&bytes[0..5], b"wang\0");
    assert_eq!(bytes[5], 0x00);
    for (i, b) in bytes.iter().enumerate() {
        if !(38..44).contains(&i) {
            assert!(i < 5 || *b == 0, "byte {i} should be zero, found {b:#04x}");
        }
    }
}

#[test]
fn new_payload_timestamp_is_calendar_like() {
    let payload = PayloadBuffer::new();
    let bytes = payload.as_bytes();
    assert!(bytes[38] < 100, "two-digit year");
    assert!((1..=12).contains(&bytes[39]), "month");
    assert!((1..=31).contains(&bytes[40]), "day");
    assert!(bytes[41] < 24, "hour");
    assert!(bytes[42] < 60, "minute");
    assert!(bytes[43] < 60, "second");
}

#[test]
fn default_payload_is_a_fresh_buffer() {
    let mut payload = PayloadBuffer::default();
    assert_eq!(payload.num_messages(), 0);
    let bytes = payload.as_bytes();
    assert_eq!(bytes.len(), 64);
    assert_eq!(&bytes[0..5], b"wang\0");
    assert!((1..=12).contains(&bytes[39]), "month of the creation instant");
}

#[test]
fn with_timestamp_writes_the_six_fields() {
    let ts = Timestamp { year: 25, month: 12, day: 31, hour: 23, minute: 59, second: 58 };
    let payload = PayloadBuffer::with_timestamp(ts);
    let bytes = payload.as_bytes();
    assert_eq!(&bytes[38..44], &[25, 12, 31, 23, 59, 58]);
}

#[test]
fn from_civil_reduces_the_year() {
    let ts = Timestamp::from_civil(2025, 6, 1, 2, 3, 4);
    assert_eq!(ts.year, 25);
    let ts = Timestamp::from_civil(-1, 1, 1, 0, 0, 0);
    assert_eq!(ts.year, 99);
    let ts = Timestamp::from_civil(1900, 2, 3, 4, 5, 6);
    assert_eq!(ts.year, 0);
}

#[test]
fn set_brightness_overwrites_one_byte() {
    let mut payload = PayloadBuffer::with_timestamp(Timestamp::default());
    let before = payload.as_bytes().to_vec();
    payload.set_brightness(Brightness::Half);
    let after = payload.as_bytes();
    assert_eq!(after[5], 0x20);
    for i in 0..64 {
        if i != 5 {
            assert_eq!(after[i], before[i]);
        }
    }
}

#[test]
fn header_reflects_styles_in_insertion_order() {
    let mut payload = PayloadBuffer::with_timestamp(Timestamp::default());
    payload.add_message(Style::default().blink(), 1);
    payload.add_message(Style::default().border(), 2);
    payload.add_message(
        Style::default().blink().border().speed(Speed::Fps15).mode(Mode::Laser),
        300,
    );
    let bytes = payload.as_bytes();
    assert_eq!(bytes[6], 0b101, "blink bits for slots 0 and 2");
    assert_eq!(bytes[7], 0b110, "border bits for slots 1 and 2");
    assert_eq!(bytes[8], 0x40, "slot 0: default speed 4, mode 0");
    assert_eq!(bytes[9], 0x40, "slot 1: default speed 4, mode 0");
    assert_eq!(bytes[10], 0x78, "slot 2: speed 7, mode 8");
    for i in 11..16 {
        assert_eq!(bytes[i], 0, "unused speed/mode slots stay zero");
    }
    assert_eq!(&bytes[16..24], &[0, 1, 0, 2, 0x01, 0x2c, 0, 0]);
    assert_eq!(bytes.len(), 64 + 11 + 22 + 300 * 11);
}

#[test]
fn ninth_message_fails_without_mutation() {
    let mut payload = PayloadBuffer::with_timestamp(Timestamp::default());
    for i in 0..8 {
        assert!(payload.try_add_message(Style::default(), i).is_some());
    }
    assert_eq!(payload.num_messages(), 8);
    let before = payload.as_bytes().to_vec();
    assert!(payload.try_add_message(Style::default(), 1).is_none());
    assert_eq!(payload.num_messages(), 8);
    assert_eq!(payload.as_bytes(), &before[..]);
}

#[test]
fn oversized_count_fails_without_mutation() {
    let mut payload = PayloadBuffer::with_timestamp(Timestamp::default());
    let before = payload.as_bytes().to_vec();
    assert!(payload.try_add_message(Style::default(), 65536).is_none());
    assert_eq!(payload.as_bytes(), &before[..]);
    assert!(payload.try_add_message(Style::default(), 65535).is_some());
}

#[test]
fn into_padded_bytes_pads_with_zeros_to_64() {
    let mut payload = PayloadBuffer::with_timestamp(Timestamp::default());
    payload.add_message(Style::default(), 1);
    let unpadded = payload.as_bytes().to_vec();
    assert_eq!(unpadded.len(), 75);
    let padded = payload.into_padded_bytes();
    assert_eq!(padded.len(), 128);
    assert_eq!(padded.len() % 64, 0);
    assert!(padded.len() >= unpadded.len());
    assert_eq!(&padded[..75], &unpadded[..]);
    for b in &padded[75..] {
        assert_eq!(*b, 0);
    }
}

#[test]
fn into_padded_bytes_keeps_aligned_length() {
    let payload = PayloadBuffer::with_timestamp(Timestamp::default());
    let padded = payload.into_padded_bytes();
    assert_eq!(padded.len(), 64);
}

#[test]
fn set_pixel_toggles_exactly_one_bit() {
    let mut payload = PayloadBuffer::with_timestamp(Timestamp::default());
    let message = payload.add_message(Style::default(), 2);
    let before = payload.as_bytes().to_vec();
    assert_eq!(message.set(&mut payload, (9, 3), State::On), Some(()));
    let after = payload.as_bytes().to_vec();
    let index = 64 + 11 + 3;
    assert_eq!(after[index], 0x40);
    for i in 0..after.len() {
        if i != index {
            assert_eq!(after[i], before[i], "only byte {index} may change");
        }
    }
    assert_eq!(message.set(&mut payload, (9, 3), State::Off), Some(()));
    assert_eq!(payload.as_bytes(), &before[..]);
}

#[test]
fn set_pixel_out_of_bounds_is_rejected() {
    let mut payload = PayloadBuffer::with_timestamp(Timestamp::default());
    let message = payload.add_message(Style::default(), 1);
    let before = payload.as_bytes().to_vec();
    assert_eq!(message.set(&mut payload, (8, 0), State::On), None);
    assert_eq!(message.set(&mut payload, (0, 11), State::On), None);
    assert_eq!(payload.as_bytes(), &before[..]);
}

#[test]
fn single_pixel_message() {
    let mut payload = PayloadBuffer::with_timestamp(Timestamp::default());
    let message = payload.add_message(Style::default(), 1);
    assert_eq!(message.set(&mut payload, (0, 0), State::On), Some(()));
    let bytes = payload.as_bytes();
    let data = &bytes[64..];
    assert_eq!(data.len(), 11);
    assert_eq!(data[0], 0x80);
    for b in &data[1..] {
        assert_eq!(*b, 0);
    }
}

#[test]
fn zero_width_message_is_a_valid_empty_slot() {
    let mut payload = PayloadBuffer::with_timestamp(Timestamp::default());
    payload.add_message(Style::default(), 0);
    assert_eq!(payload.num_messages(), 1);
    assert_eq!(payload.as_bytes().len(), 64);
    assert_eq!(payload.as_bytes()[17], 0);
}

#[test]
fn messages_do_not_clobber_earlier_regions() {
    let mut payload = PayloadBuffer::with_timestamp(Timestamp::default());
    let first = payload.add_message(Style::default(), 1);
    assert_eq!(first.set(&mut payload, (0, 0), State::On), Some(()));
    let second = payload.add_message(Style::default(), 1);
    assert_eq!(second.set(&mut payload, (7, 10), State::On), Some(()));
    let bytes = payload.as_bytes();
    assert_eq!(bytes.len(), 64 + 22);
    assert_eq!(bytes[64], 0x80);
    assert_eq!(bytes[64 + 11 + 10], 0x01);
    for i in 65..64 + 21 {
        if i != 64 + 11 + 10 {
            assert_eq!(bytes[i], 0);
        }
    }
}
