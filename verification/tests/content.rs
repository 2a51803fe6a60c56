use badgemagic::content::{add_bitstring_message, decode_bitmap_base64, ContentError};
use badgemagic::protocol::{PayloadBuffer, Style, Timestamp};

fn lines_from(rows: &[&str]) -> Vec<Vec<u8>> {
    rows.iter().map(|r| r.as_bytes().to_vec()).collect()
}

#[test]
fn bitstring_with_one_x_at_row_3_column_9() {
    let mut rows = vec!["________________"; 11];
    rows[3] = "_________X______";
    let lines = lines_from(&rows);

    let mut payload = PayloadBuffer::with_timestamp(Timestamp::default());
    assert_eq!(add_bitstring_message(&mut payload, Style::default(), &lines), Ok(()));

    let bytes = payload.as_bytes();
    // column_group_count = 2, big-endian length field of slot 0
    assert_eq!(&bytes[16..18], &[0, 2]);
    let data = &bytes[64..];
    assert_eq!(data.len(), 22);
    for (i, b) in data.iter().enumerate() {
        if i == 11 + 3 {
            assert_eq!(*b, 0x40, "column 9 is bit 0x80 >> 1 of the second group");
        } else {
            assert_eq!(*b, 0, "byte {i} stays zero");
        }
    }
}

#[test]
fn bitstring_width_rounds_up_to_whole_groups() {
    let lines = lines_from(&["X________"; 11]);
    let mut payload = PayloadBuffer::with_timestamp(Timestamp::default());
    assert_eq!(add_bitstring_message(&mut payload, Style::default(), &lines), Ok(()));
    let bytes = payload.as_bytes();
    assert_eq!(&bytes[16..18], &[0, 2]);
    assert_eq!(bytes.len(), 64 + 22);
    // every row starts with an on pixel in the first group
    for y in 0..11 {
        assert_eq!(bytes[64 + y], 0x80);
        assert_eq!(bytes[64 + 11 + y], 0);
    }
}

#[test]
fn bitstring_errors() {
    let mut payload = PayloadBuffer::with_timestamp(Timestamp::default());
    let before = payload.as_bytes().to_vec();

    let ten = lines_from(&["____"; 10]);
    assert_eq!(
        add_bitstring_message(&mut payload, Style::default(), &ten),
        Err(ContentError::WrongLineCount)
    );

    let mut uneven = vec!["____"; 11];
    uneven[7] = "___";
    let uneven = lines_from(&uneven);
    assert_eq!(
        add_bitstring_message(&mut payload, Style::default(), &uneven),
        Err(ContentError::UnequalLineLength)
    );

    let mut bad = vec!["____"; 11];
    bad[2] = "__x_";
    let bad = lines_from(&bad);
    assert_eq!(
        add_bitstring_message(&mut payload, Style::default(), &bad),
        Err(ContentError::InvalidCharacter)
    );

    assert_eq!(payload.as_bytes(), &before[..], "failures leave the payload unchanged");
}

#[test]
fn bitstring_wider_than_the_length_field_is_rejected() {
    let row = vec![b'_'; 65535 * 8 + 1];
    let lines: Vec<Vec<u8>> = (0..11).map(|_| row.clone()).collect();
    let mut payload = PayloadBuffer::with_timestamp(Timestamp::default());
    assert_eq!(
        add_bitstring_message(&mut payload, Style::default(), &lines),
        Err(ContentError::TooWide)
    );
    assert_eq!(payload.as_bytes().len(), 64);
}

#[test]
fn bitstring_needs_a_free_slot() {
    let mut payload = PayloadBuffer::with_timestamp(Timestamp::default());
    for _ in 0..8 {
        payload.add_message(Style::default(), 0);
    }
    let lines = lines_from(&["_"; 11]);
    assert_eq!(
        add_bitstring_message(&mut payload, Style::default(), &lines),
        Err(ContentError::TooManyMessages)
    );
}

#[test]
fn base64_bitmap_decoding_follows_the_padding() {
    let padded = b"aGVsbG8=".to_vec();
    assert_eq!(decode_bitmap_base64(&padded), Some(b"hello".to_vec()));

    let unpadded = b"aGVsbG8".to_vec();
    assert_eq!(decode_bitmap_base64(&unpadded), Some(b"hello".to_vec()));

    let invalid = b"!!!!".to_vec();
    assert_eq!(decode_bitmap_base64(&invalid), None);

    let empty = Vec::new();
    assert_eq!(decode_bitmap_base64(&empty), Some(Vec::new()));
}
