use badgemagic::delivery::{
    select_single, split_chunks, validate_padded_len, DeliveryError, DiscoveryError,
    BLE_CHUNK_LEN, MAX_PAYLOAD_LEN, USB_CHUNK_LEN,
};

#[test]
fn limits() {
    assert_eq!(MAX_PAYLOAD_LEN, 8192);
    assert_eq!(USB_CHUNK_LEN, 64);
    assert_eq!(BLE_CHUNK_LEN, 16);
}

#[test]
fn oversized_payload_is_rejected_before_io() {
    assert_eq!(validate_padded_len(8256, 64), Err(DeliveryError::TooLong));
    assert_eq!(validate_padded_len(8208, 16), Err(DeliveryError::TooLong));
    assert_eq!(validate_padded_len(8192, 64), Ok(()));
    assert_eq!(validate_padded_len(8192, 16), Ok(()));
}

#[test]
fn unaligned_payload_is_rejected() {
    assert_eq!(validate_padded_len(100, 64), Err(DeliveryError::NotChunkAligned));
    assert_eq!(validate_padded_len(24, 16), Err(DeliveryError::NotChunkAligned));
    assert_eq!(validate_padded_len(0, 64), Ok(()));
    assert_eq!(validate_padded_len(64, 64), Ok(()));
    // an oversized payload that is also unaligned fails on alignment first
    assert_eq!(validate_padded_len(8193, 64), Err(DeliveryError::NotChunkAligned));
}

#[test]
fn single_device_discovery() {
    let none: Vec<u32> = vec![];
    assert_eq!(select_single(none), Err(DiscoveryError::NoDevice));
    assert_eq!(select_single(vec![7u32]), Ok(7));
    assert_eq!(select_single(vec![7u32, 8]), Err(DiscoveryError::MultipleDevices));
    assert_eq!(select_single(vec![7u32, 8, 9]), Err(DiscoveryError::MultipleDevices));
}

#[test]
fn chunks_cover_the_payload_in_order() {
    let data: Vec<u8> = (0..128u8).collect();
    let chunks = split_chunks(&data, 16);
    assert_eq!(chunks.len(), 8);
    for (i, chunk) in chunks.iter().enumerate() {
        assert_eq!(chunk.len(), 16);
        assert_eq!(chunk[..], data[i * 16..(i + 1) * 16]);
    }
}

#[test]
fn chunking_an_empty_payload_yields_no_chunks() {
    let data: Vec<u8> = Vec::new();
    assert_eq!(split_chunks(&data, 16).len(), 0);
}
