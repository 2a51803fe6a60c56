use badgemagic::usb_hid::{
    is_badge_signature, prepend_byte_and_offset, report_id_write_plan, BADGE_PRODUCT_ID,
    BADGE_VENDOR_ID,
};

#[test]
fn badge_signature() {
    assert_eq!(BADGE_VENDOR_ID, 0x0416);
    assert_eq!(BADGE_PRODUCT_ID, 0x5020);
    assert!(is_badge_signature(0x0416, 0x5020));
    assert!(!is_badge_signature(0x0416, 0x5021));
    assert!(!is_badge_signature(0x0417, 0x5020));
    assert!(!is_badge_signature(0, 0));
}

#[test]
fn report_framing_prepends_one_zero_byte() {
    let data: Vec<u8> = (0..128u8).collect();
    let report = prepend_byte_and_offset(&data, 64);
    assert_eq!(report.len(), 65);
    assert_eq!(report[0], 0);
    assert_eq!(report[1..], data[64..128]);
}

#[test]
fn write_plan_frames_every_block_in_order() {
    let data: Vec<u8> = (0..128u8).collect();
    let plan = report_id_write_plan(&data);
    assert_eq!(plan.len(), 2);
    for (i, report) in plan.iter().enumerate() {
        assert_eq!(report.len(), 65);
        assert_eq!(report[0], 0);
        assert_eq!(report[1..], data[i * 64..(i + 1) * 64]);
    }
}
