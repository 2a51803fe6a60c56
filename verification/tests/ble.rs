use badgemagic::ble::{
    is_badge_name, BleAction, BleError, BleSession, BADGE_CHAR_UUID_SHORT,
    BADGE_SERVICE_UUID_SHORT,
};
use badgemagic::delivery::DeliveryError;

#[test]
fn badge_identity() {
    assert_eq!(BADGE_SERVICE_UUID_SHORT, 0xfee0);
    assert_eq!(BADGE_CHAR_UUID_SHORT, 0xfee1);
    assert!(is_badge_name("LSLED"));
    assert!(!is_badge_name("LSLEDX"));
    assert!(!is_badge_name("LSLE"));
    assert!(!is_badge_name("lsled"));
    assert!(!is_badge_name(""));
}

#[test]
fn session_rejects_bad_payloads_before_io() {
    assert!(matches!(BleSession::new(vec![0u8; 15]), Err(DeliveryError::NotChunkAligned)));
    assert!(matches!(BleSession::new(vec![0u8; 8208]), Err(DeliveryError::TooLong)));
    assert!(BleSession::new(vec![0u8; 8192]).is_ok());
}

#[test]
fn session_streams_every_chunk_in_ascending_order() {
    let payload: Vec<u8> = (0..32u8).collect();
    let mut session = BleSession::new(payload.clone()).unwrap();
    assert!(matches!(session.current_action(), BleAction::Connect));
    session.advance(true);
    assert!(matches!(session.current_action(), BleAction::DiscoverServices));
    session.advance(true);
    assert!(matches!(session.current_action(), BleAction::LocateCharacteristic));
    session.advance(true);

    let mut offsets = Vec::new();
    loop {
        match session.current_action() {
            BleAction::WriteChunk { offset } => {
                offsets.push(offset);
                assert_eq!(session.current_chunk()[..], payload[offset..offset + 16]);
                session.advance(true);
            }
            BleAction::Disconnect => break,
            other => panic!("unexpected action {other:?}"),
        }
    }
    assert_eq!(offsets, vec![0, 16]);
    session.advance(true);
    assert!(matches!(session.current_action(), BleAction::Finish(Ok(()))));
}

#[test]
fn connect_failure_ends_without_disconnect() {
    let mut session = BleSession::new(vec![0u8; 16]).unwrap();
    session.advance(false);
    assert!(matches!(session.current_action(), BleAction::Finish(Err(BleError::Connect))));
}

#[test]
fn discovery_failure_still_disconnects() {
    let mut session = BleSession::new(vec![0u8; 16]).unwrap();
    session.advance(true);
    session.advance(false);
    assert!(matches!(session.current_action(), BleAction::Disconnect));
    session.advance(true);
    assert!(matches!(
        session.current_action(),
        BleAction::Finish(Err(BleError::DiscoverServices))
    ));
}

#[test]
fn missing_characteristic_still_disconnects() {
    let mut session = BleSession::new(vec![0u8; 16]).unwrap();
    session.advance(true);
    session.advance(true);
    session.advance(false);
    assert!(matches!(session.current_action(), BleAction::Disconnect));
    session.advance(false);
    assert!(matches!(
        session.current_action(),
        BleAction::Finish(Err(BleError::CharacteristicMissing))
    ));
}

#[test]
fn write_failure_aborts_and_is_not_masked_by_disconnect() {
    let mut session = BleSession::new(vec![0u8; 48]).unwrap();
    session.advance(true);
    session.advance(true);
    session.advance(true);
    assert!(matches!(session.current_action(), BleAction::WriteChunk { offset: 0 }));
    session.advance(true);
    assert!(matches!(session.current_action(), BleAction::WriteChunk { offset: 16 }));
    session.advance(false);
    assert!(matches!(session.current_action(), BleAction::Disconnect));
    session.advance(false);
    assert!(matches!(session.current_action(), BleAction::Finish(Err(BleError::WriteChunk))));
}

#[test]
fn disconnect_failure_after_success_is_surfaced() {
    let mut session = BleSession::new(vec![0u8; 16]).unwrap();
    session.advance(true);
    session.advance(true);
    session.advance(true);
    session.advance(true);
    assert!(matches!(session.current_action(), BleAction::Disconnect));
    session.advance(false);
    assert!(matches!(session.current_action(), BleAction::Finish(Err(BleError::Disconnect))));
}

#[test]
fn empty_payload_connects_and_disconnects_only() {
    let mut session = BleSession::new(Vec::new()).unwrap();
    session.advance(true);
    session.advance(true);
    session.advance(true);
    assert!(matches!(session.current_action(), BleAction::Disconnect));
    session.advance(true);
    assert!(matches!(session.current_action(), BleAction::Finish(Ok(()))));
}
