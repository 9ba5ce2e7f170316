use opengamesir::command::get_read_profile_command;
use opengamesir::engine::{parse_firmware_version, Engine, EngineError, Event, RequestKind};
use opengamesir::profile::{Animation, Frame, LightProfile, Profile, ProfileError, RgbColor};

fn version_ack() -> Vec<u8> {
    let mut ack = vec![0u8; 64];
    ack[0] = 15;
    ack[1] = 10;
    ack[4..9].copy_from_slice(b"1.2.3");
    ack[12..17].copy_from_slice(b"9.9.9");
    ack
}

fn simple_profile() -> LightProfile {
    LightProfile {
        config_index: 1,
        animations: [Animation {
            key_frame_count: 2,
            effect_count: 3,
            speed: 4,
            brightness: 5,
            frames: [Frame { leds: [RgbColor { red: 6, green: 7, blue: 8 }; 5] }; 8],
        }; 5],
        audio_reactive_mode: false,
        user_effect_index: 11,
        profile_led: RgbColor { red: 12, green: 13, blue: 14 },
        raise_wake_up: true,
        standby_time: 15,
        reserved_data: [0, 0, 0, 0, 0, 0, 9],
    }
}

#[test]
fn firmware_version_parsing() {
    let v = parse_firmware_version(&version_ack());
    assert_eq!(v.fw_version, "1.2.3");
    assert_eq!(v.dongle_version, "9.9.9");
}

#[test]
fn firmware_version_lossy() {
    let mut ack = version_ack();
    ack[4] = 0xff;
    let v = parse_firmware_version(&ack);
    assert_eq!(v.fw_version, "\u{fffd}.2.3");
}

#[test]
fn firmware_version_request_end_to_end() {
    let mut engine = Engine::new();
    assert!(engine.is_idle());
    engine.start_request(RequestKind::GetFirmwareVersion);
    assert!(!engine.is_idle());
    assert_eq!(engine.next_write(0), Some(vec![15, 9]));
    assert_eq!(engine.next_write(1), None);
    match engine.on_packet(&version_ack()) {
        Ok(Event::FirmwareVersion(v)) => {
            assert_eq!(v.fw_version, "1.2.3");
            assert_eq!(v.dongle_version, "9.9.9");
        }
        other => panic!("unexpected outcome: {other:?}"),
    }
    assert!(engine.is_idle());
    assert_eq!(engine.next_write(2), None);
}

#[test]
fn color_profile_request_end_to_end() {
    let profile = simple_profile();
    let layout = profile.to_bytes();
    let mut engine = Engine::new();
    engine.start_request(RequestKind::GetColorProfile);
    let expected = get_read_profile_command(true);
    for (i, req) in expected.iter().enumerate() {
        let sent = engine.next_write(i as u64).expect("a chunk request is due");
        assert_eq!(sent.as_slice(), &req[..]);
        let off = 256 * sent[3] as usize + sent[4] as usize;
        let n = sent[5] as usize;
        assert_eq!(off, i * 58);
        if i == 10 {
            assert_eq!(n, 55);
        }
        assert_eq!(engine.next_write(i as u64), None);
        let mut ack = vec![0u8; 64];
        ack[0] = 15;
        ack[1] = 5;
        ack[2..6].copy_from_slice(&sent[2..6]);
        ack[6..6 + n].copy_from_slice(&layout[off..off + n]);
        match engine.on_packet(&ack) {
            Ok(Event::ProfileChunk) => assert!(i < 10),
            Ok(Event::ColorProfile(Profile::Light(p))) => {
                assert_eq!(i, 10);
                assert_eq!(p, profile);
            }
            other => panic!("unexpected outcome: {other:?}"),
        }
    }
    assert!(engine.is_idle());
    assert_eq!(engine.next_write(100), None);
}

#[test]
fn heartbeat_needs_no_ack() {
    let mut engine = Engine::new();
    engine.start_request(RequestKind::Heartbeat);
    assert!(engine.is_idle());
    assert_eq!(engine.next_write(0), Some(vec![0xf, 0xf2, 0]));
    assert_eq!(engine.next_write(0), None);
}

#[test]
fn unacknowledged_packet_is_resent_after_timeout() {
    let mut engine = Engine::new();
    engine.start_request(RequestKind::GetFirmwareVersion);
    assert_eq!(engine.next_write(1000), Some(vec![15, 9]));
    assert_eq!(engine.next_write(1100), None);
    assert_eq!(engine.next_write(1200), None);
    assert_eq!(engine.next_write(1201), Some(vec![15, 9]));
    assert_eq!(engine.next_write(1300), None);
    assert_eq!(engine.next_write(1402), Some(vec![15, 9]));
}

#[test]
fn packet_without_waiting_request_is_fatal() {
    let mut engine = Engine::new();
    assert_eq!(engine.on_packet(&version_ack()).unwrap_err(), EngineError::UnexpectedMessage);
    engine.start_request(RequestKind::GetFirmwareVersion);
    // still queued, not yet written
    assert_eq!(engine.on_packet(&version_ack()).unwrap_err(), EngineError::UnexpectedMessage);
}

#[test]
fn empty_read_is_nothing() {
    let mut engine = Engine::new();
    assert!(matches!(engine.on_packet(&[]), Ok(Event::Nothing)));
}

#[test]
fn state_report_is_decoded_and_acks_nothing() {
    let mut engine = Engine::new();
    engine.start_request(RequestKind::GetFirmwareVersion);
    engine.next_write(0);
    let mut report = [0u8; 64];
    report[0] = 18;
    report[53] = 0b0000_0001;
    match engine.on_packet(&report) {
        Ok(Event::State(s)) => assert!(s.macro_record_state),
        other => panic!("unexpected outcome: {other:?}"),
    }
    assert_eq!(engine.on_packet(&[18, 0, 0]).unwrap_err(), EngineError::ShortReport);
    assert!(matches!(engine.on_packet(&version_ack()), Ok(Event::FirmwareVersion(_))));
}

#[test]
fn mismatched_ack_is_reported() {
    let mut engine = Engine::new();
    engine.start_request(RequestKind::GetFirmwareVersion);
    engine.next_write(0);
    let mut ack = vec![0u8; 64];
    ack[1] = 5;
    ack[2] = 32;
    assert!(matches!(engine.on_packet(&ack), Ok(Event::UnexpectedAck(5))));
    assert!(!engine.is_idle());
}

#[test]
fn overflowing_chunk_is_fatal() {
    let mut engine = Engine::new();
    engine.start_request(RequestKind::GetColorProfile);
    engine.next_write(0);
    let mut ack = vec![0u8; 64];
    ack[1] = 5;
    ack[2] = 32;
    ack[3] = 2;
    ack[4] = 100;
    ack[5] = 58;
    assert_eq!(
        engine.on_packet(&ack).unwrap_err(),
        EngineError::Profile(ProfileError::ChunkOverflow { start: 612, length: 58 })
    );
}

#[test]
fn other_profile_kind_is_rejected_locally() {
    let mut engine = Engine::new();
    engine.start_request(RequestKind::GetColorProfile);
    engine.next_write(0);
    let mut ack = vec![0u8; 64];
    ack[1] = 5;
    ack[2] = 31;
    assert!(matches!(
        engine.on_packet(&ack),
        Ok(Event::ProfileRejected(ProfileError::UnsupportedProfileKind(31)))
    ));
    assert!(!engine.is_idle());
}

#[test]
fn short_firmware_ack_is_reported() {
    let mut engine = Engine::new();
    engine.start_request(RequestKind::GetFirmwareVersion);
    engine.next_write(0);
    assert_eq!(engine.on_packet(&[15, 10, 0]).unwrap_err(), EngineError::ShortReport);
}

#[test]
fn unknown_ack_code_is_ignored() {
    let mut engine = Engine::new();
    engine.start_request(RequestKind::GetFirmwareVersion);
    engine.next_write(0);
    assert!(matches!(engine.on_packet(&[15, 77, 0]), Ok(Event::Ignored)));
}
