use opengamesir::command::{build_write_profile_command, get_read_profile_command, read_profile_packets};
use opengamesir::profile::{
    read_u8, Animation, DecodeError, Frame, LightProfile, ProfileError, ProfileParser, RgbColor,
};
use opengamesir::state::{is_bit_set, parse_gamepad_state, RecordKey};

fn sample_profile() -> LightProfile {
    let mut animations = [Animation {
        key_frame_count: 0,
        effect_count: 0,
        speed: 0,
        brightness: 0,
        frames: [Frame { leds: [RgbColor { red: 0, green: 0, blue: 0 }; 5] }; 8],
    }; 5];
    let mut v: u8 = 1;
    for a in animations.iter_mut() {
        a.key_frame_count = v;
        a.effect_count = v.wrapping_add(1);
        a.speed = v.wrapping_add(2);
        a.brightness = v.wrapping_add(3);
        for f in a.frames.iter_mut() {
            for c in f.leds.iter_mut() {
                v = v.wrapping_add(7);
                *c = RgbColor { red: v, green: v.wrapping_mul(3), blue: v ^ 0x5a };
            }
        }
    }
    LightProfile {
        config_index: 2,
        animations,
        audio_reactive_mode: true,
        user_effect_index: 9,
        profile_led: RgbColor { red: 10, green: 20, blue: 30 },
        raise_wake_up: false,
        standby_time: 45,
        reserved_data: [1, 2, 3, 4, 5, 6, 7],
    }
}

fn header_offset(p: &[u8; 64]) -> usize {
    256 * p[3] as usize + p[4] as usize
}

#[test]
fn bit_tests() {
    assert!(is_bit_set(0b0000_0001, 0));
    assert!(!is_bit_set(0b0000_0001, 1));
    assert!(is_bit_set(0b1000_0000, 7));
    assert!(is_bit_set(0b0010_0000, 5));
}

#[test]
fn read_u8_advances_and_stops_at_end() {
    let buf = [7u8, 8];
    let mut pos: usize = 1;
    assert_eq!(read_u8(&buf, &mut pos), Ok(8));
    assert_eq!(pos, 2);
    assert_eq!(read_u8(&buf, &mut pos), Err(DecodeError::UnexpectedEnd));
}

#[test]
fn rgb_color_reads_three_bytes() {
    let buf = [9u8, 1, 2, 3];
    let mut pos: usize = 1;
    let c = RgbColor::read(&buf, &mut pos).unwrap();
    assert_eq!(c, RgbColor { red: 1, green: 2, blue: 3 });
    assert_eq!(pos, 4);
    let mut pos: usize = 2;
    assert_eq!(RgbColor::read(&buf, &mut pos), Err(DecodeError::UnexpectedEnd));
}

#[test]
fn profile_layout_is_635_bytes() {
    let p = sample_profile();
    let bytes = p.to_bytes();
    assert_eq!(bytes.len(), 635);
    assert_eq!(bytes[0], 2);
    assert_eq!(bytes[1], p.animations[0].key_frame_count);
    assert_eq!(bytes[5], p.animations[0].frames[0].leds[0].red);
    assert_eq!(bytes[621], 1);
    assert_eq!(bytes[622], 9);
    assert_eq!(&bytes[623..626], &[10, 20, 30]);
    assert_eq!(bytes[626], 0);
    assert_eq!(bytes[627], 45);
    assert_eq!(&bytes[628..635], &[1, 2, 3, 4, 5, 6, 7]);
}

#[test]
fn profile_round_trip() {
    let p = sample_profile();
    let bytes = p.to_bytes();
    let mut pos: usize = 0;
    let q = LightProfile::read(&bytes, &mut pos).unwrap();
    assert_eq!(pos, 635);
    assert_eq!(q, p);
}

#[test]
fn profile_flag_byte_other_than_one_is_false() {
    let p = sample_profile();
    let mut bytes = p.to_bytes();
    bytes[621] = 2;
    let mut pos: usize = 0;
    let q = LightProfile::read(&bytes, &mut pos).unwrap();
    assert!(!q.audio_reactive_mode);
}

#[test]
fn profile_bad_config_index() {
    let mut bytes = sample_profile().to_bytes();
    bytes[0] = 4;
    let mut pos: usize = 0;
    assert_eq!(LightProfile::read(&bytes, &mut pos), Err(DecodeError::InvalidConfigIndex(4)));
}

#[test]
fn profile_short_buffer() {
    let bytes = sample_profile().to_bytes();
    let mut pos: usize = 0;
    assert_eq!(LightProfile::read(&bytes[..634], &mut pos), Err(DecodeError::UnexpectedEnd));
    let mut pos: usize = 0;
    assert_eq!(LightProfile::read(&[], &mut pos), Err(DecodeError::UnexpectedEnd));
}

#[test]
fn read_command_for_light_profile() {
    let packets = get_read_profile_command(true);
    assert_eq!(packets.len(), 11);
    for (i, p) in packets.iter().enumerate() {
        assert_eq!(&p[..3], &[15, 4, 32]);
        assert_eq!(header_offset(p), i * 58);
        assert!(p[6..].iter().all(|b| *b == 0));
    }
    assert_eq!(packets[10][5], 55);
    assert_eq!(packets[9][5], 58);
    assert_eq!(&packets[5][3..6], &[1, 34, 58]);
}

#[test]
fn read_command_for_other_profile() {
    let packets = get_read_profile_command(false);
    assert_eq!(packets.len(), 12);
    let total: usize = packets.iter().map(|p| p[5] as usize).sum();
    assert_eq!(total, 680);
    assert_eq!(packets[11][5], 42);
}

#[test]
fn read_packets_cover_any_length() {
    for len in [0usize, 1, 57, 58, 59, 116, 117, 635, 680, 1000] {
        let packets = read_profile_packets(len);
        assert_eq!(packets.len(), len.div_ceil(58));
        let total: usize = packets.iter().map(|p| p[5] as usize).sum();
        assert_eq!(total, len);
        let mut last: Option<usize> = None;
        for (i, p) in packets.iter().enumerate() {
            let off = header_offset(p);
            assert_eq!(off, i * 58);
            if let Some(l) = last {
                assert!(off > l);
            }
            last = Some(off);
        }
    }
}

#[test]
fn write_command_carries_data() {
    let data: Vec<u8> = (0..100u32).map(|i| i as u8).collect();
    let packets = build_write_profile_command(&data, 300);
    assert_eq!(packets.len(), 2);
    assert_eq!(&packets[0][..6], &[15, 3, 32, 1, 44, 58]);
    assert_eq!(&packets[0][6..64], &data[0..58]);
    assert_eq!(&packets[1][..6], &[15, 3, 32, 1, 102, 42]);
    assert_eq!(&packets[1][6..48], &data[58..100]);
    assert!(packets[1][48..].iter().all(|b| *b == 0));
    assert!(build_write_profile_command(&[], 0).is_empty());
}

fn ack_for(request: &[u8; 64], layout: &[u8]) -> Vec<u8> {
    let mut ack = vec![0u8; 64];
    ack[0] = 15;
    ack[1] = 5;
    ack[2..6].copy_from_slice(&request[2..6]);
    let off = header_offset(request);
    let n = request[5] as usize;
    ack[6..6 + n].copy_from_slice(&layout[off..off + n]);
    ack
}

#[test]
fn reassembly_completes_on_last_chunk() {
    let p = sample_profile();
    let layout = p.to_bytes();
    let mut parser = ProfileParser::new();
    let requests = get_read_profile_command(true);
    for (i, r) in requests.iter().enumerate() {
        let out = parser.accept(&ack_for(r, &layout)).unwrap();
        if i + 1 < requests.len() {
            assert!(out.is_none());
        } else {
            match out {
                Some(opengamesir::profile::Profile::Light(q)) => assert_eq!(q, p),
                None => panic!("profile not complete after the last chunk"),
            }
        }
    }
}

#[test]
fn reassembly_rejects_overflowing_chunk() {
    let mut parser = ProfileParser::new();
    let mut ack = vec![0u8; 64];
    ack[1] = 5;
    ack[2] = 32;
    ack[3] = 2;
    ack[4] = 100; // offset 612
    ack[5] = 24; // ends at 636
    let e = parser.accept(&ack).unwrap_err();
    assert_eq!(e, ProfileError::ChunkOverflow { start: 612, length: 24 });
    assert!(e.is_fatal());
}

#[test]
fn reassembly_rejects_other_profile_kind() {
    let mut parser = ProfileParser::new();
    let mut ack = vec![0u8; 64];
    ack[2] = 33;
    let e = parser.accept(&ack).unwrap_err();
    assert_eq!(e, ProfileError::UnsupportedProfileKind(33));
    assert!(!e.is_fatal());
}

#[test]
fn reassembly_rejects_short_packet() {
    let mut parser = ProfileParser::new();
    assert_eq!(parser.accept(&[15, 5, 32]), Err(ProfileError::PacketTooShort));
    assert_eq!(parser.accept(&[15, 5, 32, 0, 0, 10, 1, 2]), Err(ProfileError::PacketTooShort));
}

#[test]
fn reassembly_reports_bad_config_index() {
    let mut parser = ProfileParser::new();
    let mut ack = vec![0u8; 64];
    ack[2] = 32;
    ack[3] = 0;
    ack[4] = 0;
    ack[5] = 1;
    ack[6] = 7;
    assert_eq!(parser.accept(&ack), Ok(None));
    let mut last = vec![0u8; 64];
    last[2] = 32;
    last[3] = 2;
    last[4] = 121; // offset 633
    last[5] = 2;
    assert_eq!(parser.accept(&last), Err(ProfileError::Decode(DecodeError::InvalidConfigIndex(7))));
}

#[test]
fn gamepad_record_key_fl1() {
    let mut buf = [0u8; 64];
    buf[0] = 18;
    buf[53] = 0b0001_0000;
    let s = parse_gamepad_state(&buf);
    assert_eq!(s.record_key, Some(RecordKey::FL1));
    assert!(!s.macro_record_state);
}

#[test]
fn gamepad_recording_without_key() {
    let mut buf = [0u8; 64];
    buf[0] = 18;
    buf[53] = 0b0000_0011;
    let s = parse_gamepad_state(&buf);
    assert!(s.macro_record_state);
    assert_eq!(s.record_key, None);
}

#[test]
fn gamepad_fl1_wins_over_fr1() {
    let mut buf = [0u8; 64];
    buf[53] = 0b0011_0000;
    assert_eq!(parse_gamepad_state(&buf).record_key, Some(RecordKey::FL1));
    buf[53] = 0b0010_0001;
    let s = parse_gamepad_state(&buf);
    assert_eq!(s.record_key, Some(RecordKey::FR1));
    assert!(s.macro_record_state);
}

#[test]
fn gamepad_status_fields() {
    let mut buf = [0u8; 64];
    buf[35] = 1;
    buf[36] = 80;
    buf[37] = 3;
    for (i, b) in buf[38..53].iter_mut().enumerate() {
        *b = 100 + i as u8;
    }
    let s = parse_gamepad_state(&buf);
    assert_eq!(s.charge_state, 1);
    assert_eq!(s.battery_level, 80);
    assert_eq!(s.config_index, 3);
    assert_eq!(s.colors[0], RgbColor { red: 100, green: 101, blue: 102 });
    assert_eq!(s.colors[4], RgbColor { red: 112, green: 113, blue: 114 });
}
