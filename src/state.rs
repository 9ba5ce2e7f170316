use vstd::prelude::*;

use crate::profile::{colors_bytes, Frame, RgbColor};

verus! {

/// Whether bit `n` (0 = least significant) of `bits` is set.
pub open spec fn bit_of(bits: u8, n: u8) -> bool {
    (bits >> n) & 1u8 == 1u8
}

/// Tests bit `n` of `bits`.
pub fn is_bit_set(bits: u8, n: u8) -> (r: bool)
    requires
        n < 8,
    ensures
        r == bit_of(bits, n),
{
    assert((bits & (1u8 << n) != 0u8) == ((bits >> n) & 1u8 == 1u8)) by (bit_vector)
        requires
            n < 8,
    ;
    bits & (1u8 << n) != 0
}


/// Report id of the unsolicited input state report.
pub const GAMEPAD_STATE_REPORT_ID: u8 = 18;

/// Index of the byte that holds the macro recording flags.
pub const RECORD_FLAGS_INDEX: usize = 53;

/// Index of the first byte of the status block.
pub const STATUS_START: usize = 35;

/// The key whose macro is being recorded.
#[derive(Debug, Clone, Copy, PartialEq, Eq, Structural)]
pub enum RecordKey {
    FL1,
    FR1,
}

/// What an input state report says.
#[derive(Debug, Clone, Copy, PartialEq, Eq)]
pub struct GamepadState {
    pub charge_state: u8,
    pub battery_level: u8,
    pub config_index: u8,
    pub colors: [RgbColor; 5],
    pub macro_record_state: bool,
    pub record_key: Option<RecordKey>,
}

/// The record key that the flags byte announces; bit 4 wins over bit 5.
pub open spec fn record_key_of(flags: u8) -> Option<RecordKey> {
    if bit_of(flags, 4) {
        Some(RecordKey::FL1)
    } else if bit_of(flags, 5) {
        Some(RecordKey::FR1)
    } else {
        None
    }
}

/// Whether `g` is what the input state report `buf` says: recording flags
/// from byte 53, then charge state, battery level, config index and five
/// colours from bytes 35 to 52.
pub open spec fn gamepad_decoded(buf: Seq<u8>, g: GamepadState) -> bool {
    &&& g.macro_record_state == (bit_of(buf[53], 0) || bit_of(buf[53], 1))
    &&& g.record_key == record_key_of(buf[53])
    &&& g.charge_state == buf[35]
    &&& g.battery_level == buf[36]
    &&& g.config_index == buf[37]
    &&& colors_bytes(g.colors@) == buf.subrange(38, 53)
}

/// Decodes an input state report: recording flags from byte 53, then charge
/// state, battery level, config index and five colours from bytes 35 to 52.
pub fn parse_gamepad_state(buf: &[u8]) -> (r: GamepadState)
    requires
        buf@.len() >= 54,
    ensures
        gamepad_decoded(buf@, r),
{
    let flags = buf[RECORD_FLAGS_INDEX];
    let macro_record_state = is_bit_set(flags, 0) || is_bit_set(flags, 1);
    let record_key = if is_bit_set(flags, 4) {
        Some(RecordKey::FL1)
    } else if is_bit_set(flags, 5) {
        Some(RecordKey::FR1)
    } else {
        None
    };
    let charge_state = buf[STATUS_START];
    let battery_level = buf[STATUS_START + 1];
    let config_index = buf[STATUS_START + 2];
    let mut pos: usize = STATUS_START + 3;
    let colors = Frame::read(buf, &mut pos).unwrap().leds;
    GamepadState { charge_state, battery_level, config_index, colors, macro_record_state, record_key }
}

} // verus!
