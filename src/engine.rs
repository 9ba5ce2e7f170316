use vstd::prelude::*;

use std::collections::VecDeque;

use crate::command::{
    chunk_count, get_read_profile_command, read_chunk_packet, Packet, COMMAND_CLASS,
};
use crate::profile::{accept_spec, Profile, ProfileError, ProfileParser};
use crate::state::{gamepad_decoded, parse_gamepad_state, GamepadState, GAMEPAD_STATE_REPORT_ID};

verus! {

/// Milliseconds a packet waits for its acknowledgment before it is sent again.
pub const ACK_TIMEOUT_MS: u64 = 200;

/// Sub-command: heartbeat.
pub const HEARTBEAT: u8 = 0xf2;

/// Sub-command: read the firmware version.
pub const READ_FIRMWARE_VERSION: u8 = 9;

/// Acknowledgment code of a profile chunk.
pub const READ_PROFILE_ACK: u8 = 5;

/// Acknowledgment code of the firmware version.
pub const READ_FIRMWARE_VERSION_ACK: u8 = 10;

/// What a firmware version acknowledgment decodes to, for bytes `b`:
/// the text the bytes spell, invalid sequences replaced.
pub uninterp spec fn utf8_lossy_of(b: Seq<u8>) -> Seq<char>;

/// The characters of a byte string whose bytes are all ASCII.
pub open spec fn ascii_chars(b: Seq<u8>) -> Seq<char> {
    b.map_values(|x: u8| x as char)
}

/// Whether every byte is ASCII.
pub open spec fn is_ascii(b: Seq<u8>) -> bool {
    forall|i: int| 0 <= i < b.len() ==> b[i] < 128
}

/// Relies on `String::from_utf8_lossy`: the text depends on the bytes alone,
/// and valid UTF-8, such as ASCII, comes back unchanged.
#[verifier::external_body]
fn lossy_string(b: &[u8]) -> (r: String)
    ensures
        r@ == utf8_lossy_of(b@),
        is_ascii(b@) ==> r@ == ascii_chars(b@),
{
    String::from_utf8_lossy(b).into_owned()
}

/// Firmware and dongle versions as the device reports them.
#[derive(Debug)]
pub struct FirmwareVersion {
    pub fw_version: String,
    pub dongle_version: String,
}

/// Decodes a firmware version acknowledgment: the firmware version from
/// bytes 4 to 8, the dongle version from bytes 12 to 16.
pub fn parse_firmware_version(buf: &[u8]) -> (r: FirmwareVersion)
    requires
        buf@.len() >= 17,
    ensures
        r.fw_version@ == utf8_lossy_of(buf@.subrange(4, 9)),
        r.dongle_version@ == utf8_lossy_of(buf@.subrange(12, 17)),
        is_ascii(buf@.subrange(4, 9)) ==> r.fw_version@ == ascii_chars(buf@.subrange(4, 9)),
        is_ascii(buf@.subrange(12, 17)) ==> r.dongle_version@ == ascii_chars(
            buf@.subrange(12, 17),
        ),
{
    let fw_version = lossy_string(vstd::slice::slice_subrange(buf, 4, 9));
    let dongle_version = lossy_string(vstd::slice::slice_subrange(buf, 12, 17));
    FirmwareVersion { fw_version, dongle_version }
}

/// A logical operation asked of the device.
#[derive(Debug, Clone, Copy, PartialEq, Eq, Structural)]
pub enum RequestKind {
    Heartbeat,
    GetColorProfile,
    GetFirmwareVersion,
}

/// Where an outgoing packet stands.
#[derive(Debug, Clone, Copy, PartialEq, Eq, Structural)]
pub enum PacketState {
    /// Not yet written.
    Queued,
    /// Written at time `since` (milliseconds); its acknowledgment is due.
    WaitingForAck { since: u64 },
}

/// An outgoing packet and its acknowledgment bookkeeping.
#[derive(Debug)]
pub struct RequestPacket {
    pub data: Vec<u8>,
    pub state: PacketState,
    pub needs_ack: bool,
}

/// Number of packets a request sends.
pub open spec fn request_packet_count(req: RequestKind) -> int {
    match req {
        RequestKind::GetColorProfile => chunk_count(635),
        _ => 1,
    }
}

/// Whether `p` is packet `i` of request `req`, freshly queued.
pub open spec fn is_request_packet(req: RequestKind, i: int, p: RequestPacket) -> bool {
    &&& p.state == PacketState::Queued
    &&& match req {
        RequestKind::Heartbeat => p.data@ == seq![COMMAND_CLASS, HEARTBEAT, 0u8] && !p.needs_ack,
        RequestKind::GetFirmwareVersion => p.data@ == seq![COMMAND_CLASS, READ_FIRMWARE_VERSION]
            && p.needs_ack,
        RequestKind::GetColorProfile => read_chunk_packet(p.data@, 635, i) && p.needs_ack,
    }
}

/// Whether packet `p` is to be written at time `now`: it was never written,
/// or its acknowledgment is overdue.
pub open spec fn is_due(p: RequestPacket, now: u64) -> bool {
    match p.state {
        PacketState::Queued => true,
        PacketState::WaitingForAck { since } => now > since + ACK_TIMEOUT_MS,
    }
}

/// What the engine makes of one packet from the device.
#[derive(Debug)]
pub enum Event {
    /// The read returned no data.
    Nothing,
    /// An input state report.
    State(GamepadState),
    /// A profile chunk was taken; more are due.
    ProfileChunk,
    /// The last profile chunk arrived: the colour profile request is done.
    ColorProfile(Profile),
    /// The firmware version request is done.
    FirmwareVersion(FirmwareVersion),
    /// A profile chunk was refused; the request stays open.
    ProfileRejected(ProfileError),
    /// An acknowledgment with this code came while no request of its kind was open.
    UnexpectedAck(u8),
    /// An acknowledgment with a code the engine does not handle.
    Ignored,
}

/// A protocol violation after which the engine must stop.
#[derive(Debug, Clone, Copy, PartialEq, Eq, Structural)]
pub enum EngineError {
    /// A packet came while no packet was waiting for its acknowledgment.
    UnexpectedMessage,
    /// A report or acknowledgment too short for its layout.
    ShortReport,
    /// A profile chunk broke the framing of the transfer.
    Profile(ProfileError),
}

/// Whether `r` is the outcome of handing a profile chunk to the reassembler
/// with result `a`: chunks pending, the profile, a refusal, or a fatal error.
pub open spec fn profile_outcome(
    r: Result<Event, EngineError>,
    a: Result<Option<Profile>, ProfileError>,
) -> bool {
    match a {
        Ok(None) => r is Ok && r->Ok_0 is ProfileChunk,
        Ok(Some(p)) => r is Ok && r->Ok_0 is ColorProfile && r->Ok_0->ColorProfile_0 == p,
        Err(e) => if e is ChunkOverflow {
            r == Err::<Event, EngineError>(EngineError::Profile(e))
        } else {
            r is Ok && r->Ok_0 is ProfileRejected && r->Ok_0->ProfileRejected_0 == e
        },
    }
}

/// The request/acknowledgment engine: the outgoing packets, the request in
/// flight and the profile reassembly buffer. It does no I/O: its caller
/// writes what `next_write` hands out and passes in what the device sends.
pub struct Engine {
    write_queue: VecDeque<RequestPacket>,
    current: Option<RequestKind>,
    parser: ProfileParser,
}

impl Engine {
    /// The outgoing packets, head first.
    pub closed spec fn queue(&self) -> Seq<RequestPacket> {
        self.write_queue@
    }

    /// The request in flight.
    pub closed spec fn current(&self) -> Option<RequestKind> {
        self.current
    }

    /// The profile reassembly buffer.
    pub closed spec fn profile_buf(&self) -> Seq<u8> {
        self.parser@
    }

    /// The reassembly buffer holds a whole light profile.
    pub closed spec fn wf(&self) -> bool {
        self.parser.wf()
    }

    /// An engine with nothing queued and no request in flight.
    pub fn new() -> (r: Engine)
        ensures
            r.wf(),
            r.queue().len() == 0,
            r.current() is None,
    {
        Engine { write_queue: VecDeque::new(), current: None, parser: ProfileParser::new() }
    }

    /// Whether a new request may start.
    pub fn is_idle(&self) -> (r: bool)
        ensures
            r == self.current() is None,
    {
        self.current.is_none()
    }

    /// Starts a request: queues its packets behind those already queued and
    /// makes it the request in flight, but for a heartbeat, which nothing
    /// answers. A colour profile request starts from an empty buffer.
    pub fn start_request(&mut self, req: RequestKind)
        requires
            old(self).wf(),
            old(self).current() is None,
        ensures
            final(self).wf(),
            final(self).queue().len() == old(self).queue().len() + request_packet_count(req),
            final(self).queue().take(old(self).queue().len() as int) == old(self).queue(),
            forall|i: int|
                old(self).queue().len() <= i < final(self).queue().len() ==> is_request_packet(
                    req,
                    i - old(self).queue().len(),
                    #[trigger] final(self).queue()[i],
                ),
            final(self).current() == if req is Heartbeat {
                None
            } else {
                Some(req)
            },
            req is GetColorProfile ==> final(self).profile_buf() == Seq::new(635, |_i: int| 0u8),
            !(req is GetColorProfile) ==> final(self).profile_buf() == old(self).profile_buf(),
    {
        let ghost q0 = self.write_queue@;
        match req {
            RequestKind::Heartbeat => {
                let data = vec![COMMAND_CLASS, HEARTBEAT, 0u8];
                self.write_queue.push_back(
                    RequestPacket { data, state: PacketState::Queued, needs_ack: false },
                );
                assert(self.write_queue@.take(q0.len() as int) =~= q0);
            },
            RequestKind::GetFirmwareVersion => {
                let data = vec![COMMAND_CLASS, READ_FIRMWARE_VERSION];
                self.write_queue.push_back(
                    RequestPacket { data, state: PacketState::Queued, needs_ack: true },
                );
                assert(self.write_queue@.take(q0.len() as int) =~= q0);
                self.current = Some(req);
            },
            RequestKind::GetColorProfile => {
                self.parser = ProfileParser::new();
                let packets: Vec<Packet> = get_read_profile_command(true);
                let mut k: usize = 0;
                while k < packets.len()
                    invariant
                        req == RequestKind::GetColorProfile,
                        self.parser.wf(),
                        self.parser@ == Seq::new(635, |_i: int| 0u8),
                        packets@.len() == chunk_count(635),
                        forall|i: int|
                            0 <= i < packets@.len() ==> read_chunk_packet(
                                #[trigger] packets@[i]@,
                                635,
                                i,
                            ),
                        k <= packets@.len(),
                        self.write_queue@.len() == q0.len() + k,
                        self.write_queue@.take(q0.len() as int) == q0,
                        forall|i: int|
                            q0.len() <= i < q0.len() + k ==> is_request_packet(
                                req,
                                i - q0.len(),
                                #[trigger] self.write_queue@[i],
                            ),
                    decreases packets@.len() - k,
                {
                    let data = vstd::slice::slice_to_vec(packets[k].as_slice());
                    let ghost prev = self.write_queue@;
                    self.write_queue.push_back(
                        RequestPacket { data, state: PacketState::Queued, needs_ack: true },
                    );
                    assert(self.write_queue@.take(q0.len() as int) =~= prev.take(q0.len() as int));
                    k = k + 1;
                }
                self.current = Some(req);
            },
        }
    }

    /// One step of the write side at time `now` (milliseconds): the bytes to
    /// write next, if any. A head packet that was never written, or whose
    /// acknowledgment is overdue, is handed out; it then waits for its
    /// acknowledgment from `now` on, or leaves the queue if it needs none.
    /// A head packet still within its timeout holds the queue back.
    pub fn next_write(&mut self, now: u64) -> (r: Option<Vec<u8>>)
        requires
            old(self).wf(),
        ensures
            final(self).wf(),
            final(self).current() == old(self).current(),
            final(self).profile_buf() == old(self).profile_buf(),
            ({
                let q = old(self).queue();
                &&& (q.len() == 0 || !is_due(q[0], now)) ==> r is None && final(self).queue()
                    == q
                &&& (q.len() > 0 && is_due(q[0], now)) ==> r is Some && r->Some_0@ == q[0].data@
                    && final(self).queue() == if q[0].needs_ack {
                    q.update(
                        0,
                        RequestPacket {
                            data: q[0].data,
                            state: PacketState::WaitingForAck { since: now },
                            needs_ack: true,
                        },
                    )
                } else {
                    q.skip(1)
                }
            }),
    {
        let ghost q = self.write_queue@;
        let head = match self.write_queue.pop_front() {
            Some(p) => p,
            None => return None,
        };
        let due = match head.state {
            PacketState::Queued => true,
            PacketState::WaitingForAck { since } => now > since && now - since > ACK_TIMEOUT_MS,
        };
        if !due {
            self.write_queue.push_front(head);
            assert(self.write_queue@ =~= q);
            return None;
        }
        let out = head.data.clone();
        assert(out@ =~= head.data@);
        if head.needs_ack {
            self.write_queue.push_front(
                RequestPacket {
                    data: head.data,
                    state: PacketState::WaitingForAck { since: now },
                    needs_ack: true,
                },
            );
            assert(self.write_queue@ =~= q.update(
                0,
                RequestPacket {
                    data: q[0].data,
                    state: PacketState::WaitingForAck { since: now },
                    needs_ack: true,
                },
            ));
        } else {
            assert(self.write_queue@ =~= q.skip(1));
        }
        Some(out)
    }

    /// Handles one packet read from the device. An input state report is
    /// decoded. Any other non-empty packet acknowledges the head packet,
    /// which must be waiting for it, and leaves the queue; its second byte
    /// says what it answers: a profile chunk goes to the reassembler, a
    /// firmware version completes that request. An acknowledgment that the
    /// request in flight does not expect changes nothing more.
    pub fn on_packet(&mut self, buf: &[u8]) -> (r: Result<Event, EngineError>)
        requires
            old(self).wf(),
        ensures
            final(self).wf(),
            ({
                let b = buf@;
                let q = old(self).queue();
                let cur = old(self).current();
                let unchanged = final(self).queue() == q && final(self).current() == cur
                    && final(self).profile_buf() == old(self).profile_buf();
                let is_state = b.len() > 0 && b[0] == GAMEPAD_STATE_REPORT_ID;
                let acked = b.len() > 0 && !is_state && q.len() > 0
                    && q[0].state is WaitingForAck;
                let keeps = final(self).current() == cur && final(self).profile_buf() == old(
                    self,
                ).profile_buf();
                &&& b.len() == 0 ==> r == Ok::<Event, EngineError>(Event::Nothing) && unchanged
                &&& is_state && b.len() >= 54 ==> r is Ok && r->Ok_0 is State && gamepad_decoded(
                    b,
                    r->Ok_0->State_0,
                ) && unchanged
                &&& is_state && b.len() < 54 ==> r == Err::<Event, EngineError>(
                    EngineError::ShortReport,
                ) && unchanged
                &&& b.len() > 0 && !is_state && !acked ==> r == Err::<Event, EngineError>(
                    EngineError::UnexpectedMessage,
                ) && unchanged
                &&& acked ==> final(self).queue() == q.skip(1)
                &&& acked && b.len() < 2 ==> r == Ok::<Event, EngineError>(Event::Ignored) && keeps
                &&& acked && b.len() >= 2 && b[1] == READ_PROFILE_ACK && cur != Some(
                    RequestKind::GetColorProfile,
                ) ==> r == Ok::<Event, EngineError>(Event::UnexpectedAck(READ_PROFILE_ACK))
                    && keeps
                &&& acked && b.len() >= 2 && b[1] == READ_PROFILE_ACK && cur == Some(
                    RequestKind::GetColorProfile,
                ) ==> exists|a: Result<Option<Profile>, ProfileError>|
                    accept_spec(old(self).profile_buf(), b, final(self).profile_buf(), a)
                        && profile_outcome(r, a) && final(self).current() == if a is Ok
                        && a->Ok_0 is Some {
                        None
                    } else {
                        cur
                    }
                &&& acked && b.len() >= 2 && b[1] == READ_FIRMWARE_VERSION_ACK && cur != Some(
                    RequestKind::GetFirmwareVersion,
                ) ==> r == Ok::<Event, EngineError>(Event::UnexpectedAck(READ_FIRMWARE_VERSION_ACK))
                    && keeps
                &&& acked && b.len() >= 17 && b[1] == READ_FIRMWARE_VERSION_ACK && cur == Some(
                    RequestKind::GetFirmwareVersion,
                ) ==> r is Ok && r->Ok_0 is FirmwareVersion
                    && r->Ok_0->FirmwareVersion_0.fw_version@ == utf8_lossy_of(b.subrange(4, 9))
                    && r->Ok_0->FirmwareVersion_0.dongle_version@ == utf8_lossy_of(
                    b.subrange(12, 17),
                ) && final(self).current() is None && final(self).profile_buf() == old(
                    self,
                ).profile_buf()
                &&& acked && 2 <= b.len() < 17 && b[1] == READ_FIRMWARE_VERSION_ACK && cur == Some(
                    RequestKind::GetFirmwareVersion,
                ) ==> r == Err::<Event, EngineError>(EngineError::ShortReport) && keeps
                &&& acked && b.len() >= 2 && b[1] != READ_PROFILE_ACK && b[1]
                    != READ_FIRMWARE_VERSION_ACK ==> r == Ok::<Event, EngineError>(Event::Ignored)
                    && keeps
            }),
    {
        if buf.len() == 0 {
            return Ok(Event::Nothing);
        }
        if buf[0] == GAMEPAD_STATE_REPORT_ID {
            if buf.len() < 54 {
                return Err(EngineError::ShortReport);
            }
            return Ok(Event::State(parse_gamepad_state(buf)));
        }
        let waiting = self.write_queue.len() > 0 && matches!(
            self.write_queue[0].state,
            PacketState::WaitingForAck { .. }
        );
        if !waiting {
            return Err(EngineError::UnexpectedMessage);
        }
        let ghost q = self.write_queue@;
        let _ = self.write_queue.pop_front();
        assert(self.write_queue@ =~= q.skip(1));
        if buf.len() < 2 {
            return Ok(Event::Ignored);
        }
        if buf[1] == READ_PROFILE_ACK {
            if self.current != Some(RequestKind::GetColorProfile) {
                return Ok(Event::UnexpectedAck(READ_PROFILE_ACK));
            }
            let ghost before = self.parser@;
            let a = self.parser.accept(buf);
            let r = match a {
                Ok(None) => Ok(Event::ProfileChunk),
                Ok(Some(p)) => {
                    self.current = None;
                    Ok(Event::ColorProfile(p))
                },
                Err(e) => {
                    if e.is_fatal() {
                        Err(EngineError::Profile(e))
                    } else {
                        Ok(Event::ProfileRejected(e))
                    }
                },
            };
            assert(accept_spec(before, buf@, self.parser@, a) && profile_outcome(r, a));
            r
        } else if buf[1] == READ_FIRMWARE_VERSION_ACK {
            if self.current != Some(RequestKind::GetFirmwareVersion) {
                return Ok(Event::UnexpectedAck(READ_FIRMWARE_VERSION_ACK));
            }
            if buf.len() < 17 {
                return Err(EngineError::ShortReport);
            }
            self.current = None;
            Ok(Event::FirmwareVersion(parse_firmware_version(buf)))
        } else {
            Ok(Event::Ignored)
        }
    }
}

} // verus!
