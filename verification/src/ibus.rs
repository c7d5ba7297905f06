//! Message types and the non-destructive frame decoder.
//!
//! A frame on the wire is: a length byte (total frame size, `0x04..=0x20`), a
//! command/address byte (high nibble command, low nibble address), a
//! command-dependent payload, and a two-byte trailing checksum (low byte
//! first).  The checksum is a running 16-bit subtraction: start from `0xffff`
//! and subtract every frame byte except the two checksum bytes themselves.
//!
//! The decoder here never removes bytes from the buffer.  It reports, next to
//! the decoded message, how many bytes the caller must discard: one byte when
//! the buffer front cannot start a valid frame (resynchronization), zero while
//! a frame is still incomplete, or the whole frame length on success.

use vstd::prelude::*;

use crate::deque::Deque;

verus! {

broadcast use vstd::array::group_array_axioms;

/// Command nibble (shifted into the high four bits) of an actuator-set frame.
pub const SET: u8 = 0x40;

/// Command nibble of a discovery frame.
pub const DISCOVER: u8 = 0x80;

/// Command nibble of a sensor-type frame.
pub const TYPE: u8 = 0x90;

/// Command nibble of a sensor-value frame.
pub const VALUE: u8 = 0xa0;

/// Smallest legal value of the length byte: header plus checksum, no payload.
pub const MIN_LENGTH: u8 = 0x04;

/// Largest legal value of the length byte.
pub const MAX_LENGTH: u8 = 0x20;

/// The kind of sensor a type response announces.
#[derive(PartialEq, Debug, Clone, Copy)]
#[allow(non_camel_case_types)]
pub enum IBusSensor {
    INTV,
    TEMP,
    RPM,
    EXTV,
    PRESS,
    SERVO,
}

/// The width of the value a sensor reports.
#[derive(PartialEq, Debug, Clone, Copy)]
pub enum IBusSensorLength {
    Short,
    Long,
}

/// A decoded bus message.  Request variants travel toward the sensors and are
/// what the decoder produces; response variants travel back and are what the
/// encoder accepts.
#[derive(PartialEq, Debug)]
pub enum IBusMsg {
    DiscoveryRequest(u8),
    DiscoveryResponse(u8),
    SetMsg([u16; 14]),
    TypeRequest(u8),
    TypeResponse(u8, IBusSensor, IBusSensorLength),
    ValueRequest(u8),
    ValueResponseShort(u8, u16),
    ValueResponseLong(u8, u32),
}

/// The wire code of a sensor kind.
pub open spec fn sensor_code(s: IBusSensor) -> u8 {
    match s {
        IBusSensor::INTV => 0x00,
        IBusSensor::TEMP => 0x01,
        IBusSensor::RPM => 0x02,
        IBusSensor::EXTV => 0x03,
        IBusSensor::PRESS => 0x41,
        IBusSensor::SERVO => 0xfd,
    }
}

/// The wire code of a sensor width.
pub open spec fn sensor_length_code(l: IBusSensorLength) -> u8 {
    match l {
        IBusSensorLength::Short => 0x02,
        IBusSensorLength::Long => 0x04,
    }
}

impl IBusSensor {
    /// The wire code of this sensor kind.
    pub fn code(&self) -> (r: u8)
        ensures
            r == sensor_code(*self),
    {
        match self {
            IBusSensor::INTV => 0x00,
            IBusSensor::TEMP => 0x01,
            IBusSensor::RPM => 0x02,
            IBusSensor::EXTV => 0x03,
            IBusSensor::PRESS => 0x41,
            IBusSensor::SERVO => 0xfd,
        }
    }
}

impl IBusSensorLength {
    /// The wire code of this sensor width.
    pub fn code(&self) -> (r: u8)
        ensures
            r == sensor_length_code(*self),
    {
        match self {
            IBusSensorLength::Short => 0x02,
            IBusSensorLength::Long => 0x04,
        }
    }
}

/// The protocol checksum over `s`: `0xffff` minus every byte of `s` in turn.
/// Over at most 30 covered bytes the accumulator can never wrap below zero,
/// so plain subtraction over the integers describes it exactly.
pub open spec fn checksum(s: Seq<u8>) -> int
    decreases s.len(),
{
    if s.len() == 0 {
        0xffff
    } else {
        checksum(s.drop_last()) - s.last()
    }
}

/// The checksum never exceeds its seed and drops at most 255 per byte.
pub proof fn lemma_checksum_bounds(s: Seq<u8>)
    ensures
        0xffff - 255 * s.len() <= checksum(s) <= 0xffff,
    decreases s.len(),
{
    if s.len() > 0 {
        lemma_checksum_bounds(s.drop_last());
    }
}

/// The command nibble of the buffer's second byte.
pub open spec fn cmd_of(s: Seq<u8>) -> u8 {
    s[1] & 0xf0
}

/// The address nibble of the buffer's second byte.
pub open spec fn addr_of(s: Seq<u8>) -> u8 {
    s[1] & 0x0f
}

/// The command nibble is known and, for the fixed-size commands, the declared
/// length is exactly `MIN_LENGTH`.
pub open spec fn cmd_ok(s: Seq<u8>) -> bool {
    let c = cmd_of(s);
    if c == SET {
        true
    } else if c == TYPE || c == VALUE || c == DISCOVER {
        s[0] == MIN_LENGTH
    } else {
        false
    }
}

/// The two trailing bytes of the declared frame encode the checksum of the
/// bytes before them, low byte first.
pub open spec fn crc_ok(s: Seq<u8>) -> bool {
    let n = s[0] as int;
    let c = checksum(s.take(n - 2));
    s[n - 2] == c % 256 && s[n - 1] == c / 256
}

/// Whether the byte at the buffer front cannot start a valid frame, so that
/// exactly one byte must be discarded to attempt realignment.  An empty
/// buffer, or one still waiting for the rest of a plausibly-sized frame,
/// needs no resynchronization — it needs more bytes.
pub open spec fn needs_resync(s: Seq<u8>) -> bool {
    if s.len() == 0 {
        false
    } else if s[0] < MIN_LENGTH || s[0] > MAX_LENGTH {
        true
    } else if s.len() < s[0] {
        false
    } else {
        !(cmd_ok(s) && crc_ok(s))
    }
}

/// Whether the buffer holds a whole declared frame: at least the two header
/// bytes, and at least as many bytes as the length byte declares.
pub open spec fn frame_ready(s: Seq<u8>) -> bool {
    s.len() >= 2 && s.len() >= s[0]
}

/// The fourteen channel values of an actuator-set frame of declared length
/// `n`: `n / 2 - 2` little-endian 16-bit values starting at byte 2, the
/// remaining slots zero.
pub open spec fn set_channels(s: Seq<u8>, n: int) -> Seq<u16> {
    Seq::new(
        14,
        |i: int|
            if i < n / 2 - 2 {
                (s[2 + 2 * i] + 256 * s[3 + 2 * i]) as u16
            } else {
                0u16
            },
    )
}

/// What the decoder hands back for the complete, validated frame at the front
/// of `s`: the message variant chosen by the command nibble, carrying the
/// address nibble or, for a set frame, the decoded channel values.
pub open spec fn decode_matches(s: Seq<u8>, m: Option<IBusMsg>) -> bool {
    let c = cmd_of(s);
    if c == DISCOVER {
        m == Some(IBusMsg::DiscoveryRequest(addr_of(s)))
    } else if c == SET {
        m matches Some(IBusMsg::SetMsg(chs)) && chs@ == set_channels(s, s[0] as int)
    } else if c == TYPE {
        m == Some(IBusMsg::TypeRequest(addr_of(s)))
    } else if c == VALUE {
        m == Some(IBusMsg::ValueRequest(addr_of(s)))
    } else {
        m is None
    }
}

/// Whether the buffer front cannot be the start of a valid frame.  Checks the
/// declared length, then — once enough bytes are present — the command nibble
/// and the trailing checksum.
#[allow(non_snake_case)]
fn checkForResync<const SIZE: usize>(buffer: &Deque<u8, SIZE>) -> (r: bool)
    requires
        buffer.wf(),
    ensures
        r == needs_resync(buffer@),
{
    let blen: usize = buffer.len();
    if blen == 0 {
        return false;
    }
    let length: u8 = buffer.index(0);
    if length < MIN_LENGTH || length > MAX_LENGTH {
        return true;
    }
    if blen < length as usize {
        // The frame is still arriving; the checksum cannot be judged yet.
        return false;
    }
    let cmd: u8 = buffer.index(1) & 0xf0;
    if cmd == SET {
    } else if cmd == TYPE || cmd == VALUE || cmd == DISCOVER {
        if length != MIN_LENGTH {
            return true;
        }
    } else {
        return true;
    }
    let mut crc: u16 = 0xffff;
    let end: usize = (length - 2) as usize;
    let mut i: usize = 0;
    while i < end
        invariant
            buffer.wf(),
            i <= end,
            end == buffer@[0] - 2,
            4 <= buffer@[0] <= 32,
            buffer@.len() >= buffer@[0],
            crc as int == checksum(buffer@.take(i as int)),
        decreases end - i,
    {
        let b: u8 = buffer.index(i);
        proof {
            lemma_checksum_bounds(buffer@.take(i as int));
            assert(buffer@.take(i as int + 1).drop_last() =~= buffer@.take(i as int));
        }
        crc = crc - (b as u16);
        i += 1;
    }
    proof {
        assert((crc & 0xff) == crc % 256 && (crc >> 8) == crc / 256 && (crc & 0xff) < 256 && (crc
            >> 8) < 256) by (bit_vector);
    }
    if (crc >> 8) as u8 != buffer.index((length - 1) as usize) || (crc & 0xff) as u8
        != buffer.index((length - 2) as usize) {
        return true;
    }
    false
}

/// Reads the channel values of the complete actuator-set frame at the buffer
/// front into a fresh fourteen-slot array; slots past the decoded count stay
/// zero.
#[allow(non_snake_case)]
fn popSetMsg<const SIZE: usize>(length: u8, buffer: &Deque<u8, SIZE>) -> (r: IBusMsg)
    requires
        buffer.wf(),
        4 <= length <= 32,
        length <= buffer@.len(),
        buffer@[0] == length,
    ensures
        (r matches IBusMsg::SetMsg(chs) && chs@ == set_channels(buffer@, length as int)),
{
    let mut data: [u16; 14] = [0u16; 14];
    let count: usize = (length / 2) as usize - 2;
    let mut i: usize = 0;
    while i < count
        invariant
            buffer.wf(),
            i <= count,
            count == length / 2 - 2,
            4 <= length <= 32,
            length <= buffer@.len(),
            forall|j: int|
                0 <= j < i ==> data@[j] == (buffer@[2 + 2 * j] + 256 * buffer@[3 + 2 * j]) as u16,
            forall|j: int| i <= j < 14 ==> data@[j] == 0u16,
        decreases count - i,
    {
        let lo: u8 = buffer.index(2 + 2 * i);
        let hi: u8 = buffer.index(3 + 2 * i);
        let high_part: u16 = (hi as u16) << 8;
        proof {
            let h: u16 = hi as u16;
            assert(h < 256 ==> ((h << 8) == h * 256 && h * 256 <= 0xff00)) by (bit_vector);
        }
        data[i] = (lo as u16) + high_part;
        i += 1;
    }
    proof {
        assert(data@ =~= set_channels(buffer@, length as int));
    }
    IBusMsg::SetMsg(data)
}

/// Examines the buffer without consuming anything and reports what the caller
/// must do: `(None, 1)` — discard one byte and retry (misaligned front);
/// `(None, 0)` — wait for more bytes; `(Some(msg), n)` — a frame of `n` bytes
/// was decoded, discard exactly `n` bytes.
#[allow(non_snake_case)]
pub fn popIBusMsg<const SIZE: usize>(buffer: &Deque<u8, SIZE>) -> (r: (Option<IBusMsg>, u8))
    requires
        buffer.wf(),
    ensures
        needs_resync(buffer@) ==> r == (None::<IBusMsg>, 1u8),
        !needs_resync(buffer@) && !frame_ready(buffer@) ==> r == (None::<IBusMsg>, 0u8),
        !needs_resync(buffer@) && frame_ready(buffer@) ==> decode_matches(buffer@, r.0) && r.1
            == buffer@[0],
{
    if checkForResync(buffer) {
        // Report that the first byte must be removed to attempt resync.
        return (None, 1);
    }

    // Ensure a whole frame has been received.  If not, ask for more.
    if buffer.len() < 2 {
        return (None, 0);
    }
    let length: u8 = buffer.index(0);
    if buffer.len() < length as usize {
        return (None, 0);
    }

    // A frame with a correct length, checksum and command code is present.
    let cmd_byte: u8 = buffer.index(1);
    let cmnd: u8 = cmd_byte & 0xf0;
    let addr: u8 = cmd_byte & 0x0f;
    let msg: Option<IBusMsg> = if cmnd == DISCOVER {
        Some(IBusMsg::DiscoveryRequest(addr))
    } else if cmnd == SET {
        Some(popSetMsg(length, buffer))
    } else if cmnd == TYPE {
        Some(IBusMsg::TypeRequest(addr))
    } else if cmnd == VALUE {
        Some(IBusMsg::ValueRequest(addr))
    } else {
        None
    };
    (msg, length)
}

} // verus!
