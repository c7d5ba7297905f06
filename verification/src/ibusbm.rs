//! The consuming decoder and the frame encoder.
//!
//! [`popIBusMsg`] drives the resynchronization loop itself: it discards one
//! byte at a time while the buffer front cannot start a valid frame, then
//! either waits (buffer unchanged past the discarded prefix) or decodes one
//! frame and removes exactly its declared length.
//!
//! [`pushIBusMsg`] frames an outbound response — length byte, payload, then
//! the two checksum bytes — and pushes the whole sequence into a buffer.

use vstd::prelude::*;

use crate::deque::Deque;
use crate::deque::loaded;
use crate::deque::lemma_loaded_fits;
use crate::deque::lemma_loaded_snoc;
use crate::ibus::DISCOVER;
use crate::ibus::MAX_LENGTH;
use crate::ibus::MIN_LENGTH;
use crate::ibus::SET;
use crate::ibus::TYPE;
use crate::ibus::VALUE;
use crate::ibus::addr_of;
use crate::ibus::checksum;
use crate::ibus::cmd_of;
use crate::ibus::cmd_ok;
use crate::ibus::crc_ok;
use crate::ibus::decode_matches;
use crate::ibus::frame_ready;
use crate::ibus::lemma_checksum_bounds;
use crate::ibus::needs_resync;
use crate::ibus::sensor_code;
use crate::ibus::sensor_length_code;

pub use crate::ibus::IBusMsg;
pub use crate::ibus::IBusSensor;
pub use crate::ibus::IBusSensorLength;

verus! {

/// How many leading bytes the resynchronization loop discards from `s`: one
/// at a time, for as long as the front cannot start a valid frame.
pub open spec fn resync_drops(s: Seq<u8>) -> nat
    decreases s.len(),
{
    if needs_resync(s) {
        1 + resync_drops(s.skip(1))
    } else {
        0
    }
}

/// Resynchronization never discards more bytes than the buffer holds.
pub proof fn lemma_resync_drops_le(s: Seq<u8>)
    ensures
        resync_drops(s) <= s.len(),
    decreases s.len(),
{
    if needs_resync(s) {
        lemma_resync_drops_le(s.skip(1));
    }
}

/// The frame the encoder produces for payload `msg` (command/address byte
/// first): a length byte of `msg.len() + 3`, the payload, then the checksum
/// of everything so far, low byte first.
pub open spec fn framed(msg: Seq<u8>) -> Seq<u8> {
    let body = seq![(msg.len() + 3) as u8] + msg;
    let c = checksum(body);
    body + seq![(c % 256) as u8, (c / 256) as u8]
}

/// The variants with an outward wire representation: the responses.  Their
/// address must fit the four-bit address field.
pub open spec fn encodable(m: IBusMsg) -> bool {
    match m {
        IBusMsg::DiscoveryResponse(a) => a < 16,
        IBusMsg::TypeResponse(a, _, _) => a < 16,
        IBusMsg::ValueResponseShort(a, _) => a < 16,
        IBusMsg::ValueResponseLong(a, _) => a < 16,
        _ => false,
    }
}

/// The payload bytes of an encodable message: the command/address byte, then
/// the variant's own data, little-endian.
pub open spec fn payload_bytes(m: IBusMsg) -> Seq<u8> {
    match m {
        IBusMsg::DiscoveryResponse(a) => seq![(DISCOVER + a) as u8],
        IBusMsg::TypeResponse(a, t, l) => seq![
            (TYPE + a) as u8,
            sensor_code(t),
            sensor_length_code(l),
        ],
        IBusMsg::ValueResponseShort(a, v) => seq![
            (VALUE + a) as u8,
            (v & 0xff) as u8,
            (v >> 8) as u8,
        ],
        IBusMsg::ValueResponseLong(a, v) => seq![
            (VALUE + a) as u8,
            (v & 0xff) as u8,
            ((v >> 8) & 0xff) as u8,
            ((v >> 16) & 0xff) as u8,
            ((v >> 24) & 0xff) as u8,
        ],
        _ => Seq::empty(),
    }
}

/// Checksum round-trip, frame level: for any payload the encoder accepts
/// (command/address byte first, a known command nibble, and — for the
/// fixed-size commands — exactly one payload byte, so the frame is four bytes
/// long), the frame the encoder builds passes every check of the decoder's
/// resynchronization test: the checksum written over the frame verifies, the
/// declared length is legal and covers the whole frame, and the decoder
/// consumes exactly the bytes the encoder produced.
pub proof fn lemma_frame_roundtrip(msg: Seq<u8>)
    requires
        1 <= msg.len() <= 29,
        ({
            let c = msg[0] & 0xf0;
            c == SET || c == TYPE || c == VALUE || c == DISCOVER
        }),
        (msg[0] & 0xf0) != SET ==> msg.len() == 1,
    ensures
        framed(msg).len() == msg.len() + 3,
        framed(msg)[0] == msg.len() + 3,
        cmd_of(framed(msg)) == (msg[0] & 0xf0),
        addr_of(framed(msg)) == (msg[0] & 0x0f),
        !needs_resync(framed(msg)),
        frame_ready(framed(msg)),
{
    let n = msg.len() as int;
    let length = (n + 3) as u8;
    let body = seq![length] + msg;
    let f = framed(msg);
    lemma_checksum_bounds(body);
    assert(f =~= body + seq![(checksum(body) % 256) as u8, (checksum(body) / 256) as u8]);
    assert(f[0] == length);
    assert(f[1] == msg[0]);
    assert(f.take(n + 1) =~= body);
    assert(f[n + 1] == (checksum(body) % 256) as u8);
    assert(f[n + 2] == (checksum(body) / 256) as u8);
    assert(crc_ok(f));
    assert(cmd_ok(f));
}

/// Checksum round-trip, message level: a discovery response is the one
/// outbound variant whose frame the inbound decoder accepts again, since
/// every other response frame is longer than the four bytes the decoder
/// demands of its command.  Decoding the bytes its encoding produced yields
/// the discovery request that carries the same address, and consumes every
/// produced byte.
pub proof fn lemma_encode_decode_discovery(a: u8)
    requires
        a < 16,
    ensures
        ({
            let f = framed(payload_bytes(IBusMsg::DiscoveryResponse(a)));
            &&& !needs_resync(f)
            &&& frame_ready(f)
            &&& f.len() == 4
            &&& f[0] == f.len()
            &&& decode_matches(f, Some(IBusMsg::DiscoveryRequest(a)))
        }),
{
    let p = payload_bytes(IBusMsg::DiscoveryResponse(a));
    assert(p =~= seq![(DISCOVER + a) as u8]);
    assert(((DISCOVER + a) as u8) & 0xf0 == DISCOVER && ((DISCOVER + a) as u8) & 0x0f == a)
        by (bit_vector)
        requires
            a < 16,
    ;
    lemma_frame_roundtrip(p);
}

/// Removes and returns the next message.  Bytes that cannot start a valid
/// frame are discarded one at a time; after that the buffer either still
/// waits for the rest of a frame (nothing more is removed, `None` comes
/// back) or holds a whole validated frame, which is decoded and removed in
/// full.
#[allow(non_snake_case)]
pub fn popIBusMsg<const SIZE: usize>(buffer: &mut Deque<u8, SIZE>) -> (r: Option<IBusMsg>)
    requires
        old(buffer).wf(),
    ensures
        final(buffer).wf(),
        ({
            let rest = old(buffer)@.skip(resync_drops(old(buffer)@) as int);
            &&& !frame_ready(rest) ==> r is None && final(buffer)@ == rest
            &&& frame_ready(rest) ==> decode_matches(rest, r) && final(buffer)@ == rest.skip(
                rest[0] as int,
            )
        }),
{
    let ghost orig = buffer@;
    let ghost rest = orig.skip(resync_drops(orig) as int);
    loop
        invariant
            buffer.wf(),
            rest == old(buffer)@.skip(resync_drops(old(buffer)@) as int),
            buffer@.skip(resync_drops(buffer@) as int) == rest,
        decreases buffer@.len(),
    {
        let (msg, step) = crate::ibus::popIBusMsg(&*buffer);
        if step == 0 {
            // No resync needed and no whole frame yet: wait for more bytes.
            proof {
                assert(!needs_resync(buffer@));
                assert(buffer@.skip(0) =~= buffer@);
            }
            return None;
        }
        if let Some(m) = msg {
            // A whole frame was decoded; remove exactly its declared length.
            proof {
                assert(!needs_resync(buffer@));
                assert(buffer@.skip(0) =~= buffer@);
                assert(buffer@ == rest);
            }
            let length: u8 = step;
            let mut i: u8 = 0;
            while i < length
                invariant
                    buffer.wf(),
                    i <= length,
                    rest.len() >= length,
                    buffer@ == rest.skip(i as int),
                decreases length - i,
            {
                proof {
                    assert(rest.skip(i as int).skip(1) =~= rest.skip(i as int + 1));
                }
                buffer.pop();
                i += 1;
            }
            return Some(m);
        }
        // The front byte cannot start a valid frame: drop it and retry.
        proof {
            assert(needs_resync(buffer@)) by {
                if !needs_resync(buffer@) {
                    if frame_ready(buffer@) {
                        assert(cmd_ok(buffer@));
                        assert(buffer@[0] >= 4);
                    }
                }
            }
            let ghost s = buffer@;
            assert(s.skip(1).skip(resync_drops(s.skip(1)) as int) =~= s.skip(
                1 + resync_drops(s.skip(1)) as int,
            )) by {
                lemma_resync_drops_le(s.skip(1));
            }
        }
        buffer.pop();
    }
}

/// Frames `msg` — length byte, payload, two checksum bytes — and pushes the
/// whole sequence into `buffer`.  A payload whose composed length byte would
/// fall outside the legal range is silently skipped, mirroring the buffer's
/// own lossy overflow policy.
#[allow(non_snake_case)]
fn pushMsg<const SIZE: usize>(msg: &[u8], buffer: &mut Deque<u8, SIZE>)
    requires
        old(buffer).wf(),
    ensures
        final(buffer).wf(),
        msg@.len() + 3 < MIN_LENGTH || msg@.len() + 3 > MAX_LENGTH
            ==> final(buffer)@ == old(buffer)@,
        MIN_LENGTH <= msg@.len() + 3 <= MAX_LENGTH ==> final(buffer)@ == loaded(
            old(buffer)@,
            SIZE - 1,
            framed(msg@),
        ),
        MIN_LENGTH <= msg@.len() + 3 <= MAX_LENGTH && old(buffer)@.len() + msg@.len() + 3 <= SIZE
            - 1 ==> final(buffer)@ == old(buffer)@ + framed(msg@),
{
    let n: usize = msg.len();
    if n < (MIN_LENGTH as usize - 3) || n > (MAX_LENGTH as usize - 3) {
        return ;
    }
    let length: u8 = (n + 3) as u8;
    let ghost frame = framed(msg@);
    let ghost body = seq![length] + msg@;
    proof {
        lemma_checksum_bounds(body);
        assert(frame.len() == n + 3);
        assert(frame =~= body + seq![(checksum(body) % 256) as u8, (checksum(body) / 256) as u8]);
        assert(frame.take(1) =~= seq![length]);
        assert(seq![length].drop_last() =~= Seq::<u8>::empty());
    }
    let mut crc: u16 = 0xffff;
    buffer.push(length);
    proof {
        lemma_loaded_snoc(old(buffer)@, SIZE - 1, Seq::<u8>::empty(), length);
        assert(Seq::<u8>::empty().push(length) =~= frame.take(1));
        assert(loaded(old(buffer)@, SIZE - 1, Seq::<u8>::empty()) == old(buffer)@);
    }
    crc = crc - (length as u16);
    proof {
        assert(msg@.take(0) =~= Seq::<u8>::empty());
        assert(seq![length] + msg@.take(0) =~= seq![length]);
        assert(seq![length].last() == length);
        assert(seq![length].drop_last() =~= Seq::<u8>::empty());
        assert(checksum(Seq::<u8>::empty()) == 0xffff);
        assert(checksum(seq![length]) == checksum(seq![length].drop_last()) - length);
    }
    let mut i: usize = 0;
    while i < n
        invariant
            buffer.wf(),
            i <= n,
            1 <= n <= 29,
            n == msg@.len(),
            length == n + 3,
            frame == framed(msg@),
            frame.len() == n + 3,
            buffer@ == loaded(old(buffer)@, SIZE - 1, frame.take(1 + i)),
            crc as int == checksum(seq![length] + msg@.take(i as int)),
        decreases n - i,
    {
        let b: u8 = msg[i];
        proof {
            let part = seq![length] + msg@.take(i as int);
            lemma_checksum_bounds(part);
            assert(part.len() == 1 + i);
            assert((seq![length] + msg@.take(i as int + 1)).drop_last() =~= part);
            assert((seq![length] + msg@.take(i as int + 1)).last() == msg@[i as int]);
            assert(frame.take(1 + i as int + 1) =~= frame.take(1 + i as int).push(msg@[i as int]));
            lemma_loaded_snoc(old(buffer)@, SIZE - 1, frame.take(1 + i as int), msg@[i as int]);
        }
        buffer.push(b);
        crc = crc - (b as u16);
        i += 1;
    }
    proof {
        assert(seq![length] + msg@.take(n as int) =~= body);
        lemma_checksum_bounds(body);
        assert((crc & 0xff) == crc % 256 && (crc >> 8) == crc / 256 && (crc & 0xff) < 256 && (crc
            >> 8) < 256) by (bit_vector);
        assert(frame.take(1 + n as int + 1) =~= frame.take(1 + n as int).push(frame[1 + n as int]));
        assert(frame[1 + n as int] == (checksum(body) % 256) as u8);
        lemma_loaded_snoc(old(buffer)@, SIZE - 1, frame.take(1 + n as int), frame[1 + n as int]);
    }
    buffer.push((crc & 0xff) as u8);
    proof {
        assert(frame.take(n as int + 3) =~= frame.take(n as int + 2).push(frame[n as int + 2]));
        assert(frame[n as int + 2] == (checksum(body) / 256) as u8);
        lemma_loaded_snoc(old(buffer)@, SIZE - 1, frame.take(n as int + 2), frame[n as int + 2]);
    }
    buffer.push((crc >> 8) as u8);
    proof {
        assert(frame.take(n as int + 3) =~= frame);
        if old(buffer)@.len() + n + 3 <= SIZE - 1 {
            lemma_loaded_fits(old(buffer)@, SIZE - 1, frame);
        }
    }
}

/// Frames and pushes an outbound response.  The message must be one of the
/// response variants, with an address that fits the four-bit address field;
/// request variants have no outward representation.
#[allow(non_snake_case)]
pub fn pushIBusMsg<const SIZE: usize>(msg: &IBusMsg, buffer: &mut Deque<u8, SIZE>)
    requires
        old(buffer).wf(),
        encodable(*msg),
    ensures
        final(buffer).wf(),
        final(buffer)@ == loaded(old(buffer)@, SIZE - 1, framed(payload_bytes(*msg))),
        old(buffer)@.len() + payload_bytes(*msg).len() + 3 <= SIZE - 1 ==> final(buffer)@ == old(
            buffer,
        )@ + framed(payload_bytes(*msg)),
{
    match msg {
        IBusMsg::DiscoveryResponse(addr) => {
            let payload: [u8; 1] = [DISCOVER + *addr];
            pushMsg(payload.as_slice(), buffer);
            proof {
                assert(payload@ =~= payload_bytes(*msg));
            }
        },
        IBusMsg::TypeResponse(addr, sensortype, length) => {
            let payload: [u8; 3] = [TYPE + *addr, sensortype.code(), length.code()];
            pushMsg(payload.as_slice(), buffer);
            proof {
                assert(payload@ =~= payload_bytes(*msg));
            }
        },
        IBusMsg::ValueResponseShort(addr, value) => {
            let payload: [u8; 3] = [VALUE + *addr, (*value & 0xff) as u8, (*value >> 8) as u8];
            pushMsg(payload.as_slice(), buffer);
            proof {
                assert(payload@ =~= payload_bytes(*msg));
            }
        },
        IBusMsg::ValueResponseLong(addr, value) => {
            let payload: [u8; 5] = [
                VALUE + *addr,
                (*value & 0xff) as u8,
                ((*value >> 8) & 0xff) as u8,
                ((*value >> 16) & 0xff) as u8,
                ((*value >> 24) & 0xff) as u8,
            ];
            pushMsg(payload.as_slice(), buffer);
            proof {
                assert(payload@ =~= payload_bytes(*msg));
            }
        },
        _ => {
            proof {
                assert(false);
            }
        },
    }
}

} // verus!
