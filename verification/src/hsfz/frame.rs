//! HSFZ frames: encoding and decoding, without I/O.
//!
//! Wire layout (big-endian):
//!
//! ```text
//! [ LENGTH : u32 ] [ CONTROL : u16 ] [ body : LENGTH bytes ]
//! ```
//!
//! `LENGTH` counts only the bytes *after* the 6-byte length and control header. For a diagnostic
//! frame (control 0x01/0x02) the body is `[SRC][TGT][UDS...]`, so `LENGTH = 2 + len(UDS)`; for a
//! bare discovery frame (control 0x11) the body is empty, so `LENGTH = 0`.
use vstd::prelude::*;
use crate::bytes::{copy_range, push_be16, push_be32, push_bytes, read_be16, read_be32};
use crate::hsfz::control;
use crate::hsfz::Error;

verus! {

/// Header bytes before the length-counted body: `u32` length + `u16` control.
pub const HEADER_LEN: usize = 6;

/// Defensive cap on a decoded `LENGTH` before it is trusted.
///
/// A diagnostic exchange is at most a few KB; a value near this cap means a misframe. Rejecting
/// it up front turns a read that waits for bytes that never come into a clear error.
pub const MAX_FRAME_LEN: u32 = 65536;

/// One HSFZ frame.
///
/// `addr` holds the (source, target) logical addresses when the control word carries them:
/// diagnostic frames (0x01/0x02) and the 2-byte alive check (0x12). Other control words keep all
/// their bytes in `payload` and leave `addr` as `None`.
#[derive(Debug, Clone, PartialEq, Eq)]
pub struct HsfzFrame {
    pub control: u16,
    pub addr: Option<(u8, u8)>,
    pub payload: Vec<u8>,
}

/// What an [`HsfzFrame`] holds.
#[verifier::ext_equal]
pub struct FrameView {
    pub control: u16,
    pub addr: Option<(u8, u8)>,
    pub payload: Seq<u8>,
}

impl View for HsfzFrame {
    type V = FrameView;

    open spec fn view(&self) -> FrameView {
        FrameView { control: self.control, addr: self.addr, payload: self.payload@ }
    }
}

/// Whether a control word carries source and target bytes ahead of the payload: diagnostic
/// (0x01/0x02) always, and the alive check (0x12) only in its 2-byte form.
pub open spec fn carries_addrs(control: u16, body_len: int) -> bool {
    ||| control == control::DIAGNOSTIC
    ||| control == control::ACK
    ||| control == control::ALIVE_CHECK && body_len == 2
}

/// The length-counted part of a frame.
pub open spec fn body_of(frame: FrameView) -> Seq<u8> {
    match frame.addr {
        Some((src, tgt)) => seq![src, tgt] + frame.payload,
        None => frame.payload,
    }
}

/// The bytes of a frame on the wire.
pub open spec fn wire(frame: FrameView) -> Seq<u8> {
    crate::bytes::be32_bytes(body_of(frame).len() as u32) + crate::bytes::be16_bytes(frame.control)
        + body_of(frame)
}

/// The length field at the front of `buf`.
pub open spec fn length_field(buf: Seq<u8>) -> int {
    crate::bytes::be32(buf[0], buf[1], buf[2], buf[3])
}

/// The control word behind the length field of `buf`.
pub open spec fn control_field(buf: Seq<u8>) -> u16 {
    crate::bytes::be16(buf[4], buf[5]) as u16
}

/// The frame at the front of `buf`, or why there is none.
pub open spec fn frame_at_front(buf: Seq<u8>) -> Result<FrameView, Error> {
    if buf.len() < HEADER_LEN {
        Err(Error::Truncated { have: buf.len() as usize, need: HEADER_LEN })
    } else {
        let length = length_field(buf);
        let control = control_field(buf);
        let need = HEADER_LEN + length;
        if length > MAX_FRAME_LEN {
            Err(Error::FrameTooLarge { length: length as u32 })
        } else if buf.len() < need {
            Err(Error::Truncated { have: buf.len() as usize, need: need as usize })
        } else if carries_addrs(control, length) {
            if length < 2 {
                Err(Error::Truncated { have: need as usize, need: (HEADER_LEN + 2) as usize })
            } else {
                Ok(
                    FrameView {
                        control,
                        addr: Some((buf[6], buf[7])),
                        payload: buf.subrange(8, need),
                    },
                )
            }
        } else {
            Ok(FrameView { control, addr: None, payload: buf.subrange(6, need) })
        }
    }
}

/// Whether a frame has the form that its control word calls for and fits the length cap.
pub open spec fn well_formed(frame: FrameView) -> bool {
    &&& body_of(frame).len() <= MAX_FRAME_LEN
    &&& frame.addr is Some <==> carries_addrs(frame.control, body_of(frame).len() as int)
}

/// A well-formed frame survives the wire: decoding its encoding gives it back, whatever bytes
/// follow.
pub proof fn law_decode_inverts_encode(frame: FrameView, trailing: Seq<u8>)
    requires
        well_formed(frame),
    ensures
        frame_at_front(wire(frame) + trailing) == Ok::<FrameView, Error>(frame),
{
    let body = body_of(frame);
    let buf = wire(frame) + trailing;
    let length = body.len() as u32;
    crate::bytes::lemma_be32_round_trip(length);
    crate::bytes::lemma_be16_round_trip(frame.control);
    assert(buf.len() == HEADER_LEN + body.len() + trailing.len());
    assert(length_field(buf) == body.len());
    assert(control_field(buf) == frame.control);
    match frame.addr {
        Some((src, tgt)) => {
            assert(buf[6] == src && buf[7] == tgt);
            assert(buf.subrange(8, HEADER_LEN + body.len()) =~= frame.payload);
        },
        None => {
            assert(buf.subrange(6, HEADER_LEN + body.len()) =~= frame.payload);
        },
    }
}

/// Encoding a decoded frame gives back the bytes that it was decoded from, and the frame is
/// well-formed.
pub proof fn law_encode_inverts_decode(buf: Seq<u8>)
    requires
        frame_at_front(buf) is Ok,
    ensures
        well_formed(frame_at_front(buf)->Ok_0),
        wire(frame_at_front(buf)->Ok_0) == buf.take(HEADER_LEN + length_field(buf)),
{
    let frame = frame_at_front(buf)->Ok_0;
    let length = length_field(buf);
    crate::bytes::lemma_be32_written_back(buf[0], buf[1], buf[2], buf[3]);
    crate::bytes::lemma_be16_written_back(buf[4], buf[5]);
    assert(body_of(frame) =~= buf.subrange(6, HEADER_LEN + length));
    assert(body_of(frame).len() == length);
    assert(wire(frame) =~= buf.take(HEADER_LEN + length));
}

/// The length field counts the body alone, never the control word.
pub proof fn law_length_excludes_the_control_word(frame: FrameView)
    requires
        body_of(frame).len() <= u32::MAX,
    ensures
        length_field(wire(frame)) == body_of(frame).len(),
        wire(frame).len() == HEADER_LEN + body_of(frame).len(),
{
    crate::bytes::lemma_be32_round_trip(body_of(frame).len() as u32);
}

impl HsfzFrame {
    /// A diagnostic (control 0x01) frame carrying `uds` from `source` to `target`.
    pub fn diagnostic(source: u8, target: u8, uds: Vec<u8>) -> (r: HsfzFrame)
        ensures
            r@ == (FrameView {
                control: control::DIAGNOSTIC,
                addr: Some((source, target)),
                payload: uds@,
            }),
    {
        HsfzFrame { control: control::DIAGNOSTIC, addr: Some((source, target)), payload: uds }
    }

    /// The bare identification/discovery request (control 0x11, empty body): the datagram
    /// `00 00 00 00 00 11`.
    pub fn identification_request() -> (r: HsfzFrame)
        ensures
            r@ == (FrameView {
                control: control::IDENTIFICATION,
                addr: None,
                payload: Seq::<u8>::empty(),
            }),
            wire(r@) == seq![0u8, 0u8, 0u8, 0u8, 0u8, 0x11u8],
    {
        let r = HsfzFrame { control: control::IDENTIFICATION, addr: None, payload: Vec::new() };
        assert(wire(r@) =~= seq![0u8, 0u8, 0u8, 0u8, 0u8, 0x11u8]);
        r
    }

    /// Does this control word carry source and target bytes ahead of the payload?
    pub fn control_has_addrs(control: u16, body_len: usize) -> (r: bool)
        ensures
            r == carries_addrs(control, body_len as int),
    {
        control == control::DIAGNOSTIC || control == control::ACK || (control
            == control::ALIVE_CHECK && body_len == 2)
    }

    /// Encode to wire bytes: `[len:u32 BE][control:u16 BE][body]`.
    pub fn encode(&self) -> (r: Vec<u8>)
        ensures
            r@ == wire(self@),
    {
        let mut body: Vec<u8> = Vec::new();
        match self.addr {
            Some((src, tgt)) => {
                body.push(src);
                body.push(tgt);
            },
            None => {},
        }
        push_bytes(&mut body, self.payload.as_slice());
        assert(body@ =~= body_of(self@));
        let mut out: Vec<u8> = Vec::new();
        push_be32(&mut out, body.len() as u32);
        push_be16(&mut out, self.control);
        push_bytes(&mut out, body.as_slice());
        assert(out@ =~= wire(self@));
        out
    }

    /// Decode one complete frame from the front of `buf`.
    ///
    /// `buf` must hold the whole frame (`6 + LENGTH` bytes). An error on a buffer too short for
    /// the header, an implausibly large length, a body shorter than the length claims, or a
    /// diagnostic frame missing its address bytes.
    pub fn decode(buf: &[u8]) -> (r: Result<HsfzFrame, Error>)
        ensures
            match r {
                Ok(frame) => frame_at_front(buf@) == Ok::<FrameView, Error>(frame@),
                Err(e) => frame_at_front(buf@) == Err::<FrameView, Error>(e),
            },
    {
        if buf.len() < HEADER_LEN {
            return Err(Error::Truncated { have: buf.len(), need: HEADER_LEN });
        }
        let length: u32 = read_be32(buf[0], buf[1], buf[2], buf[3]);
        if length > MAX_FRAME_LEN {
            return Err(Error::FrameTooLarge { length });
        }
        let control: u16 = read_be16(buf[4], buf[5]);
        let body_len: usize = length as usize;
        let need: usize = HEADER_LEN + body_len;
        if buf.len() < need {
            return Err(Error::Truncated { have: buf.len(), need });
        }
        if Self::control_has_addrs(control, body_len) {
            if body_len < 2 {
                // An addressed control word with no room for the addresses.
                return Err(Error::Truncated { have: need, need: HEADER_LEN + 2 });
            }
            let payload = copy_range(buf, 8, need);
            Ok(HsfzFrame { control, addr: Some((buf[6], buf[7])), payload })
        } else {
            let payload = copy_range(buf, 6, need);
            Ok(HsfzFrame { control, addr: None, payload })
        }
    }
}

/// How many bytes follow a frame's four length bytes: the control word and the body.
///
/// The length is capped before it is trusted, so a misframed length cannot make a read wait for
/// bytes that never come.
pub fn remaining_len(len_buf: [u8; 4]) -> (r: Result<usize, Error>)
    ensures
        match r {
            Ok(n) => length_field(len_buf@) <= MAX_FRAME_LEN && n == 2 + length_field(len_buf@),
            Err(e) => length_field(len_buf@) > MAX_FRAME_LEN && e == (Error::FrameTooLarge {
                length: length_field(len_buf@) as u32,
            }),
        },
{
    let length: u32 = read_be32(len_buf[0], len_buf[1], len_buf[2], len_buf[3]);
    if length > MAX_FRAME_LEN {
        return Err(Error::FrameTooLarge { length });
    }
    Ok(2 + length as usize)
}

/// Reading as many bytes as [`remaining_len`] asks for leaves nothing of the frame missing: a
/// buffer of the four length bytes and those bytes never decodes as truncated for want of body.
pub proof fn law_remaining_len_completes_the_frame(len_buf: Seq<u8>, rest: Seq<u8>)
    requires
        len_buf.len() == 4,
        length_field(len_buf) <= MAX_FRAME_LEN,
        rest.len() == 2 + length_field(len_buf),
    ensures
        match frame_at_front(len_buf + rest) {
            Ok(frame) => wire(frame) == len_buf + rest,
            Err(e) => carries_addrs(control_field(len_buf + rest), length_field(len_buf))
                && length_field(len_buf) < 2,
        },
{
    let buf = len_buf + rest;
    assert(length_field(buf) == length_field(len_buf));
    if frame_at_front(buf) is Ok {
        law_encode_inverts_decode(buf);
        assert(buf.take(HEADER_LEN + length_field(buf)) =~= buf);
    }
}

/// What stands where on the wire: the length of the body in four bytes, the control word in two,
/// then, in a frame with addresses, the source, the target and the payload.
pub proof fn law_each_part_of_a_frame_stands_in_its_place(
    control: u16,
    src: u8,
    tgt: u8,
    payload: Seq<u8>,
)
    requires
        payload.len() + 2 <= u32::MAX,
    ensures
        ({
            let bytes = wire(FrameView { control, addr: Some((src, tgt)), payload });
            &&& bytes.len() == 8 + payload.len()
            &&& 16_777_216 * bytes[0] + 65_536 * bytes[1] + 256 * bytes[2] + bytes[3]
                == payload.len() + 2
            &&& 256 * bytes[4] + bytes[5] == control
            &&& bytes[6] == src
            &&& bytes[7] == tgt
            &&& bytes.skip(8) == payload
        }),
        ({
            let bytes = wire(FrameView { control, addr: None, payload });
            &&& bytes.len() == 6 + payload.len()
            &&& 16_777_216 * bytes[0] + 65_536 * bytes[1] + 256 * bytes[2] + bytes[3]
                == payload.len()
            &&& 256 * bytes[4] + bytes[5] == control
            &&& bytes.skip(6) == payload
        }),
{
    let with = FrameView { control, addr: Some((src, tgt)), payload };
    let bare = FrameView { control, addr: None, payload };
    law_length_excludes_the_control_word(with);
    law_length_excludes_the_control_word(bare);
    crate::bytes::lemma_be16_round_trip(control);
    assert(wire(with).skip(8) =~= payload);
    assert(wire(bare).skip(6) =~= payload);
}

/// Diagnostic frames and their echoes carry addresses, and so does an alive check of two bytes; no
/// other frame does.
pub proof fn law_only_diagnostic_frames_carry_addresses(control: u16, body_len: int)
    ensures
        carries_addrs(1, body_len),
        carries_addrs(2, body_len),
        carries_addrs(0x12, body_len) <==> body_len == 2,
        control != 1 && control != 2 && control != 0x12 ==> !carries_addrs(control, body_len),
{
}

/// A buffer is refused for what it lacks: the header, a plausible length, the body that the length
/// promises, or the addresses of a diagnostic frame. Nothing else is refused.
pub proof fn law_a_buffer_is_refused_for_what_it_lacks(buf: Seq<u8>)
    requires
        buf.len() <= usize::MAX,
    ensures
        buf.len() < 6 ==> frame_at_front(buf) == Err::<FrameView, Error>(
            Error::Truncated { have: buf.len() as usize, need: 6 },
        ),
        buf.len() >= 6 ==> {
            let length = 16_777_216 * buf[0] + 65_536 * buf[1] + 256 * buf[2] + buf[3];
            let control = 256 * buf[4] + buf[5];
            &&& length > 65_536 ==> frame_at_front(buf) == Err::<FrameView, Error>(
                Error::FrameTooLarge { length: length as u32 },
            )
            &&& length <= 65_536 && buf.len() < 6 + length ==> frame_at_front(buf) == Err::<
                FrameView,
                Error,
            >(Error::Truncated { have: buf.len() as usize, need: (6 + length) as usize })
            &&& length < 2 && buf.len() >= 6 + length && (control == 1 || control == 2)
                ==> frame_at_front(buf) == Err::<FrameView, Error>(
                Error::Truncated { have: (6 + length) as usize, need: 8 },
            )
            &&& length <= 65_536 && buf.len() >= 6 + length && !(length < 2 && (control == 1
                || control == 2)) ==> frame_at_front(buf) is Ok
        },
{
}

/// The model of a value says of each field what the field holds.
pub proof fn law_a_model_shows_what_its_value_holds(hsfz_frame: HsfzFrame)
    ensures
        hsfz_frame@.control == hsfz_frame.control,
        hsfz_frame@.addr == hsfz_frame.addr,
        hsfz_frame@.payload == hsfz_frame.payload@,
{
}

} // verus!
