//! Length-prefixed frames: four bytes, the most significant first, give the
//! length of the payload that follows.
use vstd::prelude::*;
use vstd::string::*;

use crate::ipc::{IoFailure, IoFailureKind};
use crate::text::{decimal, decimal_text, prefixed};

verus! {

/// Why a message could not be written or read.
#[derive(Debug, PartialEq, Eq)]
pub enum CodecError {
    Io(IoFailure),
    FrameTooLarge { actual: usize, maximum: usize },
    /// The payload is not a message, in the words of its reader.
    Json(String),
}

impl CodecError {
    /// The error in words. `place` tells which protocol failed, and ends in a
    /// space unless it is empty.
    pub open spec fn text(self, place: Seq<char>) -> Seq<char> {
        match self {
            CodecError::Io(error) => "I/O error: "@ + error.message@,
            CodecError::FrameTooLarge { actual, maximum } => place + "frame length "@ + decimal(
                actual as nat,
            ) + " exceeds the maximum of "@ + decimal(maximum as nat) + " bytes"@,
            CodecError::Json(message) => "invalid "@ + place + "JSON frame: "@ + message@,
        }
    }

    /// The error in words, for the session protocol.
    pub fn message(&self) -> (message: String)
        ensures
            message@ == self.text(Seq::empty()),
    {
        proof {
            reveal_strlit("");
        }
        let message = self.message_in("");
        assert(""@ =~= Seq::<char>::empty());
        message
    }

    /// The error in words, for the local-control protocol.
    pub fn local_control_message(&self) -> (message: String)
        ensures
            message@ == self.text("local-control "@),
    {
        self.message_in("local-control ")
    }

    fn message_in(&self, place: &str) -> (message: String)
        ensures
            message@ == self.text(place@),
    {
        match self {
            CodecError::Io(error) => prefixed("I/O error: ", error.message.as_str()),
            CodecError::FrameTooLarge { actual, maximum } => {
                let mut message = prefixed(place, "frame length ");
                message.append(decimal_text(*actual as u64).as_str());
                message.append(" exceeds the maximum of ");
                message.append(decimal_text(*maximum as u64).as_str());
                message.append(" bytes");
                message
            },
            CodecError::Json(source) => {
                let mut message = prefixed("invalid ", place);
                message.append("JSON frame: ");
                message.append(source.as_str());
                message
            },
        }
    }

    /// Whether the stream ended inside a frame.
    pub open spec fn is_truncation(self) -> bool {
        self matches CodecError::Io(error) && error.kind == IoFailureKind::UnexpectedEof
            && error.message@ == "early eof"@
    }
}

/// The prefix for a payload of `length` bytes.
pub open spec fn header(length: nat) -> Seq<u8> {
    seq![
        (length / 16_777_216 % 256) as u8,
        (length / 65_536 % 256) as u8,
        (length / 256 % 256) as u8,
        (length % 256) as u8,
    ]
}

/// The length that a prefix gives.
pub open spec fn declared(bytes: Seq<u8>) -> nat {
    (bytes[0] as nat) * 16_777_216 + (bytes[1] as nat) * 65_536 + (bytes[2] as nat) * 256 + (
    bytes[3] as nat)
}

/// A payload with its prefix.
pub open spec fn framed(payload: Seq<u8>) -> Seq<u8> {
    header(payload.len()) + payload
}

/// What the first frame of a byte stream is.
pub enum Leading {
    Incomplete,
    TooLarge(nat),
    Frame { payload: Seq<u8>, rest: Seq<u8> },
}

pub open spec fn leading(bytes: Seq<u8>, maximum: nat) -> Leading {
    if bytes.len() < 4 {
        Leading::Incomplete
    } else if declared(bytes) > maximum {
        Leading::TooLarge(declared(bytes))
    } else if bytes.len() < 4 + declared(bytes) {
        Leading::Incomplete
    } else {
        Leading::Frame {
            payload: bytes.subrange(4, 4 + declared(bytes) as int),
            rest: bytes.skip(4 + declared(bytes) as int),
        }
    }
}

proof fn header_declares(length: nat)
    requires
        length <= u32::MAX,
    ensures
        declared(header(length)) == length,
{
    assert(length == (length / 16_777_216) * 16_777_216 + (length / 65_536 % 256) * 65_536 + (
    length / 256 % 256) * 256 + length % 256) by (nonlinear_arith)
        requires
            length <= u32::MAX,
    ;
    assert(length / 16_777_216 < 256);
}

/// Puts a payload into a frame.
pub fn encode_frame(payload: &[u8], maximum: usize) -> (result: Result<Vec<u8>, CodecError>)
    requires
        maximum <= u32::MAX,
        maximum <= usize::MAX - 4,
    ensures
        match result {
            Ok(frame) => payload@.len() <= maximum && frame@ == framed(payload@),
            Err(error) => payload@.len() > maximum && error == (CodecError::FrameTooLarge {
                actual: payload@.len() as usize,
                maximum,
            }),
        },
{
    let length: usize = payload.len();
    if length > maximum {
        return Err(CodecError::FrameTooLarge { actual: length, maximum });
    }
    let mut frame: Vec<u8> = Vec::new();
    frame.push((length / 16_777_216 % 256) as u8);
    frame.push((length / 65_536 % 256) as u8);
    frame.push((length / 256 % 256) as u8);
    frame.push((length % 256) as u8);
    assert(frame@ =~= header(length as nat));
    frame.extend_from_slice(payload);
    assert(frame@ =~= framed(payload@));
    Ok(frame)
}

/// Collects bytes of a stream and takes frames off it.
pub struct FrameDecoder {
    maximum: usize,
    buffer: Vec<u8>,
}

impl FrameDecoder {
    /// The bytes that no frame was made of yet.
    pub closed spec fn pending(&self) -> Seq<u8> {
        self.buffer@
    }

    pub closed spec fn limit(&self) -> usize {
        self.maximum
    }

    pub fn new(maximum: usize) -> (decoder: Self)
        ensures
            decoder.pending().len() == 0,
            decoder.limit() == maximum,
    {
        FrameDecoder { maximum, buffer: Vec::new() }
    }

    /// Takes in the next bytes of the stream.
    pub fn push(&mut self, data: &[u8])
        ensures
            final(self).pending() == old(self).pending() + data@,
            final(self).limit() == old(self).limit(),
    {
        self.buffer.extend_from_slice(data);
        assert(self.pending() =~= old(self).pending() + data@);
    }

    /// Takes the next frame off, once all of it has arrived. A frame that is
    /// too large is refused as soon as its prefix is there.
    pub fn next_frame(&mut self) -> (result: Result<Option<Vec<u8>>, CodecError>)
        ensures
            final(self).limit() == old(self).limit(),
            match (leading(old(self).pending(), old(self).limit() as nat), result) {
                (Leading::Incomplete, Ok(None)) => final(self).pending() == old(self).pending(),
                (Leading::TooLarge(length), Err(CodecError::FrameTooLarge { actual, maximum })) => {
                    &&& actual == length
                    &&& maximum == old(self).limit()
                    &&& final(self).pending() == old(self).pending()
                },
                (Leading::Frame { payload, rest }, Ok(Some(frame))) => {
                    &&& frame@ == payload
                    &&& final(self).pending() == rest
                },
                _ => false,
            },
    {
        if self.buffer.len() < 4 {
            return Ok(None);
        }
        let length: usize = self.buffer[0] as usize * 16_777_216 + self.buffer[1] as usize * 65_536
            + self.buffer[2] as usize * 256 + self.buffer[3] as usize;
        assert(length == declared(self.buffer@));
        if length > self.maximum {
            return Err(CodecError::FrameTooLarge { actual: length, maximum: self.maximum });
        }
        if self.buffer.len() - 4 < length {
            return Ok(None);
        }
        let ghost before = self.buffer@;
        let rest = self.buffer.split_off(4 + length);
        let payload = self.buffer.split_off(4);
        self.buffer = rest;
        assert(payload@ =~= before.subrange(4, 4 + length));
        assert(self.buffer@ =~= before.skip(4 + length as int));
        Ok(Some(payload))
    }

    /// Whether the stream may end here: between two frames, and nowhere else.
    pub fn finish(&self) -> (result: Result<(), CodecError>)
        ensures
            result is Ok <==> self.pending().len() == 0,
            result matches Err(error) ==> error.is_truncation(),
    {
        if self.buffer.len() == 0 {
            Ok(())
        } else {
            Err(
                CodecError::Io(
                    IoFailure {
                        kind: IoFailureKind::UnexpectedEof,
                        message: "early eof".to_owned(),
                    },
                ),
            )
        }
    }
}

/// All frames at the start of a byte stream, and the bytes after them.
pub open spec fn all_frames(bytes: Seq<u8>, maximum: nat) -> (Seq<Seq<u8>>, Seq<u8>)
    decreases bytes.len(),
{
    match leading(bytes, maximum) {
        Leading::Frame { payload, rest } => {
            let (more, end) = all_frames(rest, maximum);
            (seq![payload] + more, end)
        },
        _ => (Seq::empty(), bytes),
    }
}

/// Payloads, framed one after the other.
pub open spec fn all_framed(payloads: Seq<Seq<u8>>) -> Seq<u8>
    decreases payloads.len(),
{
    if payloads.len() == 0 {
        Seq::empty()
    } else {
        framed(payloads[0]) + all_framed(payloads.skip(1))
    }
}

/// A frame is read back as the payload it was made of, whatever follows it.
pub proof fn a_frame_comes_back(payload: Seq<u8>, rest: Seq<u8>, maximum: nat)
    requires
        payload.len() <= maximum <= u32::MAX,
    ensures
        leading(framed(payload) + rest, maximum) == (Leading::Frame { payload, rest }),
{
    let bytes = framed(payload) + rest;
    header_declares(payload.len());
    assert(forall|i: int| 0 <= i < 4 ==> bytes[i] == header(payload.len())[i]);
    assert(declared(bytes) == payload.len());
    assert(bytes.subrange(4, 4 + payload.len() as int) =~= payload);
    assert(bytes.skip(4 + payload.len() as int) =~= rest);
}

/// Everything written to a stream is read back in order, and nothing else.
pub proof fn frames_come_back_in_order(payloads: Seq<Seq<u8>>, maximum: nat)
    requires
        maximum <= u32::MAX,
        forall|i: int| 0 <= i < payloads.len() ==> (#[trigger] payloads[i]).len() <= maximum,
    ensures
        all_frames(all_framed(payloads), maximum) == (payloads, Seq::<u8>::empty()),
    decreases payloads.len(),
{
    if payloads.len() == 0 {
        assert(all_frames(all_framed(payloads), maximum).0 =~= payloads);
    } else {
        let rest = payloads.skip(1);
        assert(forall|i: int| 0 <= i < rest.len() ==> rest[i] == payloads[i + 1]);
        frames_come_back_in_order(rest, maximum);
        a_frame_comes_back(payloads[0], all_framed(rest), maximum);
        assert(seq![payloads[0]] + rest =~= payloads);
    }
}

/// A frame that has begun to arrive is not given up: with more bytes a frame
/// already there stays the same.
pub proof fn later_bytes_change_no_frame(bytes: Seq<u8>, more: Seq<u8>, maximum: nat)
    ensures
        leading(bytes, maximum) matches Leading::Frame { payload, rest } ==> leading(
            bytes + more,
            maximum,
        ) == (Leading::Frame { payload, rest: rest + more }),
        leading(bytes, maximum) is TooLarge ==> leading(bytes + more, maximum) == leading(
            bytes,
            maximum,
        ),
{
    let all = bytes + more;
    if bytes.len() >= 4 {
        assert(forall|i: int| 0 <= i < 4 ==> all[i] == bytes[i]);
        assert(declared(all) == declared(bytes));
        if let Leading::Frame { payload, rest } = leading(bytes, maximum) {
            assert(all.subrange(4, 4 + declared(bytes) as int) =~= payload);
            assert(all.skip(4 + declared(bytes) as int) =~= rest + more);
        }
    }
}

/// A prefix writes the length in four digits to the base 256, the most
/// significant first.
pub proof fn the_prefix_is_the_length(length: nat)
    requires
        length <= u32::MAX,
    ensures
        header(length).len() == 4,
        length == 0x100_0000 * header(length)[0] + 0x1_0000 * header(length)[1] + 0x100 * header(
            length,
        )[2] + header(length)[3],
{
    header_declares(length);
    let bytes = header(length);
    assert(declared(bytes) == bytes[0] as nat * 16_777_216 + bytes[1] as nat * 65_536
        + bytes[2] as nat * 256 + bytes[3] as nat);
}

} // verus!
