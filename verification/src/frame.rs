//! Frames: `cmd(1) | stream_id(BE u32) | data_len(BE u16) | data`.
use crate::anytls_proto::{Command, FRAME_HEADER_SIZE};
use vstd::prelude::*;

verus! {

/// `n` in two bytes, the high one first; what does not fit is cut off.
pub open spec fn be16(n: nat) -> Seq<u8> {
    seq![(n / 256 % 256) as u8, (n % 256) as u8]
}

/// `n` in four bytes, the high one first.
pub open spec fn be32(n: u32) -> Seq<u8> {
    seq![
        (n as nat / 16777216) as u8,
        (n as nat / 65536 % 256) as u8,
        (n as nat / 256 % 256) as u8,
        (n as nat % 256) as u8,
    ]
}

pub open spec fn read16(high: u8, low: u8) -> nat {
    high as nat * 256 + low as nat
}

pub open spec fn read32(a: u8, b: u8, c: u8, d: u8) -> nat {
    a as nat * 16777216 + b as nat * 65536 + c as nat * 256 + d as nat
}

/// Two bytes hold what fits into them.
pub proof fn lemma_be16(n: nat)
    requires
        n <= 65535,
    ensures
        read16(be16(n)[0], be16(n)[1]) == n,
{
}

/// Four bytes hold what fits into them.
pub proof fn lemma_be32(n: u32)
    ensures
        read32(be32(n)[0], be32(n)[1], be32(n)[2], be32(n)[3]) == n,
{
}

/// The header of a frame. The length field holds the low sixteen bits of the length.
pub open spec fn header_bytes(cmd: Command, stream_id: u32, data_len: nat) -> Seq<u8> {
    seq![cmd.code()] + be32(stream_id) + be16(data_len)
}

/// A frame on the wire.
pub open spec fn frame_bytes(cmd: Command, stream_id: u32, data: Seq<u8>) -> Seq<u8> {
    header_bytes(cmd, stream_id, data.len()) + data
}

/// A frame as the contracts see it: the command byte, the stream and the data.
#[verifier::ext_equal]
pub struct FrameView {
    pub cmd: u8,
    pub stream_id: u32,
    pub data: Seq<u8>,
}

/// What stands in a header.
#[derive(Debug, Clone, Copy, PartialEq, Eq, Structural)]
pub struct FrameHeader {
    pub cmd: u8,
    pub stream_id: u32,
    pub data_len: u16,
}

/// A frame as it was read.
#[derive(Debug)]
pub struct Frame {
    pub cmd: Command,
    pub stream_id: u32,
    pub data: Vec<u8>,
}

impl View for Frame {
    type V = FrameView;

    open spec fn view(&self) -> FrameView {
        FrameView { cmd: self.cmd.code(), stream_id: self.stream_id, data: self.data@ }
    }
}

/// The header that the first seven bytes hold.
pub open spec fn header_of(bytes: Seq<u8>) -> FrameHeader
    recommends
        bytes.len() >= FRAME_HEADER_SIZE,
{
    FrameHeader {
        cmd: bytes[0],
        stream_id: read32(bytes[1], bytes[2], bytes[3], bytes[4]) as u32,
        data_len: read16(bytes[5], bytes[6]) as u16,
    }
}

/// The frame that `bytes` begin with and what stands behind it; nothing where
/// they end before the frame does.
pub open spec fn frame_of(bytes: Seq<u8>) -> Option<(FrameView, Seq<u8>)> {
    if bytes.len() < FRAME_HEADER_SIZE {
        None
    } else {
        let header = header_of(bytes);
        let end = FRAME_HEADER_SIZE + header.data_len;
        if bytes.len() < end {
            None
        } else {
            Some((
                FrameView {
                    cmd: header.cmd,
                    stream_id: header.stream_id,
                    data: bytes.subrange(FRAME_HEADER_SIZE as int, end),
                },
                bytes.skip(end),
            ))
        }
    }
}

/// Appends `data` to `out`.
pub fn append_bytes(out: &mut Vec<u8>, data: &[u8])
    ensures
        final(out)@ == old(out)@ + data@,
{
    out.extend_from_slice(data);
    assert(out@ =~= old(out)@ + data@);
}

/// Appends the low sixteen bits of `n`, the high byte first.
pub fn append_be16(out: &mut Vec<u8>, n: usize)
    ensures
        final(out)@ == old(out)@ + be16(n as nat),
{
    out.push((n / 256 % 256) as u8);
    out.push((n % 256) as u8);
    assert(out@ =~= old(out)@ + be16(n as nat));
}

impl FrameHeader {
    /// Reads a header; nothing where there are fewer than seven bytes.
    pub fn parse(bytes: &[u8]) -> (r: Option<FrameHeader>)
        ensures
            match r {
                Some(header) => bytes@.len() >= FRAME_HEADER_SIZE && header == header_of(bytes@),
                None => bytes@.len() < FRAME_HEADER_SIZE,
            },
    {
        if bytes.len() < FRAME_HEADER_SIZE {
            return None;
        }
        let stream_id: u32 = bytes[1] as u32 * 16777216 + bytes[2] as u32 * 65536 + bytes[3] as u32
            * 256 + bytes[4] as u32;
        let data_len: u16 = bytes[5] as u16 * 256 + bytes[6] as u16;
        Some(FrameHeader { cmd: bytes[0], stream_id, data_len })
    }
}

/// Reads the frame that `bytes` begin with; nothing where they end before the
/// frame does. The command byte of a whole frame has to stand for a command.
pub fn read_frame(bytes: &[u8]) -> (r: Option<Frame>)
    requires
        frame_of(bytes@) matches Some((view, _)) ==> Command::known(view.cmd),
    ensures
        match r {
            Some(frame) => frame_of(bytes@) matches Some((view, _)) && frame@ == view && frame.cmd
                == Command::decode(view.cmd),
            None => frame_of(bytes@) is None,
        },
{
    match FrameHeader::parse(bytes) {
        None => None,
        Some(header) => {
            let end: usize = FRAME_HEADER_SIZE + header.data_len as usize;
            if bytes.len() < end {
                return None;
            }
            let data: Vec<u8> = vstd::slice::slice_to_vec(
                vstd::slice::slice_subrange(bytes, FRAME_HEADER_SIZE, end),
            );
            Some(Frame { cmd: Command::from(header.cmd), stream_id: header.stream_id, data })
        },
    }
}

/// The bytes of a frame.
pub fn write_frame(cmd: Command, stream_id: u32, data: &[u8]) -> (bytes: Vec<u8>)
    ensures
        bytes@ == frame_bytes(cmd, stream_id, data@),
{
    let mut out: Vec<u8> = Vec::new();
    out.push(u8::from(cmd));
    out.push((stream_id / 16777216) as u8);
    out.push((stream_id / 65536 % 256) as u8);
    out.push((stream_id / 256 % 256) as u8);
    out.push((stream_id % 256) as u8);
    append_be16(&mut out, data.len());
    append_bytes(&mut out, data);
    assert(out@ =~= frame_bytes(cmd, stream_id, data@));
    out
}

/// A frame of up to 65535 bytes of data is read back from its bytes, whatever
/// stands behind them.
pub proof fn law_frame_round_trip(cmd: Command, stream_id: u32, data: Seq<u8>, rest: Seq<u8>)
    requires
        data.len() <= 65535,
    ensures
        frame_of(frame_bytes(cmd, stream_id, data) + rest) == Some(
            (FrameView { cmd: cmd.code(), stream_id, data }, rest),
        ),
{
    let bytes = frame_bytes(cmd, stream_id, data) + rest;
    let header = header_bytes(cmd, stream_id, data.len());
    assert(header.len() == 7);
    assert forall|i: int| 0 <= i < 7 implies bytes[i] == header[i] by {}
    lemma_be32(stream_id);
    lemma_be16(data.len());
    assert(header_of(bytes).stream_id == stream_id);
    assert(header_of(bytes).data_len == data.len());
    assert(bytes.subrange(7, 7int + data.len()) =~= data);
    assert(bytes.skip(7int + data.len()) =~= rest);
}

/// A frame on its way to the server.
#[derive(Debug)]
pub struct Outgoing {
    pub stream_id: u32,
    pub cmd: Command,
    pub data: Vec<u8>,
}

/// A frame on its way to the server, as the contracts see it.
#[verifier::ext_equal]
pub struct OutgoingView {
    pub stream_id: u32,
    pub cmd: Command,
    pub data: Seq<u8>,
}

impl View for Outgoing {
    type V = OutgoingView;

    open spec fn view(&self) -> OutgoingView {
        OutgoingView { stream_id: self.stream_id, cmd: self.cmd, data: self.data@ }
    }
}

impl OutgoingView {
    pub open spec fn bytes(self) -> Seq<u8> {
        frame_bytes(self.cmd, self.stream_id, self.data)
    }

    /// The frame that the other side reads.
    pub open spec fn received(self) -> FrameView {
        FrameView { cmd: self.cmd.code(), stream_id: self.stream_id, data: self.data }
    }
}

impl Outgoing {
    /// The bytes of the frame.
    pub fn to_bytes(&self) -> (bytes: Vec<u8>)
        ensures
            bytes@ == self@.bytes(),
    {
        write_frame(self.cmd, self.stream_id, &self.data)
    }
}

/// The bytes of frames that are written one after the other.
pub open spec fn stream_bytes(frames: Seq<OutgoingView>) -> Seq<u8>
    decreases frames.len(),
{
    if frames.len() == 0 {
        Seq::empty()
    } else {
        frames[0].bytes() + stream_bytes(frames.drop_first())
    }
}

/// The frames that are read from `bytes`, up to where they end.
pub open spec fn frames_of(bytes: Seq<u8>) -> Seq<FrameView>
    decreases bytes.len(),
{
    match frame_of(bytes) {
        None => Seq::empty(),
        Some((frame, rest)) => seq![frame] + frames_of(rest),
    }
}

/// What is read is what was written: the same frames in the same order, each
/// of up to 65535 bytes of data.
pub proof fn law_stream_round_trip(frames: Seq<OutgoingView>)
    requires
        forall|i: int| 0 <= i < frames.len() ==> (#[trigger] frames[i]).data.len() <= 65535,
    ensures
        frames_of(stream_bytes(frames)) == frames.map_values(|f: OutgoingView| f.received()),
    decreases frames.len(),
{
    let read = frames.map_values(|f: OutgoingView| f.received());
    if frames.len() == 0 {
        assert(read =~= Seq::empty());
    } else {
        let rest = frames.drop_first();
        assert forall|i: int| 0 <= i < rest.len() implies (#[trigger] rest[i]).data.len()
            <= 65535 by {
            assert(rest[i] == frames[i + 1]);
        }
        law_stream_round_trip(rest);
        let first = frames[0];
        law_frame_round_trip(first.cmd, first.stream_id, first.data, stream_bytes(rest));
        assert(read =~= seq![first.received()] + rest.map_values(
            |f: OutgoingView| f.received(),
        ));
    }
}

/// A frame on the wire: one byte for the command, four for the stream and two for
/// the length, each with the high byte first, then the data. Of a length that
/// does not fit, the low sixteen bits are written.
pub proof fn law_frame_layout(cmd: Command, stream_id: u32, data: Seq<u8>)
    ensures
        ({
            let b = frame_bytes(cmd, stream_id, data);
            &&& b.len() == 7 + data.len()
            &&& b[0] == cmd.code()
            &&& b[1] * 16777216 + b[2] * 65536 + b[3] * 256 + b[4] == stream_id
            &&& b[5] * 256 + b[6] == data.len() % 65536
            &&& b.skip(7) == data
        }),
{
    let b = frame_bytes(cmd, stream_id, data);
    lemma_be32(stream_id);
    lemma_low16(data.len());
    assert(b.skip(7) =~= data);
}

/// Two bytes hold the low sixteen bits.
pub proof fn lemma_low16(n: nat)
    ensures
        be16(n).len() == 2,
        be16(n)[0] * 256 + be16(n)[1] == n % 65536,
{
}

/// A frame is read from seven bytes of header and as many bytes of data as the
/// header says, and what stands behind them is left; with fewer bytes there is none.
pub proof fn law_frame_reading(bytes: Seq<u8>)
    ensures
        frame_of(bytes) is Some <==> bytes.len() >= 7 && bytes.len() >= 7 + bytes[5] * 256
            + bytes[6],
        frame_of(bytes) matches Some((frame, rest)) ==> {
            &&& frame.cmd == bytes[0]
            &&& frame.stream_id == bytes[1] * 16777216 + bytes[2] * 65536 + bytes[3] * 256
                + bytes[4]
            &&& frame.data == bytes.subrange(7, 7 + bytes[5] * 256 + bytes[6])
            &&& rest == bytes.skip(7 + bytes[5] * 256 + bytes[6])
        },
{
}

/// What stands in a header of seven bytes.
pub proof fn law_header_reading(bytes: Seq<u8>)
    requires
        bytes.len() >= 7,
    ensures
        header_of(bytes).cmd == bytes[0],
        header_of(bytes).stream_id == bytes[1] * 16777216 + bytes[2] * 65536 + bytes[3] * 256
            + bytes[4],
        header_of(bytes).data_len == bytes[5] * 256 + bytes[6],
{
}

/// A frame that was read, and one that is to be sent, are what their fields hold.
pub proof fn law_frame_fields(frame: Frame, outgoing: Outgoing)
    ensures
        frame@.cmd == frame.cmd.code(),
        frame@.stream_id == frame.stream_id,
        frame@.data == frame.data@,
        outgoing@.cmd == outgoing.cmd,
        outgoing@.stream_id == outgoing.stream_id,
        outgoing@.data == outgoing.data@,
        outgoing@.bytes() == frame_bytes(outgoing.cmd, outgoing.stream_id, outgoing.data@),
{
}

} // verus!
