//! Framing of Solarman frames over a byte stream buffer.
use vstd::prelude::*;

use tokio_util::bytes::BytesMut;

use crate::protocol::{
    lemma_request_frame_roundtrip, parse_frame, spec_parse_frame, Error, Frame, FrameModel,
    PacketEncode, PacketModel, ParseOutcome, ParsedFrame, RequestPacket, CTL_REQUEST,
};

verus! {

/// `bytes::BytesMut` (re-exported by `tokio_util`), the growable byte buffer
/// that the codec reads frames from and writes frames into. Its contents are
/// known to the proofs only through `bytes_contents`.
#[verifier::external_type_specification]
#[verifier::external_body]
pub struct ExBytesMut(BytesMut);

/// The bytes held by a `BytesMut` buffer.
pub uninterp spec fn bytes_contents(b: BytesMut) -> Seq<u8>;

/// `BytesMut::len`: the number of bytes held by the buffer.
#[verifier::external_body]
fn bytes_len(b: &BytesMut) -> (n: usize)
    ensures
        n == bytes_contents(*b).len(),
{
    b.len()
}

/// `BytesMut::resize`: truncates the buffer to `new_len` bytes, or extends it
/// to `new_len` bytes with copies of `value`.
#[verifier::external_body]
fn bytes_resize(b: &mut BytesMut, new_len: usize, value: u8)
    ensures
        bytes_contents(*final(b)) == if new_len <= bytes_contents(*old(b)).len() {
            bytes_contents(*old(b)).take(new_len as int)
        } else {
            bytes_contents(*old(b)) + Seq::new(
                (new_len - bytes_contents(*old(b)).len()) as nat,
                |i: int| value,
            )
        },
{
    b.resize(new_len, value)
}

/// `<BytesMut as DerefMut>::deref_mut`: the held bytes as a mutable slice;
/// what is written through the slice is what the buffer then holds.
#[verifier::external_body]
fn bytes_as_mut_slice(b: &mut BytesMut) -> (s: &mut [u8])
    ensures
        s@ == bytes_contents(*old(b)),
        bytes_contents(*final(b)) == final(s)@,
{
    &mut *b
}

/// `<BytesMut as Deref>::deref`: the held bytes as a slice.
#[verifier::external_body]
fn bytes_as_slice(b: &BytesMut) -> (s: &[u8])
    ensures
        s@ == bytes_contents(*b),
{
    &*b
}

/// `<BytesMut as Buf>::advance`: drops the first `cnt` bytes of the buffer.
#[verifier::external_body]
fn bytes_advance(b: &mut BytesMut, cnt: usize)
    requires
        cnt <= bytes_contents(*old(b)).len(),
    ensures
        bytes_contents(*final(b)) == bytes_contents(*old(b)).skip(cnt as int),
{
    tokio_util::bytes::Buf::advance(b, cnt)
}

/// Encoder and decoder of Solarman frames on a byte stream.
pub struct SolarmanCodec;

impl SolarmanCodec {
    /// Whether the bytes of `frame` can be appended to `dst` without its
    /// length overflowing `usize` (see [`SolarmanCodec::encode`]).
    pub fn has_room<P: PacketEncode>(frame: &Frame<P>, dst: &BytesMut) -> (b: bool)
        requires
            frame.packet.encodable(),
        ensures
            b == (bytes_contents(*dst).len() + frame.spec_encoding().len() <= usize::MAX),
    {
        let n = bytes_len(dst);
        let sz = frame.size();
        n <= usize::MAX - sz
    }

    /// Appends the bytes of `frame` to `dst`.
    pub fn encode<P: PacketEncode>(&mut self, frame: Frame<P>, dst: &mut BytesMut) -> (r:
        Result<(), std::io::Error>)
        requires
            frame.packet.encodable(),
            bytes_contents(*old(dst)).len() + frame.spec_encoding().len() <= usize::MAX,
        ensures
            r is Ok,
            bytes_contents(*final(dst)) == bytes_contents(*old(dst)) + frame.spec_encoding(),
    {
        let init_len = bytes_len(dst);
        let frame_sz = frame.size();
        let ghost before = bytes_contents(*dst);
        bytes_resize(dst, init_len + frame_sz, 0);
        let buf = bytes_as_mut_slice(dst);
        let (_, tail) = buf.split_at_mut(init_len);
        frame.encode(tail);
        assert(bytes_contents(*dst) =~= before + frame.spec_encoding());
        Ok(())
    }

    /// Takes the next frame from the start of `src`.
    ///
    /// Returns `Ok(None)`, leaving `src` as it was, when `src` does not yet
    /// hold a whole frame; an error, leaving `src` as it was, when the frame at
    /// its start is broken; and otherwise the frame, after dropping its bytes
    /// from `src`.
    pub fn decode(&mut self, src: &mut BytesMut) -> (r: crate::protocol::Result<
        Option<ParsedFrame>,
    >)
        ensures
            match spec_parse_frame(bytes_contents(*old(src))) {
                ParseOutcome::Parsed(f, n) => {
                    &&& r matches Ok(Some(frame)) && frame@ == f
                    &&& bytes_contents(*final(src)) == bytes_contents(*old(src)).skip(n as int)
                },
                ParseOutcome::Incomplete => {
                    &&& r matches Ok(None)
                    &&& bytes_contents(*final(src)) == bytes_contents(*old(src))
                },
                ParseOutcome::Malformed => {
                    &&& r matches Err(Error::Malformed)
                    &&& bytes_contents(*final(src)) == bytes_contents(*old(src))
                },
                ParseOutcome::BadChecksum(got, expected) => {
                    &&& r matches Err(Error::Checksum(g, e)) && g == got && e == expected
                    &&& bytes_contents(*final(src)) == bytes_contents(*old(src))
                },
            },
    {
        let parsed = parse_frame(bytes_as_slice(src));
        match parsed {
            Ok(Some((packet, frame_size))) => {
                bytes_advance(src, frame_size);
                Ok(Some(packet))
            },
            Ok(None) => Ok(None),
            Err(e) => Err(e),
        }
    }
}

/// What the encoder appends for a request frame, the decoder takes back out:
/// a packet of unknown kind under the request control code carrying the
/// request packet's bytes, leaving whatever followed.
pub proof fn lemma_codec_request_roundtrip(frame: Frame<RequestPacket>, rest: Seq<u8>)
    requires
        frame.packet.encodable(),
    ensures
        spec_parse_frame(frame.spec_encoding() + rest) == ParseOutcome::Parsed(
            FrameModel {
                local_seq: frame.local_seq,
                remote_seq: frame.remote_seq,
                serial: frame.serial,
                packet: PacketModel::Unknown(CTL_REQUEST, frame.packet.spec_bytes()),
            },
            frame.spec_encoding().len(),
        ),
        (frame.spec_encoding() + rest).skip(frame.spec_encoding().len() as int) == rest,
{
    lemma_request_frame_roundtrip(frame, rest);
    assert((frame.spec_encoding() + rest).skip(frame.spec_encoding().len() as int) =~= rest);
}

} // verus!
