//! The Solarman V5 framing protocol spoken by Solarman data logging sticks.
//!
//! A frame is laid out as
//! `A5 | len:u16le | control:u16le | local_seq | remote_seq | serial:u32le | packet | checksum | 15`,
//! where `len` is the length of `packet` and `checksum` is the sum, modulo 256,
//! of every byte between the start byte and the checksum itself.
use vstd::prelude::*;

verus! {

/// `std::io::Error`, carried by the `Io` variant of the errors.
#[verifier::external_type_specification]
#[verifier::external_body]
pub struct ExIoError(std::io::Error);

/// Error type used by the protocol layer.
#[derive(Debug)]
pub enum Error {
    /// An I/O error of the transport the frames travel over.
    Io(std::io::Error),
    /// The checksum byte of a frame (first value) differs from the checksum
    /// computed over its content (second value).
    Checksum(u8, u8),
    /// The packet does not contain a header.
    NoHeader,
    /// The start or the end byte of a frame is missing, or a response packet
    /// is too short to hold its fixed fields.
    Malformed,
}

impl From<std::io::Error> for Error {
    fn from(e: std::io::Error) -> (r: Error) {
        Error::Io(e)
    }
}

impl vstd::std_specs::convert::FromSpecImpl<std::io::Error> for Error {
    open spec fn obeys_from_spec() -> bool {
        true
    }

    open spec fn from_spec(e: std::io::Error) -> Error {
        Error::Io(e)
    }
}

pub type Result<T> = std::result::Result<T, Error>;

/// Control code of a request sent to the logging stick.
pub const CTL_REQUEST: u16 = 0x4510;

/// Control code of a response sent back by the logging stick.
pub const CTL_RESPONSE: u16 = 0x1510;

/// Start byte of every frame.
pub const FRAME_START: u8 = 0xA5;

/// End byte of every frame.
pub const FRAME_END: u8 = 0x15;

/// Bytes before the packet: start byte, length, control code, the two
/// sequence numbers and the logger serial.
pub const HEADER_LEN: usize = 11;

/// Bytes after the packet: checksum and end byte.
pub const TRAILER_LEN: usize = 2;

/// Sum of the bytes of `s`, modulo 256.
pub open spec fn spec_checksum(s: Seq<u8>) -> u8
    decreases s.len(),
{
    if s.len() == 0 {
        0
    } else {
        ((spec_checksum(s.drop_last()) + s.last()) % 256) as u8
    }
}

/// The Solarman checksum: the wrapping sum of all bytes of `buf`.
pub fn solarman_checksum(buf: &[u8]) -> (sum: u8)
    ensures
        sum == spec_checksum(buf@),
{
    let mut sum: u8 = 0;
    let mut i: usize = 0;
    while i < buf.len()
        invariant
            i <= buf@.len(),
            sum == spec_checksum(buf@.take(i as int)),
        decreases buf@.len() - i,
    {
        assert(buf@.take(i + 1).drop_last() == buf@.take(i as int));
        sum = sum.wrapping_add(buf[i]);
        i += 1;
    }
    assert(buf@.take(i as int) == buf@);
    sum
}

/// Little-endian bytes of a `u16`.
pub open spec fn le16(x: u16) -> Seq<u8> {
    seq![(x % 256) as u8, (x / 256) as u8]
}

/// Little-endian bytes of a `u32`.
pub open spec fn le32(x: u32) -> Seq<u8> {
    seq![(x % 256) as u8, ((x / 256) % 256) as u8, ((x / 65536) % 256) as u8, (x / 16777216) as u8]
}

/// The `u16` whose little-endian bytes are `lo`, `hi`.
pub open spec fn u16_from_le(lo: u8, hi: u8) -> u16 {
    (lo + 256 * hi) as u16
}

/// The `u32` whose little-endian bytes start at `s[at]`.
pub open spec fn u32_from_le(s: Seq<u8>, at: int) -> u32 {
    (s[at] + 256 * s[at + 1] + 65536 * s[at + 2] + 16777216 * s[at + 3]) as u32
}

/// Something that can be carried as the packet of a frame.
pub trait PacketEncode {
    /// The bytes of the encoded packet.
    spec fn spec_bytes(&self) -> Seq<u8>;

    /// The control code of the frame that carries the packet.
    spec fn spec_control_code(&self) -> u16;

    /// Whether the packet can be encoded at all.
    spec fn encodable(&self) -> bool;

    /// Encodes the packet to a byte buffer.
    /// The slice must have at least `size()` bytes of space; the bytes past
    /// the packet are left as they were.
    fn encode(&self, buf: &mut [u8])
        requires
            self.encodable(),
            old(buf)@.len() >= self.spec_bytes().len(),
        ensures
            final(buf)@ == self.spec_bytes() + old(buf)@.skip(self.spec_bytes().len() as int),
    ;

    /// Calculates the size of the packet in bytes.
    fn size(&self) -> (sz: u16)
        requires
            self.encodable(),
        ensures
            sz as int == self.spec_bytes().len(),
    ;

    /// Returns the control code corresponding to the packet.
    fn control_code(&self) -> (cc: u16)
        ensures
            cc == self.spec_control_code(),
    ;
}

/// Longest Modbus RTU payload a request packet carries.
pub const MAX_MODBUS_PAYLOAD: usize = 256;

/// Length of the fixed part of a request packet, before the Modbus payload.
pub const REQUEST_PREFIX_LEN: usize = 15;

/// Request packet in client mode.
#[derive(Debug, PartialEq)]
pub struct RequestPacket {
    /// Modbus RTU payload. Encoding requires it to be at most 256 bytes.
    pub modbus_payload: Box<[u8]>,
}

/// The fixed part of a request packet: frame type 2 followed by fourteen zero bytes.
pub open spec fn request_prefix() -> Seq<u8> {
    seq![2u8] + Seq::new(14, |i: int| 0u8)
}

impl View for RequestPacket {
    type V = Seq<u8>;

    open spec fn view(&self) -> Seq<u8> {
        self.modbus_payload@
    }
}

impl PacketEncode for RequestPacket {
    open spec fn spec_bytes(&self) -> Seq<u8> {
        request_prefix() + self.modbus_payload@
    }

    open spec fn spec_control_code(&self) -> u16 {
        CTL_REQUEST
    }

    open spec fn encodable(&self) -> bool {
        self.modbus_payload@.len() <= MAX_MODBUS_PAYLOAD
    }

    fn encode(&self, buf: &mut [u8]) {
        let ghost old_buf = buf@;
        let blen = buf.len();
        let n = self.modbus_payload.len();
        buf[0] = 2;
        let mut i: usize = 1;
        while i < REQUEST_PREFIX_LEN
            invariant
                1 <= i <= REQUEST_PREFIX_LEN,
                buf@.len() == old_buf.len(),
                old_buf.len() >= REQUEST_PREFIX_LEN + n,
                buf@[0] == 2,
                forall|j: int| 1 <= j < i ==> buf@[j] == 0,
                forall|j: int| i <= j < buf@.len() ==> buf@[j] == old_buf[j],
            decreases REQUEST_PREFIX_LEN - i,
        {
            buf[i] = 0;
            i += 1;
        }
        let mut k: usize = 0;
        while k < n
            invariant
                k <= n,
                n == self.modbus_payload@.len(),
                buf@.len() == old_buf.len(),
                old_buf.len() == blen,
                old_buf.len() >= REQUEST_PREFIX_LEN + n,
                buf@[0] == 2,
                forall|j: int| 1 <= j < REQUEST_PREFIX_LEN ==> buf@[j] == 0,
                forall|j: int| 0 <= j < k ==> buf@[REQUEST_PREFIX_LEN + j] == self.modbus_payload@[j],
                forall|j: int| REQUEST_PREFIX_LEN + k <= j < buf@.len() ==> buf@[j] == old_buf[j],
            decreases n - k,
        {
            buf[REQUEST_PREFIX_LEN + k] = self.modbus_payload[k];
            k += 1;
        }
        assert(buf@ =~= self.spec_bytes() + old_buf.skip(self.spec_bytes().len() as int));
    }

    fn size(&self) -> (sz: u16) {
        (REQUEST_PREFIX_LEN + self.modbus_payload.len()) as u16
    }

    fn control_code(&self) -> (cc: u16) {
        CTL_REQUEST
    }
}

/// Response packet in client mode.
#[derive(Debug, PartialEq)]
pub struct ResponsePacket {
    pub frame_type: u8,
    pub status: u8,
    pub total_working_time: u32,
    pub power_on_time: u32,
    pub offset_time: u32,
    pub modbus_payload: Box<[u8]>,
}

/// The content of a [`ResponsePacket`].
pub struct ResponseModel {
    pub frame_type: u8,
    pub status: u8,
    pub total_working_time: u32,
    pub power_on_time: u32,
    pub offset_time: u32,
    pub modbus_payload: Seq<u8>,
}

impl View for ResponsePacket {
    type V = ResponseModel;

    open spec fn view(&self) -> ResponseModel {
        ResponseModel {
            frame_type: self.frame_type,
            status: self.status,
            total_working_time: self.total_working_time,
            power_on_time: self.power_on_time,
            offset_time: self.offset_time,
            modbus_payload: self.modbus_payload@,
        }
    }
}

/// Enum returned as a result of packet parsing.
#[derive(Debug, PartialEq)]
pub enum ParsedPacket {
    Response(ResponsePacket),
    Unknown((u16, Box<[u8]>)),
}

/// The content of a [`ParsedPacket`].
pub enum PacketModel {
    Response(ResponseModel),
    Unknown(u16, Seq<u8>),
}

impl View for ParsedPacket {
    type V = PacketModel;

    open spec fn view(&self) -> PacketModel {
        match self {
            ParsedPacket::Response(r) => PacketModel::Response(r@),
            ParsedPacket::Unknown((cc, payload)) => PacketModel::Unknown(*cc, payload@),
        }
    }
}

#[derive(Debug, PartialEq)]
pub struct Frame<P> {
    /// Local sequence number.
    /// All incoming packets will have the same value here as the most recent outgoing frame.
    pub local_seq: u8,
    /// Remote sequence number.
    /// This is incremented by the logging stick for every frame **globally** (including Cloud and other connections).
    ///
    /// For outgoing frames this can be 0x00, the stick doesn't seem to care.
    pub remote_seq: u8,
    /// Serial number of the data logging stick.
    pub serial: u32,
    pub packet: P,
}

/// The content of a [`Frame`].
pub struct FrameModel<M> {
    pub local_seq: u8,
    pub remote_seq: u8,
    pub serial: u32,
    pub packet: M,
}

impl<P: View> View for Frame<P> {
    type V = FrameModel<P::V>;

    open spec fn view(&self) -> FrameModel<P::V> {
        FrameModel {
            local_seq: self.local_seq,
            remote_seq: self.remote_seq,
            serial: self.serial,
            packet: self.packet@,
        }
    }
}

/// A frame as it comes out of [`parse_frame`].
pub type ParsedFrame = Frame<ParsedPacket>;

/// The first bytes of a frame, up to the packet.
pub open spec fn frame_header(
    local_seq: u8,
    remote_seq: u8,
    serial: u32,
    control_code: u16,
    packet_len: u16,
) -> Seq<u8> {
    seq![FRAME_START] + le16(packet_len) + le16(control_code) + seq![local_seq, remote_seq]
        + le32(serial)
}

/// Everything between the start byte and the checksum of a frame.
pub open spec fn frame_body(
    local_seq: u8,
    remote_seq: u8,
    serial: u32,
    control_code: u16,
    packet: Seq<u8>,
) -> Seq<u8> {
    frame_header(local_seq, remote_seq, serial, control_code, packet.len() as u16).drop_first()
        + packet
}

/// The bytes of a whole frame.
pub open spec fn frame_bytes(
    local_seq: u8,
    remote_seq: u8,
    serial: u32,
    control_code: u16,
    packet: Seq<u8>,
) -> Seq<u8> {
    let body = frame_body(local_seq, remote_seq, serial, control_code, packet);
    seq![FRAME_START] + body + seq![spec_checksum(body), FRAME_END]
}

/// Writes the header of a frame into the first bytes of `buf`.
fn write_header(
    buf: &mut [u8],
    local_seq: u8,
    remote_seq: u8,
    serial: u32,
    control_code: u16,
    packet_len: u16,
)
    requires
        old(buf)@.len() >= HEADER_LEN,
    ensures
        final(buf)@ == frame_header(local_seq, remote_seq, serial, control_code, packet_len)
            + old(buf)@.skip(HEADER_LEN as int),
{
    let ghost old_buf = buf@;
    buf[0] = FRAME_START;
    buf[1] = (packet_len % 256) as u8;
    buf[2] = (packet_len / 256) as u8;
    buf[3] = (control_code % 256) as u8;
    buf[4] = (control_code / 256) as u8;
    buf[5] = local_seq;
    buf[6] = remote_seq;
    buf[7] = (serial % 256) as u8;
    buf[8] = ((serial / 256) % 256) as u8;
    buf[9] = ((serial / 65536) % 256) as u8;
    buf[10] = (serial / 16777216) as u8;
    assert(buf@ =~= frame_header(local_seq, remote_seq, serial, control_code, packet_len)
        + old_buf.skip(HEADER_LEN as int));
}

impl<P: PacketEncode> Frame<P> {
    /// The bytes this frame encodes to.
    pub open spec fn spec_encoding(&self) -> Seq<u8> {
        frame_bytes(
            self.local_seq,
            self.remote_seq,
            self.serial,
            self.packet.spec_control_code(),
            self.packet.spec_bytes(),
        )
    }

    /// Encodes the frame into the start of `buf`, which must hold at least
    /// `size()` bytes; the bytes after the frame are left as they were.
    pub fn encode(&self, buf: &mut [u8])
        requires
            self.packet.encodable(),
            old(buf)@.len() >= self.spec_encoding().len(),
        ensures
            final(buf)@ == self.spec_encoding() + old(buf)@.skip(self.spec_encoding().len() as int),
    {
        let ghost old_buf = buf@;
        let ghost packet = self.packet.spec_bytes();
        let packet_sz = self.packet.size();
        let frame_sz = HEADER_LEN + packet_sz as usize + TRAILER_LEN;
        let cc = self.packet.control_code();
        let ghost header = frame_header(self.local_seq, self.remote_seq, self.serial, cc, packet_sz);

        // write header
        write_header(buf, self.local_seq, self.remote_seq, self.serial, cc, packet_sz);

        // write payload (packet)
        let trailer_pos = frame_sz - TRAILER_LEN;
        {
            let (head, rest) = buf.split_at_mut(HEADER_LEN);
            self.packet.encode(rest);
        }
        let ghost body = frame_body(self.local_seq, self.remote_seq, self.serial, cc, packet);
        assert(buf@.subrange(1, trailer_pos as int) =~= body);

        // write trailer
        let checksum: u8 = solarman_checksum(&buf[1..trailer_pos]);
        buf[trailer_pos] = checksum;
        buf[trailer_pos + 1] = FRAME_END;
        assert(buf@ =~= self.spec_encoding() + old_buf.skip(self.spec_encoding().len() as int));
    }

    /// Encodes the frame into a vector of exactly `size()` bytes.
    pub fn encode_to_vec(&self) -> (v: Vec<u8>)
        requires
            self.packet.encodable(),
        ensures
            v@ == self.spec_encoding(),
    {
        let mut vec = vec![0u8; self.size()];
        self.encode(vec.as_mut_slice());
        assert(vec@ =~= self.spec_encoding());
        vec
    }

    /// The number of bytes of the encoded frame.
    pub fn size(&self) -> (sz: usize)
        requires
            self.packet.encodable(),
        ensures
            sz == self.spec_encoding().len(),
    {
        HEADER_LEN + self.packet.size() as usize + TRAILER_LEN
    }
}

/// What [`parse_frame`] makes of a buffer.
pub enum ParseOutcome {
    /// The buffer does not yet hold a whole frame.
    Incomplete,
    /// The start or end byte is wrong, or a response packet is too short.
    Malformed,
    /// The checksum byte of the frame, and the checksum of its content.
    BadChecksum(u8, u8),
    /// A frame, and the number of bytes it takes up.
    Parsed(FrameModel<PacketModel>, nat),
}

/// Length of the packet announced by the header in `buf`.
pub open spec fn announced_packet_len(buf: Seq<u8>) -> int {
    u16_from_le(buf[1], buf[2]) as int
}

/// Length of the frame announced by the header in `buf`.
pub open spec fn announced_frame_len(buf: Seq<u8>) -> int {
    HEADER_LEN + announced_packet_len(buf) + TRAILER_LEN
}

/// Length of the fixed fields of a response packet, before its Modbus payload.
pub const RESPONSE_FIXED_LEN: usize = 14;

/// The packet with bytes `p` carried under control code `cc`.
pub open spec fn packet_model(cc: u16, p: Seq<u8>) -> PacketModel {
    if cc == CTL_RESPONSE {
        PacketModel::Response(
            ResponseModel {
                frame_type: p[0],
                status: p[1],
                total_working_time: u32_from_le(p, 2),
                power_on_time: u32_from_le(p, 6),
                offset_time: u32_from_le(p, 10),
                modbus_payload: p.skip(RESPONSE_FIXED_LEN as int),
            },
        )
    } else {
        PacketModel::Unknown(cc, p)
    }
}

/// The meaning of the bytes at the start of `buf` as a Solarman frame.
pub open spec fn spec_parse_frame(buf: Seq<u8>) -> ParseOutcome {
    if buf.len() < HEADER_LEN {
        ParseOutcome::Incomplete
    } else if buf[0] != FRAME_START {
        ParseOutcome::Malformed
    } else if buf.len() < announced_frame_len(buf) {
        ParseOutcome::Incomplete
    } else {
        let trailer = announced_frame_len(buf) - TRAILER_LEN;
        let cc = u16_from_le(buf[3], buf[4]);
        if buf[trailer + 1] != FRAME_END {
            ParseOutcome::Malformed
        } else if buf[trailer] != spec_checksum(buf.subrange(1, trailer)) {
            ParseOutcome::BadChecksum(buf[trailer], spec_checksum(buf.subrange(1, trailer)))
        } else if cc == CTL_RESPONSE && announced_packet_len(buf) < RESPONSE_FIXED_LEN {
            ParseOutcome::Malformed
        } else {
            ParseOutcome::Parsed(
                FrameModel {
                    local_seq: buf[5],
                    remote_seq: buf[6],
                    serial: u32_from_le(buf, 7),
                    packet: packet_model(cc, buf.subrange(HEADER_LEN as int, trailer)),
                },
                announced_frame_len(buf) as nat,
            )
        }
    }
}

/// Whether the value returned by [`parse_frame`] is the outcome `o`.
pub open spec fn parse_result_is(r: Result<Option<(ParsedFrame, usize)>>, o: ParseOutcome) -> bool {
    match o {
        ParseOutcome::Incomplete => r matches Ok(None),
        ParseOutcome::Malformed => r matches Err(Error::Malformed),
        ParseOutcome::BadChecksum(got, expected) => r matches Err(Error::Checksum(g, e)) && g == got
            && e == expected,
        ParseOutcome::Parsed(f, n) => r matches Ok(Some((frame, len))) && frame@ == f && len == n,
    }
}

/// Copies `s` into a boxed slice, through std's `<Box<[u8]> as From<&[u8]>>::from`;
/// trusted to return a box holding exactly the bytes of `s`, as std documents.
#[verifier::external_body]
fn boxed_copy(s: &[u8]) -> (b: Box<[u8]>)
    ensures
        b@ == s@,
{
    s.into()
}

/// Reads the little-endian `u32` at `buf[at..at + 4]`.
fn read_u32_le(buf: &[u8], at: usize) -> (v: u32)
    requires
        at + 4 <= buf@.len(),
    ensures
        v == u32_from_le(buf@, at as int),
{
    (buf[at] as u32) + (buf[at + 1] as u32) * 256 + (buf[at + 2] as u32) * 65536 + (buf[at
        + 3] as u32) * 16777216
}

/// Parse a Solarman frame.
///
/// # Return value
/// On success, the return value is the parsed frame and its complete length.
/// If the buffer does not contain enough data, the return value is Ok(None).
pub fn parse_frame(buf: &[u8]) -> (r: Result<Option<(ParsedFrame, usize)>>)
    ensures
        parse_result_is(r, spec_parse_frame(buf@)),
{
    let buf_len = buf.len();
    if buf_len < HEADER_LEN {
        return Ok(None);
    }
    if buf[0] != FRAME_START {
        return Err(Error::Malformed);
    }

    let packet_sz = (buf[1] as usize) + (buf[2] as usize) * 256;
    let frame_sz = HEADER_LEN + packet_sz + TRAILER_LEN;
    if buf_len < frame_sz {
        return Ok(None);
    }

    let trailer_pos = frame_sz - TRAILER_LEN;
    if buf[trailer_pos + 1] != FRAME_END {
        return Err(Error::Malformed);
    }

    let checksum = solarman_checksum(&buf[1..trailer_pos]);
    if buf[trailer_pos] != checksum {
        return Err(Error::Checksum(buf[trailer_pos], checksum));
    }

    let control_code = (buf[3] as u16) + (buf[4] as u16) * 256;
    let ghost p = buf@.subrange(HEADER_LEN as int, trailer_pos as int);
    let packet = if control_code == CTL_RESPONSE {
        if packet_sz < RESPONSE_FIXED_LEN {
            return Err(Error::Malformed);
        }
        assert(u32_from_le(p, 2) == u32_from_le(buf@, 13));
        assert(u32_from_le(p, 6) == u32_from_le(buf@, 17));
        assert(u32_from_le(p, 10) == u32_from_le(buf@, 21));
        assert(p.skip(RESPONSE_FIXED_LEN as int) =~= buf@.subrange(25, trailer_pos as int));
        ParsedPacket::Response(
            ResponsePacket {
                frame_type: buf[11],
                status: buf[12],
                total_working_time: read_u32_le(buf, 13),
                power_on_time: read_u32_le(buf, 17),
                offset_time: read_u32_le(buf, 21),
                modbus_payload: boxed_copy(&buf[25..trailer_pos]),
            },
        )
    } else {
        ParsedPacket::Unknown((control_code, boxed_copy(&buf[HEADER_LEN..trailer_pos])))
    };

    let frame = Frame {
        local_seq: buf[5],
        remote_seq: buf[6],
        serial: read_u32_le(buf, 7),
        packet,
    };

    Ok(Some((frame, frame_sz)))
}

/// What a parsed frame holds, read off the buffer it was parsed from: the
/// frame takes `13 + len` bytes, `len` being the little-endian packet length
/// at bytes 1 and 2; it starts with 0xA5 and ends with 0x15, and its
/// checksum byte is the wrapping sum of the bytes between; the sequence
/// numbers are bytes 5 and 6 and the serial the little-endian `u32` at 7..11.
/// Under control code 0x1510 the packet is a response whose frame type and
/// status are bytes 11 and 12, whose three times are the little-endian `u32`s
/// at 13..17, 17..21 and 21..25, and whose Modbus payload is the rest of the
/// packet; under any other code it is an unknown packet carrying the code and
/// the packet bytes.
pub proof fn lemma_parsed_frame_fields(buf: Seq<u8>)
    requires
        spec_parse_frame(buf) is Parsed,
    ensures
        ({
            let n = 13 + buf[1] + 256 * buf[2];
            let cc = buf[3] + 256 * buf[4];
            match spec_parse_frame(buf) {
                ParseOutcome::Parsed(f, len) => {
                    &&& len == n
                    &&& n <= buf.len()
                    &&& buf[0] == 0xA5
                    &&& buf[n - 1] == 0x15
                    &&& buf[n - 2] == spec_checksum(buf.subrange(1, n - 2))
                    &&& f.local_seq == buf[5]
                    &&& f.remote_seq == buf[6]
                    &&& f.serial == buf[7] + 256 * buf[8] + 65536 * buf[9] + 16777216 * buf[10]
                    &&& if cc == 0x1510 {
                        &&& n >= 27
                        &&& f.packet matches PacketModel::Response(r)
                        &&& r.frame_type == buf[11]
                        &&& r.status == buf[12]
                        &&& r.total_working_time == buf[13] + 256 * buf[14] + 65536 * buf[15]
                            + 16777216 * buf[16]
                        &&& r.power_on_time == buf[17] + 256 * buf[18] + 65536 * buf[19]
                            + 16777216 * buf[20]
                        &&& r.offset_time == buf[21] + 256 * buf[22] + 65536 * buf[23]
                            + 16777216 * buf[24]
                        &&& r.modbus_payload == buf.subrange(25, n - 2)
                    } else {
                        f.packet == PacketModel::Unknown(cc as u16, buf.subrange(11, n - 2))
                    }
                },
                _ => false,
            }
        }),
{
    let n = 13 + buf[1] + 256 * buf[2];
    let p = buf.subrange(11, n - 2);
    assert(announced_frame_len(buf) == n);
    if buf[3] + 256 * buf[4] == 0x1510 {
        assert(p.skip(14) =~= buf.subrange(25, n - 2));
    }
}

/// A complete frame whose checksum byte differs from the wrapping sum of the
/// bytes between its start byte and its checksum byte is reported as such,
/// with both values, whatever its control code and packet.
pub proof fn lemma_checksum_checked(buf: Seq<u8>)
    requires
        buf.len() >= 11,
        buf[0] == 0xA5,
        13 + buf[1] + 256 * buf[2] <= buf.len(),
        buf[12 + buf[1] + 256 * buf[2]] == 0x15,
        buf[11 + buf[1] + 256 * buf[2]] != spec_checksum(
            buf.subrange(1, 11 + buf[1] + 256 * buf[2]),
        ),
    ensures
        spec_parse_frame(buf) == ParseOutcome::BadChecksum(
            buf[11 + buf[1] + 256 * buf[2]],
            spec_checksum(buf.subrange(1, 11 + buf[1] + 256 * buf[2])),
        ),
{
    assert(announced_frame_len(buf) == 13 + buf[1] + 256 * buf[2]);
}

/// The checksum of a concatenation is the sum, modulo 256, of the checksums
/// of its parts.
pub proof fn lemma_checksum_concat(a: Seq<u8>, b: Seq<u8>)
    ensures
        spec_checksum(a + b) == (spec_checksum(a) + spec_checksum(b)) % 256,
    decreases b.len(),
{
    if b.len() == 0 {
        assert(a + b =~= a);
    } else {
        lemma_checksum_concat(a, b.drop_last());
        assert((a + b).drop_last() =~= a + b.drop_last());
        let x = spec_checksum(a) as int;
        let y = spec_checksum(b.drop_last()) as int;
        let z = b.last() as int;
        assert(((x + y) % 256 + z) % 256 == (x + (y + z) % 256) % 256) by (nonlinear_arith)
            requires
                0 <= x < 256,
                0 <= y < 256,
                0 <= z < 256,
        ;
    }
}

proof fn lemma_le16_roundtrip(x: u16)
    ensures
        u16_from_le(le16(x)[0], le16(x)[1]) == x,
{
    assert(x == (x % 256) + 256 * (x / 256)) by (bit_vector);
}

proof fn lemma_le32_roundtrip(x: u32, s: Seq<u8>, at: int)
    requires
        0 <= at,
        at + 4 <= s.len(),
        s.subrange(at, at + 4) == le32(x),
    ensures
        u32_from_le(s, at) == x,
{
    assert(s[at] == le32(x)[0]);
    assert(s[at + 1] == le32(x)[1]);
    assert(s[at + 2] == le32(x)[2]);
    assert(s[at + 3] == le32(x)[3]);
    assert(x == (x % 256) + 256 * ((x / 256) % 256) + 65536 * ((x / 65536) % 256) + 16777216 * (x
        / 16777216)) by (bit_vector);
}

/// Where each part of a frame lies in its bytes.
proof fn lemma_frame_bytes_layout(
    local_seq: u8,
    remote_seq: u8,
    serial: u32,
    control_code: u16,
    packet: Seq<u8>,
    rest: Seq<u8>,
)
    requires
        packet.len() <= u16::MAX,
    ensures
        ({
            let bytes = frame_bytes(local_seq, remote_seq, serial, control_code, packet);
            let buf = bytes + rest;
            let n = packet.len() as int;
            &&& bytes.len() == HEADER_LEN + n + TRAILER_LEN
            &&& buf.subrange(0, HEADER_LEN as int) == frame_header(
                local_seq,
                remote_seq,
                serial,
                control_code,
                n as u16,
            )
            &&& buf.subrange(1, HEADER_LEN + n) == frame_body(
                local_seq,
                remote_seq,
                serial,
                control_code,
                packet,
            )
            &&& buf.subrange(HEADER_LEN as int, HEADER_LEN + n) == packet
            &&& buf[HEADER_LEN + n] == spec_checksum(
                frame_body(local_seq, remote_seq, serial, control_code, packet),
            )
            &&& buf[HEADER_LEN + n + 1] == FRAME_END
        }),
{
    let bytes = frame_bytes(local_seq, remote_seq, serial, control_code, packet);
    let body = frame_body(local_seq, remote_seq, serial, control_code, packet);
    let header = frame_header(local_seq, remote_seq, serial, control_code, packet.len() as u16);
    let buf = bytes + rest;
    let n = packet.len() as int;
    assert(body.len() == HEADER_LEN - 1 + n);
    assert(buf.subrange(0, HEADER_LEN as int) =~= header);
    assert(buf.subrange(1, HEADER_LEN + n) =~= body);
    assert(buf.subrange(HEADER_LEN as int, HEADER_LEN + n) =~= packet);
}

/// Decoding the bytes of a frame gives back the frame: its sequence numbers,
/// its serial and its packet (decoded as a response under the response control
/// code, carried as is under any other), whatever bytes follow it.
pub proof fn lemma_parse_frame_bytes(
    local_seq: u8,
    remote_seq: u8,
    serial: u32,
    control_code: u16,
    packet: Seq<u8>,
    rest: Seq<u8>,
)
    requires
        packet.len() <= u16::MAX,
        control_code == CTL_RESPONSE ==> packet.len() >= RESPONSE_FIXED_LEN,
    ensures
        spec_parse_frame(frame_bytes(local_seq, remote_seq, serial, control_code, packet) + rest)
            == ParseOutcome::Parsed(
            FrameModel {
                local_seq,
                remote_seq,
                serial,
                packet: packet_model(control_code, packet),
            },
            frame_bytes(local_seq, remote_seq, serial, control_code, packet).len(),
        ),
{
    let bytes = frame_bytes(local_seq, remote_seq, serial, control_code, packet);
    let buf = bytes + rest;
    let n = packet.len();
    let header = frame_header(local_seq, remote_seq, serial, control_code, n as u16);
    lemma_frame_bytes_layout(local_seq, remote_seq, serial, control_code, packet, rest);
    lemma_le16_roundtrip(n as u16);
    lemma_le16_roundtrip(control_code);
    let h = buf.subrange(0, HEADER_LEN as int);
    assert(h == header);
    assert(buf[0] == h[0] && buf[1] == h[1] && buf[2] == h[2] && buf[3] == h[3] && buf[4] == h[4]);
    assert(buf[5] == h[5] && buf[6] == h[6]);
    assert(header[1] == le16(n as u16)[0] && header[2] == le16(n as u16)[1]);
    assert(header[3] == le16(control_code)[0] && header[4] == le16(control_code)[1]);
    assert(announced_packet_len(buf) == n);
    assert(buf.subrange(7, 11) =~= le32(serial));
    lemma_le32_roundtrip(serial, buf, 7);
}

/// A buffer that holds only part of a frame is reported as incomplete.
pub proof fn lemma_frame_prefix_incomplete(
    local_seq: u8,
    remote_seq: u8,
    serial: u32,
    control_code: u16,
    packet: Seq<u8>,
    k: int,
)
    requires
        packet.len() <= u16::MAX,
        0 <= k < frame_bytes(local_seq, remote_seq, serial, control_code, packet).len(),
    ensures
        spec_parse_frame(frame_bytes(local_seq, remote_seq, serial, control_code, packet).take(k))
            == ParseOutcome::Incomplete,
{
    let bytes = frame_bytes(local_seq, remote_seq, serial, control_code, packet);
    let buf = bytes.take(k);
    if k >= HEADER_LEN {
        lemma_le16_roundtrip(packet.len() as u16);
        assert(buf[1] == le16(packet.len() as u16)[0]);
        assert(buf[2] == le16(packet.len() as u16)[1]);
        assert(buf[0] == FRAME_START);
    }
}

/// Once a buffer holds a whole frame, the bytes after it do not change what
/// is parsed.
pub proof fn lemma_parse_frame_ignores_rest(buf: Seq<u8>, rest: Seq<u8>)
    requires
        spec_parse_frame(buf) is Parsed,
    ensures
        spec_parse_frame(buf.take(spec_parse_frame(buf)->Parsed_1 as int) + rest)
            == spec_parse_frame(buf),
{
    let n = spec_parse_frame(buf)->Parsed_1 as int;
    let buf2 = buf.take(n) + rest;
    assert(buf2[1] == buf[1] && buf2[2] == buf[2] && buf2[0] == buf[0]);
    assert(buf2[3] == buf[3] && buf2[4] == buf[4]);
    let trailer = n - TRAILER_LEN;
    assert(buf2[trailer] == buf[trailer] && buf2[trailer + 1] == buf[trailer + 1]);
    assert(buf2.subrange(1, trailer) =~= buf.subrange(1, trailer));
    assert(buf2.subrange(HEADER_LEN as int, trailer) =~= buf.subrange(HEADER_LEN as int, trailer));
    assert(buf2[5] == buf[5] && buf2[6] == buf[6]);
    assert(buf2.subrange(7, 11) =~= buf.subrange(7, 11));
    assert(u32_from_le(buf2, 7) == u32_from_le(buf, 7));
}

/// A request frame decodes to a packet of unknown kind under the request
/// control code, carrying the bytes of the request packet.
pub proof fn lemma_request_frame_roundtrip(frame: Frame<RequestPacket>, rest: Seq<u8>)
    requires
        frame.packet.encodable(),
    ensures
        spec_parse_frame(frame.spec_encoding() + rest) == ParseOutcome::Parsed(
            FrameModel {
                local_seq: frame.local_seq,
                remote_seq: frame.remote_seq,
                serial: frame.serial,
                packet: PacketModel::Unknown(CTL_REQUEST, frame.packet.spec_bytes()),
            },
            frame.spec_encoding().len(),
        ),
{
    lemma_parse_frame_bytes(
        frame.local_seq,
        frame.remote_seq,
        frame.serial,
        CTL_REQUEST,
        frame.packet.spec_bytes(),
        rest,
    );
}

} // verus!
