use solarman::codec::SolarmanCodec;
use solarman::protocol::{
    parse_frame, solarman_checksum, Error, Frame, PacketEncode, ParsedPacket, RequestPacket,
    CTL_REQUEST, CTL_RESPONSE,
};
use tokio_util::bytes::BytesMut;

const REQUEST_FRAME: [u8; 36] = [
    0xa5, 0x17, 0x00, 0x10, 0x45, 0x01, 0x00, 0x78, 0x56, 0x34, 0x12, 0x02, 0x00, 0x00, 0x00,
    0x00, 0x00, 0x00, 0x00, 0x00, 0x00, 0x00, 0x00, 0x00, 0x00, 0x00, 0x01, 0x03, 0x00, 0x00,
    0x00, 0x01, 0x84, 0x0a, 0x16, 0x15,
];

const RESPONSE_FRAME: [u8; 36] = [
    0xa5, 0x17, 0x00, 0x10, 0x15, 0x07, 0x09, 0x78, 0x56, 0x34, 0x12, 0x01, 0x02, 0x10, 0x00,
    0x00, 0x00, 0x20, 0x00, 0x00, 0x00, 0x30, 0x00, 0x00, 0x00, 0x01, 0x04, 0x04, 0x00, 0x10,
    0x00, 0x20, 0xfb, 0x99, 0x90, 0x15,
];

fn request_frame() -> Frame<RequestPacket> {
    Frame {
        local_seq: 1,
        remote_seq: 0,
        serial: 0x1234_5678,
        packet: RequestPacket {
            modbus_payload: vec![0x01, 0x03, 0x00, 0x00, 0x00, 0x01, 0x84, 0x0A].into_boxed_slice(),
        },
    }
}

#[test]
fn checksum_sums_bytes() {
    assert_eq!(solarman_checksum(&[]), 0);
    assert_eq!(solarman_checksum(&[1, 2, 3]), 6);
}

#[test]
fn checksum_wraps() {
    assert_eq!(solarman_checksum(&[200, 100]), 44);
    assert_eq!(solarman_checksum(&[0xff, 0x01]), 0);
}

#[test]
fn request_packet_size_and_control_code() {
    let p = request_frame().packet;
    assert_eq!(p.size(), 23);
    assert_eq!(p.control_code(), CTL_REQUEST);
    assert_eq!(CTL_REQUEST, 0x4510);
}

#[test]
fn request_packet_encode_leaves_rest() {
    let p = RequestPacket { modbus_payload: vec![9, 8].into_boxed_slice() };
    let mut buf = [0xEEu8; 20];
    p.encode(&mut buf);
    assert_eq!(buf[0], 2);
    assert!(buf[1..15].iter().all(|b| *b == 0));
    assert_eq!(&buf[15..17], &[9, 8]);
    assert_eq!(&buf[17..], &[0xEE, 0xEE, 0xEE]);
}

#[test]
fn frame_encodes_to_known_bytes() {
    let f = request_frame();
    assert_eq!(f.size(), 36);
    assert_eq!(f.encode_to_vec(), REQUEST_FRAME.to_vec());
}

#[test]
fn frame_encode_into_larger_buffer() {
    let f = request_frame();
    let mut buf = vec![0x55u8; 40];
    f.encode(&mut buf);
    assert_eq!(&buf[..36], &REQUEST_FRAME[..]);
    assert_eq!(&buf[36..], &[0x55; 4]);
}

#[test]
fn parse_short_buffer_is_incomplete() {
    assert!(matches!(parse_frame(&[]), Ok(None)));
    assert!(matches!(parse_frame(&REQUEST_FRAME[..10]), Ok(None)));
    assert!(matches!(parse_frame(&REQUEST_FRAME[..35]), Ok(None)));
}

#[test]
fn parse_wrong_start_byte_is_malformed() {
    let mut b = REQUEST_FRAME;
    b[0] = 0xA4;
    assert!(matches!(parse_frame(&b), Err(Error::Malformed)));
}

#[test]
fn parse_wrong_end_byte_is_malformed() {
    let mut b = REQUEST_FRAME;
    b[35] = 0x16;
    assert!(matches!(parse_frame(&b), Err(Error::Malformed)));
}

#[test]
fn parse_bad_checksum_reports_both_values() {
    let mut b = REQUEST_FRAME;
    b[34] = 0x17;
    assert!(matches!(parse_frame(&b), Err(Error::Checksum(0x17, 0x16))));
}

#[test]
fn parse_short_response_is_malformed() {
    // response control code with a 13-byte packet
    let mut b = vec![0xA5, 13, 0, 0x10, 0x15, 1, 2, 0, 0, 0, 0];
    b.extend_from_slice(&[0u8; 13]);
    let cs = solarman_checksum(&b[1..]);
    b.push(cs);
    b.push(0x15);
    assert!(matches!(parse_frame(&b), Err(Error::Malformed)));
}

#[test]
fn parse_response_frame_fields() {
    let mut buf = RESPONSE_FRAME.to_vec();
    buf.extend_from_slice(&[1, 2, 3]);
    let (frame, len) = parse_frame(&buf).unwrap().unwrap();
    assert_eq!(len, 36);
    assert_eq!(frame.local_seq, 7);
    assert_eq!(frame.remote_seq, 9);
    assert_eq!(frame.serial, 0x1234_5678);
    match frame.packet {
        ParsedPacket::Response(r) => {
            assert_eq!(r.frame_type, 1);
            assert_eq!(r.status, 2);
            assert_eq!(r.total_working_time, 0x10);
            assert_eq!(r.power_on_time, 0x20);
            assert_eq!(r.offset_time, 0x30);
            assert_eq!(&r.modbus_payload[..], &[0x01, 0x04, 0x04, 0x00, 0x10, 0x00, 0x20, 0xFB, 0x99]);
        }
        ParsedPacket::Unknown(_) => panic!("expected a response"),
    }
    assert_eq!(CTL_RESPONSE, 0x1510);
}

#[test]
fn request_frame_round_trips_as_unknown_packet() {
    let f = request_frame();
    let bytes = f.encode_to_vec();
    let (parsed, len) = parse_frame(&bytes).unwrap().unwrap();
    assert_eq!(len, bytes.len());
    assert_eq!(parsed.local_seq, 1);
    assert_eq!(parsed.remote_seq, 0);
    assert_eq!(parsed.serial, 0x1234_5678);
    match parsed.packet {
        ParsedPacket::Unknown((cc, payload)) => {
            assert_eq!(cc, CTL_REQUEST);
            assert_eq!(&payload[..], &REQUEST_FRAME[11..34]);
        }
        ParsedPacket::Response(_) => panic!("expected an unknown packet"),
    }
}

#[test]
fn codec_encode_appends_frame() {
    let mut codec = SolarmanCodec;
    let mut dst = BytesMut::from(&[7u8, 7][..]);
    codec.encode(request_frame(), &mut dst).unwrap();
    assert_eq!(&dst[..2], &[7, 7]);
    assert_eq!(&dst[2..], &REQUEST_FRAME[..]);
}

#[test]
fn codec_decode_consumes_one_frame() {
    let mut codec = SolarmanCodec;
    let mut buf = RESPONSE_FRAME.to_vec();
    buf.extend_from_slice(&REQUEST_FRAME[..5]);
    let mut src = BytesMut::from(&buf[..]);
    let frame = codec.decode(&mut src).unwrap().unwrap();
    assert_eq!(frame.local_seq, 7);
    assert_eq!(&src[..], &REQUEST_FRAME[..5]);
    assert!(matches!(codec.decode(&mut src), Ok(None)));
    assert_eq!(src.len(), 5);
}

#[test]
fn codec_decode_error_keeps_buffer() {
    let mut codec = SolarmanCodec;
    let mut src = BytesMut::from(&[0x00u8; 12][..]);
    assert!(matches!(codec.decode(&mut src), Err(Error::Malformed)));
    assert_eq!(src.len(), 12);
}

#[test]
fn codec_round_trip() {
    let mut codec = SolarmanCodec;
    let mut buf = BytesMut::new();
    codec.encode(request_frame(), &mut buf).unwrap();
    let frame = codec.decode(&mut buf).unwrap().unwrap();
    assert_eq!(frame.serial, 0x1234_5678);
    assert!(matches!(frame.packet, ParsedPacket::Unknown((0x4510, _))));
    assert!(buf.is_empty());
}

#[test]
fn io_error_converts() {
    let e: Error = std::io::Error::new(std::io::ErrorKind::Other, "x").into();
    assert!(matches!(e, Error::Io(_)));
}

#[test]
fn codec_has_room_for_a_frame() {
    let dst = BytesMut::from(&[7u8, 7][..]);
    assert!(SolarmanCodec::has_room(&request_frame(), &dst));
}
