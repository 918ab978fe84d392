use solarman::client::{expect_status, expect_success, expect_values, Client, Error, Step};
use solarman::modbus::{ModbusFunction, ModbusResponse};
use solarman::protocol::{solarman_checksum, Frame, ParsedPacket, ResponsePacket};

fn response_frame(serial: u32, seq: u8, modbus: &[u8]) -> Frame<ParsedPacket> {
    Frame {
        local_seq: seq,
        remote_seq: 3,
        serial,
        packet: ParsedPacket::Response(ResponsePacket {
            frame_type: 1,
            status: 1,
            total_working_time: 0,
            power_on_time: 0,
            offset_time: 0,
            modbus_payload: modbus.to_vec().into_boxed_slice(),
        }),
    }
}

#[test]
fn new_client_starts_at_sequence_zero() {
    let c = Client::new(42, 1);
    assert_eq!(c.sequence_number(), 0);
    assert_eq!(c.logger_serial(), 42);
    assert_eq!(c.slave_id(), 1);
}

#[test]
fn start_request_builds_modbus_frame() {
    let mut c = Client::new(0x1234_5678, 0x11);
    let f = ModbusFunction::WriteSingleRegister { address: 0x0010, value: 0xABCD };
    let frame = c.start_request(&f).unwrap();
    assert_eq!(c.sequence_number(), 1);
    assert_eq!(frame.local_seq, 1);
    assert_eq!(frame.remote_seq, 0);
    assert_eq!(frame.serial, 0x1234_5678);
    assert_eq!(
        &frame.packet.modbus_payload[..],
        &[0x11, 0x06, 0x00, 0x10, 0xAB, 0xCD, 0x34, 0x3A]
    );
}

#[test]
fn read_request_has_crc() {
    let mut c = Client::new(1, 1);
    let f = ModbusFunction::ReadHoldingRegisters { starting_address: 0, quantity: 1 };
    let frame = c.start_request(&f).unwrap();
    assert_eq!(&frame.packet.modbus_payload[..], &[1, 3, 0, 0, 0, 1, 0x84, 0x0A]);
}

#[test]
fn sequence_number_wraps() {
    let mut c = Client::new(1, 1);
    let f = ModbusFunction::ReadHoldingRegisters { starting_address: 0, quantity: 1 };
    for _ in 0..255 {
        c.start_request(&f).unwrap();
    }
    assert_eq!(c.sequence_number(), 255);
    let frame = c.start_request(&f).unwrap();
    assert_eq!(frame.local_seq, 0);
    assert_eq!(c.sequence_number(), 0);
}

#[test]
fn broadcast_read_is_refused_but_advances_sequence() {
    let mut c = Client::new(1, 0);
    let f = ModbusFunction::ReadCoils { starting_address: 0, quantity: 2 };
    assert!(matches!(c.start_request(&f), Err(Error::ModbusRequest(_))));
    assert_eq!(c.sequence_number(), 1);
}

#[test]
fn oversized_read_is_refused() {
    let mut c = Client::new(1, 1);
    let f = ModbusFunction::ReadHoldingRegisters { starting_address: 0, quantity: 126 };
    assert!(matches!(c.start_request(&f), Err(Error::ModbusRequest(_))));
}

#[test]
fn reply_is_decoded() {
    let mut c = Client::new(5, 1);
    let f = ModbusFunction::ReadInputRegisters { starting_address: 0, quantity: 2 };
    c.start_request(&f).unwrap();
    let frame = response_frame(5, 1, &[0x01, 0x04, 0x04, 0x00, 0x10, 0x00, 0x20, 0xFB, 0x99]);
    match c.handle_frame(&f, frame) {
        Ok(Step::Reply(reply)) => {
            let values = expect_values(reply).unwrap();
            assert_eq!(&values[..], &[0x10, 0x20]);
        }
        _ => panic!("expected a reply"),
    }
}

#[test]
fn reply_with_bad_crc_is_an_error() {
    let mut c = Client::new(5, 1);
    let f = ModbusFunction::ReadInputRegisters { starting_address: 0, quantity: 2 };
    c.start_request(&f).unwrap();
    let frame = response_frame(5, 1, &[0x01, 0x04, 0x04, 0x00, 0x10, 0x00, 0x20, 0xFB, 0x98]);
    assert!(matches!(c.handle_frame(&f, frame), Err(Error::ModbusResponse(_))));
}

#[test]
fn frame_from_other_logger_is_rejected() {
    let mut c = Client::new(5, 1);
    let f = ModbusFunction::ReadInputRegisters { starting_address: 0, quantity: 2 };
    c.start_request(&f).unwrap();
    let frame = response_frame(6, 1, &[]);
    assert!(matches!(c.handle_frame(&f, frame), Err(Error::BadSerial)));
}

#[test]
fn stale_frame_is_skipped() {
    let mut c = Client::new(5, 1);
    let f = ModbusFunction::ReadInputRegisters { starting_address: 0, quantity: 2 };
    c.start_request(&f).unwrap();
    let frame = response_frame(5, 9, &[]);
    assert!(matches!(c.handle_frame(&f, frame), Ok(Step::Skip)));
}

#[test]
fn unknown_packet_is_skipped() {
    let mut c = Client::new(5, 1);
    let f = ModbusFunction::ReadInputRegisters { starting_address: 0, quantity: 2 };
    c.start_request(&f).unwrap();
    let frame = Frame {
        local_seq: 1,
        remote_seq: 0,
        serial: 5,
        packet: ParsedPacket::Unknown((0x4710, vec![1, 2].into_boxed_slice())),
    };
    assert!(matches!(c.handle_frame(&f, frame), Ok(Step::Skip)));
    assert_eq!(solarman_checksum(&[1, 2]), 3);
}

#[test]
fn exception_reply_is_decoded() {
    let mut c = Client::new(5, 1);
    let f = ModbusFunction::WriteSingleCoil { address: 1, value: true };
    c.start_request(&f).unwrap();
    // exception frame: id, function | 0x80, code, crc
    let mut modbus = vec![0x01u8, 0x85, 0x02];
    let crc = modbus_crc(&modbus);
    modbus.extend_from_slice(&crc.to_le_bytes());
    let frame = response_frame(5, 1, &modbus);
    match c.handle_frame(&f, frame) {
        Ok(Step::Reply(reply)) => {
            assert!(matches!(
                expect_success(reply),
                Err(Error::ModbusException(modbus_rtu::Exception::IllegalDataAddress))
            ));
        }
        _ => panic!("expected a reply"),
    }
}

fn modbus_crc(bytes: &[u8]) -> u16 {
    let mut crc: u16 = 0xFFFF;
    for b in bytes {
        crc ^= *b as u16;
        for _ in 0..8 {
            if crc & 1 != 0 {
                crc = (crc >> 1) ^ 0xA001;
            } else {
                crc >>= 1;
            }
        }
    }
    crc
}

#[test]
fn expect_success_outcomes() {
    assert!(expect_success(ModbusResponse::Success).is_ok());
    assert!(matches!(
        expect_success(ModbusResponse::Value(vec![1].into_boxed_slice())),
        Err(Error::UnexpectedResponse(ModbusResponse::Value(_)))
    ));
}

#[test]
fn expect_status_outcomes() {
    let v = expect_status(ModbusResponse::Status(vec![true, false].into_boxed_slice())).unwrap();
    assert_eq!(&v[..], &[true, false]);
    assert!(matches!(
        expect_status(ModbusResponse::Success),
        Err(Error::UnexpectedResponse(ModbusResponse::Success))
    ));
    assert!(matches!(
        expect_status(ModbusResponse::Exception(modbus_rtu::Exception::DeviceBusy)),
        Err(Error::ModbusException(modbus_rtu::Exception::DeviceBusy))
    ));
}

#[test]
fn expect_values_outcomes() {
    let v = expect_values(ModbusResponse::Value(vec![7, 8].into_boxed_slice())).unwrap();
    assert_eq!(&v[..], &[7, 8]);
    assert!(matches!(
        expect_values(ModbusResponse::Status(vec![].into_boxed_slice())),
        Err(Error::UnexpectedResponse(ModbusResponse::Status(_)))
    ));
}

#[test]
fn protocol_error_converts() {
    let e: Error = solarman::protocol::Error::NoHeader.into();
    assert!(matches!(e, Error::Solarman(solarman::protocol::Error::NoHeader)));
    let e: Error = std::io::Error::new(std::io::ErrorKind::Other, "x").into();
    assert!(matches!(e, Error::Io(_)));
}

#[test]
fn reply_decodability() {
    assert!(ModbusFunction::ReadHoldingRegisters { starting_address: 0, quantity: 127 }.reply_is_decodable());
    assert!(!ModbusFunction::ReadHoldingRegisters { starting_address: 0, quantity: 128 }.reply_is_decodable());
    assert!(!ModbusFunction::ReadInputRegisters { starting_address: 0, quantity: 300 }.reply_is_decodable());
    assert!(ModbusFunction::ReadCoils { starting_address: 0, quantity: 248 }.reply_is_decodable());
    assert!(!ModbusFunction::ReadCoils { starting_address: 0, quantity: 249 }.reply_is_decodable());
    assert!(ModbusFunction::ReadDiscreteInputs { starting_address: 0, quantity: 256 }.reply_is_decodable());
    assert!(ModbusFunction::WriteSingleCoil { address: 0, value: true }.reply_is_decodable());
}

#[test]
fn write_multiple_registers_request_bytes() {
    let mut c = Client::new(1, 0x11);
    let f = ModbusFunction::WriteMultipleRegisters { starting_address: 1, value: vec![0x000A, 0x0102] };
    let frame = c.start_request(&f).unwrap();
    let p = &frame.packet.modbus_payload;
    assert_eq!(&p[..p.len() - 2], &[0x11, 0x10, 0x00, 0x01, 0x00, 0x02, 0x04, 0x00, 0x0A, 0x01, 0x02]);
    let crc = modbus_crc(&p[..p.len() - 2]);
    assert_eq!(&p[p.len() - 2..], &crc.to_le_bytes());
}

#[test]
fn oversized_write_is_refused() {
    let mut c = Client::new(1, 1);
    let f = ModbusFunction::WriteMultipleRegisters { starting_address: 0, value: vec![0; 124] };
    assert!(matches!(c.start_request(&f), Err(Error::ModbusRequest(_))));
    let f = ModbusFunction::WriteMultipleCoils { starting_address: 0, value: vec![true; 1977] };
    assert!(matches!(c.start_request(&f), Err(Error::ModbusRequest(_))));
}

#[test]
fn undecodable_read_still_gets_frame_errors() {
    let mut c = Client::new(5, 1);
    let f = ModbusFunction::ReadCoils { starting_address: 0, quantity: 250 };
    assert!(!f.reply_is_decodable());
    c.start_request(&f).unwrap();
    let other = response_frame(6, 1, &[]);
    assert!(!c.is_reply(&other));
    assert!(matches!(c.handle_frame(&f, other), Err(Error::BadSerial)));
    let stale = response_frame(5, 2, &[]);
    assert!(!c.is_reply(&stale));
    assert!(matches!(c.handle_frame(&f, stale), Ok(Step::Skip)));
    let unknown = Frame {
        local_seq: 1,
        remote_seq: 0,
        serial: 5,
        packet: ParsedPacket::Unknown((0x4710, vec![1u8].into_boxed_slice())),
    };
    assert!(!c.is_reply(&unknown));
    assert!(matches!(c.handle_frame(&f, unknown), Ok(Step::Skip)));
}

#[test]
fn matching_response_is_a_reply() {
    let mut c = Client::new(5, 1);
    let f = ModbusFunction::ReadInputRegisters { starting_address: 0, quantity: 2 };
    c.start_request(&f).unwrap();
    assert!(c.is_reply(&response_frame(5, 1, &[])));
}
