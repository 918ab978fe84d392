//! The decisions of a Modbus client that talks to a slave device through a
//! Solarman data logging stick: which frame to send for a Modbus function,
//! and what to make of each frame that comes back.
//!
//! The transport itself (connecting, sending, receiving) is not part of this
//! module: a caller sends the frame returned by [`Client::start_request`],
//! then hands every received frame to [`Client::handle_frame`] until it
//! returns a reply or an error.
use vstd::prelude::*;

use modbus_rtu::error::{RequestPacketError, ResponsePacketError};
use modbus_rtu::Exception;

use crate::modbus::{
    reply_decodable, rtu_decode_response, rtu_encode_request, rtu_reply, rtu_request_frame,
    ModbusFunction, ModbusResponse, ReplyModel,
};
use crate::protocol::{Frame, PacketModel, ParsedFrame, ParsedPacket, RequestPacket};

verus! {

/// Error type of the client.
#[derive(Debug)]
pub enum Error {
    /// An I/O error of the connection to the logging stick.
    Io(std::io::Error),
    /// A frame received from the logging stick could not be parsed.
    Solarman(crate::protocol::Error),
    /// The Modbus request could not be encoded.
    ModbusRequest(RequestPacketError),
    /// The Modbus reply could not be decoded.
    ModbusResponse(ResponsePacketError),
    /// The device answered with a Modbus exception.
    ModbusException(Exception),
    /// The stream ended before a reply arrived.
    UnexpectedEof,
    /// The device answered with a reply of another kind than requested.
    UnexpectedResponse(ModbusResponse),
    /// The reply does not come from the logging stick addressed.
    BadSerial,
}

impl From<std::io::Error> for Error {
    fn from(e: std::io::Error) -> (r: Error) {
        Error::Io(e)
    }
}

impl vstd::std_specs::convert::FromSpecImpl<std::io::Error> for Error {
    open spec fn obeys_from_spec() -> bool {
        true
    }

    open spec fn from_spec(e: std::io::Error) -> Error {
        Error::Io(e)
    }
}

impl From<crate::protocol::Error> for Error {
    fn from(e: crate::protocol::Error) -> (r: Error) {
        Error::Solarman(e)
    }
}

impl vstd::std_specs::convert::FromSpecImpl<crate::protocol::Error> for Error {
    open spec fn obeys_from_spec() -> bool {
        true
    }

    open spec fn from_spec(e: crate::protocol::Error) -> Error {
        Error::Solarman(e)
    }
}

pub type Result<T> = std::result::Result<T, Error>;

/// The state of a client of one Modbus slave behind one logging stick.
pub struct Client {
    seq: u8,
    serial: u32,
    modbus_id: u8,
}

/// What to do with a frame received while waiting for a reply.
#[derive(Debug)]
pub enum Step {
    /// The frame does not answer the pending request: wait for the next one.
    Skip,
    /// The frame carries the reply to the pending request.
    Reply(ModbusResponse),
}

impl Client {
    /// Sequence number of the most recent request.
    pub closed spec fn seq(&self) -> u8 {
        self.seq
    }

    /// Serial number of the logging stick.
    pub closed spec fn serial(&self) -> u32 {
        self.serial
    }

    /// Modbus id of the slave device.
    pub closed spec fn modbus_id(&self) -> u8 {
        self.modbus_id
    }

    /// A client of the slave `modbus_slave_id` behind the logging stick with
    /// serial number `serial`, before any request.
    pub fn new(serial: u32, modbus_slave_id: u8) -> (c: Client)
        ensures
            c.seq() == 0,
            c.serial() == serial,
            c.modbus_id() == modbus_slave_id,
    {
        Client { seq: 0, serial, modbus_id: modbus_slave_id }
    }

    /// Sequence number of the most recent request.
    pub fn sequence_number(&self) -> (s: u8)
        ensures
            s == self.seq(),
    {
        self.seq
    }

    /// Serial number of the logging stick.
    pub fn logger_serial(&self) -> (s: u32)
        ensures
            s == self.serial(),
    {
        self.serial
    }

    /// Modbus id of the slave device.
    pub fn slave_id(&self) -> (id: u8)
        ensures
            id == self.modbus_id(),
    {
        self.modbus_id
    }

    /// Starts a request for `function`: advances the sequence number (by
    /// one, wrapping), then builds the frame that carries the Modbus request,
    /// stamped with the new sequence number and the logger serial.
    ///
    /// The sequence number advances even when the Modbus request cannot be
    /// encoded.
    pub fn start_request(&mut self, function: &ModbusFunction) -> (r: Result<Frame<RequestPacket>>)
        ensures
            final(self).seq() == (old(self).seq() + 1) % 256,
            final(self).serial() == old(self).serial(),
            final(self).modbus_id() == old(self).modbus_id(),
            match rtu_request_frame(old(self).modbus_id(), function@) {
                Ok(bytes) => r matches Ok(frame) && frame.local_seq == final(self).seq()
                    && frame.remote_seq == 0 && frame.serial == old(self).serial()
                    && frame.packet@ == bytes,
                Err(e) => r matches Err(Error::ModbusRequest(x)) && x == e,
            },
    {
        self.seq = self.seq.wrapping_add(1);
        match rtu_encode_request(self.modbus_id, function) {
            Ok(payload) => Ok(
                Frame {
                    local_seq: self.seq,
                    remote_seq: 0,
                    serial: self.serial,
                    packet: RequestPacket { modbus_payload: payload },
                },
            ),
            Err(e) => Err(Error::ModbusRequest(e)),
        }
    }

    /// Whether `frame` carries the reply to the most recent request: it comes
    /// from the logging stick addressed, bears the sequence number of the
    /// request and holds a response packet. Only such a frame is decoded.
    pub open spec fn carries_reply(&self, frame: ParsedFrame) -> bool {
        &&& frame.serial == self.serial()
        &&& frame.local_seq == self.seq()
        &&& frame.packet is Response
    }

    /// Whether `frame` carries the reply to the most recent request (see
    /// [`Client::carries_reply`]).
    pub fn is_reply(&self, frame: &ParsedFrame) -> (b: bool)
        ensures
            b == self.carries_reply(*frame),
    {
        frame.serial == self.serial && frame.local_seq == self.seq && match frame.packet {
            ParsedPacket::Response(_) => true,
            ParsedPacket::Unknown(_) => false,
        }
    }

    /// Decides what to make of `frame`, received while waiting for the reply
    /// to the most recent request, which was for `function`.
    ///
    /// A frame from another logging stick is an error; a frame with another
    /// sequence number, or a packet that is not a response, is skipped; the
    /// Modbus payload of a response is decoded as the reply. Only that last
    /// case needs a function whose reply the decoder can handle (see
    /// [`reply_decodable`]).
    pub fn handle_frame(&self, function: &ModbusFunction, frame: ParsedFrame) -> (r: Result<Step>)
        requires
            self.carries_reply(frame) ==> reply_decodable(function@),
        ensures
            frame.serial != self.serial() ==> r matches Err(Error::BadSerial),
            frame.serial == self.serial() && frame.local_seq != self.seq() ==> r matches Ok(
                Step::Skip,
            ),
            frame.serial == self.serial() && frame.local_seq == self.seq() ==> match frame.packet@ {
                PacketModel::Unknown(_, _) => r matches Ok(Step::Skip),
                PacketModel::Response(resp) => match rtu_reply(
                    self.modbus_id(),
                    function@,
                    resp.modbus_payload,
                ) {
                    Ok(reply) => r matches Ok(Step::Reply(x)) && x@ == reply,
                    Err(e) => r matches Err(Error::ModbusResponse(x)) && x == e,
                },
            },
    {
        if frame.serial != self.serial {
            return Err(Error::BadSerial);
        }
        if frame.local_seq != self.seq {
            return Ok(Step::Skip);
        }
        match frame.packet {
            ParsedPacket::Response(resp) => {
                match rtu_decode_response(self.modbus_id, function, &resp.modbus_payload) {
                    Ok(reply) => Ok(Step::Reply(reply)),
                    Err(e) => Err(Error::ModbusResponse(e)),
                }
            },
            ParsedPacket::Unknown(_) => Ok(Step::Skip),
        }
    }
}

/// The outcome of a write: `Ok` for an acknowledgement, the exception for an
/// exception, and an unexpected-response error for anything else.
pub fn expect_success(reply: ModbusResponse) -> (r: Result<()>)
    ensures
        match reply@ {
            ReplyModel::Success => r is Ok,
            ReplyModel::Exception(e) => r matches Err(Error::ModbusException(x)) && x == e,
            _ => r matches Err(Error::UnexpectedResponse(x)) && x@ == reply@,
        },
{
    match reply {
        ModbusResponse::Success => Ok(()),
        ModbusResponse::Exception(exception) => Err(Error::ModbusException(exception)),
        response => Err(Error::UnexpectedResponse(response)),
    }
}

/// The outcome of a read of coils or discrete inputs: the states, the
/// exception for an exception, and an unexpected-response error for anything
/// else.
pub fn expect_status(reply: ModbusResponse) -> (r: Result<Box<[bool]>>)
    ensures
        match reply@ {
            ReplyModel::Status(items) => r matches Ok(v) && v@ == items,
            ReplyModel::Exception(e) => r matches Err(Error::ModbusException(x)) && x == e,
            _ => r matches Err(Error::UnexpectedResponse(x)) && x@ == reply@,
        },
{
    match reply {
        ModbusResponse::Status(items) => Ok(items),
        ModbusResponse::Exception(exception) => Err(Error::ModbusException(exception)),
        response => Err(Error::UnexpectedResponse(response)),
    }
}

/// The outcome of a read of registers: the values, the exception for an
/// exception, and an unexpected-response error for anything else.
pub fn expect_values(reply: ModbusResponse) -> (r: Result<Box<[u16]>>)
    ensures
        match reply@ {
            ReplyModel::Value(items) => r matches Ok(v) && v@ == items,
            ReplyModel::Exception(e) => r matches Err(Error::ModbusException(x)) && x == e,
            _ => r matches Err(Error::UnexpectedResponse(x)) && x@ == reply@,
        },
{
    match reply {
        ModbusResponse::Value(items) => Ok(items),
        ModbusResponse::Exception(exception) => Err(Error::ModbusException(exception)),
        response => Err(Error::UnexpectedResponse(response)),
    }
}

} // verus!
