//! Modbus RTU requests and responses, encoded and decoded by the `modbus_rtu`
//! crate.
use vstd::prelude::*;

use modbus_rtu::error::{RequestPacketError, ResponsePacketError};
use modbus_rtu::Exception;
use modbus_rtu::Function as RtuFunction;
use modbus_rtu::Function as F;
use ModbusFunction as M;
use modbus_rtu::Response as RtuResponse;

verus! {

/// `modbus_rtu::error::RequestPacketError`, the error of encoding a request.
#[verifier::external_type_specification]
#[verifier::external_body]
pub struct ExRequestPacketError(RequestPacketError);

/// `modbus_rtu::error::ResponsePacketError`, the error of decoding a reply.
#[verifier::external_type_specification]
#[verifier::external_body]
pub struct ExResponsePacketError(ResponsePacketError);

/// `modbus_rtu::Exception`, the exception code of a Modbus exception reply.
#[verifier::external_type_specification]
#[verifier::external_body]
pub struct ExException(Exception);

/// `modbus_rtu::Function`, the crate's own form of a Modbus function.
#[verifier::external_type_specification]
#[verifier::external_body]
pub struct ExFunction(RtuFunction);

/// A Modbus function to perform on the slave device.
#[derive(Clone, Debug, PartialEq)]
#[allow(inconsistent_fields)]
pub enum ModbusFunction {
    ReadCoils { starting_address: u16, quantity: u16 },
    ReadDiscreteInputs { starting_address: u16, quantity: u16 },
    ReadHoldingRegisters { starting_address: u16, quantity: u16 },
    ReadInputRegisters { starting_address: u16, quantity: u16 },
    WriteSingleCoil { address: u16, value: bool },
    WriteSingleRegister { address: u16, value: u16 },
    WriteMultipleCoils { starting_address: u16, value: Vec<bool> },
    WriteMultipleRegisters { starting_address: u16, value: Vec<u16> },
}

/// The content of a [`ModbusFunction`].
#[allow(inconsistent_fields)]
pub enum FunctionModel {
    ReadCoils { starting_address: u16, quantity: u16 },
    ReadDiscreteInputs { starting_address: u16, quantity: u16 },
    ReadHoldingRegisters { starting_address: u16, quantity: u16 },
    ReadInputRegisters { starting_address: u16, quantity: u16 },
    WriteSingleCoil { address: u16, value: bool },
    WriteSingleRegister { address: u16, value: u16 },
    WriteMultipleCoils { starting_address: u16, value: Seq<bool> },
    WriteMultipleRegisters { starting_address: u16, value: Seq<u16> },
}

impl View for ModbusFunction {
    type V = FunctionModel;

    open spec fn view(&self) -> FunctionModel {
        match self {
            ModbusFunction::ReadCoils { starting_address, quantity } => FunctionModel::ReadCoils {
                starting_address: *starting_address,
                quantity: *quantity,
            },
            ModbusFunction::ReadDiscreteInputs {
                starting_address,
                quantity,
            } => FunctionModel::ReadDiscreteInputs {
                starting_address: *starting_address,
                quantity: *quantity,
            },
            ModbusFunction::ReadHoldingRegisters {
                starting_address,
                quantity,
            } => FunctionModel::ReadHoldingRegisters {
                starting_address: *starting_address,
                quantity: *quantity,
            },
            ModbusFunction::ReadInputRegisters {
                starting_address,
                quantity,
            } => FunctionModel::ReadInputRegisters {
                starting_address: *starting_address,
                quantity: *quantity,
            },
            ModbusFunction::WriteSingleCoil { address, value } => FunctionModel::WriteSingleCoil {
                address: *address,
                value: *value,
            },
            ModbusFunction::WriteSingleRegister {
                address,
                value,
            } => FunctionModel::WriteSingleRegister { address: *address, value: *value },
            ModbusFunction::WriteMultipleCoils {
                starting_address,
                value,
            } => FunctionModel::WriteMultipleCoils {
                starting_address: *starting_address,
                value: value@,
            },
            ModbusFunction::WriteMultipleRegisters {
                starting_address,
                value,
            } => FunctionModel::WriteMultipleRegisters {
                starting_address: *starting_address,
                value: value@,
            },
        }
    }
}

/// The Modbus function code of `f`.
pub open spec fn function_code(f: FunctionModel) -> u8 {
    match f {
        FunctionModel::ReadCoils { .. } => 0x01,
        FunctionModel::ReadDiscreteInputs { .. } => 0x02,
        FunctionModel::ReadHoldingRegisters { .. } => 0x03,
        FunctionModel::ReadInputRegisters { .. } => 0x04,
        FunctionModel::WriteSingleCoil { .. } => 0x05,
        FunctionModel::WriteSingleRegister { .. } => 0x06,
        FunctionModel::WriteMultipleCoils { .. } => 0x0F,
        FunctionModel::WriteMultipleRegisters { .. } => 0x10,
    }
}

/// Whether `f` reads coils or discrete inputs.
pub open spec fn reads_bits(f: FunctionModel) -> bool {
    f is ReadCoils || f is ReadDiscreteInputs
}

/// Whether `f` reads holding or input registers.
pub open spec fn reads_registers(f: FunctionModel) -> bool {
    f is ReadHoldingRegisters || f is ReadInputRegisters
}

/// The number of values `f` reads or writes.
pub open spec fn quantity(f: FunctionModel) -> int {
    match f {
        FunctionModel::ReadCoils { quantity, .. } => quantity as int,
        FunctionModel::ReadDiscreteInputs { quantity, .. } => quantity as int,
        FunctionModel::ReadHoldingRegisters { quantity, .. } => quantity as int,
        FunctionModel::ReadInputRegisters { quantity, .. } => quantity as int,
        FunctionModel::WriteSingleCoil { .. } => 1,
        FunctionModel::WriteSingleRegister { .. } => 1,
        FunctionModel::WriteMultipleCoils { value, .. } => value.len() as int,
        FunctionModel::WriteMultipleRegisters { value, .. } => value.len() as int,
    }
}

/// Whether the Modbus RTU encoder refuses to build a request for `f` addressed
/// to `slave_id`: reads cannot be broadcast (slave 0), a read must fit its
/// reply in a 256-byte packet, and a write must fit in a 256-byte packet.
/// The count of written values is taken modulo 2^16.
pub open spec fn request_rejected(slave_id: u8, f: FunctionModel) -> bool {
    ||| slave_id == 0 && (reads_bits(f) || reads_registers(f))
    ||| reads_bits(f) && quantity(f) > 2008
    ||| reads_registers(f) && quantity(f) > 125
    ||| f is WriteMultipleCoils && quantity(f) % 65536 > 1976
    ||| f is WriteMultipleRegisters && quantity(f) % 65536 > 123
}

/// Whether the Modbus RTU decoder can decode any reply to `f` without
/// panicking: for reads it computes the expected byte count in 8 bits, from
/// the quantity modulo 256, and for reads of registers it then reads as many
/// values as the quantity asks for.
pub open spec fn reply_decodable(f: FunctionModel) -> bool {
    &&& reads_bits(f) ==> quantity(f) % 256 <= 248
    &&& reads_registers(f) ==> quantity(f) <= 127
}

impl ModbusFunction {
    /// Whether a reply to this function can be decoded (see
    /// [`reply_decodable`]).
    pub fn reply_is_decodable(&self) -> (b: bool)
        ensures
            b == reply_decodable(self@),
    {
        match self {
            ModbusFunction::ReadCoils { quantity, .. } => quantity % 256 <= 248,
            ModbusFunction::ReadDiscreteInputs { quantity, .. } => quantity % 256 <= 248,
            ModbusFunction::ReadHoldingRegisters { quantity, .. } => *quantity <= 127,
            ModbusFunction::ReadInputRegisters { quantity, .. } => *quantity <= 127,
            _ => true,
        }
    }
}

/// The Modbus RTU frame (slave id, function code, data and CRC) that the
/// `modbus_rtu` crate builds for `f` addressed to `slave_id`, or its refusal.
pub uninterp spec fn rtu_request_frame(slave_id: u8, f: FunctionModel) -> Result<
    Seq<u8>,
    RequestPacketError,
>;

/// Builds the Modbus RTU frame of `function` addressed to `slave_id`.
///
/// Calls `modbus_rtu::Request::to_bytes` on a request with no timeout. The
/// contract names its result, states that it fails exactly when the request
/// is rejected (see [`request_rejected`]) and that a frame starts with the
/// slave id and the function code; it does not state the data bytes or the
/// CRC, nor which error is returned.
#[verifier::external_body]
pub(crate) fn rtu_encode_request(slave_id: u8, function: &ModbusFunction) -> (r: Result<
    Box<[u8]>,
    RequestPacketError,
>)
    ensures
        match r {
            Ok(frame) => rtu_request_frame(slave_id, function@) == Ok::<
                Seq<u8>,
                RequestPacketError,
            >(frame@),
            Err(e) => rtu_request_frame(slave_id, function@) == Err::<Seq<u8>, RequestPacketError>(
                e,
            ),
        },
        r is Err <==> request_rejected(slave_id, function@),
        r matches Ok(frame) ==> frame@.len() >= 2 && frame@[0] == slave_id && frame@[1]
            == function_code(function@),
{
    modbus_rtu::Request::new(slave_id, &rtu_function(function), std::time::Duration::ZERO).to_bytes()
}

/// A decoded Modbus reply.
#[derive(Debug, PartialEq)]
pub enum ModbusResponse {
    /// Coil or discrete input states.
    Status(Box<[bool]>),
    /// Register values.
    Value(Box<[u16]>),
    /// A write was carried out.
    Success,
    /// The device answered with an exception.
    Exception(Exception),
}

/// The content of a [`ModbusResponse`].
pub enum ReplyModel {
    Status(Seq<bool>),
    Value(Seq<u16>),
    Success,
    Exception(Exception),
}

impl View for ModbusResponse {
    type V = ReplyModel;

    open spec fn view(&self) -> ReplyModel {
        match self {
            ModbusResponse::Status(v) => ReplyModel::Status(v@),
            ModbusResponse::Value(v) => ReplyModel::Value(v@),
            ModbusResponse::Success => ReplyModel::Success,
            ModbusResponse::Exception(e) => ReplyModel::Exception(*e),
        }
    }
}

/// Whether `r` is a reply of the kind `f` asks for: states for reads of bits,
/// exactly the requested number of values for reads of registers, an
/// acknowledgement for writes; or an exception.
pub open spec fn reply_fits(f: FunctionModel, r: ReplyModel) -> bool {
    ||| r is Exception
    ||| reads_bits(f) && r is Status
    ||| reads_registers(f) && (r matches ReplyModel::Value(v) && v.len() == quantity(f))
    ||| !reads_bits(f) && !reads_registers(f) && r is Success
}

/// The reply that the `modbus_rtu` crate decodes from `frame`, as an answer
/// to `f` addressed to `slave_id`, or its reason to reject the frame.
pub uninterp spec fn rtu_reply(slave_id: u8, f: FunctionModel, frame: Seq<u8>) -> Result<
    ReplyModel,
    ResponsePacketError,
>;

/// Decodes the Modbus RTU `frame` received in answer to `function`
/// addressed to `slave_id`.
///
/// Calls `modbus_rtu::Response::from_bytes` with a request with no timeout.
/// The contract names its result and states that a decoded reply is of the
/// kind the function asks for (see [`reply_fits`]); it does not state how the
/// frame is checked (length, CRC, responder, format) nor which error is
/// returned.
#[verifier::external_body]
pub(crate) fn rtu_decode_response(slave_id: u8, function: &ModbusFunction, frame: &[u8]) -> (r: Result<
    ModbusResponse,
    ResponsePacketError,
>)
    requires
        reply_decodable(function@),
    ensures
        match r {
            Ok(reply) => rtu_reply(slave_id, function@, frame@) == Ok::<
                ReplyModel,
                ResponsePacketError,
            >(reply@),
            Err(e) => rtu_reply(slave_id, function@, frame@) == Err::<
                ReplyModel,
                ResponsePacketError,
            >(e),
        },
        r matches Ok(reply) ==> reply_fits(function@, reply@),
{
    let f = rtu_function(function);
    let request = modbus_rtu::Request::new(slave_id, &f, std::time::Duration::ZERO);
    Ok(match RtuResponse::from_bytes(&request, frame)? {
        RtuResponse::Status(v) => ModbusResponse::Status(v),
        RtuResponse::Value(v) => ModbusResponse::Value(v),
        RtuResponse::Success => ModbusResponse::Success,
        RtuResponse::Exception(e) => ModbusResponse::Exception(e),
    })
}

/// Converts a [`ModbusFunction`] into the `modbus_rtu::Function` with the same
/// variant and fields. Nothing is stated of the result: it is only handed to
/// the `modbus_rtu` calls of this module.
#[verifier::external_body]
fn rtu_function(function: &ModbusFunction) -> RtuFunction {
    match function.clone() {
        M::ReadCoils { starting_address, quantity } => F::ReadCoils { starting_address, quantity },
        M::ReadDiscreteInputs { starting_address, quantity } => F::ReadDiscreteInputs { starting_address, quantity },
        M::ReadHoldingRegisters { starting_address, quantity } => F::ReadHoldingRegisters { starting_address, quantity },
        M::ReadInputRegisters { starting_address, quantity } => F::ReadInputRegisters { starting_address, quantity },
        M::WriteSingleCoil { address, value } => F::WriteSingleCoil { address, value },
        M::WriteSingleRegister { address, value } => F::WriteSingleRegister { address, value },
        M::WriteMultipleCoils { starting_address, value } => F::WriteMultipleCoils { starting_address, value: value.into_boxed_slice() },
        M::WriteMultipleRegisters { starting_address, value } => F::WriteMultipleRegisters { starting_address, value: value.into_boxed_slice() },
    }
}

} // verus!
