//! Wire-format codec: parses a raw datagram into a typed header or data
//! packet.
//!
//! Framing: byte 0 is the status byte (bit 0 selects the packet class,
//! bit 1 marks a data packet as the final segment), byte 1 is the file
//! identifier; a header packet continues with a UTF-8 filename, a data
//! packet with a big-endian 16-bit sequence number and the payload bytes.

use vstd::prelude::*;
use vstd::slice::{slice_index_get, slice_subrange, slice_to_vec};
use vstd::utf8::{decode_utf8, valid_utf8};

verus! {

pub type FileId = u8;

pub type StatusByte = u8;

pub type PacketNumber = u16;

/// Everything that can go wrong while decoding a packet or finalizing a
/// transfer.
#[derive(Debug, Clone, Copy, PartialEq, Eq, Structural)]
pub enum TransferError {
    /// The buffer is below the minimum length for its packet class.
    TooShort,
    /// The class bit does not match the requested decoder.
    WrongClass,
    /// The filename or payload section has zero length.
    EmptyContent,
    /// The filename bytes are not valid UTF-8.
    InvalidEncoding,
    /// A sequence number expected at finalize time has no segment.
    IncompleteFile,
    /// A file reached finalize without a name ever being recorded.
    MissingName,
}

/// Header Packet Structure
#[derive(Debug, Clone, PartialEq, Eq)]
pub struct HeaderPacket {
    pub file_id: u8,
    pub name: String,
}

/// Data Packet Structure
#[derive(Debug, Clone, PartialEq, Eq)]
pub struct DataPacket {
    pub is_last: bool,
    pub file_id: u8,
    pub packet_number: PacketNumber,
    pub data: Vec<u8>,
}

/// The class bit of a status byte: set for a data packet, clear for a
/// header packet.
pub open spec fn is_data_class(status: u8) -> bool {
    status & 1 == 1
}

/// The final-segment flag of a status byte (meaningful on data packets only).
pub open spec fn is_last_flag(status: u8) -> bool {
    status & 2 != 0
}

/// A buffer the header decoder accepts: the two fixed bytes, a clear class
/// bit, and at least one filename byte forming valid UTF-8.
pub open spec fn header_decodes(buf: Seq<u8>) -> bool {
    &&& buf.len() >= 3
    &&& !is_data_class(buf[0])
    &&& valid_utf8(buf.skip(2))
}

/// The error the header decoder reports on a buffer it rejects.
pub open spec fn header_decode_error(buf: Seq<u8>) -> TransferError {
    if buf.len() < 2 {
        TransferError::TooShort
    } else if is_data_class(buf[0]) {
        TransferError::WrongClass
    } else if buf.len() == 2 {
        TransferError::EmptyContent
    } else {
        TransferError::InvalidEncoding
    }
}

/// A buffer the data decoder accepts: the four fixed bytes, a set class bit,
/// and at least one payload byte.
pub open spec fn data_decodes(buf: Seq<u8>) -> bool {
    &&& buf.len() >= 5
    &&& is_data_class(buf[0])
}

/// The error the data decoder reports on a buffer it rejects.
pub open spec fn data_decode_error(buf: Seq<u8>) -> TransferError {
    if buf.len() < 4 {
        TransferError::TooShort
    } else if !is_data_class(buf[0]) {
        TransferError::WrongClass
    } else {
        TransferError::EmptyContent
    }
}

/// The sequence number carried by a data buffer: bytes 2 and 3, big-endian.
pub open spec fn packet_number_of(buf: Seq<u8>) -> u16 {
    (buf[2] * 256 + buf[3]) as u16
}

/// Law: a buffer shorter than the header class minimum of two bytes is
/// rejected by the header decoder, and the error says it was too short.
pub proof fn lemma_short_header_rejected(buf: Seq<u8>)
    requires
        buf.len() < 2,
    ensures
        !header_decodes(buf),
        header_decode_error(buf) == TransferError::TooShort,
{
}

/// Law: a buffer shorter than the data class minimum of four bytes is
/// rejected by the data decoder, and the error says it was too short.
pub proof fn lemma_short_data_rejected(buf: Seq<u8>)
    requires
        buf.len() < 4,
    ensures
        !data_decodes(buf),
        data_decode_error(buf) == TransferError::TooShort,
{
}

/// Law: the class bit is decisive. A data-classed buffer is rejected by the
/// header decoder, and a header-classed buffer by the data decoder.
pub proof fn lemma_wrong_class_rejected(buf: Seq<u8>)
    ensures
        is_data_class(buf[0]) ==> !header_decodes(buf),
        !is_data_class(buf[0]) ==> !data_decodes(buf),
{
}

/// Relies on std::str::from_utf8: it succeeds exactly on valid UTF-8 input,
/// and the returned string views the given bytes, so its characters are
/// their decoding.
#[verifier::external_body]
fn parse_utf8(bytes: &[u8]) -> (r: Option<String>)
    ensures
        r is Some <==> valid_utf8(bytes@),
        r matches Some(s) ==> s@ == decode_utf8(bytes@),
{
    match std::str::from_utf8(bytes) {
        Ok(s) => Some(s.to_string()),
        Err(_) => None,
    }
}

impl HeaderPacket {
    /// Decodes a header packet: `[status, file_id, filename bytes...]`,
    /// where the filename must be non-empty, valid UTF-8.
    pub fn decode(buf: &[u8]) -> (r: Result<HeaderPacket, TransferError>)
        ensures
            r is Ok <==> header_decodes(buf@),
            r matches Ok(p) ==> {
                &&& p.file_id == buf@[1]
                &&& p.name@ == decode_utf8(buf@.skip(2))
            },
            r matches Err(e) ==> e == header_decode_error(buf@),
    {
        if buf.len() < 2 {
            return Err(TransferError::TooShort);
        }
        if *slice_index_get(buf, 0) & 1 == 1 {
            return Err(TransferError::WrongClass);
        }
        let file_id = *slice_index_get(buf, 1);
        if buf.len() == 2 {
            return Err(TransferError::EmptyContent);
        }
        let name_bytes = slice_subrange(buf, 2, buf.len());
        proof {
            assert(name_bytes@ =~= buf@.skip(2));
        }
        match parse_utf8(name_bytes) {
            Some(name) => Ok(HeaderPacket { file_id, name }),
            None => Err(TransferError::InvalidEncoding),
        }
    }
}

impl DataPacket {
    /// Decodes a data packet: `[status, file_id, number hi, number lo,
    /// payload bytes...]`, where the payload must be non-empty.
    pub fn decode(buf: &[u8]) -> (r: Result<DataPacket, TransferError>)
        ensures
            r is Ok <==> data_decodes(buf@),
            r matches Ok(p) ==> {
                &&& p.is_last == is_last_flag(buf@[0])
                &&& p.file_id == buf@[1]
                &&& p.packet_number == packet_number_of(buf@)
                &&& p.data@ == buf@.skip(4)
            },
            r matches Err(e) ==> e == data_decode_error(buf@),
    {
        if buf.len() < 4 {
            return Err(TransferError::TooShort);
        }
        let status = *slice_index_get(buf, 0);
        if status & 1 != 1 {
            return Err(TransferError::WrongClass);
        }
        let file_id = *slice_index_get(buf, 1);
        let hi = *slice_index_get(buf, 2);
        let lo = *slice_index_get(buf, 3);
        let packet_number: u16 = (hi as u16) * 256 + (lo as u16);
        if buf.len() == 4 {
            return Err(TransferError::EmptyContent);
        }
        let payload = slice_to_vec(slice_subrange(buf, 4, buf.len()));
        proof {
            assert(payload@ =~= buf@.skip(4));
        }
        Ok(DataPacket { is_last: status & 2 != 0, file_id, packet_number, data: payload })
    }
}

} // verus!
