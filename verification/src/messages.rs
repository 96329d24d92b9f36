//! Boot-source protocol packet definitions and their little-endian wire format.

use vstd::prelude::*;
use vstd::bytes::*;
use crate::wire::{push_bytes, push_u16, push_u32, read_u16, read_u32, lemma_le_round_trip, lemma_le_bytes_round_trip};

verus! {

/// Message type byte that opens every packet.
#[derive(Debug, Clone, Copy, PartialEq, Eq, Structural)]
pub enum MessageType {
    InitiateBootRequest,
    ImageMetadataRequest,
    ImageDownloadRequest,
    ChunkAck,
    Finalize,
    InitiateBootResponse,
    ImageMetadataResponse,
    ImageChunk,
    FinalizeAck,
}

/// The wire value of each message type.
pub open spec fn message_type_code(t: MessageType) -> u8 {
    match t {
        MessageType::InitiateBootRequest => 0x01,
        MessageType::ImageMetadataRequest => 0x02,
        MessageType::ImageDownloadRequest => 0x03,
        MessageType::ChunkAck => 0x04,
        MessageType::Finalize => 0x05,
        MessageType::InitiateBootResponse => 0x81,
        MessageType::ImageMetadataResponse => 0x82,
        MessageType::ImageChunk => 0x83,
        MessageType::FinalizeAck => 0x85,
    }
}

/// The message type that a wire value names, if any.
pub open spec fn message_type_of(val: u8) -> Option<MessageType> {
    if val == 0x01 {
        Some(MessageType::InitiateBootRequest)
    } else if val == 0x02 {
        Some(MessageType::ImageMetadataRequest)
    } else if val == 0x03 {
        Some(MessageType::ImageDownloadRequest)
    } else if val == 0x04 {
        Some(MessageType::ChunkAck)
    } else if val == 0x05 {
        Some(MessageType::Finalize)
    } else if val == 0x81 {
        Some(MessageType::InitiateBootResponse)
    } else if val == 0x82 {
        Some(MessageType::ImageMetadataResponse)
    } else if val == 0x83 {
        Some(MessageType::ImageChunk)
    } else if val == 0x85 {
        Some(MessageType::FinalizeAck)
    } else {
        None
    }
}

impl MessageType {
    pub fn from_u8(val: u8) -> (r: Option<Self>)
        ensures
            r == message_type_of(val),
    {
        match val {
            0x01 => Some(Self::InitiateBootRequest),
            0x02 => Some(Self::ImageMetadataRequest),
            0x03 => Some(Self::ImageDownloadRequest),
            0x04 => Some(Self::ChunkAck),
            0x05 => Some(Self::Finalize),
            0x81 => Some(Self::InitiateBootResponse),
            0x82 => Some(Self::ImageMetadataResponse),
            0x83 => Some(Self::ImageChunk),
            0x85 => Some(Self::FinalizeAck),
            _ => None,
        }
    }

    pub fn as_u8(self) -> (r: u8)
        ensures
            r == message_type_code(self),
    {
        match self {
            Self::InitiateBootRequest => 0x01,
            Self::ImageMetadataRequest => 0x02,
            Self::ImageDownloadRequest => 0x03,
            Self::ChunkAck => 0x04,
            Self::Finalize => 0x05,
            Self::InitiateBootResponse => 0x81,
            Self::ImageMetadataResponse => 0x82,
            Self::ImageChunk => 0x83,
            Self::FinalizeAck => 0x85,
        }
    }
}

/// Decoding a message type's wire value gives the message type back, and a
/// wire value that decodes was produced by encoding what it decodes to.
pub proof fn lemma_message_type_round_trip(t: MessageType, val: u8)
    ensures
        message_type_of(message_type_code(t)) == Some(t),
        message_type_of(val) matches Some(u) ==> message_type_code(u) == val,
{
}


/// Status byte of a response.
#[derive(Debug, Clone, Copy, PartialEq, Eq, Structural)]
pub enum Status {
    Success,
    InProgress,
}

/// The wire value of each status.
pub open spec fn status_code(s: Status) -> u8 {
    match s {
        Status::Success => 0x00,
        Status::InProgress => 0x01,
    }
}

/// The status that a wire value names, if any.
pub open spec fn status_of(val: u8) -> Option<Status> {
    if val == 0x00 {
        Some(Status::Success)
    } else if val == 0x01 {
        Some(Status::InProgress)
    } else {
        None
    }
}

impl Status {
    pub fn from_u8(val: u8) -> (r: Option<Self>)
        ensures
            r == status_of(val),
    {
        match val {
            0x00 => Some(Self::Success),
            0x01 => Some(Self::InProgress),
            _ => None,
        }
    }

    pub fn as_u8(self) -> (r: u8)
        ensures
            r == status_code(self),
    {
        match self {
            Self::Success => 0x00,
            Self::InProgress => 0x01,
        }
    }
}

/// Error code carried in the status byte of a failed response.
#[derive(Debug, Clone, Copy, PartialEq, Eq, Structural)]
pub enum ErrorCode {
    InvalidMessageType,
    InvalidFirmwareId,
    ImageNotFound,
    ChecksumMismatch,
    TransferTimeout,
    SourceNotReady,
    InvalidParameters,
    CorruptedData,
    InsufficientSpace,
    ChecksumVerificationFailed,
    FlashWriteFailed,
    FlashStagingNotAvailable,
    FlashCommitFailed,
    FlashVerificationFailed,
    Unknown,
}

/// The wire value of each error code.
pub open spec fn error_code_value(e: ErrorCode) -> u8 {
    match e {
        ErrorCode::InvalidMessageType => 0x01,
        ErrorCode::InvalidFirmwareId => 0x02,
        ErrorCode::ImageNotFound => 0x03,
        ErrorCode::ChecksumMismatch => 0x04,
        ErrorCode::TransferTimeout => 0x05,
        ErrorCode::SourceNotReady => 0x06,
        ErrorCode::InvalidParameters => 0x07,
        ErrorCode::CorruptedData => 0x08,
        ErrorCode::InsufficientSpace => 0x09,
        ErrorCode::ChecksumVerificationFailed => 0x0A,
        ErrorCode::FlashWriteFailed => 0x0B,
        ErrorCode::FlashStagingNotAvailable => 0x0C,
        ErrorCode::FlashCommitFailed => 0x0D,
        ErrorCode::FlashVerificationFailed => 0x0E,
        ErrorCode::Unknown => 0xFF,
    }
}

/// The error code that a wire value names, if any.
pub open spec fn error_code_of(val: u8) -> Option<ErrorCode> {
    if val == 0x01 {
        Some(ErrorCode::InvalidMessageType)
    } else if val == 0x02 {
        Some(ErrorCode::InvalidFirmwareId)
    } else if val == 0x03 {
        Some(ErrorCode::ImageNotFound)
    } else if val == 0x04 {
        Some(ErrorCode::ChecksumMismatch)
    } else if val == 0x05 {
        Some(ErrorCode::TransferTimeout)
    } else if val == 0x06 {
        Some(ErrorCode::SourceNotReady)
    } else if val == 0x07 {
        Some(ErrorCode::InvalidParameters)
    } else if val == 0x08 {
        Some(ErrorCode::CorruptedData)
    } else if val == 0x09 {
        Some(ErrorCode::InsufficientSpace)
    } else if val == 0x0A {
        Some(ErrorCode::ChecksumVerificationFailed)
    } else if val == 0x0B {
        Some(ErrorCode::FlashWriteFailed)
    } else if val == 0x0C {
        Some(ErrorCode::FlashStagingNotAvailable)
    } else if val == 0x0D {
        Some(ErrorCode::FlashCommitFailed)
    } else if val == 0x0E {
        Some(ErrorCode::FlashVerificationFailed)
    } else if val == 0xFF {
        Some(ErrorCode::Unknown)
    } else {
        None
    }
}

impl ErrorCode {
    pub fn from_u8(val: u8) -> (r: Option<Self>)
        ensures
            r == error_code_of(val),
    {
        match val {
            0x01 => Some(Self::InvalidMessageType),
            0x02 => Some(Self::InvalidFirmwareId),
            0x03 => Some(Self::ImageNotFound),
            0x04 => Some(Self::ChecksumMismatch),
            0x05 => Some(Self::TransferTimeout),
            0x06 => Some(Self::SourceNotReady),
            0x07 => Some(Self::InvalidParameters),
            0x08 => Some(Self::CorruptedData),
            0x09 => Some(Self::InsufficientSpace),
            0x0A => Some(Self::ChecksumVerificationFailed),
            0x0B => Some(Self::FlashWriteFailed),
            0x0C => Some(Self::FlashStagingNotAvailable),
            0x0D => Some(Self::FlashCommitFailed),
            0x0E => Some(Self::FlashVerificationFailed),
            0xFF => Some(Self::Unknown),
            _ => None,
        }
    }

    pub fn as_u8(self) -> (r: u8)
        ensures
            r == error_code_value(self),
    {
        match self {
            Self::InvalidMessageType => 0x01,
            Self::InvalidFirmwareId => 0x02,
            Self::ImageNotFound => 0x03,
            Self::ChecksumMismatch => 0x04,
            Self::TransferTimeout => 0x05,
            Self::SourceNotReady => 0x06,
            Self::InvalidParameters => 0x07,
            Self::CorruptedData => 0x08,
            Self::InsufficientSpace => 0x09,
            Self::ChecksumVerificationFailed => 0x0A,
            Self::FlashWriteFailed => 0x0B,
            Self::FlashStagingNotAvailable => 0x0C,
            Self::FlashCommitFailed => 0x0D,
            Self::FlashVerificationFailed => 0x0E,
            Self::Unknown => 0xFF,
        }
    }
}

/// Decoding a status or an error code's wire value gives it back, and a
/// wire value that decodes was produced by encoding what it decodes to.
pub proof fn lemma_status_and_error_round_trip(s: Status, e: ErrorCode, val: u8)
    ensures
        status_of(status_code(s)) == Some(s),
        status_of(val) matches Some(t) ==> status_code(t) == val,
        error_code_of(error_code_value(e)) == Some(e),
        error_code_of(val) matches Some(f) ==> error_code_value(f) == val,
{
}

pub const FIRMWARE_ID_CALIPTRA_FMC_RT: u8 = 0x00;

pub const FIRMWARE_ID_SOC_MANIFEST: u8 = 0x01;

pub const FIRMWARE_ID_MCU_RT: u8 = 0x02;


/// Bit mask of the lower flag of a flags word.
pub const FLAG_BIT0: u32 = 0x1;

/// Bit mask of the upper flag of a flags word.
pub const FLAG_BIT1: u32 = 0x2;

/// `v` with the bits of `mask` set when `on`, cleared otherwise.
pub open spec fn with_flag(v: u32, mask: u32, on: bool) -> u32 {
    if on {
        v | mask
    } else {
        v & !mask
    }
}

/// Whether any bit of `mask` is set in `v`.
pub open spec fn flag_set(v: u32, mask: u32) -> bool {
    v & mask != 0
}

/// Setting one flag bit reads back as set, clearing it reads back as
/// clear, and the other flag bit and all upper bits are left as they were.
pub proof fn lemma_flag_update(v: u32, on: bool)
    ensures
        flag_set(with_flag(v, FLAG_BIT0, on), FLAG_BIT0) == on,
        flag_set(with_flag(v, FLAG_BIT1, on), FLAG_BIT1) == on,
        with_flag(v, FLAG_BIT0, on) & !FLAG_BIT0 == v & !FLAG_BIT0,
        with_flag(v, FLAG_BIT1, on) & !FLAG_BIT1 == v & !FLAG_BIT1,
{
    assert((v | 1u32) & 1u32 != 0) by (bit_vector);
    assert((v & !1u32) & 1u32 == 0) by (bit_vector);
    assert((v | 2u32) & 2u32 != 0) by (bit_vector);
    assert((v & !2u32) & 2u32 == 0) by (bit_vector);
    assert((v | 1u32) & !1u32 == v & !1u32) by (bit_vector);
    assert((v & !1u32) & !1u32 == v & !1u32) by (bit_vector);
    assert((v | 2u32) & !2u32 == v & !2u32) by (bit_vector);
    assert((v & !2u32) & !2u32 == v & !2u32) by (bit_vector);
}

/// Flags of an `InitiateBootRequest`: bit 0 asks for flash write-back,
/// bit 1 selects the flash commit policy.
#[derive(Debug, Clone, Copy, PartialEq, Eq, Structural)]
pub struct BootFlags(pub u32);

impl BootFlags {
    pub fn flash_writeback(&self) -> (r: bool)
        ensures
            r == flag_set(self.0, FLAG_BIT0),
    {
        self.0 & FLAG_BIT0 != 0
    }

    pub fn set_flash_writeback(&mut self, on: bool)
        ensures
            final(self).0 == with_flag(old(self).0, FLAG_BIT0, on),
    {
        if on {
            self.0 = self.0 | FLAG_BIT0;
        } else {
            self.0 = self.0 & !FLAG_BIT0;
        }
    }

    pub fn flash_commit_policy(&self) -> (r: bool)
        ensures
            r == flag_set(self.0, FLAG_BIT1),
    {
        self.0 & FLAG_BIT1 != 0
    }

    pub fn set_flash_commit_policy(&mut self, on: bool)
        ensures
            final(self).0 == with_flag(old(self).0, FLAG_BIT1, on),
    {
        if on {
            self.0 = self.0 | FLAG_BIT1;
        } else {
            self.0 = self.0 & !FLAG_BIT1;
        }
    }
}

/// Flags of a `ChunkAck`: bit 0 reports readiness for the next chunk,
/// bit 1 reports a detected error.
#[derive(Debug, Clone, Copy, PartialEq, Eq, Structural)]
pub struct ChunkAckFlags(pub u32);

impl ChunkAckFlags {
    pub fn ready_for_next(&self) -> (r: bool)
        ensures
            r == flag_set(self.0, FLAG_BIT0),
    {
        self.0 & FLAG_BIT0 != 0
    }

    pub fn set_ready_for_next(&mut self, on: bool)
        ensures
            final(self).0 == with_flag(old(self).0, FLAG_BIT0, on),
    {
        if on {
            self.0 = self.0 | FLAG_BIT0;
        } else {
            self.0 = self.0 & !FLAG_BIT0;
        }
    }

    pub fn error_detected(&self) -> (r: bool)
        ensures
            r == flag_set(self.0, FLAG_BIT1),
    {
        self.0 & FLAG_BIT1 != 0
    }

    pub fn set_error_detected(&mut self, on: bool)
        ensures
            final(self).0 == with_flag(old(self).0, FLAG_BIT1, on),
    {
        if on {
            self.0 = self.0 | FLAG_BIT1;
        } else {
            self.0 = self.0 & !FLAG_BIT1;
        }
    }
}

/// Flags of a `FinalizeAck`: bit 0 reports that the TOC was cleared,
/// bit 1 that the connection was reset.
#[derive(Debug, Clone, Copy, PartialEq, Eq, Structural)]
pub struct CleanupFlags(pub u32);

impl CleanupFlags {
    pub fn clear_toc(&self) -> (r: bool)
        ensures
            r == flag_set(self.0, FLAG_BIT0),
    {
        self.0 & FLAG_BIT0 != 0
    }

    pub fn set_clear_toc(&mut self, on: bool)
        ensures
            final(self).0 == with_flag(old(self).0, FLAG_BIT0, on),
    {
        if on {
            self.0 = self.0 | FLAG_BIT0;
        } else {
            self.0 = self.0 & !FLAG_BIT0;
        }
    }

    pub fn reset_connection(&self) -> (r: bool)
        ensures
            r == flag_set(self.0, FLAG_BIT1),
    {
        self.0 & FLAG_BIT1 != 0
    }

    pub fn set_reset_connection(&mut self, on: bool)
        ensures
            final(self).0 == with_flag(old(self).0, FLAG_BIT1, on),
    {
        if on {
            self.0 = self.0 | FLAG_BIT1;
        } else {
            self.0 = self.0 & !FLAG_BIT1;
        }
    }
}


broadcast use {vstd::seq::group_seq_axioms, vstd::slice::group_slice_axioms, vstd::array::group_array_axioms};

/// A fixed-size packet of the protocol and its little-endian wire encoding.
pub trait Packet: Sized {
    /// Number of bytes of every encoding.
    spec fn spec_len() -> nat;

    /// The wire encoding of the packet.
    spec fn spec_bytes(&self) -> Seq<u8>;

    /// Every encoding has the packet length, and two packets with the same
    /// encoding are the same packet.
    proof fn lemma_encoding(a: &Self, b: &Self)
        ensures
            a.spec_bytes().len() == Self::spec_len(),
            a.spec_bytes() == b.spec_bytes() ==> a == b,
    ;

    /// The packet length in bytes.
    fn size() -> (n: usize)
        ensures
            n == Self::spec_len(),
    ;

    /// Serializes the packet.
    fn as_bytes(&self) -> (b: Vec<u8>)
        ensures
            b@ == self.spec_bytes(),
    ;

    /// Decodes a packet from the first bytes of `buf`; fails only when `buf`
    /// is shorter than a packet.
    fn read_from_prefix(buf: &[u8]) -> (r: Option<Self>)
        ensures
            r is Some <==> buf@.len() >= Self::spec_len(),
            r matches Some(m) ==> m.spec_bytes() == buf@.take(Self::spec_len() as int),
    ;

    /// Decodes a packet that fills `buf` exactly; fails when the length differs.
    fn read_from_bytes(buf: &[u8]) -> (r: Option<Self>)
        ensures
            r is Some <==> buf@.len() == Self::spec_len(),
            r matches Some(m) ==> m.spec_bytes() == buf@,
    {
        if buf.len() == Self::size() {
            Self::read_from_prefix(buf)
        } else {
            None
        }
    }
}

/// Decodes a fixed-size packet from the front of `buf`.
pub fn parse_fixed<T: Packet>(buf: &[u8]) -> (r: Option<T>)
    ensures
        r is Some <==> buf@.len() >= T::spec_len(),
        r matches Some(m) ==> m.spec_bytes() == buf@.take(T::spec_len() as int),
{
    T::read_from_prefix(buf)
}

/// Returns the message-type byte of a packet, `None` for an empty buffer.
pub fn peek_message_type(buf: &[u8]) -> (r: Option<u8>)
    ensures
        r == (if buf@.len() > 0 { Some(buf@[0]) } else { None::<u8> }),
{
    if buf.len() > 0 {
        Some(buf[0])
    } else {
        None
    }
}

#[derive(Debug, Clone, Copy)]
pub struct InitiateBootRequest {
    pub message_type: u8,
    pub reserved: [u8; 3],
    pub protocol_version: u32,
    pub flags: BootFlags,
}

impl InitiateBootRequest {
    pub const SIZE: usize = 12;

    pub fn new(protocol_version: u32, flags: BootFlags) -> (r: Self)
        ensures
            r.message_type == message_type_code(MessageType::InitiateBootRequest),
            r.reserved@ == seq![0u8, 0u8, 0u8],
            r.protocol_version == protocol_version,
            r.flags == flags,
    {
        Self {
            message_type: MessageType::InitiateBootRequest.as_u8(),
            reserved: [0u8; 3],
            protocol_version,
            flags,
        }
    }
}

impl Packet for InitiateBootRequest {
    open spec fn spec_len() -> nat {
        12
    }

    open spec fn spec_bytes(&self) -> Seq<u8> {
        seq![self.message_type] + self.reserved@ + spec_u32_to_le_bytes(self.protocol_version)
            + spec_u32_to_le_bytes(self.flags.0)
    }

    proof fn lemma_encoding(a: &Self, b: &Self) {
        lemma_le_round_trip(a.protocol_version, b.protocol_version, 0, 0);
        lemma_le_round_trip(a.flags.0, b.flags.0, 0, 0);
        if a.spec_bytes() == b.spec_bytes() {
            assert(a.spec_bytes()[0] == a.message_type);
            assert(a.spec_bytes().subrange(1, 4) =~= a.reserved@);
            assert(b.spec_bytes().subrange(1, 4) =~= b.reserved@);
            assert(a.spec_bytes().subrange(4, 8) =~= spec_u32_to_le_bytes(a.protocol_version));
            assert(b.spec_bytes().subrange(4, 8) =~= spec_u32_to_le_bytes(b.protocol_version));
            assert(a.spec_bytes().subrange(8, 12) =~= spec_u32_to_le_bytes(a.flags.0));
            assert(b.spec_bytes().subrange(8, 12) =~= spec_u32_to_le_bytes(b.flags.0));
            assert(a.reserved =~= b.reserved);
        }
    }

    fn size() -> (n: usize) {
        Self::SIZE
    }

    fn as_bytes(&self) -> (b: Vec<u8>) {
        let mut out: Vec<u8> = Vec::new();
        out.push(self.message_type);
        push_bytes(&mut out, &self.reserved);
        push_u32(&mut out, self.protocol_version);
        push_u32(&mut out, self.flags.0);
        out
    }

    fn read_from_prefix(buf: &[u8]) -> (r: Option<Self>) {
        if buf.len() < Self::SIZE {
            return None;
        }
        let m = Self {
            message_type: buf[0],
            reserved: [buf[1], buf[2], buf[3]],
            protocol_version: read_u32(buf, 4),
            flags: BootFlags(read_u32(buf, 8)),
        };
        proof {
            lemma_le_bytes_round_trip(buf@.subrange(4, 8), seq![]);
            lemma_le_bytes_round_trip(buf@.subrange(8, 12), seq![]);
            assert(m.spec_bytes() =~= buf@.take(12));
        }
        Some(m)
    }
}


#[derive(Debug, Clone, Copy)]
pub struct InitiateBootResponse {
    pub message_type: u8,
    pub status: u8,
    pub reserved: [u8; 2],
}

impl InitiateBootResponse {
    pub const SIZE: usize = 4;

    pub fn new(status: Status) -> (r: Self)
        ensures
            r.message_type == message_type_code(MessageType::InitiateBootResponse),
            r.status == status_code(status),
            r.reserved@ == seq![0u8, 0u8],
    {
        Self {
            message_type: MessageType::InitiateBootResponse.as_u8(),
            status: status.as_u8(),
            reserved: [0u8; 2],
        }
    }
}

#[derive(Debug, Clone, Copy)]
pub struct ImageMetadataRequest {
    pub message_type: u8,
    pub firmware_id: u8,
    pub reserved: [u8; 2],
}

impl ImageMetadataRequest {
    pub const SIZE: usize = 4;

    pub fn new(firmware_id: u8) -> (r: Self)
        ensures
            r.message_type == message_type_code(MessageType::ImageMetadataRequest),
            r.firmware_id == firmware_id,
            r.reserved@ == seq![0u8, 0u8],
    {
        Self {
            message_type: MessageType::ImageMetadataRequest.as_u8(),
            firmware_id,
            reserved: [0u8; 2],
        }
    }
}

#[derive(Debug, Clone, Copy)]
pub struct ImageMetadataResponse {
    pub message_type: u8,
    pub status: u8,
    pub reserved0: [u8; 2],
    pub image_size: u32,
    pub checksum: [u8; 32],
    pub version: u32,
    pub flags: u32,
    pub reserved1: u32,
}

impl ImageMetadataResponse {
    pub const SIZE: usize = 52;

    pub const FLAG_COMPRESSED: u32 = 1;

    pub const FLAG_SIGNED: u32 = 2;

    pub fn new(image_size: u32, checksum: [u8; 32], version: u32, flags: u32) -> (r: Self)
        ensures
            r.message_type == message_type_code(MessageType::ImageMetadataResponse),
            r.status == status_code(Status::Success),
            r.reserved0@ == seq![0u8, 0u8],
            r.image_size == image_size,
            r.checksum == checksum,
            r.version == version,
            r.flags == flags,
            r.reserved1 == 0,
    {
        Self {
            message_type: MessageType::ImageMetadataResponse.as_u8(),
            status: Status::Success.as_u8(),
            reserved0: [0u8; 2],
            image_size,
            checksum,
            version,
            flags,
            reserved1: 0,
        }
    }

    pub fn error(status: ErrorCode) -> (r: Self)
        ensures
            r.message_type == message_type_code(MessageType::ImageMetadataResponse),
            r.status == error_code_value(status),
            r.reserved0@ == seq![0u8, 0u8],
            r.image_size == 0,
            r.checksum@ == Seq::new(32, |i: int| 0u8),
            r.version == 0,
            r.flags == 0,
            r.reserved1 == 0,
    {
        let r = Self {
            message_type: MessageType::ImageMetadataResponse.as_u8(),
            status: status.as_u8(),
            reserved0: [0u8; 2],
            image_size: 0,
            checksum: [0u8; 32],
            version: 0,
            flags: 0,
            reserved1: 0,
        };
        assert(r.checksum@ =~= Seq::new(32, |i: int| 0u8));
        r
    }
}

#[derive(Debug, Clone, Copy)]
pub struct ImageDownloadRequest {
    pub message_type: u8,
    pub firmware_id: u8,
    pub reserved0: [u8; 2],
    pub reserved1: u32,
    pub reserved2: u32,
}

impl ImageDownloadRequest {
    pub const SIZE: usize = 12;

    pub fn new(firmware_id: u8) -> (r: Self)
        ensures
            r.message_type == message_type_code(MessageType::ImageDownloadRequest),
            r.firmware_id == firmware_id,
            r.reserved0@ == seq![0u8, 0u8],
            r.reserved1 == 0,
            r.reserved2 == 0,
    {
        Self {
            message_type: MessageType::ImageDownloadRequest.as_u8(),
            firmware_id,
            reserved0: [0u8; 2],
            reserved1: 0,
            reserved2: 0,
        }
    }
}

#[derive(Debug, Clone, Copy, PartialEq, Eq, Structural)]
pub struct ImageChunkHeader {
    pub message_type: u8,
    pub status: u8,
    pub sequence_number: u16,
    pub offset: u32,
    pub chunk_size: u32,
}

impl ImageChunkHeader {
    pub const SIZE: usize = 12;

    pub fn new(sequence_number: u16, offset: u32, chunk_size: u32) -> (r: Self)
        ensures
            r == (Self {
                message_type: message_type_code(MessageType::ImageChunk),
                status: status_code(Status::Success),
                sequence_number,
                offset,
                chunk_size,
            }),
    {
        Self {
            message_type: MessageType::ImageChunk.as_u8(),
            status: Status::Success.as_u8(),
            sequence_number,
            offset,
            chunk_size,
        }
    }

    pub fn error(status: ErrorCode) -> (r: Self)
        ensures
            r == (Self {
                message_type: message_type_code(MessageType::ImageChunk),
                status: error_code_value(status),
                sequence_number: 0,
                offset: 0,
                chunk_size: 0,
            }),
    {
        Self {
            message_type: MessageType::ImageChunk.as_u8(),
            status: status.as_u8(),
            sequence_number: 0,
            offset: 0,
            chunk_size: 0,
        }
    }
}

#[derive(Debug, Clone, Copy, PartialEq, Eq, Structural)]
pub struct ChunkAck {
    pub message_type: u8,
    pub firmware_id: u8,
    pub sequence_number: u16,
    pub reserved: u32,
    pub flags: ChunkAckFlags,
}

impl ChunkAck {
    pub const SIZE: usize = 12;

    pub fn new(firmware_id: u8, sequence_number: u16, flags: ChunkAckFlags) -> (r: Self)
        ensures
            r == (Self {
                message_type: message_type_code(MessageType::ChunkAck),
                firmware_id,
                sequence_number,
                reserved: 0,
                flags,
            }),
    {
        Self {
            message_type: MessageType::ChunkAck.as_u8(),
            firmware_id,
            sequence_number,
            reserved: 0,
            flags,
        }
    }
}

#[derive(Debug, Clone, Copy, PartialEq, Eq, Structural)]
pub struct FinalizeRequest {
    pub message_type: u8,
    pub status: u8,
    pub error_code: u16,
    pub reserved: u32,
}

impl FinalizeRequest {
    pub const SIZE: usize = 8;

    pub fn success() -> (r: Self)
        ensures
            r == (Self {
                message_type: message_type_code(MessageType::Finalize),
                status: status_code(Status::Success),
                error_code: 0,
                reserved: 0,
            }),
    {
        Self {
            message_type: MessageType::Finalize.as_u8(),
            status: Status::Success.as_u8(),
            error_code: 0,
            reserved: 0,
        }
    }

    pub fn error(status: ErrorCode, error_code: u16) -> (r: Self)
        ensures
            r == (Self {
                message_type: message_type_code(MessageType::Finalize),
                status: error_code_value(status),
                error_code,
                reserved: 0,
            }),
    {
        Self {
            message_type: MessageType::Finalize.as_u8(),
            status: status.as_u8(),
            error_code,
            reserved: 0,
        }
    }
}

#[derive(Debug, Clone, Copy)]
pub struct FinalizeAck {
    pub message_type: u8,
    pub status: u8,
    pub reserved0: [u8; 2],
    pub cleanup_flags: CleanupFlags,
    pub reserved1: u32,
}

impl FinalizeAck {
    pub const SIZE: usize = 12;

    pub fn new(status: Status, cleanup_flags: CleanupFlags) -> (r: Self)
        ensures
            r.message_type == message_type_code(MessageType::FinalizeAck),
            r.status == status_code(status),
            r.reserved0@ == seq![0u8, 0u8],
            r.cleanup_flags == cleanup_flags,
            r.reserved1 == 0,
    {
        Self {
            message_type: MessageType::FinalizeAck.as_u8(),
            status: status.as_u8(),
            reserved0: [0u8; 2],
            cleanup_flags,
            reserved1: 0,
        }
    }
}

impl Packet for InitiateBootResponse {
    open spec fn spec_len() -> nat {
        4
    }

    open spec fn spec_bytes(&self) -> Seq<u8> {
        seq![self.message_type]
            + seq![self.status]
            + self.reserved@
    }

    proof fn lemma_encoding(a: &Self, b: &Self) {

        if a.spec_bytes() == b.spec_bytes() {
            assert(a.spec_bytes()[0] == a.message_type);
            assert(b.spec_bytes()[0] == b.message_type);
            assert(a.spec_bytes()[1] == a.status);
            assert(b.spec_bytes()[1] == b.status);
            assert(a.spec_bytes().subrange(2, 4) =~= a.reserved@);
            assert(b.spec_bytes().subrange(2, 4) =~= b.reserved@);
            assert(a.reserved =~= b.reserved);
        }
    }

    fn size() -> (n: usize) {
        Self::SIZE
    }

    fn as_bytes(&self) -> (b: Vec<u8>) {
        let mut out: Vec<u8> = Vec::new();
        out.push(self.message_type);
        out.push(self.status);
        push_bytes(&mut out, &self.reserved);
        out
    }

    fn read_from_prefix(buf: &[u8]) -> (r: Option<Self>) {
        if buf.len() < Self::SIZE {
            return None;
        }
        let m = Self {
            message_type: buf[0],
            status: buf[1],
            reserved: [buf[2], buf[3]],
        };
        proof {

            assert(m.spec_bytes() =~= buf@.take(4));
        }
        Some(m)
    }
}

impl Packet for ImageMetadataRequest {
    open spec fn spec_len() -> nat {
        4
    }

    open spec fn spec_bytes(&self) -> Seq<u8> {
        seq![self.message_type]
            + seq![self.firmware_id]
            + self.reserved@
    }

    proof fn lemma_encoding(a: &Self, b: &Self) {

        if a.spec_bytes() == b.spec_bytes() {
            assert(a.spec_bytes()[0] == a.message_type);
            assert(b.spec_bytes()[0] == b.message_type);
            assert(a.spec_bytes()[1] == a.firmware_id);
            assert(b.spec_bytes()[1] == b.firmware_id);
            assert(a.spec_bytes().subrange(2, 4) =~= a.reserved@);
            assert(b.spec_bytes().subrange(2, 4) =~= b.reserved@);
            assert(a.reserved =~= b.reserved);
        }
    }

    fn size() -> (n: usize) {
        Self::SIZE
    }

    fn as_bytes(&self) -> (b: Vec<u8>) {
        let mut out: Vec<u8> = Vec::new();
        out.push(self.message_type);
        out.push(self.firmware_id);
        push_bytes(&mut out, &self.reserved);
        out
    }

    fn read_from_prefix(buf: &[u8]) -> (r: Option<Self>) {
        if buf.len() < Self::SIZE {
            return None;
        }
        let m = Self {
            message_type: buf[0],
            firmware_id: buf[1],
            reserved: [buf[2], buf[3]],
        };
        proof {

            assert(m.spec_bytes() =~= buf@.take(4));
        }
        Some(m)
    }
}

impl Packet for ImageMetadataResponse {
    open spec fn spec_len() -> nat {
        52
    }

    open spec fn spec_bytes(&self) -> Seq<u8> {
        seq![self.message_type]
            + seq![self.status]
            + self.reserved0@
            + spec_u32_to_le_bytes(self.image_size)
            + self.checksum@
            + spec_u32_to_le_bytes(self.version)
            + spec_u32_to_le_bytes(self.flags)
            + spec_u32_to_le_bytes(self.reserved1)
    }

    proof fn lemma_encoding(a: &Self, b: &Self) {
        lemma_le_round_trip(a.image_size, b.image_size, 0, 0);
        lemma_le_round_trip(a.version, b.version, 0, 0);
        lemma_le_round_trip(a.flags, b.flags, 0, 0);
        lemma_le_round_trip(a.reserved1, b.reserved1, 0, 0);
        if a.spec_bytes() == b.spec_bytes() {
            assert(a.spec_bytes()[0] == a.message_type);
            assert(b.spec_bytes()[0] == b.message_type);
            assert(a.spec_bytes()[1] == a.status);
            assert(b.spec_bytes()[1] == b.status);
            assert(a.spec_bytes().subrange(2, 4) =~= a.reserved0@);
            assert(b.spec_bytes().subrange(2, 4) =~= b.reserved0@);
            assert(a.reserved0 =~= b.reserved0);
            assert(a.spec_bytes().subrange(4, 8) =~= spec_u32_to_le_bytes(a.image_size));
            assert(b.spec_bytes().subrange(4, 8) =~= spec_u32_to_le_bytes(b.image_size));
            assert(a.spec_bytes().subrange(8, 40) =~= a.checksum@);
            assert(b.spec_bytes().subrange(8, 40) =~= b.checksum@);
            assert(a.checksum =~= b.checksum);
            assert(a.spec_bytes().subrange(40, 44) =~= spec_u32_to_le_bytes(a.version));
            assert(b.spec_bytes().subrange(40, 44) =~= spec_u32_to_le_bytes(b.version));
            assert(a.spec_bytes().subrange(44, 48) =~= spec_u32_to_le_bytes(a.flags));
            assert(b.spec_bytes().subrange(44, 48) =~= spec_u32_to_le_bytes(b.flags));
            assert(a.spec_bytes().subrange(48, 52) =~= spec_u32_to_le_bytes(a.reserved1));
            assert(b.spec_bytes().subrange(48, 52) =~= spec_u32_to_le_bytes(b.reserved1));
        }
    }

    fn size() -> (n: usize) {
        Self::SIZE
    }

    fn as_bytes(&self) -> (b: Vec<u8>) {
        let mut out: Vec<u8> = Vec::new();
        out.push(self.message_type);
        out.push(self.status);
        push_bytes(&mut out, &self.reserved0);
        push_u32(&mut out, self.image_size);
        push_bytes(&mut out, &self.checksum);
        push_u32(&mut out, self.version);
        push_u32(&mut out, self.flags);
        push_u32(&mut out, self.reserved1);
        out
    }

    fn read_from_prefix(buf: &[u8]) -> (r: Option<Self>) {
        if buf.len() < Self::SIZE {
            return None;
        }
        let m = Self {
            message_type: buf[0],
            status: buf[1],
            reserved0: [buf[2], buf[3]],
            image_size: read_u32(buf, 4),
            checksum: [buf[8], buf[9], buf[10], buf[11], buf[12], buf[13], buf[14], buf[15], buf[16], buf[17], buf[18], buf[19], buf[20], buf[21], buf[22], buf[23], buf[24], buf[25], buf[26], buf[27], buf[28], buf[29], buf[30], buf[31], buf[32], buf[33], buf[34], buf[35], buf[36], buf[37], buf[38], buf[39]],
            version: read_u32(buf, 40),
            flags: read_u32(buf, 44),
            reserved1: read_u32(buf, 48),
        };
        proof {
            lemma_le_bytes_round_trip(buf@.subrange(4, 8), seq![]);
            lemma_le_bytes_round_trip(buf@.subrange(40, 44), seq![]);
            lemma_le_bytes_round_trip(buf@.subrange(44, 48), seq![]);
            lemma_le_bytes_round_trip(buf@.subrange(48, 52), seq![]);
            assert(m.spec_bytes() =~= buf@.take(52));
        }
        Some(m)
    }
}

impl Packet for ImageDownloadRequest {
    open spec fn spec_len() -> nat {
        12
    }

    open spec fn spec_bytes(&self) -> Seq<u8> {
        seq![self.message_type]
            + seq![self.firmware_id]
            + self.reserved0@
            + spec_u32_to_le_bytes(self.reserved1)
            + spec_u32_to_le_bytes(self.reserved2)
    }

    proof fn lemma_encoding(a: &Self, b: &Self) {
        lemma_le_round_trip(a.reserved1, b.reserved1, 0, 0);
        lemma_le_round_trip(a.reserved2, b.reserved2, 0, 0);
        if a.spec_bytes() == b.spec_bytes() {
            assert(a.spec_bytes()[0] == a.message_type);
            assert(b.spec_bytes()[0] == b.message_type);
            assert(a.spec_bytes()[1] == a.firmware_id);
            assert(b.spec_bytes()[1] == b.firmware_id);
            assert(a.spec_bytes().subrange(2, 4) =~= a.reserved0@);
            assert(b.spec_bytes().subrange(2, 4) =~= b.reserved0@);
            assert(a.reserved0 =~= b.reserved0);
            assert(a.spec_bytes().subrange(4, 8) =~= spec_u32_to_le_bytes(a.reserved1));
            assert(b.spec_bytes().subrange(4, 8) =~= spec_u32_to_le_bytes(b.reserved1));
            assert(a.spec_bytes().subrange(8, 12) =~= spec_u32_to_le_bytes(a.reserved2));
            assert(b.spec_bytes().subrange(8, 12) =~= spec_u32_to_le_bytes(b.reserved2));
        }
    }

    fn size() -> (n: usize) {
        Self::SIZE
    }

    fn as_bytes(&self) -> (b: Vec<u8>) {
        let mut out: Vec<u8> = Vec::new();
        out.push(self.message_type);
        out.push(self.firmware_id);
        push_bytes(&mut out, &self.reserved0);
        push_u32(&mut out, self.reserved1);
        push_u32(&mut out, self.reserved2);
        out
    }

    fn read_from_prefix(buf: &[u8]) -> (r: Option<Self>) {
        if buf.len() < Self::SIZE {
            return None;
        }
        let m = Self {
            message_type: buf[0],
            firmware_id: buf[1],
            reserved0: [buf[2], buf[3]],
            reserved1: read_u32(buf, 4),
            reserved2: read_u32(buf, 8),
        };
        proof {
            lemma_le_bytes_round_trip(buf@.subrange(4, 8), seq![]);
            lemma_le_bytes_round_trip(buf@.subrange(8, 12), seq![]);
            assert(m.spec_bytes() =~= buf@.take(12));
        }
        Some(m)
    }
}

impl Packet for ImageChunkHeader {
    open spec fn spec_len() -> nat {
        12
    }

    open spec fn spec_bytes(&self) -> Seq<u8> {
        seq![self.message_type]
            + seq![self.status]
            + spec_u16_to_le_bytes(self.sequence_number)
            + spec_u32_to_le_bytes(self.offset)
            + spec_u32_to_le_bytes(self.chunk_size)
    }

    proof fn lemma_encoding(a: &Self, b: &Self) {
        lemma_le_round_trip(0, 0, a.sequence_number, b.sequence_number);
        lemma_le_round_trip(a.offset, b.offset, 0, 0);
        lemma_le_round_trip(a.chunk_size, b.chunk_size, 0, 0);
        if a.spec_bytes() == b.spec_bytes() {
            assert(a.spec_bytes()[0] == a.message_type);
            assert(b.spec_bytes()[0] == b.message_type);
            assert(a.spec_bytes()[1] == a.status);
            assert(b.spec_bytes()[1] == b.status);
            assert(a.spec_bytes().subrange(2, 4) =~= spec_u16_to_le_bytes(a.sequence_number));
            assert(b.spec_bytes().subrange(2, 4) =~= spec_u16_to_le_bytes(b.sequence_number));
            assert(a.spec_bytes().subrange(4, 8) =~= spec_u32_to_le_bytes(a.offset));
            assert(b.spec_bytes().subrange(4, 8) =~= spec_u32_to_le_bytes(b.offset));
            assert(a.spec_bytes().subrange(8, 12) =~= spec_u32_to_le_bytes(a.chunk_size));
            assert(b.spec_bytes().subrange(8, 12) =~= spec_u32_to_le_bytes(b.chunk_size));
        }
    }

    fn size() -> (n: usize) {
        Self::SIZE
    }

    fn as_bytes(&self) -> (b: Vec<u8>) {
        let mut out: Vec<u8> = Vec::new();
        out.push(self.message_type);
        out.push(self.status);
        push_u16(&mut out, self.sequence_number);
        push_u32(&mut out, self.offset);
        push_u32(&mut out, self.chunk_size);
        out
    }

    fn read_from_prefix(buf: &[u8]) -> (r: Option<Self>) {
        if buf.len() < Self::SIZE {
            return None;
        }
        let m = Self {
            message_type: buf[0],
            status: buf[1],
            sequence_number: read_u16(buf, 2),
            offset: read_u32(buf, 4),
            chunk_size: read_u32(buf, 8),
        };
        proof {
            lemma_le_bytes_round_trip(seq![], buf@.subrange(2, 4));
            lemma_le_bytes_round_trip(buf@.subrange(4, 8), seq![]);
            lemma_le_bytes_round_trip(buf@.subrange(8, 12), seq![]);
            assert(m.spec_bytes() =~= buf@.take(12));
        }
        Some(m)
    }
}

impl Packet for ChunkAck {
    open spec fn spec_len() -> nat {
        12
    }

    open spec fn spec_bytes(&self) -> Seq<u8> {
        seq![self.message_type]
            + seq![self.firmware_id]
            + spec_u16_to_le_bytes(self.sequence_number)
            + spec_u32_to_le_bytes(self.reserved)
            + spec_u32_to_le_bytes(self.flags.0)
    }

    proof fn lemma_encoding(a: &Self, b: &Self) {
        lemma_le_round_trip(0, 0, a.sequence_number, b.sequence_number);
        lemma_le_round_trip(a.reserved, b.reserved, 0, 0);
        lemma_le_round_trip(a.flags.0, b.flags.0, 0, 0);
        if a.spec_bytes() == b.spec_bytes() {
            assert(a.spec_bytes()[0] == a.message_type);
            assert(b.spec_bytes()[0] == b.message_type);
            assert(a.spec_bytes()[1] == a.firmware_id);
            assert(b.spec_bytes()[1] == b.firmware_id);
            assert(a.spec_bytes().subrange(2, 4) =~= spec_u16_to_le_bytes(a.sequence_number));
            assert(b.spec_bytes().subrange(2, 4) =~= spec_u16_to_le_bytes(b.sequence_number));
            assert(a.spec_bytes().subrange(4, 8) =~= spec_u32_to_le_bytes(a.reserved));
            assert(b.spec_bytes().subrange(4, 8) =~= spec_u32_to_le_bytes(b.reserved));
            assert(a.spec_bytes().subrange(8, 12) =~= spec_u32_to_le_bytes(a.flags.0));
            assert(b.spec_bytes().subrange(8, 12) =~= spec_u32_to_le_bytes(b.flags.0));
        }
    }

    fn size() -> (n: usize) {
        Self::SIZE
    }

    fn as_bytes(&self) -> (b: Vec<u8>) {
        let mut out: Vec<u8> = Vec::new();
        out.push(self.message_type);
        out.push(self.firmware_id);
        push_u16(&mut out, self.sequence_number);
        push_u32(&mut out, self.reserved);
        push_u32(&mut out, self.flags.0);
        out
    }

    fn read_from_prefix(buf: &[u8]) -> (r: Option<Self>) {
        if buf.len() < Self::SIZE {
            return None;
        }
        let m = Self {
            message_type: buf[0],
            firmware_id: buf[1],
            sequence_number: read_u16(buf, 2),
            reserved: read_u32(buf, 4),
            flags: ChunkAckFlags(read_u32(buf, 8)),
        };
        proof {
            lemma_le_bytes_round_trip(seq![], buf@.subrange(2, 4));
            lemma_le_bytes_round_trip(buf@.subrange(4, 8), seq![]);
            lemma_le_bytes_round_trip(buf@.subrange(8, 12), seq![]);
            assert(m.spec_bytes() =~= buf@.take(12));
        }
        Some(m)
    }
}

impl Packet for FinalizeRequest {
    open spec fn spec_len() -> nat {
        8
    }

    open spec fn spec_bytes(&self) -> Seq<u8> {
        seq![self.message_type]
            + seq![self.status]
            + spec_u16_to_le_bytes(self.error_code)
            + spec_u32_to_le_bytes(self.reserved)
    }

    proof fn lemma_encoding(a: &Self, b: &Self) {
        lemma_le_round_trip(0, 0, a.error_code, b.error_code);
        lemma_le_round_trip(a.reserved, b.reserved, 0, 0);
        if a.spec_bytes() == b.spec_bytes() {
            assert(a.spec_bytes()[0] == a.message_type);
            assert(b.spec_bytes()[0] == b.message_type);
            assert(a.spec_bytes()[1] == a.status);
            assert(b.spec_bytes()[1] == b.status);
            assert(a.spec_bytes().subrange(2, 4) =~= spec_u16_to_le_bytes(a.error_code));
            assert(b.spec_bytes().subrange(2, 4) =~= spec_u16_to_le_bytes(b.error_code));
            assert(a.spec_bytes().subrange(4, 8) =~= spec_u32_to_le_bytes(a.reserved));
            assert(b.spec_bytes().subrange(4, 8) =~= spec_u32_to_le_bytes(b.reserved));
        }
    }

    fn size() -> (n: usize) {
        Self::SIZE
    }

    fn as_bytes(&self) -> (b: Vec<u8>) {
        let mut out: Vec<u8> = Vec::new();
        out.push(self.message_type);
        out.push(self.status);
        push_u16(&mut out, self.error_code);
        push_u32(&mut out, self.reserved);
        out
    }

    fn read_from_prefix(buf: &[u8]) -> (r: Option<Self>) {
        if buf.len() < Self::SIZE {
            return None;
        }
        let m = Self {
            message_type: buf[0],
            status: buf[1],
            error_code: read_u16(buf, 2),
            reserved: read_u32(buf, 4),
        };
        proof {
            lemma_le_bytes_round_trip(seq![], buf@.subrange(2, 4));
            lemma_le_bytes_round_trip(buf@.subrange(4, 8), seq![]);
            assert(m.spec_bytes() =~= buf@.take(8));
        }
        Some(m)
    }
}

impl Packet for FinalizeAck {
    open spec fn spec_len() -> nat {
        12
    }

    open spec fn spec_bytes(&self) -> Seq<u8> {
        seq![self.message_type]
            + seq![self.status]
            + self.reserved0@
            + spec_u32_to_le_bytes(self.cleanup_flags.0)
            + spec_u32_to_le_bytes(self.reserved1)
    }

    proof fn lemma_encoding(a: &Self, b: &Self) {
        lemma_le_round_trip(a.cleanup_flags.0, b.cleanup_flags.0, 0, 0);
        lemma_le_round_trip(a.reserved1, b.reserved1, 0, 0);
        if a.spec_bytes() == b.spec_bytes() {
            assert(a.spec_bytes()[0] == a.message_type);
            assert(b.spec_bytes()[0] == b.message_type);
            assert(a.spec_bytes()[1] == a.status);
            assert(b.spec_bytes()[1] == b.status);
            assert(a.spec_bytes().subrange(2, 4) =~= a.reserved0@);
            assert(b.spec_bytes().subrange(2, 4) =~= b.reserved0@);
            assert(a.reserved0 =~= b.reserved0);
            assert(a.spec_bytes().subrange(4, 8) =~= spec_u32_to_le_bytes(a.cleanup_flags.0));
            assert(b.spec_bytes().subrange(4, 8) =~= spec_u32_to_le_bytes(b.cleanup_flags.0));
            assert(a.spec_bytes().subrange(8, 12) =~= spec_u32_to_le_bytes(a.reserved1));
            assert(b.spec_bytes().subrange(8, 12) =~= spec_u32_to_le_bytes(b.reserved1));
        }
    }

    fn size() -> (n: usize) {
        Self::SIZE
    }

    fn as_bytes(&self) -> (b: Vec<u8>) {
        let mut out: Vec<u8> = Vec::new();
        out.push(self.message_type);
        out.push(self.status);
        push_bytes(&mut out, &self.reserved0);
        push_u32(&mut out, self.cleanup_flags.0);
        push_u32(&mut out, self.reserved1);
        out
    }

    fn read_from_prefix(buf: &[u8]) -> (r: Option<Self>) {
        if buf.len() < Self::SIZE {
            return None;
        }
        let m = Self {
            message_type: buf[0],
            status: buf[1],
            reserved0: [buf[2], buf[3]],
            cleanup_flags: CleanupFlags(read_u32(buf, 4)),
            reserved1: read_u32(buf, 8),
        };
        proof {
            lemma_le_bytes_round_trip(buf@.subrange(4, 8), seq![]);
            lemma_le_bytes_round_trip(buf@.subrange(8, 12), seq![]);
            assert(m.spec_bytes() =~= buf@.take(12));
        }
        Some(m)
    }
}


/// The chunk-size field of an encoded chunk header.
pub open spec fn chunk_size_field(b: Seq<u8>) -> u32 {
    spec_u32_from_le_bytes(b.subrange(8, 12))
}

/// The chunk-size field of a header's encoding is its chunk size.
pub proof fn lemma_chunk_size_field(h: ImageChunkHeader)
    ensures
        chunk_size_field(h.spec_bytes()) == h.chunk_size,
{
    lemma_le_round_trip(h.chunk_size, h.offset, h.sequence_number, 0);
    assert(h.spec_bytes().subrange(8, 12) =~= spec_u32_to_le_bytes(h.chunk_size));
}

/// A chunk written by `write_to_buf` reads back: whatever follows it in
/// the buffer, `parse_from` finds the header and exactly the payload that
/// were written.
pub proof fn lemma_chunk_write_parse(h: ImageChunkHeader, payload: Seq<u8>, rest: Seq<u8>)
    requires
        h.chunk_size == payload.len(),
    ensures
        ({
            let buf = h.spec_bytes() + payload + rest;
            &&& buf.len() >= 12
            &&& 12 + chunk_size_field(buf) <= buf.len()
            &&& buf.take(12) == h.spec_bytes()
            &&& buf.subrange(12, 12 + chunk_size_field(buf)) == payload
        }),
{
    let buf = h.spec_bytes() + payload + rest;
    ImageChunkHeader::lemma_encoding(&h, &h);
    lemma_chunk_size_field(h);
    assert(buf.subrange(8, 12) =~= h.spec_bytes().subrange(8, 12));
    assert(chunk_size_field(buf) == chunk_size_field(h.spec_bytes()));
    assert(buf.take(12) =~= h.spec_bytes());
    assert(buf.subrange(12, 12 + payload.len() as int) =~= payload);
}

impl ImageChunkHeader {
    /// Header size plus payload size.
    pub fn total_size(&self) -> (n: usize)
        requires
            Self::SIZE + self.chunk_size <= usize::MAX,
        ensures
            n == Self::SIZE + self.chunk_size,
    {
        Self::SIZE + self.chunk_size as usize
    }

    /// Splits `buf` into a header and the `chunk_size` payload bytes that
    /// follow it; fails when either does not fit in `buf`.
    pub fn parse_from(buf: &[u8]) -> (r: Option<(Self, &[u8])>)
        ensures
            r is Some <==> buf@.len() >= 12 && 12 + chunk_size_field(buf@) <= buf@.len(),
            r matches Some((h, p)) ==> h.spec_bytes() == buf@.take(12) && p@ == buf@.subrange(
                12,
                12 + h.chunk_size,
            ),
    {
        if buf.len() < Self::SIZE {
            return None;
        }
        let header = match Self::read_from_prefix(buf) {
            Some(h) => h,
            None => return None,
        };
        proof {
            lemma_chunk_size_field(header);
            assert(header.spec_bytes().subrange(8, 12) =~= buf@.subrange(8, 12));
        }
        let payload_len = header.chunk_size as usize;
        if buf.len() - Self::SIZE < payload_len {
            return None;
        }
        Some((header, vstd::slice::slice_subrange(buf, Self::SIZE, Self::SIZE + payload_len)))
    }

    /// Writes the header then `payload` at the start of `buf`; fails, leaving
    /// `buf` untouched, when they do not fit.
    pub fn write_to_buf(&self, payload: &[u8], buf: &mut [u8]) -> (r: Option<usize>)
        requires
            Self::SIZE + payload@.len() <= usize::MAX,
        ensures
            r is Some <==> old(buf)@.len() >= 12 + payload@.len(),
            r matches Some(n) ==> n == 12 + payload@.len() && final(buf)@ == self.spec_bytes()
                + payload@ + old(buf)@.skip(n as int),
            r is None ==> final(buf)@ == old(buf)@,
    {
        let total = Self::SIZE + payload.len();
        if buf.len() < total {
            return None;
        }
        let hdr = self.as_bytes();
        proof {
            Self::lemma_encoding(self, self);
        }
        let ghost start = buf@;
        let mut i: usize = 0;
        while i < Self::SIZE
            invariant
                hdr@ == self.spec_bytes(),
                hdr@.len() == 12,
                total == 12 + payload@.len(),
                buf@.len() == start.len(),
                start.len() >= total,
                i <= 12,
                forall|k: int| 0 <= k < i ==> buf@[k] == hdr@[k],
                forall|k: int| i <= k < buf@.len() ==> buf@[k] == start[k],
            decreases 12 - i,
        {
            buf[i] = hdr[i];
            i = i + 1;
        }
        let mut j: usize = 0;
        while j < payload.len()
            invariant
                hdr@ == self.spec_bytes(),
                hdr@.len() == 12,
                total == 12 + payload@.len(),
                buf@.len() == start.len(),
                start.len() >= total,
                j <= payload@.len(),
                forall|k: int| 0 <= k < 12 ==> buf@[k] == hdr@[k],
                forall|k: int| 0 <= k < j ==> buf@[12 + k] == payload@[k],
                forall|k: int| 12 + j <= k < buf@.len() ==> buf@[k] == start[k],
            decreases payload@.len() - j,
        {
            buf[Self::SIZE + j] = payload[j];
            j = j + 1;
        }
        assert(buf@ =~= self.spec_bytes() + payload@ + start.skip(total as int));
        Some(total)
    }
}

/// A chunk header together with the payload bytes it announces, borrowed
/// from the receive buffer.
#[derive(Debug)]
pub struct ImageChunk<'a> {
    pub header: ImageChunkHeader,
    pub data: &'a [u8],
}

impl<'a> ImageChunk<'a> {
    /// Views the front of `buf` as a chunk; fails when the header or the
    /// payload it announces does not fit in `buf`, and when the chunk's
    /// length (header plus payload) is not a whole number of 4-byte words,
    /// the chunk's alignment.
    pub fn parse_from(buf: &'a [u8]) -> (r: Option<Self>)
        ensures
            r is Some <==> buf@.len() >= 12 && 12 + chunk_size_field(buf@) <= buf@.len() && (12
                + chunk_size_field(buf@)) % 4 == 0,
            r matches Some(c) ==> c.header.spec_bytes() == buf@.take(12) && c.data@
                == buf@.subrange(12, 12 + c.header.chunk_size),
    {
        if buf.len() < ImageChunkHeader::SIZE {
            return None;
        }
        let header = match ImageChunkHeader::read_from_prefix(buf) {
            Some(h) => h,
            None => return None,
        };
        proof {
            lemma_chunk_size_field(header);
            assert(header.spec_bytes().subrange(8, 12) =~= buf@.subrange(8, 12));
        }
        let total = match ImageChunkHeader::SIZE.checked_add(header.chunk_size as usize) {
            Some(t) => t,
            None => return None,
        };
        if buf.len() < total {
            return None;
        }
        if total % 4 != 0 {
            return None;
        }
        Some(ImageChunk { header, data: vstd::slice::slice_subrange(buf, ImageChunkHeader::SIZE, total) })
    }

    pub fn payload(&self) -> (p: &'a [u8])
        ensures
            p@ == self.data@,
    {
        self.data
    }

    /// A chunk shorter than the maximum chunk size ends the image.
    pub fn is_last_chunk(&self, max_chunk_size: u32) -> (r: bool)
        ensures
            r == (self.header.chunk_size < max_chunk_size),
    {
        self.header.chunk_size < max_chunk_size
    }
}


/// The little-endian `u16` that starts at byte `pos` of `b`.
pub open spec fn le16_at(b: Seq<u8>, pos: int) -> u16 {
    spec_u16_from_le_bytes(b.subrange(pos, pos + 2))
}

/// The little-endian `u32` that starts at byte `pos` of `b`.
pub open spec fn le32_at(b: Seq<u8>, pos: int) -> u32 {
    spec_u32_from_le_bytes(b.subrange(pos, pos + 4))
}

/// Wire layout of `InitiateBootRequest` (12 bytes): message type at 0,
/// reserved bytes 1..4, protocol version at 4, boot flags at 8.
pub proof fn lemma_initiate_boot_request_layout(p: InitiateBootRequest)
    ensures
        ({
            let b = p.spec_bytes();
            &&& b.len() == 12
            &&& b[0] == p.message_type
            &&& b.subrange(1, 4) == p.reserved@
            &&& le32_at(b, 4) == p.protocol_version
            &&& le32_at(b, 8) == p.flags.0
        }),
{
    let b = p.spec_bytes();
    lemma_le_round_trip(p.protocol_version, 0, 0, 0);
    lemma_le_round_trip(p.flags.0, 0, 0, 0);
    assert(b.subrange(1, 4) =~= p.reserved@);
    assert(b.subrange(4, 8) =~= spec_u32_to_le_bytes(p.protocol_version));
    assert(b.subrange(8, 12) =~= spec_u32_to_le_bytes(p.flags.0));
}

/// Wire layout of `InitiateBootResponse` (4 bytes): message type at 0,
/// status at 1, reserved bytes 2..4.
pub proof fn lemma_initiate_boot_response_layout(p: InitiateBootResponse)
    ensures
        ({
            let b = p.spec_bytes();
            &&& b.len() == 4
            &&& b[0] == p.message_type
            &&& b[1] == p.status
            &&& b.subrange(2, 4) == p.reserved@
        }),
{
    assert(p.spec_bytes().subrange(2, 4) =~= p.reserved@);
}

/// Wire layout of `ImageMetadataRequest` (4 bytes): message type at 0,
/// firmware ID at 1, reserved bytes 2..4.
pub proof fn lemma_image_metadata_request_layout(p: ImageMetadataRequest)
    ensures
        ({
            let b = p.spec_bytes();
            &&& b.len() == 4
            &&& b[0] == p.message_type
            &&& b[1] == p.firmware_id
            &&& b.subrange(2, 4) == p.reserved@
        }),
{
    assert(p.spec_bytes().subrange(2, 4) =~= p.reserved@);
}

/// Wire layout of `ImageMetadataResponse` (52 bytes): message type at 0,
/// status at 1, reserved bytes 2..4, image size at 4, checksum bytes
/// 8..40, version at 40, flags at 44, reserved word at 48.
pub proof fn lemma_image_metadata_response_layout(p: ImageMetadataResponse)
    ensures
        ({
            let b = p.spec_bytes();
            &&& b.len() == 52
            &&& b[0] == p.message_type
            &&& b[1] == p.status
            &&& b.subrange(2, 4) == p.reserved0@
            &&& le32_at(b, 4) == p.image_size
            &&& b.subrange(8, 40) == p.checksum@
            &&& le32_at(b, 40) == p.version
            &&& le32_at(b, 44) == p.flags
            &&& le32_at(b, 48) == p.reserved1
        }),
{
    let b = p.spec_bytes();
    lemma_le_round_trip(p.image_size, 0, 0, 0);
    lemma_le_round_trip(p.version, 0, 0, 0);
    lemma_le_round_trip(p.flags, 0, 0, 0);
    lemma_le_round_trip(p.reserved1, 0, 0, 0);
    assert(b.subrange(2, 4) =~= p.reserved0@);
    assert(b.subrange(4, 8) =~= spec_u32_to_le_bytes(p.image_size));
    assert(b.subrange(8, 40) =~= p.checksum@);
    assert(b.subrange(40, 44) =~= spec_u32_to_le_bytes(p.version));
    assert(b.subrange(44, 48) =~= spec_u32_to_le_bytes(p.flags));
    assert(b.subrange(48, 52) =~= spec_u32_to_le_bytes(p.reserved1));
}

/// Wire layout of `ImageDownloadRequest` (12 bytes): message type at 0,
/// firmware ID at 1, reserved bytes 2..4, reserved words at 4 and 8.
pub proof fn lemma_image_download_request_layout(p: ImageDownloadRequest)
    ensures
        ({
            let b = p.spec_bytes();
            &&& b.len() == 12
            &&& b[0] == p.message_type
            &&& b[1] == p.firmware_id
            &&& b.subrange(2, 4) == p.reserved0@
            &&& le32_at(b, 4) == p.reserved1
            &&& le32_at(b, 8) == p.reserved2
        }),
{
    let b = p.spec_bytes();
    lemma_le_round_trip(p.reserved1, 0, 0, 0);
    lemma_le_round_trip(p.reserved2, 0, 0, 0);
    assert(b.subrange(2, 4) =~= p.reserved0@);
    assert(b.subrange(4, 8) =~= spec_u32_to_le_bytes(p.reserved1));
    assert(b.subrange(8, 12) =~= spec_u32_to_le_bytes(p.reserved2));
}

/// Wire layout of `ImageChunkHeader` (12 bytes): message type at 0,
/// status at 1, sequence number at 2, offset at 4, chunk size at 8.
pub proof fn lemma_image_chunk_header_layout(p: ImageChunkHeader)
    ensures
        ({
            let b = p.spec_bytes();
            &&& b.len() == 12
            &&& b[0] == p.message_type
            &&& b[1] == p.status
            &&& le16_at(b, 2) == p.sequence_number
            &&& le32_at(b, 4) == p.offset
            &&& le32_at(b, 8) == p.chunk_size
        }),
{
    let b = p.spec_bytes();
    lemma_le_round_trip(p.offset, 0, p.sequence_number, 0);
    lemma_le_round_trip(p.chunk_size, 0, 0, 0);
    assert(b.subrange(2, 4) =~= spec_u16_to_le_bytes(p.sequence_number));
    assert(b.subrange(4, 8) =~= spec_u32_to_le_bytes(p.offset));
    assert(b.subrange(8, 12) =~= spec_u32_to_le_bytes(p.chunk_size));
}

/// Wire layout of `ChunkAck` (12 bytes): message type at 0, firmware ID
/// at 1, sequence number at 2, reserved word at 4, flags at 8.
pub proof fn lemma_chunk_ack_layout(p: ChunkAck)
    ensures
        ({
            let b = p.spec_bytes();
            &&& b.len() == 12
            &&& b[0] == p.message_type
            &&& b[1] == p.firmware_id
            &&& le16_at(b, 2) == p.sequence_number
            &&& le32_at(b, 4) == p.reserved
            &&& le32_at(b, 8) == p.flags.0
        }),
{
    let b = p.spec_bytes();
    lemma_le_round_trip(p.reserved, 0, p.sequence_number, 0);
    lemma_le_round_trip(p.flags.0, 0, 0, 0);
    assert(b.subrange(2, 4) =~= spec_u16_to_le_bytes(p.sequence_number));
    assert(b.subrange(4, 8) =~= spec_u32_to_le_bytes(p.reserved));
    assert(b.subrange(8, 12) =~= spec_u32_to_le_bytes(p.flags.0));
}

/// Wire layout of `FinalizeRequest` (8 bytes): message type at 0, status
/// at 1, error code at 2, reserved word at 4.
pub proof fn lemma_finalize_request_layout(p: FinalizeRequest)
    ensures
        ({
            let b = p.spec_bytes();
            &&& b.len() == 8
            &&& b[0] == p.message_type
            &&& b[1] == p.status
            &&& le16_at(b, 2) == p.error_code
            &&& le32_at(b, 4) == p.reserved
        }),
{
    let b = p.spec_bytes();
    lemma_le_round_trip(p.reserved, 0, p.error_code, 0);
    assert(b.subrange(2, 4) =~= spec_u16_to_le_bytes(p.error_code));
    assert(b.subrange(4, 8) =~= spec_u32_to_le_bytes(p.reserved));
}

/// Wire layout of `FinalizeAck` (12 bytes): message type at 0, status at
/// 1, reserved bytes 2..4, cleanup flags at 4, reserved word at 8.
pub proof fn lemma_finalize_ack_layout(p: FinalizeAck)
    ensures
        ({
            let b = p.spec_bytes();
            &&& b.len() == 12
            &&& b[0] == p.message_type
            &&& b[1] == p.status
            &&& b.subrange(2, 4) == p.reserved0@
            &&& le32_at(b, 4) == p.cleanup_flags.0
            &&& le32_at(b, 8) == p.reserved1
        }),
{
    let b = p.spec_bytes();
    lemma_le_round_trip(p.cleanup_flags.0, 0, 0, 0);
    lemma_le_round_trip(p.reserved1, 0, 0, 0);
    assert(b.subrange(2, 4) =~= p.reserved0@);
    assert(b.subrange(4, 8) =~= spec_u32_to_le_bytes(p.cleanup_flags.0));
    assert(b.subrange(8, 12) =~= spec_u32_to_le_bytes(p.reserved1));
}

} // verus!
