//! The MCU ROM's self-test of the boot-source protocol: the request it
//! sends in each phase, its checks of every response, and the check of the
//! test image's byte pattern.

use vstd::prelude::*;
use vstd::bytes::{spec_u16_from_le_bytes, spec_u32_from_le_bytes, spec_u32_to_le_bytes};
use crate::mailbox::{NetworkMboxError, NetworkMboxStatus, NetworkMboxTargetStatus};
use crate::messages::{
    BootFlags, ChunkAck, ChunkAckFlags, FinalizeRequest, ImageDownloadRequest,
    ImageMetadataRequest, InitiateBootRequest, MessageType, Packet, Status, FIRMWARE_ID_MCU_RT,
    message_type_code, status_code,
};
use crate::wire::{read_u16, read_u32, words_le, words_to_le_bytes};

verus! {

broadcast use {vstd::seq::group_seq_axioms, vstd::slice::group_slice_axioms};

/// The firmware the self-test downloads.
pub const TEST_FIRMWARE_ID: u8 = FIRMWARE_ID_MCU_RT;

/// Size of the test image.
pub const EXPECTED_IMAGE_SIZE: u32 = 4096;

/// Longest response read from the mailbox: a chunk header and 1092 bytes.
pub const MAX_RESP_BYTES: usize = 1104;

/// The test image's byte at `index`.
pub open spec fn pattern_byte(index: int) -> u8 {
    (index % 256) as u8
}

/// `payload` is the test pattern from image offset `offset` on.
pub open spec fn pattern_ok(payload: Seq<u8>, offset: int) -> bool {
    forall|j: int| 0 <= j < payload.len() ==> payload[j] == pattern_byte(offset + j)
}

/// Whether `payload` is the test pattern from image offset `offset` on.
pub fn check_pattern(payload: &[u8], offset: u32) -> (r: bool)
    ensures
        r == pattern_ok(payload@, offset as int),
{
    let mut j: usize = 0;
    while j < payload.len()
        invariant
            j <= payload@.len(),
            pattern_ok(payload@.take(j as int), offset as int),
        decreases payload@.len() - j,
    {
        let low: usize = j & 0xFF;
        assert(low <= 0xFF) by (bit_vector)
            requires
                low == j & 0xFF,
        ;
        let idx: u64 = offset as u64 + low as u64;
        let expected = (idx & 0xFF) as u8;
        assert(expected == ((offset as int + j as int) % 256) as u8) by (bit_vector)
            requires
                low == j & 0xFF,
                idx == offset as u64 + low as u64,
                expected == (idx & 0xFF) as u8,
        ;
        if payload[j] != expected {
            assert(!pattern_ok(payload@, offset as int));
            return false;
        }
        j = j + 1;
        assert(pattern_ok(payload@.take(j as int), offset as int)) by {
            assert forall|k: int| 0 <= k < j implies payload@.take(j as int)[k] == pattern_byte(
                offset + k,
            ) by {
                if k < j - 1 {
                    assert(payload@.take(j as int)[k] == payload@.take(j - 1)[k]);
                }
            }
        }
    }
    assert(payload@.take(j as int) =~= payload@);
    true
}

/// Checks received TFTP data against the test pattern as it streams in:
/// the next expected image offset, and whether a mismatch was seen.
pub struct PatternVerifier {
    pub offset: usize,
    pub error: bool,
}

impl PatternVerifier {
    pub fn new() -> (r: Self)
        ensures
            r.offset == 0,
            !r.error,
    {
        PatternVerifier { offset: 0, error: false }
    }

    /// Checks the next block: a mismatch records the error and refuses the
    /// block; a match moves the expected offset past it.
    pub fn write_verify(&mut self, data: &[u8]) -> (r: bool)
        requires
            old(self).offset + data@.len() <= u32::MAX,
        ensures
            r == pattern_ok(data@, old(self).offset as int),
            r ==> final(self).offset == old(self).offset + data@.len() && final(self).error
                == old(self).error,
            !r ==> final(self).offset == old(self).offset && final(self).error,
    {
        if !check_pattern(data, self.offset as u32) {
            self.error = true;
            return false;
        }
        self.offset = self.offset + data.len();
        true
    }
}

/// The phases of the self-test, one request and its response at a time.
#[derive(Debug, Clone, Copy, PartialEq, Eq, Structural)]
pub enum Phase {
    SendInitiateBoot,
    WaitInitiateBootResponse,
    SendMetadataRequest,
    WaitMetadataResponse,
    SendImageDownload,
    WaitImageChunk,
    SendChunkAck,
    SendFinalize,
    WaitFinalizeAck,
    Done,
}

/// What the self-test does after trying to send a request.
#[derive(Debug, Clone, Copy, PartialEq, Eq, Structural)]
pub enum SendOutcome {
    /// Sent; the self-test waits for the response.
    Sent,
    /// The mailbox was locked; try again.
    Retry,
    /// The mailbox failed; the self-test ends.
    Abort,
}

/// A response carries the status `CmdComplete`.
pub open spec fn completed(status: NetworkMboxTargetStatus) -> bool {
    status.status == NetworkMboxStatus::CmdComplete
}

/// The response starts with the message type and a success status.
pub open spec fn success_header(bytes: Seq<u8>, t: MessageType, min_len: int) -> bool {
    &&& bytes.len() >= min_len
    &&& bytes[0] == message_type_code(t)
    &&& bytes[1] == status_code(Status::Success)
}

/// The verdict on an image chunk when `expected` bytes were received so
/// far: success, the expected offset, and the test pattern in the payload.
pub open spec fn chunk_verdict(expected: u32, status: NetworkMboxTargetStatus, b: Seq<u8>) -> bool {
    let cs = spec_u32_from_le_bytes(b.subrange(8, 12)) as int;
    let offset = spec_u32_from_le_bytes(b.subrange(4, 8));
    &&& completed(status)
    &&& success_header(b, MessageType::ImageChunk, 12)
    &&& offset == expected
    &&& cs > 0 ==> 12 + cs <= b.len() && pattern_ok(b.subrange(12, 12 + cs), offset as int)
}

/// The request sent in each sending phase; no request in the others.
pub open spec fn request_spec(phase: Phase, last_seq: u16, r: Option<Vec<u8>>) -> bool {
    match phase {
        Phase::SendInitiateBoot => r matches Some(b) && b@ == seq![
            message_type_code(MessageType::InitiateBootRequest),
            0u8,
            0u8,
            0u8,
        ] + spec_u32_to_le_bytes(1) + spec_u32_to_le_bytes(0),
        Phase::SendMetadataRequest => r matches Some(b) && b@ == seq![
            message_type_code(MessageType::ImageMetadataRequest),
            TEST_FIRMWARE_ID,
            0u8,
            0u8,
        ],
        Phase::SendImageDownload => r matches Some(b) && b@ == seq![
            message_type_code(MessageType::ImageDownloadRequest),
            TEST_FIRMWARE_ID,
            0u8,
            0u8,
        ] + spec_u32_to_le_bytes(0) + spec_u32_to_le_bytes(0),
        Phase::SendChunkAck => r matches Some(b) && b@ == ChunkAck {
            message_type: message_type_code(MessageType::ChunkAck),
            firmware_id: TEST_FIRMWARE_ID,
            sequence_number: last_seq,
            reserved: 0,
            flags: ChunkAckFlags(1),
        }.spec_bytes(),
        Phase::SendFinalize => r matches Some(b) && b@ == FinalizeRequest {
            message_type: message_type_code(MessageType::Finalize),
            status: status_code(Status::Success),
            error_code: 0,
            reserved: 0,
        }.spec_bytes(),
        _ => r is None,
    }
}

/// Every request of the self-test that names a firmware names the MCU
/// runtime image: the metadata request, the download request and each
/// chunk acknowledgement carry the same firmware ID in byte 1, each starts
/// with the message type of its phase, and the acknowledgement carries the
/// sequence number it acknowledges with `ready_for_next` set.
pub proof fn lemma_requests_name_test_firmware(
    last_seq: u16,
    meta: Option<Vec<u8>>,
    download: Option<Vec<u8>>,
    ack: Option<Vec<u8>>,
)
    requires
        request_spec(Phase::SendMetadataRequest, last_seq, meta),
        request_spec(Phase::SendImageDownload, last_seq, download),
        request_spec(Phase::SendChunkAck, last_seq, ack),
    ensures
        meta matches Some(m) && download matches Some(d) && ack matches Some(a) && {
            &&& m@.len() == 4 && d@.len() == 12 && a@.len() == 12
            &&& m@[1] == FIRMWARE_ID_MCU_RT
            &&& d@[1] == m@[1]
            &&& a@[1] == m@[1]
            &&& m@[0] == message_type_code(MessageType::ImageMetadataRequest)
            &&& d@[0] == message_type_code(MessageType::ImageDownloadRequest)
            &&& a@[0] == message_type_code(MessageType::ChunkAck)
            &&& crate::messages::le16_at(a@, 2) == last_seq
            &&& crate::messages::le32_at(a@, 8) == 1
        },
{
    let p = ChunkAck {
        message_type: message_type_code(MessageType::ChunkAck),
        firmware_id: TEST_FIRMWARE_ID,
        sequence_number: last_seq,
        reserved: 0,
        flags: ChunkAckFlags(1),
    };
    crate::messages::lemma_chunk_ack_layout(p);
    crate::wire::lemma_le_round_trip(0, 0, 0, 0);
    let d = download.unwrap()@;
    let head = seq![message_type_code(MessageType::ImageDownloadRequest), TEST_FIRMWARE_ID, 0u8, 0u8];
    assert(d == head + spec_u32_to_le_bytes(0) + spec_u32_to_le_bytes(0));
    assert(d[0] == head[0] && d[1] == head[1]);
}

/// The phase that waits for the response to the request of `p`.
pub open spec fn phase_after_send(p: Phase) -> Phase {
    match p {
        Phase::SendInitiateBoot => Phase::WaitInitiateBootResponse,
        Phase::SendMetadataRequest => Phase::WaitMetadataResponse,
        Phase::SendImageDownload => Phase::WaitImageChunk,
        Phase::SendChunkAck => Phase::WaitImageChunk,
        Phase::SendFinalize => Phase::WaitFinalizeAck,
        _ => p,
    }
}

/// What the self-test does with the result of a send.
pub open spec fn send_outcome(result: Result<(), NetworkMboxError>) -> SendOutcome {
    match result {
        Ok(_) => SendOutcome::Sent,
        Err(NetworkMboxError::Locked) => SendOutcome::Retry,
        Err(_) => SendOutcome::Abort,
    }
}

/// The self-test client's state.
pub struct BootSourceTestClient {
    pub phase: Phase,
    pub passed: bool,
    pub last_seq: u16,
    pub bytes_received: u32,
}

/// Phases in which the image is still being downloaded.
pub open spec fn before_image_done(p: Phase) -> bool {
    match p {
        Phase::SendFinalize | Phase::WaitFinalizeAck | Phase::Done => false,
        _ => true,
    }
}

impl BootSourceTestClient {
    /// The byte count stays small: below the image size while the image is
    /// still coming, and at most one response past it after.
    pub open spec fn wf(&self) -> bool {
        &&& self.bytes_received <= EXPECTED_IMAGE_SIZE + MAX_RESP_BYTES
        &&& before_image_done(self.phase) ==> self.bytes_received < EXPECTED_IMAGE_SIZE
    }

    pub fn new() -> (r: Self)
        ensures
            r.wf(),
            r.phase == Phase::SendInitiateBoot,
            r.passed,
            r.last_seq == 0,
            r.bytes_received == 0,
    {
        BootSourceTestClient {
            phase: Phase::SendInitiateBoot,
            passed: true,
            last_seq: 0,
            bytes_received: 0,
        }
    }

    /// The request of the current phase, if it is a sending phase.
    pub fn request(&self) -> (r: Option<Vec<u8>>)
        ensures
            request_spec(self.phase, self.last_seq, r),
    {
        match self.phase {
            Phase::SendInitiateBoot => {
                let b = InitiateBootRequest::new(1, BootFlags(0)).as_bytes();
                assert(b@ =~= seq![
                    message_type_code(MessageType::InitiateBootRequest),
                    0u8,
                    0u8,
                    0u8,
                ] + spec_u32_to_le_bytes(1) + spec_u32_to_le_bytes(0));
                Some(b)
            },
            Phase::SendMetadataRequest => {
                let p = ImageMetadataRequest::new(TEST_FIRMWARE_ID);
                let b = p.as_bytes();
                assert(b@ =~= seq![
                    message_type_code(MessageType::ImageMetadataRequest),
                    TEST_FIRMWARE_ID,
                    0u8,
                    0u8,
                ]);
                Some(b)
            },
            Phase::SendImageDownload => {
                let p = ImageDownloadRequest::new(TEST_FIRMWARE_ID);
                let b = p.as_bytes();
                assert(b@ =~= seq![
                    message_type_code(MessageType::ImageDownloadRequest),
                    TEST_FIRMWARE_ID,
                    0u8,
                    0u8,
                ] + spec_u32_to_le_bytes(0) + spec_u32_to_le_bytes(0));
                Some(b)
            },
            Phase::SendChunkAck => {
                let mut flags = ChunkAckFlags(0);
                flags.set_ready_for_next(true);
                let v: u32 = flags.0;
                assert(v == 1) by (bit_vector)
                    requires
                        v == (0u32 | 1u32),
                ;
                Some(ChunkAck::new(TEST_FIRMWARE_ID, self.last_seq, flags).as_bytes())
            },
            Phase::SendFinalize => Some(FinalizeRequest::success().as_bytes()),
            _ => None,
        }
    }

    /// The mailbox took the request, was locked, or failed.
    pub fn request_sent(&mut self, result: Result<(), NetworkMboxError>) -> (o: SendOutcome)
        requires
            old(self).wf(),
        ensures
            final(self).wf(),
            o == send_outcome(result),
            final(self).phase == (if result is Ok {
                phase_after_send(old(self).phase)
            } else {
                old(self).phase
            }),
            final(self).passed == old(self).passed,
            final(self).last_seq == old(self).last_seq,
            final(self).bytes_received == old(self).bytes_received,
    {
        match result {
            Ok(()) => {
                self.phase = match self.phase {
                    Phase::SendInitiateBoot => Phase::WaitInitiateBootResponse,
                    Phase::SendMetadataRequest => Phase::WaitMetadataResponse,
                    Phase::SendImageDownload => Phase::WaitImageChunk,
                    Phase::SendChunkAck => Phase::WaitImageChunk,
                    Phase::SendFinalize => Phase::WaitFinalizeAck,
                    p => p,
                };
                SendOutcome::Sent
            },
            Err(NetworkMboxError::Locked) => SendOutcome::Retry,
            Err(_) => SendOutcome::Abort,
        }
    }

    /// `InitiateBootResponse` must report success.
    pub fn verify_initiate_boot_response(&self, status: NetworkMboxTargetStatus, bytes: &[u8]) -> (r: bool)
        ensures
            r == (completed(status) && success_header(bytes@, MessageType::InitiateBootResponse, 4)),
    {
        if status.status != NetworkMboxStatus::CmdComplete {
            return false;
        }
        if bytes.len() < 4 {
            return false;
        }
        bytes[0] == MessageType::InitiateBootResponse.as_u8() && bytes[1] == Status::Success.as_u8()
    }

    /// `ImageMetadataResponse` must report success and the test image's size.
    pub fn verify_metadata_response(&self, status: NetworkMboxTargetStatus, bytes: &[u8]) -> (r: bool)
        ensures
            r == (completed(status) && success_header(bytes@, MessageType::ImageMetadataResponse, 52)
                && spec_u32_from_le_bytes(bytes@.subrange(4, 8)) == EXPECTED_IMAGE_SIZE),
    {
        if status.status != NetworkMboxStatus::CmdComplete {
            return false;
        }
        if bytes.len() < 52 {
            return false;
        }
        if bytes[0] != MessageType::ImageMetadataResponse.as_u8() || bytes[1] != Status::Success.as_u8() {
            return false;
        }
        read_u32(bytes, 4) == EXPECTED_IMAGE_SIZE
    }

    /// `FinalizeAck` must report success.
    pub fn verify_finalize_ack(&self, status: NetworkMboxTargetStatus, bytes: &[u8]) -> (r: bool)
        ensures
            r == (completed(status) && success_header(bytes@, MessageType::FinalizeAck, 12)),
    {
        if status.status != NetworkMboxStatus::CmdComplete {
            return false;
        }
        if bytes.len() < 12 {
            return false;
        }
        bytes[0] == MessageType::FinalizeAck.as_u8() && bytes[1] == Status::Success.as_u8()
    }

    /// An image chunk must report success, continue at the byte count
    /// received so far, and carry the test pattern. A good chunk moves the
    /// count past its payload and records its sequence number; a bad one
    /// changes nothing.
    pub fn verify_image_chunk(&mut self, status: NetworkMboxTargetStatus, bytes: &[u8]) -> (r: bool)
        requires
            chunk_verdict(old(self).bytes_received, status, bytes@) ==> old(self).bytes_received
                + spec_u32_from_le_bytes(bytes@.subrange(8, 12)) <= u32::MAX,
        ensures
            ({
                let b = bytes@;
                let cs = spec_u32_from_le_bytes(b.subrange(8, 12)) as int;
                &&& r == chunk_verdict(old(self).bytes_received, status, b)
                &&& r ==> final(self).bytes_received == old(self).bytes_received + cs
                    && final(self).last_seq == spec_u16_from_le_bytes(b.subrange(2, 4))
                &&& !r ==> final(self).bytes_received == old(self).bytes_received
                    && final(self).last_seq == old(self).last_seq
                &&& final(self).phase == old(self).phase
                &&& final(self).passed == old(self).passed
            }),
    {
        if status.status != NetworkMboxStatus::CmdComplete {
            return false;
        }
        if bytes.len() < 12 {
            return false;
        }
        if bytes[0] != MessageType::ImageChunk.as_u8() || bytes[1] != Status::Success.as_u8() {
            return false;
        }
        let seq = read_u16(bytes, 2);
        let offset = read_u32(bytes, 4);
        let chunk_size = read_u32(bytes, 8);
        let expected_offset = self.bytes_received;
        if offset != expected_offset {
            return false;
        }
        if chunk_size > 0 {
            if bytes.len() - 12 < chunk_size as usize {
                return false;
            }
            let payload = vstd::slice::slice_subrange(bytes, 12, 12 + chunk_size as usize);
            if !check_pattern(payload, expected_offset) {
                return false;
            }
        }
        self.last_seq = seq;
        self.bytes_received = expected_offset + chunk_size;
        true
    }

    /// A response arrived: the SRAM words are unpacked (at most 1104
    /// bytes), checked by the current phase, and the self-test moves on. A
    /// failed check clears `passed`; a response in a phase that expects
    /// none clears it too.
    pub fn response_received(&mut self, status: NetworkMboxTargetStatus, rx_buf: &[u32], dlen: usize)
        requires
            old(self).wf(),
            rx_buf@.len() >= (response_len(dlen as int) + 3) / 4,
        ensures
            final(self).wf(),
            ({
                let b = words_le(rx_buf@.take((response_len(dlen as int) + 3) / 4)).take(
                    response_len(dlen as int),
                );
                let o = *old(self);
                let f = *final(self);
                match o.phase {
                    Phase::WaitInitiateBootResponse => f.phase == Phase::SendMetadataRequest && f.passed
                        == (o.passed && completed(status) && success_header(
                        b,
                        MessageType::InitiateBootResponse,
                        4,
                    )) && f.bytes_received == o.bytes_received && f.last_seq == o.last_seq,
                    Phase::WaitMetadataResponse => f.phase == Phase::SendImageDownload && f.passed
                        == (o.passed && completed(status) && success_header(
                        b,
                        MessageType::ImageMetadataResponse,
                        52,
                    ) && spec_u32_from_le_bytes(b.subrange(4, 8)) == EXPECTED_IMAGE_SIZE)
                        && f.bytes_received == o.bytes_received && f.last_seq == o.last_seq,
                    Phase::WaitImageChunk => {
                        let ok = chunk_verdict(o.bytes_received, status, b);
                        let cs = spec_u32_from_le_bytes(b.subrange(8, 12)) as int;
                        &&& f.passed == (o.passed && ok)
                        &&& f.bytes_received == (if ok {
                            o.bytes_received + cs
                        } else {
                            o.bytes_received as int
                        })
                        &&& f.last_seq == (if ok {
                            spec_u16_from_le_bytes(b.subrange(2, 4))
                        } else {
                            o.last_seq
                        })
                        &&& f.phase == (if f.bytes_received >= EXPECTED_IMAGE_SIZE {
                            Phase::SendFinalize
                        } else {
                            Phase::SendChunkAck
                        })
                    },
                    Phase::WaitFinalizeAck => f.phase == Phase::Done && f.passed == (o.passed
                        && completed(status) && success_header(b, MessageType::FinalizeAck, 12))
                        && f.bytes_received == o.bytes_received && f.last_seq == o.last_seq,
                    _ => f.phase == o.phase && !f.passed && f.bytes_received == o.bytes_received
                        && f.last_seq == o.last_seq,
                }
            }),
    {
        let copy_len = if dlen < MAX_RESP_BYTES {
            dlen
        } else {
            MAX_RESP_BYTES
        };
        let dw_len = (copy_len + 3) / 4;
        let words = words_to_le_bytes(rx_buf, dw_len);
        proof {
            crate::wire::lemma_words_le(rx_buf@.take(dw_len as int));
        }
        let bytes = vstd::slice::slice_subrange(words.as_slice(), 0, copy_len);
        assert(bytes@ =~= words@.take(copy_len as int));
        match self.phase {
            Phase::WaitInitiateBootResponse => {
                if !self.verify_initiate_boot_response(status, bytes) {
                    self.passed = false;
                }
                self.phase = Phase::SendMetadataRequest;
            },
            Phase::WaitMetadataResponse => {
                if !self.verify_metadata_response(status, bytes) {
                    self.passed = false;
                }
                self.phase = Phase::SendImageDownload;
            },
            Phase::WaitImageChunk => {
                if !self.verify_image_chunk(status, bytes) {
                    self.passed = false;
                }
                if self.bytes_received >= EXPECTED_IMAGE_SIZE {
                    self.phase = Phase::SendFinalize;
                } else {
                    self.phase = Phase::SendChunkAck;
                }
            },
            Phase::WaitFinalizeAck => {
                if !self.verify_finalize_ack(status, bytes) {
                    self.passed = false;
                }
                self.phase = Phase::Done;
            },
            _ => {
                self.passed = false;
            },
        }
    }
}

/// Number of response bytes read from the mailbox.
pub open spec fn response_len(dlen: int) -> int {
    if dlen < MAX_RESP_BYTES {
        dlen
    } else {
        MAX_RESP_BYTES as int
    }
}

} // verus!
