//! Decisions of the ROM's network image provider: the client side of the
//! boot-source protocol that downloads firmware images over the network
//! mailbox. The mailbox traffic itself is performed by the caller; this
//! module decides what to send, interprets every response and hands out
//! the downloaded bytes.

use vstd::prelude::*;
use vstd::bytes::*;
use crate::mailbox::{dword_len, dword_count, NetworkMboxStatus, NetworkMboxTargetStatus, NetworkMboxError};
use crate::messages::{
    chunk_size_field, lemma_chunk_size_field, BootFlags, ChunkAck, ChunkAckFlags, FinalizeRequest,
    ImageChunkHeader, ImageDownloadRequest, ImageMetadataRequest, ImageMetadataResponse,
    InitiateBootRequest, InitiateBootResponse, Packet, FIRMWARE_ID_CALIPTRA_FMC_RT,
    FIRMWARE_ID_MCU_RT, FIRMWARE_ID_SOC_MANIFEST, FLAG_BIT0, with_flag,
};
use crate::wire::{words_le, words_to_le_bytes, lemma_le_bytes_round_trip, lemma_le_round_trip};

verus! {

broadcast use {vstd::seq::group_seq_axioms, vstd::slice::group_slice_axioms, vstd::array::group_array_axioms};

/// Largest response kept, in words: a chunk header plus a 1024-byte payload.
pub const MAX_RESP_DW: usize = 276;

/// Size of the buffer that holds the latest chunk payload.
pub const CHUNK_BUF_LEN: usize = 1024;

/// Protocol version announced in `InitiateBootRequest`.
pub const PROTOCOL_VERSION: u32 = 1;

/// Phase of the protocol exchange.
#[derive(Clone, Copy, Debug, PartialEq, Eq, Structural)]
pub enum Phase {
    Idle,
    WaitInitiateBootResponse,
    WaitMetadataResponse,
    WaitImageChunk,
    Done,
    Error,
}

/// Abstract state of the provider.
pub ghost struct ProviderView {
    pub phase: Phase,
    pub image_size: u32,
    pub bytes_received: u32,
    pub last_seq: u16,
    pub initiated: bool,
    pub download_started: bool,
    pub firmware_id: u8,
    pub chunk_buf: Seq<u8>,
    pub chunk_len: nat,
    pub chunk_consumed: nat,
    pub had_error: bool,
}

/// The smaller of two integers.
pub open spec fn min(a: int, b: int) -> int {
    if a < b {
        a
    } else {
        b
    }
}

/// The response bytes kept from `dlen` bytes delivered in `rx` words.
pub open spec fn response_bytes(rx: Seq<u32>, dlen: int) -> Seq<u8> {
    let copy_len = min(dlen, MAX_RESP_DW * 4);
    words_le(rx.take(dword_count(copy_len))).take(copy_len)
}

/// A successful chunk response is taken in when its payload is all there
/// and fits the chunk buffer (or it is empty); otherwise the chunk fails.
pub open spec fn chunk_accepted(bytes: Seq<u8>) -> bool {
    let cs = chunk_size_field(bytes);
    cs == 0 || (12 + cs <= bytes.len() && cs <= CHUNK_BUF_LEN)
}

/// A chunk response can be taken in without overflowing the byte counter.
pub open spec fn response_fits(v: ProviderView, status: NetworkMboxTargetStatus, bytes: Seq<u8>) -> bool {
    status.status == NetworkMboxStatus::CmdComplete && v.phase == Phase::WaitImageChunk && bytes.len()
        >= 12 && bytes[1] == 0 && chunk_accepted(bytes) ==> v.bytes_received + chunk_size_field(bytes)
        <= u32::MAX
}

/// How the provider takes in a response: a failed mailbox status is an
/// error; otherwise the response expected in the current phase is decoded.
pub open spec fn response_step(v: ProviderView, status: NetworkMboxTargetStatus, bytes: Seq<u8>) -> ProviderView {
    if status.status != NetworkMboxStatus::CmdComplete {
        ProviderView { had_error: true, phase: Phase::Error, ..v }
    } else {
        match v.phase {
            Phase::WaitInitiateBootResponse => {
                if bytes.len() >= 4 && bytes[1] == 0 {
                    ProviderView { phase: Phase::Idle, ..v }
                } else {
                    ProviderView { phase: Phase::Error, ..v }
                }
            },
            Phase::WaitMetadataResponse => {
                if bytes.len() >= 52 && bytes[1] == 0 {
                    ProviderView {
                        image_size: spec_u32_from_le_bytes(bytes.subrange(4, 8)),
                        phase: Phase::Idle,
                        ..v
                    }
                } else {
                    ProviderView { phase: Phase::Error, ..v }
                }
            },
            Phase::WaitImageChunk => {
                if bytes.len() >= 12 && bytes[1] == 0 && chunk_accepted(bytes) {
                    let cs = chunk_size_field(bytes);
                    ProviderView {
                        chunk_buf: if cs > 0 {
                            bytes.subrange(12, 12 + cs) + v.chunk_buf.skip(cs as int)
                        } else {
                            v.chunk_buf
                        },
                        chunk_len: cs as nat,
                        chunk_consumed: 0,
                        last_seq: spec_u16_from_le_bytes(bytes.subrange(2, 4)),
                        bytes_received: (v.bytes_received + cs) as u32,
                        phase: Phase::Done,
                        ..v
                    }
                } else {
                    ProviderView { phase: Phase::Error, ..v }
                }
            },
            _ => ProviderView { phase: Phase::Error, ..v },
        }
    }
}

/// A response whose status byte (byte 1) is not `Success` fails the
/// exchange in every phase that waits for one, and changes nothing but the
/// phase: no image size, chunk or byte count is taken from it.
pub proof fn lemma_failed_status_fails(v: ProviderView, status: NetworkMboxTargetStatus, bytes: Seq<u8>)
    requires
        bytes.len() >= 2,
        bytes[1] != 0,
        v.phase == Phase::WaitInitiateBootResponse || v.phase == Phase::WaitMetadataResponse || v.phase
            == Phase::WaitImageChunk,
    ensures
        ({
            let w = response_step(v, status, bytes);
            &&& w.phase == Phase::Error
            &&& w.image_size == v.image_size
            &&& w.bytes_received == v.bytes_received
            &&& w.chunk_len == v.chunk_len
            &&& w.chunk_buf == v.chunk_buf
            &&& w.last_seq == v.last_seq
        }),
{
}

/// A mailbox failure fails the exchange whatever the phase, and is
/// remembered as an error of the session.
pub proof fn lemma_mailbox_failure_fails(v: ProviderView, status: NetworkMboxTargetStatus, bytes: Seq<u8>)
    requires
        status.status != NetworkMboxStatus::CmdComplete,
    ensures
        response_step(v, status, bytes).phase == Phase::Error,
        response_step(v, status, bytes).had_error,
        response_step(v, status, bytes).bytes_received == v.bytes_received,
{
}

/// A completed success response of full length moves the exchange on:
/// `InitiateBootResponse` opens the session (back to idle), and
/// `ImageMetadataResponse` records the image size carried at byte 4.
pub proof fn lemma_success_moves_on(v: ProviderView, status: NetworkMboxTargetStatus, bytes: Seq<u8>)
    requires
        status.status == NetworkMboxStatus::CmdComplete,
        bytes.len() >= 52 || (v.phase == Phase::WaitInitiateBootResponse && bytes.len() >= 4),
        bytes[1] == 0,
        v.phase == Phase::WaitInitiateBootResponse || v.phase == Phase::WaitMetadataResponse,
    ensures
        response_step(v, status, bytes).phase == Phase::Idle,
        v.phase == Phase::WaitMetadataResponse ==> response_step(v, status, bytes).image_size
            == crate::messages::le32_at(bytes, 4),
        v.phase == Phase::WaitInitiateBootResponse ==> response_step(v, status, bytes).image_size
            == v.image_size,
{
}

/// A taken-in chunk keeps exactly the valid payload bytes: the chunk
/// length is the header's chunk size, the buffer starts with the payload
/// that followed the header, the byte count grows by that size and the
/// sequence number is the header's; a chunk whose payload is missing from
/// the response, or does not fit the buffer, fails and keeps the old chunk.
pub proof fn lemma_chunk_taken_in(v: ProviderView, status: NetworkMboxTargetStatus, bytes: Seq<u8>)
    requires
        status.status == NetworkMboxStatus::CmdComplete,
        v.phase == Phase::WaitImageChunk,
        v.chunk_buf.len() == CHUNK_BUF_LEN,
        bytes.len() >= 12,
        bytes[1] == 0,
        response_fits(v, status, bytes),
    ensures
        ({
            let w = response_step(v, status, bytes);
            let cs = crate::messages::le32_at(bytes, 8) as int;
            &&& (12 + cs <= bytes.len() && cs <= CHUNK_BUF_LEN) ==> {
                &&& w.phase == Phase::Done
                &&& w.chunk_len == cs
                &&& w.chunk_consumed == 0
                &&& w.chunk_buf.len() == CHUNK_BUF_LEN
                &&& w.chunk_buf.take(cs) == bytes.subrange(12, 12 + cs)
                &&& w.bytes_received == v.bytes_received + cs
                &&& w.last_seq == crate::messages::le16_at(bytes, 2)
            }
            &&& (cs > 0 && (12 + cs > bytes.len() || cs > CHUNK_BUF_LEN)) ==> {
                &&& w.phase == Phase::Error
                &&& w.chunk_len == v.chunk_len
                &&& w.chunk_buf == v.chunk_buf
                &&& w.bytes_received == v.bytes_received
            }
        }),
{
    let w = response_step(v, status, bytes);
    let cs = crate::messages::le32_at(bytes, 8) as int;
    if 12 + cs <= bytes.len() && cs <= CHUNK_BUF_LEN && cs > 0 {
        assert(w.chunk_buf.take(cs) =~= bytes.subrange(12, 12 + cs));
    }
    if cs == 0 {
        assert(w.chunk_buf.take(cs) =~= bytes.subrange(12, 12 + cs));
    }
}

/// What must be fetched before more image bytes can be handed out.
#[derive(Clone, Copy, Debug, PartialEq, Eq, Structural)]
pub enum FetchAction {
    /// Buffered data remains, or the whole image has arrived.
    Nothing,
    /// Send the `ImageDownloadRequest` for the current image.
    StartDownload,
    /// Acknowledge the last chunk to receive the next one.
    RequestNextChunk,
}

/// Outcome of waiting for a phase to end.
#[derive(Clone, Copy, Debug, PartialEq, Eq, Structural)]
pub enum WaitOutcome {
    /// Still in the phase waited on.
    Pending,
    /// Left the phase normally.
    Finished,
    /// Left the phase with an error.
    Failed,
}

/// Maps a recovery image index to its boot-source firmware ID.
pub open spec fn firmware_id_of_index(index: u32) -> Option<u8> {
    if index == 0 {
        Some(FIRMWARE_ID_CALIPTRA_FMC_RT)
    } else if index == 1 {
        Some(FIRMWARE_ID_SOC_MANIFEST)
    } else if index == 2 {
        Some(FIRMWARE_ID_MCU_RT)
    } else {
        None
    }
}

/// Converts a recovery image index to a boot-source protocol firmware ID.
pub fn recovery_img_index_to_firmware_id(recovery_image_index: u32) -> (r: Result<u8, ()>)
    ensures
        match firmware_id_of_index(recovery_image_index) {
            Some(id) => r == Ok::<u8, ()>(id),
            None => r is Err,
        },
{
    match recovery_image_index {
        0 => Ok(FIRMWARE_ID_CALIPTRA_FMC_RT),
        1 => Ok(FIRMWARE_ID_SOC_MANIFEST),
        2 => Ok(FIRMWARE_ID_MCU_RT),
        _ => Err(()),
    }
}

/// State of the network image provider.
pub struct NetworkImageProvider {
    phase: Phase,
    image_size: u32,
    bytes_received: u32,
    last_seq: u16,
    initiated: bool,
    download_started: bool,
    firmware_id: u8,
    chunk_buf: [u8; CHUNK_BUF_LEN],
    chunk_len: usize,
    chunk_consumed: usize,
    had_error: bool,
}

impl View for NetworkImageProvider {
    type V = ProviderView;

    closed spec fn view(&self) -> ProviderView {
        ProviderView {
            phase: self.phase,
            image_size: self.image_size,
            bytes_received: self.bytes_received,
            last_seq: self.last_seq,
            initiated: self.initiated,
            download_started: self.download_started,
            firmware_id: self.firmware_id,
            chunk_buf: self.chunk_buf@,
            chunk_len: self.chunk_len as nat,
            chunk_consumed: self.chunk_consumed as nat,
            had_error: self.had_error,
        }
    }
}

impl NetworkImageProvider {
    /// The consumed part of the chunk never exceeds the chunk, and the
    /// chunk is the valid bytes at the front of the chunk buffer.
    pub open spec fn wf(&self) -> bool {
        &&& self@.chunk_consumed <= self@.chunk_len
        &&& self@.chunk_buf.len() == CHUNK_BUF_LEN
        &&& self@.chunk_len <= CHUNK_BUF_LEN
    }

    pub fn new() -> (r: Self)
        ensures
            r.wf(),
            r@ == (ProviderView {
                phase: Phase::Idle,
                image_size: 0,
                bytes_received: 0,
                last_seq: 0,
                initiated: false,
                download_started: false,
                firmware_id: 0,
                chunk_buf: Seq::new(1024, |i: int| 0u8),
                chunk_len: 0,
                chunk_consumed: 0,
                had_error: false,
            }),
    {
        let r = NetworkImageProvider {
            phase: Phase::Idle,
            image_size: 0,
            bytes_received: 0,
            last_seq: 0,
            initiated: false,
            download_started: false,
            firmware_id: 0,
            chunk_buf: [0u8; CHUNK_BUF_LEN],
            chunk_len: 0,
            chunk_consumed: 0,
            had_error: false,
        };
        assert(r@.chunk_buf =~= Seq::new(1024, |i: int| 0u8));
        r
    }

    /// Whether taking in a response stays within the chunk buffer, the byte
    /// counter and the payload bounds (`response_received` needs this).
    pub fn response_acceptable(&self, status: NetworkMboxTargetStatus, rx_buf: &[u32], dlen: usize) -> (r: bool)
        requires
            rx_buf@.len() >= dword_count(min(dlen as int, MAX_RESP_DW * 4)),
        ensures
            r == response_fits(self@, status, response_bytes(rx_buf@, dlen as int)),
    {
        let copy_len = if dlen < MAX_RESP_DW * 4 {
            dlen
        } else {
            MAX_RESP_DW * 4
        };
        let dw_len = dword_len(copy_len);
        let mut bytes = words_to_le_bytes(rx_buf, dw_len);
        proof {
            crate::wire::lemma_words_le(rx_buf@.take(dw_len as int));
        }
        bytes.truncate(copy_len);
        let ghost b = bytes@;
        assert(b == response_bytes(rx_buf@, dlen as int));
        if status.status != NetworkMboxStatus::CmdComplete || self.phase != Phase::WaitImageChunk
            || bytes.len() < 12 || bytes[1] != 0 {
            return true;
        }
        let cs = crate::wire::read_u32(bytes.as_slice(), 8);
        assert(bytes@.subrange(8, 12) =~= b.subrange(8, 12));
        assert(cs == chunk_size_field(b));
        let accepted = cs == 0 || (cs as usize <= CHUNK_BUF_LEN && cs as usize <= bytes.len() - 12);
        if !accepted {
            return true;
        }
        cs <= u32::MAX - self.bytes_received
    }

    /// Whether copying up to `room` buffered bytes stays within the chunk
    /// buffer (`copy_chunk_bytes` needs this).
    pub fn copy_fits(&self, room: usize) -> (r: bool)
        requires
            self.wf(),
        ensures
            r == (self@.chunk_consumed + min(self@.chunk_len - self@.chunk_consumed, room as int)
                <= CHUNK_BUF_LEN),
    {
        let available = self.chunk_len - self.chunk_consumed;
        let n = if available < room {
            available
        } else {
            room
        };
        n <= CHUNK_BUF_LEN && self.chunk_consumed <= CHUNK_BUF_LEN - n
    }

    /// Takes in the response to the request in flight: `dlen` bytes in the
    /// words of `rx_buf`, of which at most `MAX_RESP_DW` words are kept.
    pub fn response_received(&mut self, status: NetworkMboxTargetStatus, rx_buf: &[u32], dlen: usize)
        requires
            old(self).wf(),
            rx_buf@.len() >= dword_count(min(dlen as int, MAX_RESP_DW * 4)),
            response_fits(old(self)@, status, response_bytes(rx_buf@, dlen as int)),
        ensures
            final(self).wf(),
            final(self)@ == response_step(old(self)@, status, response_bytes(rx_buf@, dlen as int)),
    {
        let copy_len = if dlen < MAX_RESP_DW * 4 {
            dlen
        } else {
            MAX_RESP_DW * 4
        };
        let dw_len = dword_len(copy_len);
        let mut bytes = words_to_le_bytes(rx_buf, dw_len);
        proof {
            crate::wire::lemma_words_le(rx_buf@.take(dw_len as int));
        }
        bytes.truncate(copy_len);
        let ghost b = bytes@;
        assert(b == response_bytes(rx_buf@, dlen as int));
        if status.status != NetworkMboxStatus::CmdComplete {
            self.had_error = true;
            self.phase = Phase::Error;
            return;
        }
        match self.phase {
            Phase::WaitInitiateBootResponse => {
                match InitiateBootResponse::read_from_prefix(bytes.as_slice()) {
                    Some(resp) => {
                        assert(resp.spec_bytes()[1] == resp.status);
                        assert(b[1] == resp.spec_bytes()[1]);
                        if resp.status == 0 {
                            self.phase = Phase::Idle;
                        } else {
                            self.phase = Phase::Error;
                        }
                    },
                    None => {
                        self.phase = Phase::Error;
                    },
                }
            },
            Phase::WaitMetadataResponse => {
                match ImageMetadataResponse::read_from_prefix(bytes.as_slice()) {
                    Some(resp) => {
                        assert(resp.spec_bytes()[1] == resp.status);
                        assert(b[1] == resp.spec_bytes()[1]);
                        proof {
                            lemma_le_round_trip(resp.image_size, 0, 0, 0);
                            assert(resp.spec_bytes().subrange(4, 8) =~= spec_u32_to_le_bytes(
                                resp.image_size,
                            ));
                            assert(b.subrange(4, 8) =~= resp.spec_bytes().subrange(4, 8));
                        }
                        if resp.status == 0 {
                            self.image_size = resp.image_size;
                            self.phase = Phase::Idle;
                        } else {
                            self.phase = Phase::Error;
                        }
                    },
                    None => {
                        self.phase = Phase::Error;
                    },
                }
            },
            Phase::WaitImageChunk => {
                match ImageChunkHeader::read_from_prefix(bytes.as_slice()) {
                    Some(hdr) => {
                        assert(hdr.spec_bytes()[1] == hdr.status);
                        assert(b[1] == hdr.spec_bytes()[1]);
                        if hdr.status != 0 {
                            self.phase = Phase::Error;
                            return;
                        }
                        proof {
                            lemma_chunk_size_field(hdr);
                            assert(hdr.spec_bytes().subrange(8, 12) =~= b.subrange(8, 12));
                            lemma_le_round_trip(0, 0, hdr.sequence_number, 0);
                            assert(hdr.spec_bytes().subrange(2, 4) =~= spec_u16_to_le_bytes(
                                hdr.sequence_number,
                            ));
                            assert(b.subrange(2, 4) =~= hdr.spec_bytes().subrange(2, 4));
                            assert(chunk_size_field(b) == hdr.chunk_size);
                        }
                        let chunk_size = hdr.chunk_size as usize;
                        let payload_start = ImageChunkHeader::SIZE;
                        if chunk_size > 0 && (chunk_size > CHUNK_BUF_LEN || chunk_size > copy_len - payload_start) {
                            self.phase = Phase::Error;
                            return;
                        }
                        let payload_end = payload_start + chunk_size;
                        if chunk_size > 0 {
                            let ghost before = self.chunk_buf@;
                            let ghost v0 = self@;
                            let mut k: usize = 0;
                            while k < chunk_size
                                invariant
                                    chunk_size <= CHUNK_BUF_LEN,
                                    payload_start == 12,
                                    before.len() == CHUNK_BUF_LEN,
                                    self@ == (ProviderView { chunk_buf: self@.chunk_buf, ..v0 }),
                                    payload_end == 12 + chunk_size,
                                    payload_end <= bytes@.len(),
                                    k <= chunk_size,
                                    self.chunk_buf@.len() == CHUNK_BUF_LEN,
                                    forall|t: int| 0 <= t < k ==> self.chunk_buf@[t] == bytes@[12 + t],
                                    forall|t: int|
                                        k <= t < CHUNK_BUF_LEN ==> self.chunk_buf@[t] == before[t],
                                decreases chunk_size - k,
                            {
                                self.chunk_buf[k] = bytes[payload_start + k];
                                k = k + 1;
                            }
                            assert(self.chunk_buf@ =~= b.subrange(12, 12 + chunk_size) + before.skip(
                                chunk_size as int,
                            ));
                        }
                        self.chunk_len = chunk_size;
                        self.chunk_consumed = 0;
                        self.last_seq = hdr.sequence_number;
                        self.bytes_received = self.bytes_received + hdr.chunk_size;
                        self.phase = Phase::Done;
                    },
                    None => {
                        self.phase = Phase::Error;
                    },
                }
            },
            _ => {
                self.phase = Phase::Error;
            },
        }
    }
}


impl NetworkImageProvider {
    /// Starts a new image: resolves its firmware ID and resets the transfer
    /// state. Fails, changing nothing, for an unknown image index.
    pub fn prepare_image(&mut self, image_index: u32) -> (r: Result<u8, ()>)
        requires
            old(self).wf(),
        ensures
            final(self).wf(),
            match firmware_id_of_index(image_index) {
                Some(id) => r == Ok::<u8, ()>(id) && final(self)@ == (ProviderView {
                    firmware_id: id,
                    bytes_received: 0,
                    last_seq: 0,
                    download_started: false,
                    chunk_len: 0,
                    chunk_consumed: 0,
                    had_error: false,
                    ..old(self)@
                }),
                None => r is Err && final(self)@ == old(self)@,
            },
    {
        let firmware_id = recovery_img_index_to_firmware_id(image_index)?;
        self.firmware_id = firmware_id;
        self.bytes_received = 0;
        self.last_seq = 0;
        self.download_started = false;
        self.chunk_len = 0;
        self.chunk_consumed = 0;
        self.had_error = false;
        Ok(firmware_id)
    }

    /// The request that opens the boot session, or `None` when the session
    /// is already open. Waits for its response.
    pub fn begin_initiate(&mut self) -> (r: Option<InitiateBootRequest>)
        requires
            old(self).wf(),
        ensures
            final(self).wf(),
            old(self)@.initiated ==> r is None && final(self)@ == old(self)@,
            !old(self)@.initiated ==> (r matches Some(p) && p.protocol_version == PROTOCOL_VERSION
                && p.flags == BootFlags(0) && p.message_type == 0x01 && p.reserved@ == seq![0u8, 0u8, 0u8]
                && final(self)@ == (ProviderView { phase: Phase::WaitInitiateBootResponse, ..old(self)@ })),
    {
        if self.initiated {
            return None;
        }
        let pkt = InitiateBootRequest::new(PROTOCOL_VERSION, BootFlags(0));
        self.phase = Phase::WaitInitiateBootResponse;
        Some(pkt)
    }

    /// Records that the boot session is open.
    pub fn mark_initiated(&mut self)
        ensures
            final(self)@ == (ProviderView { initiated: true, ..old(self)@ }),
    {
        self.initiated = true;
    }

    /// The metadata request for `firmware_id`; waits for its response.
    pub fn begin_metadata(&mut self, firmware_id: u8) -> (p: ImageMetadataRequest)
        ensures
            p.message_type == 0x02 && p.firmware_id == firmware_id && p.reserved@ == seq![0u8, 0u8],
            final(self)@ == (ProviderView { phase: Phase::WaitMetadataResponse, ..old(self)@ }),
    {
        self.phase = Phase::WaitMetadataResponse;
        ImageMetadataRequest::new(firmware_id)
    }

    /// The download request for the current image; waits for a chunk.
    pub fn begin_download(&mut self) -> (p: ImageDownloadRequest)
        ensures
            p.message_type == 0x03 && p.firmware_id == old(self)@.firmware_id && p.reserved0@ == seq![0u8, 0u8]
                && p.reserved1 == 0 && p.reserved2 == 0,
            final(self)@ == (ProviderView { phase: Phase::WaitImageChunk, ..old(self)@ }),
    {
        self.phase = Phase::WaitImageChunk;
        ImageDownloadRequest::new(self.firmware_id)
    }

    /// Records that the download of the current image has started.
    pub fn mark_download_started(&mut self)
        ensures
            final(self)@ == (ProviderView { download_started: true, ..old(self)@ }),
    {
        self.download_started = true;
    }

    /// The acknowledgement of the last chunk, asking for the next one; waits
    /// for a chunk.
    pub fn begin_next_chunk(&mut self) -> (p: ChunkAck)
        ensures
            p == (ChunkAck {
                message_type: 0x04,
                firmware_id: old(self)@.firmware_id,
                sequence_number: old(self)@.last_seq,
                reserved: 0,
                flags: ChunkAckFlags(with_flag(0, FLAG_BIT0, true)),
            }),
            final(self)@ == (ProviderView { phase: Phase::WaitImageChunk, ..old(self)@ }),
    {
        let mut flags = ChunkAckFlags(0);
        flags.set_ready_for_next(true);
        self.phase = Phase::WaitImageChunk;
        ChunkAck::new(self.firmware_id, self.last_seq, flags)
    }

    /// The request that closes the boot session.
    pub fn finalize_request(&self) -> (p: FinalizeRequest)
        ensures
            p == (FinalizeRequest { message_type: 0x05, status: 0, error_code: 0, reserved: 0 }),
    {
        FinalizeRequest::success()
    }

    /// Whether the wait for `wait_phase` is over, and how it ended.
    pub fn phase_outcome(&self, wait_phase: Phase) -> (o: WaitOutcome)
        ensures
            o == (if self@.phase == wait_phase {
                WaitOutcome::Pending
            } else if self@.phase == Phase::Error {
                WaitOutcome::Failed
            } else {
                WaitOutcome::Finished
            }),
    {
        if self.phase == wait_phase {
            WaitOutcome::Pending
        } else if self.phase == Phase::Error {
            WaitOutcome::Failed
        } else {
            WaitOutcome::Finished
        }
    }

    /// What must be fetched before more bytes can be handed out: nothing
    /// while buffered bytes remain or once the whole image has arrived;
    /// otherwise the download is started, or the next chunk requested.
    pub fn chunk_fetch(&self) -> (a: FetchAction)
        ensures
            a == (if self@.chunk_consumed < self@.chunk_len || self@.bytes_received >= self@.image_size {
                FetchAction::Nothing
            } else if !self@.download_started {
                FetchAction::StartDownload
            } else {
                FetchAction::RequestNextChunk
            }),
    {
        if self.chunk_consumed < self.chunk_len {
            return FetchAction::Nothing;
        }
        if self.bytes_received >= self.image_size {
            return FetchAction::Nothing;
        }
        if !self.download_started {
            FetchAction::StartDownload
        } else {
            FetchAction::RequestNextChunk
        }
    }

    /// Buffered bytes not yet handed out.
    pub fn available(&self) -> (n: usize)
        requires
            self.wf(),
        ensures
            n == self@.chunk_len - self@.chunk_consumed,
    {
        self.chunk_len - self.chunk_consumed
    }

    /// Whether every byte of the image has arrived.
    pub fn all_received(&self) -> (r: bool)
        ensures
            r == (self@.bytes_received >= self@.image_size),
    {
        self.bytes_received >= self.image_size
    }

    /// Copies buffered bytes into `data` from index `written` on, as many as
    /// are buffered and fit; returns how many were copied.
    pub fn copy_chunk_bytes(&mut self, data: &mut [u8], written: usize) -> (n: usize)
        requires
            old(self).wf(),
            written <= old(data)@.len(),
            old(self)@.chunk_consumed + min(
                old(self)@.chunk_len - old(self)@.chunk_consumed,
                old(data)@.len() - written,
            ) <= CHUNK_BUF_LEN,
        ensures
            final(self).wf(),
            n == min(old(self)@.chunk_len - old(self)@.chunk_consumed, old(data)@.len() - written),
            final(self)@ == (ProviderView { chunk_consumed: (old(self)@.chunk_consumed + n) as nat, ..old(self)@ }),
            final(data)@ == old(data)@.take(written as int) + old(self)@.chunk_buf.subrange(
                old(self)@.chunk_consumed as int,
                old(self)@.chunk_consumed + n,
            ) + old(data)@.skip(written + n),
    {
        let consumed = self.chunk_consumed;
        let available = self.chunk_len - consumed;
        let room = data.len() - written;
        let to_copy = if available < room {
            available
        } else {
            room
        };
        let ghost d0 = data@;
        assert(d0.len() == data.len());
        let mut k: usize = 0;
        while k < to_copy
            invariant
                k <= to_copy,
                written + to_copy <= d0.len(),
                d0.len() <= usize::MAX,
                consumed + to_copy <= CHUNK_BUF_LEN,
                self.chunk_buf@.len() == CHUNK_BUF_LEN,
                data@.len() == d0.len(),
                forall|t: int| 0 <= t < written ==> data@[t] == d0[t],
                forall|t: int| written <= t < written + k ==> data@[t] == self.chunk_buf@[consumed + t - written],
                forall|t: int| written + k <= t < d0.len() ==> data@[t] == d0[t],
            decreases to_copy - k,
        {
            data[written + k] = self.chunk_buf[consumed + k];
            k = k + 1;
        }
        assert(data@ =~= d0.take(written as int) + self.chunk_buf@.subrange(
            consumed as int,
            consumed + to_copy,
        ) + d0.skip(written + to_copy));
        self.chunk_consumed = consumed + to_copy;
        to_copy
    }

    /// Image bytes received so far.
    pub fn bytes_loaded(&self) -> (n: usize)
        ensures
            n == self@.bytes_received,
    {
        self.bytes_received as usize
    }

    /// Image size announced by the last metadata response.
    pub fn image_size(&self) -> (n: u32)
        ensures
            n == self@.image_size,
    {
        self.image_size
    }
}

} // verus!
