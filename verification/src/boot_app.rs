//! The boot-source application: the responses it sends over the network
//! mailbox, and its state machine from `InitiateBootRequest` to
//! `Finalize`. Each step takes what the network reported and says what the
//! network and the mailbox are to do next.

use vstd::prelude::*;
use vstd::bytes::{spec_u32_from_le_bytes, spec_u32_to_le_bytes, u32_to_le_bytes};
use crate::mailbox::NetworkMboxError;
use crate::messages::{
    BootFlags, ChunkAck, ErrorCode, FinalizeRequest, ImageChunkHeader, ImageDownloadRequest,
    ImageMetadataRequest, InitiateBootRequest, MessageType, Packet, Status, error_code_value,
    message_type_code, message_type_of, status_code, lemma_message_type_round_trip,
};
use crate::network::{DhcpResult, LwipState, NetworkError, ServerAddr, TFTP_CHUNK_BUF_SIZE};
use crate::toc::{ImageRecord, MAX_FILENAME_LEN, Toc, TocEntry, leading_records, records_loaded};
use crate::wire::{push_u32, words_le, words_to_le_bytes};

verus! {

broadcast use {vstd::seq::group_seq_axioms, vstd::slice::group_slice_axioms, vstd::array::group_array_axioms};

/// Longest request the boot source reads from the mailbox SRAM.
pub const MAX_REQ_BYTES: usize = 256;

/// Size of the scratch buffer that one chunk is taken into.
pub const CHUNK_SCRATCH_LEN: usize = 4096;

/// Free buffer space below which the streaming loop stops taking frames.
pub const MIN_RX_SPACE: usize = 512;

/// Length of the error response that answers a request with `t`, for the
/// response types that carry an error.
pub open spec fn error_response_len(t: MessageType) -> Option<nat> {
    match t {
        MessageType::InitiateBootResponse => Some(4),
        MessageType::ImageMetadataResponse => Some(52),
        MessageType::ImageChunk => Some(12),
        MessageType::FinalizeAck => Some(12),
        _ => None,
    }
}

/// An error response: the message type, the error code, then zeros up to
/// the response's length.
pub open spec fn error_bytes(t: MessageType, e: ErrorCode) -> Seq<u8> {
    seq![message_type_code(t), error_code_value(e)] + Seq::new(
        (error_response_len(t).unwrap() - 2) as nat,
        |i: int| 0u8,
    )
}

/// Encodes the error response of type `msg_type`; only the four response
/// types that carry a status can report an error.
pub fn error_response(msg_type: MessageType, error: ErrorCode) -> (r: Result<Vec<u8>, NetworkMboxError>)
    ensures
        match error_response_len(msg_type) {
            Some(_) => r matches Ok(b) && b@ == error_bytes(msg_type, error),
            None => r == Err::<Vec<u8>, NetworkMboxError>(NetworkMboxError::InvalidArgument),
        },
{
    let len: usize = match msg_type {
        MessageType::InitiateBootResponse => 4,
        MessageType::ImageMetadataResponse => 52,
        MessageType::ImageChunk => 12,
        MessageType::FinalizeAck => 12,
        _ => return Err(NetworkMboxError::InvalidArgument),
    };
    let mut out: Vec<u8> = Vec::new();
    out.push(msg_type.as_u8());
    out.push(error.as_u8());
    let mut i: usize = 2;
    while i < len
        invariant
            2 <= i <= len,
            error_response_len(msg_type) == Some(len as nat),
            out@ == seq![message_type_code(msg_type), error_code_value(error)] + Seq::new(
                (i - 2) as nat,
                |k: int| 0u8,
            ),
        decreases len - i,
    {
        out.push(0);
        i = i + 1;
        assert(out@ =~= seq![message_type_code(msg_type), error_code_value(error)] + Seq::new(
            (i - 2) as nat,
            |k: int| 0u8,
        ));
    }
    Ok(out)
}

/// Number of request bytes read from the mailbox.
pub open spec fn request_len(dlen: int) -> int {
    if dlen < MAX_REQ_BYTES {
        dlen
    } else {
        MAX_REQ_BYTES as int
    }
}

/// The request bytes carried by the SRAM words: at most 256 of the `dlen`
/// bytes announced, unpacked little-endian.
pub fn request_bytes(rx_buf: &[u32], dlen: usize) -> (r: Vec<u8>)
    requires
        rx_buf@.len() >= (request_len(dlen as int) + 3) / 4,
    ensures
        r@ == words_le(rx_buf@.take((request_len(dlen as int) + 3) / 4)).take(request_len(dlen as int)),
{
    let copy_len = if dlen < MAX_REQ_BYTES {
        dlen
    } else {
        MAX_REQ_BYTES
    };
    let dw_len = (copy_len + 3) / 4;
    let words = words_to_le_bytes(rx_buf, dw_len);
    proof {
        crate::wire::lemma_words_le(rx_buf@.take(dw_len as int));
    }
    let mut out: Vec<u8> = Vec::new();
    let mut i: usize = 0;
    while i < copy_len
        invariant
            copy_len <= words@.len(),
            i <= copy_len,
            out@ == words@.take(i as int),
        decreases copy_len - i,
    {
        out.push(words[i]);
        i = i + 1;
        assert(out@ =~= words@.take(i as int));
    }
    out
}

/// Packs a byte stream into little-endian words: at most `remaining` bytes
/// are read, four per word, and a short last word is padded with zeros.
pub struct DwordIterator {
    bytes: Vec<u8>,
    pos: usize,
    remaining: usize,
}

/// The word of the first (at most four) bytes of `s`, zero-padded.
pub open spec fn padded_word(s: Seq<u8>) -> u32 {
    let k = if s.len() < 4 {
        s.len()
    } else {
        4
    };
    spec_u32_from_le_bytes(s.take(k as int) + Seq::new((4 - k) as nat, |i: int| 0u8))
}

/// How many bytes the next word takes: four, unless the budget or the
/// stream ends first.
pub open spec fn word_take(pending: Seq<u8>, budget: nat) -> int {
    let b = if budget < 4 {
        budget as int
    } else {
        4
    };
    if pending.len() < b {
        pending.len() as int
    } else {
        b
    }
}

impl DwordIterator {
    /// The bytes not read yet.
    pub closed spec fn pending(&self) -> Seq<u8> {
        self.bytes@.skip(self.pos as int)
    }

    /// How many more bytes may be read.
    pub closed spec fn budget(&self) -> nat {
        self.remaining as nat
    }

    pub closed spec fn wf(&self) -> bool {
        self.pos <= self.bytes@.len()
    }

    pub fn new(inner: Vec<u8>, total_bytes: usize) -> (r: Self)
        ensures
            r.wf(),
            r.pending() == inner@,
            r.budget() == total_bytes,
    {
        let r = DwordIterator { bytes: inner, pos: 0, remaining: total_bytes };
        assert(r.pending() =~= inner@);
        r
    }

    /// The next word, or `None` once the byte budget is spent. When the
    /// stream runs dry first, the words that follow are zero.
    pub fn next_dword(&mut self) -> (r: Option<u32>)
        requires
            old(self).wf(),
        ensures
            final(self).wf(),
            old(self).budget() == 0 ==> r is None && final(self).pending() == old(self).pending()
                && final(self).budget() == 0,
            old(self).budget() > 0 ==> {
                let k = word_take(old(self).pending(), old(self).budget());
                &&& r == Some(padded_word(old(self).pending().take(k)))
                &&& final(self).pending() == old(self).pending().skip(k)
                &&& final(self).budget() == old(self).budget() - k
            },
    {
        if self.remaining == 0 {
            return None;
        }
        let ghost s0 = self.pending();
        let avail = self.bytes.len() - self.pos;
        let want = if self.remaining < 4 {
            self.remaining
        } else {
            4
        };
        let k = if avail < want {
            avail
        } else {
            want
        };
        let n = self.bytes.len();
        assert(s0.len() == avail);
        let mut dw: [u8; 4] = [0u8; 4];
        let mut i: usize = 0;
        while i < k
            invariant
                k <= 4,
                k <= avail,
                avail == self.bytes@.len() - self.pos,
                n == self.bytes@.len(),
                want <= 4,
                k <= want,
                self.pos <= self.bytes@.len(),
                s0 == self.bytes@.skip(self.pos as int),
                i <= k,
                dw@.len() == 4,
                forall|t: int| 0 <= t < i ==> dw@[t] == s0[t],
                forall|t: int| i <= t < 4 ==> dw@[t] == 0,
            decreases k - i,
        {
            dw[i] = self.bytes[self.pos + i];
            i = i + 1;
        }
        self.pos = self.pos + k;
        self.remaining = self.remaining - k;
        assert(dw@ =~= s0.take(k as int) + Seq::new((4 - k) as nat, |t: int| 0u8));
        assert(s0.take(k as int).take(k as int) =~= s0.take(k as int));
        assert(padded_word(s0.take(k as int)) == spec_u32_from_le_bytes(dw@));
        assert(self.pending() =~= s0.skip(k as int));
        Some(vstd::bytes::u32_from_le_bytes(vstd::array::array_as_slice(&dw)))
    }
}

/// The header of a successful chunk.
pub open spec fn chunk_header(sequence_number: u16, offset: u32, chunk_size: u32) -> ImageChunkHeader {
    ImageChunkHeader {
        message_type: message_type_code(MessageType::ImageChunk),
        status: status_code(Status::Success),
        sequence_number,
        offset,
        chunk_size,
    }
}

/// The error response of a type that carries one.
fn error_or_empty(msg_type: MessageType, error: ErrorCode) -> (r: Vec<u8>)
    requires
        error_response_len(msg_type) is Some,
    ensures
        r@ == error_bytes(msg_type, error),
{
    match error_response(msg_type, error) {
        Ok(b) => b,
        Err(_) => Vec::new(),
    }
}

/// Entry `i` is the first used entry of `toc` with firmware ID `id`.
pub open spec fn is_first_match(toc: Toc, id: u8, i: int) -> bool {
    &&& 0 <= i < toc.len()
    &&& toc.slots()[i].firmware_id == id
    &&& forall|j: int| 0 <= j < i ==> toc.slots()[j].firmware_id != id
}

/// No used entry of `toc` has firmware ID `id`.
pub open spec fn no_match(toc: Toc, id: u8) -> bool {
    forall|j: int| 0 <= j < toc.len() ==> toc.slots()[j].firmware_id != id
}

/// The metadata response for an entry: its size, and its checksum in the
/// first four bytes of the checksum field.
pub open spec fn metadata_bytes(e: TocEntry) -> Seq<u8> {
    seq![
        message_type_code(MessageType::ImageMetadataResponse),
        status_code(Status::Success),
        0u8,
        0u8,
    ] + spec_u32_to_le_bytes(e.image_size) + spec_u32_to_le_bytes(e.image_checksum) + Seq::new(
        28,
        |i: int| 0u8,
    ) + spec_u32_to_le_bytes(0) + spec_u32_to_le_bytes(0) + spec_u32_to_le_bytes(0)
}

/// Parses an `InitiateBootRequest` and returns its boot flags.
pub fn handle_initiate_boot_start(data: &[u8]) -> (r: Result<BootFlags, NetworkMboxError>)
    ensures
        data@.len() < 12 <==> r == Err::<BootFlags, NetworkMboxError>(
            NetworkMboxError::InvalidArgument,
        ),
        data@.len() >= 12 <==> r is Ok,
        r matches Ok(f) ==> spec_u32_to_le_bytes(f.0) == data@.subrange(8, 12),
{
    match crate::messages::parse_fixed::<InitiateBootRequest>(data) {
        Some(req) => {
            proof {
                crate::wire::lemma_le_round_trip(req.protocol_version, req.flags.0, 0, 0);
            }
            assert(req.spec_bytes().subrange(8, 12) =~= spec_u32_to_le_bytes(req.flags.0));
            Ok(req.flags)
        },
        None => Err(NetworkMboxError::InvalidArgument),
    }
}

/// Answers an `ImageMetadataRequest` from the table: the entry's size and
/// checksum, or `ImageNotFound`; a request too short to hold a firmware ID
/// is answered `InvalidParameters`.
pub fn handle_image_metadata(data: &[u8], toc: &Toc) -> (r: Vec<u8>)
    ensures
        data@.len() < 4 ==> r@ == error_bytes(
            MessageType::ImageMetadataResponse,
            ErrorCode::InvalidParameters,
        ),
        data@.len() >= 4 && no_match(*toc, data@[1]) ==> r@ == error_bytes(
            MessageType::ImageMetadataResponse,
            ErrorCode::ImageNotFound,
        ),
        data@.len() >= 4 && !no_match(*toc, data@[1]) ==> exists|i: int|
            is_first_match(*toc, data@[1], i) && r@ == metadata_bytes(toc.slots()[i]),
{
    let req = match crate::messages::parse_fixed::<ImageMetadataRequest>(data) {
        Some(r) => r,
        None => {
            return match error_response(MessageType::ImageMetadataResponse, ErrorCode::InvalidParameters) {
                Ok(b) => b,
                Err(_) => Vec::new(),
            };
        },
    };
    assert(req.spec_bytes()[1] == req.firmware_id);
    assert(req.firmware_id == data@[1]);
    match toc.find(req.firmware_id) {
        Some(entry) => {
            let mut checksum = [0u8; 32];
            let le = u32_to_le_bytes(entry.image_checksum);
            let mut k: usize = 0;
            while k < 4
                invariant
                    le@.len() == 4,
                    k <= 4,
                    checksum@.len() == 32,
                    forall|t: int| 0 <= t < k ==> checksum@[t] == le@[t],
                    forall|t: int| k <= t < 32 ==> checksum@[t] == 0,
                decreases 4 - k,
            {
                checksum[k] = le[k];
                k = k + 1;
            }
            assert(checksum@ =~= le@ + Seq::new(28, |i: int| 0u8));
            let resp = crate::messages::ImageMetadataResponse::new(
                entry.image_size,
                checksum,
                0,
                0,
            );
            let b = resp.as_bytes();
            assert(b@ =~= metadata_bytes(*entry));
            proof {
                let i = choose|i: int|
                    0 <= i < toc.len() && *entry == toc.slots()[i] && toc.slots()[i].firmware_id
                        == req.firmware_id && forall|j: int|
                        0 <= j < i ==> toc.slots()[j].firmware_id != req.firmware_id;
                assert(is_first_match(*toc, data@[1], i));
            }
            b
        },
        None => match error_response(MessageType::ImageMetadataResponse, ErrorCode::ImageNotFound) {
            Ok(b) => b,
            Err(_) => Vec::new(),
        },
    }
}

/// Checks an `ImageDownloadRequest` against the table. On success returns
/// the firmware ID and the zero-payload chunk header that acknowledges the
/// download; otherwise the error and the `ImageChunk` error response.
pub fn handle_image_download(data: &[u8], toc: &Toc) -> (r: Result<
    (u8, Vec<u8>),
    (NetworkMboxError, Vec<u8>),
>)
    ensures
        data@.len() < 12 ==> (r matches Err((e, b)) && e == NetworkMboxError::InvalidArgument
            && b@ == error_bytes(MessageType::ImageChunk, ErrorCode::InvalidParameters)),
        data@.len() >= 12 && no_match(*toc, data@[1]) ==> (r matches Err((e, b)) && e
            == NetworkMboxError::InvalidArgument && b@ == error_bytes(
            MessageType::ImageChunk,
            ErrorCode::ImageNotFound,
        )),
        data@.len() >= 12 && !no_match(*toc, data@[1]) ==> (r matches Ok((id, b)) && id == data@[1]
            && b@ == chunk_header(0, 0, 0).spec_bytes()),
{
    let req = match crate::messages::parse_fixed::<ImageDownloadRequest>(data) {
        Some(r) => r,
        None => {
            let b = match error_response(MessageType::ImageChunk, ErrorCode::InvalidParameters) {
                Ok(b) => b,
                Err(_) => Vec::new(),
            };
            return Err((NetworkMboxError::InvalidArgument, b));
        },
    };
    assert(req.spec_bytes()[1] == req.firmware_id);
    assert(req.firmware_id == data@[1]);
    if toc.find(req.firmware_id).is_none() {
        let b = match error_response(MessageType::ImageChunk, ErrorCode::ImageNotFound) {
            Ok(b) => b,
            Err(_) => Vec::new(),
        };
        return Err((NetworkMboxError::InvalidArgument, b));
    }
    let hdr = ImageChunkHeader::new(0, 0, 0);
    Ok((req.firmware_id, hdr.as_bytes()))
}

/// A `ChunkAck` is valid when it is long enough to hold one.
pub fn validate_chunk_ack(data: &[u8]) -> (r: Result<(), NetworkMboxError>)
    ensures
        r == (if data@.len() >= 12 {
            Ok::<(), NetworkMboxError>(())
        } else {
            Err(NetworkMboxError::InvalidArgument)
        }),
{
    match crate::messages::parse_fixed::<ChunkAck>(data) {
        Some(_) => Ok(()),
        None => Err(NetworkMboxError::InvalidArgument),
    }
}

/// A chunk that is ready to go out, and where the transfer stands once it
/// has gone.
pub struct ChunkOut {
    pub bytes: Vec<u8>,
    pub is_last: bool,
    pub next_sequence: u16,
    pub next_offset: u32,
}

/// Number of bytes one chunk takes from the buffer.
pub open spec fn chunk_take(buffered: int, max_chunk_size: int) -> int {
    let cap = if max_chunk_size < CHUNK_SCRATCH_LEN {
        max_chunk_size
    } else {
        CHUNK_SCRATCH_LEN as int
    };
    if buffered < cap {
        buffered
    } else {
        cap
    }
}

/// How the next chunk is answered from the buffer of `net`, leaving `fin`.
pub open spec fn chunk_answer(
    net: LwipState,
    fin: LwipState,
    max_chunk_size: usize,
    seq: u16,
    offset: u32,
    r: Result<ChunkOut, (NetworkMboxError, Vec<u8>)>,
) -> bool {
    &&& fin.spec_tftp() == net.spec_tftp()
    &&& fin.spec_netif() == net.spec_netif()
    &&& fin.spec_initialized() == net.spec_initialized()
    &&& (net.spec_tftp().spec_state() matches Some(s) && s.has_error) ==> (r matches Err((e, b))
        && e == NetworkMboxError::Failed && b@ == error_bytes(
        MessageType::ImageChunk,
        ErrorCode::CorruptedData,
    ) && fin == net)
    &&& !(net.spec_tftp().spec_state() matches Some(s) && s.has_error) ==> (r matches Ok(c) && {
        let n = chunk_take(net.buffered().len() as int, max_chunk_size as int);
        let complete = net.spec_tftp().spec_state() matches Some(s) && s.complete;
        &&& c.is_last == (complete && n == net.buffered().len())
        &&& c.bytes@ == chunk_header(seq, offset, n as u32).spec_bytes() + net.buffered().take(n)
        &&& c.next_sequence == (if seq == u16::MAX {
            0
        } else {
            (seq + 1) as u16
        })
        &&& c.next_offset == ((offset + n) % 0x1_0000_0000) as u32
        &&& fin.buffered() == (if c.is_last {
            Seq::<u8>::empty()
        } else {
            net.buffered().skip(n)
        })
    })
}

/// The image is streamed without loss or repetition: a chunk framed from
/// the buffer carries its header (the current sequence number and offset,
/// and the payload size) followed by the oldest buffered bytes, as many as
/// the chunk size allows and never more than are buffered; unless it is
/// the last chunk, the bytes that stay buffered are exactly the ones that
/// follow, and the next chunk starts at the old offset plus the payload
/// size, with the next sequence number.
pub proof fn lemma_chunk_stream(
    net: LwipState,
    fin: LwipState,
    max_chunk_size: usize,
    seq: u16,
    offset: u32,
    r: Result<ChunkOut, (NetworkMboxError, Vec<u8>)>,
)
    requires
        chunk_answer(net, fin, max_chunk_size, seq, offset, r),
        r is Ok,
    ensures
        ({
            let c = r->Ok_0;
            let payload = c.bytes@.skip(12);
            &&& c.bytes@.len() >= 12
            &&& crate::messages::le16_at(c.bytes@, 2) == seq
            &&& crate::messages::le32_at(c.bytes@, 4) == offset
            &&& crate::messages::le32_at(c.bytes@, 8) == payload.len()
            &&& payload.len() <= max_chunk_size
            &&& payload.len() <= CHUNK_SCRATCH_LEN
            &&& payload.len() <= net.buffered().len()
            &&& (payload.len() < net.buffered().len() ==> payload.len() == max_chunk_size
                || payload.len() == CHUNK_SCRATCH_LEN)
            &&& payload == net.buffered().take(payload.len() as int)
            &&& !c.is_last ==> payload + fin.buffered() == net.buffered()
            &&& c.next_offset as int == (offset + payload.len()) % 0x1_0000_0000
            &&& c.next_sequence as int == (seq + 1) % 0x1_0000
        }),
{
    let c = r->Ok_0;
    let n = chunk_take(net.buffered().len() as int, max_chunk_size as int);
    let h = chunk_header(seq, offset, n as u32);
    lemma_chunk_header_fields(seq, offset, n as u32);
    let b = c.bytes@;
    assert(b.subrange(0, 12) =~= h.spec_bytes());
    assert(b.subrange(2, 4) =~= h.spec_bytes().subrange(2, 4));
    assert(b.subrange(4, 8) =~= h.spec_bytes().subrange(4, 8));
    assert(b.subrange(8, 12) =~= h.spec_bytes().subrange(8, 12));
    assert(b.skip(12) =~= net.buffered().take(n));
    if !c.is_last {
        assert(net.buffered().take(n) + net.buffered().skip(n) =~= net.buffered());
    }
}

/// Takes the next chunk out of the TFTP buffer and frames it behind a chunk
/// header with the current sequence number and offset. The chunk is the
/// last one when the transfer is complete and nothing is left buffered; the
/// buffer is then reset. Fails, with the `CorruptedData` response, when the
/// transfer has failed.
pub fn send_next_chunk(net: &mut LwipState, max_chunk_size: usize, seq: u16, offset: u32) -> (r: Result<
    ChunkOut,
    (NetworkMboxError, Vec<u8>),
>)
    requires
        old(net).wf(),
    ensures
        final(net).wf(),
        chunk_answer(*old(net), *final(net), max_chunk_size, seq, offset, r),
{
    if net.tftp_has_error() {
        let b = match error_response(MessageType::ImageChunk, ErrorCode::CorruptedData) {
            Ok(b) => b,
            Err(_) => Vec::new(),
        };
        return Err((NetworkMboxError::Failed, b));
    }
    let mut chunk_buf: Vec<u8> = Vec::new();
    let chunk_max = if max_chunk_size < CHUNK_SCRATCH_LEN {
        max_chunk_size
    } else {
        CHUNK_SCRATCH_LEN
    };
    let mut z: usize = 0;
    while z < chunk_max
        invariant
            z <= chunk_max,
            chunk_buf@ == Seq::new(z as nat, |i: int| 0u8),
        decreases chunk_max - z,
    {
        chunk_buf.push(0);
        z = z + 1;
        assert(chunk_buf@ =~= Seq::new(z as nat, |i: int| 0u8));
    }
    let ghost before = net.buffered();
    let chunk_len = net.take_tftp_chunk(chunk_buf.as_mut_slice());
    let is_last = net.tftp_is_complete() && net.tftp_buffered_len() == 0;
    let hdr = ImageChunkHeader::new(seq, offset, chunk_len as u32);
    let mut bytes = hdr.as_bytes();
    let mut i: usize = 0;
    while i < chunk_len
        invariant
            chunk_len <= chunk_buf@.len(),
            i <= chunk_len,
            bytes@ == hdr.spec_bytes() + chunk_buf@.take(i as int),
        decreases chunk_len - i,
    {
        bytes.push(chunk_buf[i]);
        i = i + 1;
        assert(bytes@ =~= hdr.spec_bytes() + chunk_buf@.take(i as int));
    }
    assert(chunk_buf@.take(chunk_len as int) =~= before.take(chunk_len as int));
    if is_last {
        net.reset_tftp_state();
    }
    Ok(ChunkOut {
        bytes,
        is_last,
        next_sequence: seq.wrapping_add(1),
        next_offset: offset.wrapping_add(chunk_len as u32),
    })
}

/// Whether the wait that follows a `ChunkAck` is over: data is buffered
/// or the transfer has ended.
pub fn chunk_ack_ready(net: &LwipState) -> (r: bool)
    requires
        net.wf(),
    ensures
        r == (net.buffered().len() > 0 || (net.spec_tftp().spec_state() matches Some(t)
            && t.complete)),
{
    net.tftp_buffered_len() > 0 || net.tftp_is_complete()
}

/// Answers a `ChunkAck` with the next chunk of the image; an ack too short
/// to be one is answered `InvalidParameters`.
pub fn handle_chunk_ack(data: &[u8], net: &mut LwipState, max_chunk_size: usize, seq: u16, offset: u32) -> (r:
    Result<ChunkOut, (NetworkMboxError, Vec<u8>)>)
    requires
        old(net).wf(),
    ensures
        final(net).wf(),
        data@.len() < 12 ==> (r matches Err((e, b)) && e == NetworkMboxError::InvalidArgument && b@
            == error_bytes(MessageType::ImageChunk, ErrorCode::InvalidParameters)) && *final(net)
            == *old(net),
        data@.len() >= 12 ==> chunk_answer(*old(net), *final(net), max_chunk_size, seq, offset, r),
{
    if validate_chunk_ack(data).is_err() {
        return Err((NetworkMboxError::InvalidArgument, error_or_empty(MessageType::ImageChunk, ErrorCode::InvalidParameters)));
    }
    send_next_chunk(net, max_chunk_size, seq, offset)
}

/// The file name requested for a lease's boot file: at most 127 bytes of
/// it, then a NUL.
pub fn lease_request(lease: &DhcpResult) -> (name: Vec<u8>)
    ensures
        name@ == lease_request_name(*lease),
{
    let len = if lease.boot_file_len < 127 {
        lease.boot_file_len
    } else {
        127
    };
    let mut fname: Vec<u8> = Vec::new();
    let mut i: usize = 0;
    while i < len
        invariant
            len <= 127,
            i <= len,
            fname@ == lease.boot_file@.take(i as int),
        decreases len - i,
    {
        fname.push(lease.boot_file[i]);
        i = i + 1;
        assert(fname@ =~= lease.boot_file@.take(i as int));
    }
    fname.push(0);
    fname
}

/// Blocking handling of `InitiateBootRequest`, first step: the request's
/// boot flags, or the `InvalidParameters` answer to a request too short.
pub fn blocking_boot_start(data: &[u8]) -> (r: Result<BootFlags, Vec<u8>>)
    ensures
        data@.len() < 12 ==> (r matches Err(b) && b@ == error_bytes(
            MessageType::InitiateBootResponse,
            ErrorCode::InvalidParameters,
        )),
        data@.len() >= 12 ==> (r matches Ok(f) && spec_u32_to_le_bytes(f.0) == data@.subrange(8, 12)),
{
    match handle_initiate_boot_start(data) {
        Ok(flags) => Ok(flags),
        Err(_) => Err(error_or_empty(MessageType::InitiateBootResponse, ErrorCode::InvalidParameters)),
    }
}

/// Blocking handling, once DHCP has run: the lease, or the
/// `SourceNotReady` answer when DHCP failed.
pub fn blocking_boot_lease(lease: Result<DhcpResult, NetworkError>) -> (r: Result<DhcpResult, Vec<u8>>)
    ensures
        lease is Ok ==> r == Ok::<DhcpResult, Vec<u8>>(lease.unwrap()),
        lease is Err ==> (r matches Err(b) && b@ == error_bytes(
            MessageType::InitiateBootResponse,
            ErrorCode::SourceNotReady,
        )),
{
    match lease {
        Ok(l) => Ok(l),
        Err(_) => Err(error_or_empty(MessageType::InitiateBootResponse, ErrorCode::SourceNotReady)),
    }
}

/// Blocking handling, once lwIP took the TFTP client (`accepted`) or not:
/// the file name of the TOC request for the lease, or the
/// `SourceNotReady` answer.
pub fn blocking_boot_tftp(net: &mut LwipState, lease: &DhcpResult, accepted: bool) -> (r: Result<
    Vec<u8>,
    Vec<u8>,
>)
    requires
        old(net).wf(),
    ensures
        final(net).wf(),
        !accepted ==> (r matches Err(b) && b@ == error_bytes(
            MessageType::InitiateBootResponse,
            ErrorCode::SourceNotReady,
        )),
        accepted ==> (r matches Ok(name) && name@ == lease_request_name(*lease)),
        accepted ==> final(net).buffered() == Seq::<u8>::empty() && final(net).spec_tftp().spec_state()
            == Some(crate::lwip::fresh_transfer()),
{
    if net.init_tftp(accepted).is_err() {
        return Err(error_or_empty(MessageType::InitiateBootResponse, ErrorCode::SourceNotReady));
    }
    let fname = lease_request(lease);
    match net.start_tftp_get(fname.as_slice()) {
        Ok(()) => Ok(fname),
        Err(_) => Err(error_or_empty(MessageType::InitiateBootResponse, ErrorCode::SourceNotReady)),
    }
}

/// Blocking handling, once lwIP took the TOC GET (`accepted`) or refused
/// it; a refusal closes the transfer and is answered `SourceNotReady`.
pub fn blocking_boot_get(net: &mut LwipState, accepted: bool) -> (r: Result<(), Vec<u8>>)
    requires
        old(net).wf(),
    ensures
        final(net).wf(),
        accepted ==> r is Ok && *final(net) == *old(net),
        !accepted ==> (r matches Err(b) && b@ == error_bytes(
            MessageType::InitiateBootResponse,
            ErrorCode::SourceNotReady,
        )),
{
    if accepted {
        return Ok(());
    }
    net.tftp_get_refused();
    Err(error_or_empty(MessageType::InitiateBootResponse, ErrorCode::SourceNotReady))
}

/// Blocking handling, once the wait for the TOC has ended: the TOC file
/// (at most a buffer's worth), or the `SourceNotReady` answer when the
/// transfer failed or did not finish.
pub fn blocking_boot_toc(net: &mut LwipState) -> (r: Result<Vec<u8>, Vec<u8>>)
    requires
        old(net).wf(),
    ensures
        final(net).wf(),
        ({
            let st = old(net).spec_tftp().spec_state();
            let ok = (st matches Some(t) && t.complete && !t.has_error);
            &&& !ok ==> (r matches Err(b) && b@ == error_bytes(
                MessageType::InitiateBootResponse,
                ErrorCode::SourceNotReady,
            ))
            &&& ok ==> (r matches Ok(b) && b@ == old(net).buffered().take(
                if old(net).buffered().len() < TFTP_CHUNK_BUF_SIZE {
                    old(net).buffered().len() as int
                } else {
                    TFTP_CHUNK_BUF_SIZE as int
                },
            ))
        }),
{
    if net.tftp_has_error() || !net.tftp_is_complete() {
        return Err(error_or_empty(MessageType::InitiateBootResponse, ErrorCode::SourceNotReady));
    }
    let mut toc_buf: Vec<u8> = Vec::new();
    let mut z: usize = 0;
    while z < TFTP_CHUNK_BUF_SIZE
        invariant
            z <= TFTP_CHUNK_BUF_SIZE,
            toc_buf@.len() == z,
        decreases TFTP_CHUNK_BUF_SIZE - z,
    {
        toc_buf.push(0);
        z = z + 1;
    }
    let toc_len = net.take_tftp_chunk(toc_buf.as_mut_slice());
    toc_buf.truncate(toc_len);
    Ok(toc_buf)
}

/// Blocking handling, last step: the TOC records fill the table; a
/// complete table keeps the lease and is answered with success (`Ok`),
/// anything else with `CorruptedData` (`Err`).
pub fn blocking_boot_finish(
    toc: &mut Toc,
    records: Option<&[Option<ImageRecord>]>,
    lease: DhcpResult,
    dhcp_result: &mut Option<DhcpResult>,
) -> (r: Result<Vec<u8>, Vec<u8>>)
    ensures
        ({
            let ok = match records {
                Some(recs) => leading_records(recs@, 8) == (if recs@.len() < 8 {
                    recs@.len() as int
                } else {
                    8
                }),
                None => false,
            };
            &&& ok ==> (r matches Ok(b) && b@ == seq![
                message_type_code(MessageType::InitiateBootResponse),
                status_code(Status::Success),
                0u8,
                0u8,
            ]) && *final(dhcp_result) == Some(lease)
            &&& !ok ==> (r matches Err(b) && b@ == error_bytes(
                MessageType::InitiateBootResponse,
                ErrorCode::CorruptedData,
            )) && *final(dhcp_result) == *old(dhcp_result)
            &&& records is None ==> final(toc).len() == 0 && final(toc).slots() == old(toc).slots()
            &&& records matches Some(recs) ==> records_loaded(*final(toc), *old(toc), recs@)
        }),
{
    let ok = match records {
        Some(recs) => toc.parse_records(recs),
        None => {
            toc.clear();
            false
        },
    };
    if !ok {
        return Err(error_or_empty(MessageType::InitiateBootResponse, ErrorCode::CorruptedData));
    }
    *dhcp_result = Some(lease);
    let b = crate::messages::InitiateBootResponse::new(Status::Success).as_bytes();
    assert(b@ =~= seq![
        message_type_code(MessageType::InitiateBootResponse),
        status_code(Status::Success),
        0u8,
        0u8,
    ]);
    Ok(b)
}

/// Where the boot source stands in the protocol.
#[derive(Debug, Clone, Copy, PartialEq, Eq, Structural)]
pub enum AppState {
    /// Waiting for InitiateBootRequest.
    Idle,
    /// DHCP is in progress. Polling until an address is obtained.
    DhcpInProgress,
    /// DHCP done, TFTP TOC download in progress.
    TftpTocInProgress,
    /// DHCP and TOC fetch completed. Ready to serve image requests.
    Ready,
    /// TFTP GET for image started; waiting for first data or an ack to serve.
    Streaming,
    /// ChunkAck received; polling for TFTP data to send the next chunk.
    ChunkPending,
}

/// What the mailbox side does with a request once it has been dispatched.
pub enum Dispatch {
    /// Answer the request with this error; nothing is sent.
    Reject(NetworkMboxError),
    /// The request succeeded; nothing is sent.
    Accepted,
    /// Start DHCP, then report the outcome with `dhcp_started`.
    StartDhcp,
    /// Send this response; the request's result is that of the send.
    Respond(Vec<u8>),
    /// Send this response, then answer the request with the error.
    RespondAndReject(Vec<u8>, NetworkMboxError),
    /// Send this acknowledgement of a download of the firmware ID; once it
    /// is sent, report it with `download_acknowledged`.
    AcknowledgeDownload(Vec<u8>, u8),
    /// Tear down the TFTP client (first flag) and the interface (second
    /// flag) in lwIP, send the response, and once it is sent report
    /// `finalized`.
    Finalize(Vec<u8>, bool, bool),
}

/// What the main loop does next for the current state.
pub enum Step {
    /// Nothing yet; poll again.
    Wait,
    /// Send this response.
    Respond(Vec<u8>),
    /// Set up the TFTP client in lwIP, then report with `tftp_init_done`.
    InitTftp,
    /// Issue a TFTP GET of the NUL-terminated file name from the server,
    /// then report with `tftp_get_done`.
    TftpGet(ServerAddr, Vec<u8>),
    /// Decode these TOC file bytes into image records, then report with
    /// `toc_parsed`.
    ParseToc(Vec<u8>),
    /// Send this chunk, then report with `chunk_sent`.
    SendChunk(Vec<u8>),
}

/// The main loop's work for a state.
#[derive(Debug, Clone, Copy, PartialEq, Eq, Structural)]
pub enum LoopAction {
    PollDhcp,
    PollToc,
    PollChunk,
    MarkReady,
    Finish,
    Nothing,
}

/// Everything the application keeps.
pub struct AppView {
    pub state: AppState,
    pub toc: Toc,
    pub boot_flags: BootFlags,
    pub active_firmware_id: u8,
    pub sequence_number: u16,
    pub transfer_offset: u32,
    pub max_chunk_size: usize,
    pub dhcp_result: Option<DhcpResult>,
    pub tftp_started: bool,
    pub pending_lease: Option<DhcpResult>,
    pub pending_chunk: Option<(u16, u32, bool)>,
    pub net: LwipState,
}

/// The boot-source application.
pub struct BootSourceApp {
    state: AppState,
    toc: Toc,
    boot_flags: BootFlags,
    active_firmware_id: u8,
    sequence_number: u16,
    transfer_offset: u32,
    max_chunk_size: usize,
    dhcp_result: Option<DhcpResult>,
    tftp_started: bool,
    pending_lease: Option<DhcpResult>,
    pending_chunk: Option<(u16, u32, bool)>,
    net: LwipState,
}

impl View for BootSourceApp {
    type V = AppView;

    closed spec fn view(&self) -> AppView {
        AppView {
            state: self.state,
            toc: self.toc,
            boot_flags: self.boot_flags,
            active_firmware_id: self.active_firmware_id,
            sequence_number: self.sequence_number,
            transfer_offset: self.transfer_offset,
            max_chunk_size: self.max_chunk_size,
            dhcp_result: self.dhcp_result,
            tftp_started: self.tftp_started,
            pending_lease: self.pending_lease,
            pending_chunk: self.pending_chunk,
            net: self.net,
        }
    }
}

/// The name of the boot file of a lease as a TFTP request: at most 127
/// bytes of it, then a NUL.
pub open spec fn lease_request_name(l: DhcpResult) -> Seq<u8> {
    let n = if l.boot_file_len < 127 {
        l.boot_file_len as int
    } else {
        127
    };
    l.boot_file@.take(n).push(0u8)
}

/// The server of a lease.
pub open spec fn lease_server(l: DhcpResult) -> ServerAddr {
    l.server_ip
}

/// The first entry with the active firmware ID has room for its NUL.
pub open spec fn active_name_fits(v: AppView) -> bool {
    forall|i: int|
        is_first_match(v.toc, v.active_firmware_id, i) ==> v.toc.slots()[i].filename_len
            < MAX_FILENAME_LEN
}

/// The file name of a table entry as a TFTP request: its name and the NUL
/// after it.
pub open spec fn entry_request_name(e: TocEntry) -> Seq<u8> {
    e.filename@.take(e.filename_len + 1)
}

/// `final_` is `old` with only the state changed.
pub open spec fn only_state(old_: AppView, final_: AppView, s: AppState) -> bool {
    final_ == AppView { state: s, ..old_ }
}

/// The response to an `ImageMetadataRequest`, as `handle_image_metadata`
/// gives it.
pub open spec fn metadata_answer(data: Seq<u8>, toc: Toc, b: Seq<u8>) -> bool {
    &&& data.len() < 4 ==> b == error_bytes(
        MessageType::ImageMetadataResponse,
        ErrorCode::InvalidParameters,
    )
    &&& data.len() >= 4 && no_match(toc, data[1]) ==> b == error_bytes(
        MessageType::ImageMetadataResponse,
        ErrorCode::ImageNotFound,
    )
    &&& data.len() >= 4 && !no_match(toc, data[1]) ==> exists|i: int|
        is_first_match(toc, data[1], i) && b == metadata_bytes(toc.slots()[i])
}

/// The `FinalizeAck` that reports success with no cleanup flags.
pub open spec fn finalize_ack_success_bytes() -> Seq<u8> {
    seq![message_type_code(MessageType::FinalizeAck), status_code(Status::Success), 0u8, 0u8]
        + spec_u32_to_le_bytes(0) + spec_u32_to_le_bytes(0)
}

/// What a `Finalize` request does.
pub open spec fn finalize_spec(v: AppView, data: Seq<u8>, d: Dispatch, w: AppView) -> bool {
    if data.len() < 8 {
        (d matches Dispatch::Finalize(b, false, false) && b@ == error_bytes(
            MessageType::FinalizeAck,
            ErrorCode::InvalidParameters,
        )) && w == v
    } else {
        (d matches Dispatch::Finalize(b, tftp, netif) && b@ == finalize_ack_success_bytes() && tftp == v.net.spec_tftp().spec_initialized() && netif
            == v.net.spec_initialized())
        && w.toc.len() == 0 && w.toc.slots() == v.toc.slots()
        && w.net.buffered() == Seq::<u8>::empty()
        && !w.net.spec_tftp().spec_initialized() && !w.net.spec_initialized()
        && w == AppView { toc: w.toc, net: w.net, ..v }
    }
}

/// What `dispatch` does with `data` in state `v`, leaving `w`.
pub open spec fn dispatch_spec(v: AppView, data: Seq<u8>, d: Dispatch, w: AppView) -> bool {
    let t = if data.len() > 0 {
        crate::messages::message_type_of(data[0])
    } else {
        None
    };
    if t is None {
        d == Dispatch::Reject(NetworkMboxError::InvalidArgument) && w == v
    } else if t == Some(MessageType::Finalize) {
        finalize_spec(v, data, d, w)
    } else if v.state == AppState::Idle && t == Some(MessageType::InitiateBootRequest) {
        if data.len() < 12 {
            d == Dispatch::Reject(NetworkMboxError::InvalidArgument) && w == v
        } else {
            d == Dispatch::StartDhcp && spec_u32_to_le_bytes(w.boot_flags.0) == data.subrange(8, 12)
                && w == AppView { boot_flags: w.boot_flags, ..v }
        }
    } else if v.state == AppState::Ready && t == Some(MessageType::ImageMetadataRequest) {
        (d matches Dispatch::Respond(b) && metadata_answer(data, v.toc, b@)) && w == v
    } else if v.state == AppState::Ready && t == Some(MessageType::ImageDownloadRequest) {
        if data.len() < 12 {
            (d matches Dispatch::RespondAndReject(b, e) && e == NetworkMboxError::InvalidArgument
                && b@ == error_bytes(MessageType::ImageChunk, ErrorCode::InvalidParameters)) && w
                == v
        } else if no_match(v.toc, data[1]) {
            (d matches Dispatch::RespondAndReject(b, e) && e == NetworkMboxError::InvalidArgument
                && b@ == error_bytes(MessageType::ImageChunk, ErrorCode::ImageNotFound)) && w == v
        } else {
            (d matches Dispatch::AcknowledgeDownload(b, id) && id == data[1] && b@ == chunk_header(
                0,
                0,
                0,
            ).spec_bytes()) && w == AppView { sequence_number: 0, transfer_offset: 0, ..v }
        }
    } else if v.state == AppState::Streaming && t == Some(MessageType::ChunkAck) {
        if data.len() < 12 {
            d == Dispatch::Reject(NetworkMboxError::InvalidArgument) && w == v
        } else {
            d == Dispatch::Accepted && only_state(v, w, AppState::ChunkPending)
        }
    } else {
        d == Dispatch::Reject(NetworkMboxError::InvalidArgument) && w == v
    }
}

/// `Finalize` is served in every state: once its acknowledgement has gone
/// out, the boot source is idle, its table is empty, no TFTP data is
/// buffered, the TFTP client and the interface are released, and the
/// transfer counters are cleared.
pub proof fn lemma_finalize_resets(v: AppView, data: Seq<u8>, d: Dispatch, w: AppView)
    requires
        data.len() >= 8,
        data[0] == message_type_code(MessageType::Finalize),
        dispatch_spec(v, data, d, w),
    ensures
        d is Finalize,
        ({
            let x = AppView {
                state: AppState::Idle,
                active_firmware_id: 0,
                sequence_number: 0,
                transfer_offset: 0,
                ..w
            };
            &&& x.toc.len() == 0
            &&& x.net.buffered() == Seq::<u8>::empty()
            &&& !x.net.spec_tftp().spec_initialized()
            &&& !x.net.spec_initialized()
        }),
{
}

/// An error response has the length of its response type, names the
/// response type in byte 0 and the error in byte 1 (where a success
/// response has its status), and is zero after that.
pub proof fn lemma_error_response_layout(t: MessageType, e: ErrorCode)
    requires
        error_response_len(t) is Some,
    ensures
        ({
            let b = error_bytes(t, e);
            &&& b.len() == (match t {
                MessageType::InitiateBootResponse => 4int,
                MessageType::ImageMetadataResponse => 52,
                _ => 12,
            })
            &&& b[0] == message_type_code(t)
            &&& b[1] == error_code_value(e)
            &&& forall|k: int| 2 <= k < b.len() ==> b[k] == 0
        }),
{
}

/// A metadata request that names a firmware of the table is answered with
/// success, the size of the first table entry for that firmware at byte 4
/// and its checksum at byte 8; one that names no firmware of the table is
/// answered `ImageNotFound`.
pub proof fn lemma_metadata_answer_fields(data: Seq<u8>, toc: Toc, b: Seq<u8>)
    requires
        metadata_answer(data, toc, b),
        data.len() >= 4,
    ensures
        b.len() == 52,
        b[0] == message_type_code(MessageType::ImageMetadataResponse),
        no_match(toc, data[1]) ==> b[1] == error_code_value(ErrorCode::ImageNotFound),
        !no_match(toc, data[1]) ==> b[1] == status_code(Status::Success) && exists|i: int|
            is_first_match(toc, data[1], i) && crate::messages::le32_at(b, 4) == toc.slots()[i].image_size
                && crate::messages::le32_at(b, 8) == toc.slots()[i].image_checksum,
{
    if !no_match(toc, data[1]) {
        let i = choose|i: int| is_first_match(toc, data[1], i) && b == metadata_bytes(toc.slots()[i]);
        let e = toc.slots()[i];
        crate::wire::lemma_le_round_trip(e.image_size, 0, 0, 0);
        crate::wire::lemma_le_round_trip(e.image_checksum, 0, 0, 0);
        assert(b.subrange(4, 8) =~= spec_u32_to_le_bytes(e.image_size));
        assert(b.subrange(8, 12) =~= spec_u32_to_le_bytes(e.image_checksum));
        assert(is_first_match(toc, data[1], i) && crate::messages::le32_at(b, 4) == e.image_size
            && crate::messages::le32_at(b, 8) == e.image_checksum);
    }
}

/// A framed chunk reports success and carries, in its header, the
/// sequence number at byte 2, the image offset at byte 4 and the payload
/// size at byte 8 that it was framed with.
pub proof fn lemma_chunk_header_fields(sequence_number: u16, offset: u32, chunk_size: u32)
    ensures
        ({
            let b = chunk_header(sequence_number, offset, chunk_size).spec_bytes();
            &&& b.len() == 12
            &&& b[0] == message_type_code(MessageType::ImageChunk)
            &&& b[1] == status_code(Status::Success)
            &&& crate::messages::le16_at(b, 2) == sequence_number
            &&& crate::messages::le32_at(b, 4) == offset
            &&& crate::messages::le32_at(b, 8) == chunk_size
        }),
{
    crate::messages::lemma_image_chunk_header_layout(chunk_header(sequence_number, offset, chunk_size));
}

/// An `InitiateBootRequest` received while idle starts DHCP and keeps the
/// boot flags that the request carries, and nothing else changes.
pub proof fn lemma_initiate_boot_keeps_flags(
    v: AppView,
    data: Seq<u8>,
    d: Dispatch,
    w: AppView,
    p: InitiateBootRequest,
)
    requires
        dispatch_spec(v, data, d, w),
        v.state == AppState::Idle,
        p.message_type == message_type_code(MessageType::InitiateBootRequest),
        data.len() >= 12,
        data.take(12) == p.spec_bytes(),
    ensures
        d == Dispatch::StartDhcp,
        w.boot_flags == p.flags,
        w == (AppView { boot_flags: p.flags, ..v }),
{
    crate::messages::lemma_initiate_boot_request_layout(p);
    lemma_message_type_round_trip(MessageType::InitiateBootRequest, data[0]);
    assert(data[0] == data.take(12)[0]);
    assert(data.subrange(8, 12) =~= data.take(12).subrange(8, 12));
    crate::wire::lemma_le_bytes_round_trip(data.subrange(8, 12), seq![0u8, 0u8]);
    crate::wire::lemma_le_round_trip(w.boot_flags.0, p.flags.0, 0, 0);
    assert(spec_u32_to_le_bytes(p.flags.0) == data.subrange(8, 12));
}

/// An accepted `ImageDownloadRequest` starts the image afresh: the
/// acknowledged firmware is the one requested, and the transfer counters
/// restart at sequence 0 and offset 0, whatever an earlier image left in
/// them; nothing else changes until the download is acknowledged.
pub proof fn lemma_download_restarts_transfer(v: AppView, data: Seq<u8>, d: Dispatch, w: AppView)
    requires
        dispatch_spec(v, data, d, w),
        d is AcknowledgeDownload,
    ensures
        data.len() >= 12,
        data[0] == message_type_code(MessageType::ImageDownloadRequest),
        v.state == AppState::Ready,
        d->AcknowledgeDownload_1 == data[1],
        w.sequence_number == 0,
        w.transfer_offset == 0,
        w.state == v.state,
        w.toc == v.toc,
        w.dhcp_result == v.dhcp_result,
{
    lemma_message_type_round_trip(MessageType::ImageDownloadRequest, data[0]);
}

/// A request that the current state does not serve is refused with
/// `InvalidArgument` and changes nothing.
pub proof fn lemma_out_of_state_refused(v: AppView, data: Seq<u8>, d: Dispatch, w: AppView)
    requires
        data.len() > 0,
        dispatch_spec(v, data, d, w),
        message_type_of(data[0]) matches Some(t) && t != MessageType::Finalize && !(v.state
            == AppState::Idle && t == MessageType::InitiateBootRequest) && !(v.state == AppState::Ready
            && (t == MessageType::ImageMetadataRequest || t == MessageType::ImageDownloadRequest))
            && !(v.state == AppState::Streaming && t == MessageType::ChunkAck),
    ensures
        d == Dispatch::Reject(NetworkMboxError::InvalidArgument),
        w == v,
{
}

impl BootSourceApp {
    pub closed spec fn wf(&self) -> bool {
        self.net.wf()
    }

    pub fn new(max_chunk_size: usize) -> (r: Self)
        ensures
            r.wf(),
            r@.state == AppState::Idle,
            r@.toc.len() == 0,
            r@.boot_flags == BootFlags(0),
            r@.active_firmware_id == 0,
            r@.sequence_number == 0,
            r@.transfer_offset == 0,
            r@.max_chunk_size == max_chunk_size,
            r@.dhcp_result is None,
            !r@.tftp_started,
            r@.pending_lease is None,
            r@.pending_chunk is None,
            r@.net.buffered() == Seq::<u8>::empty(),
            !r@.net.spec_initialized(),
    {
        BootSourceApp {
            state: AppState::Idle,
            toc: Toc::new(),
            boot_flags: BootFlags(0),
            active_firmware_id: 0,
            sequence_number: 0,
            transfer_offset: 0,
            max_chunk_size,
            dhcp_result: None,
            tftp_started: false,
            pending_lease: None,
            pending_chunk: None,
            net: LwipState::new(),
        }
    }

    pub fn state(&self) -> (s: AppState)
        ensures
            s == self@.state,
    {
        self.state
    }

    /// Routes a request by the application's state and the message type:
    /// `InitiateBootRequest` when idle, metadata and download requests when
    /// ready, `ChunkAck` while streaming, and `Finalize` in every state.
    /// Anything else is refused with `InvalidArgument` and changes nothing.
    pub fn dispatch(&mut self, data: &[u8]) -> (d: Dispatch)
        requires
            old(self).wf(),
        ensures
            final(self).wf(),
            dispatch_spec(old(self)@, data@, d, final(self)@),
    {
        let msg_type_byte = match crate::messages::peek_message_type(data) {
            Some(b) => b,
            None => return Dispatch::Reject(NetworkMboxError::InvalidArgument),
        };
        let msg_type = match MessageType::from_u8(msg_type_byte) {
            Some(mt) => mt,
            None => return Dispatch::Reject(NetworkMboxError::InvalidArgument),
        };
        match msg_type {
            MessageType::Finalize => {
                return self.handle_finalize(data);
            },
            _ => {},
        }
        match (self.state, msg_type) {
            (AppState::Idle, MessageType::InitiateBootRequest) => {
                match handle_initiate_boot_start(data) {
                    Ok(flags) => {
                        self.boot_flags = flags;
                        Dispatch::StartDhcp
                    },
                    Err(e) => Dispatch::Reject(e),
                }
            },
            (AppState::Ready, MessageType::ImageMetadataRequest) => {
                Dispatch::Respond(handle_image_metadata(data, &self.toc))
            },
            (AppState::Ready, MessageType::ImageDownloadRequest) => {
                match handle_image_download(data, &self.toc) {
                    Ok((fw_id, b)) => {
                        self.sequence_number = 0;
                        self.transfer_offset = 0;
                        Dispatch::AcknowledgeDownload(b, fw_id)
                    },
                    Err((e, b)) => Dispatch::RespondAndReject(b, e),
                }
            },
            (AppState::Streaming, MessageType::ChunkAck) => {
                match validate_chunk_ack(data) {
                    Ok(()) => {
                        self.state = AppState::ChunkPending;
                        Dispatch::Accepted
                    },
                    Err(e) => Dispatch::Reject(e),
                }
            },
            _ => Dispatch::Reject(NetworkMboxError::InvalidArgument),
        }
    }

    /// A request arrived in the mailbox SRAM: its bytes (at most 256) are
    /// unpacked and dispatched.
    pub fn request_received(&mut self, rx_buf: &[u32], dlen: usize) -> (d: Dispatch)
        requires
            old(self).wf(),
            rx_buf@.len() >= (request_len(dlen as int) + 3) / 4,
        ensures
            final(self).wf(),
            dispatch_spec(
                old(self)@,
                words_le(rx_buf@.take((request_len(dlen as int) + 3) / 4)).take(
                    request_len(dlen as int),
                ),
                d,
                final(self)@,
            ),
    {
        let data = request_bytes(rx_buf, dlen);
        self.dispatch(data.as_slice())
    }

    /// lwIP reported whether DHCP started for an accepted
    /// `InitiateBootRequest`; the request fails when it did not.
    pub fn dhcp_started(&mut self, ok: bool) -> (r: Result<(), NetworkMboxError>)
        requires
            old(self).wf(),
        ensures
            final(self).wf(),
            ok ==> r is Ok && only_state(old(self)@, final(self)@, AppState::DhcpInProgress),
            !ok ==> r == Err::<(), NetworkMboxError>(NetworkMboxError::Failed) && final(self)@
                == old(self)@,
    {
        if !ok {
            return Err(NetworkMboxError::Failed);
        }
        self.state = AppState::DhcpInProgress;
        Ok(())
    }

    /// The download acknowledgement went out: streaming of the firmware
    /// starts, with the TFTP GET still to be issued.
    pub fn download_acknowledged(&mut self, firmware_id: u8)
        requires
            old(self).wf(),
        ensures
            final(self).wf(),
            final(self)@ == (AppView {
                state: AppState::Streaming,
                active_firmware_id: firmware_id,
                tftp_started: false,
                ..old(self)@
            }),
    {
        self.active_firmware_id = firmware_id;
        self.tftp_started = false;
        self.state = AppState::Streaming;
    }

    /// The `FinalizeAck` went out: back to idle, with the transfer counters
    /// cleared.
    pub fn finalized(&mut self)
        requires
            old(self).wf(),
        ensures
            final(self).wf(),
            final(self)@ == (AppView {
                state: AppState::Idle,
                active_firmware_id: 0,
                sequence_number: 0,
                transfer_offset: 0,
                ..old(self)@
            }),
    {
        self.state = AppState::Idle;
        self.active_firmware_id = 0;
        self.sequence_number = 0;
        self.transfer_offset = 0;
    }

    /// The main loop's work in the current state; `seen_ready` is whether
    /// the loop has seen the ready state, after which idle ends the loop.
    pub fn loop_action(&self, seen_ready: bool) -> (a: LoopAction)
        ensures
            a == (match self@.state {
                AppState::DhcpInProgress => LoopAction::PollDhcp,
                AppState::TftpTocInProgress => LoopAction::PollToc,
                AppState::ChunkPending => LoopAction::PollChunk,
                AppState::Ready => LoopAction::MarkReady,
                AppState::Idle => if seen_ready {
                    LoopAction::Finish
                } else {
                    LoopAction::Nothing
                },
                _ => LoopAction::Nothing,
            }),
    {
        match self.state {
            AppState::DhcpInProgress => LoopAction::PollDhcp,
            AppState::TftpTocInProgress => LoopAction::PollToc,
            AppState::ChunkPending => LoopAction::PollChunk,
            AppState::Ready => LoopAction::MarkReady,
            AppState::Idle => if seen_ready {
                LoopAction::Finish
            } else {
                LoopAction::Nothing
            },
            _ => LoopAction::Nothing,
        }
    }

    /// How many received frames one poll may hand to lwIP: all of them
    /// (`None`) outside streaming; while streaming, one when the TFTP
    /// buffer has room for a block and none otherwise.
    pub fn poll_mode(&self) -> (m: Option<usize>)
        requires
            self.wf(),
        ensures
            (self@.state == AppState::Streaming || self@.state == AppState::ChunkPending) ==> m == Some(
                if TFTP_CHUNK_BUF_SIZE - self@.net.buffered().len() >= MIN_RX_SPACE {
                    1usize
                } else {
                    0usize
                },
            ),
            !(self@.state == AppState::Streaming || self@.state == AppState::ChunkPending) ==> m
                is None,
    {
        if self.state == AppState::ChunkPending || self.state == AppState::Streaming {
            let space = TFTP_CHUNK_BUF_SIZE - self.net.tftp_buffered_len();
            if space >= MIN_RX_SPACE {
                Some(1)
            } else {
                Some(0)
            }
        } else {
            None
        }
    }

    /// DHCP has an address; `lease` is what it leased, if anything could be
    /// read back. Without a lease the boot is refused.
    pub fn dhcp_address_obtained(&mut self, lease: Option<DhcpResult>) -> (s: Step)
        requires
            old(self).wf(),
        ensures
            final(self).wf(),
            lease is None ==> (s matches Step::Respond(b) && b@ == error_bytes(
                MessageType::InitiateBootResponse,
                ErrorCode::SourceNotReady,
            )) && only_state(old(self)@, final(self)@, AppState::Idle),
            lease is Some ==> s == Step::InitTftp && final(self)@ == (AppView {
                pending_lease: lease,
                ..old(self)@
            }),
    {
        match lease {
            Some(l) => {
                self.pending_lease = Some(l);
                Step::InitTftp
            },
            None => {
                self.state = AppState::Idle;
                Step::Respond(error_or_empty(MessageType::InitiateBootResponse, ErrorCode::SourceNotReady))
            },
        }
    }

    /// lwIP took the TFTP client (`accepted`) or not. When it did, the GET
    /// of the lease's boot file is set up.
    pub fn tftp_init_done(&mut self, accepted: bool) -> (s: Step)
        requires
            old(self).wf(),
            old(self)@.pending_lease is Some,
        ensures
            final(self).wf(),
            ({
                let v = old(self)@;
                let w = final(self)@;
                let l = v.pending_lease.unwrap();
                if !accepted {
                    (s matches Step::Respond(b) && b@ == error_bytes(
                        MessageType::InitiateBootResponse,
                        ErrorCode::SourceNotReady,
                    )) && w.state == AppState::Idle && w == AppView { state: w.state, net: w.net, ..v }
                        && w.net.spec_tftp().spec_state() == Some(crate::lwip::fresh_transfer())
                        && w.net.spec_tftp().spec_initialized() == v.net.spec_tftp().spec_initialized()
                        && w.net.buffered() == v.net.buffered()
                        && w.net.spec_netif() == v.net.spec_netif()
                        && w.net.spec_initialized() == v.net.spec_initialized()
                } else {
                    (s matches Step::TftpGet(server, name) && name@ == lease_request_name(l)
                        && server == lease_server(l)) && w == AppView { net: w.net, ..v }
                        && w.net.buffered() == Seq::<u8>::empty()
                        && w.net.spec_tftp().spec_initialized()
                        && w.net.spec_tftp().spec_state() == Some(crate::lwip::fresh_transfer())
                        && !w.net.spec_write_error() && !w.net.spec_server_done()
                        && w.net.spec_netif() == v.net.spec_netif()
                        && w.net.spec_initialized() == v.net.spec_initialized()
                }
            }),
    {
        let lease = self.pending_lease.unwrap();
        if self.net.init_tftp(accepted).is_err() {
            self.state = AppState::Idle;
            return Step::Respond(error_or_empty(MessageType::InitiateBootResponse, ErrorCode::SourceNotReady));
        }
        let fname = lease_request(&lease);
        match self.net.start_tftp_get(fname.as_slice()) {
            Ok(()) => Step::TftpGet(lease.server_ip, fname),
            Err(_) => {
                self.state = AppState::Idle;
                Step::Respond(error_or_empty(MessageType::InitiateBootResponse, ErrorCode::SourceNotReady))
            },
        }
    }

    /// lwIP took the TFTP GET (`accepted`) or refused it. For the TOC (while
    /// DHCP is in progress) the lease is kept and the TOC download starts;
    /// for an image (a chunk pending) streaming starts. A refusal closes the
    /// transfer and is answered `SourceNotReady`.
    pub fn tftp_get_done(&mut self, accepted: bool) -> (s: Step)
        requires
            old(self).wf(),
        ensures
            final(self).wf(),
            ({
                let v = old(self)@;
                let w = final(self)@;
                if v.state == AppState::DhcpInProgress {
                    if accepted {
                        s == Step::Wait && w == AppView {
                            state: AppState::TftpTocInProgress,
                            dhcp_result: v.pending_lease,
                            ..v
                        }
                    } else {
                        (s matches Step::Respond(b) && b@ == error_bytes(
                            MessageType::InitiateBootResponse,
                            ErrorCode::SourceNotReady,
                        )) && w == AppView { state: AppState::Idle, net: w.net, ..v }
                            && w.net.buffered() == v.net.buffered()
                    }
                } else if v.state == AppState::ChunkPending {
                    if accepted {
                        s == Step::Wait && w == AppView { tftp_started: true, ..v }
                    } else {
                        (s matches Step::Respond(b) && b@ == error_bytes(
                            MessageType::ImageChunk,
                            ErrorCode::SourceNotReady,
                        )) && w == AppView { state: AppState::Ready, net: w.net, ..v }
                            && w.net.buffered() == v.net.buffered()
                    }
                } else {
                    s == Step::Wait && w == v
                }
            }),
    {
        if self.state == AppState::DhcpInProgress {
            if accepted {
                self.dhcp_result = self.pending_lease;
                self.state = AppState::TftpTocInProgress;
                Step::Wait
            } else {
                self.net.tftp_get_refused();
                self.state = AppState::Idle;
                Step::Respond(error_or_empty(MessageType::InitiateBootResponse, ErrorCode::SourceNotReady))
            }
        } else if self.state == AppState::ChunkPending {
            if accepted {
                self.tftp_started = true;
                Step::Wait
            } else {
                self.net.tftp_get_refused();
                self.state = AppState::Ready;
                Step::Respond(error_or_empty(MessageType::ImageChunk, ErrorCode::SourceNotReady))
            }
        } else {
            Step::Wait
        }
    }

    /// The TOC download: a failed transfer refuses the boot; a finished one
    /// hands over the TOC file, at most a buffer's worth of it.
    pub fn poll_tftp_toc(&mut self) -> (s: Step)
        requires
            old(self).wf(),
        ensures
            final(self).wf(),
            ({
                let v = old(self)@;
                let w = final(self)@;
                let st = v.net.spec_tftp().spec_state();
                if st matches Some(t) && t.has_error {
                    (s matches Step::Respond(b) && b@ == error_bytes(
                        MessageType::InitiateBootResponse,
                        ErrorCode::SourceNotReady,
                    )) && only_state(v, w, AppState::Idle)
                } else if !(st matches Some(t) && t.complete) {
                    s == Step::Wait && w == v
                } else {
                    let n = if v.net.buffered().len() < TFTP_CHUNK_BUF_SIZE {
                        v.net.buffered().len() as int
                    } else {
                        TFTP_CHUNK_BUF_SIZE as int
                    };
                    (s matches Step::ParseToc(b) && b@ == v.net.buffered().take(n)) && w == AppView {
                        net: w.net,
                        ..v
                    } && w.net.buffered() == v.net.buffered().skip(n) && w.net.spec_tftp()
                        == v.net.spec_tftp()
                }
            }),
    {
        if self.net.tftp_has_error() {
            self.state = AppState::Idle;
            return Step::Respond(error_or_empty(MessageType::InitiateBootResponse, ErrorCode::SourceNotReady));
        }
        if !self.net.tftp_is_complete() {
            return Step::Wait;
        }
        let mut toc_buf: Vec<u8> = Vec::new();
        let mut z: usize = 0;
        while z < TFTP_CHUNK_BUF_SIZE
            invariant
                z <= TFTP_CHUNK_BUF_SIZE,
                toc_buf@.len() == z,
            decreases TFTP_CHUNK_BUF_SIZE - z,
        {
            toc_buf.push(0);
            z = z + 1;
        }
        let toc_len = self.net.take_tftp_chunk(toc_buf.as_mut_slice());
        toc_buf.truncate(toc_len);
        Step::ParseToc(toc_buf)
    }

    /// The image records decoded from the TOC file (`None` when its header
    /// is invalid) fill the table. A complete table readies the boot source
    /// and is answered with success; otherwise the boot is refused with
    /// `CorruptedData`.
    pub fn toc_parsed(&mut self, records: Option<&[Option<ImageRecord>]>) -> (b: Vec<u8>)
        requires
            old(self).wf(),
        ensures
            final(self).wf(),
            ({
                let v = old(self)@;
                let w = final(self)@;
                let ok = match records {
                    Some(recs) => leading_records(recs@, 8) == (if recs@.len() < 8 {
                        recs@.len() as int
                    } else {
                        8
                    }),
                    None => false,
                };
                &&& ok ==> b@ == seq![
                    message_type_code(MessageType::InitiateBootResponse),
                    status_code(Status::Success),
                    0u8,
                    0u8,
                ] && w.state == AppState::Ready
                &&& !ok ==> b@ == error_bytes(
                    MessageType::InitiateBootResponse,
                    ErrorCode::CorruptedData,
                ) && w.state == AppState::Idle
                &&& records is None ==> w.toc.len() == 0 && w.toc.slots() == v.toc.slots()
                &&& records matches Some(recs) ==> records_loaded(w.toc, v.toc, recs@)
                &&& w == AppView { state: w.state, toc: w.toc, ..v }
            }),
    {
        let ok = match records {
            Some(recs) => self.toc.parse_records(recs),
            None => {
                self.toc.clear();
                false
            },
        };
        if !ok {
            self.state = AppState::Idle;
            return error_or_empty(MessageType::InitiateBootResponse, ErrorCode::CorruptedData);
        }
        self.state = AppState::Ready;
        let resp = crate::messages::InitiateBootResponse::new(Status::Success);
        let b = resp.as_bytes();
        assert(b@ =~= seq![
            message_type_code(MessageType::InitiateBootResponse),
            status_code(Status::Success),
            0u8,
            0u8,
        ]);
        b
    }

    /// After a `ChunkAck`: the first poll of an image issues its TFTP GET
    /// (the file named by the first table entry with the firmware ID, from
    /// the lease's server); later polls wait for data and then frame the
    /// next chunk. Failures are answered on `ImageChunk` and return to ready.
    pub fn poll_chunk_data(&mut self) -> (s: Step)
        requires
            old(self).wf(),
            !old(self)@.tftp_started ==> active_name_fits(old(self)@),
        ensures
            final(self).wf(),
            ({
                let v = old(self)@;
                let w = final(self)@;
                if !v.tftp_started {
                    if no_match(v.toc, v.active_firmware_id) {
                        (s matches Step::Respond(b) && b@ == error_bytes(
                            MessageType::ImageChunk,
                            ErrorCode::ImageNotFound,
                        )) && only_state(v, w, AppState::Ready)
                    } else if v.dhcp_result is None {
                        (s matches Step::Respond(b) && b@ == error_bytes(
                            MessageType::ImageChunk,
                            ErrorCode::SourceNotReady,
                        )) && only_state(v, w, AppState::Ready)
                    } else {
                        let l = v.dhcp_result.unwrap();
                        let ok = v.net.spec_tftp().spec_initialized() && v.net.spec_tftp().spec_state() is Some;
                        &&& ok ==> exists|i: int|
                            is_first_match(v.toc, v.active_firmware_id, i) && (s matches Step::TftpGet(
                                server,
                                name,
                            ) && server == lease_server(l) && name@ == entry_request_name(
                                v.toc.slots()[i],
                            ))
                        &&& ok ==> w == AppView { net: w.net, ..v } && w.net.buffered()
                            == Seq::<u8>::empty()
                            && w.net.spec_tftp().spec_state() == Some(crate::lwip::fresh_transfer())
                        &&& !ok ==> (s matches Step::Respond(b) && b@ == error_bytes(
                            MessageType::ImageChunk,
                            ErrorCode::SourceNotReady,
                        )) && w == AppView { state: AppState::Ready, net: w.net, ..v }
                            && w.net.buffered() == Seq::<u8>::empty()
                            && w.net.spec_tftp().spec_state() == v.net.spec_tftp().spec_state()
                        &&& !w.net.spec_write_error() && !w.net.spec_server_done()
                        &&& w.net.spec_tftp().spec_initialized() == v.net.spec_tftp().spec_initialized()
                        &&& w.net.spec_netif() == v.net.spec_netif()
                        &&& w.net.spec_initialized() == v.net.spec_initialized()
                    }
                } else {
                    let st = v.net.spec_tftp().spec_state();
                    let complete = st matches Some(t) && t.complete;
                    let failed = st matches Some(t) && t.has_error;
                    if v.net.buffered().len() == 0 && !complete {
                        s == Step::Wait && w == v
                    } else if failed {
                        (s matches Step::Respond(b) && b@ == error_bytes(
                            MessageType::ImageChunk,
                            ErrorCode::CorruptedData,
                        )) && only_state(v, w, AppState::Ready)
                    } else {
                        let n = chunk_take(v.net.buffered().len() as int, v.max_chunk_size as int);
                        let last = complete && n == v.net.buffered().len();
                        &&& s matches Step::SendChunk(b) && b@ == chunk_header(
                            v.sequence_number,
                            v.transfer_offset,
                            n as u32,
                        ).spec_bytes() + v.net.buffered().take(n)
                        &&& w.pending_chunk == Some(
                            (
                                (if v.sequence_number == u16::MAX {
                                    0
                                } else {
                                    (v.sequence_number + 1) as u16
                                }),
                                ((v.transfer_offset + n) % 0x1_0000_0000) as u32,
                                last,
                            ),
                        )
                        &&& w.net.buffered() == (if last {
                            Seq::<u8>::empty()
                        } else {
                            v.net.buffered().skip(n)
                        })
                        &&& w == AppView { pending_chunk: w.pending_chunk, net: w.net, ..v }
                    }
                }
            }),
    {
        if !self.tftp_started {
            let entry = match self.toc.find(self.active_firmware_id) {
                Some(e) => *e,
                None => {
                    self.state = AppState::Ready;
                    return Step::Respond(error_or_empty(MessageType::ImageChunk, ErrorCode::ImageNotFound));
                },
            };
            let ghost idx = choose|i: int|
                0 <= i < self.toc.len() && entry == self.toc.slots()[i]
                    && self.toc.slots()[i].firmware_id == self.active_firmware_id && forall|j: int|
                    0 <= j < i ==> self.toc.slots()[j].firmware_id != self.active_firmware_id;
            assert(is_first_match(self.toc, self.active_firmware_id, idx));
            let lease = match self.dhcp_result {
                Some(d) => d,
                None => {
                    self.state = AppState::Ready;
                    return Step::Respond(error_or_empty(MessageType::ImageChunk, ErrorCode::SourceNotReady));
                },
            };
            let fname_len = entry.filename_len + 1;
            let mut fname: Vec<u8> = Vec::new();
            let mut i: usize = 0;
            while i < fname_len
                invariant
                    fname_len <= 64,
                    entry.filename@.len() == 64,
                    i <= fname_len,
                    fname@ == entry.filename@.take(i as int),
                decreases fname_len - i,
            {
                fname.push(entry.filename[i]);
                i = i + 1;
                assert(fname@ =~= entry.filename@.take(i as int));
            }
            assert(fname@ =~= entry_request_name(self.toc.slots()[idx]));
            return match self.net.start_tftp_get(fname.as_slice()) {
                Ok(()) => Step::TftpGet(lease.server_ip, fname),
                Err(_) => {
                    self.state = AppState::Ready;
                    Step::Respond(error_or_empty(MessageType::ImageChunk, ErrorCode::SourceNotReady))
                },
            };
        }
        if self.net.tftp_buffered_len() == 0 && !self.net.tftp_is_complete() {
            return Step::Wait;
        }
        match send_next_chunk(&mut self.net, self.max_chunk_size, self.sequence_number, self.transfer_offset) {
            Ok(c) => {
                self.pending_chunk = Some((c.next_sequence, c.next_offset, c.is_last));
                Step::SendChunk(c.bytes)
            },
            Err((_, b)) => {
                self.state = AppState::Ready;
                Step::Respond(b)
            },
        }
    }

    /// The framed chunk went out (`sent`) or could not be sent. Once sent,
    /// the sequence number and offset move on, and the transfer goes back
    /// to streaming, or to ready after the last chunk; a failed send
    /// returns to ready.
    pub fn chunk_sent(&mut self, sent: bool)
        requires
            old(self).wf(),
        ensures
            final(self).wf(),
            ({
                let v = old(self)@;
                let w = final(self)@;
                match v.pending_chunk {
                    Some((next_seq, next_off, last)) => if sent {
                        w == AppView {
                            state: if last {
                                AppState::Ready
                            } else {
                                AppState::Streaming
                            },
                            sequence_number: next_seq,
                            transfer_offset: next_off,
                            pending_chunk: None,
                            ..v
                        }
                    } else {
                        w == AppView { state: AppState::Ready, pending_chunk: None, ..v }
                    },
                    None => w == v,
                }
            }),
    {
        if let Some((next_seq, next_off, last)) = self.pending_chunk {
            self.pending_chunk = None;
            if !sent {
                self.state = AppState::Ready;
                return ;
            }
            self.sequence_number = next_seq;
            self.transfer_offset = next_off;
            self.state = if last {
                AppState::Ready
            } else {
                AppState::Streaming
            };
        }
    }

    /// Whether `poll_chunk_data` may run: an image whose name fills the
    /// whole name field has no room for the NUL its request needs.
    pub fn chunk_poll_allowed(&self) -> (r: bool)
        ensures
            r == (self@.tftp_started || active_name_fits(self@)),
    {
        if self.tftp_started {
            return true;
        }
        match self.toc.find(self.active_firmware_id) {
            Some(e) => {
                proof {
                    let i = choose|i: int|
                        0 <= i < self.toc.len() && *e == self.toc.slots()[i]
                            && self.toc.slots()[i].firmware_id == self.active_firmware_id
                            && forall|j: int|
                            0 <= j < i ==> self.toc.slots()[j].firmware_id != self.active_firmware_id;
                    assert forall|k: int| is_first_match(self.toc, self.active_firmware_id, k) implies k == i by {
                        if k < i {
                            assert(self.toc.slots()[k].firmware_id != self.active_firmware_id);
                        } else if k > i {
                            assert(self.toc.slots()[i].firmware_id != self.active_firmware_id);
                        }
                    }
                    assert(is_first_match(self.toc, self.active_firmware_id, i));
                    assert(self@.toc == self.toc && self@.active_firmware_id == self.active_firmware_id);
                    if e.filename_len < MAX_FILENAME_LEN {
                        assert forall|k: int| is_first_match(self.toc, self.active_firmware_id, k)
                            implies self.toc.slots()[k].filename_len < MAX_FILENAME_LEN by {}
                    }
                }
                e.filename_len < MAX_FILENAME_LEN
            },
            None => {
                proof {
                    assert(self@.toc == self.toc && self@.active_firmware_id == self.active_firmware_id);
                    assert forall|k: int| is_first_match(self.toc, self.active_firmware_id, k)
                        implies self.toc.slots()[k].filename_len < MAX_FILENAME_LEN by {
                        assert(self.toc.slots()[k].firmware_id != self.active_firmware_id);
                    }
                }
                true
            },
        }
    }

    /// Whether a data block of `len` bytes can be counted without the byte
    /// count overflowing.
    pub fn tftp_block_fits(&self, len: usize) -> (r: bool)
        ensures
            r == (self@.net.spec_tftp().spec_state() matches Some(t) ==> t.bytes_received + len
                <= usize::MAX),
    {
        self.net.tftp_block_fits(len)
    }

    /// lwIP handed the TFTP client a data block; returns lwIP's status.
    pub fn tftp_block(&mut self, data: &[u8]) -> (status: i32)
        requires
            old(self).wf(),
            old(self)@.net.spec_tftp().spec_state() matches Some(t) ==> t.bytes_received + data@.len()
                <= usize::MAX,
        ensures
            final(self).wf(),
            final(self)@ == (AppView { net: final(self)@.net, ..old(self)@ }),
            old(self)@.net.spec_tftp().spec_state() is Some ==> final(self)@.net.buffered()
                == crate::network::buffer_after_write(old(self)@.net.buffered(), data@),
            status == (if old(self)@.net.spec_tftp().spec_state() is Some && old(self)@.net.buffered().len()
                + data@.len() <= TFTP_CHUNK_BUF_SIZE {
                0i32
            } else {
                -1i32
            }),
    {
        self.net.deliver_block(data)
    }

    /// The TFTP server reported an error.
    pub fn tftp_server_error(&mut self)
        requires
            old(self).wf(),
        ensures
            final(self).wf(),
            final(self)@ == (AppView { net: final(self)@.net, ..old(self)@ }),
            final(self)@.net.buffered() == old(self)@.net.buffered(),
            final(self)@.net.spec_tftp().spec_state() == (match old(self)@.net.spec_tftp().spec_state() {
                Some(t) => Some(crate::lwip::TftpState { has_error: true, complete: true, ..t }),
                None => None,
            }),
    {
        self.net.deliver_error();
    }

    /// lwIP closed the TFTP transfer.
    pub fn tftp_closed(&mut self)
        requires
            old(self).wf(),
        ensures
            final(self).wf(),
            final(self)@ == (AppView { net: final(self)@.net, ..old(self)@ }),
            final(self)@.net.buffered() == old(self)@.net.buffered(),
            final(self)@.net.spec_tftp().spec_state() == (match old(self)@.net.spec_tftp().spec_state() {
                Some(t) => Some(crate::lwip::TftpState { complete: true, ..t }),
                None => None,
            }),
    {
        self.net.tftp_closed();
    }

    /// Whether bringing the network up needs lwIP: only the first time.
    pub fn network_init_needed(&self) -> (r: bool)
        ensures
            r == !self@.net.spec_initialized(),
    {
        self.net.init_needed()
    }

    /// lwIP was brought up and took the interface (`netif_ok`) or not.
    pub fn network_initialized(&mut self, netif_ok: bool) -> (r: Result<(), crate::network::NetworkError>)
        requires
            old(self).wf(),
        ensures
            final(self).wf(),
            r == (if netif_ok {
                Ok::<(), crate::network::NetworkError>(())
            } else {
                Err(crate::network::NetworkError::InitFailed)
            }),
            final(self)@ == (AppView { net: final(self)@.net, ..old(self)@ }),
            final(self)@.net.spec_initialized() == (old(self)@.net.spec_initialized() || netif_ok),
    {
        self.net.finish_init(netif_ok)
    }

    /// Whether the main loop polls the interface at all.
    pub fn network_up(&self) -> (r: bool)
        ensures
            r == self@.net.spec_initialized(),
    {
        self.net.poll()
    }

    /// `Finalize`: the table is cleared and the TFTP client and interface
    /// released, and `FinalizeAck` goes out; a request too short to be one
    /// is answered `InvalidParameters` and releases nothing.
    fn handle_finalize(&mut self, data: &[u8]) -> (d: Dispatch)
        requires
            old(self).wf(),
        ensures
            final(self).wf(),
            finalize_spec(old(self)@, data@, d, final(self)@),
    {
        if crate::messages::parse_fixed::<FinalizeRequest>(data).is_none() {
            let b = match error_response(MessageType::FinalizeAck, ErrorCode::InvalidParameters) {
                Ok(b) => b,
                Err(_) => Vec::new(),
            };
            return Dispatch::Finalize(b, false, false);
        }
        self.toc.clear();
        let tftp = self.net.cleanup_tftp();
        let netif = self.net.shutdown();
        let resp = crate::messages::FinalizeAck::new(Status::Success, crate::messages::CleanupFlags(0));
        let b = resp.as_bytes();
        assert(b@ =~= finalize_ack_success_bytes());
        assert(self@.toc.len() == 0);
        assert(self@.net.buffered() == Seq::<u8>::empty());
        assert(!self@.net.spec_tftp().spec_initialized());
        assert(tftp == old(self)@.net.spec_tftp().spec_initialized());
        assert(netif == old(self)@.net.spec_initialized());
        assert(self@ == AppView { toc: self@.toc, net: self@.net, ..old(self)@ });
        Dispatch::Finalize(b, tftp, netif)
    }
}

} // verus!
