use lib::messages::{
    peek_message_type, parse_fixed, BootFlags, ChunkAck, ChunkAckFlags, CleanupFlags, ErrorCode,
    FinalizeAck, FinalizeRequest, ImageChunk, ImageChunkHeader, ImageDownloadRequest,
    ImageMetadataRequest, ImageMetadataResponse, InitiateBootRequest, InitiateBootResponse,
    MessageType, Packet, Status, FIRMWARE_ID_CALIPTRA_FMC_RT, FIRMWARE_ID_MCU_RT,
    FIRMWARE_ID_SOC_MANIFEST,
};

// -----------------------------------------------------------------------
// Enum round-trip tests
// -----------------------------------------------------------------------

#[test]
fn message_type_round_trip() {
    let variants = [
        (0x01, MessageType::InitiateBootRequest),
        (0x02, MessageType::ImageMetadataRequest),
        (0x03, MessageType::ImageDownloadRequest),
        (0x04, MessageType::ChunkAck),
        (0x05, MessageType::Finalize),
        (0x81, MessageType::InitiateBootResponse),
        (0x82, MessageType::ImageMetadataResponse),
        (0x83, MessageType::ImageChunk),
        (0x85, MessageType::FinalizeAck),
    ];
    for (raw, expected) in variants {
        assert_eq!(MessageType::from_u8(raw), Some(expected));
        assert_eq!(expected.as_u8(), raw);
    }
}

#[test]
fn message_type_invalid() {
    assert_eq!(MessageType::from_u8(0x00), None);
    assert_eq!(MessageType::from_u8(0x06), None);
    assert_eq!(MessageType::from_u8(0x84), None);
    assert_eq!(MessageType::from_u8(0xFF), None);
}

#[test]
fn status_round_trip() {
    assert_eq!(Status::from_u8(0x00), Some(Status::Success));
    assert_eq!(Status::from_u8(0x01), Some(Status::InProgress));
    assert_eq!(Status::Success.as_u8(), 0x00);
    assert_eq!(Status::InProgress.as_u8(), 0x01);
    assert_eq!(Status::from_u8(0x02), None);
}

#[test]
fn error_code_round_trip() {
    let variants = [
        (0x01, ErrorCode::InvalidMessageType),
        (0x02, ErrorCode::InvalidFirmwareId),
        (0x03, ErrorCode::ImageNotFound),
        (0x04, ErrorCode::ChecksumMismatch),
        (0x05, ErrorCode::TransferTimeout),
        (0x06, ErrorCode::SourceNotReady),
        (0x07, ErrorCode::InvalidParameters),
        (0x08, ErrorCode::CorruptedData),
        (0x09, ErrorCode::InsufficientSpace),
        (0x0A, ErrorCode::ChecksumVerificationFailed),
        (0x0B, ErrorCode::FlashWriteFailed),
        (0x0C, ErrorCode::FlashStagingNotAvailable),
        (0x0D, ErrorCode::FlashCommitFailed),
        (0x0E, ErrorCode::FlashVerificationFailed),
        (0xFF, ErrorCode::Unknown),
    ];
    for (raw, expected) in variants {
        assert_eq!(ErrorCode::from_u8(raw), Some(expected));
        assert_eq!(expected.as_u8(), raw);
    }
    assert_eq!(ErrorCode::from_u8(0x00), None);
    assert_eq!(ErrorCode::from_u8(0x10), None);
}

// -----------------------------------------------------------------------
// Bitfield tests
// -----------------------------------------------------------------------

#[test]
fn boot_flags_bitfield() {
    let mut flags = BootFlags(0);
    assert!(!flags.flash_writeback());
    assert!(!flags.flash_commit_policy());

    flags.set_flash_writeback(true);
    assert!(flags.flash_writeback());
    assert!(!flags.flash_commit_policy());

    flags.set_flash_commit_policy(true);
    assert!(flags.flash_writeback());
    assert!(flags.flash_commit_policy());
    assert_eq!(flags.0, 0b11);
}

#[test]
fn chunk_ack_flags_bitfield() {
    let mut flags = ChunkAckFlags(0);
    assert!(!flags.ready_for_next());
    assert!(!flags.error_detected());

    flags.set_ready_for_next(true);
    assert!(flags.ready_for_next());

    flags.set_error_detected(true);
    assert!(flags.error_detected());
    assert_eq!(flags.0, 0b11);
}

#[test]
fn cleanup_flags_bitfield() {
    let mut flags = CleanupFlags(0);
    assert!(!flags.clear_toc());
    assert!(!flags.reset_connection());

    flags.set_clear_toc(true);
    assert!(flags.clear_toc());

    flags.set_reset_connection(true);
    assert!(flags.reset_connection());
    assert_eq!(flags.0, 0b11);
}

// -----------------------------------------------------------------------
// Packet layout size tests
// -----------------------------------------------------------------------

#[test]
fn packet_sizes() {
    assert_eq!(InitiateBootRequest::SIZE, 12);
    assert_eq!(InitiateBootResponse::SIZE, 4);
    assert_eq!(ImageMetadataRequest::SIZE, 4);
    assert_eq!(ImageMetadataResponse::SIZE, 52);
    assert_eq!(ImageDownloadRequest::SIZE, 12);
    assert_eq!(ImageChunkHeader::SIZE, 12);
    assert_eq!(ChunkAck::SIZE, 12);
    assert_eq!(FinalizeRequest::SIZE, 8);
    assert_eq!(FinalizeAck::SIZE, 12);
}

// -----------------------------------------------------------------------
// Packet construction and serialization tests
// -----------------------------------------------------------------------

#[test]
fn initiate_boot_request_serialization() {
    let mut flags = BootFlags(0);
    flags.set_flash_writeback(true);
    let pkt = InitiateBootRequest::new(1, flags);

    assert_eq!(pkt.message_type, MessageType::InitiateBootRequest.as_u8());
    assert_eq!(pkt.protocol_version, 1);
    assert!(pkt.flags.flash_writeback());
    assert!(!pkt.flags.flash_commit_policy());

    let bytes = pkt.as_bytes();
    assert_eq!(bytes[0], 0x01); // message type
    assert_eq!(bytes[1..4], [0, 0, 0]); // reserved
    assert_eq!(u32::from_le_bytes(bytes[4..8].try_into().unwrap()), 1); // version
    assert_eq!(bytes[8], 0x01); // flags bit 0 set
}

#[test]
fn initiate_boot_response_serialization() {
    let pkt = InitiateBootResponse::new(Status::Success);

    assert_eq!(pkt.message_type, MessageType::InitiateBootResponse.as_u8());
    assert_eq!(pkt.status, 0x00);

    let bytes = pkt.as_bytes();
    assert_eq!(bytes[0], 0x81);
    assert_eq!(bytes[1], 0x00);
}

#[test]
fn image_metadata_request_serialization() {
    let pkt = ImageMetadataRequest::new(FIRMWARE_ID_MCU_RT);

    assert_eq!(pkt.message_type, MessageType::ImageMetadataRequest.as_u8());
    assert_eq!(pkt.firmware_id, 0x02);

    let bytes = pkt.as_bytes();
    assert_eq!(bytes[0], 0x02);
    assert_eq!(bytes[1], 0x02);
}

#[test]
fn image_metadata_response_success() {
    let checksum = [0xAB; 32];
    let pkt = ImageMetadataResponse::new(4096, checksum, 3, ImageMetadataResponse::FLAG_SIGNED);

    assert_eq!(pkt.message_type, MessageType::ImageMetadataResponse.as_u8());
    assert_eq!(pkt.status, Status::Success.as_u8());
    assert_eq!(pkt.image_size, 4096);
    assert_eq!(pkt.checksum, [0xAB; 32]);
    assert_eq!(pkt.version, 3);
    assert_eq!(pkt.flags, ImageMetadataResponse::FLAG_SIGNED);
}

#[test]
fn image_metadata_response_error() {
    let pkt = ImageMetadataResponse::error(ErrorCode::ImageNotFound);

    assert_eq!(pkt.status, ErrorCode::ImageNotFound.as_u8());
    assert_eq!(pkt.image_size, 0);
}

#[test]
fn image_download_request_serialization() {
    let pkt = ImageDownloadRequest::new(FIRMWARE_ID_SOC_MANIFEST);

    assert_eq!(pkt.message_type, MessageType::ImageDownloadRequest.as_u8());
    assert_eq!(pkt.firmware_id, 0x01);
}

#[test]
fn chunk_ack_serialization() {
    let mut flags = ChunkAckFlags(0);
    flags.set_ready_for_next(true);
    let pkt = ChunkAck::new(FIRMWARE_ID_CALIPTRA_FMC_RT, 42, flags);

    assert_eq!(pkt.message_type, MessageType::ChunkAck.as_u8());
    assert_eq!(pkt.firmware_id, 0x00);
    assert_eq!(pkt.sequence_number, 42);
    assert!(pkt.flags.ready_for_next());
    assert!(!pkt.flags.error_detected());
}

#[test]
fn finalize_request_success() {
    let pkt = FinalizeRequest::success();

    assert_eq!(pkt.message_type, MessageType::Finalize.as_u8());
    assert_eq!(pkt.status, Status::Success.as_u8());
    assert_eq!(pkt.error_code, 0);
}

#[test]
fn finalize_request_error() {
    let pkt = FinalizeRequest::error(ErrorCode::FlashCommitFailed, 0x1234);

    assert_eq!(pkt.status, ErrorCode::FlashCommitFailed.as_u8());
    assert_eq!(pkt.error_code, 0x1234);
}

#[test]
fn finalize_ack_serialization() {
    let mut flags = CleanupFlags(0);
    flags.set_clear_toc(true);
    flags.set_reset_connection(true);
    let pkt = FinalizeAck::new(Status::Success, flags);

    assert_eq!(pkt.message_type, MessageType::FinalizeAck.as_u8());
    assert_eq!(pkt.status, 0x00);
    assert!(pkt.cleanup_flags.clear_toc());
    assert!(pkt.cleanup_flags.reset_connection());
}

// -----------------------------------------------------------------------
// Image chunk header variable-length tests
// -----------------------------------------------------------------------

#[test]
fn image_chunk_header_new() {
    let hdr = ImageChunkHeader::new(5, 1024, 512);

    assert_eq!(hdr.message_type, MessageType::ImageChunk.as_u8());
    assert_eq!(hdr.status, Status::Success.as_u8());
    assert_eq!(hdr.sequence_number, 5);
    assert_eq!(hdr.offset, 1024);
    assert_eq!(hdr.chunk_size, 512);
    assert_eq!(hdr.total_size(), ImageChunkHeader::SIZE + 512);
}

#[test]
fn image_chunk_header_error() {
    let hdr = ImageChunkHeader::error(ErrorCode::TransferTimeout);

    assert_eq!(hdr.status, ErrorCode::TransferTimeout.as_u8());
    assert_eq!(hdr.chunk_size, 0);
}

#[test]
fn image_chunk_write_and_parse() {
    let payload = [0xDE, 0xAD, 0xBE, 0xEF];
    let hdr = ImageChunkHeader::new(1, 0, payload.len() as u32);

    let mut buf = [0u8; 64];
    let written = hdr.write_to_buf(&payload, &mut buf).unwrap();
    assert_eq!(written, ImageChunkHeader::SIZE + 4);

    let (parsed_hdr, parsed_payload) = ImageChunkHeader::parse_from(&buf[..written]).unwrap();
    assert_eq!(parsed_hdr.sequence_number, 1);
    assert_eq!(parsed_hdr.offset, 0);
    assert_eq!(parsed_hdr.chunk_size, 4);
    assert_eq!(parsed_payload, &[0xDE, 0xAD, 0xBE, 0xEF]);
}

#[test]
fn image_chunk_write_buf_too_small() {
    let payload = [0u8; 16];
    let hdr = ImageChunkHeader::new(0, 0, payload.len() as u32);

    let mut buf = [0u8; 4]; // way too small
    assert!(hdr.write_to_buf(&payload, &mut buf).is_none());
}

#[test]
fn image_chunk_parse_buf_too_small_for_header() {
    let buf = [0u8; 4];
    assert!(ImageChunkHeader::parse_from(&buf).is_none());
}

#[test]
fn image_chunk_parse_buf_too_small_for_payload() {
    let hdr = ImageChunkHeader::new(0, 0, 100);
    let mut buf = [0u8; ImageChunkHeader::SIZE];
    buf[..ImageChunkHeader::SIZE].copy_from_slice(&hdr.as_bytes());
    // Header says chunk_size=100 but only 0 bytes follow
    assert!(ImageChunkHeader::parse_from(&buf).is_none());
}

// -----------------------------------------------------------------------
// ImageChunk tests
// -----------------------------------------------------------------------

#[test]
fn image_chunk_dst_parse() {
    let payload = [0xDE, 0xAD, 0xBE, 0xEF];
    let hdr = ImageChunkHeader::new(3, 256, payload.len() as u32);

    let mut buf = [0u8; 64];
    hdr.write_to_buf(&payload, &mut buf).unwrap();

    let chunk = ImageChunk::parse_from(&buf).unwrap();
    assert_eq!(chunk.header.message_type, MessageType::ImageChunk.as_u8());
    assert_eq!(chunk.header.status, Status::Success.as_u8());
    assert_eq!(chunk.header.sequence_number, 3);
    assert_eq!(chunk.header.offset, 256);
    assert_eq!(chunk.header.chunk_size, 4);
    assert_eq!(chunk.payload(), &[0xDE, 0xAD, 0xBE, 0xEF]);
}

#[test]
fn image_chunk_dst_zero_payload() {
    let hdr = ImageChunkHeader::new(0, 0, 0);
    let buf = hdr.as_bytes();

    let chunk = ImageChunk::parse_from(&buf).unwrap();
    assert_eq!(chunk.header.chunk_size, 0);
    assert!(chunk.payload().is_empty());
}

#[test]
fn image_chunk_dst_borrows_from_buffer() {
    // The payload is borrowed from the buffer, not copied.
    let payload = [1u8, 2, 3, 4, 5, 6, 7, 8];
    let hdr = ImageChunkHeader::new(0, 0, payload.len() as u32);
    let mut buf = [0u8; 64];
    hdr.write_to_buf(&payload, &mut buf).unwrap();

    let chunk = ImageChunk::parse_from(&buf).unwrap();
    // The payload data should match what's in the buffer
    assert_eq!(chunk.payload(), &payload);
    // And it should point into the same buffer
    let payload_ptr = chunk.payload().as_ptr();
    let buf_data_ptr = buf[ImageChunkHeader::SIZE..].as_ptr();
    assert_eq!(payload_ptr, buf_data_ptr);
}

#[test]
fn image_chunk_dst_buf_too_small_for_header() {
    let buf = [0u8; 4];
    assert!(ImageChunk::parse_from(&buf).is_none());
}

#[test]
fn image_chunk_dst_buf_too_small_for_payload() {
    let hdr = ImageChunkHeader::new(0, 0, 100);
    let buf = hdr.as_bytes();
    // Only header bytes, no payload
    assert!(ImageChunk::parse_from(&buf).is_none());
}

#[test]
fn image_chunk_dst_is_last_chunk() {
    let max_chunk_size = 512;
    let payload = [0u8; 256];
    let hdr = ImageChunkHeader::new(0, 0, payload.len() as u32);
    let mut buf = [0u8; 512];
    hdr.write_to_buf(&payload, &mut buf).unwrap();

    let chunk = ImageChunk::parse_from(&buf).unwrap();
    assert!(chunk.is_last_chunk(max_chunk_size));

    // Full-sized chunk is NOT the last
    let full_payload = [0u8; 512];
    let hdr = ImageChunkHeader::new(0, 0, full_payload.len() as u32);
    let mut buf = [0u8; 1024];
    hdr.write_to_buf(&full_payload, &mut buf).unwrap();

    let chunk = ImageChunk::parse_from(&buf).unwrap();
    assert!(!chunk.is_last_chunk(max_chunk_size));
}

// -----------------------------------------------------------------------
// Parsing helpers
// -----------------------------------------------------------------------

#[test]
fn peek_message_type_works() {
    let pkt = InitiateBootRequest::new(1, BootFlags(0));
    let bytes = pkt.as_bytes();
    assert_eq!(peek_message_type(&bytes), Some(0x01));
}

#[test]
fn peek_message_type_empty() {
    assert_eq!(peek_message_type(&[]), None);
}

#[test]
fn parse_fixed_works() {
    let pkt = ImageMetadataRequest::new(FIRMWARE_ID_CALIPTRA_FMC_RT);
    let bytes = pkt.as_bytes();

    let parsed: ImageMetadataRequest = parse_fixed(&bytes).unwrap();
    assert_eq!(
        parsed.message_type,
        MessageType::ImageMetadataRequest.as_u8()
    );
    assert_eq!(parsed.firmware_id, FIRMWARE_ID_CALIPTRA_FMC_RT);
}

#[test]
fn parse_fixed_too_short() {
    let buf = [0u8; 2];
    assert!(parse_fixed::<ImageMetadataRequest>(&buf).is_none());
}

// -----------------------------------------------------------------------
// Round trip: serialize then deserialize from bytes
// -----------------------------------------------------------------------

#[test]
fn zerocopy_round_trip_all_packets() {
    // InitiateBootRequest
    let orig = InitiateBootRequest::new(42, BootFlags(0b11));
    let parsed = InitiateBootRequest::read_from_bytes(&orig.as_bytes()).unwrap();
    assert_eq!(parsed.protocol_version, 42);
    assert!(parsed.flags.flash_writeback());
    assert!(parsed.flags.flash_commit_policy());

    // InitiateBootResponse
    let orig = InitiateBootResponse::new(Status::InProgress);
    let parsed = InitiateBootResponse::read_from_bytes(&orig.as_bytes()).unwrap();
    assert_eq!(parsed.status, Status::InProgress.as_u8());

    // ImageMetadataResponse
    let orig = ImageMetadataResponse::new(8192, [0xFF; 32], 7, 0);
    let parsed = ImageMetadataResponse::read_from_bytes(&orig.as_bytes()).unwrap();
    assert_eq!(parsed.image_size, 8192);
    assert_eq!(parsed.checksum, [0xFF; 32]);
    assert_eq!(parsed.version, 7);

    // FinalizeRequest
    let orig = FinalizeRequest::error(ErrorCode::CorruptedData, 0xBEEF);
    let parsed = FinalizeRequest::read_from_bytes(&orig.as_bytes()).unwrap();
    assert_eq!(parsed.status, ErrorCode::CorruptedData.as_u8());
    assert_eq!(parsed.error_code, 0xBEEF);

    // FinalizeAck
    let orig = FinalizeAck::new(Status::Success, CleanupFlags(0b01));
    let parsed = FinalizeAck::read_from_bytes(&orig.as_bytes()).unwrap();
    assert!(parsed.cleanup_flags.clear_toc());
    assert!(!parsed.cleanup_flags.reset_connection());
}

#[test]
fn read_from_bytes_rejects_wrong_length() {
    let orig = FinalizeRequest::success();
    let mut bytes = orig.as_bytes();
    bytes.push(0);
    assert!(FinalizeRequest::read_from_bytes(&bytes).is_none());
    assert!(FinalizeRequest::read_from_bytes(&bytes[..7]).is_none());
}

#[test]
fn image_chunk_dst_needs_whole_words() {
    let payload = [1u8, 2, 3];
    let hdr = ImageChunkHeader::new(0, 0, payload.len() as u32);
    let mut buf = [0u8; 64];
    hdr.write_to_buf(&payload, &mut buf).unwrap();
    assert!(ImageChunk::parse_from(&buf).is_none());
    // The header-and-payload split has no such condition.
    let (h, p) = ImageChunkHeader::parse_from(&buf).unwrap();
    assert_eq!(h.chunk_size, 3);
    assert_eq!(p, &payload[..]);
}
