use lib::mailbox::{NetworkMboxStatus, NetworkMboxTargetStatus};
use lib::messages::{
    ImageChunkHeader, ImageMetadataResponse, InitiateBootResponse, Packet, Status,
};
use lib::provider::{
    recovery_img_index_to_firmware_id, FetchAction, NetworkImageProvider, Phase, WaitOutcome,
};
use lib::wire::le_bytes_to_words;

const DONE: NetworkMboxTargetStatus =
    NetworkMboxTargetStatus { status: NetworkMboxStatus::CmdComplete, done: true };

fn deliver(p: &mut NetworkImageProvider, bytes: &[u8]) {
    let words = le_bytes_to_words(bytes);
    assert!(p.response_acceptable(DONE, &words, bytes.len()));
    p.response_received(DONE, &words, bytes.len());
}

fn chunk(seq: u16, offset: u32, payload: &[u8]) -> Vec<u8> {
    let mut b = ImageChunkHeader::new(seq, offset, payload.len() as u32).as_bytes();
    b.extend_from_slice(payload);
    b
}

#[test]
fn image_indices_map_to_firmware_ids() {
    assert_eq!(recovery_img_index_to_firmware_id(0), Ok(0x00));
    assert_eq!(recovery_img_index_to_firmware_id(1), Ok(0x01));
    assert_eq!(recovery_img_index_to_firmware_id(2), Ok(0x02));
    assert_eq!(recovery_img_index_to_firmware_id(3), Err(()));
}

#[test]
fn provider_downloads_an_image() {
    let mut p = NetworkImageProvider::new();
    assert_eq!(p.prepare_image(2), Ok(2));
    let init = p.begin_initiate().unwrap();
    assert_eq!(init.protocol_version, 1);
    assert_eq!(p.phase_outcome(Phase::WaitInitiateBootResponse), WaitOutcome::Pending);
    deliver(&mut p, &InitiateBootResponse::new(Status::Success).as_bytes());
    assert_eq!(p.phase_outcome(Phase::WaitInitiateBootResponse), WaitOutcome::Finished);
    p.mark_initiated();
    assert!(p.begin_initiate().is_none());

    let req = p.begin_metadata(2);
    assert_eq!(req.firmware_id, 2);
    deliver(&mut p, &ImageMetadataResponse::new(6, [0; 32], 0, 0).as_bytes());
    assert_eq!(p.image_size(), 6);

    assert_eq!(p.chunk_fetch(), FetchAction::StartDownload);
    let dl = p.begin_download();
    assert_eq!(dl.firmware_id, 2);
    deliver(&mut p, &chunk(0, 0, &[]));
    p.mark_download_started();
    assert_eq!(p.available(), 0);
    assert_eq!(p.chunk_fetch(), FetchAction::RequestNextChunk);

    let ack = p.begin_next_chunk();
    assert_eq!(ack.sequence_number, 0);
    deliver(&mut p, &chunk(1, 0, &[10, 11, 12, 13]));
    assert_eq!(p.available(), 4);
    assert_eq!(p.chunk_fetch(), FetchAction::Nothing);

    let mut data = [0u8; 6];
    assert!(p.copy_fits(6));
    assert_eq!(p.copy_chunk_bytes(&mut data, 0), 4);
    assert_eq!(data[..4], [10, 11, 12, 13]);
    assert_eq!(p.chunk_fetch(), FetchAction::RequestNextChunk);
    let ack = p.begin_next_chunk();
    assert_eq!(ack.sequence_number, 1);
    deliver(&mut p, &chunk(2, 4, &[14, 15]));
    assert_eq!(p.copy_chunk_bytes(&mut data, 4), 2);
    assert_eq!(data, [10, 11, 12, 13, 14, 15]);
    assert!(p.all_received());
    assert_eq!(p.bytes_loaded(), 6);
    assert_eq!(p.chunk_fetch(), FetchAction::Nothing);
    assert_eq!(p.finalize_request().message_type, 0x05);
}

#[test]
fn failed_status_is_an_error() {
    let mut p = NetworkImageProvider::new();
    p.begin_initiate();
    let failed = NetworkMboxTargetStatus { status: NetworkMboxStatus::CmdFailure, done: true };
    let words = le_bytes_to_words(&InitiateBootResponse::new(Status::Success).as_bytes());
    p.response_received(failed, &words, 4);
    assert_eq!(p.phase_outcome(Phase::WaitInitiateBootResponse), WaitOutcome::Failed);
}

#[test]
fn error_response_is_an_error() {
    let mut p = NetworkImageProvider::new();
    p.begin_metadata(9);
    deliver(&mut p, &ImageMetadataResponse::error(lib::messages::ErrorCode::ImageNotFound).as_bytes());
    assert_eq!(p.phase_outcome(Phase::WaitMetadataResponse), WaitOutcome::Failed);
}

#[test]
fn oversized_or_truncated_chunk_fails() {
    let mut p = NetworkImageProvider::new();
    p.begin_download();
    let bytes = chunk(0, 0, &[0u8; 1050]);
    deliver(&mut p, &bytes);
    assert_eq!(p.phase_outcome(Phase::WaitImageChunk), WaitOutcome::Failed);
    assert_eq!(p.available(), 0);
    assert_eq!(p.bytes_loaded(), 0);

    // A header that announces more payload than the response carries.
    let mut p = NetworkImageProvider::new();
    p.begin_download();
    let mut short = chunk(0, 0, &[7u8; 16]);
    short.truncate(20);
    deliver(&mut p, &short);
    assert_eq!(p.phase_outcome(Phase::WaitImageChunk), WaitOutcome::Failed);
    assert_eq!(p.available(), 0);

    let mut p = NetworkImageProvider::new();
    p.begin_download();
    deliver(&mut p, &chunk(0, 0, &[5u8; 1024]));
    assert_eq!(p.phase_outcome(Phase::WaitImageChunk), WaitOutcome::Finished);
    assert_eq!(p.available(), 1024);
}
