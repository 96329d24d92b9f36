use lib::mailbox::{NetworkMboxError, NetworkMboxStatus, NetworkMboxTargetStatus};
use lib::messages::{
    ChunkAck, ChunkAckFlags, FinalizeAck, CleanupFlags, FinalizeRequest, ImageChunkHeader,
    ImageMetadataResponse, InitiateBootResponse, Packet, Status,
};
use lib::rom_selftest::{check_pattern, BootSourceTestClient, PatternVerifier, Phase, SendOutcome};
use lib::wire::le_bytes_to_words;

const DONE: NetworkMboxTargetStatus =
    NetworkMboxTargetStatus { status: NetworkMboxStatus::CmdComplete, done: true };

fn pattern(offset: usize, len: usize) -> Vec<u8> {
    (0..len).map(|j| ((offset + j) & 0xFF) as u8).collect()
}

fn chunk(seq: u16, offset: u32, payload: &[u8]) -> Vec<u8> {
    let mut b = ImageChunkHeader::new(seq, offset, payload.len() as u32).as_bytes();
    b.extend_from_slice(payload);
    b
}

fn deliver(client: &mut BootSourceTestClient, bytes: &[u8]) {
    let words = le_bytes_to_words(bytes);
    client.response_received(DONE, &words, bytes.len());
}

#[test]
fn pattern_check() {
    assert!(check_pattern(&pattern(0, 300), 0));
    assert!(check_pattern(&pattern(250, 20), 250));
    assert!(!check_pattern(&pattern(0, 10), 1));
    assert!(check_pattern(&[], 17));
}

#[test]
fn pattern_verifier_tracks_offset() {
    let mut v = PatternVerifier::new();
    assert!(v.write_verify(&pattern(0, 512)));
    assert!(v.write_verify(&pattern(512, 512)));
    assert_eq!(v.offset, 1024);
    assert!(!v.write_verify(&pattern(1, 4)));
    assert!(v.error);
    assert_eq!(v.offset, 1024);
}

#[test]
fn client_walks_the_protocol() {
    let mut c = BootSourceTestClient::new();
    let req = c.request().unwrap();
    assert_eq!(req[0], 0x01);
    assert_eq!(req.len(), 12);
    assert_eq!(c.request_sent(Err(NetworkMboxError::Locked)), SendOutcome::Retry);
    assert_eq!(c.phase, Phase::SendInitiateBoot);
    assert_eq!(c.request_sent(Ok(())), SendOutcome::Sent);
    assert_eq!(c.phase, Phase::WaitInitiateBootResponse);
    assert!(c.request().is_none());

    deliver(&mut c, &InitiateBootResponse::new(Status::Success).as_bytes());
    assert_eq!(c.phase, Phase::SendMetadataRequest);
    assert!(c.passed);
    assert_eq!(c.request().unwrap(), vec![0x02, 0x02, 0, 0]);
    c.request_sent(Ok(()));

    deliver(&mut c, &ImageMetadataResponse::new(4096, [0; 32], 0, 0).as_bytes());
    assert_eq!(c.phase, Phase::SendImageDownload);
    assert!(c.passed);
    c.request_sent(Ok(()));
    assert_eq!(c.phase, Phase::WaitImageChunk);

    // The acknowledgement header of the download carries no payload.
    deliver(&mut c, &chunk(0, 0, &[]));
    assert_eq!(c.phase, Phase::SendChunkAck);
    let mut flags = ChunkAckFlags(0);
    flags.set_ready_for_next(true);
    assert_eq!(c.request().unwrap(), ChunkAck::new(2, 0, flags).as_bytes());
    c.request_sent(Ok(()));

    deliver(&mut c, &chunk(1, 0, &pattern(0, 1024)));
    assert!(c.passed);
    assert_eq!(c.bytes_received, 1024);
    assert_eq!(c.last_seq, 1);
    assert_eq!(c.phase, Phase::SendChunkAck);
}

#[test]
fn client_finishes_after_whole_image() {
    let mut c = BootSourceTestClient::new();
    c.phase = Phase::WaitImageChunk;
    for k in 0..4u32 {
        deliver(&mut c, &chunk(k as u16, k * 1024, &pattern(k as usize * 1024, 1024)));
        if k < 3 {
            assert_eq!(c.phase, Phase::SendChunkAck);
            c.request_sent(Ok(()));
        }
    }
    assert_eq!(c.bytes_received, 4096);
    assert_eq!(c.last_seq, 3);
    assert_eq!(c.phase, Phase::SendFinalize);
    assert_eq!(c.request().unwrap(), FinalizeRequest::success().as_bytes());
    c.request_sent(Ok(()));
    deliver(&mut c, &FinalizeAck::new(Status::Success, CleanupFlags(0)).as_bytes());
    assert_eq!(c.phase, Phase::Done);
    assert!(c.passed);
}

#[test]
fn client_flags_bad_responses() {
    let mut c = BootSourceTestClient::new();
    c.phase = Phase::WaitImageChunk;
    // Wrong offset.
    deliver(&mut c, &chunk(0, 8, &pattern(8, 4)));
    assert!(!c.passed);
    assert_eq!(c.bytes_received, 0);

    let mut c = BootSourceTestClient::new();
    c.phase = Phase::WaitImageChunk;
    // Wrong data.
    deliver(&mut c, &chunk(0, 0, &[9, 9, 9]));
    assert!(!c.passed);

    let mut c = BootSourceTestClient::new();
    c.phase = Phase::WaitMetadataResponse;
    deliver(&mut c, &ImageMetadataResponse::new(100, [0; 32], 0, 0).as_bytes());
    assert!(!c.passed);
    assert_eq!(c.phase, Phase::SendImageDownload);

    let mut c = BootSourceTestClient::new();
    let failed = NetworkMboxTargetStatus { status: NetworkMboxStatus::CmdFailure, done: true };
    c.phase = Phase::WaitInitiateBootResponse;
    let words = le_bytes_to_words(&InitiateBootResponse::new(Status::Success).as_bytes());
    c.response_received(failed, &words, 4);
    assert!(!c.passed);

    // A response while sending is unexpected.
    let mut c = BootSourceTestClient::new();
    deliver(&mut c, &[0x81, 0, 0, 0]);
    assert!(!c.passed);
    assert_eq!(c.phase, Phase::SendInitiateBoot);
}

#[test]
fn client_aborts_on_mailbox_failure() {
    let mut c = BootSourceTestClient::new();
    assert_eq!(c.request_sent(Err(NetworkMboxError::HardwareError)), SendOutcome::Abort);
    assert_eq!(c.phase, Phase::SendInitiateBoot);
}

#[test]
fn verifiers_check_status_and_type() {
    let c = BootSourceTestClient::new();
    let busy = NetworkMboxTargetStatus { status: NetworkMboxStatus::CmdBusy, done: false };
    let ok = InitiateBootResponse::new(Status::Success).as_bytes();
    assert!(c.verify_initiate_boot_response(DONE, &ok));
    assert!(!c.verify_initiate_boot_response(busy, &ok));
    assert!(!c.verify_initiate_boot_response(DONE, &ok[..3]));
    assert!(!c.verify_initiate_boot_response(DONE, &[0x82, 0, 0, 0]));
    assert!(!c.verify_finalize_ack(DONE, &[0x85, 0x01, 0, 0, 0, 0, 0, 0, 0, 0, 0, 0]));
    assert!(c.verify_finalize_ack(DONE, &FinalizeAck::new(Status::Success, CleanupFlags(3)).as_bytes()));
    assert!(c.verify_metadata_response(DONE, &ImageMetadataResponse::new(4096, [1; 32], 2, 0).as_bytes()));
}
