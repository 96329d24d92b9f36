use lib::boot_app::{
    blocking_boot_finish, blocking_boot_get, blocking_boot_lease, blocking_boot_start,
    blocking_boot_tftp, blocking_boot_toc, lease_request, error_response, handle_chunk_ack, handle_image_download, handle_image_metadata,
    request_bytes, send_next_chunk, AppState, BootSourceApp, Dispatch, DwordIterator,
    LoopAction, Step,
};
use lib::lwip::Ipv4Addr;
use lib::mailbox::NetworkMboxError;
use lib::messages::{
    BootFlags, ChunkAck, ChunkAckFlags, ErrorCode, FinalizeRequest, ImageChunkHeader,
    ImageDownloadRequest, ImageMetadataRequest, InitiateBootRequest, MessageType, Packet,
};
use lib::network::{dhcp_v4_lease, LwipState, NetworkError, ServerAddr};
use lib::toc::{ImageRecord, Toc};

fn record(id: u32, name: &[u8], size: u32, checksum: u32) -> ImageRecord {
    let mut filename = [0u8; 64];
    filename[..name.len()].copy_from_slice(name);
    ImageRecord { identifier: id, filename, size, image_checksum: checksum }
}

fn chunk_ack() -> Vec<u8> {
    let mut flags = ChunkAckFlags(0);
    flags.set_ready_for_next(true);
    ChunkAck::new(2, 0, flags).as_bytes()
}

/// Drives an application from idle to ready with a table holding firmware 2.
fn ready_app() -> BootSourceApp {
    let mut app = BootSourceApp::new(1024);
    let req = InitiateBootRequest::new(1, BootFlags(0)).as_bytes();
    assert!(matches!(app.dispatch(&req), Dispatch::StartDhcp));
    assert_eq!(app.state(), AppState::Idle);
    assert_eq!(app.dhcp_started(true), Ok(()));
    assert_eq!(app.state(), AppState::DhcpInProgress);

    let lease = dhcp_v4_lease(Ipv4Addr(0x0a000001), b"boot.cfg").unwrap();
    assert!(matches!(app.dhcp_address_obtained(Some(lease)), Step::InitTftp));
    match app.tftp_init_done(true) {
        Step::TftpGet(ServerAddr::V4(ip), name) => {
            assert_eq!(ip, Ipv4Addr(0x0a000001));
            assert_eq!(name, b"boot.cfg\0".to_vec());
        }
        _ => panic!("expected the TOC request"),
    }
    assert!(matches!(app.tftp_get_done(true), Step::Wait));
    assert_eq!(app.state(), AppState::TftpTocInProgress);

    assert!(matches!(app.poll_tftp_toc(), Step::Wait));
    assert_eq!(app.tftp_block(b"TOCDATA"), 0);
    app.tftp_closed();
    match app.poll_tftp_toc() {
        Step::ParseToc(bytes) => assert_eq!(bytes, b"TOCDATA".to_vec()),
        _ => panic!("expected the TOC bytes"),
    }
    let recs = [Some(record(2, b"mcu_rt.bin", 4096, 0x11223344))];
    let resp = app.toc_parsed(Some(&recs[..]));
    assert_eq!(resp, vec![0x81, 0x00, 0x00, 0x00]);
    assert_eq!(app.state(), AppState::Ready);
    app
}

#[test]
fn initiate_boot_to_ready() {
    let app = ready_app();
    assert_eq!(app.loop_action(false), LoopAction::MarkReady);
}

#[test]
fn metadata_request_is_answered_from_table() {
    let mut app = ready_app();
    let req = ImageMetadataRequest::new(2).as_bytes();
    match app.dispatch(&req) {
        Dispatch::Respond(b) => {
            assert_eq!(b.len(), 52);
            assert_eq!(b[0], 0x82);
            assert_eq!(b[1], 0x00);
            assert_eq!(u32::from_le_bytes(b[4..8].try_into().unwrap()), 4096);
            assert_eq!(b[8..12], 0x11223344u32.to_le_bytes());
            assert!(b[12..].iter().all(|&x| x == 0));
        }
        _ => panic!("expected a metadata response"),
    }
    let req = ImageMetadataRequest::new(9).as_bytes();
    match app.dispatch(&req) {
        Dispatch::Respond(b) => {
            assert_eq!(b.len(), 52);
            assert_eq!(b[0], 0x82);
            assert_eq!(b[1], ErrorCode::ImageNotFound.as_u8());
        }
        _ => panic!("expected an error response"),
    }
    // Too short to carry a firmware ID.
    match app.dispatch(&[0x02, 0x02]) {
        Dispatch::Respond(b) => assert_eq!(b[1], ErrorCode::InvalidParameters.as_u8()),
        _ => panic!("expected an error response"),
    }
}

#[test]
fn image_download_streams_chunks_in_order() {
    let mut app = ready_app();
    let req = ImageDownloadRequest::new(2).as_bytes();
    match app.dispatch(&req) {
        Dispatch::AcknowledgeDownload(b, id) => {
            assert_eq!(id, 2);
            assert_eq!(b, ImageChunkHeader::new(0, 0, 0).as_bytes());
            app.download_acknowledged(id);
        }
        _ => panic!("expected the download acknowledgement"),
    }
    assert_eq!(app.state(), AppState::Streaming);
    assert_eq!(app.poll_mode(), Some(1));

    assert!(matches!(app.dispatch(&chunk_ack()), Dispatch::Accepted));
    assert_eq!(app.state(), AppState::ChunkPending);
    assert_eq!(app.loop_action(true), LoopAction::PollChunk);

    match app.poll_chunk_data() {
        Step::TftpGet(ServerAddr::V4(_), name) => assert_eq!(name, b"mcu_rt.bin\0".to_vec()),
        _ => panic!("expected the image request"),
    }
    assert!(matches!(app.tftp_get_done(true), Step::Wait));
    assert!(matches!(app.poll_chunk_data(), Step::Wait));

    let data: Vec<u8> = (0..100u8).collect();
    assert_eq!(app.tftp_block(&data), 0);
    match app.poll_chunk_data() {
        Step::SendChunk(b) => {
            let mut expected = ImageChunkHeader::new(0, 0, 100).as_bytes();
            expected.extend_from_slice(&data);
            assert_eq!(b, expected);
        }
        _ => panic!("expected a chunk"),
    }
    app.chunk_sent(true);
    assert_eq!(app.state(), AppState::Streaming);

    assert!(matches!(app.dispatch(&chunk_ack()), Dispatch::Accepted));
    assert_eq!(app.tftp_block(&[0xEE; 8]), 0);
    app.tftp_closed();
    match app.poll_chunk_data() {
        Step::SendChunk(b) => {
            let mut expected = ImageChunkHeader::new(1, 100, 8).as_bytes();
            expected.extend_from_slice(&[0xEE; 8]);
            assert_eq!(b, expected);
        }
        _ => panic!("expected the last chunk"),
    }
    app.chunk_sent(true);
    assert_eq!(app.state(), AppState::Ready);
}

#[test]
fn failed_chunk_send_returns_to_ready() {
    let mut app = ready_app();
    let req = ImageDownloadRequest::new(2).as_bytes();
    if let Dispatch::AcknowledgeDownload(_, id) = app.dispatch(&req) {
        app.download_acknowledged(id);
    }
    assert!(matches!(app.dispatch(&chunk_ack()), Dispatch::Accepted));
    assert!(matches!(app.poll_chunk_data(), Step::TftpGet(_, _)));
    assert!(matches!(app.tftp_get_done(true), Step::Wait));
    assert_eq!(app.tftp_block(&[1, 2, 3]), 0);
    assert!(matches!(app.poll_chunk_data(), Step::SendChunk(_)));
    app.chunk_sent(false);
    assert_eq!(app.state(), AppState::Ready);
}

#[test]
fn refused_image_get_is_reported() {
    let mut app = ready_app();
    let req = ImageDownloadRequest::new(2).as_bytes();
    if let Dispatch::AcknowledgeDownload(_, id) = app.dispatch(&req) {
        app.download_acknowledged(id);
    }
    assert!(matches!(app.dispatch(&chunk_ack()), Dispatch::Accepted));
    assert!(matches!(app.poll_chunk_data(), Step::TftpGet(_, _)));
    match app.tftp_get_done(false) {
        Step::Respond(b) => {
            assert_eq!(b.len(), 12);
            assert_eq!(b[0], 0x83);
            assert_eq!(b[1], ErrorCode::SourceNotReady.as_u8());
        }
        _ => panic!("expected an error response"),
    }
    assert_eq!(app.state(), AppState::Ready);
}

#[test]
fn download_of_unknown_image_is_refused() {
    let mut app = ready_app();
    let req = ImageDownloadRequest::new(7).as_bytes();
    match app.dispatch(&req) {
        Dispatch::RespondAndReject(b, e) => {
            assert_eq!(e, NetworkMboxError::InvalidArgument);
            assert_eq!(b[0], 0x83);
            assert_eq!(b[1], ErrorCode::ImageNotFound.as_u8());
        }
        _ => panic!("expected a refusal"),
    }
    assert_eq!(app.state(), AppState::Ready);
}

#[test]
fn finalize_returns_to_idle_from_any_state() {
    let mut app = ready_app();
    let req = FinalizeRequest::success().as_bytes();
    match app.dispatch(&req) {
        Dispatch::Finalize(b, tftp, netif) => {
            assert_eq!(b, vec![0x85, 0x00, 0, 0, 0, 0, 0, 0, 0, 0, 0, 0]);
            assert!(tftp);
            assert!(!netif);
        }
        _ => panic!("expected the finalize acknowledgement"),
    }
    app.finalized();
    assert_eq!(app.state(), AppState::Idle);
    assert_eq!(app.loop_action(true), LoopAction::Finish);
    assert_eq!(app.loop_action(false), LoopAction::Nothing);

    // A short finalize is answered with an error and releases nothing.
    let mut app = BootSourceApp::new(1024);
    match app.dispatch(&[0x05, 0x00]) {
        Dispatch::Finalize(b, tftp, netif) => {
            assert_eq!(b[0], 0x85);
            assert_eq!(b[1], ErrorCode::InvalidParameters.as_u8());
            assert!(!tftp && !netif);
        }
        _ => panic!("expected an error acknowledgement"),
    }
}

#[test]
fn requests_out_of_state_are_refused() {
    let mut app = BootSourceApp::new(1024);
    assert!(matches!(
        app.dispatch(&ImageMetadataRequest::new(2).as_bytes()),
        Dispatch::Reject(NetworkMboxError::InvalidArgument)
    ));
    assert!(matches!(app.dispatch(&chunk_ack()), Dispatch::Reject(NetworkMboxError::InvalidArgument)));
    assert!(matches!(app.dispatch(&[]), Dispatch::Reject(NetworkMboxError::InvalidArgument)));
    assert!(matches!(app.dispatch(&[0x42, 0, 0, 0]), Dispatch::Reject(NetworkMboxError::InvalidArgument)));
    // A short InitiateBootRequest is refused.
    assert!(matches!(app.dispatch(&[0x01, 0, 0, 0]), Dispatch::Reject(NetworkMboxError::InvalidArgument)));
    assert_eq!(app.state(), AppState::Idle);
    assert_eq!(app.poll_mode(), None);
}

#[test]
fn dhcp_start_failure_fails_the_request() {
    let mut app = BootSourceApp::new(1024);
    let req = InitiateBootRequest::new(1, BootFlags(3)).as_bytes();
    assert!(matches!(app.dispatch(&req), Dispatch::StartDhcp));
    assert_eq!(app.dhcp_started(false), Err(NetworkMboxError::Failed));
    assert_eq!(app.state(), AppState::Idle);
}

#[test]
fn boot_refused_without_lease_or_toc() {
    let mut app = BootSourceApp::new(1024);
    let req = InitiateBootRequest::new(1, BootFlags(0)).as_bytes();
    app.dispatch(&req);
    app.dhcp_started(true).unwrap();
    match app.dhcp_address_obtained(None) {
        Step::Respond(b) => assert_eq!(b, vec![0x81, ErrorCode::SourceNotReady.as_u8(), 0, 0]),
        _ => panic!("expected an error response"),
    }
    assert_eq!(app.state(), AppState::Idle);

    let mut app = BootSourceApp::new(1024);
    app.dispatch(&req);
    app.dhcp_started(true).unwrap();
    let lease = dhcp_v4_lease(Ipv4Addr(1), b"toc").unwrap();
    app.dhcp_address_obtained(Some(lease));
    app.tftp_init_done(true);
    app.tftp_get_done(true);
    let resp = app.toc_parsed(None);
    assert_eq!(resp, vec![0x81, ErrorCode::CorruptedData.as_u8(), 0, 0]);
    assert_eq!(app.state(), AppState::Idle);
}

#[test]
fn tftp_init_refused_is_reported() {
    let mut app = BootSourceApp::new(1024);
    let req = InitiateBootRequest::new(1, BootFlags(0)).as_bytes();
    app.dispatch(&req);
    app.dhcp_started(true).unwrap();
    let lease = dhcp_v4_lease(Ipv4Addr(1), b"toc").unwrap();
    app.dhcp_address_obtained(Some(lease));
    match app.tftp_init_done(false) {
        Step::Respond(b) => assert_eq!(b, vec![0x81, ErrorCode::SourceNotReady.as_u8(), 0, 0]),
        _ => panic!("expected an error response"),
    }
    assert_eq!(app.state(), AppState::Idle);
}

#[test]
fn error_responses_by_type() {
    assert_eq!(
        error_response(MessageType::InitiateBootResponse, ErrorCode::SourceNotReady),
        Ok(vec![0x81, 0x06, 0, 0])
    );
    assert_eq!(
        error_response(MessageType::ImageChunk, ErrorCode::CorruptedData).unwrap(),
        ImageChunkHeader::error(ErrorCode::CorruptedData).as_bytes()
    );
    assert_eq!(
        error_response(MessageType::ImageMetadataResponse, ErrorCode::ImageNotFound).unwrap().len(),
        52
    );
    assert_eq!(
        error_response(MessageType::FinalizeAck, ErrorCode::Unknown).unwrap()[..2],
        [0x85, 0xFF]
    );
    assert_eq!(
        error_response(MessageType::ChunkAck, ErrorCode::Unknown),
        Err(NetworkMboxError::InvalidArgument)
    );
}

#[test]
fn request_bytes_unpack_words() {
    let words = [0x04030201u32, 0x08070605];
    assert_eq!(request_bytes(&words, 6), vec![1, 2, 3, 4, 5, 6]);
    assert_eq!(request_bytes(&words, 0), Vec::<u8>::new());
    let big = [0xAAAAAAAAu32; 80];
    assert_eq!(request_bytes(&big, 1000).len(), 256);
}

#[test]
fn dword_iterator_packs_bytes() {
    let mut it = DwordIterator::new(vec![1, 2, 3, 4, 5, 6], 6);
    assert_eq!(it.next_dword(), Some(0x04030201));
    assert_eq!(it.next_dword(), Some(0x00000605));
    assert_eq!(it.next_dword(), None);

    // The byte budget stops the stream early.
    let mut it = DwordIterator::new(vec![1, 2, 3, 4, 5, 6], 5);
    assert_eq!(it.next_dword(), Some(0x04030201));
    assert_eq!(it.next_dword(), Some(0x00000005));
    assert_eq!(it.next_dword(), None);

    // A stream that runs dry first yields zero words.
    let mut it = DwordIterator::new(vec![7], 8);
    assert_eq!(it.next_dword(), Some(7));
    assert_eq!(it.next_dword(), Some(0));
}

#[test]
fn handlers_on_a_table() {
    let mut toc = Toc::new();
    assert!(toc.add(1, b"manifest.bin", 100, 7));
    let b = handle_image_metadata(&ImageMetadataRequest::new(1).as_bytes(), &toc);
    assert_eq!(u32::from_le_bytes(b[4..8].try_into().unwrap()), 100);
    assert_eq!(b[8], 7);
    match handle_image_download(&ImageDownloadRequest::new(1).as_bytes(), &toc) {
        Ok((id, hdr)) => {
            assert_eq!(id, 1);
            assert_eq!(hdr.len(), 12);
        }
        Err(_) => panic!("the image is in the table"),
    }
    match handle_image_download(&[0x03, 0x01], &toc) {
        Err((e, b)) => {
            assert_eq!(e, NetworkMboxError::InvalidArgument);
            assert_eq!(b[1], ErrorCode::InvalidParameters.as_u8());
        }
        Ok(_) => panic!("a short request is refused"),
    }
}

#[test]
fn chunks_wrap_sequence_and_offset() {
    let mut net = LwipState::new();
    net.init_tftp(true).unwrap();
    net.start_tftp_get(b"f\0").unwrap();
    assert!(net.tftp_write_cb(&[1, 2, 3, 4]));
    let c = send_next_chunk(&mut net, 2, u16::MAX, u32::MAX).ok().unwrap();
    assert_eq!(c.next_sequence, 0);
    assert_eq!(c.next_offset, 1);
    assert!(!c.is_last);
    let mut expected = ImageChunkHeader::new(u16::MAX, u32::MAX, 2).as_bytes();
    expected.extend_from_slice(&[1, 2]);
    assert_eq!(c.bytes, expected);
    assert_eq!(net.tftp_buffered_len(), 2);

    net.deliver_error();
    match send_next_chunk(&mut net, 2, 0, 0) {
        Err((e, b)) => {
            assert_eq!(e, NetworkMboxError::Failed);
            assert_eq!(b[1], ErrorCode::CorruptedData.as_u8());
        }
        Ok(_) => panic!("a failed transfer sends no chunk"),
    }
}

#[test]
fn chunk_ack_is_validated() {
    let mut net = LwipState::new();
    match handle_chunk_ack(&[0x04], &mut net, 1024, 0, 0) {
        Err((e, b)) => {
            assert_eq!(e, NetworkMboxError::InvalidArgument);
            assert_eq!(b[0], 0x83);
            assert_eq!(b[1], ErrorCode::InvalidParameters.as_u8());
        }
        Ok(_) => panic!("a short ack is refused"),
    }
    let c = handle_chunk_ack(&chunk_ack(), &mut net, 1024, 3, 10).ok().unwrap();
    assert_eq!(c.bytes, ImageChunkHeader::new(3, 10, 0).as_bytes());
    assert!(!c.is_last);
}

#[test]
fn lease_request_names_the_boot_file() {
    let lease = dhcp_v4_lease(Ipv4Addr(1), b"boot.cfg").unwrap();
    assert_eq!(lease_request(&lease), b"boot.cfg\0".to_vec());
    let long = [b'x'; 200];
    let lease = dhcp_v4_lease(Ipv4Addr(1), &long).unwrap();
    let name = lease_request(&lease);
    assert_eq!(name.len(), 128);
    assert_eq!(name[127], 0);
    assert!(name[..127].iter().all(|&c| c == b'x'));
}

#[test]
fn blocking_boot_checks_request_and_lease() {
    assert_eq!(blocking_boot_start(&[0u8; 11]), Err(vec![0x81, 0x07, 0x00, 0x00]));
    let req = InitiateBootRequest::new(1, BootFlags(0x0102_0304)).as_bytes();
    assert_eq!(blocking_boot_start(&req), Ok(BootFlags(0x0102_0304)));

    let lease = dhcp_v4_lease(Ipv4Addr(7), b"boot.cfg").unwrap();
    assert!(matches!(blocking_boot_lease(Ok(lease)), Ok(l) if matches!(l.server_ip, ServerAddr::V4(Ipv4Addr(7)))));
    assert_eq!(
        blocking_boot_lease(Err(NetworkError::DhcpTimeout)).err(),
        Some(vec![0x81, 0x06, 0x00, 0x00])
    );
}

#[test]
fn blocking_boot_fetches_and_parses_toc() {
    let mut net = LwipState::new();
    let lease = dhcp_v4_lease(Ipv4Addr(7), b"boot.cfg").unwrap();
    assert_eq!(blocking_boot_tftp(&mut net, &lease, false), Err(vec![0x81, 0x06, 0x00, 0x00]));
    assert_eq!(blocking_boot_tftp(&mut net, &lease, true), Ok(b"boot.cfg\0".to_vec()));
    assert_eq!(blocking_boot_get(&mut net, true), Ok(()));

    assert_eq!(net.deliver_block(b"TOC"), 0);
    net.tftp_closed();
    assert_eq!(blocking_boot_toc(&mut net), Ok(b"TOC".to_vec()));

    let mut toc = Toc::new();
    let mut result = None;
    let recs = [Some(record(2, b"mcu_rt.bin", 4096, 1))];
    assert_eq!(
        blocking_boot_finish(&mut toc, Some(&recs[..]), lease, &mut result),
        Ok(vec![0x81, 0x00, 0x00, 0x00])
    );
    assert!(result.is_some());
    assert_eq!(toc.find(2).map(|e| e.image_size), Some(4096));

    let mut toc = Toc::new();
    let mut result = None;
    let lease = dhcp_v4_lease(Ipv4Addr(7), b"boot.cfg").unwrap();
    assert_eq!(
        blocking_boot_finish(&mut toc, None, lease, &mut result),
        Err(vec![0x81, 0x08, 0x00, 0x00])
    );
    assert!(result.is_none());
}

#[test]
fn blocking_boot_refused_get_and_server_error() {
    let mut net = LwipState::new();
    let lease = dhcp_v4_lease(Ipv4Addr(7), b"boot.cfg").unwrap();
    assert!(blocking_boot_tftp(&mut net, &lease, true).is_ok());
    assert_eq!(blocking_boot_get(&mut net, false), Err(vec![0x81, 0x06, 0x00, 0x00]));

    let mut net = LwipState::new();
    assert!(blocking_boot_tftp(&mut net, &lease, true).is_ok());
    net.deliver_error();
    assert_eq!(blocking_boot_toc(&mut net), Err(vec![0x81, 0x06, 0x00, 0x00]));

    // A transfer that has not finished is not a TOC.
    let mut net = LwipState::new();
    assert!(blocking_boot_tftp(&mut net, &lease, true).is_ok());
    assert_eq!(net.deliver_block(b"TOC"), 0);
    assert_eq!(blocking_boot_toc(&mut net), Err(vec![0x81, 0x06, 0x00, 0x00]));
}
