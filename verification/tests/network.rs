use lib::lwip::{Ipv4Addr, Ipv6Addr};
use lib::network::{
    dhcp_v4_lease, dhcp_v4_outcome, dhcp_v6_lease, dhcp_v6_outcome, run_dhcp, LwipState,
    NetworkError, ServerAddr, TFTP_CHUNK_BUF_SIZE,
};

fn ready_state() -> LwipState {
    let mut net = LwipState::new();
    net.init_tftp(true).unwrap();
    net.start_tftp_get(b"image.bin\0").unwrap();
    net
}

#[test]
fn v4_lease_keeps_name() {
    let lease = dhcp_v4_lease(Ipv4Addr(0x0164a8c0), b"boot.cfg").unwrap();
    assert_eq!(lease.boot_file_len, 8);
    assert_eq!(&lease.boot_file[..8], b"boot.cfg");
    assert!(lease.boot_file[8..].iter().all(|&b| b == 0));
    match lease.server_ip {
        ServerAddr::V4(ip) => assert_eq!(ip, Ipv4Addr(0x0164a8c0)),
        ServerAddr::V6(_) => panic!("expected an IPv4 server"),
    }
}

#[test]
fn v4_lease_without_name_is_refused() {
    assert_eq!(dhcp_v4_lease(Ipv4Addr(1), b"").err(), Some(NetworkError::NoBootFile));
}

#[test]
fn v4_lease_truncates_long_names() {
    let name = [b'n'; 200];
    let lease = dhcp_v4_lease(Ipv4Addr(1), &name).unwrap();
    assert_eq!(lease.boot_file_len, 127);
    assert_eq!(lease.boot_file[126], b'n');
    assert_eq!(lease.boot_file[127], 0);
}

#[test]
fn v6_lease_uses_fallback() {
    let server = Ipv6Addr::new([0xfd00, 0, 0, 0, 0, 0, 0, 1]);
    let lease = dhcp_v6_lease(server, b"boot.cfg\0");
    assert_eq!(lease.boot_file_len, 9);
    assert_eq!(&lease.boot_file[..9], b"boot.cfg\0");
    match lease.server_ip {
        ServerAddr::V6(a) => assert_eq!(a.segments, server.segments),
        ServerAddr::V4(_) => panic!("expected an IPv6 server"),
    }
}

#[test]
fn dhcp_outcomes() {
    let server = Ipv6Addr::new([0; 8]);
    assert_eq!(dhcp_v4_outcome(false, None).err(), Some(NetworkError::DhcpFailed));
    assert_eq!(dhcp_v4_outcome(true, None).err(), Some(NetworkError::DhcpTimeout));
    assert_eq!(
        dhcp_v4_outcome(true, Some((Ipv4Addr(2), b""))).err(),
        Some(NetworkError::NoBootFile)
    );
    assert!(dhcp_v4_outcome(true, Some((Ipv4Addr(2), b"f"))).is_ok());
    assert_eq!(dhcp_v6_outcome(false, true, server, b"f").err(), Some(NetworkError::Dhcpv6Failed));
    assert_eq!(dhcp_v6_outcome(true, false, server, b"f").err(), Some(NetworkError::Dhcpv6Timeout));
    assert!(dhcp_v6_outcome(true, true, server, b"f").is_ok());
}

#[test]
fn dhcp_falls_back_on_any_v4_error() {
    assert!(run_dhcp(Err(NetworkError::DhcpTimeout)).is_none());
    assert!(run_dhcp(Err(NetworkError::NoBootFile)).is_none());
    let lease = dhcp_v4_lease(Ipv4Addr(3), b"x").unwrap();
    assert_eq!(run_dhcp(Ok(lease)).unwrap().boot_file_len, 1);
}

#[test]
fn buffer_hands_out_bytes_in_arrival_order() {
    let mut net = ready_state();
    assert!(net.tftp_write_cb(&[1, 2, 3]));
    assert!(net.tftp_write_cb(&[4, 5]));
    assert_eq!(net.tftp_buffered_len(), 5);

    let mut out = [0u8; 2];
    assert_eq!(net.take_tftp_chunk(&mut out), 2);
    assert_eq!(out, [1, 2]);
    assert!(net.tftp_write_cb(&[6]));
    let mut out = [9u8; 8];
    assert_eq!(net.take_tftp_chunk(&mut out), 4);
    assert_eq!(out, [3, 4, 5, 6, 9, 9, 9, 9]);
    assert_eq!(net.tftp_buffered_len(), 0);
    assert_eq!(net.take_tftp_chunk(&mut out), 0);
}

#[test]
fn buffer_refuses_blocks_that_do_not_fit() {
    let mut net = ready_state();
    let block = [7u8; 512];
    for _ in 0..(TFTP_CHUNK_BUF_SIZE / 512) {
        assert!(net.tftp_write_cb(&block));
    }
    assert_eq!(net.tftp_buffered_len(), TFTP_CHUNK_BUF_SIZE);
    assert!(!net.tftp_write_cb(&[1]));
    assert_eq!(net.tftp_buffered_len(), TFTP_CHUNK_BUF_SIZE);
}

#[test]
fn delivered_blocks_reach_buffer_and_client() {
    let mut net = ready_state();
    assert_eq!(net.deliver_block(&[0xAA; 100]), 0);
    assert_eq!(net.tftp_buffered_len(), 100);
    let big = vec![0u8; TFTP_CHUNK_BUF_SIZE];
    assert_eq!(net.deliver_block(&big), -1);
    assert!(net.tftp_has_error());
    assert_eq!(net.tftp_buffered_len(), 100);
}

#[test]
fn server_error_ends_transfer() {
    let mut net = ready_state();
    net.deliver_error();
    assert!(net.tftp_has_error());
    assert!(net.tftp_is_complete());
}

#[test]
fn block_without_transfer_is_refused() {
    let mut net = LwipState::new();
    assert_eq!(net.deliver_block(&[1, 2]), -1);
    assert_eq!(net.tftp_buffered_len(), 0);
}

#[test]
fn start_clears_buffer_and_checks_request() {
    let mut net = LwipState::new();
    assert_eq!(net.start_tftp_get(b"a\0"), Err(NetworkError::TftpGetFailed));
    assert_eq!(net.init_tftp(false), Err(NetworkError::TftpInitFailed));
    assert_eq!(net.init_tftp(true), Ok(()));
    assert!(net.tftp_write_cb(&[1, 2, 3]));
    assert_eq!(net.start_tftp_get(b"a"), Err(NetworkError::TftpGetFailed));
    assert_eq!(net.tftp_buffered_len(), 0);
    assert!(net.tftp_write_cb(&[1]));
    assert_eq!(net.start_tftp_get(b"a\0"), Ok(()));
    assert_eq!(net.tftp_buffered_len(), 0);
    assert_eq!(net.tftp_get_refused(), NetworkError::TftpGetFailed);
    assert!(net.tftp_is_complete());
}

#[test]
fn init_and_shutdown() {
    let mut net = LwipState::new();
    assert!(net.init_needed());
    assert!(!net.poll());
    assert_eq!(net.finish_init(false), Err(NetworkError::InitFailed));
    assert!(net.init_needed());
    assert_eq!(net.finish_init(true), Ok(()));
    assert!(!net.init_needed());
    assert!(net.poll());
    assert!(net.shutdown());
    assert!(!net.shutdown());
    assert!(!net.poll());
}

#[test]
fn cleanup_and_reset_empty_the_buffer() {
    let mut net = ready_state();
    assert!(net.tftp_write_cb(&[1, 2, 3]));
    net.reset_tftp_state();
    assert_eq!(net.tftp_buffered_len(), 0);
    assert!(net.tftp_write_cb(&[1, 2, 3]));
    assert!(net.cleanup_tftp());
    assert_eq!(net.tftp_buffered_len(), 0);
    assert!(!net.cleanup_tftp());
    assert!(!net.tftp_is_complete());
}

#[test]
fn random_numbers_follow_xorshift() {
    let mut state = lib::network::RAND_SEED;
    assert_eq!(lib::network::simple_rand(&mut state), 0x87985aa5);
    assert_eq!(state, 0x87985aa5);
    assert_eq!(lib::network::simple_rand(&mut state), 0x155b24a3);
}

#[test]
fn lwip_clock_in_milliseconds() {
    assert_eq!(lib::network::sys_now_ms(1_000_000, 2_500_000), 2_500);
    assert_eq!(lib::network::sys_now_ms(0, 2_500_000), 0);
    // Kept to 32 bits.
    assert_eq!(lib::network::sys_now_ms(1_000, 0x1_0000_0005), 5);
    assert_eq!(lib::network::sys_arch_protect(), 0);
}

#[test]
fn cleanup_drops_an_initialised_transfer() {
    let mut net = LwipState::new();
    assert!(net.init_tftp(true).is_ok());
    assert!(net.start_tftp_get(b"f\0").is_ok());
    assert_eq!(net.deliver_block(b"abc"), 0);
    assert!(net.cleanup_tftp());
    assert_eq!(net.tftp_buffered_len(), 0);
    assert!(!net.tftp_is_complete());
    assert!(!net.tftp_has_error());
    assert!(net.start_tftp_get(b"f\0").is_err());
    assert!(!net.cleanup_tftp());
}
