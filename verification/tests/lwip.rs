use lib::lwip::{
    dhcp_boot_file_name, first_global_address, global_ipv6_addr_index, has_global_ipv6_address,
    parse_boot_file_url, parse_hex_segments, parse_ipv6_addr_bytes, BaremetalNetIf,
    BaremetalTftpClient, Ipv6Addr, LwipError,
};

fn segs(s: &[u8]) -> Option<[u16; 8]> {
    parse_ipv6_addr_bytes(s).map(|a| a.segments)
}

#[test]
fn ipv6_full_form() {
    assert_eq!(
        segs(b"fd00:1234:5678:0:0:0:0:1"),
        Some([0xfd00, 0x1234, 0x5678, 0, 0, 0, 0, 1])
    );
}

#[test]
fn ipv6_double_colon_forms() {
    assert_eq!(segs(b"fd00:1234:5678::1"), Some([0xfd00, 0x1234, 0x5678, 0, 0, 0, 0, 1]));
    assert_eq!(segs(b"::1"), Some([0, 0, 0, 0, 0, 0, 0, 1]));
    assert_eq!(segs(b"::"), Some([0; 8]));
    assert_eq!(segs(b"fe80::"), Some([0xfe80, 0, 0, 0, 0, 0, 0, 0]));
    assert_eq!(segs(b"1:2:3:4::5:6:7:8"), Some([1, 2, 3, 4, 5, 6, 7, 8]));
    assert_eq!(segs(b"FD00::aB"), Some([0xfd00, 0, 0, 0, 0, 0, 0, 0xab]));
}

#[test]
fn ipv6_rejects_malformed_text() {
    assert_eq!(segs(b"1:2:3"), None); // too few segments without ::
    assert_eq!(segs(b"1:2:3:4:5:6:7:8:9"), None); // too many segments
    assert_eq!(segs(b"g::1"), None); // not a hex digit
    assert_eq!(segs(b":::1"), None); // empty segment after ::
    assert_eq!(segs(b"1::2::3"), None); // second ::
    assert_eq!(segs(b"1:2:3:4:5::6:7:8:9"), None); // nine segments with ::
    assert_eq!(segs(b""), None);
}

#[test]
fn ipv6_segment_must_fit_sixteen_bits() {
    assert_eq!(segs(b"12345::1"), None);
    assert_eq!(segs(b"1::fffff"), None);
    assert_eq!(segs(b"0ffff::1"), Some([0xffff, 0, 0, 0, 0, 0, 0, 1]));
    let mut out = [0u16; 8];
    assert_eq!(parse_hex_segments(b"1:10000", &mut out, 0), None);
}

#[test]
fn hex_segments_count_and_values() {
    let mut out = [0xffffu16; 8];
    assert_eq!(parse_hex_segments(b"a:bc:def", &mut out, 0), Some(3));
    assert_eq!(out[..4], [0xa, 0xbc, 0xdef, 0xffff]);

    // A trailing colon closes the last segment.
    let mut out = [0u16; 8];
    assert_eq!(parse_hex_segments(b"1:2:", &mut out, 0), Some(2));

    // A leading colon closes nothing.
    let mut out = [0u16; 8];
    assert_eq!(parse_hex_segments(b":1", &mut out, 0), None);

    // From a start index, fewer segments fit.
    let mut out = [0u16; 8];
    assert_eq!(parse_hex_segments(b"1:2:3", &mut out, 6), None);
    assert_eq!(parse_hex_segments(b"1:2", &mut out, 6), Some(2));
    assert_eq!(out[6..], [1, 2]);
}

#[test]
fn boot_file_url_parts() {
    let (addr, path) = parse_boot_file_url(b"tftp://[fd00:1234:5678::1]/boot.bin").unwrap();
    assert_eq!(addr.segments, [0xfd00, 0x1234, 0x5678, 0, 0, 0, 0, 1]);
    assert_eq!(path, b"boot.bin");

    // Without the slash the rest is the path.
    let (addr, path) = parse_boot_file_url(b"tftp://[::1]image").unwrap();
    assert_eq!(addr.segments, [0, 0, 0, 0, 0, 0, 0, 1]);
    assert_eq!(path, b"image");

    // The path keeps a NUL terminator that follows it.
    let (_, path) = parse_boot_file_url(b"tftp://[::2]/a.bin\0").unwrap();
    assert_eq!(path, b"a.bin\0");
}

#[test]
fn boot_file_url_rejects() {
    assert!(parse_boot_file_url(b"http://[::1]/boot.bin").is_none());
    assert!(parse_boot_file_url(b"tftp://[::1/boot.bin").is_none());
    assert!(parse_boot_file_url(b"tftp://[zz::1]/boot.bin").is_none());
    assert!(parse_boot_file_url(b"tftp://").is_none());
}

#[test]
fn netif_parses_dhcp6_url() {
    let netif = BaremetalNetIf::new();
    let (addr, path) = netif.dhcp6_parse_boot_file_url(b"tftp://[fd00::1]/boot.cfg").unwrap();
    assert_eq!(addr.segments, [0xfd00, 0, 0, 0, 0, 0, 0, 1]);
    assert_eq!(path, b"boot.cfg");
}

#[test]
fn netif_lifecycle() {
    let mut netif = BaremetalNetIf::new();
    assert_eq!(netif.check_init(), Ok(()));
    netif.mark_initialized();
    assert_eq!(netif.check_init(), Err(LwipError::AlreadyConnected));
    assert!(netif.dhcp_start_needed());
    assert!(!netif.dhcp_has_address(true));
    netif.mark_dhcp_started();
    assert!(!netif.dhcp_start_needed());
    assert!(netif.dhcp_has_address(true));
    assert!(!netif.dhcp_has_address(false));
    assert!(netif.shutdown());
    assert_eq!(netif.check_init(), Ok(()));
    assert!(!netif.shutdown());
}

#[test]
fn dhcp_boot_file_name_stops_at_nul() {
    let mut name = [0u8; 128];
    name[..9].copy_from_slice(b"boot.cfg\0");
    assert_eq!(dhcp_boot_file_name(&name), b"boot.cfg");

    let empty = [0u8; 128];
    assert_eq!(dhcp_boot_file_name(&empty), b"");

    let full = [b'x'; 128];
    assert_eq!(dhcp_boot_file_name(&full).len(), 128);
}

#[test]
fn global_address_slots() {
    assert!(!has_global_ipv6_address(&[0x30, 0x10, 0x00]));
    assert!(has_global_ipv6_address(&[0x00, 0x30, 0x00]));
    assert!(has_global_ipv6_address(&[0x00, 0x00, 0x31]));
    assert_eq!(global_ipv6_addr_index(&[0x30, 0x10, 0x30]), 2);
    assert_eq!(global_ipv6_addr_index(&[0x30, 0x30, 0x30]), 1);
    assert_eq!(global_ipv6_addr_index(&[0x30, 0x00, 0x00]), 1);
}

#[test]
fn first_global_address_skips_link_local() {
    let link_local = Ipv6Addr::new([0xfe80, 0, 0, 0, 0, 0, 0, 1]);
    let global = Ipv6Addr::new([0xfd00, 0, 0, 0, 0, 0, 0, 5]);
    assert!(link_local.is_link_local());
    assert!(!global.is_link_local());
    // Slot 0 is never considered.
    let slots = [Some(global), Some(link_local), None, Some(global)];
    let found = first_global_address(&slots).unwrap();
    assert_eq!(found.segments, global.segments);
    let none = [Some(global), Some(link_local), None];
    assert!(first_global_address(&none).is_none());
}

#[test]
fn tftp_client_checks_get_requests() {
    let mut client = BaremetalTftpClient::new();
    assert_eq!(client.start_get(b"boot.cfg\0"), Err(LwipError::NotConnected));
    client.init(true);
    assert_eq!(client.start_get(b"boot.cfg"), Err(LwipError::IllegalArgument));
    assert_eq!(client.start_get(b""), Err(LwipError::IllegalArgument));
    assert_eq!(client.start_get(b"boot.cfg\0"), Ok(()));
    assert!(!client.is_complete());
    assert!(!client.has_error());
}

#[test]
fn tftp_client_counts_blocks_and_errors() {
    let mut client = BaremetalTftpClient::new();
    assert_eq!(client.on_write(true, 10), -1); // no transfer record yet
    client.init(true);
    client.start_get(b"f\0").unwrap();
    assert_eq!(client.on_write(true, 512), 0);
    assert_eq!(client.on_write(true, 100), 0);
    assert_eq!(client.bytes_received(), 612);
    assert_eq!(client.on_write(false, 50), -1);
    assert!(client.has_error());
    assert_eq!(client.bytes_received(), 612);
    client.on_close();
    assert!(client.is_complete());

    client.start_get(b"f\0").unwrap();
    assert_eq!(client.bytes_received(), 0);
    client.on_error();
    assert!(client.has_error());
    assert!(client.is_complete());

    assert!(client.cleanup());
    assert!(!client.cleanup());
    assert_eq!(client.bytes_received(), 0);
}

#[test]
fn tftp_client_init_refused() {
    let mut client = BaremetalTftpClient::new();
    client.init(false);
    assert_eq!(client.start_get(b"f\0"), Err(LwipError::NotConnected));
    client.get_refused();
    assert!(client.is_complete());
}
