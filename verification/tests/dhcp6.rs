use lib::dhcp6::{parse_colon_parts, parse_ipv6_addr, radix16_value, Dhcp6Client};
use lib::lwip::Ipv6Addr;

fn segs(s: &str) -> Option<[u16; 8]> {
    parse_ipv6_addr(s.as_bytes()).map(|a| a.segments)
}

#[test]
fn radix16_reads_like_from_str_radix() {
    for text in ["0", "ffff", "FFFF", "+1a", "0001", "", "+", "-1", "10000", "g", "12 "] {
        assert_eq!(
            radix16_value(text.as_bytes()),
            u16::from_str_radix(text, 16).ok(),
            "text {text:?}"
        );
    }
}

#[test]
fn colon_parts_values() {
    assert_eq!(parse_colon_parts(b"1:a:ff"), Some(vec![1, 0xa, 0xff]));
    assert_eq!(parse_colon_parts(b"1::2"), None); // empty piece
    assert_eq!(parse_colon_parts(b"1:"), None);
    assert_eq!(parse_colon_parts(b"abcd"), Some(vec![0xabcd]));
}

#[test]
fn text_addresses() {
    assert_eq!(segs("fd00:1234:5678::1"), Some([0xfd00, 0x1234, 0x5678, 0, 0, 0, 0, 1]));
    assert_eq!(segs("::"), Some([0; 8]));
    assert_eq!(segs("1:2:3:4:5:6:7:8"), Some([1, 2, 3, 4, 5, 6, 7, 8]));
    assert_eq!(segs("+1::+2"), Some([1, 0, 0, 0, 0, 0, 0, 2]));
    assert_eq!(segs("1:2::"), Some([1, 2, 0, 0, 0, 0, 0, 0]));
}

#[test]
fn text_addresses_rejected() {
    assert_eq!(segs("12345::1"), None); // does not fit 16 bits
    assert_eq!(segs("1:2:3:4:5:6:7:"), None); // empty last piece
    assert_eq!(segs("1:2:3:4:5:6:7"), None); // seven pieces
    assert_eq!(segs("1::2::3"), None);
    assert_eq!(segs("1:2:3:4:5::6:7:8:9"), None);
    assert_eq!(segs(""), None);
}

#[test]
fn url_as_text() {
    let client = Dhcp6Client::new();
    let (addr, path) = client.parse_boot_file_url("tftp://[fd00::1]/boot.bin").unwrap();
    assert_eq!(addr.segments, [0xfd00, 0, 0, 0, 0, 0, 0, 1]);
    assert_eq!(path, "boot.bin");
    let (_, path) = client.parse_boot_file_url("tftp://[::1]ä.bin").unwrap();
    assert_eq!(path, "ä.bin");
    assert!(client.parse_boot_file_url("tftp://[::1").is_none());
    assert!(client.parse_boot_file_url("ftp://[::1]/x").is_none());
    assert!(client.parse_boot_file_url("tftp://[12345::1]/x").is_none());
}

#[test]
fn client_addresses_and_state() {
    let mut client = Dhcp6Client::new();
    let link_local = Ipv6Addr::new([0xfe80, 0, 0, 0, 0, 0, 0, 1]);
    let global = Ipv6Addr::new([0x2001, 0xdb8, 0, 0, 0, 0, 0, 1]);
    assert!(!client.has_address(&[Some(global), Some(link_local)]));
    assert!(client.has_address(&[None, None, Some(global)]));
    assert_eq!(client.global_address(&[None, Some(global)]).unwrap().segments, global.segments);
    assert!(!client.stop());
    client.mark_started();
    assert!(client.stop());
    assert!(!client.stop());
}
