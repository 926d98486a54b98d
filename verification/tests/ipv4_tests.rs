use rdns_domains::ipv4::{ipv4_checked, ipv4_to_u32, is_ipv4};

#[test]
fn packs_in_network_order() {
    assert_eq!(ipv4_to_u32(b"192.168.32.1"), 3232243713);
    assert_eq!(ipv4_to_u32(b"192.168.32.1"), 0xC0A82001);
}

#[test]
fn packs_small_example() {
    assert_eq!(ipv4_to_u32(b"1.2.3.4"), 16909060);
}

#[test]
fn extreme_octets() {
    assert_eq!(ipv4_to_u32(b"0.0.0.0"), 0);
    assert_eq!(ipv4_to_u32(b"255.255.255.255"), 0xFFFFFFFF);
    assert_eq!(ipv4_to_u32(b"127.0.0.1"), 0x7F000001);
}

#[test]
fn leading_zeros_are_accepted() {
    assert_eq!(ipv4_to_u32(b"010.001.000.009"), (10 << 24) | (1 << 16) | 9);
}

#[test]
fn well_formed_addresses_are_recognized() {
    assert!(is_ipv4(b"1.2.3.4"));
    assert!(is_ipv4(b"255.255.255.255"));
    assert_eq!(ipv4_checked(b"1.120.175.74"), Some((1 << 24) | (120 << 16) | (175 << 8) | 74));
}

#[test]
fn malformed_addresses_are_refused() {
    assert_eq!(ipv4_checked(b""), None);
    assert_eq!(ipv4_checked(b"1.2.3"), None);
    assert_eq!(ipv4_checked(b"1.2.3.4.5"), None);
    assert_eq!(ipv4_checked(b"999.1.1.1"), None);
    assert_eq!(ipv4_checked(b"256.0.0.1"), None);
    assert_eq!(ipv4_checked(b"a.b.c.d"), None);
    assert_eq!(ipv4_checked(b"1..2.3"), None);
    assert_eq!(ipv4_checked(b"1.2.3."), None);
    assert_eq!(ipv4_checked(b".1.2.3"), None);
    assert_eq!(ipv4_checked(b"1.2.3.4 "), None);
    assert_eq!(ipv4_checked(b"0001.2.3.4"), None);
}
