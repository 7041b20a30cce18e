use bini_server::network::{
    announced_address, dotted_text, get_network_ip, virtual_name, Address, Interface,
};

fn v4(name: &str, a: u8, b: u8, c: u8, d: u8) -> Interface {
    Interface { name: name.to_string(), address: Address::V4([a, b, c, d]) }
}

fn v6(name: &str) -> Interface {
    Interface { name: name.to_string(), address: Address::V6 }
}

fn ip(interfaces: Vec<Interface>) -> Option<String> {
    get_network_ip(Some(&interfaces))
}

#[test]
fn without_interfaces_there_is_no_address() {
    assert_eq!(get_network_ip(None), None);
    assert_eq!(ip(vec![]), None);
}

#[test]
fn first_private_address_wins() {
    assert_eq!(
        ip(vec![
            v4("lo", 127, 0, 0, 1),
            v6("eth0"),
            v4("eth0", 8, 8, 8, 8),
            v4("wlan0", 192, 168, 1, 5),
            v4("eth1", 10, 0, 0, 2),
        ]),
        Some("192.168.1.5".to_string())
    );
}

#[test]
fn public_address_is_the_fallback() {
    assert_eq!(
        ip(vec![v4("eth0", 8, 8, 8, 8), v4("eth1", 9, 9, 9, 9)]),
        Some("8.8.8.8".to_string())
    );
}

#[test]
fn private_ranges_have_their_bounds() {
    for (address, private) in [
        ([10, 255, 0, 1], true),
        ([11, 0, 0, 1], false),
        ([172, 15, 0, 1], false),
        ([172, 16, 0, 1], true),
        ([172, 31, 0, 1], true),
        ([172, 32, 0, 1], false),
        ([192, 168, 0, 1], true),
        ([192, 169, 0, 1], false),
    ] {
        let other = v4("eth0", 8, 8, 8, 8);
        let tested = Interface { name: "eth1".to_string(), address: Address::V4(address) };
        let expected = if private { dotted_text(address) } else { "8.8.8.8".to_string() };
        assert_eq!(ip(vec![other, tested]), Some(expected));
    }
}

#[test]
fn virtual_interfaces_are_skipped_in_any_case() {
    for name in
        ["docker0", "DOCKER0", "doc\u{212a}er0", "veth1", "br-12", "VBoxNet", "vmnet8", "tun0", "tap0", "utun3"]
    {
        assert_eq!(ip(vec![v4(name, 10, 0, 0, 1)]), None, "{}", name);
    }
    assert_eq!(ip(vec![v4("Ethernet", 10, 0, 0, 1)]), Some("10.0.0.1".to_string()));
}

#[test]
fn names_are_compared_in_lower_case() {
    assert!(virtual_name("docker0"));
    assert!(!virtual_name("DOCKER0"));
    assert_eq!(
        announced_address(&vec![v4("TUN0", 10, 0, 0, 1)]),
        Some("10.0.0.1".to_string())
    );
}

#[test]
fn loopback_and_link_local_addresses_are_skipped() {
    assert_eq!(ip(vec![v4("a", 127, 1, 2, 3), v4("b", 169, 254, 1, 1)]), None);
    assert_eq!(ip(vec![v4("b", 169, 253, 1, 1)]), Some("169.253.1.1".to_string()));
}

#[test]
fn addresses_are_dotted() {
    assert_eq!(dotted_text([0, 9, 10, 255]), "0.9.10.255");
}
