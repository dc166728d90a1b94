use confgen::error::ConfError;
use confgen::ip::{IPClass, IPError, IPType, IPv4};

fn net(s: &str) -> IPv4 {
    IPv4::parse(s).unwrap()
}

#[test]
fn parse_and_render_round_trip() {
    let a = net("192.168.1.1/24");
    assert_eq!(a.fmt(false), "192.168.1.1/24");
    assert_eq!(a.fmt(true), "192.168.1.1");
}

#[test]
fn parse_classifies_network_and_public() {
    // the tag is Network exactly when the masked network part is zero
    assert_eq!(net("0.0.0.7/8").ip_type(), IPType::Network);
    assert_eq!(net("192.168.1.1/24").ip_type(), IPType::Public);
    assert_eq!(net("dhcp").ip_type(), IPType::DHCP);
}

#[test]
fn parse_rejects_malformed_addresses() {
    for bad in [
        "10.0.0.0",
        "1.2.3/24",
        "1.2.3.4.5/24",
        "300.1.1.1/24",
        "1.2.3.4/33",
        "1.2.3.4/2/4",
        "a.b.c.d/24",
        "1.2.3.4/",
        "",
        "1.2.3.4/ 8",
    ] {
        assert_eq!(IPv4::parse(bad), Err(ConfError::ParseError), "{}", bad);
    }
}

#[test]
fn parse_accepts_padded_octets() {
    assert_eq!(net("010.0.000.1/8").fmt(false), "10.0.0.1/8");
}

#[test]
fn host_range_of_a_slash_30() {
    let a = net("10.0.0.0/30");
    assert_eq!(a.broadcast().fmt(true), "10.0.0.3");
    assert_eq!(a.first().fmt(true), "10.0.0.1");
    assert_eq!(a.last().fmt(true), "10.0.0.2");
    assert_eq!(a.num_hosts(), 1);
}

#[test]
fn network_and_host_parts() {
    let a = net("192.168.1.130/25");
    assert_eq!(a.network().fmt(true), "192.168.1.128");
    assert_eq!(a.subnet_addr().fmt(true), "0.0.0.2");
    assert_eq!(a.broadcast().fmt(true), "192.168.1.255");
}

#[test]
fn subnet_mask_rendering() {
    assert_eq!(net("192.168.1.1/24").subnet_mask().fmt(true), "255.255.255.0");
    assert_eq!(net("10.0.0.0/30").subnet_mask().fmt(true), "255.255.255.252");
    assert_eq!(net("dhcp").subnet_mask().fmt(true), "");
}

#[test]
fn next_walks_the_network() {
    let a = net("10.0.0.1/30");
    let b = a.next().unwrap();
    assert_eq!(b.fmt(true), "10.0.0.2");
    let c = b.next().unwrap();
    assert_eq!(c.fmt(true), "10.0.0.3");
    assert!(c.next().is_none());
}

#[test]
fn classes_by_leading_octet() {
    assert_eq!(net("10.0.0.1/8").class(), IPClass::A);
    assert_eq!(net("128.5.0.1/16").class(), IPClass::B);
    assert_eq!(net("192.168.1.1/24").class(), IPClass::C);
    assert_eq!(net("224.0.0.1/4").class(), IPClass::Unknown);
}

#[test]
fn mask_validity() {
    assert!(net("10.0.0.0/24").is_valid().is_ok());
    let holed = IPv4 {
        ip: 0,
        mask: 0x0F0F_0F0F,
        super_mask: 0,
        ip_type: IPType::Network,
    };
    match holed.is_valid() {
        Err(IPError::BadMask(m)) => assert_eq!(m, 0x0F0F_0F0F),
        _ => panic!("a holed mask must be rejected"),
    }
    let full = IPv4 {
        ip: 0,
        mask: 0xFFFF_FFFF,
        super_mask: 0,
        ip_type: IPType::Network,
    };
    assert!(full.is_valid().is_err());
}

#[test]
fn mask_num_counts_prefix_bits() {
    assert_eq!(net("10.0.0.0/8").mask_num(), 8);
    assert_eq!(net("10.0.0.0/30").mask_num(), 30);
    assert_eq!(net("dhcp").mask_num(), 0);
}

#[test]
fn build_net_divides_evenly() {
    let parent = net("192.168.1.0/24");
    let subs = IPv4::build_net(parent, 3);
    assert_eq!(subs.len(), 4);
    let expected = [
        "192.168.1.0/26",
        "192.168.1.64/26",
        "192.168.1.128/26",
        "192.168.1.192/26",
    ];
    for (k, s) in subs.iter().enumerate() {
        assert_eq!(s.fmt(false), expected[k]);
        assert_eq!(s.mask_num(), 26);
        assert_eq!(s.super_mask, 0xFFFF_FF00);
        assert_eq!(s.ip_type(), IPType::Network);
    }
}

#[test]
fn build_net_single_subnet() {
    let parent = net("10.0.0.0/8");
    let subs = IPv4::build_net(parent, 1);
    assert_eq!(subs.len(), 1);
    assert_eq!(subs[0].fmt(false), "10.0.0.0/8");
    assert_eq!(subs[0].super_mask, 0xFF00_0000);
}

#[test]
fn subnet_numbering() {
    let parent = net("192.168.1.0/24");
    let subs = IPv4::build_net(parent, 4);
    let third = subs[2];
    assert_eq!(third.subnet_net().fmt(true), "0.0.0.128");
    assert_eq!(third.subnet_net_num().ip, 2);
}

#[test]
fn binary_rendering() {
    let a = net("255.0.0.1/24");
    assert_eq!(
        a.fmt_binary(false),
        "11111111.00000000.00000000.00000001/24"
    );
    assert_eq!(a.fmt_binary(true), "11111111.00000000.00000000.00000001");
}
