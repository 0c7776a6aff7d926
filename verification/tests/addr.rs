use ivlan::addr::{Ipv4Addr, Ipv6Addr};

#[test]
fn ipv4_octets_come_most_significant_first() {
    let addr = Ipv4Addr { bits: 0x7925_0009 };
    assert_eq!(addr.octets(), [121, 37, 0, 9]);
    assert_eq!(Ipv4Addr::from_octets([121, 37, 0, 9]), addr);
}

#[test]
fn ipv4_survives_its_octets() {
    for bits in [0u32, 1, 0x0102_0304, u32::MAX] {
        let addr = Ipv4Addr { bits };
        assert_eq!(Ipv4Addr::from_octets(addr.octets()), addr);
        assert_eq!(addr.octets(), bits.to_be_bytes());
    }
}

#[test]
fn ipv6_survives_its_octets() {
    for bits in [0u128, 1, 0xfd00 << 112, 0x0102_0304_0506_0708_090a_0b0c_0d0e_0f10, u128::MAX] {
        let addr = Ipv6Addr { bits };
        assert_eq!(Ipv6Addr::from_octets(addr.octets()), addr);
        assert_eq!(addr.octets(), bits.to_be_bytes());
    }
}
