use std::str::FromStr;

use inet2_services::addr::{
    pick_address, split_socket_ext_text, split_socket_text, strip_onion_suffix, AddrParseError, InetAddr, InetSocketAddr,
    InetSocketAddrExt, Transport, UniformEncodingError,
};

const DOC_KEY: [u8; 32] = [
    215, 90, 152, 1, 130, 177, 10, 183, 213, 75, 254, 211, 201, 100, 7, 58, 14, 225, 114, 243,
    218, 166, 35, 37, 175, 2, 26, 104, 247, 7, 81, 26,
];
const DOC_KEY_ONION: &str = "25njqamcweflpvkl73j4szahhihoc4xt3ktcgjnpaingr5yhkenl5sid.onion";
const V2_TEXT: &str = "expyuzz4wqqyqhjn";
const V2_BYTES: [u8; 10] = [37, 223, 138, 103, 60, 180, 33, 136, 29, 45];

fn bad_key() -> [u8; 32] {
    let mut k = [0u8; 32];
    k[0] = 2;
    k
}

#[test]
fn test_transport() {
    assert_eq!(Transport::Tcp.to_string(), "tcp");
    assert_eq!(Transport::Udp.to_string(), "udp");
    assert_eq!(Transport::Quic.to_string(), "quic");
    assert_eq!(Transport::Mtcp.to_string(), "mtcp");

    assert_eq!(Transport::from_str("tcp").unwrap(), Transport::Tcp);
    assert_eq!(Transport::from_str("Tcp").unwrap(), Transport::Tcp);
    assert_eq!(Transport::from_str("TCP").unwrap(), Transport::Tcp);
    assert_eq!(Transport::from_str("udp").unwrap(), Transport::Udp);
    assert_eq!(Transport::from_str("quic").unwrap(), Transport::Quic);
    assert_eq!(Transport::from_str("mtcp").unwrap(), Transport::Mtcp);
    assert!(Transport::from_str("xtp").is_err());
}

#[test]
fn transport_unknown_name_error_keeps_text() {
    assert_eq!(
        Transport::from_name("XTP"),
        Err(AddrParseError::UnknownProtocolError("XTP".to_string()))
    );
    assert_eq!(Transport::from_lowercase_name("QUIC"), None);
    assert_eq!(Transport::from_lowercase_name("quic"), Some(Transport::Quic));
}

#[test]
fn transport_uniform_codes() {
    for (t, b) in [
        (Transport::Tcp, 1u8),
        (Transport::Udp, 2),
        (Transport::Mtcp, 3),
        (Transport::Quic, 4),
    ] {
        assert_eq!(t.to_uniform_encoding(), b);
        assert_eq!(Transport::from_uniform_encoding(b), Some(t));
    }
    assert_eq!(Transport::from_uniform_encoding(0), None);
    assert_eq!(Transport::from_uniform_encoding(5), None);
    assert_eq!(Transport::default(), Transport::Tcp);
}

#[test]
fn inet_addr_ip_views() {
    let ip4 = InetAddr::IPv4([127, 0, 0, 1]);
    let mut loopback6 = [0u8; 16];
    loopback6[15] = 1;
    let ip6 = InetAddr::IPv6(loopback6);
    let mut mapped = [0u8; 16];
    mapped[10] = 0xff;
    mapped[11] = 0xff;
    mapped[12..].copy_from_slice(&[127, 0, 0, 1]);
    assert_eq!(ip4.to_ipv6(), Some(mapped));
    assert_eq!(ip6.to_ipv6(), Some(loopback6));
    assert_eq!(ip4.to_ipv4(), Some([127, 0, 0, 1]));
    assert_eq!(ip6.to_ipv4(), None);
    assert_eq!(InetAddr::Tor(DOC_KEY).to_ipv6(), None);
    assert!(!ip4.is_tor());
    assert!(!ip6.is_tor());
    assert!(InetAddr::Tor(DOC_KEY).is_tor());
    assert!(InetAddr::TorV2(V2_BYTES).is_tor());
    assert_eq!(InetAddr::TorV2(V2_BYTES).to_onion_v2(), Some(V2_BYTES));
    assert_eq!(InetAddr::Tor(DOC_KEY).to_onion(), Some(DOC_KEY));
    assert_eq!(ip4.to_onion(), None);
    assert_eq!(InetAddr::default(), InetAddr::IPv4([0, 0, 0, 0]));
}

#[test]
fn uniform_encoding_ipv4_corner() {
    let enc = InetAddr::IPv4([127, 0, 0, 1]).to_uniform_encoding();
    assert_eq!(enc.len(), InetAddr::UNIFORM_ADDR_LEN);
    assert_eq!(enc[0], 0);
    assert!(enc[1..29].iter().all(|b| *b == 0));
    assert_eq!(&enc[29..], &[0x7f, 0x00, 0x00, 0x01]);
}

#[test]
fn uniform_encoding_tor_v3_corner() {
    let enc = InetAddr::Tor(DOC_KEY).to_uniform_encoding();
    assert_eq!(enc[0], 3);
    assert_eq!(&enc[1..], &DOC_KEY);
    assert_eq!(InetAddr::from_uniform_encoding(&enc), Some(InetAddr::Tor(DOC_KEY)));
}

#[test]
fn uniform_round_trip_all_cases() {
    let mut v6 = [0u8; 16];
    v6[0] = 0x20;
    v6[1] = 0x01;
    v6[15] = 7;
    for a in [
        InetAddr::IPv4([127, 0, 0, 1]),
        InetAddr::IPv6(v6),
        InetAddr::TorV2(V2_BYTES),
        InetAddr::Tor(DOC_KEY),
    ] {
        let enc = a.to_uniform_encoding();
        assert_eq!(InetAddr::from_uniform_encoding(&enc), Some(a));
    }
    let enc6 = InetAddr::IPv6(v6).to_uniform_encoding();
    assert_eq!(enc6[0], 1);
    assert_eq!(&enc6[17..], &v6);
    let enc2 = InetAddr::TorV2(V2_BYTES).to_uniform_encoding();
    assert_eq!(enc2[0], 2);
    assert!(enc2[1..23].iter().all(|b| *b == 0));
    assert_eq!(&enc2[23..], &V2_BYTES);
}

#[test]
fn uniform_tags_distinguish_cases() {
    let zero4 = InetAddr::IPv4([0; 4]).to_uniform_encoding();
    let zero6 = InetAddr::IPv6([0; 16]).to_uniform_encoding();
    let zero2 = InetAddr::TorV2([0; 10]).to_uniform_encoding();
    assert_ne!(zero4.to_vec(), zero6.to_vec());
    assert_ne!(zero4.to_vec(), zero2.to_vec());
    assert_ne!(zero6.to_vec(), zero2.to_vec());
    assert_eq!(InetAddr::from_uniform_encoding(&zero6), Some(InetAddr::IPv6([0; 16])));
}

#[test]
fn uniform_decode_rejects() {
    let mut enc = InetAddr::IPv4([10, 0, 0, 1]).to_uniform_encoding();
    assert_eq!(InetAddr::from_uniform_encoding(&enc[..32]), None);
    enc[0] = 4;
    assert_eq!(InetAddr::from_uniform_encoding(&enc), None);
    let mut bad = [0u8; 33];
    bad[0] = 3;
    bad[1..].copy_from_slice(&bad_key());
    assert_eq!(InetAddr::from_uniform_encoding(&bad), None);
}

#[test]
fn inet_addr_from_native_bytes() {
    assert_eq!(InetAddr::from_bytes(&[1, 2, 3, 4]), Ok(InetAddr::IPv4([1, 2, 3, 4])));
    assert_eq!(InetAddr::from_bytes(&[9u8; 16]), Ok(InetAddr::IPv6([9u8; 16])));
    assert_eq!(InetAddr::from_bytes(&DOC_KEY), Ok(InetAddr::Tor(DOC_KEY)));
    assert_eq!(InetAddr::from_bytes(&bad_key()), Err(UniformEncodingError::InvalidFormat));
    assert_eq!(InetAddr::from_bytes(&[1, 2, 3, 4, 5]), Err(UniformEncodingError::WrongLength(5)));
}

#[test]
fn inet_addr_order() {
    let ip4 = InetAddr::IPv4([1, 0, 0, 0]);
    let ip4b = InetAddr::IPv4([1, 0, 0, 2]);
    let ip6 = InetAddr::IPv6([0xff; 16]);
    let v2 = InetAddr::TorV2(V2_BYTES);
    let v3 = InetAddr::Tor(DOC_KEY);
    assert!(ip4 > ip6);
    assert!(ip6 > v2);
    assert!(v2 > v3);
    assert!(ip4 < ip4b);
    assert_eq!(ip4.partial_cmp(&ip4), Some(std::cmp::Ordering::Equal));
    assert_eq!(ip4.cmp(&ip6), std::cmp::Ordering::Greater);
}

#[test]
fn inet_socket_addr_codec() {
    let ip4 = InetSocketAddr::new(InetAddr::IPv4([127, 0, 0, 1]), 6865);
    let mut loopback6 = [0u8; 16];
    loopback6[15] = 1;
    let ip6 = InetSocketAddr::new(InetAddr::IPv6(loopback6), 6865);
    assert!(!ip4.is_tor());
    assert!(!ip6.is_tor());
    let uenc4 = ip4.to_uniform_encoding();
    assert_eq!(uenc4.len(), InetSocketAddr::UNIFORM_ADDR_LEN);
    assert_eq!(&uenc4[33..], &[0x1a, 0xd1]);
    assert_eq!(InetSocketAddr::from_uniform_encoding(&uenc4).unwrap(), ip4);
    let uenc6 = ip6.to_uniform_encoding();
    assert_ne!(uenc4.to_vec(), uenc6.to_vec());
    assert_eq!(InetSocketAddr::from_uniform_encoding(&uenc6).unwrap(), ip6);
    assert_eq!(InetSocketAddr::from_uniform_encoding(&uenc6[..34]), None);
    assert_eq!(
        InetSocketAddr::default(),
        InetSocketAddr::new(InetAddr::IPv4([0, 0, 0, 0]), 0)
    );
}

#[test]
fn test_inet_socket_addr_ext() {
    let ip4 = InetSocketAddrExt::tcp(InetAddr::IPv4([127, 0, 0, 1]), 6865);
    let mut loopback6 = [0u8; 16];
    loopback6[15] = 1;
    let ip6 = InetSocketAddrExt::udp(InetAddr::IPv6(loopback6), 6865);
    assert_eq!(ip4.0, Transport::Tcp);
    assert_eq!(ip6.0, Transport::Udp);
    assert_eq!(
        InetSocketAddrExt::default(),
        InetSocketAddrExt::tcp(InetAddr::IPv4([0, 0, 0, 0]), 0)
    );
    let uenc4 = ip4.to_uniform_encoding();
    assert_eq!(uenc4.len(), InetSocketAddrExt::UNIFORM_ADDR_LEN);
    assert_eq!(uenc4[0], 1);
    assert_eq!(InetSocketAddrExt::from_uniform_encoding(&uenc4).unwrap(), ip4);
    let uenc6 = ip6.to_uniform_encoding();
    assert_ne!(uenc4.to_vec(), uenc6.to_vec());
    assert_eq!(InetSocketAddrExt::from_uniform_encoding(&uenc6).unwrap(), ip6);
    // The text forms: the library splits them; IP text itself is `std::net`'s.
    assert_eq!(split_socket_ext_text("tcp://0.0.0.0:0"), Ok(("tcp", "0.0.0.0:0")));
    assert_eq!(split_socket_ext_text("tcp://127.0.0.1:6865"), Ok(("tcp", "127.0.0.1:6865")));
    assert_eq!(split_socket_ext_text("udp://[::1]:6865"), Ok(("udp", "[::1]:6865")));
    assert_eq!(Transport::from_name("udp"), Ok(ip6.0));
    assert_eq!(
        InetSocketAddr::with_port_text(InetAddr::IPv4([127, 0, 0, 1]), Some("6865")),
        Ok(ip4.1)
    );
    assert_eq!(ip4.0.to_string(), "tcp");
    assert_eq!(ip6.0.to_string(), "udp");
    let mut unknown = uenc6;
    unknown[0] = 9;
    assert_eq!(InetSocketAddrExt::from_uniform_encoding(&unknown), None);
}

#[test]
fn onion_suffix_stripping() {
    assert_eq!(strip_onion_suffix("abc.onion"), "abc");
    assert_eq!(strip_onion_suffix("abc"), "abc");
    assert_eq!(strip_onion_suffix(".onion"), "");
    assert_eq!(strip_onion_suffix("onion"), "onion");
}

#[test]
fn parse_address_texts() {
    let ip = InetAddr::IPv4([127, 0, 0, 1]);
    assert_eq!(InetAddr::parse_with_ip("127.0.0.1", Some(ip)), Ok(ip));
    assert_eq!(
        InetAddr::parse_with_ip(DOC_KEY_ONION, None),
        Ok(InetAddr::Tor(DOC_KEY))
    );
    assert_eq!(
        InetAddr::parse_with_ip(&DOC_KEY_ONION[..56], None),
        Ok(InetAddr::Tor(DOC_KEY))
    );
    assert_eq!(InetAddr::parse_with_ip(V2_TEXT, None), Ok(InetAddr::TorV2(V2_BYTES)));
    assert_eq!(
        InetAddr::parse_with_ip("nowhere", None),
        Err(AddrParseError::WrongAddrFormat("nowhere".to_string()))
    );
    // A text that reads both as an IP address and as an onion address.
    assert_eq!(
        InetAddr::parse_with_ip(V2_TEXT, Some(ip)),
        Err(AddrParseError::WrongAddrFormat(V2_TEXT.to_string()))
    );
}

#[test]
fn ambiguous_candidates_rejected() {
    let ip = InetAddr::IPv4([1, 1, 1, 1]);
    let v3 = InetAddr::Tor(DOC_KEY);
    let v2 = InetAddr::TorV2(V2_BYTES);
    assert_eq!(pick_address("s", Some(ip), None, None), Ok(ip));
    assert_eq!(pick_address("s", None, Some(v3), None), Ok(v3));
    assert_eq!(pick_address("s", None, None, Some(v2)), Ok(v2));
    for (a, b, c) in [
        (Some(ip), Some(v3), None),
        (Some(ip), None, Some(v2)),
        (None, Some(v3), Some(v2)),
        (Some(ip), Some(v3), Some(v2)),
        (None, None, None),
    ] {
        assert_eq!(
            pick_address("s", a, b, c),
            Err(AddrParseError::WrongAddrFormat("s".to_string()))
        );
    }
}

#[test]
fn tor_text_of_addresses() {
    assert_eq!(InetAddr::Tor(DOC_KEY).tor_text(), Some(DOC_KEY_ONION.to_string()));
    assert_eq!(
        InetAddr::TorV2(V2_BYTES).tor_text(),
        Some(format!("{}.onion", V2_TEXT))
    );
    assert_eq!(InetAddr::Tor(bad_key()).tor_text(), None);
    assert_eq!(InetAddr::IPv4([1, 2, 3, 4]).tor_text(), None);
}

#[test]
fn tor_v2_text_round_trip() {
    let text = InetAddr::TorV2(V2_BYTES).tor_text().unwrap();
    assert_eq!(InetAddr::parse_with_ip(&text, None), Ok(InetAddr::TorV2(V2_BYTES)));
}

#[test]
fn socket_text_split() {
    assert_eq!(split_socket_text("127.0.0.1:6865"), ("127.0.0.1", Some("6865")));
    assert_eq!(split_socket_text("localhost"), ("localhost", None));
    assert_eq!(split_socket_text(":80"), ("", Some("80")));
    // A bare IPv6 address is all address, with the port left to default.
    assert_eq!(split_socket_text("::1"), ("::1", None));
    assert_eq!(split_socket_text("::1:6865"), ("::1:6865", None));
}

#[test]
fn socket_port_text() {
    let a = InetAddr::IPv4([127, 0, 0, 1]);
    assert_eq!(InetSocketAddr::with_port_text(a, Some("6865")), Ok(InetSocketAddr::new(a, 6865)));
    assert_eq!(InetSocketAddr::with_port_text(a, Some("+80")), Ok(InetSocketAddr::new(a, 80)));
    assert_eq!(InetSocketAddr::with_port_text(a, Some("65535")), Ok(InetSocketAddr::new(a, 65535)));
    assert_eq!(InetSocketAddr::with_port_text(a, None), Ok(InetSocketAddr::new(a, 0)));
    for bad in ["65536", "", "+", "-1", "8o"] {
        assert_eq!(
            InetSocketAddr::with_port_text(a, Some(bad)),
            Err(AddrParseError::WrongPortNumber)
        );
    }
}

#[test]
fn socket_ext_text_split() {
    assert_eq!(split_socket_ext_text("tcp://127.0.0.1:6865"), Ok(("tcp", "127.0.0.1:6865")));
    assert_eq!(split_socket_ext_text("udp://[::1]:6865"), Ok(("udp", "[::1]:6865")));
    assert_eq!(split_socket_ext_text("://"), Ok(("", "")));
    for bad in ["tcp:/127.0.0.1", "127.0.0.1", "a://b://c", ""] {
        assert_eq!(
            split_socket_ext_text(bad),
            Err(AddrParseError::WrongSocketExtFormat(bad.to_string()))
        );
    }
}

#[test]
fn onion_text_round_trip() {
    let text = InetAddr::Tor(DOC_KEY).tor_text().unwrap();
    assert_eq!(InetAddr::parse_with_ip(&text, None), Ok(InetAddr::Tor(DOC_KEY)));
    let upper = text.to_uppercase();
    assert_eq!(
        InetAddr::parse_with_ip(&upper, None),
        Err(AddrParseError::WrongAddrFormat(upper.clone()))
    );
}
