use rkl::key::{make_subnet_key, parse_subnet_key};
use rkl::net::{Ipv4Net, Ipv6Net};
use rkl::subnet::{
    ipv4_cidrs_from_entries, ipv6_cidrs_from_entries, read_cidrs_from_subnet_bytes,
    read_ip6_cidrs_from_subnet_bytes, single_ipv6_cidr, subnet_file_contents, NetworkConfig,
    SingleCidr, SubnetReceiver,
};

fn v4(text: &str) -> Ipv4Net {
    let n: ipnetwork::Ipv4Network = text.parse().unwrap();
    Ipv4Net::new(n.ip().octets(), n.prefix()).unwrap()
}

fn v6(text: &str) -> Ipv6Net {
    let n: ipnetwork::Ipv6Network = text.parse().unwrap();
    Ipv6Net::new(u128::from(n.ip()), n.prefix()).unwrap()
}

/// The key read directly with `regex` and `ipnetwork`, for comparison.
fn reference_parse(s: &str) -> Option<(String, Option<String>)> {
    let re = regex::Regex::new(r"(\d+\.\d+\.\d+\.\d+)-(\d+)(?:&([a-f\d:]+)-(\d+))?").unwrap();
    let caps = re.captures(s)?;
    let ipv4 = caps[1].parse().ok()?;
    let ipv4_prefix: u8 = caps[2].parse().ok()?;
    let ipv4_net = ipnetwork::Ipv4Network::new(ipv4, ipv4_prefix).ok()?;
    let ipv6_net = if let (Some(a), Some(p)) = (caps.get(3), caps.get(4)) {
        let ipv6 = a.as_str().parse().ok()?;
        let prefix: u8 = p.as_str().parse().ok()?;
        Some(ipnetwork::Ipv6Network::new(ipv6, prefix).ok()?)
    } else {
        None
    };
    Some((ipv4_net.to_string(), ipv6_net.map(|n| n.to_string())))
}

fn parsed_texts(s: &str) -> Option<(String, Option<String>)> {
    parse_subnet_key(s).map(|(a, b)| (a.to_string(), b.map(|n| n.to_string())))
}

#[test]
fn test_parse_subnet_key() {
    // IPv4 only
    let result = parse_subnet_key("10.0.1.0-24");
    assert!(result.is_some());
    let (ipv4, ipv6) = result.unwrap();
    assert_eq!(ipv4.to_string(), "10.0.1.0/24");
    assert!(ipv6.is_none());

    // IPv4 + IPv6
    let result = parse_subnet_key("10.0.1.0-24&fc00::-64");
    assert!(result.is_some());
    let (ipv4, ipv6) = result.unwrap();
    assert_eq!(ipv4.to_string(), "10.0.1.0/24");
    assert_eq!(ipv6.unwrap().to_string(), "fc00::/64");
}

#[test]
fn test_make_subnet_key() {
    let ipv4 = v4("10.0.1.0/24");
    let ipv6 = v6("fc00::/64");

    // IPv4 only
    let key = make_subnet_key(&ipv4, None);
    assert_eq!(key, "10.0.1.0-24");

    // IPv4 + IPv6
    let key = make_subnet_key(&ipv4, Some(&ipv6));
    assert_eq!(key, "10.0.1.0-24&fc00::-64");
}

#[test]
fn test_write_subnet_file() {
    let config = NetworkConfig {
        enable_ipv4: true,
        enable_ipv6: false,
        network: Some(v4("10.0.0.0/16")),
        ..Default::default()
    };
    let subnet = v4("10.0.1.0/24");
    let contents = subnet_file_contents(&config, true, Some(subnet), None, 1500);
    assert!(contents.contains("RKL_NETWORK=10.0.0.0/16"));
    assert!(contents.contains("RKL_SUBNET=10.0.1.0/24"));
    assert!(contents.contains("RKL_MTU=1500"));
    assert!(contents.contains("RKL_IPMASQ=true"));
}

#[test]
fn subnet_file_contents_exact() {
    let config = NetworkConfig {
        enable_ipv4: true,
        enable_ipv6: true,
        network: Some(v4("10.0.0.0/16")),
        ipv6_network: Some(v6("fc00::/48")),
    };
    let contents = subnet_file_contents(
        &config,
        false,
        Some(v4("10.0.1.0/24")),
        Some(v6("fc00:0:0:1::/64")),
        9000,
    );
    assert_eq!(
        contents,
        "RKL_NETWORK=10.0.0.0/16\nRKL_SUBNET=10.0.1.0/24\nRKL_IPV6_NETWORK=fc00::/48\nRKL_IPV6_SUBNET=fc00:0:0:1::/64\nRKL_MTU=9000\nRKL_IPMASQ=false\n"
    );
}

#[test]
fn subnet_file_contents_skips_disabled_families() {
    let config = NetworkConfig {
        enable_ipv4: false,
        enable_ipv6: true,
        network: None,
        ipv6_network: None,
    };
    let contents = subnet_file_contents(&config, true, Some(v4("10.0.1.0/24")), None, 0);
    assert_eq!(contents, "RKL_MTU=0\nRKL_IPMASQ=true\n");
}

#[test]
fn network_text_of_every_octet() {
    let n = Ipv4Net::new([255, 0, 9, 100], 32).unwrap();
    assert_eq!(n.to_string(), "255.0.9.100/32");
    assert_eq!(n.ip(), [255, 0, 9, 100]);
    assert_eq!(n.prefix(), 32);
    assert!(Ipv4Net::new([1, 2, 3, 4], 33).is_none());
    assert!(Ipv6Net::new(1, 129).is_none());
    let m = Ipv6Net::new(1, 128).unwrap();
    assert_eq!(m.addr(), 1);
    assert_eq!(m.to_string(), "::1/128");
}

#[test]
fn subnet_key_roundtrip_examples() {
    let cases = [
        ("0.0.0.0/0", None),
        ("255.255.255.255/32", Some("::/0")),
        ("10.244.3.0/24", Some("fd00:10:244:3::/64")),
        ("192.168.1.7/30", Some("2001:db8::1/128")),
        ("1.2.3.4/5", Some("1:2:3:4:5:6:7:8/100")),
    ];
    for (a, b) in cases {
        let n4 = v4(a);
        let n6 = b.map(v6);
        let key = make_subnet_key(&n4, n6.as_ref());
        assert!(!key.contains('/'));
        assert_eq!(parse_subnet_key(&key), Some((n4, n6)));
    }
}

#[test]
fn subnet_key_ipv4_mapped_address_is_not_read_back() {
    // The IPv6 text leaves [a-f0-9:], so the key's IPv6 half is not recognised.
    let n4 = v4("10.0.1.0/24");
    let n6 = v6("::ffff:1.2.3.4/96");
    let key = make_subnet_key(&n4, Some(&n6));
    assert_eq!(key, "10.0.1.0-24&::ffff:1.2.3.4-96");
    assert_eq!(parse_subnet_key(&key), Some((n4, None)));
}

#[test]
fn subnet_key_edge_cases() {
    // The match is searched for anywhere in the text.
    assert_eq!(parsed_texts("x10.0.1.0-24y"), Some(("10.0.1.0/24".to_string(), None)));
    // Leftmost match: five dotted numbers match from the second one.
    assert_eq!(parsed_texts("1.2.3.4.5-6"), Some(("2.3.4.5/6".to_string(), None)));
    // An octet with a leading zero is refused.
    assert_eq!(parsed_texts("010.0.0.1-24"), None);
    // A prefix may have leading zeros.
    assert_eq!(parsed_texts("10.0.1.0-024"), Some(("10.0.1.0/24".to_string(), None)));
    // Prefixes beyond the family's width, or beyond a byte.
    assert_eq!(parsed_texts("10.0.1.0-33"), None);
    assert_eq!(parsed_texts("10.0.1.0-256"), None);
    assert_eq!(parsed_texts("256.0.0.1-8"), None);
    // An IPv6 half that matches but is no address makes the whole key invalid.
    assert_eq!(parsed_texts("10.0.1.0-24&abc-64"), None);
    assert_eq!(parsed_texts("10.0.1.0-24&fc00::-129"), None);
    // An IPv6 half that does not match is ignored.
    assert_eq!(parsed_texts("10.0.1.0-24&zz"), Some(("10.0.1.0/24".to_string(), None)));
    assert_eq!(parsed_texts("10.0.1.0-24&::g-64"), Some(("10.0.1.0/24".to_string(), None)));
    assert_eq!(
        parsed_texts("10.0.1.0-24&fc00::-064"),
        Some(("10.0.1.0/24".to_string(), Some("fc00::/64".to_string())))
    );
    assert_eq!(parsed_texts(""), None);
    assert_eq!(parsed_texts("1.2.3-4"), None);
}

#[test]
fn subnet_key_matches_the_pattern_reading() {
    let inputs = [
        "10.0.1.0-24",
        "10.0.1.0-24&fc00::-64",
        "x10.0.1.0-24y",
        "1.2.3.4.5-6",
        "010.0.0.1-24",
        "10.0.1.0-024",
        "10.0.1.0-33",
        "10.0.1.0-256",
        "256.0.0.1-8",
        "10.0.1.0-24&abc-64",
        "10.0.1.0-24&zz",
        "10.0.1.0-24&::g-64",
        "10.0.1.0-24&fc00::-129",
        "10.0.1.0-24&fc00::-064",
        "a.b.c.d-1",
        "",
        "1.2.3-4",
        "9.9.9.9-9&1:2:3:4:5:6:7:8-128",
        "10.0.0.1-8&fc00::1-64&fd00::-48",
        "11.22.33.44-5x6.7.8.9-10",
        "0.0.0.0-0",
        "255.255.255.255-32&::-0",
        "1.2.3.4-5&::ffff:1.2.3.4-96",
        "1.2.3.4-5&-6",
        "1.2.3.4-&fc00::-6",
        "1111.2.3.4-5",
        "1.2.3.4-5&fc00:::-6",
        "1.2.3.4-99999999999999999999",
        "1.2.3.4-000000000000000000032",
        "..1.2.3.4-5",
        "1.2.3.4--5 2.3.4.5-6",
        // Digits beyond ASCII: the pattern matches them, the addresses do not.
        "\u{661}1.2.3.4-5",
        "\u{661}.2.3.4-5 1.2.3.4-5",
        "1.2.3.4-\u{663}",
        "1.2.3.4-5\u{663}",
        "1.2.3.4-5&fc00::\u{663}-64",
        "1.2.3.4-5&fc00::-6\u{663}",
        "\u{b2}1.2.3.4-5",
        "\u{ff11}.2.3.4-5",
    ];
    for s in inputs {
        assert_eq!(parsed_texts(s), reference_parse(s), "input {s:?}");
    }
}

#[test]
fn cidrs_from_entries_by_key() {
    let entries = vec![
        ("RKL_SUBNET".to_string(), " 10.0.1.0/24 , bad ,10.0.2.0/24".to_string()),
        ("OTHER".to_string(), "10.9.9.0/24".to_string()),
        ("RKL_SUBNET".to_string(), "10.0.3.0".to_string()),
        ("RKL_SUBNET".to_string(), "".to_string()),
    ];
    let cidrs = ipv4_cidrs_from_entries(&entries, "RKL_SUBNET");
    let texts: Vec<String> = cidrs.iter().map(|c| c.to_string()).collect();
    assert_eq!(texts, vec!["10.0.1.0/24", "10.0.2.0/24", "10.0.3.0/32"]);
    assert!(ipv4_cidrs_from_entries(&entries, "MISSING").is_empty());
}

#[test]
fn ipv4_cidr_forms_read_from_entries() {
    let value = "10.0.0.1, 10.1.0.0/255.255.0.0, 10.2.0.0/255.0.255.0, 10.3.0.0/+8, \
                 10.4.0.0/008, bogus, 1.2.3.4/8/9, 01.2.3.4/8, 10.5.0.0/33, 10.6.0.0/, \
                 10.7.0.0/0.0.0.0, 10.8.0.0/255.255.255.255";
    let entries = vec![("K".to_string(), value.to_string())];
    let texts: Vec<String> =
        ipv4_cidrs_from_entries(&entries, "K").iter().map(|c| c.to_string()).collect();
    assert_eq!(
        texts,
        vec![
            "10.0.0.1/32",
            "10.1.0.0/16",
            "10.3.0.0/8",
            "10.4.0.0/8",
            "10.7.0.0/0",
            "10.8.0.0/32",
        ]
    );
}

#[test]
fn ipv6_cidrs_and_single_lookup() {
    let entries = vec![
        ("RKL_IPV6_SUBNET".to_string(), "fc00::/64,\tfd00::1/128 ".to_string()),
        ("ONE".to_string(), "fc00:1::/64".to_string()),
    ];
    let many = ipv6_cidrs_from_entries(&entries, "RKL_IPV6_SUBNET");
    assert_eq!(many.len(), 2);
    assert_eq!(many[1].to_string(), "fd00::1/128");
    assert!(matches!(single_ipv6_cidr(&many), SingleCidr::Ambiguous));
    let one = ipv6_cidrs_from_entries(&entries, "ONE");
    match single_ipv6_cidr(&one) {
        SingleCidr::Found(n) => assert_eq!(n.to_string(), "fc00:1::/64"),
        _ => panic!("expected one network"),
    }
    let none = ipv6_cidrs_from_entries(&entries, "NONE");
    assert!(matches!(single_ipv6_cidr(&none), SingleCidr::Missing));
}

#[test]
fn subnet_receiver_keeps_its_path() {
    let r = SubnetReceiver::new("/tmp/subnet.env".to_string());
    assert_eq!(r.subnet_file_path, "/tmp/subnet.env");
}

#[test]
fn subnet_file_lines_read_back() {
    let config = NetworkConfig {
        enable_ipv4: true,
        enable_ipv6: true,
        network: Some(v4("10.0.0.0/16")),
        ipv6_network: Some(v6("fc00::/48")),
    };
    let sn4 = v4("10.0.7.0/24");
    let sn6 = v6("fc00:0:0:7::/64");
    let contents = subnet_file_contents(&config, true, Some(sn4), Some(sn6), 1450);
    let entries: Vec<(String, String)> = contents
        .lines()
        .map(|l| {
            let (k, v) = l.split_once('=').unwrap();
            (k.to_string(), v.to_string())
        })
        .collect();
    assert_eq!(ipv4_cidrs_from_entries(&entries, "RKL_SUBNET"), vec![sn4]);
    assert_eq!(ipv4_cidrs_from_entries(&entries, "RKL_NETWORK"), vec![config.network.unwrap()]);
    assert_eq!(ipv6_cidrs_from_entries(&entries, "RKL_IPV6_SUBNET"), vec![sn6]);
    assert_eq!(
        ipv6_cidrs_from_entries(&entries, "RKL_IPV6_NETWORK"),
        vec![config.ipv6_network.unwrap()]
    );
    match single_ipv6_cidr(&ipv6_cidrs_from_entries(&entries, "RKL_IPV6_SUBNET")) {
        SingleCidr::Found(n) => assert_eq!(n, sn6),
        _ => panic!("the IPv6 subnet is not read back"),
    }
    // dotenvy reads the same entries from the file's text.
    let read: Vec<(String, String)> =
        dotenvy::from_read_iter(contents.as_bytes()).flatten().collect();
    assert_eq!(read, entries);
}

#[test]
fn subnet_file_of_one_family_lists_nothing_for_the_other() {
    let config = NetworkConfig {
        enable_ipv4: true,
        enable_ipv6: false,
        network: Some(v4("10.0.0.0/16")),
        ipv6_network: None,
    };
    let sn4 = v4("10.0.7.0/24");
    let contents = subnet_file_contents(&config, false, Some(sn4), None, 1500);
    let entries: Vec<(String, String)> =
        dotenvy::from_read_iter(contents.as_bytes()).flatten().collect();
    assert_eq!(ipv4_cidrs_from_entries(&entries, "RKL_SUBNET"), vec![sn4]);
    assert!(ipv6_cidrs_from_entries(&entries, "RKL_IPV6_SUBNET").is_empty());
    assert!(ipv6_cidrs_from_entries(&entries, "RKL_IPV6_NETWORK").is_empty());
}

#[test]
fn written_subnet_file_reads_back_from_its_bytes() {
    let config = NetworkConfig {
        enable_ipv4: true,
        enable_ipv6: true,
        network: Some(v4("10.0.0.0/16")),
        ipv6_network: Some(v6("fc00::/48")),
    };
    let sn4 = v4("10.0.7.0/24");
    let sn6 = v6("fc00:0:0:7::/64");
    let contents = subnet_file_contents(&config, true, Some(sn4), Some(sn6), 1450);
    let bytes = contents.as_bytes();
    assert_eq!(read_cidrs_from_subnet_bytes(bytes, "RKL_SUBNET"), vec![sn4]);
    assert_eq!(read_cidrs_from_subnet_bytes(bytes, "RKL_NETWORK"), vec![config.network.unwrap()]);
    assert_eq!(read_ip6_cidrs_from_subnet_bytes(bytes, "RKL_IPV6_SUBNET"), vec![sn6]);
    assert_eq!(
        read_ip6_cidrs_from_subnet_bytes(bytes, "RKL_IPV6_NETWORK"),
        vec![config.ipv6_network.unwrap()]
    );
    match single_ipv6_cidr(&read_ip6_cidrs_from_subnet_bytes(bytes, "RKL_IPV6_SUBNET")) {
        SingleCidr::Found(n) => assert_eq!(n, sn6),
        _ => panic!("the IPv6 subnet is not read back"),
    }
    assert!(read_cidrs_from_subnet_bytes(bytes, "RKL_MTU").is_empty());
}

#[test]
fn subnet_bytes_are_read_as_an_env_file() {
    let text = "# a comment\n\
                RKL_SUBNET=\"10.0.1.0/24, 10.0.2.0/24\"\n\
                export RKL_SUBNET='10.0.3.0/24' # trailing comment\n\
                not a line\n\
                RKL_IPV6_SUBNET=fc00::/64\n\
                OTHER=10.9.0.0/16\n";
    let texts: Vec<String> = read_cidrs_from_subnet_bytes(text.as_bytes(), "RKL_SUBNET")
        .iter()
        .map(|c| c.to_string())
        .collect();
    assert_eq!(texts, vec!["10.0.1.0/24", "10.0.2.0/24", "10.0.3.0/24"]);
    assert_eq!(read_ip6_cidrs_from_subnet_bytes(text.as_bytes(), "RKL_IPV6_SUBNET"), vec![v6(
        "fc00::/64"
    )]);
    assert!(read_cidrs_from_subnet_bytes(b"", "RKL_SUBNET").is_empty());
    assert!(read_cidrs_from_subnet_bytes(&[0xff, 0xfe, b'\n'], "RKL_SUBNET").is_empty());
}
