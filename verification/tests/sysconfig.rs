use cares_rs::servers_csv::{
    parse_from_reader, parse_ns_addr, parse_port, parse_servers_str, split_ns_addr,
};
use cares_rs::sysconfig::{
    parse_options_into, strip_comment, take_num_arg, IpAddr, Options, ParseError, ResolvConf,
};

fn parse_ipv4(text: &str) -> Option<[u8; 4]> {
    let parts: Vec<&str> = text.split('.').collect();
    if parts.len() != 4 {
        return None;
    }
    let mut octets = [0u8; 4];
    for (i, part) in parts.iter().enumerate() {
        if part.is_empty() || part.len() > 3 || !part.bytes().all(|b| b.is_ascii_digit()) {
            return None;
        }
        if part.len() > 1 && part.starts_with('0') {
            return None;
        }
        octets[i] = part.parse::<u8>().ok()?;
    }
    Some(octets)
}

fn parse_groups(text: &str) -> Option<Vec<u16>> {
    if text.is_empty() {
        return Some(vec![]);
    }
    let mut groups = vec![];
    for part in text.split(':') {
        if part.is_empty() || part.len() > 4 || !part.bytes().all(|b| b.is_ascii_hexdigit()) {
            return None;
        }
        groups.push(u16::from_str_radix(part, 16).ok()?);
    }
    Some(groups)
}

fn parse_ipv6(text: &str) -> Option<[u8; 16]> {
    let groups: Vec<u16> = match text.find("::") {
        Some(at) => {
            let head = parse_groups(&text[..at])?;
            let tail = parse_groups(&text[at + 2..])?;
            if head.len() + tail.len() > 7 {
                return None;
            }
            let mut all = head;
            let zeros = 8 - all.len() - tail.len();
            all.extend(std::iter::repeat(0).take(zeros));
            all.extend(tail);
            all
        }
        None => parse_groups(text)?,
    };
    if groups.len() != 8 {
        return None;
    }
    let mut octets = [0u8; 16];
    for (i, group) in groups.iter().enumerate() {
        octets[2 * i] = (group >> 8) as u8;
        octets[2 * i + 1] = (group & 0xff) as u8;
    }
    Some(octets)
}

/// Reads an address in the usual notation of either family.
fn parse_ip(text: &str) -> Option<IpAddr> {
    match parse_ipv4(text) {
        Some(octets) => Some(IpAddr::V4(octets)),
        None => parse_ipv6(text).map(IpAddr::V6),
    }
}

fn addr(ip: &str) -> IpAddr {
    parse_ip(ip).unwrap()
}

fn strings(parts: &[&str]) -> Vec<String> {
    parts.iter().map(|s| s.to_string()).collect()
}

#[test]
fn test_ipv4_and_default_port() {
    let input = "8.8.8.8:5353,1.1.1.1".as_bytes().to_vec();
    let out = parse_from_reader(input, parse_ip).unwrap();
    assert_eq!(out, vec![(addr("8.8.8.8"), Some(5353)), (addr("1.1.1.1"), None),]);
}

#[test]
fn test_ipv6_bare_defaults_to_53() {
    let input = "2001:db8::dead:beef".as_bytes().to_vec();
    let out = parse_from_reader(input, parse_ip).unwrap();
    assert_eq!(out, vec![(addr("2001:db8::dead:beef"), None)]);
}

#[test]
fn test_ipv6_bracketed_with_port() {
    let input = "[2001:db8::dead:beef]:5300".as_bytes().to_vec();
    let out = parse_from_reader(input, parse_ip).unwrap();
    assert_eq!(out, vec![(addr("2001:db8::dead:beef"), Some(5300))]);
}

#[test]
fn test_mixed_separators() {
    let input = "8.8.4.4:53,\n[::1]:5353\n2001:4860:4860::8888".as_bytes().to_vec();
    let out = parse_from_reader(input, parse_ip).unwrap();
    assert_eq!(
        out,
        vec![
            (addr("8.8.4.4"), Some(53)),
            (addr("::1"), Some(5353)),
            (addr("2001:4860:4860::8888"), None),
        ]
    );
}

#[test]
fn test_ignores_empty_tokens() {
    let input = ",, 8.8.8.8 ,, [::1]:5353 ,".as_bytes().to_vec();
    let out = parse_from_reader(input, parse_ip).unwrap();
    assert_eq!(out, vec![(addr("8.8.8.8"), None), (addr("::1"), Some(5353)),]);
}

#[test]
fn test_ipv4_with_and_without_port() {
    let input = "8.8.8.8:5353,1.1.1.1".as_bytes().to_vec();
    let out = parse_from_reader(input, parse_ip).unwrap();
    assert_eq!(out, vec![(addr("8.8.8.8"), Some(5353)), (addr("1.1.1.1"), None)]);
}

#[test]
fn test_mixed_separators_and_whitespace() {
    let input = "8.8.4.4:53,\n 9.9.9.9  , [::1]:5353 \n 2001:4860:4860::8888".as_bytes().to_vec();
    let out = parse_from_reader(input, parse_ip).unwrap();
    assert_eq!(
        out,
        vec![
            (addr("8.8.4.4"), Some(53)),
            (addr("9.9.9.9"), None),
            (addr("::1"), Some(5353)),
            (addr("2001:4860:4860::8888"), None),
        ]
    );
}

#[test]
fn server_list_that_is_not_utf8_is_refused() {
    assert_eq!(parse_from_reader(vec![b'1', 0xff], parse_ip), None);
    assert_eq!(parse_from_reader(vec![], parse_ip), Some(vec![]));
}

#[test]
fn server_list_with_a_bad_item_is_refused() {
    assert_eq!(parse_servers_str("8.8.8.8,example.org", parse_ip), None);
    assert_eq!(parse_servers_str("8.8.8.8: 53", parse_ip), None);
    assert_eq!(parse_servers_str("8.8.8.8:", parse_ip), None);
    assert_eq!(parse_servers_str("8.8.8.8:65536", parse_ip), None);
    assert_eq!(parse_servers_str("[::1]", parse_ip), None);
    assert_eq!(parse_servers_str("[::1]5353", parse_ip), None);
    assert_eq!(parse_servers_str("[::1:5353", parse_ip), None);
    assert_eq!(parse_servers_str("[8.8.8.8]:53", parse_ip), None);
    // an item of whitespace only is not empty, and denotes no server
    assert_eq!(parse_servers_str("8.8.8.8, ,1.1.1.1", parse_ip), None);
    assert_eq!(parse_servers_str("", parse_ip), Some(vec![]));
    assert_eq!(parse_servers_str(",\n,", parse_ip), Some(vec![]));
    assert_eq!(parse_servers_str("8.8.8.8:65535", parse_ip), Some(vec![(addr("8.8.8.8"), Some(65535))]));
    assert_eq!(parse_servers_str("8.8.8.8:0", parse_ip), Some(vec![(addr("8.8.8.8"), Some(0))]));
}

#[test]
fn server_text_is_parted_by_its_shape() {
    let pair = |a: &str, p: Option<&str>| Some((a.to_string(), p.map(str::to_string)));
    assert_eq!(split_ns_addr("8.8.8.8"), pair("8.8.8.8", None));
    assert_eq!(split_ns_addr("8.8.8.8:53"), pair("8.8.8.8", Some("53")));
    assert_eq!(split_ns_addr("::1"), pair("::1", None));
    assert_eq!(split_ns_addr("2001:db8::1"), pair("2001:db8::1", None));
    assert_eq!(split_ns_addr("[::1]:53"), pair("::1", Some("53")));
    assert_eq!(split_ns_addr("[]:"), pair("", Some("")));
    assert_eq!(split_ns_addr(""), pair("", None));
    assert_eq!(split_ns_addr(":"), pair("", Some("")));
    assert_eq!(split_ns_addr("a:b:c"), pair("a:b:c", None));
    assert_eq!(split_ns_addr("[::1]"), None);
    assert_eq!(split_ns_addr("[::1"), None);
    assert_eq!(split_ns_addr("[::1]x53"), None);
    assert_eq!(split_ns_addr("["), None);
}

#[test]
fn port_is_a_number_of_sixteen_bits() {
    assert_eq!(parse_port("0"), Some(0));
    assert_eq!(parse_port("53"), Some(53));
    assert_eq!(parse_port("65535"), Some(65535));
    assert_eq!(parse_port("65536"), None);
    assert_eq!(parse_port(""), None);
    assert_eq!(parse_port("-1"), None);
    assert_eq!(parse_port("5 3"), None);
    assert_eq!(parse_port("99999999999999999999999"), None);
    for text in ["0", "7", "080", "+53", "65535", "65536", "x", "", " 1"] {
        assert_eq!(parse_port(text), text.parse::<u16>().ok());
    }
}

#[test]
fn one_server_with_a_custom_address_parser() {
    let only_x = |t: &str| if t == "x" { Some(IpAddr::V4([1, 2, 3, 4])) } else { None };
    assert_eq!(parse_ns_addr("x", &only_x), Some((IpAddr::V4([1, 2, 3, 4]), None)));
    assert_eq!(parse_ns_addr("x:9", &only_x), Some((IpAddr::V4([1, 2, 3, 4]), Some(9))));
    assert_eq!(parse_ns_addr("y:9", &only_x), None);
    assert_eq!(parse_ns_addr("[x]:9", &only_x), None);
}

#[test]
fn parse_minimal() {
    let input = "nameserver 1.1.1.1\n";
    let conf: ResolvConf = ResolvConf::from_str(input, parse_ip).unwrap();
    assert_eq!(conf.nameservers.len(), 1);
    assert_eq!(conf.domain, None);
    assert!(conf.search.is_empty());
    assert_eq!(conf.options.timeout_secs, 5);
    assert_eq!(conf.options.attempts, 4);
}

#[test]
fn parse_multiple_nameservers_and_search() {
    let input = r#"
            # Sample resolv.conf
            nameserver 1.1.1.1 8.8.8.8
            nameserver 2001:4860:4860::8888 ; inline comment
            domain example.com
            search corp.local example.org
            options ndots:2 attempts:4 timeout:3 rotate use-vc
        "#;
    let conf: ResolvConf = ResolvConf::from_str(input, parse_ip).unwrap();
    assert_eq!(conf.nameservers.len(), 3);
    assert_eq!(conf.search, vec!["corp.local", "example.org"]);
    assert_eq!(conf.options.ndots, 2);
    assert_eq!(conf.options.attempts, 4);
    assert_eq!(conf.options.timeout_secs, 3);
    assert!(conf.options.rotate);
    assert!(conf.options.use_vc);
}

#[test]
fn parse_options_variants() {
    let input = "options retrans=7 edns0 foo=bar baz:9 qux";
    let conf: ResolvConf = ResolvConf::from_str(input, parse_ip).unwrap();
    assert_eq!(conf.options.timeout_secs, 7);
    assert!(conf.options.edns0);
}

#[test]
fn invalid_ip_errors() {
    let input = "nameserver not_an_ip";
    let err = ResolvConf::from_str(input, parse_ip).unwrap_err();
    match err {
        ParseError::InvalidIp(_) => {}
        _ => panic!("unexpected error: {:?}", err),
    }
}

#[test]
fn missing_value_errors() {
    let input = "domain\nsearch\noptions ndots";
    let err = ResolvConf::from_str(input, parse_ip).unwrap_err();
    match err {
        ParseError::MissingValue { .. } | ParseError::InvalidNumber { .. } => {}
        _ => panic!("unexpected error: {:?}", err),
    }
}

#[test]
fn whole_configuration_is_read_exactly() {
    let input = "nameserver 9.9.9.9 ::1 # two of them\r\n\
                 domain a.example b.example\n\
                 search x y\n\
                 unknown keyword with values\n\
                 search z\n\
                 domain last.example\n\
                 \n\
                 ; nothing here\n\
                 options ndots=3 inet6 timeout:9 retrans:11\n\
                 nameserver 1.2.3.4";
    let conf = ResolvConf::from_str(input, parse_ip).unwrap();
    let expected = ResolvConf {
        nameservers: vec![addr("9.9.9.9"), addr("::1"), addr("1.2.3.4")],
        domain: Some("last.example".to_string()),
        search: strings(&["x", "y", "z"]),
        options: Options {
            ndots: 3,
            attempts: 4,
            timeout_secs: 11,
            use_vc: false,
            rotate: false,
            inet6: true,
            edns0: false,
        },
    };
    assert_eq!(conf, expected);
}

#[test]
fn empty_configuration_is_the_default() {
    let expected = ResolvConf::default();
    assert_eq!(expected.options, Options::default());
    assert_eq!(expected.options.attempts, 4);
    assert_eq!(expected.options.timeout_secs, 5);
    assert_eq!(ResolvConf::from_str("", parse_ip), Ok(expected.clone()));
    assert_eq!(ResolvConf::from_str("\n\n  \n# c\n;;", parse_ip), Ok(expected));
}

#[test]
fn each_error_names_what_was_wrong() {
    let invalid_ip = ResolvConf::from_str("nameserver 1.1.1.1 1.1.1 2.2.2.2", parse_ip);
    assert_eq!(invalid_ip, Err(ParseError::InvalidIp("1.1.1".to_string())));
    let no_value = ResolvConf::from_str("search # nothing", parse_ip);
    assert_eq!(no_value, Err(ParseError::MissingValue { keyword: "search".to_string() }));
    let unknown_alone = ResolvConf::from_str("lookup", parse_ip);
    assert_eq!(unknown_alone, Err(ParseError::MissingValue { keyword: "lookup".to_string() }));
    let no_number = ResolvConf::from_str("options rotate ndots", parse_ip);
    assert_eq!(no_number, Err(ParseError::MissingValue { keyword: "ndots".to_string() }));
    let empty_number = ResolvConf::from_str("options attempts:", parse_ip);
    assert_eq!(empty_number, Err(ParseError::MissingValue { keyword: "attempts".to_string() }));
    let bad_number = ResolvConf::from_str("options timeout:soon", parse_ip);
    assert_eq!(
        bad_number,
        Err(ParseError::InvalidNumber { keyword: "timeout".to_string(), value: "soon".to_string() })
    );
    let too_large = ResolvConf::from_str("options ndots:4294967296", parse_ip);
    assert_eq!(
        too_large,
        Err(ParseError::InvalidNumber {
            keyword: "ndots".to_string(),
            value: "4294967296".to_string()
        })
    );
}

#[test]
fn first_error_wins() {
    let r = ResolvConf::from_str("nameserver bad\ndomain", parse_ip);
    assert_eq!(r, Err(ParseError::InvalidIp("bad".to_string())));
    let r = ResolvConf::from_str("domain\nnameserver bad", parse_ip);
    assert_eq!(r, Err(ParseError::MissingValue { keyword: "domain".to_string() }));
}

#[test]
fn comment_is_stripped_and_the_rest_trimmed() {
    assert_eq!(strip_comment("  nameserver 1.1.1.1  ; primary"), "nameserver 1.1.1.1");
    assert_eq!(strip_comment("a # b ; c"), "a");
    assert_eq!(strip_comment("a ; b # c"), "a");
    assert_eq!(strip_comment("# only a comment"), "");
    assert_eq!(strip_comment("   "), "");
    assert_eq!(strip_comment(""), "");
    assert_eq!(strip_comment("\tno comment\r"), "no comment");
    assert_eq!(strip_comment("\u{a0}wide\u{3000}"), "wide");
}

#[test]
fn numeric_argument() {
    assert_eq!(take_num_arg("ndots", "2", u32::MAX as u64), Ok(2));
    assert_eq!(take_num_arg("ndots", "4294967295", u32::MAX as u64), Ok(4294967295));
    assert_eq!(take_num_arg("timeout", "18446744073709551615", u64::MAX), Ok(u64::MAX));
    assert_eq!(
        take_num_arg("ndots", "", u32::MAX as u64),
        Err(ParseError::MissingValue { keyword: "ndots".to_string() })
    );
    assert_eq!(
        take_num_arg("timeout", "18446744073709551616", u64::MAX),
        Err(ParseError::InvalidNumber {
            keyword: "timeout".to_string(),
            value: "18446744073709551616".to_string()
        })
    );
    assert_eq!(
        take_num_arg("attempts", "-3", u32::MAX as u64),
        Err(ParseError::InvalidNumber { keyword: "attempts".to_string(), value: "-3".to_string() })
    );
}

#[test]
fn options_are_applied_in_order_up_to_the_first_error() {
    let mut opts = Options::default();
    assert_eq!(parse_options_into(&mut opts, "ndots:1 ndots=7 usevc  edns0 rotate inet6"), Ok(()));
    let expected = Options {
        ndots: 7,
        attempts: 4,
        timeout_secs: 5,
        use_vc: true,
        rotate: true,
        inet6: true,
        edns0: true,
    };
    assert_eq!(opts, expected);

    let mut opts = Options::default();
    let r = parse_options_into(&mut opts, "attempts:9 timeout:x rotate");
    assert_eq!(
        r,
        Err(ParseError::InvalidNumber { keyword: "timeout".to_string(), value: "x".to_string() })
    );
    assert_eq!(opts.attempts, 9);
    assert_eq!(opts.timeout_secs, 5);
    assert!(!opts.rotate);

    let mut opts = Options::default();
    assert_eq!(parse_options_into(&mut opts, "  "), Ok(()));
    assert_eq!(opts, Options::default());
    // a value behind a switch, and an option that is not known, are passed over
    assert_eq!(parse_options_into(&mut opts, "rotate:no debug ndots-x:5 timeout:2:3"), Err(
        ParseError::InvalidNumber { keyword: "timeout".to_string(), value: "2:3".to_string() }
    ));
    assert!(opts.rotate);
    assert_eq!(opts.ndots, 0);
}

#[test]
fn configuration_becomes_that_of_a_channel() {
    let conf = ResolvConf::from_str("nameserver 1.1.1.1 ::1\nsearch a\ndomain d", parse_ip).unwrap();
    let config = conf.clone().into_sysconfig();
    assert_eq!(config.nameservers, vec![(addr("1.1.1.1"), None), (addr("::1"), None)]);
    assert_eq!(config.domain, conf.domain);
    assert_eq!(config.search, conf.search);
    assert_eq!(config.options, conf.options);
}

#[test]
fn addresses_of_both_families_are_read() {
    assert_eq!(addr("8.8.4.4"), IpAddr::V4([8, 8, 4, 4]));
    assert_eq!(
        addr("2001:db8::dead:beef"),
        IpAddr::V6([0x20, 0x01, 0x0d, 0xb8, 0, 0, 0, 0, 0, 0, 0, 0, 0xde, 0xad, 0xbe, 0xef])
    );
    assert_eq!(addr("::1"), IpAddr::V6([0, 0, 0, 0, 0, 0, 0, 0, 0, 0, 0, 0, 0, 0, 0, 1]));
    assert_eq!(parse_ip("1.1.1"), None);
    assert_eq!(parse_ip("not_an_ip"), None);
    assert_eq!(parse_ip(""), None);
}

