use cares_rs::af::{AF_INET, AF_INET6};
use cares_rs::ares_hostent::{
    ares_parse_a_reply, ares_parse_aaaa_reply, ares_parse_ns_reply, parse_hostent, Hostent,
    HostentParseMode,
};
use cares_rs::error::{ARES_EBADRESP, ARES_EFORMERR, ARES_ENODATA};

/// A reply to a question for "mydomain.local" with the given answers, each
/// given as its record type and data, all named by a pointer to the question.
fn reply(answers: &[(u16, &[u8])]) -> Vec<u8> {
    let mut msg: Vec<u8> = vec![0x8a, 0x70, 0x81, 0x80, 0x00, 0x01];
    msg.extend_from_slice(&(answers.len() as u16).to_be_bytes());
    msg.extend_from_slice(&[0, 0, 0, 0]);
    msg.extend_from_slice(b"\x08mydomain\x05local\x00\x00\x01\x00\x01");
    for (record_type, data) in answers {
        msg.extend_from_slice(&[0xc0, 0x0c]);
        msg.extend_from_slice(&record_type.to_be_bytes());
        msg.extend_from_slice(&[0x00, 0x01, 0x00, 0x00, 0x01, 0x2c]);
        msg.extend_from_slice(&(data.len() as u16).to_be_bytes());
        msg.extend_from_slice(data);
    }
    msg
}

#[test]
fn address_families_are_those_of_the_c_library() {
    assert_eq!(AF_INET, libc::AF_INET);
    assert_eq!(AF_INET6, libc::AF_INET6);
}

#[test]
fn a_reply_gives_ipv4_addresses() {
    let msg = reply(&[(1, &[1, 2, 3, 4]), (1, &[5, 6, 7, 8])]);
    let expected = Hostent {
        h_name: b"mydomain.local\0".to_vec(),
        h_aliases: vec![None],
        h_addrtype: libc::AF_INET,
        h_length: 4,
        h_addr_list: vec![Some(vec![1, 2, 3, 4]), Some(vec![5, 6, 7, 8]), None],
    };
    assert_eq!(parse_hostent(&msg, HostentParseMode::Addrs), Ok(expected));
}

#[test]
fn aaaa_reply_gives_ipv6_addresses() {
    let addr: [u8; 16] = [0x20, 0x01, 0x0d, 0xb8, 0, 0, 0, 0, 0, 0, 0, 0, 0, 0, 0, 1];
    let msg = reply(&[(0x1c, &addr)]);
    let expected = Hostent {
        h_name: b"mydomain.local\0".to_vec(),
        h_aliases: vec![None],
        h_addrtype: libc::AF_INET6,
        h_length: 16,
        h_addr_list: vec![Some(addr.to_vec()), None],
    };
    assert_eq!(parse_hostent(&msg, HostentParseMode::Addrs), Ok(expected));
}

#[test]
fn mode_for_one_family_keeps_only_that_family() {
    let v4 = reply(&[(1, &[1, 2, 3, 4])]);
    let host = parse_hostent(&v4, HostentParseMode::Addrs4).unwrap();
    assert_eq!(host.h_addr_list, vec![Some(vec![1, 2, 3, 4]), None]);
    let host = parse_hostent(&v4, HostentParseMode::Addrs6).unwrap();
    assert_eq!(host.h_addr_list, vec![None]);
    assert_eq!(host.h_addrtype, libc::AF_INET);
    assert_eq!(host.h_length, 4);

    let addr = [7u8; 16];
    let v6 = reply(&[(0x1c, &addr)]);
    let host = parse_hostent(&v6, HostentParseMode::Addrs6).unwrap();
    assert_eq!(host.h_addr_list, vec![Some(addr.to_vec()), None]);
    let host = parse_hostent(&v6, HostentParseMode::Addrs4).unwrap();
    assert_eq!(host.h_addr_list, vec![None]);
    assert_eq!(host.h_addrtype, libc::AF_INET6);
}

#[test]
fn skipped_addresses_are_not_checked_for_length() {
    let odd = reply(&[(1, &[1, 2, 3])]);
    assert_eq!(parse_hostent(&odd, HostentParseMode::Addrs), Err(ARES_EFORMERR));
    assert_eq!(parse_hostent(&odd, HostentParseMode::Addrs4), Err(ARES_EFORMERR));
    let host = parse_hostent(&odd, HostentParseMode::Addrs6).unwrap();
    assert_eq!(host.h_addr_list, vec![None]);
    assert_eq!(host.h_length, 3);
}

#[test]
fn address_of_the_wrong_length_is_a_format_error() {
    let msg = reply(&[(1, &[1, 2, 3, 4]), (1, &[1, 2, 3, 4, 5])]);
    assert_eq!(parse_hostent(&msg, HostentParseMode::Addrs), Err(ARES_EFORMERR));
    let msg = reply(&[(0x1c, &[1, 2, 3, 4])]);
    assert_eq!(parse_hostent(&msg, HostentParseMode::Addrs), Err(ARES_EFORMERR));
    assert_eq!(parse_hostent(&msg, HostentParseMode::Addrs6), Err(ARES_EFORMERR));
}

#[test]
fn address_length_goes_by_the_first_answer() {
    // the second answer is of type AAAA but the first fixed the IPv4 family
    let msg = reply(&[(1, &[1, 2, 3, 4]), (0x1c, &[9u8; 16])]);
    assert_eq!(parse_hostent(&msg, HostentParseMode::Addrs), Err(ARES_EFORMERR));
    let msg = reply(&[(1, &[1, 2, 3, 4]), (0x1c, &[9, 9, 9, 9])]);
    let host = parse_hostent(&msg, HostentParseMode::Addrs).unwrap();
    assert_eq!(host.h_addr_list, vec![Some(vec![1, 2, 3, 4]), Some(vec![9, 9, 9, 9]), None]);
}

#[test]
fn reply_without_answers_has_no_data() {
    let msg = reply(&[]);
    for mode in [
        HostentParseMode::Addrs,
        HostentParseMode::Addrs4,
        HostentParseMode::Addrs6,
        HostentParseMode::Aliases,
    ] {
        assert_eq!(parse_hostent(&msg, mode), Err(ARES_ENODATA));
    }
}

#[test]
fn malformed_reply_is_a_bad_response() {
    assert_eq!(parse_hostent(b"", HostentParseMode::Addrs), Err(ARES_EBADRESP));
    assert_eq!(parse_hostent(b"\x8a\x70\x81\x80", HostentParseMode::Addrs), Err(ARES_EBADRESP));
    let mut msg = reply(&[(1, &[1, 2, 3, 4])]);
    msg.pop();
    assert_eq!(parse_hostent(&msg, HostentParseMode::Addrs), Err(ARES_EBADRESP));
}

#[test]
fn other_record_type_in_first_answer_is_a_bad_response() {
    let msg = reply(&[(0x0f, &[0, 10, 0])]);
    assert_eq!(parse_hostent(&msg, HostentParseMode::Addrs), Err(ARES_EBADRESP));
    assert_eq!(parse_hostent(&msg, HostentParseMode::Aliases), Err(ARES_EBADRESP));
}

#[test]
fn unresolvable_name_is_a_bad_response() {
    let mut msg = reply(&[(1, &[1, 2, 3, 4])]);
    // the answer's name points behind the message
    let at = msg.len() - 16;
    assert_eq!(&msg[at..at + 2], &[0xc0, 0x0c]);
    msg[at] = 0xff;
    msg[at + 1] = 0xff;
    assert_eq!(parse_hostent(&msg, HostentParseMode::Addrs), Err(ARES_EBADRESP));
}

#[test]
fn ns_reply_gives_aliases() {
    let msg = reply(&[(2, b"\x03ns1\xc0\x0c"), (2, b"\x03ns2\x07example\x00")]);
    let expected = Hostent {
        h_name: b"mydomain.local\0".to_vec(),
        h_aliases: vec![
            Some(b"ns1.mydomain.local\0".to_vec()),
            Some(b"ns2.example\0".to_vec()),
            None,
        ],
        h_addrtype: 2,
        h_length: 6,
        h_addr_list: vec![None],
    };
    assert_eq!(parse_hostent(&msg, HostentParseMode::Aliases), Ok(expected));
}

#[test]
fn alias_that_holds_no_name_is_a_bad_response() {
    let msg = reply(&[(2, b"\x03ns1\xc0\x0c"), (2, b"\x09ns")]);
    assert_eq!(parse_hostent(&msg, HostentParseMode::Aliases), Err(ARES_EBADRESP));
    let msg = reply(&[(2, b"\x03ns1\xff\xff")]);
    assert_eq!(parse_hostent(&msg, HostentParseMode::Aliases), Err(ARES_EBADRESP));
}

#[test]
fn ns_reply_in_address_mode_is_measured_as_ipv4() {
    // the address type of an NS reply is 2, the number of the IPv4 family
    let msg = reply(&[(2, b"\x03ns1\xc0\x0c")]);
    assert_eq!(parse_hostent(&msg, HostentParseMode::Addrs), Err(ARES_EFORMERR));
    let msg = reply(&[(2, &[1, 2, 3, 4])]);
    let host = parse_hostent(&msg, HostentParseMode::Addrs).unwrap();
    assert_eq!(host.h_addrtype, 2);
    assert_eq!(host.h_addr_list, vec![Some(vec![1, 2, 3, 4]), None]);
}

#[test]
fn both_lists_end_in_a_null() {
    let msg = reply(&[(1, &[1, 2, 3, 4]), (1, &[5, 6, 7, 8])]);
    for mode in [HostentParseMode::Addrs, HostentParseMode::Addrs6, HostentParseMode::Aliases] {
        if let Ok(host) = parse_hostent(&msg, mode) {
            assert_eq!(host.h_aliases.last(), Some(&None));
            assert_eq!(host.h_addr_list.last(), Some(&None));
            assert!(host.h_aliases[..host.h_aliases.len() - 1].iter().all(|a| a.is_some()));
            assert!(host.h_addr_list[..host.h_addr_list.len() - 1].iter().all(|a| a.is_some()));
        }
    }
}

#[test]
fn typed_parsers_pick_their_mode() {
    let v4 = reply(&[(1, &[1, 2, 3, 4])]);
    let v6 = reply(&[(0x1c, &[7u8; 16])]);
    let ns = reply(&[(2, b"\x03ns1\xc0\x0c")]);
    assert_eq!(ares_parse_a_reply(&v4), parse_hostent(&v4, HostentParseMode::Addrs4));
    assert_eq!(ares_parse_a_reply(&v4).unwrap().h_addr_list, vec![Some(vec![1, 2, 3, 4]), None]);
    assert_eq!(ares_parse_a_reply(&v6).unwrap().h_addr_list, vec![None]);
    assert_eq!(ares_parse_aaaa_reply(&v6).unwrap().h_addr_list, vec![Some(vec![7u8; 16]), None]);
    assert_eq!(ares_parse_aaaa_reply(&v4).unwrap().h_addr_list, vec![None]);
    assert_eq!(
        ares_parse_ns_reply(&ns).unwrap().h_aliases,
        vec![Some(b"ns1.mydomain.local\0".to_vec()), None]
    );
    assert_eq!(ares_parse_ns_reply(&reply(&[])), Err(ARES_ENODATA));
    assert_eq!(ares_parse_a_reply(b""), Err(ARES_EBADRESP));
}
