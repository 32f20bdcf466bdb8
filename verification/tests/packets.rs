use bytes::Buf;
use cares_rs::packets::{
    DnsAnswer, DnsFrame, DnsHeader, DnsLabel, DnsQuery, MxReply, TxtReply,
};

#[test]
fn test_parse_dns_header() {
    let buf: Vec<u8> = b"\x8a\x70\x01\x00\x00\x01\x00\x00\x00\x00\x00\x00ASDF".to_vec();
    let mut cur: &[u8] = &buf;
    let expected = DnsHeader {
        transaction_id: 0x8a70,
        flags: 0x100,
        qdcount: 1,
        ancount: 0,
        nscount: 0,
        arcount: 0,
    };
    assert_eq!(DnsHeader::parse(&mut cur), Some(expected));
    assert_eq!(cur.chunk(), b"ASDF");
}

#[test]
fn test_write_dns_header() {
    let header = DnsHeader {
        transaction_id: 0x8a70,
        flags: 0x100,
        qdcount: 1,
        ancount: 0,
        nscount: 0,
        arcount: 0,
    };
    let mut vec: Vec<u8> = vec![];
    header.write(&mut vec);
    let expected = b"\x8a\x70\x01\x00\x00\x01\x00\x00\x00\x00\x00\x00";
    assert_eq!(vec, expected);
}

#[test]
fn test_parse_dns_label() {
    let buf: Vec<u8> = b"\x06google\x03com\x00asdf".to_vec();
    let mut cur: &[u8] = &buf;
    assert_eq!(DnsLabel::parse(&mut cur), Some(DnsLabel::new(&["google", "com"], None)));
    assert_eq!(cur.chunk(), b"asdf");

    let buf: Vec<u8> = b"\x06google\x03com".to_vec();
    let mut cur: &[u8] = &buf;
    assert_eq!(DnsLabel::parse(&mut cur), None);
    assert_eq!(cur.chunk(), b"\x06google\x03com");

    let buf: Vec<u8> = b"\x06google\x03com\xc0\x0casdf".to_vec();
    let mut cur: &[u8] = &buf;
    assert_eq!(DnsLabel::parse(&mut cur), Some(DnsLabel::new(&["google", "com"], Some(0x0c))));
    assert_eq!(cur.chunk(), b"asdf");

    let buf: Vec<u8> = b"\xff\xffasdf".to_vec();
    let mut cur: &[u8] = &buf;
    assert_eq!(DnsLabel::parse(&mut cur), Some(DnsLabel::new(&[], Some(0x3fff))));
    assert_eq!(cur.chunk(), b"asdf");
}

#[test]
fn test_parse_dns_query() {
    let buf: Vec<u8> =
        b"\x06\x67\x6f\x6f\x67\x6c\x65\x03\x63\x6f\x6d\x00\x00\x01\x00\x01ASDF".to_vec();
    let mut cur: &[u8] = &buf;
    assert_eq!(DnsQuery::parse(&mut cur), Some(DnsQuery::new("google.com", 1, 1)));
    assert_eq!(cur.chunk(), b"ASDF");
}

#[test]
fn test_write_dns_query() {
    let question = DnsQuery::new("google.com", 1, 1);
    let mut vec: Vec<u8> = vec![];
    question.write(&mut vec);
    assert_eq!(vec, b"\x06\x67\x6f\x6f\x67\x6c\x65\x03\x63\x6f\x6d\x00\x00\x01\x00\x01");
}

#[test]
fn test_parse_dns_answer() {
    let buf: Vec<u8> =
        b"\xc0\x0c\x00\x01\x00\x01\x00\x00\x01\x2c\x00\x04\x8e\xfa\xb8\x8eASDF".to_vec();
    let mut cur: &[u8] = &buf;
    let expected = DnsAnswer {
        name: DnsLabel::new(&[], Some(0x0c)),
        record_type: 1,
        class: 1,
        ttl: 0x012c,
        data: vec![0x8e, 0xfa, 0xb8, 0x8e],
    };
    assert_eq!(DnsAnswer::parse(&mut cur), Some(expected));
    assert_eq!(cur.chunk(), b"ASDF");
}

#[test]
fn test_parse_dns_frame() {
    let buf: Vec<u8> = b"\x8a\x70\x81\x80\x00\x01\x00\x01\x00\x00\x00\x00\x06\x67\x6f\x6f\x67\x6c\x65\x03\x63\x6f\x6d\x00\x00\x01\x00\x01\xc0\x0c\x00\x01\x00\x01\x00\x00\x01\x2c\x00\x04\x8e\xfa\xb8\x8e".to_vec();
    let mut cur: &[u8] = &buf;
    let query = DnsQuery::new("google.com", 1, 1);
    let answer = DnsAnswer {
        name: DnsLabel::new(&[], Some(0x0c)),
        record_type: 1,
        class: 1,
        ttl: 0x012c,
        data: vec![0x8e, 0xfa, 0xb8, 0x8e],
    };
    let expected = DnsFrame {
        transaction_id: 0x8a70,
        flags: 0x8180,
        queries: vec![query],
        answers: vec![answer],
    };
    assert_eq!(DnsFrame::parse(&mut cur), Some(expected));
}

#[test]
fn test_write_dns_frame() {
    let query = DnsQuery::new("google.com", 1, 1);
    let frame = DnsFrame {
        transaction_id: 0x8a70,
        flags: 0x100,
        queries: vec![query],
        answers: vec![],
    };
    let mut vec: Vec<u8> = vec![];
    frame.write(&mut vec);
    assert_eq!(&vec[..], b"\x8a\x70\x01\x00\x00\x01\x00\x00\x00\x00\x00\x00\x06\x67\x6f\x6f\x67\x6c\x65\x03\x63\x6f\x6d\x00\x00\x01\x00\x01");
}

#[test]
fn test_parse_mx_response() {
    let buf: Vec<u8> = b"\x00\x14\x07\x73\x6d\x74\x70\x69\x6e\x32\xc0\x0c".to_vec();
    let mut cur: &[u8] = &buf;
    let expected = MxReply { priority: 20, label: DnsLabel::new(&["smtpin2"], Some(0x0c)) };
    assert_eq!(MxReply::parse(&mut cur), Some(expected));
}

#[test]
fn test_parse_txt_response() {
    let buf: Vec<u8> = b"\x04abcd".to_vec();
    let mut cur: &[u8] = &buf;
    let expected = TxtReply { length: 4, txt: "abcd".to_string() };
    assert_eq!(TxtReply::parse(&mut cur), Some(expected));
}

#[test]
fn packets_test_parse_dns_header() {
    let buf: Vec<u8> = b"\x8a\x70\x01\x00\x00\x01\x00\x00\x00\x00\x00\x00ASDF".to_vec();
    let mut cur: &[u8] = &buf;
    let expected = DnsHeader {
        transaction_id: 0x8a70,
        flags: 0x100,
        qdcount: 1,
        ancount: 0,
        nscount: 0,
        arcount: 0,
    };
    assert_eq!(DnsHeader::parse(&mut cur), Some(expected));
    assert_eq!(cur.chunk(), b"ASDF");
}

#[test]
fn packets_test_write_dns_header() {
    let header = DnsHeader {
        transaction_id: 0x8a70,
        flags: 0x100,
        qdcount: 1,
        ancount: 0,
        nscount: 0,
        arcount: 0,
    };
    let mut vec: Vec<u8> = vec![];
    header.write(&mut vec);
    let expected = b"\x8a\x70\x01\x00\x00\x01\x00\x00\x00\x00\x00\x00";
    assert_eq!(vec, expected);
}

#[test]
fn packets_test_parse_dns_label() {
    let buf: Vec<u8> = b"\x06google\x03com\x00asdf".to_vec();
    let mut cur: &[u8] = &buf;
    assert_eq!(DnsLabel::parse(&mut cur), Some(DnsLabel::new(&["google", "com"], None)));
    assert_eq!(cur.chunk(), b"asdf");

    let buf: Vec<u8> = b"\x06google\x03com".to_vec();
    let mut cur: &[u8] = &buf;
    assert_eq!(DnsLabel::parse(&mut cur), None);
    assert_eq!(cur.chunk(), b"\x06google\x03com");

    let buf: Vec<u8> = b"\x06google\x03com\xc0\x0casdf".to_vec();
    let mut cur: &[u8] = &buf;
    assert_eq!(DnsLabel::parse(&mut cur), Some(DnsLabel::new(&["google", "com"], Some(0x0c))));
    assert_eq!(cur.chunk(), b"asdf");

    let buf: Vec<u8> = b"\xff\xffasdf".to_vec();
    let mut cur: &[u8] = &buf;
    assert_eq!(DnsLabel::parse(&mut cur), Some(DnsLabel::new(&[], Some(0x3fff))));
    assert_eq!(cur.chunk(), b"asdf");
}

#[test]
fn packets_test_parse_dns_query() {
    let buf: Vec<u8> =
        b"\x06\x67\x6f\x6f\x67\x6c\x65\x03\x63\x6f\x6d\x00\x00\x01\x00\x01ASDF".to_vec();
    let mut cur: &[u8] = &buf;
    assert_eq!(DnsQuery::parse(&mut cur), Some(DnsQuery::new("google.com", 1, 1)));
    assert_eq!(cur.chunk(), b"ASDF");
}

#[test]
fn packets_test_write_dns_query() {
    let question = DnsQuery::new("google.com", 1, 1);
    let mut vec: Vec<u8> = vec![];
    question.write(&mut vec);
    assert_eq!(vec, b"\x06\x67\x6f\x6f\x67\x6c\x65\x03\x63\x6f\x6d\x00\x00\x01\x00\x01");
}

#[test]
fn packets_test_parse_dns_answer() {
    let buf: Vec<u8> =
        b"\xc0\x0c\x00\x01\x00\x01\x00\x00\x01\x2c\x00\x04\x8e\xfa\xb8\x8eASDF".to_vec();
    let mut cur: &[u8] = &buf;
    let expected = DnsAnswer {
        name: DnsLabel::new(&[], Some(0x0c)),
        record_type: 1,
        class: 1,
        ttl: 0x012c,
        data: vec![0x8e, 0xfa, 0xb8, 0x8e],
    };
    assert_eq!(DnsAnswer::parse(&mut cur), Some(expected));
    assert_eq!(cur.chunk(), b"ASDF");
}

#[test]
fn packets_test_parse_dns_frame() {
    let buf: Vec<u8> = b"\x8a\x70\x81\x80\x00\x01\x00\x01\x00\x00\x00\x00\x06\x67\x6f\x6f\x67\x6c\x65\x03\x63\x6f\x6d\x00\x00\x01\x00\x01\xc0\x0c\x00\x01\x00\x01\x00\x00\x01\x2c\x00\x04\x8e\xfa\xb8\x8e".to_vec();
    let mut cur: &[u8] = &buf;
    let query = DnsQuery::new("google.com", 1, 1);
    let answer = DnsAnswer {
        name: DnsLabel::new(&[], Some(0x0c)),
        record_type: 1,
        class: 1,
        ttl: 0x012c,
        data: vec![0x8e, 0xfa, 0xb8, 0x8e],
    };
    let frame = DnsFrame::parse(&mut cur).unwrap();
    assert_eq!(frame.transaction_id, 0x8a70);
    assert_eq!(frame.queries, vec![query]);
    assert_eq!(frame.answers, vec![answer]);
}

#[test]
fn packets_test_write_dns_frame() {
    let query = DnsQuery::new("google.com", 1, 1);
    let frame = DnsFrame {
        transaction_id: 0x8a70,
        flags: 0x100,
        queries: vec![query],
        answers: vec![],
    };
    let mut vec: Vec<u8> = vec![];
    frame.write(&mut vec);
    assert_eq!(&vec[..], b"\x8a\x70\x01\x00\x00\x01\x00\x00\x00\x00\x00\x00\x06\x67\x6f\x6f\x67\x6c\x65\x03\x63\x6f\x6d\x00\x00\x01\x00\x01");
}
