use cares_rs::packets::{
    DnsAnswer, DnsFrame, DnsHeader, DnsLabel, DnsQuery, MxReply, TxtReply, MAX_NAME_SEGMENTS,
    MAX_POINTER_HOPS,
};

fn strings(parts: &[&str]) -> Vec<String> {
    parts.iter().map(|s| s.to_string()).collect()
}

#[test]
fn header_fails_below_twelve_bytes_and_keeps_whole_fields_read() {
    for len in 0..12usize {
        let buf: Vec<u8> = (0..len as u8).collect();
        let mut cur: &[u8] = &buf;
        assert_eq!(DnsHeader::parse(&mut cur), None);
        assert_eq!(cur.len(), len - 2 * (len / 2));
    }
}

#[test]
fn header_reads_big_endian_fields() {
    let buf: Vec<u8> = vec![0x01, 0x02, 0x03, 0x04, 0x05, 0x06, 0x07, 0x08, 0x09, 0x0a, 0x0b, 0x0c];
    let mut cur: &[u8] = &buf;
    let expected = DnsHeader {
        transaction_id: 0x0102,
        flags: 0x0304,
        qdcount: 0x0506,
        ancount: 0x0708,
        nscount: 0x090a,
        arcount: 0x0b0c,
    };
    assert_eq!(DnsHeader::parse(&mut cur), Some(expected));
    assert!(cur.is_empty());
}

#[test]
fn header_round_trip() {
    let header = DnsHeader {
        transaction_id: 0xffff,
        flags: 0x8183,
        qdcount: 2,
        ancount: 300,
        nscount: 0,
        arcount: 65535,
    };
    let mut bytes: Vec<u8> = vec![0xaa];
    header.write(&mut bytes);
    assert_eq!(bytes.len(), 13);
    assert_eq!(bytes[0], 0xaa);
    let mut cur: &[u8] = &bytes[1..];
    assert_eq!(DnsHeader::parse(&mut cur), Some(header));
    assert!(cur.is_empty());
}

#[test]
fn label_new_copies_segments_and_pointer() {
    let label = DnsLabel::new(&["a", "bc"], Some(7));
    assert_eq!(label.name, strings(&["a", "bc"]));
    assert_eq!(label.offset, Some(7));
    let empty = DnsLabel::new(&[], None);
    assert!(empty.name.is_empty());
    assert_eq!(empty.offset, None);
}

#[test]
fn label_terminator_alone_is_the_empty_name() {
    let buf: Vec<u8> = vec![0, 9];
    let mut cur: &[u8] = &buf;
    assert_eq!(DnsLabel::parse(&mut cur), Some(DnsLabel::new(&[], None)));
    assert_eq!(cur, &[9u8][..]);
}

#[test]
fn label_fails_on_empty_input_and_leaves_cursor() {
    let buf: Vec<u8> = vec![];
    let mut cur: &[u8] = &buf;
    assert_eq!(DnsLabel::parse(&mut cur), None);
    assert!(cur.is_empty());
}

#[test]
fn label_fails_when_segment_crosses_the_end() {
    let buf: Vec<u8> = b"\x03ab".to_vec();
    let mut cur: &[u8] = &buf;
    assert_eq!(DnsLabel::parse(&mut cur), None);
    assert_eq!(cur, &b"\x03ab"[..]);
}

#[test]
fn label_fails_when_pointer_lacks_its_second_byte() {
    let buf: Vec<u8> = b"\x01a\xc0".to_vec();
    let mut cur: &[u8] = &buf;
    assert_eq!(DnsLabel::parse(&mut cur), None);
    assert_eq!(cur, &b"\x01a\xc0"[..]);
}

#[test]
fn label_fails_on_malformed_utf8_and_leaves_cursor() {
    let buf: Vec<u8> = b"\x02\xff\xfe\x00".to_vec();
    let mut cur: &[u8] = &buf;
    assert_eq!(DnsLabel::parse(&mut cur), None);
    assert_eq!(cur, &b"\x02\xff\xfe\x00"[..]);
}

#[test]
fn label_reads_multibyte_utf8_segments() {
    let buf: Vec<u8> = b"\x02\xc3\xbc\x00".to_vec();
    let mut cur: &[u8] = &buf;
    assert_eq!(DnsLabel::parse(&mut cur), Some(DnsLabel::new(&["ü"], None)));
    assert!(cur.is_empty());
}

#[test]
fn label_pointer_needs_both_top_bits() {
    // 0x40 and 0x80 are plain lengths: with too few bytes behind them the
    // name does not parse.
    for first in [0x40u8, 0x80u8, 0xbfu8] {
        let buf: Vec<u8> = vec![first, 0x0c];
        let mut cur: &[u8] = &buf;
        assert_eq!(DnsLabel::parse(&mut cur), None);
        assert_eq!(cur.len(), 2);
    }
    // A length of 0x40 with that many bytes behind it is one segment.
    let mut buf: Vec<u8> = vec![0x40];
    buf.extend(std::iter::repeat(b'a').take(0x40));
    buf.push(0);
    let mut cur: &[u8] = &buf;
    let label = DnsLabel::parse(&mut cur).unwrap();
    assert_eq!(label.name, vec!["a".repeat(0x40)]);
    assert_eq!(label.offset, None);
    assert!(cur.is_empty());
}

#[test]
fn label_pointer_offset_is_fourteen_bits() {
    let buf: Vec<u8> = vec![0xc1, 0x02];
    let mut cur: &[u8] = &buf;
    assert_eq!(DnsLabel::parse(&mut cur), Some(DnsLabel::new(&[], Some(0x0102))));
    let buf: Vec<u8> = vec![0xe5, 0xff];
    let mut cur: &[u8] = &buf;
    assert_eq!(DnsLabel::parse(&mut cur), Some(DnsLabel::new(&[], Some(0x25ff))));
}

#[test]
fn query_new_splits_at_dots() {
    let q = DnsQuery::new("www.example.org", 28, 1);
    assert_eq!(q.name, strings(&["www", "example", "org"]));
    assert_eq!(q.qtype, 28);
    assert_eq!(q.qclass, 1);
    assert_eq!(DnsQuery::new("", 1, 1).name, strings(&[""]));
}

#[test]
fn query_parse_drops_the_pointer_of_its_name() {
    let buf: Vec<u8> = b"\x01a\xc0\x0c\x00\x1c\x00\x01".to_vec();
    let mut cur: &[u8] = &buf;
    let q = DnsQuery::parse(&mut cur).unwrap();
    assert_eq!(q, DnsQuery { name: strings(&["a"]), qtype: 0x1c, qclass: 1 });
    assert!(cur.is_empty());
}

#[test]
fn query_parse_failure_after_the_name_keeps_what_was_read() {
    // name, then only one of the four bytes of type and class
    let buf: Vec<u8> = b"\x01a\x00\x00".to_vec();
    let mut cur: &[u8] = &buf;
    assert_eq!(DnsQuery::parse(&mut cur), None);
    assert_eq!(cur, &[0u8][..]);
    // name and type, then one byte of the class
    let buf: Vec<u8> = b"\x01a\x00\x00\x01\x00".to_vec();
    let mut cur: &[u8] = &buf;
    assert_eq!(DnsQuery::parse(&mut cur), None);
    assert_eq!(cur, &[0u8][..]);
    // no name at all
    let buf: Vec<u8> = b"\x05a".to_vec();
    let mut cur: &[u8] = &buf;
    assert_eq!(DnsQuery::parse(&mut cur), None);
    assert_eq!(cur, &b"\x05a"[..]);
}

#[test]
fn query_write_cuts_the_length_byte_to_eight_bits() {
    let long = "x".repeat(300);
    let q = DnsQuery { name: vec![long.clone()], qtype: 1, qclass: 1 };
    let mut out: Vec<u8> = vec![];
    q.write(&mut out);
    assert_eq!(out.len(), 1 + 300 + 1 + 4);
    assert_eq!(out[0], (300 % 256) as u8);
    assert_eq!(&out[1..301], long.as_bytes());
    assert_eq!(&out[301..], &[0, 0, 1, 0, 1]);
}

#[test]
fn query_round_trip() {
    for name in ["google.com", "a", "www.example.org", "bücher.example"] {
        let q = DnsQuery::new(name, 0x1c, 1);
        let mut bytes: Vec<u8> = vec![];
        q.write(&mut bytes);
        assert_eq!(bytes.len(), name.len() + 2 + 4);
        bytes.extend_from_slice(b"rest");
        let mut cur: &[u8] = &bytes;
        assert_eq!(DnsQuery::parse(&mut cur), Some(q));
        assert_eq!(cur, &b"rest"[..]);
    }
}

#[test]
fn label_round_trip_advances_by_length_plus_two() {
    for name in ["google.com", "a", "www.example.org", "x.y.z.w"] {
        let q = DnsQuery::new(name, 1, 1);
        let mut bytes: Vec<u8> = vec![];
        q.write(&mut bytes);
        let written = bytes.len() - 4;
        assert_eq!(written, name.len() + 2);
        let mut cur: &[u8] = &bytes;
        let label = DnsLabel::parse(&mut cur).unwrap();
        assert_eq!(label.name, q.name);
        assert_eq!(label.offset, None);
        assert_eq!(bytes.len() - cur.len(), name.len() + 2);
    }
}

#[test]
fn answer_fails_when_rdlength_exceeds_the_rest() {
    let buf: Vec<u8> = b"\xc0\x0c\x00\x01\x00\x01\x00\x00\x01\x2c\x00\x05\x8e\xfa\xb8\x8e".to_vec();
    let mut cur: &[u8] = &buf;
    assert_eq!(DnsAnswer::parse(&mut cur), None);
    // the fixed fields were read, the data were not
    assert_eq!(cur, &[0x8e, 0xfa, 0xb8, 0x8e][..]);
}

#[test]
fn answer_with_no_data() {
    let buf: Vec<u8> = b"\x00\x00\x10\x00\x01\x01\x02\x03\x04\x00\x00Z".to_vec();
    let mut cur: &[u8] = &buf;
    let expected = DnsAnswer {
        name: DnsLabel::new(&[], None),
        record_type: 16,
        class: 1,
        ttl: 0x01020304,
        data: vec![],
    };
    assert_eq!(DnsAnswer::parse(&mut cur), Some(expected));
    assert_eq!(cur, &b"Z"[..]);
}

#[test]
fn answer_fails_at_each_missing_field() {
    let whole: Vec<u8> = b"\x00\x00\x10\x00\x01\x01\x02\x03\x04\x00\x01\x07".to_vec();
    // bytes left unread after a failure, by the length of the input
    let left = [0usize, 0, 1, 0, 1, 0, 1, 2, 3, 0, 1];
    for len in 0..whole.len() - 1 {
        let buf = whole[..len].to_vec();
        let mut cur: &[u8] = &buf;
        assert_eq!(DnsAnswer::parse(&mut cur), None);
        assert_eq!(cur.len(), left[len], "input of {} bytes", len);
    }
    let mut cur: &[u8] = &whole;
    assert!(DnsAnswer::parse(&mut cur).is_some());
}

#[test]
fn frame_round_trip_without_compression() {
    let frame = DnsFrame {
        transaction_id: 0x1234,
        flags: 0x0100,
        queries: vec![DnsQuery::new("google.com", 1, 1), DnsQuery::new("example.org", 28, 1)],
        answers: vec![],
    };
    let mut bytes: Vec<u8> = vec![];
    frame.write(&mut bytes);
    let mut cur: &[u8] = &bytes;
    assert_eq!(DnsFrame::parse(&mut cur), Some(frame));
    assert!(cur.is_empty());
}

#[test]
fn frame_round_trip_of_the_empty_frame() {
    let frame = DnsFrame { transaction_id: 0, flags: 0, queries: vec![], answers: vec![] };
    let mut bytes: Vec<u8> = vec![];
    frame.write(&mut bytes);
    assert_eq!(bytes, vec![0u8; 12]);
    let mut cur: &[u8] = &bytes;
    assert_eq!(DnsFrame::parse(&mut cur), Some(frame));
}

#[test]
fn frame_write_leaves_answers_out() {
    let answer = DnsAnswer {
        name: DnsLabel::new(&[], Some(0x0c)),
        record_type: 1,
        class: 1,
        ttl: 1,
        data: vec![1, 2, 3, 4],
    };
    let frame = DnsFrame {
        transaction_id: 7,
        flags: 0x8180,
        queries: vec![DnsQuery::new("a", 1, 1)],
        answers: vec![answer],
    };
    let mut bytes: Vec<u8> = vec![];
    frame.write(&mut bytes);
    assert_eq!(bytes, b"\x00\x07\x81\x80\x00\x01\x00\x00\x00\x00\x00\x00\x01a\x00\x00\x01\x00\x01");
}

#[test]
fn frame_reads_and_drops_authority_and_additional_sections() {
    let mut buf: Vec<u8> = b"\x00\x01\x81\x80\x00\x00\x00\x01\x00\x01\x00\x02".to_vec();
    // one answer, one authority record, two additional records
    buf.extend_from_slice(b"\x01a\x00\x00\x01\x00\x01\x00\x00\x00\x05\x00\x04\x01\x02\x03\x04");
    buf.extend_from_slice(b"\x00\x00\x02\x00\x01\x00\x00\x00\x05\x00\x03\x01n\x00");
    buf.extend_from_slice(b"\x00\x00\x29\x04\xd0\x00\x00\x00\x00\x00\x00");
    buf.extend_from_slice(b"\xc0\x0c\x00\x01\x00\x01\x00\x00\x00\x05\x00\x01\x09");
    let whole = buf.len();
    buf.extend_from_slice(b"what follows");
    let mut cur: &[u8] = &buf;
    let frame = DnsFrame::parse(&mut cur).unwrap();
    assert!(frame.queries.is_empty());
    assert_eq!(frame.answers.len(), 1);
    assert_eq!(frame.answers[0].data, vec![1, 2, 3, 4]);
    assert_eq!(cur, &b"what follows"[..]);

    // a record of those sections that is cut short fails the message
    for cut in 1..whole - 12 - 17 {
        let short = buf[..whole - cut].to_vec();
        let mut cur: &[u8] = &short;
        assert_eq!(DnsFrame::parse(&mut cur), None, "{} bytes cut off", cut);
    }
}

#[test]
fn frame_fails_when_a_counted_record_is_missing() {
    let buf: Vec<u8> = b"\x00\x01\x01\x00\x00\x02\x00\x00\x00\x00\x00\x00\x01a\x00\x00\x01\x00\x01".to_vec();
    let mut cur: &[u8] = &buf;
    assert_eq!(DnsFrame::parse(&mut cur), None);
    let buf: Vec<u8> = b"\x00\x01\x01\x00\x00\x00\x00\x01\x00\x00\x00\x00".to_vec();
    let mut cur: &[u8] = &buf;
    assert_eq!(DnsFrame::parse(&mut cur), None);
}

#[test]
fn build_string_without_pointer_joins_the_segments() {
    let label = DnsLabel::new(&["www", "example", "org"], None);
    assert_eq!(label.build_string(b""), Some("www.example.org".to_string()));
    assert_eq!(DnsLabel::new(&[], None).build_string(b"xyz"), Some(String::new()));
}

#[test]
fn build_string_follows_the_pointer() {
    let msg: Vec<u8> = b"............\x06google\x03com\x00".to_vec();
    let label = DnsLabel::new(&["smtpin2"], Some(0x0c));
    assert_eq!(label.build_string(&msg), Some("smtpin2.google.com".to_string()));
    assert_eq!(label.build_cstring(&msg), Some(b"smtpin2.google.com\0".to_vec()));
}

#[test]
fn build_string_follows_pointers_in_a_row() {
    // offset 0: "com" end; offset 5: "google" then pointer to 0
    let msg: Vec<u8> = b"\x03com\x00\x06google\xc0\x00".to_vec();
    let label = DnsLabel::new(&["www"], Some(5));
    assert_eq!(label.build_string(&msg), Some("www.google.com".to_string()));
}

#[test]
fn build_string_fails_on_an_unreachable_pointer() {
    let msg: Vec<u8> = b"\x03com\x00".to_vec();
    assert_eq!(DnsLabel::new(&["a"], Some(5)).build_string(&msg), None);
    assert_eq!(DnsLabel::new(&["a"], Some(6)).build_string(&msg), None);
    assert_eq!(DnsLabel::new(&["a"], Some(0x3fff)).build_string(&msg), None);
    assert_eq!(DnsLabel::new(&["a"], Some(0x3fff)).build_cstring(&msg), None);
    assert_eq!(DnsLabel::new(&["a"], Some(0)).build_string(&msg), Some("a.com".to_string()));
}

#[test]
fn build_string_fails_where_the_pointer_leads_to_no_name() {
    let msg: Vec<u8> = b"\x09com".to_vec();
    assert_eq!(DnsLabel::new(&["a"], Some(0)).build_string(&msg), None);
}

#[test]
fn build_string_fails_on_a_pointer_cycle() {
    // a pointer to itself
    let msg: Vec<u8> = b"\xc0\x00".to_vec();
    assert_eq!(DnsLabel::new(&[], Some(0)).build_string(&msg), None);
    // two pointers to each other, with a segment on the way
    let msg: Vec<u8> = b"\x01a\xc0\x04\x01b\xc0\x00".to_vec();
    assert_eq!(DnsLabel::new(&[], Some(0)).build_string(&msg), None);
}

#[test]
fn build_string_allows_a_pointer_chain_up_to_the_limit() {
    // pointer k points to pointer k + 1; the last one is followed by the end
    let hops = MAX_POINTER_HOPS;
    let mut msg: Vec<u8> = vec![];
    for k in 0..hops - 1 {
        let target = 2 * (k + 1);
        msg.push(0xc0 | (target >> 8) as u8);
        msg.push((target & 0xff) as u8);
    }
    msg.extend_from_slice(b"\x01z\x00");
    // following from offset 0 takes hops - 1 pointers inside, one to get in
    assert_eq!(DnsLabel::new(&["a"], Some(0)).build_string(&msg), Some("a.z".to_string()));
    // one more pointer in front is one too many
    let mut longer: Vec<u8> = vec![];
    for k in 0..hops {
        let target = 2 * (k + 1);
        longer.push(0xc0 | (target >> 8) as u8);
        longer.push((target & 0xff) as u8);
    }
    longer.extend_from_slice(b"\x01z\x00");
    assert_eq!(DnsLabel::new(&["a"], Some(0)).build_string(&longer), None);
}

#[test]
fn build_string_limits_the_number_of_segments() {
    let max: Vec<&str> = std::iter::repeat("a").take(MAX_NAME_SEGMENTS).collect();
    let expected = max.join(".");
    assert_eq!(DnsLabel::new(&max, None).build_string(b""), Some(expected));
    let over: Vec<&str> = std::iter::repeat("a").take(MAX_NAME_SEGMENTS + 1).collect();
    assert_eq!(DnsLabel::new(&over, None).build_string(b""), None);
    // the limit holds for what pointers add, too
    let msg: Vec<u8> = b"\x01b\x00".to_vec();
    assert_eq!(DnsLabel::new(&max, Some(0)).build_string(&msg), None);
}

#[test]
fn build_cstring_refuses_a_name_with_a_zero_byte() {
    let label = DnsLabel::new(&["a\0b"], None);
    assert_eq!(label.build_string(b""), Some("a\0b".to_string()));
    assert_eq!(label.build_cstring(b""), None);
}

#[test]
fn mx_fails_without_priority_or_name() {
    let buf: Vec<u8> = b"\x00".to_vec();
    let mut cur: &[u8] = &buf;
    assert_eq!(MxReply::parse(&mut cur), None);
    assert_eq!(cur.len(), 1);
    let buf: Vec<u8> = b"\x00\x14\x07smt".to_vec();
    let mut cur: &[u8] = &buf;
    assert_eq!(MxReply::parse(&mut cur), None);
    assert_eq!(cur, &b"\x07smt"[..]);
}

#[test]
fn txt_is_cut_to_what_is_left() {
    let buf: Vec<u8> = b"\x09abcd".to_vec();
    let mut cur: &[u8] = &buf;
    assert_eq!(TxtReply::parse(&mut cur), Some(TxtReply { length: 9, txt: "abcd".to_string() }));
    assert!(cur.is_empty());
}

#[test]
fn txt_takes_only_its_first_string() {
    let buf: Vec<u8> = b"\x02abcd".to_vec();
    let mut cur: &[u8] = &buf;
    assert_eq!(TxtReply::parse(&mut cur), Some(TxtReply { length: 2, txt: "ab".to_string() }));
    assert_eq!(cur, &b"cd"[..]);
}

#[test]
fn txt_fails_on_empty_input() {
    let buf: Vec<u8> = vec![];
    let mut cur: &[u8] = &buf;
    assert_eq!(TxtReply::parse(&mut cur), None);
}

#[test]
fn txt_decodes_malformed_bytes_leniently() {
    let buf: Vec<u8> = b"\x03a\xffb".to_vec();
    let mut cur: &[u8] = &buf;
    let expected = TxtReply { length: 3, txt: "a\u{fffd}b".to_string() };
    assert_eq!(TxtReply::parse(&mut cur), Some(expected));
}

#[test]
fn txt_of_length_zero_is_empty() {
    let buf: Vec<u8> = b"\x00abc".to_vec();
    let mut cur: &[u8] = &buf;
    assert_eq!(TxtReply::parse(&mut cur), Some(TxtReply { length: 0, txt: String::new() }));
    assert_eq!(cur, &b"abc"[..]);
}

#[test]
fn label_segments_must_be_well_formed_utf8() {
    let parse = |segment: &[u8]| {
        let mut buf: Vec<u8> = vec![segment.len() as u8];
        buf.extend_from_slice(segment);
        buf.push(0);
        let mut cur: &[u8] = &buf;
        let label = DnsLabel::parse(&mut cur);
        // nothing is consumed unless the name parses
        assert_eq!(cur.len(), if label.is_some() { 0 } else { buf.len() });
        label.map(|l| l.name)
    };
    // an overlong encoding, a surrogate, a value beyond the last scalar, a
    // continuation byte alone, and an encoding that is cut short
    assert_eq!(parse(b"\xc1\xbf"), None);
    assert_eq!(parse(b"\xe0\x80\x80"), None);
    assert_eq!(parse(b"\xed\xa0\x80"), None);
    assert_eq!(parse(b"\xf4\x90\x80\x80"), None);
    assert_eq!(parse(b"\x80"), None);
    assert_eq!(parse(b"a\xe2\x82"), None);
    assert_eq!(parse(b"\xf8\x88\x80\x80\x80"), None);
    // the scalars at the edges of each width
    assert_eq!(parse(b"\x7f"), Some(vec!["\u{7f}".to_string()]));
    assert_eq!(parse(b"\xc2\x80"), Some(vec!["\u{80}".to_string()]));
    assert_eq!(parse(b"\xdf\xbf"), Some(vec!["\u{7ff}".to_string()]));
    assert_eq!(parse(b"\xe0\xa0\x80"), Some(vec!["\u{800}".to_string()]));
    assert_eq!(parse(b"\xed\x9f\xbf"), Some(vec!["\u{d7ff}".to_string()]));
    assert_eq!(parse(b"\xee\x80\x80"), Some(vec!["\u{e000}".to_string()]));
    assert_eq!(parse(b"\xef\xbf\xbf"), Some(vec!["\u{ffff}".to_string()]));
    assert_eq!(parse(b"\xf0\x90\x80\x80"), Some(vec!["\u{10000}".to_string()]));
    assert_eq!(parse(b"\xf4\x8f\xbf\xbf"), Some(vec!["\u{10ffff}".to_string()]));
}
