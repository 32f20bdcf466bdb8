use cares_rs::ares_data::{
    ares_parse_mx_reply, ares_parse_txt_reply, payload_offset, payload_ptr,
    restore_original_ptr, AresAddrPortNode, AresData, AresDataType, AresMxReply, AresTxtReply,
    DataType, IntoAresData,
};
use cares_rs::error::{ARES_EBADRESP, ARES_ENODATA};
use cares_rs::offset_of::Field;
use cares_rs::packets::{DnsLabel, MxReply, TxtReply};
use core::mem::{align_of, size_of};

/// A reply to a question for "google.com" with the given answers, each given
/// as its record type and data, all named by a pointer to the question.
fn reply(answers: &[(u16, &[u8])]) -> Vec<u8> {
    let mut msg: Vec<u8> = vec![0x8a, 0x70, 0x81, 0x80, 0x00, 0x01];
    msg.extend_from_slice(&(answers.len() as u16).to_be_bytes());
    msg.extend_from_slice(&[0, 0, 0, 0]);
    msg.extend_from_slice(b"\x06google\x03com\x00\x00\x0f\x00\x01");
    for (record_type, data) in answers {
        msg.extend_from_slice(&[0xc0, 0x0c]);
        msg.extend_from_slice(&record_type.to_be_bytes());
        msg.extend_from_slice(&[0x00, 0x01, 0x00, 0x00, 0x01, 0x2c]);
        msg.extend_from_slice(&(data.len() as u16).to_be_bytes());
        msg.extend_from_slice(data);
    }
    msg
}

fn test_restore_original_ptr_impl<T>()
where
    T: DataType,
{
    // the envelope is a tag followed by the data, which hold a pointer first
    let tag = Field { size: size_of::<u32>(), align: align_of::<u32>() };
    let data = Field { size: size_of::<T>(), align: align_of::<usize>() };
    let offset = payload_offset(tag, data);
    assert_eq!(offset, align_of::<usize>().max(size_of::<u32>()));
    for base in [0usize, 0x1000, 0x7fff_fff0, usize::MAX - offset] {
        let dataptr = payload_ptr(base, offset);
        let restoredptr = restore_original_ptr(dataptr, offset);
        assert_eq!(base, restoredptr);
    }
}

#[test]
fn test_restore_original_ptr() {
    test_restore_original_ptr_impl::<AresMxReply>();
    test_restore_original_ptr_impl::<AresTxtReply>();
}

#[test]
fn payload_offset_is_the_tag_moved_up_to_the_alignment() {
    let tag = Field { size: 4, align: 4 };
    assert_eq!(payload_offset(tag, Field { size: 24, align: 8 }), 8);
    assert_eq!(payload_offset(tag, Field { size: 24, align: 4 }), 4);
    assert_eq!(payload_offset(tag, Field { size: 3, align: 1 }), 4);
    assert_eq!(payload_offset(tag, Field { size: 64, align: 16 }), 16);
    assert_eq!(restore_original_ptr(0x1008, 8), 0x1000);
}

#[test]
fn envelope_is_tagged_with_the_kind_of_its_record() {
    let mx = AresMxReply { next: None, host: b"a\0".to_vec(), priority: 1 };
    assert_eq!(AresData::new(mx).data_type, AresDataType::MxReply);
    let txt = AresTxtReply { next: None, txt: b"a\0".to_vec(), length: 1 };
    assert_eq!(AresData::new(txt).data_type, AresDataType::TxtReply);
    assert_eq!(AresMxReply::datatype(), AresDataType::MxReply);
    assert_eq!(AresTxtReply::datatype(), AresDataType::TxtReply);
    assert_eq!(AresAddrPortNode::datatype(), AresDataType::AddrPortNode);
}

#[test]
fn mx_body_becomes_a_node_with_the_resolved_host() {
    let msg: Vec<u8> = b"............\x06google\x03com\x00".to_vec();
    let body = MxReply { priority: 20, label: DnsLabel::new(&["smtpin2"], Some(0x0c)) };
    let node: AresMxReply = body.into_ares_data(&msg).unwrap();
    assert!(node.next.is_none());
    assert_eq!(node.host, b"smtpin2.google.com\0".to_vec());
    assert_eq!(node.priority, 20);
    let lost = MxReply { priority: 20, label: DnsLabel::new(&["smtpin2"], Some(0x3000)) };
    assert!(lost.into_ares_data(&msg).is_none());
}

#[test]
fn txt_body_becomes_a_node_with_its_length_in_bytes() {
    let body = TxtReply { txt: "abcd".to_string(), length: 9 };
    let node: AresTxtReply = body.into_ares_data(b"").unwrap();
    assert!(node.next.is_none());
    assert_eq!(node.txt, b"abcd\0".to_vec());
    assert_eq!(node.length, 4);
    let wide = TxtReply { txt: "aü".to_string(), length: 3 };
    let node: AresTxtReply = wide.into_ares_data(b"").unwrap();
    assert_eq!(node.length, 3);
    let with_zero = TxtReply { txt: "a\0b".to_string(), length: 3 };
    assert!(with_zero.into_ares_data(b"").is_none());
}

#[test]
fn parse_mx_reply_chains_one_node_per_answer() {
    let msg = reply(&[(0x0f, b"\x00\x14\x07smtpin2\xc0\x0c"), (0x0f, b"\x00\x0a\x04mail\xc0\x13")]);
    let envelope = ares_parse_mx_reply(&msg).unwrap();
    assert_eq!(envelope.data_type, AresDataType::MxReply);
    let first = &envelope.data;
    assert_eq!(first.priority, 20);
    assert_eq!(first.host, b"smtpin2.google.com\0".to_vec());
    let second = first.next.as_ref().unwrap();
    assert_eq!(second.priority, 10);
    assert_eq!(second.host, b"mail.com\0".to_vec());
    assert!(second.next.is_none());
}

#[test]
fn parse_mx_reply_of_one_answer_has_a_null_tail() {
    let msg = reply(&[(0x0f, b"\x00\x14\x07smtpin2\xc0\x0c")]);
    let envelope = ares_parse_mx_reply(&msg).unwrap();
    assert_eq!(envelope.data.priority, 20);
    assert_eq!(envelope.data.host, b"smtpin2.google.com\0".to_vec());
    assert!(envelope.data.next.is_none());
}

#[test]
fn parse_mx_reply_errors() {
    assert_eq!(ares_parse_mx_reply(b"garbage").unwrap_err(), ARES_EBADRESP);
    assert_eq!(ares_parse_mx_reply(&reply(&[])).unwrap_err(), ARES_ENODATA);
    let short_body = reply(&[(0x0f, b"\x00")]);
    assert_eq!(ares_parse_mx_reply(&short_body).unwrap_err(), ARES_EBADRESP);
    let lost_name = reply(&[(0x0f, b"\x00\x14\x07smtpin2\xff\xff")]);
    assert_eq!(ares_parse_mx_reply(&lost_name).unwrap_err(), ARES_EBADRESP);
    let second_bad = reply(&[(0x0f, b"\x00\x14\x07smtpin2\xc0\x0c"), (0x0f, b"\x00\x14\x07smt")]);
    assert_eq!(ares_parse_mx_reply(&second_bad).unwrap_err(), ARES_EBADRESP);
}

#[test]
fn parse_txt_reply_chains_one_node_per_answer() {
    let msg = reply(&[(0x10, b"\x04abcd"), (0x10, b"\x02hi there")]);
    let envelope = ares_parse_txt_reply(&msg).unwrap();
    assert_eq!(envelope.data_type, AresDataType::TxtReply);
    let first = &envelope.data;
    assert_eq!(first.length, 4);
    assert_eq!(first.txt, b"abcd\0".to_vec());
    let second = first.next.as_ref().unwrap();
    assert_eq!(second.length, 2);
    assert_eq!(second.txt, b"hi\0".to_vec());
    assert!(second.next.is_none());
}

#[test]
fn parse_txt_reply_errors() {
    assert_eq!(ares_parse_txt_reply(b"").unwrap_err(), ARES_EBADRESP);
    assert_eq!(ares_parse_txt_reply(&reply(&[])).unwrap_err(), ARES_ENODATA);
    let empty_body = reply(&[(0x10, b"")]);
    assert_eq!(ares_parse_txt_reply(&empty_body).unwrap_err(), ARES_EBADRESP);
    let zero_inside = reply(&[(0x10, b"\x03a\x00b")]);
    assert_eq!(ares_parse_txt_reply(&zero_inside).unwrap_err(), ARES_EBADRESP);
}
