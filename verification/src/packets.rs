//! The DNS wire codec: header, question, name, answer and whole message, with
//! the bodies of MX and TXT records.
//!
//! Every parser reads from the front of a byte slice and moves the slice past
//! what it has read. Its model is a spec function from the bytes to the value,
//! if there is one, and the bytes that are left.

use crate::buf::{
    advance, copy_to_bytes, put_slice, put_u16, put_u8, spec_u16_be, spec_u16_bytes,
    spec_u32_be, try_copy_to_slice, try_get_u16, try_get_u32, try_get_u8,
};
use crate::text::{
    cstring_new, join_dots, lemma_join_split, spec_cstring, spec_join, spec_split,
    spec_utf8_lossy, split_dots, string_from_utf8, string_from_utf8_lossy,
};
use vstd::slice::slice_subrange;
use vstd::prelude::*;
use vstd::string::*;
use vstd::utf8::*;

verus! {

/// The result of reading a big-endian 16-bit number from the front of `b`.
pub open spec fn spec_get_u16(b: Seq<u8>) -> (Option<u16>, Seq<u8>) {
    if b.len() >= 2 {
        (Some(spec_u16_be(b[0], b[1])), b.skip(2))
    } else {
        (None, b)
    }
}

/// The result of reading a big-endian 32-bit number from the front of `b`.
pub open spec fn spec_get_u32(b: Seq<u8>) -> (Option<u32>, Seq<u8>) {
    if b.len() >= 4 {
        (Some(spec_u32_be(b[0], b[1], b[2], b[3])), b.skip(4))
    } else {
        (None, b)
    }
}

/// The fixed twelve-byte header of a message.
#[derive(Debug, PartialEq)]
pub struct DnsHeader {
    pub transaction_id: u16,
    pub flags: u16,
    pub qdcount: u16,
    pub ancount: u16,
    pub nscount: u16,
    pub arcount: u16,
}

/// What parsing a header from `b` gives. With fewer than twelve bytes it
/// fails, having read as many whole fields as there were.
pub open spec fn spec_parse_header(b: Seq<u8>) -> (Option<DnsHeader>, Seq<u8>) {
    if b.len() >= 12 {
        (
            Some(
                DnsHeader {
                    transaction_id: spec_u16_be(b[0], b[1]),
                    flags: spec_u16_be(b[2], b[3]),
                    qdcount: spec_u16_be(b[4], b[5]),
                    ancount: spec_u16_be(b[6], b[7]),
                    nscount: spec_u16_be(b[8], b[9]),
                    arcount: spec_u16_be(b[10], b[11]),
                },
            ),
            b.skip(12),
        )
    } else {
        (None, b.skip(2 * (b.len() as int / 2)))
    }
}

/// The twelve bytes of a header.
pub open spec fn spec_header_bytes(h: DnsHeader) -> Seq<u8> {
    spec_u16_bytes(h.transaction_id) + spec_u16_bytes(h.flags) + spec_u16_bytes(h.qdcount)
        + spec_u16_bytes(h.ancount) + spec_u16_bytes(h.nscount) + spec_u16_bytes(h.arcount)
}

impl DnsHeader {
    /// Reads a header from the front of `buf`.
    pub fn parse(buf: &mut &[u8]) -> (r: Option<DnsHeader>)
        ensures
            (r, final(buf)@) == spec_parse_header(old(buf)@),
    {
        let ghost b = buf@;
        let transaction_id: u16 = try_get_u16(buf)?;
        let flags: u16 = try_get_u16(buf)?;
        let qdcount: u16 = try_get_u16(buf)?;
        let ancount: u16 = try_get_u16(buf)?;
        let nscount: u16 = try_get_u16(buf)?;
        let arcount: u16 = try_get_u16(buf)?;
        assert(buf@ =~= b.skip(12));
        Some(DnsHeader { transaction_id, flags, qdcount, ancount, nscount, arcount })
    }

    /// Appends the twelve bytes of the header to `b`.
    pub fn write(&self, b: &mut Vec<u8>)
        ensures
            final(b)@ == old(b)@ + spec_header_bytes(*self),
    {
        put_u16(b, self.transaction_id);
        put_u16(b, self.flags);
        put_u16(b, self.qdcount);
        put_u16(b, self.ancount);
        put_u16(b, self.nscount);
        put_u16(b, self.arcount);
        assert(b@ =~= old(b)@ + spec_header_bytes(*self));
    }
}

/// A name as it stands at one place of a message: the segments read there and,
/// where they end in a compression pointer, the offset it points to.
#[derive(Debug, PartialEq, Eq)]
pub struct DnsLabel {
    pub name: Vec<String>,
    pub offset: Option<u16>,
}

/// The model of a [`DnsLabel`].
pub struct DnsLabelView {
    pub name: Seq<Seq<char>>,
    pub offset: Option<u16>,
}

impl View for DnsLabel {
    type V = DnsLabelView;

    open spec fn view(&self) -> DnsLabelView {
        DnsLabelView { name: self.name.deep_view(), offset: self.offset }
    }
}

impl DeepView for DnsLabel {
    type V = DnsLabelView;

    open spec fn deep_view(&self) -> DnsLabelView {
        self.view()
    }
}

/// A length byte with both top bits set starts a compression pointer.
pub open spec fn spec_is_pointer(b: u8) -> bool {
    b >= 0xc0
}

/// The fourteen-bit offset held in the two bytes of a compression pointer.
pub open spec fn spec_pointer_offset(hi: u8, lo: u8) -> u16
    recommends
        spec_is_pointer(hi),
{
    ((hi as int - 0xc0) * 256 + lo as int) as u16
}

/// `tail` with the segments `name`, which took `used` bytes, put in front.
pub open spec fn spec_label_prepend(
    name: Seq<Seq<char>>,
    used: int,
    tail: Option<(DnsLabelView, int)>,
) -> Option<(DnsLabelView, int)> {
    match tail {
        None => None,
        Some((l, n)) => Some((DnsLabelView { name: name + l.name, offset: l.offset }, used + n)),
    }
}

/// The name that starts at the front of `b`, with the number of bytes it
/// takes: length-prefixed segments of well-formed UTF-8 up to a zero byte or a
/// compression pointer. `None` where the bytes end too early or a segment is
/// not UTF-8.
pub open spec fn spec_label_at(b: Seq<u8>) -> Option<(DnsLabelView, int)>
    decreases b.len(),
{
    if b.len() == 0 {
        None
    } else if b[0] == 0 {
        Some((DnsLabelView { name: seq![], offset: None }, 1))
    } else if spec_is_pointer(b[0]) {
        if b.len() < 2 {
            None
        } else {
            Some((DnsLabelView { name: seq![], offset: Some(spec_pointer_offset(b[0], b[1])) }, 2))
        }
    } else {
        let n = b[0] as int;
        if b.len() < 1 + n || !valid_utf8(b.subrange(1, 1 + n)) {
            None
        } else {
            spec_label_prepend(
                seq![decode_utf8(b.subrange(1, 1 + n))],
                1 + n,
                spec_label_at(b.skip(1 + n)),
            )
        }
    }
}

/// What parsing a name from `b` gives. On failure nothing is consumed.
pub open spec fn spec_parse_label(b: Seq<u8>) -> (Option<DnsLabelView>, Seq<u8>) {
    match spec_label_at(b) {
        None => (None, b),
        Some((l, n)) => (Some(l), b.skip(n)),
    }
}

impl DnsLabel {
    /// A label with the given segments and pointer.
    pub fn new(name: &[&str], offset: Option<u16>) -> (r: DnsLabel)
        ensures
            r@.name == Seq::new(name@.len(), |i: int| name@[i]@),
            r@.offset == offset,
    {
        let mut names: Vec<String> = Vec::new();
        let mut i: usize = 0;
        while i < name.len()
            invariant
                i <= name@.len(),
                names@.len() == i,
                forall|k: int| 0 <= k < i ==> names@[k]@ == name@[k]@,
            decreases name@.len() - i,
        {
            names.push(name[i].to_owned());
            i += 1;
        }
        assert(names.deep_view() =~= Seq::new(name@.len(), |i: int| name@[i]@));
        DnsLabel { name: names, offset }
    }

    /// Reads a name from the front of `buf`. On failure `buf` stays where it was.
    pub fn parse(buf: &mut &[u8]) -> (r: Option<DnsLabel>)
        ensures
            (r.deep_view(), final(buf)@) == spec_parse_label(old(buf)@),
    {
        let ghost b0 = buf@;
        let mut cur: &[u8] = *buf;
        let mut name: Vec<String> = Vec::new();
        let mut offset: Option<u16> = None;
        loop
            invariant_except_break
                offset.is_none(),
                spec_label_at(b0) == spec_label_prepend(
                    name.deep_view(),
                    b0.len() - cur@.len(),
                    spec_label_at(cur@),
                ),
            invariant
                buf@ == b0,
                cur@.len() <= b0.len(),
                cur@ == b0.skip(b0.len() - cur@.len()),
            ensures
                spec_label_at(b0) == Some(
                    (
                        DnsLabelView { name: name.deep_view(), offset },
                        b0.len() - cur@.len(),
                    ),
                ),
            decreases cur@.len(),
        {
            let ghost c0 = cur@;
            let ghost names0 = name.deep_view();
            let len: u8 = try_get_u8(&mut cur)?;
            if len == 0 {
                assert(names0 + Seq::<Seq<char>>::empty() =~= names0);
                break ;
            }
            if len & 0xc0 == 0xc0 {
                assert(len >= 0xc0) by (bit_vector)
                    requires
                        len & 0xc0 == 0xc0,
                ;
                let low: u8 = try_get_u8(&mut cur)?;
                let ptr: u16 = (((len & 0x3f) as u16) << 8) | (low as u16);
                assert(ptr == spec_pointer_offset(len, low)) by (bit_vector)
                    requires
                        len >= 0xc0,
                        ptr == (((len & 0x3f) as u16) << 8) | (low as u16),
                ;
                offset = Some(ptr);
                assert(names0 + Seq::<Seq<char>>::empty() =~= names0);
                break ;
            }
            assert(len < 0xc0) by (bit_vector)
                requires
                    len & 0xc0 != 0xc0,
            ;
            let mut dst: Vec<u8> = vec![0u8; len as usize];
            if !try_copy_to_slice(&mut cur, &mut dst) {
                return None;
            }
            assert(dst@ =~= c0.subrange(1, 1 + len as int));
            assert(cur@ =~= c0.skip(1 + len as int));
            let segment: String = string_from_utf8(dst)?;
            name.push(segment);
            proof {
                assert(name.deep_view() =~= names0.push(segment@));
                let tail = spec_label_at(cur@);
                if tail.is_some() {
                    assert(names0 + (seq![segment@] + tail.unwrap().0.name)
                        =~= name.deep_view() + tail.unwrap().0.name);
                }
            }
        }
        let bytes_read: usize = buf.len() - cur.len();
        advance(buf, bytes_read);
        Some(DnsLabel { name, offset })
    }
}

/// One question of a message.
#[derive(Debug, PartialEq, Clone)]
pub struct DnsQuery {
    pub name: Vec<String>,
    pub qtype: u16,
    pub qclass: u16,
}

/// The model of a [`DnsQuery`].
pub struct DnsQueryView {
    pub name: Seq<Seq<char>>,
    pub qtype: u16,
    pub qclass: u16,
}

impl View for DnsQuery {
    type V = DnsQueryView;

    open spec fn view(&self) -> DnsQueryView {
        DnsQueryView { name: self.name.deep_view(), qtype: self.qtype, qclass: self.qclass }
    }
}

impl DeepView for DnsQuery {
    type V = DnsQueryView;

    open spec fn deep_view(&self) -> DnsQueryView {
        self.view()
    }
}

/// What parsing a question from `b` gives: a name, whose pointer (if any) is
/// dropped, then type and class. A failure after the name leaves the bytes
/// read so far consumed.
pub open spec fn spec_parse_query(b: Seq<u8>) -> (Option<DnsQueryView>, Seq<u8>) {
    let (label, b1) = spec_parse_label(b);
    if label.is_none() {
        (None, b1)
    } else {
        let (qtype, b2) = spec_get_u16(b1);
        if qtype.is_none() {
            (None, b2)
        } else {
            let (qclass, b3) = spec_get_u16(b2);
            if qclass.is_none() {
                (None, b3)
            } else {
                (
                    Some(
                        DnsQueryView {
                            name: label.unwrap().name,
                            qtype: qtype.unwrap(),
                            qclass: qclass.unwrap(),
                        },
                    ),
                    b3,
                )
            }
        }
    }
}

/// One segment on the wire: its length in bytes, cut to eight bits, then its
/// bytes.
pub open spec fn spec_segment_bytes(segment: Seq<char>) -> Seq<u8> {
    seq![(encode_utf8(segment).len() % 256) as u8] + encode_utf8(segment)
}

/// The segments of a name on the wire, one after the other, without the
/// terminating zero.
pub open spec fn spec_name_bytes(name: Seq<Seq<char>>) -> Seq<u8>
    decreases name.len(),
{
    if name.len() == 0 {
        seq![]
    } else {
        spec_segment_bytes(name[0]) + spec_name_bytes(name.skip(1))
    }
}

/// A question on the wire: the name, a zero byte, type and class.
pub open spec fn spec_query_bytes(q: DnsQueryView) -> Seq<u8> {
    spec_name_bytes(q.name) + seq![0u8] + spec_u16_bytes(q.qtype) + spec_u16_bytes(q.qclass)
}

/// Writing one more segment appends its bytes.
pub proof fn lemma_name_bytes_push(name: Seq<Seq<char>>, segment: Seq<char>)
    ensures
        spec_name_bytes(name.push(segment)) == spec_name_bytes(name) + spec_segment_bytes(segment),
    decreases name.len(),
{
    if name.len() == 0 {
        assert(name.push(segment).skip(1) =~= Seq::<Seq<char>>::empty());
        assert(spec_name_bytes(name.push(segment).skip(1)) =~= Seq::<u8>::empty());
        assert(spec_name_bytes(name.push(segment)) =~= spec_segment_bytes(segment));
        assert(spec_name_bytes(name) + spec_segment_bytes(segment) =~= spec_segment_bytes(segment));
    } else {
        assert(name.push(segment).skip(1) =~= name.skip(1).push(segment));
        lemma_name_bytes_push(name.skip(1), segment);
        assert(spec_segment_bytes(name[0]) + (spec_name_bytes(name.skip(1)) + spec_segment_bytes(
            segment,
        )) =~= spec_name_bytes(name) + spec_segment_bytes(segment));
    }
}

impl DnsQuery {
    /// The question for a dotted name, one segment for each piece between dots.
    pub fn new(domain: &str, qtype: u16, qclass: u16) -> (r: DnsQuery)
        ensures
            r@ == (DnsQueryView { name: spec_split(domain@, '.'), qtype, qclass }),
    {
        DnsQuery { name: split_dots(domain), qtype, qclass }
    }

    /// Reads a question from the front of `buf`.
    pub fn parse(buf: &mut &[u8]) -> (r: Option<DnsQuery>)
        ensures
            (r.deep_view(), final(buf)@) == spec_parse_query(old(buf)@),
    {
        let label: DnsLabel = DnsLabel::parse(buf)?;
        let qtype: u16 = try_get_u16(buf)?;
        let qclass: u16 = try_get_u16(buf)?;
        Some(DnsQuery { name: label.name, qtype, qclass })
    }

    /// Appends the question to `b`.
    pub fn write(&self, b: &mut Vec<u8>)
        ensures
            final(b)@ == old(b)@ + spec_query_bytes(self@),
    {
        let ghost b0 = b@;
        let mut i: usize = 0;
        while i < self.name.len()
            invariant
                i <= self.name.len(),
                b@ == b0 + spec_name_bytes(self.name.deep_view().take(i as int)),
            decreases self.name.len() - i,
        {
            let ghost before = b@;
            let label: &str = self.name[i].as_str();
            let bytes: &[u8] = label.as_bytes();
            put_u8(b, (bytes.len() % 256) as u8);
            put_slice(b, bytes);
            proof {
                let done = self.name.deep_view().take(i as int);
                assert(self.name.deep_view().take(i + 1) =~= done.push(label@));
                lemma_name_bytes_push(done, label@);
                assert(b@ =~= before + spec_segment_bytes(label@));
                assert(b@ =~= b0 + (spec_name_bytes(done) + spec_segment_bytes(label@)));
            }
            i += 1;
        }
        assert(self.name.deep_view().take(i as int) =~= self.name.deep_view());
        put_u8(b, 0);
        put_u16(b, self.qtype);
        put_u16(b, self.qclass);
        assert(b@ =~= b0 + spec_query_bytes(self@));
    }
}

/// One resource record of the answer section.
#[derive(Debug, PartialEq)]
pub struct DnsAnswer {
    pub name: DnsLabel,
    pub record_type: u16,
    pub class: u16,
    pub ttl: u32,
    pub data: Vec<u8>,
}

/// The model of a [`DnsAnswer`].
pub struct DnsAnswerView {
    pub name: DnsLabelView,
    pub record_type: u16,
    pub class: u16,
    pub ttl: u32,
    pub data: Seq<u8>,
}

impl View for DnsAnswer {
    type V = DnsAnswerView;

    open spec fn view(&self) -> DnsAnswerView {
        DnsAnswerView {
            name: self.name@,
            record_type: self.record_type,
            class: self.class,
            ttl: self.ttl,
            data: self.data@,
        }
    }
}

impl DeepView for DnsAnswer {
    type V = DnsAnswerView;

    open spec fn deep_view(&self) -> DnsAnswerView {
        self.view()
    }
}

/// The result of taking `n` bytes from the front of `b`.
pub open spec fn spec_get_bytes(b: Seq<u8>, n: int) -> (Option<Seq<u8>>, Seq<u8>) {
    if b.len() >= n {
        (Some(b.take(n)), b.skip(n))
    } else {
        (None, b)
    }
}

/// What parsing an answer from `b` gives: name, type, class, time to live, a
/// 16-bit length and that many bytes of data. A length that exceeds what is
/// left is a failure. A failure after the name leaves the fields read so far
/// consumed.
pub open spec fn spec_parse_answer(b: Seq<u8>) -> (Option<DnsAnswerView>, Seq<u8>) {
    let (name, b1) = spec_parse_label(b);
    if name.is_none() {
        (None, b1)
    } else {
        let (record_type, b2) = spec_get_u16(b1);
        if record_type.is_none() {
            (None, b2)
        } else {
            let (class, b3) = spec_get_u16(b2);
            if class.is_none() {
                (None, b3)
            } else {
                let (ttl, b4) = spec_get_u32(b3);
                if ttl.is_none() {
                    (None, b4)
                } else {
                    let (rdlength, b5) = spec_get_u16(b4);
                    if rdlength.is_none() {
                        (None, b5)
                    } else {
                        let (data, b6) = spec_get_bytes(b5, rdlength.unwrap() as int);
                        if data.is_none() {
                            (None, b6)
                        } else {
                            (
                                Some(
                                    DnsAnswerView {
                                        name: name.unwrap(),
                                        record_type: record_type.unwrap(),
                                        class: class.unwrap(),
                                        ttl: ttl.unwrap(),
                                        data: data.unwrap(),
                                    },
                                ),
                                b6,
                            )
                        }
                    }
                }
            }
        }
    }
}

impl DnsAnswer {
    /// Reads an answer from the front of `buf`.
    pub fn parse(buf: &mut &[u8]) -> (r: Option<DnsAnswer>)
        ensures
            (r.deep_view(), final(buf)@) == spec_parse_answer(old(buf)@),
    {
        let name: DnsLabel = DnsLabel::parse(buf)?;
        let record_type: u16 = try_get_u16(buf)?;
        let class: u16 = try_get_u16(buf)?;
        let ttl: u32 = try_get_u32(buf)?;
        let data_length: u16 = try_get_u16(buf)?;
        let mut data: Vec<u8> = vec![0u8; data_length as usize];
        if !try_copy_to_slice(buf, &mut data) {
            return None;
        }
        Some(DnsAnswer { name, record_type, class, ttl, data })
    }
}

/// A message: the header's identifier and flags, the questions and the
/// answers. The authority and additional sections are not kept.
#[derive(Debug, PartialEq)]
pub struct DnsFrame {
    pub transaction_id: u16,
    pub flags: u16,
    pub queries: Vec<DnsQuery>,
    pub answers: Vec<DnsAnswer>,
}

/// The model of a [`DnsFrame`].
pub struct DnsFrameView {
    pub transaction_id: u16,
    pub flags: u16,
    pub queries: Seq<DnsQueryView>,
    pub answers: Seq<DnsAnswerView>,
}

impl View for DnsFrame {
    type V = DnsFrameView;

    open spec fn view(&self) -> DnsFrameView {
        DnsFrameView {
            transaction_id: self.transaction_id,
            flags: self.flags,
            queries: self.queries.deep_view(),
            answers: self.answers.deep_view(),
        }
    }
}

impl DeepView for DnsFrame {
    type V = DnsFrameView;

    open spec fn deep_view(&self) -> DnsFrameView {
        self.view()
    }
}

/// The outcome `r` of parsing some items, with the items `done` that were
/// parsed before them put in front.
pub open spec fn spec_prepend<T>(done: Seq<T>, r: (Option<Seq<T>>, Seq<u8>)) -> (
    Option<Seq<T>>,
    Seq<u8>,
) {
    match r.0 {
        None => (None, r.1),
        Some(items) => (Some(done + items), r.1),
    }
}

/// What parsing `n` questions in a row from `b` gives. The first failure ends
/// it, with the bytes consumed up to there.
pub open spec fn spec_parse_queries(b: Seq<u8>, n: nat) -> (Option<Seq<DnsQueryView>>, Seq<u8>)
    decreases n,
{
    if n == 0 {
        (Some(seq![]), b)
    } else {
        let (q, b1) = spec_parse_query(b);
        if q.is_none() {
            (None, b1)
        } else {
            spec_prepend(seq![q.unwrap()], spec_parse_queries(b1, (n - 1) as nat))
        }
    }
}

/// What parsing `n` answers in a row from `b` gives. The first failure ends
/// it, with the bytes consumed up to there.
pub open spec fn spec_parse_answers(b: Seq<u8>, n: nat) -> (Option<Seq<DnsAnswerView>>, Seq<u8>)
    decreases n,
{
    if n == 0 {
        (Some(seq![]), b)
    } else {
        let (a, b1) = spec_parse_answer(b);
        if a.is_none() {
            (None, b1)
        } else {
            spec_prepend(seq![a.unwrap()], spec_parse_answers(b1, (n - 1) as nat))
        }
    }
}

/// What reading past `n` records from `b` gives: whether that many records
/// stand there, and the bytes left behind them, or behind what was read of
/// them up to the failure.
pub open spec fn spec_skip_records(b: Seq<u8>, n: nat) -> (bool, Seq<u8>) {
    (spec_parse_answers(b, n).0.is_some(), spec_parse_answers(b, n).1)
}

/// What parsing a message from `b` gives: the header, as many questions as it
/// counts, then as many answers as it counts. The records of the authority
/// and additional sections, as many as the header counts, are read and
/// dropped. The first failure ends it, with the bytes consumed up to there.
pub open spec fn spec_parse_frame(b: Seq<u8>) -> (Option<DnsFrameView>, Seq<u8>) {
    let (header, b1) = spec_parse_header(b);
    if header.is_none() {
        (None, b1)
    } else {
        let h = header.unwrap();
        let (queries, b2) = spec_parse_queries(b1, h.qdcount as nat);
        if queries.is_none() {
            (None, b2)
        } else {
            let (answers, b3) = spec_parse_answers(b2, h.ancount as nat);
            if answers.is_none() {
                (None, b3)
            } else {
                let (authority, b4) = spec_skip_records(b3, h.nscount as nat);
                if !authority {
                    (None, b4)
                } else {
                    let (additional, b5) = spec_skip_records(b4, h.arcount as nat);
                    if !additional {
                        (None, b5)
                    } else {
                        (
                            Some(
                                DnsFrameView {
                                    transaction_id: h.transaction_id,
                                    flags: h.flags,
                                    queries: queries.unwrap(),
                                    answers: answers.unwrap(),
                                },
                            ),
                            b5,
                        )
                    }
                }
            }
        }
    }
}

/// The questions on the wire, one after the other.
pub open spec fn spec_queries_bytes(queries: Seq<DnsQueryView>) -> Seq<u8>
    decreases queries.len(),
{
    if queries.len() == 0 {
        seq![]
    } else {
        spec_query_bytes(queries[0]) + spec_queries_bytes(queries.skip(1))
    }
}

/// The header that a message is written with: it counts the questions, cut to
/// sixteen bits, and no other record.
pub open spec fn spec_frame_header(f: DnsFrameView) -> DnsHeader {
    DnsHeader {
        transaction_id: f.transaction_id,
        flags: f.flags,
        qdcount: (f.queries.len() % 65536) as u16,
        ancount: 0,
        nscount: 0,
        arcount: 0,
    }
}

/// A message on the wire: its header, then its questions. Answers are never
/// written.
pub open spec fn spec_frame_bytes(f: DnsFrameView) -> Seq<u8> {
    spec_header_bytes(spec_frame_header(f)) + spec_queries_bytes(f.queries)
}

/// Writing one more question appends its bytes.
pub proof fn lemma_queries_bytes_push(queries: Seq<DnsQueryView>, q: DnsQueryView)
    ensures
        spec_queries_bytes(queries.push(q)) == spec_queries_bytes(queries) + spec_query_bytes(q),
    decreases queries.len(),
{
    if queries.len() == 0 {
        assert(queries.push(q).skip(1) =~= Seq::<DnsQueryView>::empty());
        assert(spec_queries_bytes(queries.push(q).skip(1)) =~= Seq::<u8>::empty());
        assert(spec_queries_bytes(queries.push(q)) =~= spec_query_bytes(q));
        assert(spec_queries_bytes(queries) + spec_query_bytes(q) =~= spec_query_bytes(q));
    } else {
        assert(queries.push(q).skip(1) =~= queries.skip(1).push(q));
        lemma_queries_bytes_push(queries.skip(1), q);
        assert(spec_query_bytes(queries[0]) + (spec_queries_bytes(queries.skip(1))
            + spec_query_bytes(q)) =~= spec_queries_bytes(queries) + spec_query_bytes(q));
    }
}

/// Reads past `n` records at the front of `buf`.
fn skip_records(buf: &mut &[u8], n: u16) -> (ok: bool)
    ensures
        (ok, final(buf)@) == spec_skip_records(old(buf)@, n as nat),
{
    let ghost b0 = buf@;
    let ghost mut done: Seq<DnsAnswerView> = Seq::empty();
    let mut i: u16 = 0;
    proof {
        let r = spec_parse_answers(b0, n as nat);
        if r.0.is_some() {
            assert(done + r.0.unwrap() =~= r.0.unwrap());
        }
    }
    while i < n
        invariant
            i <= n,
            b0 == old(buf)@,
            spec_parse_answers(b0, n as nat) == spec_prepend(
                done,
                spec_parse_answers(buf@, (n - i) as nat),
            ),
        decreases n - i,
    {
        match DnsAnswer::parse(buf) {
            None => {
                return false;
            },
            Some(record) => {
                proof {
                    let rest = spec_parse_answers(buf@, (n - i - 1) as nat);
                    if rest.0.is_some() {
                        assert(done + (seq![record@] + rest.0.unwrap()) =~= done.push(record@)
                            + rest.0.unwrap());
                    }
                    done = done.push(record@);
                }
            },
        }
        i += 1;
    }
    true
}

impl DnsFrame {
    /// Reads a message from the front of `buf`.
    pub fn parse(buf: &mut &[u8]) -> (r: Option<DnsFrame>)
        ensures
            (r.deep_view(), final(buf)@) == spec_parse_frame(old(buf)@),
    {
        let header: DnsHeader = DnsHeader::parse(buf)?;
        let mut queries: Vec<DnsQuery> = Vec::new();
        let mut answers: Vec<DnsAnswer> = Vec::new();
        let ghost b1 = buf@;
        let mut i: u16 = 0;
        assert(spec_prepend(queries.deep_view(), spec_parse_queries(b1, header.qdcount as nat))
            =~= spec_parse_queries(b1, header.qdcount as nat)) by {
            let r = spec_parse_queries(b1, header.qdcount as nat);
            if r.0.is_some() {
                assert(queries.deep_view() + r.0.unwrap() =~= r.0.unwrap());
            }
        }
        while i < header.qdcount
            invariant
                i <= header.qdcount,
                spec_parse_header(old(buf)@) == (Some(header), b1),
                spec_parse_queries(b1, header.qdcount as nat) == spec_prepend(
                    queries.deep_view(),
                    spec_parse_queries(buf@, (header.qdcount - i) as nat),
                ),
            decreases header.qdcount - i,
        {
            let ghost done = queries.deep_view();
            let ghost here = buf@;
            let q: DnsQuery = DnsQuery::parse(buf)?;
            queries.push(q);
            proof {
                assert(queries.deep_view() =~= done.push(q@));
                let rest = spec_parse_queries(buf@, (header.qdcount - i - 1) as nat);
                if rest.0.is_some() {
                    assert(done + (seq![q@] + rest.0.unwrap()) =~= queries.deep_view()
                        + rest.0.unwrap());
                }
            }
            i += 1;
        }
        assert(queries.deep_view() + Seq::<DnsQueryView>::empty() =~= queries.deep_view());
        let ghost b2 = buf@;
        let mut j: u16 = 0;
        assert(spec_prepend(answers.deep_view(), spec_parse_answers(b2, header.ancount as nat))
            =~= spec_parse_answers(b2, header.ancount as nat)) by {
            let r = spec_parse_answers(b2, header.ancount as nat);
            if r.0.is_some() {
                assert(answers.deep_view() + r.0.unwrap() =~= r.0.unwrap());
            }
        }
        while j < header.ancount
            invariant
                j <= header.ancount,
                spec_parse_header(old(buf)@) == (Some(header), b1),
                spec_parse_queries(b1, header.qdcount as nat) == (Some(queries.deep_view()), b2),
                spec_parse_answers(b2, header.ancount as nat) == spec_prepend(
                    answers.deep_view(),
                    spec_parse_answers(buf@, (header.ancount - j) as nat),
                ),
            decreases header.ancount - j,
        {
            let ghost done = answers.deep_view();
            let a: DnsAnswer = DnsAnswer::parse(buf)?;
            answers.push(a);
            proof {
                assert(answers.deep_view() =~= done.push(a@));
                let rest = spec_parse_answers(buf@, (header.ancount - j - 1) as nat);
                if rest.0.is_some() {
                    assert(done + (seq![a@] + rest.0.unwrap()) =~= answers.deep_view()
                        + rest.0.unwrap());
                }
            }
            j += 1;
        }
        assert(answers.deep_view() + Seq::<DnsAnswerView>::empty() =~= answers.deep_view());
        if !skip_records(buf, header.nscount) {
            return None;
        }
        if !skip_records(buf, header.arcount) {
            return None;
        }
        Some(
            DnsFrame { transaction_id: header.transaction_id, flags: header.flags, queries, answers },
        )
    }

    /// Appends the message to `b`: a header that counts the questions, then the
    /// questions.
    pub fn write(&self, b: &mut Vec<u8>)
        ensures
            final(b)@ == old(b)@ + spec_frame_bytes(self@),
    {
        let ghost b0 = b@;
        let header = DnsHeader {
            transaction_id: self.transaction_id,
            flags: self.flags,
            qdcount: (self.queries.len() % 65536) as u16,
            ancount: 0,
            nscount: 0,
            arcount: 0,
        };
        header.write(b);
        let ghost b1 = b@;
        let mut i: usize = 0;
        while i < self.queries.len()
            invariant
                i <= self.queries.len(),
                b@ == b1 + spec_queries_bytes(self.queries.deep_view().take(i as int)),
            decreases self.queries.len() - i,
        {
            let ghost done = self.queries.deep_view().take(i as int);
            let query: &DnsQuery = &self.queries[i];
            query.write(b);
            proof {
                assert(self.queries.deep_view().take(i + 1) =~= done.push(query@));
                lemma_queries_bytes_push(done, query@);
                assert(b@ =~= b1 + (spec_queries_bytes(done) + spec_query_bytes(query@)));
            }
            i += 1;
        }
        assert(self.queries.deep_view().take(i as int) =~= self.queries.deep_view());
        assert(b@ =~= b0 + spec_frame_bytes(self@));
    }
}

/// The most segments a resolved name may have.
pub const MAX_NAME_SEGMENTS: usize = 128;

/// The most compression pointers that resolving one name follows.
pub const MAX_POINTER_HOPS: usize = 128;

/// The segments of the whole name that `name` and `offset` stand for within
/// the message `msg`, following at most `hops` compression pointers: while
/// there is a pointer, the name at its offset is read and its segments are
/// appended. `None` where a pointer leads outside the message or to bytes that
/// hold no name, where more than `hops` pointers would have to be followed,
/// or where the name grows beyond [`MAX_NAME_SEGMENTS`].
pub open spec fn spec_resolve(
    name: Seq<Seq<char>>,
    offset: Option<u16>,
    msg: Seq<u8>,
    hops: nat,
) -> Option<Seq<Seq<char>>>
    decreases hops,
{
    if name.len() > MAX_NAME_SEGMENTS {
        None
    } else if offset.is_none() {
        Some(name)
    } else if hops == 0 || offset.unwrap() > msg.len() {
        None
    } else {
        match spec_label_at(msg.skip(offset.unwrap() as int)) {
            None => None,
            Some((l, _)) => spec_resolve(name + l.name, l.offset, msg, (hops - 1) as nat),
        }
    }
}

/// The dotted name that a label stands for within the message `msg`.
pub open spec fn spec_build_string(label: DnsLabelView, msg: Seq<u8>) -> Option<Seq<char>> {
    match spec_resolve(label.name, label.offset, msg, MAX_POINTER_HOPS as nat) {
        None => None,
        Some(name) => Some(spec_join(name, '.')),
    }
}

/// The dotted name that a label stands for within `msg`, as a C string.
/// `None` also where the name holds a zero byte.
pub open spec fn spec_build_cstring(label: DnsLabelView, msg: Seq<u8>) -> Option<Seq<u8>> {
    match spec_build_string(label, msg) {
        None => None,
        Some(s) => spec_cstring(s),
    }
}

impl DnsLabel {
    /// Resolves the label against the whole message it was read from and
    /// gives the full dotted name.
    pub fn build_string(&self, main_buf: &[u8]) -> (r: Option<String>)
        ensures
            r.deep_view() == spec_build_string(self@, main_buf@),
    {
        let mut name: Vec<String> = Vec::new();
        let mut i: usize = 0;
        while i < self.name.len()
            invariant
                i <= self.name.len(),
                name.deep_view() == self.name.deep_view().take(i as int),
            decreases self.name.len() - i,
        {
            let ghost done = name.deep_view();
            name.push(self.name[i].clone());
            assert(name.deep_view() =~= done.push(self.name[i as int]@));
            assert(self.name.deep_view().take(i + 1) =~= done.push(self.name[i as int]@));
            i += 1;
        }
        assert(self.name.deep_view().take(i as int) =~= self.name.deep_view());
        let mut offset: Option<u16> = self.offset;
        let mut hops: usize = MAX_POINTER_HOPS;
        loop
            invariant_except_break
                spec_resolve(self@.name, self@.offset, main_buf@, MAX_POINTER_HOPS as nat)
                    == spec_resolve(name.deep_view(), offset, main_buf@, hops as nat),
            ensures
                spec_resolve(self@.name, self@.offset, main_buf@, MAX_POINTER_HOPS as nat) == Some(
                    name.deep_view(),
                ),
            decreases hops,
        {
            if name.len() > MAX_NAME_SEGMENTS {
                return None;
            }
            match offset {
                None => {
                    break ;
                },
                Some(off) => {
                    if hops == 0 || off as usize > main_buf.len() {
                        return None;
                    }
                    let mut cur: &[u8] = slice_subrange(main_buf, off as usize, main_buf.len());
                    assert(cur@ =~= main_buf@.skip(off as int));
                    let mut label: DnsLabel = DnsLabel::parse(&mut cur)?;
                    let ghost before = name.deep_view();
                    let ghost added = label.name.deep_view();
                    name.append(&mut label.name);
                    assert(name.deep_view() =~= before + added);
                    offset = label.offset;
                    hops -= 1;
                },
            }
        }
        Some(join_dots(&name))
    }

    /// Resolves the label as [`DnsLabel::build_string`] does and gives the name
    /// as a C string: its bytes and a terminating zero.
    pub fn build_cstring(&self, main_buf: &[u8]) -> (r: Option<Vec<u8>>)
        ensures
            r.deep_view() == spec_build_cstring(self@, main_buf@),
    {
        let name: String = self.build_string(main_buf)?;
        cstring_new(name.as_str())
    }
}

/// The body of an MX record.
#[derive(Debug, PartialEq)]
pub struct MxReply {
    pub priority: u16,
    pub label: DnsLabel,
}

/// The model of an [`MxReply`].
pub struct MxReplyView {
    pub priority: u16,
    pub label: DnsLabelView,
}

impl View for MxReply {
    type V = MxReplyView;

    open spec fn view(&self) -> MxReplyView {
        MxReplyView { priority: self.priority, label: self.label@ }
    }
}

impl DeepView for MxReply {
    type V = MxReplyView;

    open spec fn deep_view(&self) -> MxReplyView {
        self.view()
    }
}

/// What parsing the body of an MX record from `b` gives: a 16-bit priority,
/// then a name.
pub open spec fn spec_parse_mx(b: Seq<u8>) -> (Option<MxReplyView>, Seq<u8>) {
    let (priority, b1) = spec_get_u16(b);
    if priority.is_none() {
        (None, b1)
    } else {
        let (label, b2) = spec_parse_label(b1);
        if label.is_none() {
            (None, b2)
        } else {
            (Some(MxReplyView { priority: priority.unwrap(), label: label.unwrap() }), b2)
        }
    }
}

impl MxReply {
    /// Reads the body of an MX record from the front of `buf`.
    pub fn parse(buf: &mut &[u8]) -> (r: Option<MxReply>)
        ensures
            (r.deep_view(), final(buf)@) == spec_parse_mx(old(buf)@),
    {
        let priority: u16 = try_get_u16(buf)?;
        let label: DnsLabel = DnsLabel::parse(buf)?;
        Some(MxReply { priority, label })
    }
}

/// The body of a TXT record: its first string, and the length that the record
/// declares for it.
#[derive(Debug, PartialEq)]
pub struct TxtReply {
    pub txt: String,
    pub length: u8,
}

/// The model of a [`TxtReply`].
pub struct TxtReplyView {
    pub txt: Seq<char>,
    pub length: u8,
}

impl View for TxtReply {
    type V = TxtReplyView;

    open spec fn view(&self) -> TxtReplyView {
        TxtReplyView { txt: self.txt@, length: self.length }
    }
}

impl DeepView for TxtReply {
    type V = TxtReplyView;

    open spec fn deep_view(&self) -> TxtReplyView {
        self.view()
    }
}

/// How many bytes of text a TXT body in `b` holds: as many as its length byte
/// says, or all that follow it if they are fewer.
pub open spec fn spec_txt_len(b: Seq<u8>) -> int
    recommends
        b.len() >= 1,
{
    if (b[0] as int) < b.len() - 1 {
        b[0] as int
    } else {
        b.len() - 1
    }
}

/// What parsing the body of a TXT record from `b` gives: a length byte, then
/// that many bytes of text, or as many as are left, decoded leniently.
pub open spec fn spec_parse_txt(b: Seq<u8>) -> (Option<TxtReplyView>, Seq<u8>) {
    if b.len() < 1 {
        (None, b)
    } else {
        (
            Some(
                TxtReplyView {
                    txt: spec_utf8_lossy(b.subrange(1, 1 + spec_txt_len(b))),
                    length: b[0],
                },
            ),
            b.skip(1 + spec_txt_len(b)),
        )
    }
}

impl TxtReply {
    /// Reads the body of a TXT record from the front of `buf`. Where the text
    /// is well-formed UTF-8, `txt` is that text.
    pub fn parse(buf: &mut &[u8]) -> (r: Option<TxtReply>)
        ensures
            (r.deep_view(), final(buf)@) == spec_parse_txt(old(buf)@),
            r.is_some() && valid_utf8(old(buf)@.subrange(1, 1 + spec_txt_len(old(buf)@)))
                ==> r.unwrap().txt@ == decode_utf8(
                old(buf)@.subrange(1, 1 + spec_txt_len(old(buf)@)),
            ),
    {
        let ghost b0 = buf@;
        let length: u8 = try_get_u8(buf)?;
        let remaining: usize = buf.len();
        let take: usize = if (length as usize) < remaining {
            length as usize
        } else {
            remaining
        };
        let txt_slice: Vec<u8> = copy_to_bytes(buf, take);
        assert(txt_slice@ =~= b0.subrange(1, 1 + spec_txt_len(b0)));
        assert(buf@ =~= b0.skip(1 + spec_txt_len(b0)));
        let txt: String = string_from_utf8_lossy(txt_slice.as_slice());
        Some(TxtReply { txt, length })
    }
}

/// A segment that comes back from the wire as it was written: it is not
/// empty, and its length byte is below the range of compression pointers.
pub open spec fn spec_segment_wf(segment: Seq<char>) -> bool {
    1 <= encode_utf8(segment).len() < 0xc0
}

/// A name all of whose segments come back from the wire as they were written.
pub open spec fn spec_name_wf(name: Seq<Seq<char>>) -> bool {
    forall|i: int| 0 <= i < name.len() ==> spec_segment_wf(#[trigger] name[i])
}

/// A message that comes back from the wire as it was written: it has no
/// answers, since none are written, its questions can be counted in sixteen
/// bits, and their names are well-formed.
pub open spec fn spec_frame_wf(f: DnsFrameView) -> bool {
    &&& f.answers.len() == 0
    &&& f.queries.len() <= 0xffff
    &&& forall|i: int| 0 <= i < f.queries.len() ==> spec_name_wf(#[trigger] f.queries[i].name)
}

/// The UTF-8 encoding of two texts in a row is their encodings in a row.
pub proof fn lemma_encode_utf8_concat(a: Seq<char>, b: Seq<char>)
    ensures
        encode_utf8(a + b) == encode_utf8(a) + encode_utf8(b),
    decreases a.len(),
{
    if a.len() == 0 {
        assert(a + b =~= b);
        assert(encode_utf8(a) + encode_utf8(b) =~= encode_utf8(b));
    } else {
        assert((a + b).drop_first() =~= a.drop_first() + b);
        lemma_encode_utf8_concat(a.drop_first(), b);
        assert(encode_scalar(a[0] as u32) + (encode_utf8(a.drop_first()) + encode_utf8(b))
            =~= encode_utf8(a) + encode_utf8(b));
    }
}

/// Reading a name that starts with a well-formed segment gives that segment,
/// then what the bytes behind it hold.
pub proof fn lemma_label_at_segment(segment: Seq<char>, tail: Seq<u8>)
    requires
        spec_segment_wf(segment),
    ensures
        spec_label_at(spec_segment_bytes(segment) + tail) == spec_label_prepend(
            seq![segment],
            spec_segment_bytes(segment).len() as int,
            spec_label_at(tail),
        ),
{
    let enc = encode_utf8(segment);
    let b = spec_segment_bytes(segment) + tail;
    let n = enc.len() as int;
    assert(b[0] == n as u8);
    assert(b.subrange(1, 1 + n) =~= enc);
    assert(b.skip(1 + n) =~= tail);
    encode_utf8_valid_utf8(segment);
    encode_utf8_decode_utf8(segment);
}

/// A well-formed name that was written, with its terminating zero, is read
/// back as it was, without a pointer, and what follows it is left over.
pub proof fn lemma_name_round_trip(name: Seq<Seq<char>>, rest: Seq<u8>)
    requires
        spec_name_wf(name),
    ensures
        spec_label_at(spec_name_bytes(name) + seq![0u8] + rest) == Some(
            (DnsLabelView { name, offset: None }, spec_name_bytes(name).len() as int + 1),
        ),
        spec_parse_label(spec_name_bytes(name) + seq![0u8] + rest) == (
            Some(DnsLabelView { name, offset: None }),
            rest,
        ),
    decreases name.len(),
{
    let b = spec_name_bytes(name) + seq![0u8] + rest;
    if name.len() == 0 {
        assert(b[0] == 0);
        assert(b.skip(1) =~= rest);
        assert(name =~= Seq::<Seq<char>>::empty());
    } else {
        let tail = spec_name_bytes(name.skip(1)) + seq![0u8] + rest;
        assert(b =~= spec_segment_bytes(name[0]) + tail);
        assert(spec_segment_wf(name[0]));
        assert(spec_name_wf(name.skip(1))) by {
            assert forall|i: int| 0 <= i < name.skip(1).len() implies spec_segment_wf(
                #[trigger] name.skip(1)[i],
            ) by {
                assert(name.skip(1)[i] == name[i + 1]);
            }
        }
        lemma_label_at_segment(name[0], tail);
        lemma_name_round_trip(name.skip(1), rest);
        assert(seq![name[0]] + name.skip(1) =~= name);
        assert(spec_label_at(tail) == Some(
            (
                DnsLabelView { name: name.skip(1), offset: None },
                spec_name_bytes(name.skip(1)).len() as int + 1,
            ),
        ));
        assert(spec_name_bytes(name).len() == spec_segment_bytes(name[0]).len()
            + spec_name_bytes(name.skip(1)).len());
        assert(spec_label_at(b) == Some(
            (DnsLabelView { name, offset: None }, spec_name_bytes(name).len() as int + 1),
        ));
        assert(b.skip(spec_name_bytes(name).len() as int + 1) =~= rest);
    }
}

/// The bytes that a name with at least one segment takes on the wire, its
/// terminating zero included, are two more than the bytes of the dotted name.
pub proof fn lemma_name_bytes_len(name: Seq<Seq<char>>)
    requires
        name.len() >= 1,
    ensures
        spec_name_bytes(name).len() + 1 == encode_utf8(spec_join(name, '.')).len() + 2,
    decreases name.len(),
{
    if name.len() == 1 {
        assert(name.skip(1) =~= Seq::<Seq<char>>::empty());
        assert(spec_name_bytes(name.skip(1)) =~= Seq::<u8>::empty());
    } else {
        let front = name.drop_last();
        let last = name.last();
        assert(front.push(last) =~= name);
        lemma_name_bytes_push(front, last);
        lemma_name_bytes_len(front);
        lemma_encode_utf8_concat(spec_join(front, '.') + seq!['.'], last);
        lemma_encode_utf8_concat(spec_join(front, '.'), seq!['.']);
        assert(encode_utf8(seq!['.']).len() == 1) by {
            assert(seq!['.'].drop_first() =~= Seq::<char>::empty());
            assert(encode_utf8(seq!['.'].drop_first()) =~= Seq::<u8>::empty());
            assert(encode_scalar('.' as u32).len() == 1);
        }
    }
}

/// Reading back the twelve bytes of a header gives the header, and what
/// follows them is left over.
pub proof fn lemma_header_round_trip(h: DnsHeader, rest: Seq<u8>)
    ensures
        spec_header_bytes(h).len() == 12,
        spec_parse_header(spec_header_bytes(h) + rest) == (Some(h), rest),
{
    let b = spec_header_bytes(h) + rest;
    assert(b.skip(12) =~= rest);
    assert(b[0] == spec_u16_bytes(h.transaction_id)[0]);
    assert(b[1] == spec_u16_bytes(h.transaction_id)[1]);
    assert(b[2] == spec_u16_bytes(h.flags)[0]);
    assert(b[3] == spec_u16_bytes(h.flags)[1]);
    assert(b[4] == spec_u16_bytes(h.qdcount)[0]);
    assert(b[5] == spec_u16_bytes(h.qdcount)[1]);
    assert(b[6] == spec_u16_bytes(h.ancount)[0]);
    assert(b[7] == spec_u16_bytes(h.ancount)[1]);
    assert(b[8] == spec_u16_bytes(h.nscount)[0]);
    assert(b[9] == spec_u16_bytes(h.nscount)[1]);
    assert(b[10] == spec_u16_bytes(h.arcount)[0]);
    assert(b[11] == spec_u16_bytes(h.arcount)[1]);
}

/// A question with a well-formed name that was written is read back as it
/// was, and what follows it is left over.
pub proof fn lemma_query_round_trip(q: DnsQueryView, rest: Seq<u8>)
    requires
        spec_name_wf(q.name),
    ensures
        spec_parse_query(spec_query_bytes(q) + rest) == (Some(q), rest),
{
    let tail = spec_u16_bytes(q.qtype) + spec_u16_bytes(q.qclass) + rest;
    let b = spec_query_bytes(q) + rest;
    assert(b =~= spec_name_bytes(q.name) + seq![0u8] + tail);
    lemma_name_round_trip(q.name, tail);
    assert(tail.skip(2) =~= spec_u16_bytes(q.qclass) + rest);
    assert(tail.skip(2).skip(2) =~= rest);
    assert(tail[0] == spec_u16_bytes(q.qtype)[0]);
    assert(tail[1] == spec_u16_bytes(q.qtype)[1]);
    assert(tail.skip(2)[0] == spec_u16_bytes(q.qclass)[0]);
    assert(tail.skip(2)[1] == spec_u16_bytes(q.qclass)[1]);
}

/// Questions with well-formed names that were written one after the other
/// are read back as they were, and what follows them is left over.
pub proof fn lemma_queries_round_trip(queries: Seq<DnsQueryView>, rest: Seq<u8>)
    requires
        forall|i: int| 0 <= i < queries.len() ==> spec_name_wf(#[trigger] queries[i].name),
    ensures
        spec_parse_queries(spec_queries_bytes(queries) + rest, queries.len()) == (
            Some(queries),
            rest,
        ),
    decreases queries.len(),
{
    if queries.len() == 0 {
        assert(spec_queries_bytes(queries) + rest =~= rest);
        assert(queries =~= Seq::<DnsQueryView>::empty());
    } else {
        let tail = spec_queries_bytes(queries.skip(1)) + rest;
        assert(spec_queries_bytes(queries) + rest =~= spec_query_bytes(queries[0]) + tail);
        lemma_query_round_trip(queries[0], tail);
        assert forall|i: int| 0 <= i < queries.skip(1).len() implies spec_name_wf(
            #[trigger] queries.skip(1)[i].name,
        ) by {
            assert(queries.skip(1)[i] == queries[i + 1]);
        }
        lemma_queries_round_trip(queries.skip(1), rest);
        assert(seq![queries[0]] + queries.skip(1) =~= queries);
    }
}

/// Every well-formed message without compression that was written is read
/// back as it was: parsing its bytes gives the message and consumes exactly
/// those bytes.
pub proof fn lemma_frame_round_trip(f: DnsFrameView, rest: Seq<u8>)
    requires
        spec_frame_wf(f),
    ensures
        spec_parse_frame(spec_frame_bytes(f) + rest) == (Some(f), rest),
{
    let h = spec_frame_header(f);
    let tail = spec_queries_bytes(f.queries) + rest;
    assert(spec_frame_bytes(f) + rest =~= spec_header_bytes(h) + tail);
    lemma_header_round_trip(h, tail);
    lemma_queries_round_trip(f.queries, rest);
    assert(f.answers =~= Seq::<DnsAnswerView>::empty());
}

/// Every name without a compression pointer that was written is read back as
/// it was, and, where it has at least one segment, writing it takes two bytes
/// more than the dotted name has.
pub proof fn lemma_label_round_trip(name: Seq<Seq<char>>, rest: Seq<u8>)
    requires
        spec_name_wf(name),
    ensures
        spec_parse_label(spec_name_bytes(name) + seq![0u8] + rest) == (
            Some(DnsLabelView { name, offset: None }),
            rest,
        ),
        name.len() >= 1 ==> (spec_name_bytes(name) + seq![0u8]).len() == encode_utf8(
            spec_join(name, '.'),
        ).len() + 2,
{
    lemma_name_round_trip(name, rest);
    if name.len() >= 1 {
        lemma_name_bytes_len(name);
    }
}

/// The label that holds the pieces of a dotted name, and no pointer, stands
/// for that name, unless it has too many pieces.
pub proof fn lemma_build_string_of_split(domain: Seq<char>, msg: Seq<u8>)
    requires
        spec_split(domain, '.').len() <= MAX_NAME_SEGMENTS,
    ensures
        spec_build_string(DnsLabelView { name: spec_split(domain, '.'), offset: None }, msg)
            == Some(domain),
{
    lemma_join_split(domain, '.');
}

/// A label whose compression pointer leads to or beyond the end of the
/// message cannot be resolved.
pub proof fn lemma_unreachable_pointer(label: DnsLabelView, msg: Seq<u8>)
    requires
        label.offset.is_some(),
        label.offset.unwrap() >= msg.len(),
    ensures
        spec_build_string(label, msg).is_none(),
        spec_build_cstring(label, msg).is_none(),
{
    if label.offset.unwrap() == msg.len() {
        assert(msg.skip(label.offset.unwrap() as int).len() == 0);
    }
}

/// An answer whose data length exceeds what is left behind its fixed fields
/// does not parse.
pub proof fn lemma_answer_rdlength(b: Seq<u8>)
    requires
        spec_parse_label(b).0.is_some(),
        spec_parse_label(b).1.len() >= 10,
        spec_u16_be(spec_parse_label(b).1[8], spec_parse_label(b).1[9]) > spec_parse_label(
            b,
        ).1.len() - 10,
    ensures
        spec_parse_answer(b).0.is_none(),
{
    let b1 = spec_parse_label(b).1;
    assert(b1.skip(2).skip(2).skip(4)[0] == b1[8]);
    assert(b1.skip(2).skip(2).skip(4)[1] == b1[9]);
}

/// The data of parsed answers are as long as a 16-bit length says.
pub proof fn lemma_answers_data_len(b: Seq<u8>, n: nat)
    ensures
        spec_parse_answers(b, n).0.is_some() ==> forall|i: int|
            0 <= i < spec_parse_answers(b, n).0.unwrap().len() ==> (#[trigger] spec_parse_answers(
                b,
                n,
            ).0.unwrap()[i]).data.len() <= 0xffff,
    decreases n,
{
    if n > 0 {
        let (a, b1) = spec_parse_answer(b);
        if a.is_some() {
            lemma_answers_data_len(b1, (n - 1) as nat);
            let rest = spec_parse_answers(b1, (n - 1) as nat);
            if rest.0.is_some() {
                let all = spec_parse_answers(b, n).0.unwrap();
                assert(all =~= seq![a.unwrap()] + rest.0.unwrap());
                assert forall|i: int| 0 <= i < all.len() implies (#[trigger] all[i]).data.len()
                    <= 0xffff by {
                    if i > 0 {
                        assert(all[i] == rest.0.unwrap()[i - 1]);
                    }
                }
            }
        }
    }
}

/// The data of the answers of a parsed message are as long as a 16-bit
/// length says.
pub proof fn lemma_frame_data_len(b: Seq<u8>)
    ensures
        spec_parse_frame(b).0.is_some() ==> forall|i: int|
            0 <= i < spec_parse_frame(b).0.unwrap().answers.len() ==> (
            #[trigger] spec_parse_frame(b).0.unwrap().answers[i]).data.len() <= 0xffff,
{
    let (header, b1) = spec_parse_header(b);
    if header.is_some() {
        let (queries, b2) = spec_parse_queries(b1, header.unwrap().qdcount as nat);
        if queries.is_some() {
            lemma_answers_data_len(b2, header.unwrap().ancount as nat);
        }
    }
}

} // verus!
