//! The records handed to callers, and the envelope that carries each of them
//! with a tag for its kind.

use crate::clinkedlist::{chain_nodes, spec_chain, CLinkedList};
use crate::error::{ARES_EBADRESP, ARES_ENODATA};
use crate::offset_of::{align_up, lemma_align_up, spec_align_up, Field};
use crate::packets::{
    spec_build_cstring, spec_parse_frame, spec_parse_mx, spec_parse_txt, DnsAnswer,
    DnsAnswerView, DnsFrame, MxReply, TxtReply,
};
use crate::text::{cstring_new, spec_cstring};
use vstd::prelude::*;
use vstd::utf8::*;

verus! {

/// The kinds of record that travel in an envelope.
#[derive(Debug, Clone, Copy, PartialEq, Eq)]
pub enum AresDataType {
    MxReply,
    TxtReply,
    AddrPortNode,
}

/// A record type that has a kind.
pub trait DataType {
    /// The kind of the records of this type. An implementation states it
    /// here.
    open spec fn spec_datatype() -> AresDataType {
        arbitrary()
    }

    /// The kind of the records of this type.
    fn datatype() -> (r: AresDataType)
        ensures
            r == Self::spec_datatype(),
    ;
}

/// The envelope: a record behind the tag of its kind.
#[derive(Debug)]
pub struct AresData<T> {
    pub data_type: AresDataType,
    pub data: T,
}

impl<T: DataType> AresData<T> {
    /// Whether the tag is the one of the record's type.
    pub open spec fn wf(&self) -> bool {
        self.data_type == T::spec_datatype()
    }

    /// Puts a record into an envelope, tagged with the kind of its type.
    pub fn new(data: T) -> (r: AresData<T>)
        ensures
            r.wf(),
            r.data == data,
    {
        AresData { data_type: T::datatype(), data }
    }
}

/// The offset of the record within an envelope whose tag and record have the
/// given layouts: the end of the tag, moved up to the record's alignment.
pub open spec fn spec_payload_offset(tag: Field, payload: Field) -> int {
    spec_align_up(tag.size as int, payload.align as int)
}

/// The offset of the record within an envelope.
pub fn payload_offset(tag: Field, payload: Field) -> (off: usize)
    requires
        payload.align >= 1,
        spec_payload_offset(tag, payload) <= usize::MAX,
    ensures
        off == spec_payload_offset(tag, payload),
{
    align_up(tag.size, payload.align)
}

/// The address of the record of the envelope at address `envelope`, the
/// record lying `offset` bytes into it.
pub open spec fn spec_payload_ptr(envelope: int, offset: int) -> int {
    envelope + offset
}

/// The address of the envelope whose record lies at `dataptr`, `offset` bytes
/// into it.
pub open spec fn spec_restore_original_ptr(dataptr: int, offset: int) -> int {
    dataptr - offset
}

/// The address of the record of the envelope at address `envelope`, the
/// record lying `offset` bytes into it.
pub fn payload_ptr(envelope: usize, offset: usize) -> (dataptr: usize)
    requires
        spec_payload_ptr(envelope as int, offset as int) <= usize::MAX,
    ensures
        dataptr == spec_payload_ptr(envelope as int, offset as int),
{
    envelope + offset
}

/// The address of the envelope whose record lies at `dataptr`, `offset` bytes
/// into it.
pub fn restore_original_ptr(dataptr: usize, offset: usize) -> (envelope: usize)
    requires
        offset <= dataptr,
    ensures
        envelope == spec_restore_original_ptr(dataptr as int, offset as int),
{
    dataptr - offset
}

/// Going from an envelope to its record and back by the same offset gives
/// the address of the envelope: for the offset of the record in the layout
/// of any tag and record, and for any other offset.
pub proof fn lemma_restore_original_ptr(envelope: usize, tag: Field, payload: Field)
    requires
        payload.align >= 1,
    ensures
        spec_payload_offset(tag, payload) >= tag.size,
        spec_restore_original_ptr(
            spec_payload_ptr(envelope as int, spec_payload_offset(tag, payload)),
            spec_payload_offset(tag, payload),
        ) == envelope,
        forall|offset: int|
            spec_restore_original_ptr(spec_payload_ptr(envelope as int, offset), offset)
                == envelope,
{
    lemma_align_up(tag.size as int, payload.align as int);
}

/// One mail exchanger of a reply.
#[derive(Debug)]
pub struct AresMxReply {
    pub next: Option<Box<AresMxReply>>,
    /// The exchanger's name, a C string.
    pub host: Vec<u8>,
    pub priority: u16,
}

/// One text of a reply.
#[derive(Debug)]
pub struct AresTxtReply {
    pub next: Option<Box<AresTxtReply>>,
    /// The text, a C string.
    pub txt: Vec<u8>,
    /// The length of the text, its terminating zero not counted.
    pub length: usize,
}

/// The address of a nameserver: the four bytes of an IPv4 address, followed
/// by zeros, or the sixteen bytes of an IPv6 address.
#[derive(Debug, Clone, Copy, PartialEq, Eq)]
pub struct AresAddrUnion {
    pub bytes: [u8; 16],
}

/// One nameserver with its ports.
#[derive(Debug)]
pub struct AresAddrPortNode {
    pub next: Option<Box<AresAddrPortNode>>,
    pub family: i32,
    pub addr: AresAddrUnion,
    pub udp_port: i32,
    pub tcp_port: i32,
}

impl CLinkedList for AresMxReply {
    open spec fn spec_next(&self) -> Option<Box<Self>> {
        self.next
    }

    open spec fn spec_set_next(self, next: Option<Box<Self>>) -> Self {
        AresMxReply { next, host: self.host, priority: self.priority }
    }

    fn next(&mut self) -> (r: &mut Option<Box<Self>>) {
        &mut self.next
    }
}

impl CLinkedList for AresTxtReply {
    open spec fn spec_next(&self) -> Option<Box<Self>> {
        self.next
    }

    open spec fn spec_set_next(self, next: Option<Box<Self>>) -> Self {
        AresTxtReply { next, txt: self.txt, length: self.length }
    }

    fn next(&mut self) -> (r: &mut Option<Box<Self>>) {
        &mut self.next
    }
}

impl CLinkedList for AresAddrPortNode {
    open spec fn spec_next(&self) -> Option<Box<Self>> {
        self.next
    }

    open spec fn spec_set_next(self, next: Option<Box<Self>>) -> Self {
        AresAddrPortNode {
            next,
            family: self.family,
            addr: self.addr,
            udp_port: self.udp_port,
            tcp_port: self.tcp_port,
        }
    }

    fn next(&mut self) -> (r: &mut Option<Box<Self>>) {
        &mut self.next
    }
}

impl DataType for AresMxReply {
    open spec fn spec_datatype() -> AresDataType {
        AresDataType::MxReply
    }

    fn datatype() -> (r: AresDataType) {
        AresDataType::MxReply
    }
}

impl DataType for AresTxtReply {
    open spec fn spec_datatype() -> AresDataType {
        AresDataType::TxtReply
    }

    fn datatype() -> (r: AresDataType) {
        AresDataType::TxtReply
    }
}

impl DataType for AresAddrPortNode {
    open spec fn spec_datatype() -> AresDataType {
        AresDataType::AddrPortNode
    }

    fn datatype() -> (r: AresDataType) {
        AresDataType::AddrPortNode
    }
}

/// What a mail exchanger node holds besides its successor.
pub struct MxNodeView {
    pub host: Seq<u8>,
    pub priority: u16,
}

/// What a text node holds besides its successor.
pub struct TxtNodeView {
    pub txt: Seq<u8>,
    pub length: usize,
}

/// What a nameserver node holds besides its successor.
pub struct AddrPortNodeView {
    pub family: i32,
    pub addr: Seq<u8>,
    pub udp_port: i32,
    pub tcp_port: i32,
}

impl AresMxReply {
    /// What this node holds.
    pub open spec fn spec_node(self) -> MxNodeView {
        MxNodeView { host: self.host@, priority: self.priority }
    }

    /// What the nodes of the list that starts here hold, in order.
    pub open spec fn spec_list(self) -> Seq<MxNodeView>
        decreases self,
    {
        seq![self.spec_node()] + match self.next {
            Some(b) => (*b).spec_list(),
            None => seq![],
        }
    }
}

impl AresTxtReply {
    /// What this node holds.
    pub open spec fn spec_node(self) -> TxtNodeView {
        TxtNodeView { txt: self.txt@, length: self.length }
    }

    /// What the nodes of the list that starts here hold, in order.
    pub open spec fn spec_list(self) -> Seq<TxtNodeView>
        decreases self,
    {
        seq![self.spec_node()] + match self.next {
            Some(b) => (*b).spec_list(),
            None => seq![],
        }
    }
}

impl AresAddrPortNode {
    /// What this node holds.
    pub open spec fn spec_node(self) -> AddrPortNodeView {
        AddrPortNodeView {
            family: self.family,
            addr: self.addr.bytes@,
            udp_port: self.udp_port,
            tcp_port: self.tcp_port,
        }
    }

    /// What the nodes of the list that starts here hold, in order.
    pub open spec fn spec_list(self) -> Seq<AddrPortNodeView>
        decreases self,
    {
        seq![self.spec_node()] + match self.next {
            Some(b) => (*b).spec_list(),
            None => seq![],
        }
    }
}

/// Chaining nodes that have no successor yet gives the list of what they
/// hold, in their order.
pub proof fn lemma_chain_mx(elts: Seq<AresMxReply>)
    requires
        elts.len() > 0,
        forall|i: int| 0 <= i < elts.len() ==> (#[trigger] elts[i]).next.is_none(),
    ensures
        spec_chain(elts).spec_list() == Seq::new(elts.len(), |i: int| elts[i].spec_node()),
    decreases elts.len(),
{
    if elts.len() == 1 {
        assert(spec_chain(elts).spec_list() =~= Seq::new(
            elts.len(),
            |i: int| elts[i].spec_node(),
        ));
    } else {
        let rest = elts.skip(1);
        assert forall|i: int| 0 <= i < rest.len() implies (#[trigger] rest[i]).next.is_none() by {
            assert(rest[i] == elts[i + 1]);
        }
        lemma_chain_mx(rest);
        assert(spec_chain(elts).spec_list() =~= Seq::new(
            elts.len(),
            |i: int| elts[i].spec_node(),
        ));
    }
}

/// Chaining nodes that have no successor yet gives the list of what they
/// hold, in their order.
pub proof fn lemma_chain_txt(elts: Seq<AresTxtReply>)
    requires
        elts.len() > 0,
        forall|i: int| 0 <= i < elts.len() ==> (#[trigger] elts[i]).next.is_none(),
    ensures
        spec_chain(elts).spec_list() == Seq::new(elts.len(), |i: int| elts[i].spec_node()),
    decreases elts.len(),
{
    if elts.len() == 1 {
        assert(spec_chain(elts).spec_list() =~= Seq::new(
            elts.len(),
            |i: int| elts[i].spec_node(),
        ));
    } else {
        let rest = elts.skip(1);
        assert forall|i: int| 0 <= i < rest.len() implies (#[trigger] rest[i]).next.is_none() by {
            assert(rest[i] == elts[i + 1]);
        }
        lemma_chain_txt(rest);
        assert(spec_chain(elts).spec_list() =~= Seq::new(
            elts.len(),
            |i: int| elts[i].spec_node(),
        ));
    }
}

/// Chaining nodes that have no successor yet gives the list of what they
/// hold, in their order.
pub proof fn lemma_chain_addr_port(elts: Seq<AresAddrPortNode>)
    requires
        elts.len() > 0,
        forall|i: int| 0 <= i < elts.len() ==> (#[trigger] elts[i]).next.is_none(),
    ensures
        spec_chain(elts).spec_list() == Seq::new(elts.len(), |i: int| elts[i].spec_node()),
    decreases elts.len(),
{
    if elts.len() == 1 {
        assert(spec_chain(elts).spec_list() =~= Seq::new(
            elts.len(),
            |i: int| elts[i].spec_node(),
        ));
    } else {
        let rest = elts.skip(1);
        assert forall|i: int| 0 <= i < rest.len() implies (#[trigger] rest[i]).next.is_none() by {
            assert(rest[i] == elts[i + 1]);
        }
        lemma_chain_addr_port(rest);
        assert(spec_chain(elts).spec_list() =~= Seq::new(
            elts.len(),
            |i: int| elts[i].spec_node(),
        ));
    }
}

/// A parsed record body that can be made the record handed to callers.
pub trait IntoAresData<T>: Sized {
    /// Whether `out` is what the conversion against the message `main_buf`
    /// gives, `None` standing for "no such record". An implementation states
    /// it here.
    open spec fn spec_into_ares_data(&self, main_buf: Seq<u8>, out: Option<T>) -> bool {
        arbitrary()
    }

    /// Makes the record, resolving names against the whole message.
    fn into_ares_data(self, main_buf: &[u8]) -> (r: Option<T>)
        ensures
            self.spec_into_ares_data(main_buf@, r),
    ;
}

/// The text node for a text: the text as a C string, with its length in
/// bytes. A text that holds a zero byte has none.
pub open spec fn spec_txt_node(txt: Seq<char>) -> Option<TxtNodeView> {
    match spec_cstring(txt) {
        None => None,
        Some(bytes) => Some(TxtNodeView { txt: bytes, length: encode_utf8(txt).len() as usize }),
    }
}

/// The mail exchanger node for an MX body within the message `msg`.
pub open spec fn spec_mx_node(priority: u16, host: Option<Seq<u8>>) -> Option<MxNodeView> {
    match host {
        None => None,
        Some(host) => Some(MxNodeView { host, priority }),
    }
}

impl IntoAresData<AresTxtReply> for TxtReply {
    open spec fn spec_into_ares_data(&self, main_buf: Seq<u8>, out: Option<AresTxtReply>) -> bool {
        match spec_txt_node(self.txt@) {
            None => out.is_none(),
            Some(node) => out.is_some() && out.unwrap().next.is_none() && out.unwrap().spec_node()
                == node,
        }
    }

    fn into_ares_data(self, _main_buf: &[u8]) -> (r: Option<AresTxtReply>) {
        let bytes: &[u8] = self.txt.as_str().as_bytes();
        let length: usize = bytes.len();
        let txt: Vec<u8> = cstring_new(self.txt.as_str())?;
        assert(txt.deep_view() =~= txt@);
        Some(AresTxtReply { next: None, txt, length })
    }
}

impl IntoAresData<AresMxReply> for MxReply {
    open spec fn spec_into_ares_data(&self, main_buf: Seq<u8>, out: Option<AresMxReply>) -> bool {
        match spec_mx_node(self.priority, spec_build_cstring(self.label@, main_buf)) {
            None => out.is_none(),
            Some(node) => out.is_some() && out.unwrap().next.is_none() && out.unwrap().spec_node()
                == node,
        }
    }

    fn into_ares_data(self, main_buf: &[u8]) -> (r: Option<AresMxReply>) {
        let host: Vec<u8> = self.label.build_cstring(main_buf)?;
        assert(host.deep_view() =~= host@);
        Some(AresMxReply { next: None, host, priority: self.priority })
    }
}

/// The mail exchanger node that one answer gives within the message `msg`.
pub open spec fn spec_mx_of_answer(answer: DnsAnswerView, msg: Seq<u8>) -> Option<MxNodeView> {
    match spec_parse_mx(answer.data).0 {
        None => None,
        Some(mx) => spec_mx_node(mx.priority, spec_build_cstring(mx.label, msg)),
    }
}

/// The text node that one answer gives.
pub open spec fn spec_txt_of_answer(answer: DnsAnswerView) -> Option<TxtNodeView> {
    match spec_parse_txt(answer.data).0 {
        None => None,
        Some(txt) => spec_txt_node(txt.txt),
    }
}

/// The mail exchangers of the message `msg`, one for each answer.
///
/// A message that does not parse, and an answer whose data are no MX body or
/// whose name cannot be resolved, give `ARES_EBADRESP`; a message without
/// answers gives `ARES_ENODATA`.
pub open spec fn spec_parse_mx_reply(msg: Seq<u8>) -> Result<Seq<MxNodeView>, i32> {
    let frame = spec_parse_frame(msg).0;
    if frame.is_none() {
        Err(ARES_EBADRESP)
    } else if frame.unwrap().answers.len() == 0 {
        Err(ARES_ENODATA)
    } else {
        let answers = frame.unwrap().answers;
        if exists|i: int|
            0 <= i < answers.len() && spec_mx_of_answer(#[trigger] answers[i], msg).is_none() {
            Err(ARES_EBADRESP)
        } else {
            Ok(Seq::new(answers.len(), |i: int| spec_mx_of_answer(answers[i], msg).unwrap()))
        }
    }
}

/// The texts of the message `msg`, one for each answer.
///
/// A message that does not parse, and an answer whose data are empty or whose
/// text holds a zero byte, give `ARES_EBADRESP`; a message without answers
/// gives `ARES_ENODATA`.
pub open spec fn spec_parse_txt_reply(msg: Seq<u8>) -> Result<Seq<TxtNodeView>, i32> {
    let frame = spec_parse_frame(msg).0;
    if frame.is_none() {
        Err(ARES_EBADRESP)
    } else if frame.unwrap().answers.len() == 0 {
        Err(ARES_ENODATA)
    } else {
        let answers = frame.unwrap().answers;
        if exists|i: int|
            0 <= i < answers.len() && spec_txt_of_answer(#[trigger] answers[i]).is_none() {
            Err(ARES_EBADRESP)
        } else {
            Ok(Seq::new(answers.len(), |i: int| spec_txt_of_answer(answers[i]).unwrap()))
        }
    }
}

/// Reads the mail exchangers out of a reply and hands them out as a list in
/// an envelope.
pub fn ares_parse_mx_reply(buf: &[u8]) -> (r: Result<AresData<AresMxReply>, i32>)
    ensures
        match spec_parse_mx_reply(buf@) {
            Err(e) => r.is_err() && r.unwrap_err() == e,
            Ok(nodes) => r.is_ok() && r.unwrap().wf() && r.unwrap().data.spec_list() == nodes,
        },
{
    let mut cur: &[u8] = buf;
    let frame: DnsFrame = match DnsFrame::parse(&mut cur) {
        Some(frame) => frame,
        None => {
            return Err(ARES_EBADRESP);
        },
    };
    if frame.answers.len() == 0 {
        return Err(ARES_ENODATA);
    }
    let mut replies: Vec<AresMxReply> = Vec::new();
    let mut i: usize = 0;
    while i < frame.answers.len()
        invariant
            i <= frame.answers@.len(),
            frame.answers@.len() > 0,
            spec_parse_frame(buf@).0 == Some(frame@),
            replies@.len() == i,
            forall|k: int|
                0 <= k < i ==> {
                    &&& (#[trigger] replies@[k]).next.is_none()
                    &&& spec_mx_of_answer(frame@.answers[k], buf@) == Some(replies@[k].spec_node())
                },
        decreases frame.answers@.len() - i,
    {
        let answer: &DnsAnswer = &frame.answers[i];
        assert(frame@.answers[i as int] == answer@);
        let mut data: &[u8] = answer.data.as_slice();
        let reply: MxReply = match MxReply::parse(&mut data) {
            Some(reply) => reply,
            None => {
                return Err(ARES_EBADRESP);
            },
        };
        let node: AresMxReply = match reply.into_ares_data(buf) {
            Some(node) => node,
            None => {
                return Err(ARES_EBADRESP);
            },
        };
        replies.push(node);
        i += 1;
    }
    proof {
        lemma_chain_mx(replies@);
        assert forall|k: int| 0 <= k < frame@.answers.len() implies spec_mx_of_answer(
            #[trigger] frame@.answers[k],
            buf@,
        ).is_some() by {
            assert(replies@[k].next.is_none());
        }
        assert(spec_parse_mx_reply(buf@).is_ok());
        assert(Seq::new(replies@.len(), |i: int| replies@[i].spec_node())
            =~= spec_parse_mx_reply(buf@).unwrap());
    }
    let reply: AresMxReply = chain_nodes(replies);
    Ok(AresData::new(reply))
}

/// Reads the texts out of a reply and hands them out as a list in an
/// envelope.
pub fn ares_parse_txt_reply(buf: &[u8]) -> (r: Result<AresData<AresTxtReply>, i32>)
    ensures
        match spec_parse_txt_reply(buf@) {
            Err(e) => r.is_err() && r.unwrap_err() == e,
            Ok(nodes) => r.is_ok() && r.unwrap().wf() && r.unwrap().data.spec_list() == nodes,
        },
{
    let mut cur: &[u8] = buf;
    let frame: DnsFrame = match DnsFrame::parse(&mut cur) {
        Some(frame) => frame,
        None => {
            return Err(ARES_EBADRESP);
        },
    };
    if frame.answers.len() == 0 {
        return Err(ARES_ENODATA);
    }
    let mut replies: Vec<AresTxtReply> = Vec::new();
    let mut i: usize = 0;
    while i < frame.answers.len()
        invariant
            i <= frame.answers@.len(),
            frame.answers@.len() > 0,
            spec_parse_frame(buf@).0 == Some(frame@),
            replies@.len() == i,
            forall|k: int|
                0 <= k < i ==> {
                    &&& (#[trigger] replies@[k]).next.is_none()
                    &&& spec_txt_of_answer(frame@.answers[k]) == Some(replies@[k].spec_node())
                },
        decreases frame.answers@.len() - i,
    {
        let answer: &DnsAnswer = &frame.answers[i];
        assert(frame@.answers[i as int] == answer@);
        let mut data: &[u8] = answer.data.as_slice();
        let reply: TxtReply = match TxtReply::parse(&mut data) {
            Some(reply) => reply,
            None => {
                return Err(ARES_EBADRESP);
            },
        };
        let node: AresTxtReply = match reply.into_ares_data(buf) {
            Some(node) => node,
            None => {
                return Err(ARES_EBADRESP);
            },
        };
        replies.push(node);
        i += 1;
    }
    proof {
        lemma_chain_txt(replies@);
        assert forall|k: int| 0 <= k < frame@.answers.len() implies spec_txt_of_answer(
            #[trigger] frame@.answers[k],
        ).is_some() by {
            assert(replies@[k].next.is_none());
        }
        assert(spec_parse_txt_reply(buf@).is_ok());
        assert(Seq::new(replies@.len(), |i: int| replies@[i].spec_node())
            =~= spec_parse_txt_reply(buf@).unwrap());
    }
    let reply: AresTxtReply = chain_nodes(replies);
    Ok(AresData::new(reply))
}

} // verus!
