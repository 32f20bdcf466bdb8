//! The host entry that a reply is turned into.

use crate::af::{af_inet, af_inet6, AF_INET, AF_INET6};
use crate::cnullterminated::{from_vec, spec_null_terminated};
use crate::error::{ARES_EBADRESP, ARES_EFORMERR, ARES_ENODATA};
use crate::packets::{
    lemma_frame_data_len, spec_build_cstring, spec_label_at, spec_parse_frame, DnsAnswer,
    DnsAnswerView, DnsFrame, DnsLabel,
};
use vstd::prelude::*;
use vstd::slice::slice_to_vec;

verus! {

/// Which part of a reply a host entry is built from.
#[derive(Debug, Clone, Copy, PartialEq, Eq)]
pub enum HostentParseMode {
    /// The addresses, of whichever family the first answer has.
    Addrs,
    /// The addresses, if the first answer is of the IPv4 family.
    Addrs4,
    /// The addresses, if the first answer is of the IPv6 family.
    Addrs6,
    /// The names that the answers' data hold.
    Aliases,
}

/// A host entry in the shape of the C library's `hostent`. The name and the
/// aliases are C strings. The two lists are arrays of optional elements that
/// end in a `None`, as the C arrays of pointers end in a null.
#[derive(Debug, PartialEq)]
pub struct Hostent {
    pub h_name: Vec<u8>,
    pub h_aliases: Vec<Option<Vec<u8>>>,
    pub h_addrtype: i32,
    pub h_length: i32,
    pub h_addr_list: Vec<Option<Vec<u8>>>,
}

/// The model of a [`Hostent`].
pub struct HostentView {
    pub h_name: Seq<u8>,
    pub h_aliases: Seq<Option<Seq<u8>>>,
    pub h_addrtype: i32,
    pub h_length: i32,
    pub h_addr_list: Seq<Option<Seq<u8>>>,
}

impl View for Hostent {
    type V = HostentView;

    open spec fn view(&self) -> HostentView {
        HostentView {
            h_name: self.h_name@,
            h_aliases: self.h_aliases.deep_view(),
            h_addrtype: self.h_addrtype,
            h_length: self.h_length,
            h_addr_list: self.h_addr_list.deep_view(),
        }
    }
}

impl DeepView for Hostent {
    type V = HostentView;

    open spec fn deep_view(&self) -> HostentView {
        self.view()
    }
}

/// The address type that the record type of the first answer fixes: the IPv4
/// family for A, the IPv6 family for AAAA, 2 for NS, none for any other.
pub open spec fn spec_addrtype(record_type: u16) -> Option<i32> {
    if record_type == 0x01 {
        Some(AF_INET)
    } else if record_type == 0x1c {
        Some(AF_INET6)
    } else if record_type == 0x02 {
        Some(2i32)
    } else {
        None
    }
}

/// Whether a mode keeps the addresses of a reply of the given address type.
pub open spec fn spec_mode_keeps(mode: HostentParseMode, addrtype: i32) -> bool {
    match mode {
        HostentParseMode::Addrs4 => addrtype == AF_INET,
        HostentParseMode::Addrs6 => addrtype == AF_INET6,
        _ => true,
    }
}

/// The length that every address of the given type has.
pub open spec fn spec_addr_len(addrtype: i32) -> Option<int> {
    if addrtype == AF_INET {
        Some(4int)
    } else if addrtype == AF_INET6 {
        Some(16int)
    } else {
        None
    }
}

/// The elements, each as a present one, with the `None` that ends the array.
pub open spec fn spec_terminated(items: Seq<Seq<u8>>) -> Seq<Option<Seq<u8>>> {
    Seq::new(items.len(), |i: int| Some(items[i])).push(None)
}

/// The addresses of a non-empty answer section: none where the mode does not
/// keep the address type; otherwise the data of every answer, which must all
/// have the length of the address type.
pub open spec fn spec_addr_list(
    answers: Seq<DnsAnswerView>,
    mode: HostentParseMode,
    addrtype: i32,
) -> Result<Seq<Seq<u8>>, i32> {
    if !spec_mode_keeps(mode, addrtype) {
        Ok(seq![])
    } else if spec_addr_len(addrtype).is_none() || exists|i: int|
        0 <= i < answers.len() && (#[trigger] answers[i]).data.len() != spec_addr_len(
            addrtype,
        ).unwrap() {
        Err(ARES_EFORMERR)
    } else {
        Ok(Seq::new(answers.len(), |i: int| answers[i].data))
    }
}

/// The alias that one answer holds: the name in its data, resolved against
/// the whole message, as a C string.
pub open spec fn spec_alias(answer: DnsAnswerView, msg: Seq<u8>) -> Option<Seq<u8>> {
    match spec_label_at(answer.data) {
        None => None,
        Some((label, _)) => spec_build_cstring(label, msg),
    }
}

/// The aliases of an answer section, if every answer holds one.
pub open spec fn spec_aliases(answers: Seq<DnsAnswerView>, msg: Seq<u8>) -> Option<Seq<Seq<u8>>> {
    if exists|i: int| 0 <= i < answers.len() && spec_alias(#[trigger] answers[i], msg).is_none() {
        None
    } else {
        Some(Seq::new(answers.len(), |i: int| spec_alias(answers[i], msg).unwrap()))
    }
}

/// The host entry for the message `msg` under a mode.
///
/// A message that does not parse, a first answer whose name cannot be
/// resolved or made a C string, a first answer of a record type other than A,
/// AAAA and NS, and, in alias mode, an answer whose data hold no such name,
/// give `ARES_EBADRESP`. A message without answers gives `ARES_ENODATA`. In
/// the address modes an answer whose data are not of the address type's
/// length gives `ARES_EFORMERR`.
pub open spec fn spec_parse_hostent(msg: Seq<u8>, mode: HostentParseMode) -> Result<
    HostentView,
    i32,
> {
    let frame = spec_parse_frame(msg).0;
    if frame.is_none() {
        Err(ARES_EBADRESP)
    } else if frame.unwrap().answers.len() == 0 {
        Err(ARES_ENODATA)
    } else {
        let answers = frame.unwrap().answers;
        let name = spec_build_cstring(answers[0].name, msg);
        let addrtype = spec_addrtype(answers[0].record_type);
        if name.is_none() || addrtype.is_none() {
            Err(ARES_EBADRESP)
        } else if mode == HostentParseMode::Aliases {
            match spec_aliases(answers, msg) {
                None => Err(ARES_EBADRESP),
                Some(aliases) => Ok(
                    HostentView {
                        h_name: name.unwrap(),
                        h_aliases: spec_terminated(aliases),
                        h_addrtype: addrtype.unwrap(),
                        h_length: answers[0].data.len() as i32,
                        h_addr_list: spec_terminated(seq![]),
                    },
                ),
            }
        } else {
            match spec_addr_list(answers, mode, addrtype.unwrap()) {
                Err(e) => Err(e),
                Ok(addrs) => Ok(
                    HostentView {
                        h_name: name.unwrap(),
                        h_aliases: spec_terminated(seq![]),
                        h_addrtype: addrtype.unwrap(),
                        h_length: answers[0].data.len() as i32,
                        h_addr_list: spec_terminated(addrs),
                    },
                ),
            }
        }
    }
}

/// Both lists of every host entry that is built end in a null and hold none
/// before it.
pub proof fn lemma_lists_null_terminated(msg: Seq<u8>, mode: HostentParseMode)
    requires
        spec_parse_hostent(msg, mode).is_ok(),
    ensures
        spec_null_terminated(spec_parse_hostent(msg, mode).unwrap().h_aliases),
        spec_null_terminated(spec_parse_hostent(msg, mode).unwrap().h_addr_list),
{
}

/// The model of a result of [`parse_hostent`].
pub open spec fn spec_result_view(r: Result<Hostent, i32>) -> Result<HostentView, i32> {
    match r {
        Ok(h) => Ok(h@),
        Err(e) => Err(e),
    }
}

/// Collects the addresses of the answers, each copied into a buffer of its
/// own.
fn collect_addrs(answers: &Vec<DnsAnswer>, mode: HostentParseMode, h_addrtype: i32) -> (r: Result<
    Vec<Option<Vec<u8>>>,
    i32,
>)
    requires
        answers@.len() > 0,
    ensures
        match spec_addr_list(answers.deep_view(), mode, h_addrtype) {
            Err(e) => r == Err::<Vec<Option<Vec<u8>>>, i32>(e),
            Ok(addrs) => r.is_ok() && r.unwrap().deep_view() == Seq::new(
                addrs.len(),
                |i: int| Some(addrs[i]),
            ),
        },
{
    let mut addr_list: Vec<Option<Vec<u8>>> = Vec::new();
    let inet: i32 = af_inet();
    let inet6: i32 = af_inet6();
    let mut i: usize = 0;
    while i < answers.len()
        invariant
            i <= answers@.len(),
            inet == AF_INET,
            inet6 == AF_INET6,
            !spec_mode_keeps(mode, h_addrtype) ==> addr_list@.len() == 0,
            spec_mode_keeps(mode, h_addrtype) ==> {
                &&& spec_addr_len(h_addrtype).is_some() || i == 0
                &&& addr_list@.len() == i
                &&& forall|k: int|
                    0 <= k < i ==> {
                        &&& (#[trigger] answers.deep_view()[k]).data.len() == spec_addr_len(
                            h_addrtype,
                        ).unwrap()
                        &&& addr_list.deep_view()[k] == Some(answers.deep_view()[k].data)
                    }
            },
        decreases answers@.len() - i,
    {
        let answer: &DnsAnswer = &answers[i];
        assert(answers.deep_view()[i as int] == answer@);
        let skip: bool = match mode {
            HostentParseMode::Addrs4 => h_addrtype != inet,
            HostentParseMode::Addrs6 => h_addrtype != inet6,
            _ => false,
        };
        if !skip {
            let expected_length: usize = if h_addrtype == inet {
                4
            } else if h_addrtype == inet6 {
                16
            } else {
                return Err(ARES_EFORMERR);
            };
            if answer.data.len() != expected_length {
                return Err(ARES_EFORMERR);
            }
            let dst: Vec<u8> = slice_to_vec(answer.data.as_slice());
            let ghost before = addr_list.deep_view();
            assert(dst.deep_view() =~= answer@.data);
            addr_list.push(Some(dst));
            assert(addr_list.deep_view() =~= before.push(Some(answer@.data)));
        }
        i += 1;
    }
    proof {
        let addrs = spec_addr_list(answers.deep_view(), mode, h_addrtype);
        if spec_mode_keeps(mode, h_addrtype) {
            assert(addrs.is_ok());
            assert(addr_list.deep_view() =~= Seq::new(
                addrs.unwrap().len(),
                |i: int| Some(addrs.unwrap()[i]),
            ));
        } else {
            assert(addr_list.deep_view() =~= Seq::new(
                addrs.unwrap().len(),
                |i: int| Some(addrs.unwrap()[i]),
            ));
        }
    }
    Ok(addr_list)
}

/// Collects the aliases that the answers hold.
fn collect_aliases(answers: &Vec<DnsAnswer>, buf: &[u8]) -> (r: Option<Vec<Option<Vec<u8>>>>)
    ensures
        match spec_aliases(answers.deep_view(), buf@) {
            None => r.is_none(),
            Some(aliases) => r.is_some() && r.unwrap().deep_view() == Seq::new(
                aliases.len(),
                |i: int| Some(aliases[i]),
            ),
        },
{
    let mut aliases: Vec<Option<Vec<u8>>> = Vec::new();
    let mut i: usize = 0;
    while i < answers.len()
        invariant
            i <= answers@.len(),
            aliases@.len() == i,
            forall|k: int|
                0 <= k < i ==> aliases.deep_view()[k] == spec_alias(
                    #[trigger] answers.deep_view()[k],
                    buf@,
                ) && aliases.deep_view()[k].is_some(),
        decreases answers@.len() - i,
    {
        let answer: &DnsAnswer = &answers[i];
        assert(answers.deep_view()[i as int] == answer@);
        let mut data: &[u8] = answer.data.as_slice();
        let label: DnsLabel = match DnsLabel::parse(&mut data) {
            Some(label) => label,
            None => {
                return None;
            },
        };
        let alias: Vec<u8> = match label.build_cstring(buf) {
            Some(alias) => alias,
            None => {
                return None;
            },
        };
        let ghost before = aliases.deep_view();
        assert(alias.deep_view() =~= alias@);
        aliases.push(Some(alias));
        assert(aliases.deep_view() =~= before.push(Some(alias@)));
        i += 1;
    }
    proof {
        let expected = spec_aliases(answers.deep_view(), buf@);
        assert(expected.is_some());
        assert(aliases.deep_view() =~= Seq::new(
            expected.unwrap().len(),
            |i: int| Some(expected.unwrap()[i]),
        ));
    }
    Some(aliases)
}

/// Builds the host entry for a reply.
pub fn parse_hostent(buf: &[u8], mode: HostentParseMode) -> (r: Result<Hostent, i32>)
    ensures
        spec_result_view(r) == spec_parse_hostent(buf@, mode),
{
    let mut cur: &[u8] = buf;
    let frame: DnsFrame = match DnsFrame::parse(&mut cur) {
        Some(frame) => frame,
        None => {
            return Err(ARES_EBADRESP);
        },
    };
    if frame.answers.len() == 0 {
        return Err(ARES_ENODATA);
    }
    let answer: &DnsAnswer = &frame.answers[0];
    assert(frame@.answers[0] == answer@);
    let name: Vec<u8> = match answer.name.build_cstring(buf) {
        Some(name) => name,
        None => {
            return Err(ARES_EBADRESP);
        },
    };
    let h_addrtype: i32 = if answer.record_type == 0x01 {
        af_inet()
    } else if answer.record_type == 0x1c {
        af_inet6()
    } else if answer.record_type == 0x02 {
        0x02
    } else {
        return Err(ARES_EBADRESP);
    };
    let mut aliases: Vec<Option<Vec<u8>>> = Vec::new();
    let mut addr_list: Vec<Option<Vec<u8>>> = Vec::new();
    match mode {
        HostentParseMode::Aliases => {
            aliases = match collect_aliases(&frame.answers, buf) {
                Some(aliases) => aliases,
                None => {
                    return Err(ARES_EBADRESP);
                },
            };
        },
        _ => {
            addr_list = match collect_addrs(&frame.answers, mode, h_addrtype) {
                Ok(addr_list) => addr_list,
                Err(e) => {
                    return Err(e);
                },
            };
        },
    }
    proof {
        lemma_frame_data_len(buf@);
    }
    let ghost aliases0 = aliases.deep_view();
    let ghost addrs0 = addr_list.deep_view();
    let h_length: i32 = answer.data.len() as i32;
    let h_aliases: Vec<Option<Vec<u8>>> = from_vec(aliases);
    let h_addr_list: Vec<Option<Vec<u8>>> = from_vec(addr_list);
    proof {
        assert(h_aliases.deep_view() =~= aliases0.push(None)) by {
            assert(h_aliases@.take(aliases0.len() as int) == aliases@);
            assert forall|k: int| 0 <= k < aliases0.len() implies h_aliases.deep_view()[k]
                == aliases0[k] by {
                assert(h_aliases@.take(aliases0.len() as int)[k] == h_aliases@[k]);
            }
        }
        assert(h_addr_list.deep_view() =~= addrs0.push(None)) by {
            assert(h_addr_list@.take(addrs0.len() as int) == addr_list@);
            assert forall|k: int| 0 <= k < addrs0.len() implies h_addr_list.deep_view()[k]
                == addrs0[k] by {
                assert(h_addr_list@.take(addrs0.len() as int)[k] == h_addr_list@[k]);
            }
        }
    }
    let host = Hostent { h_name: name, h_aliases, h_addrtype, h_length, h_addr_list };
    proof {
        let answers = frame@.answers;
        let expected = spec_parse_hostent(buf@, mode);
        assert(name.deep_view() =~= name@);
        assert(spec_addrtype(answers[0].record_type) == Some(h_addrtype));
        assert(h_length == answers[0].data.len() as i32);
        assert(Seq::new(0, |i: int| Some(Seq::<Seq<u8>>::empty()[i])) =~= Seq::<
            Option<Seq<u8>>,
        >::empty());
        if mode == HostentParseMode::Aliases {
            assert(addrs0 =~= Seq::<Option<Seq<u8>>>::empty());
            assert(expected.is_ok());
            assert(host@.h_aliases =~= expected.unwrap().h_aliases);
            assert(host@.h_addr_list =~= expected.unwrap().h_addr_list);
        } else {
            assert(aliases0 =~= Seq::<Option<Seq<u8>>>::empty());
            assert(expected.is_ok());
            assert(host@.h_aliases =~= expected.unwrap().h_aliases);
            assert(host@.h_addr_list =~= expected.unwrap().h_addr_list);
        }
        assert(host@ == expected.unwrap());
    }
    Ok(host)
}

/// Builds the host entry of the IPv4 addresses of a reply.
pub fn ares_parse_a_reply(abuf: &[u8]) -> (r: Result<Hostent, i32>)
    ensures
        spec_result_view(r) == spec_parse_hostent(abuf@, HostentParseMode::Addrs4),
{
    parse_hostent(abuf, HostentParseMode::Addrs4)
}

/// Builds the host entry of the IPv6 addresses of a reply.
pub fn ares_parse_aaaa_reply(abuf: &[u8]) -> (r: Result<Hostent, i32>)
    ensures
        spec_result_view(r) == spec_parse_hostent(abuf@, HostentParseMode::Addrs6),
{
    parse_hostent(abuf, HostentParseMode::Addrs6)
}

/// Builds the host entry of the nameservers of a reply, which are its
/// aliases.
pub fn ares_parse_ns_reply(abuf: &[u8]) -> (r: Result<Hostent, i32>)
    ensures
        spec_result_view(r) == spec_parse_hostent(abuf@, HostentParseMode::Aliases),
{
    parse_hostent(abuf, HostentParseMode::Aliases)
}

} // verus!
