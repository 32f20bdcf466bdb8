//! Lists of nameservers written as text: addresses, each with a port where
//! it names one, between commas or line ends.

use crate::sysconfig::{spec_describes, IpAddr};
use crate::text::{
    chars_of, lemma_find_by_is, non_empty, parse_u64, spec_find_by, spec_non_empty,
    spec_parse_u64, spec_split_by, spec_trim, split_by, string_from_utf8, substring, trim,
};
use vstd::prelude::*;
use vstd::string::*;
use vstd::utf8::*;

verus! {

/// Whether a character parts two servers of a list.
pub open spec fn spec_is_list_sep(c: char) -> bool {
    c == ',' || c == '\n'
}

/// Whether a character parts two servers of a list.
pub fn is_list_sep(c: char) -> (r: bool)
    ensures
        r == spec_is_list_sep(c),
{
    c == ',' || c == '\n'
}

/// The two texts that one server is written with: its address and, where it
/// names one, its port.
///
/// An address in square brackets must be followed by a colon and the port.
/// Without brackets, a text with exactly one colon is an address and a port;
/// any other text is an address alone.
pub open spec fn spec_split_ns_addr(item: Seq<char>) -> Option<(Seq<char>, Option<Seq<char>>)> {
    if item.len() > 0 && item[0] == '[' {
        let close = spec_find_by(item, |c: char| c == ']');
        if close + 1 < item.len() && item[close + 1] == ':' {
            Some((item.subrange(1, close), Some(item.skip(close + 2))))
        } else {
            None
        }
    } else {
        let first = spec_find_by(item, |c: char| c == ':');
        if first < item.len() && spec_find_by(item.skip(first + 1), |c: char| c == ':')
            >= item.len() - first - 1 {
            Some((item.take(first), Some(item.skip(first + 1))))
        } else {
            Some((item, None))
        }
    }
}

/// The port that a text denotes: a number of at most sixteen bits.
pub open spec fn spec_port(text: Seq<char>) -> Option<u16> {
    if spec_parse_u64(text).is_some() && spec_parse_u64(text).unwrap() <= 0xffff {
        Some(spec_parse_u64(text).unwrap() as u16)
    } else {
        None
    }
}

/// The server that a text denotes, where `ip_of` says which texts are IP
/// addresses. An address in square brackets must be an IPv6 address.
pub open spec fn spec_ns_addr(item: Seq<char>, ip_of: spec_fn(Seq<char>) -> Option<IpAddr>) -> Option<
    (IpAddr, Option<u16>),
> {
    match spec_split_ns_addr(item) {
        None => None,
        Some((addr, port)) => {
            if ip_of(addr).is_none() || (item.len() > 0 && item[0] == '[' && !(ip_of(
                addr,
            ).unwrap() is V6)) {
                None
            } else if port.is_none() {
                Some((ip_of(addr).unwrap(), None))
            } else if spec_port(port.unwrap()).is_none() {
                None
            } else {
                Some((ip_of(addr).unwrap(), spec_port(port.unwrap())))
            }
        },
    }
}

/// The servers `done` with those that the texts denote, each without the
/// whitespace around it, behind them; nothing where one of the texts denotes
/// no server.
pub open spec fn spec_add_servers(
    done: Seq<(IpAddr, Option<u16>)>,
    items: Seq<Seq<char>>,
    ip_of: spec_fn(Seq<char>) -> Option<IpAddr>,
) -> Option<Seq<(IpAddr, Option<u16>)>>
    decreases items.len(),
{
    if items.len() == 0 {
        Some(done)
    } else {
        match spec_ns_addr(spec_trim(items[0]), ip_of) {
            None => None,
            Some(server) => spec_add_servers(done.push(server), items.skip(1), ip_of),
        }
    }
}

/// The servers that a list denotes: one for each of its pieces between
/// commas and line ends that is not empty.
pub open spec fn spec_parse_servers(s: Seq<char>, ip_of: spec_fn(Seq<char>) -> Option<IpAddr>) -> Option<
    Seq<(IpAddr, Option<u16>)>,
> {
    spec_add_servers(
        seq![],
        spec_non_empty(spec_split_by(s, |c: char| spec_is_list_sep(c))),
        ip_of,
    )
}

/// The model of a list of servers, if there is one.
pub open spec fn spec_servers_view(r: Option<Vec<(IpAddr, Option<u16>)>>) -> Option<
    Seq<(IpAddr, Option<u16>)>,
> {
    match r {
        Some(servers) => Some(servers@),
        None => None,
    }
}

/// Where the first `c` stands among the characters from `from` on, or their
/// number when there is none.
fn find_char(cs: &Vec<char>, from: usize, c: char) -> (idx: usize)
    requires
        from <= cs@.len(),
    ensures
        from <= idx <= cs@.len(),
        idx - from == spec_find_by(cs@.skip(from as int), |x: char| x == c),
        forall|k: int| from <= k < idx ==> cs@[k] != c,
        idx < cs@.len() ==> cs@[idx as int] == c,
{
    let mut idx: usize = from;
    while idx < cs.len() && cs[idx] != c
        invariant
            from <= idx <= cs@.len(),
            forall|k: int| from <= k < idx ==> cs@[k] != c,
        decreases cs@.len() - idx,
    {
        idx += 1;
    }
    proof {
        let rest = cs@.skip(from as int);
        let p = |x: char| x == c;
        assert forall|k: int| 0 <= k < idx - from implies !p(#[trigger] rest[k]) by {
            assert(rest[k] == cs@[from + k]);
        }
        if idx < cs@.len() {
            assert(rest[idx - from] == cs@[idx as int]);
        }
        lemma_find_by_is(rest, p, idx - from);
    }
    idx
}

/// Parts the text of one server into its address and, where it names one,
/// its port.
pub fn split_ns_addr(item: &str) -> (r: Option<(String, Option<String>)>)
    ensures
        match spec_split_ns_addr(item@) {
            None => r.is_none(),
            Some((addr, port)) => r.is_some() && r.unwrap().0@ == addr && r.unwrap().1.deep_view()
                == port,
        },
{
    let cs: Vec<char> = chars_of(item);
    let n: usize = cs.len();
    proof {
        assert(cs@.skip(0) =~= item@);
    }
    if n > 0 && cs[0] == '[' {
        let close: usize = find_char(&cs, 0, ']');
        if close < n && close + 1 < n && cs[close + 1] == ':' {
            proof {
                assert(item@.subrange(close + 2, n as int) =~= item@.skip(close + 2));
            }
            Some((substring(item, 1, close), Some(substring(item, close + 2, n))))
        } else {
            None
        }
    } else {
        let first: usize = find_char(&cs, 0, ':');
        if first < n && find_char(&cs, first + 1, ':') == n {
            proof {
                assert(item@.subrange(0, first as int) =~= item@.take(first as int));
                assert(item@.subrange(first + 1, n as int) =~= item@.skip(first + 1));
            }
            Some((substring(item, 0, first), Some(substring(item, first + 1, n))))
        } else {
            proof {
                assert(item@.subrange(0, n as int) =~= item@);
            }
            Some((substring(item, 0, n), None))
        }
    }
}

/// The port that a text denotes.
pub fn parse_port(text: &str) -> (r: Option<u16>)
    ensures
        r == spec_port(text@),
{
    match parse_u64(text) {
        Some(n) => {
            if n <= 0xffff {
                Some(n as u16)
            } else {
                None
            }
        },
        None => None,
    }
}

/// Reads one server, with `parse_ip` to tell which texts are IP addresses.
pub fn parse_ns_addr<F: Fn(&str) -> Option<IpAddr>>(item: &str, parse_ip: &F) -> (r: Option<
    (IpAddr, Option<u16>),
>)
    requires
        forall|t: &str| call_requires(*parse_ip, (t,)),
    ensures
        forall|ip_of: spec_fn(Seq<char>) -> Option<IpAddr>|
            spec_describes(ip_of, *parse_ip) ==> r == #[trigger] spec_ns_addr(item@, ip_of),
{
    let (addr, port): (String, Option<String>) = split_ns_addr(item)?;
    let cs: Vec<char> = chars_of(item);
    let bracketed: bool = cs.len() > 0 && cs[0] == '[';
    let ip: IpAddr = match parse_ip(addr.as_str()) {
        Some(ip) => ip,
        None => {
            return None;
        },
    };
    if bracketed {
        match ip {
            IpAddr::V6(_) => {},
            IpAddr::V4(_) => {
                return None;
            },
        }
    }
    let ghost parts = spec_split_ns_addr(item@).unwrap();
    assert(parts.0 == addr@ && parts.1 == port.deep_view());
    match port {
        None => {
            assert forall|ip_of: spec_fn(Seq<char>) -> Option<IpAddr>|
                spec_describes(ip_of, *parse_ip) implies Some((ip, None::<u16>))
                == #[trigger] spec_ns_addr(item@, ip_of) by {
                assert(ip_of(addr@) == Some(ip));
            }
            Some((ip, None))
        },
        Some(text) => {
            assert(parts.1 == Some(text@));
            match parse_port(text.as_str()) {
                Some(port) => {
                    assert forall|ip_of: spec_fn(Seq<char>) -> Option<IpAddr>|
                        spec_describes(ip_of, *parse_ip) implies Some((ip, Some(port)))
                        == #[trigger] spec_ns_addr(item@, ip_of) by {
                        assert(ip_of(addr@) == Some(ip));
                    }
                    Some((ip, Some(port)))
                },
                None => {
                    assert forall|ip_of: spec_fn(Seq<char>) -> Option<IpAddr>|
                        spec_describes(ip_of, *parse_ip) implies (#[trigger] spec_ns_addr(
                        item@,
                        ip_of,
                    )).is_none() by {
                        assert(ip_of(addr@) == Some(ip));
                    }
                    None
                },
            }
        },
    }
}

/// Reads a list of servers, with `parse_ip` to tell which texts are IP
/// addresses and which addresses they are.
///
/// Whatever function of texts describes `parse_ip`, the outcome is what
/// [`spec_parse_servers`] gives for it.
pub fn parse_servers_str<F: Fn(&str) -> Option<IpAddr>>(s: &str, parse_ip: F) -> (r: Option<
    Vec<(IpAddr, Option<u16>)>,
>)
    requires
        forall|t: &str| call_requires(parse_ip, (t,)),
    ensures
        forall|ip_of: spec_fn(Seq<char>) -> Option<IpAddr>|
            spec_describes(ip_of, parse_ip) ==> spec_servers_view(r)
                == #[trigger] spec_parse_servers(s@, ip_of),
{
    let pieces: Vec<String> = split_by(s, &is_list_sep);
    assert(pieces.deep_view() == spec_split_by(s@, |c: char| spec_is_list_sep(c)));
    let items: Vec<String> = non_empty(pieces);
    let ghost all = items.deep_view();
    let mut out: Vec<(IpAddr, Option<u16>)> = Vec::new();
    let mut i: usize = 0;
    assert(all.skip(0) =~= all);
    while i < items.len()
        invariant
            i <= items@.len(),
            all == items.deep_view(),
            all == spec_non_empty(spec_split_by(s@, |c: char| spec_is_list_sep(c))),
            forall|t: &str| call_requires(parse_ip, (t,)),
            forall|ip_of: spec_fn(Seq<char>) -> Option<IpAddr>|
                spec_describes(ip_of, parse_ip) ==> #[trigger] spec_add_servers(
                    seq![],
                    all,
                    ip_of,
                ) == spec_add_servers(out@, all.skip(i as int), ip_of),
        decreases items@.len() - i,
    {
        let ghost rest = all.skip(i as int);
        let ghost here = out@;
        let item: String = trim(items[i].as_str());
        proof {
            assert(rest[0] == items[i as int]@);
            assert(rest.skip(1) =~= all.skip(i + 1));
        }
        match parse_ns_addr(item.as_str(), &parse_ip) {
            Some(server) => {
                out.push(server);
                assert forall|ip_of: spec_fn(Seq<char>) -> Option<IpAddr>|
                    spec_describes(ip_of, parse_ip) implies #[trigger] spec_add_servers(
                    seq![],
                    all,
                    ip_of,
                ) == spec_add_servers(out@, all.skip(i + 1), ip_of) by {
                    assert(spec_ns_addr(spec_trim(rest[0]), ip_of) == Some(server));
                    assert(spec_add_servers(here, rest, ip_of) == spec_add_servers(
                        here.push(server),
                        rest.skip(1),
                        ip_of,
                    ));
                }
            },
            None => {
                assert forall|ip_of: spec_fn(Seq<char>) -> Option<IpAddr>|
                    spec_describes(ip_of, parse_ip) implies (#[trigger] spec_add_servers(
                    seq![],
                    all,
                    ip_of,
                )).is_none() by {
                    assert(spec_ns_addr(spec_trim(rest[0]), ip_of).is_none());
                    assert(spec_add_servers(here, rest, ip_of).is_none());
                }
                return None;
            },
        }
        i += 1;
    }
    Some(out)
}

/// Reads a list of servers from the bytes of a text, which must be
/// well-formed UTF-8.
pub fn parse_from_reader<F: Fn(&str) -> Option<IpAddr>>(buf: Vec<u8>, parse_ip: F) -> (r: Option<
    Vec<(IpAddr, Option<u16>)>,
>)
    requires
        forall|t: &str| call_requires(parse_ip, (t,)),
    ensures
        !valid_utf8(buf@) ==> r.is_none(),
        valid_utf8(buf@) ==> forall|ip_of: spec_fn(Seq<char>) -> Option<IpAddr>|
            spec_describes(ip_of, parse_ip) ==> spec_servers_view(r)
                == #[trigger] spec_parse_servers(decode_utf8(buf@), ip_of),
{
    let s: String = string_from_utf8(buf)?;
    parse_servers_str(s.as_str(), parse_ip)
}

} // verus!
