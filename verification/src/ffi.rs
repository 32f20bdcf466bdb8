//! The operations of the resolver's C interface, on plain values: what each
//! of them decides and computes, without the pointers of the C side.

use crate::af::{af_inet, af_inet6, AF_INET, AF_INET6};
use crate::ares::{
    lemma_min_remaining, spec_family_qtype, spec_min_remaining, spec_request, Ares, Family, Status,
    Task, MILLIS_PER_SEC, QCLASS_IN,
};
use crate::ares_data::{
    lemma_chain_addr_port, AddrPortNodeView, AresAddrPortNode, AresAddrUnion, AresData,
};
use crate::clinkedlist::chain_nodes;
use crate::error::{ARES_EBADFAMILY, ARES_EBADSTR, ARES_ENODATA, ARES_SUCCESS};
use crate::servers_csv::{parse_servers_str, spec_parse_servers};
use crate::sysconfig::{spec_describes, spec_is_default_config, IpAddr, SysConfig};
use std::collections::HashSet;
use vstd::arithmetic::div_mod::lemma_mod_multiples_vanish;
use vstd::prelude::*;
use vstd::std_specs::hash::*;

verus! {

broadcast use vstd::std_specs::hash::group_hash_axioms;

/// The most sockets that `ares_getsock` reports.
pub const ARES_GETSOCK_MAXNUM: usize = 16;

/// The descriptor that stands for "no socket".
pub const ARES_SOCKET_BAD: i32 = -1;

/// Initialises the library. There is nothing to initialise.
pub fn ares_library_init(_flags: i32) -> (status: i32)
    ensures
        status == ARES_SUCCESS,
{
    ARES_SUCCESS
}

/// Cleans up after the library. There is nothing to clean up.
pub fn ares_library_cleanup() {
}

/// Makes a channel with the configuration read from the system, or the
/// default one where there is none.
pub fn ares_init<T>(parsed: Option<SysConfig>) -> (r: (i32, Ares<T>))
    ensures
        r.0 == ARES_SUCCESS,
        r.1.wf(),
        parsed.is_some() ==> r.1.config == parsed.unwrap(),
        parsed.is_none() ==> spec_is_default_config(r.1.config),
        r.1.tasks@.len() == 0,
        r.1.default_udp_port == 53,
        r.1.default_tcp_port == 53,
{
    (ARES_SUCCESS, Ares::from_sysconfig(parsed))
}

/// Destroys a channel. Its tasks go with it, and none of them is reported:
/// nothing is handed out.
pub fn ares_destroy<T>(channel: Ares<T>) {
    let _ = channel;
}

/// The family that a number of the C library stands for.
pub open spec fn spec_family_of(family: i32) -> Option<Family> {
    if family == AF_INET {
        Some(Family::Ipv4)
    } else if family == AF_INET6 {
        Some(Family::Ipv6)
    } else {
        None
    }
}

/// The family that a number of the C library stands for, if it is one of the
/// two that a host can be looked up in.
pub fn family_of(family: i32) -> (r: Option<Family>)
    ensures
        r == spec_family_of(family),
{
    if family == af_inet() {
        Some(Family::Ipv4)
    } else if family == af_inet6() {
        Some(Family::Ipv6)
    } else {
        None
    }
}

/// Submits the lookup of a host in the family with the given number. Any
/// number but those of the IPv4 and IPv6 families is refused with
/// `ARES_EBADFAMILY`, and nothing is submitted.
pub fn ares_gethostbyname<T>(
    channel: &mut Ares<T>,
    hostname: &str,
    family: i32,
    userdata: T,
    sock: i32,
    now: u64,
) -> (status: i32)
    requires
        now + old(channel).config.options.timeout_secs * MILLIS_PER_SEC <= u64::MAX,
    ensures
        old(channel).wf() ==> final(channel).wf(),
        final(channel).config == old(channel).config,
        final(channel).default_udp_port == old(channel).default_udp_port,
        final(channel).default_tcp_port == old(channel).default_tcp_port,
        spec_family_of(family).is_none() ==> status == ARES_EBADFAMILY && final(channel).tasks@
            == old(channel).tasks@,
        spec_family_of(family).is_some() ==> {
            &&& status == ARES_SUCCESS
            &&& final(channel).tasks@.len() == old(channel).tasks@.len() + 1
            &&& final(channel).tasks@.drop_last() == old(channel).tasks@
            &&& exists|id: u16|
                old(channel).spec_new_task(
                    #[trigger] spec_request(
                        hostname@,
                        QCLASS_IN,
                        spec_family_qtype(spec_family_of(family).unwrap()),
                        id,
                    ),
                    spec_family_of(family),
                    spec_family_qtype(spec_family_of(family).unwrap()),
                    userdata,
                    sock,
                    now,
                    final(channel).tasks@.last(),
                )
        },
{
    match family_of(family) {
        None => ARES_EBADFAMILY,
        Some(family) => {
            let _ = channel.gethostbyname(hostname, family, userdata, sock, now);
            ARES_SUCCESS
        },
    }
}

/// Submits a query for a name in a class and of a record type, both cut to
/// sixteen bits.
pub fn ares_query<T>(
    channel: &mut Ares<T>,
    name: &str,
    dnsclass: i32,
    dnstype: i32,
    userdata: T,
    sock: i32,
    now: u64,
)
    requires
        now + old(channel).config.options.timeout_secs * MILLIS_PER_SEC <= u64::MAX,
    ensures
        old(channel).wf() ==> final(channel).wf(),
        final(channel).config == old(channel).config,
        final(channel).default_udp_port == old(channel).default_udp_port,
        final(channel).default_tcp_port == old(channel).default_tcp_port,
        final(channel).tasks@.len() == old(channel).tasks@.len() + 1,
        final(channel).tasks@.drop_last() == old(channel).tasks@,
        exists|id: u16|
            old(channel).spec_new_task(
                #[trigger] spec_request(
                    name@,
                    spec_low16(dnsclass),
                    spec_low16(dnstype),
                    id,
                ),
                None,
                spec_low16(dnstype),
                userdata,
                sock,
                now,
                final(channel).tasks@.last(),
            ),
{
    channel.query(name, low16(dnsclass), low16(dnstype), userdata, sock, now);
}

/// The low sixteen bits of a number.
pub open spec fn spec_low16(n: i32) -> u16 {
    (n as int % 65536) as u16
}

/// The low sixteen bits of a number.
pub fn low16(n: i32) -> (r: u16)
    ensures
        r == spec_low16(n),
{
    let m: i64 = n as i64 + 0x8000_0000i64;
    assert(m as int % 65536 == n as int % 65536) by {
        lemma_mod_multiples_vanish(32768, n as int, 65536);
    }
    (m % 65536) as u16
}

/// The descriptors of the tasks that are in the status `status`.
pub open spec fn spec_fds_in<T>(tasks: Seq<Task<T>>, status: Status) -> Set<i32> {
    Set::new(
        |fd: i32| exists|i: int| 0 <= i < tasks.len() && (#[trigger] tasks[i]).status == status
            && tasks[i].sock == fd,
    )
}

/// One more than the greatest descriptor among the tasks that are not
/// finished; 0 where there is none.
pub open spec fn spec_nfds<T>(tasks: Seq<Task<T>>) -> int
    decreases tasks.len(),
{
    if tasks.len() == 0 {
        0
    } else {
        let rest = spec_nfds(tasks.drop_last());
        if tasks.last().status != Status::Completed && tasks.last().sock + 1 > rest {
            tasks.last().sock + 1
        } else {
            rest
        }
    }
}

/// Exports what the channel waits for: `read_fds` becomes the descriptors of
/// the tasks in `Reading`, `write_fds` those of the tasks in `Writing`, and
/// the result is one more than the greatest of them all.
pub fn ares_fds<T>(channel: &Ares<T>, read_fds: &mut HashSet<i32>, write_fds: &mut HashSet<i32>) -> (nfds:
    i32)
    requires
        forall|i: int|
            0 <= i < channel.tasks@.len() ==> (#[trigger] channel.tasks@[i]).sock < i32::MAX,
    ensures
        final(read_fds)@ == spec_fds_in(channel.tasks@, Status::Reading),
        final(write_fds)@ == spec_fds_in(channel.tasks@, Status::Writing),
        nfds == spec_nfds(channel.tasks@),
{
    write_fds.clear();
    read_fds.clear();
    let mut nfds: i32 = 0;
    let mut i: usize = 0;
    assert(read_fds@ =~= spec_fds_in(channel.tasks@.take(0), Status::Reading));
    assert(write_fds@ =~= spec_fds_in(channel.tasks@.take(0), Status::Writing));
    while i < channel.tasks.len()
        invariant
            i <= channel.tasks@.len(),
            forall|i: int|
                0 <= i < channel.tasks@.len() ==> (#[trigger] channel.tasks@[i]).sock < i32::MAX,
            read_fds@ == spec_fds_in(channel.tasks@.take(i as int), Status::Reading),
            write_fds@ == spec_fds_in(channel.tasks@.take(i as int), Status::Writing),
            nfds == spec_nfds(channel.tasks@.take(i as int)),
            nfds >= 0,
        decreases channel.tasks@.len() - i,
    {
        let task: &Task<T> = &channel.tasks[i];
        let fd: i32 = task.sock;
        let ghost before = channel.tasks@.take(i as int);
        let ghost after = channel.tasks@.take(i + 1);
        proof {
            assert(after.drop_last() =~= before);
            assert(after.last() == *task);
            assert forall|k: int| 0 <= k < before.len() implies before[k] == after[k] by {}
        }
        match task.status {
            Status::Writing => {
                write_fds.insert(fd);
                proof {
                    assert(after[i as int].status == Status::Writing && after[i as int].sock == fd);
                    assert(write_fds@ =~= spec_fds_in(after, Status::Writing)) by {
                        assert forall|x: i32| spec_fds_in(after, Status::Writing).contains(
                            x,
                        ) implies spec_fds_in(before, Status::Writing).insert(fd).contains(x) by {
                            let k = choose|k: int|
                                0 <= k < after.len() && (#[trigger] after[k]).status
                                    == Status::Writing && after[k].sock == x;
                            if k < before.len() {
                                assert(before[k] == after[k]);
                            }
                        }
                        assert forall|x: i32| spec_fds_in(before, Status::Writing).insert(
                            fd,
                        ).contains(x) implies spec_fds_in(after, Status::Writing).contains(x) by {
                            if x != fd {
                                let k = choose|k: int|
                                    0 <= k < before.len() && (#[trigger] before[k]).status
                                        == Status::Writing && before[k].sock == x;
                                assert(after[k] == before[k]);
                            }
                        }
                    }
                    lemma_fds_in_other(before, after, Status::Reading);
                }
            },
            Status::Reading => {
                read_fds.insert(fd);
                proof {
                    assert(after[i as int].status == Status::Reading && after[i as int].sock == fd);
                    assert(read_fds@ =~= spec_fds_in(after, Status::Reading)) by {
                        assert forall|x: i32| spec_fds_in(after, Status::Reading).contains(
                            x,
                        ) implies spec_fds_in(before, Status::Reading).insert(fd).contains(x) by {
                            let k = choose|k: int|
                                0 <= k < after.len() && (#[trigger] after[k]).status
                                    == Status::Reading && after[k].sock == x;
                            if k < before.len() {
                                assert(before[k] == after[k]);
                            }
                        }
                        assert forall|x: i32| spec_fds_in(before, Status::Reading).insert(
                            fd,
                        ).contains(x) implies spec_fds_in(after, Status::Reading).contains(x) by {
                            if x != fd {
                                let k = choose|k: int|
                                    0 <= k < before.len() && (#[trigger] before[k]).status
                                        == Status::Reading && before[k].sock == x;
                                assert(after[k] == before[k]);
                            }
                        }
                    }
                    lemma_fds_in_other(before, after, Status::Writing);
                }
            },
            Status::Completed => {
                proof {
                    lemma_fds_in_other(before, after, Status::Reading);
                    lemma_fds_in_other(before, after, Status::Writing);
                }
                i += 1;
                continue ;
            },
        }
        if nfds < fd + 1 {
            nfds = fd + 1;
        }
        i += 1;
    }
    assert(channel.tasks@.take(i as int) =~= channel.tasks@);
    nfds
}

/// A task in another status adds nothing to the descriptors of a status.
pub proof fn lemma_fds_in_other<T>(before: Seq<Task<T>>, after: Seq<Task<T>>, status: Status)
    requires
        after.len() == before.len() + 1,
        after.drop_last() == before,
        after.last().status != status,
    ensures
        spec_fds_in(after, status) == spec_fds_in(before, status),
{
    assert forall|x: i32| spec_fds_in(after, status).contains(x) implies spec_fds_in(
        before,
        status,
    ).contains(x) by {
        let k = choose|k: int|
            0 <= k < after.len() && (#[trigger] after[k]).status == status && after[k].sock == x;
        if k == after.len() - 1 {
            assert(after[k] == after.last());
        } else {
            assert(after.drop_last()[k] == after[k]);
        }
    }
    assert forall|x: i32| spec_fds_in(before, status).contains(x) implies spec_fds_in(
        after,
        status,
    ).contains(x) by {
        let k = choose|k: int|
            0 <= k < before.len() && (#[trigger] before[k]).status == status && before[k].sock
                == x;
        assert(after.drop_last()[k] == after[k]);
    }
    assert(spec_fds_in(after, status) =~= spec_fds_in(before, status));
}

/// How long the caller may wait before the next timeout is due, in
/// milliseconds: the least time that any task still has, or the caller's own
/// maximum where that is less. Without tasks it is the caller's maximum.
pub open spec fn spec_timeout<T>(tasks: Seq<Task<T>>, now: u64, maxtv: Option<u64>) -> Option<u64> {
    if tasks.len() == 0 {
        maxtv
    } else if maxtv.is_some() && maxtv.unwrap() < spec_min_remaining(tasks, now) {
        maxtv
    } else {
        Some(spec_min_remaining(tasks, now))
    }
}

/// How long the caller may wait before the next timeout is due, in
/// milliseconds. The result never exceeds the time that any task still has,
/// nor the caller's maximum.
pub fn ares_timeout<T>(channel: &Ares<T>, now: u64, maxtv: Option<u64>) -> (tv: Option<u64>)
    ensures
        tv == spec_timeout(channel.tasks@, now, maxtv),
        channel.tasks@.len() > 0 ==> tv.is_some() && forall|i: int|
            0 <= i < channel.tasks@.len() ==> tv.unwrap() <= (
            #[trigger] channel.tasks@[i]).spec_time_remaining(now),
        maxtv.is_some() ==> tv.is_some() && tv.unwrap() <= maxtv.unwrap(),
{
    if channel.tasks.len() == 0 {
        return maxtv;
    }
    let max_wait_time: u64 = channel.max_wait_time(now);
    proof {
        lemma_min_remaining(channel.tasks@, now);
    }
    match maxtv {
        Some(max) => {
            if max < max_wait_time {
                Some(max)
            } else {
                Some(max_wait_time)
            }
        },
        None => Some(max_wait_time),
    }
}

/// A span of time in the shape of the C library's `timeval`.
#[derive(Debug, Clone, Copy, PartialEq, Eq)]
pub struct Timeval {
    pub tv_sec: i64,
    pub tv_usec: i64,
}

/// The `timeval` for a number of milliseconds: the whole seconds, and the
/// rest in microseconds.
pub fn timeval_of_millis(millis: u64) -> (tv: Timeval)
    ensures
        tv.tv_sec == millis / 1000,
        tv.tv_usec == 1000 * (millis % 1000),
        0 <= tv.tv_usec < 1_000_000,
{
    Timeval { tv_sec: (millis / 1000) as i64, tv_usec: 1000 * ((millis % 1000) as i64) }
}

/// The mask with one bit for each of the first `n` slots.
pub open spec fn spec_getsock_mask(n: nat) -> int
    decreases n,
{
    if n == 0 {
        0
    } else {
        2 * spec_getsock_mask((n - 1) as nat) + 1
    }
}

/// The number of slots that `ares_getsock` fills when asked for `numsocks`.
pub open spec fn spec_getsock_len(numsocks: usize) -> int {
    if numsocks < ARES_GETSOCK_MAXNUM {
        numsocks as int
    } else {
        ARES_GETSOCK_MAXNUM as int
    }
}

/// Lists the sockets of the first tasks, in as many slots as asked for and
/// at most [`ARES_GETSOCK_MAXNUM`]. A slot without a task holds
/// [`ARES_SOCKET_BAD`]. The mask has the bit of every slot that holds a
/// socket: each is waited on for reading.
pub fn ares_getsock<T>(channel: &Ares<T>, numsocks: usize) -> (r: (Vec<i32>, i32))
    ensures
        r.0@.len() == spec_getsock_len(numsocks),
        forall|i: int|
            0 <= i < r.0@.len() ==> #[trigger] r.0@[i] == if i < channel.tasks@.len() {
                channel.tasks@[i].sock
            } else {
                ARES_SOCKET_BAD
            },
        r.1 == spec_getsock_mask(
            if channel.tasks@.len() < r.0@.len() {
                channel.tasks@.len()
            } else {
                r.0@.len()
            },
        ),
{
    let n: usize = if numsocks < ARES_GETSOCK_MAXNUM {
        numsocks
    } else {
        ARES_GETSOCK_MAXNUM
    };
    let mut socks: Vec<i32> = Vec::new();
    let mut mask: u32 = 0;
    let mut i: usize = 0;
    assert((1u32 << 0u32) - 1 == 0) by (bit_vector);
    while i < n
        invariant
            i <= n <= 16,
            socks@.len() == i,
            forall|k: int|
                0 <= k < i ==> #[trigger] socks@[k] == if k < channel.tasks@.len() {
                    channel.tasks@[k].sock
                } else {
                    ARES_SOCKET_BAD
                },
            mask == spec_getsock_mask(
                if channel.tasks@.len() < i {
                    channel.tasks@.len()
                } else {
                    i as nat
                },
            ),
            i <= channel.tasks@.len() ==> mask == (1u32 << (i as u32)) - 1,
        decreases n - i,
    {
        if i < channel.tasks.len() {
            socks.push(channel.tasks[i].sock);
            let bit: u32 = 1u32 << (i as u32);
            let shift: u32 = i as u32;
            assert(mask | bit == 2 * mask + 1 && (mask | bit) == (1u32 << ((shift + 1) as u32)) - 1
                && (mask | bit) < 0x10000) by (bit_vector)
                requires
                    shift < 16,
                    bit == 1u32 << shift,
                    mask == (1u32 << shift) - 1,
            ;
            mask = mask | bit;
        } else {
            socks.push(ARES_SOCKET_BAD);
        }
        i += 1;
    }
    proof {
        lemma_getsock_mask_bound(
            if channel.tasks@.len() < n {
                channel.tasks@.len()
            } else {
                n as nat
            },
        );
    }
    (socks, mask as i32)
}

/// The mask for at most sixteen slots fits in sixteen bits.
pub proof fn lemma_getsock_mask_bound(n: nat)
    requires
        n <= 16,
    ensures
        0 <= spec_getsock_mask(n) < 0x10000,
    decreases n,
{
    reveal_with_fuel(spec_getsock_mask, 17);
}

/// The version of the library: the number that packs major, minor and patch
/// level into one, and the text.
pub fn ares_version() -> (r: (i32, &'static str))
    ensures
        r.0 == 0x011101,
        r.1@ == "1.17.1-rs"@,
{
    let (major, minor, patch): (i32, i32, i32) = (1, 17, 1);
    let v: i32 = (major << 16) | (minor << 8) | patch;
    assert(v == 0x011101) by (bit_vector)
        requires
            v == (1i32 << 16) | (17i32 << 8) | 1i32,
    ;
    (v, "1.17.1-rs")
}

/// One address of the list that `ares_set_servers` walks: the number of its
/// family, and its bytes in network order, of which an IPv4 address uses the
/// first four.
#[allow(non_camel_case_types)]
#[derive(Debug)]
pub struct ares_addr_node {
    pub next: Option<Box<ares_addr_node>>,
    pub family: i32,
    pub data: [u8; 16],
}

/// The nameservers that a list of addresses stands for: one for each node of
/// the IPv4 family, in order and without a port; the others are passed over.
pub open spec fn spec_servers_of(head: Option<Box<ares_addr_node>>) -> Seq<(IpAddr, Option<u16>)>
    decreases head,
{
    match head {
        None => seq![],
        Some(node) => {
            let rest = spec_servers_of(node.next);
            if node.family == AF_INET {
                seq![(IpAddr::V4(spec_first_four(node.data@)), None::<u16>)] + rest
            } else {
                rest
            }
        },
    }
}

/// The first four of some bytes.
pub open spec fn spec_first_four(data: Seq<u8>) -> [u8; 4] {
    [data[0], data[1], data[2], data[3]]
}

/// Replaces the nameservers of the channel by those of a list of addresses.
pub fn ares_set_servers<T>(channel: &mut Ares<T>, head: &Option<Box<ares_addr_node>>)
    ensures
        final(channel).config.nameservers@ == spec_servers_of(*head),
        final(channel).config.domain == old(channel).config.domain,
        final(channel).config.search == old(channel).config.search,
        final(channel).config.options == old(channel).config.options,
        final(channel).tasks == old(channel).tasks,
        final(channel).default_udp_port == old(channel).default_udp_port,
        final(channel).default_tcp_port == old(channel).default_tcp_port,
{
    channel.config.nameservers.clear();
    let inet: i32 = af_inet();
    let mut cur: &Option<Box<ares_addr_node>> = head;
    assert(channel.config.nameservers@ + spec_servers_of(*cur) =~= spec_servers_of(*head));
    loop
        invariant
            inet == AF_INET,
            channel.config.nameservers@ + spec_servers_of(*cur) == spec_servers_of(*head),
            channel.config.domain == old(channel).config.domain,
            channel.config.search == old(channel).config.search,
            channel.config.options == old(channel).config.options,
            channel.tasks == old(channel).tasks,
            channel.default_udp_port == old(channel).default_udp_port,
            channel.default_tcp_port == old(channel).default_tcp_port,
        ensures
            cur.is_none(),
        decreases *cur,
    {
        match cur {
            None => {
                break ;
            },
            Some(node) => {
                let ghost before = channel.config.nameservers@;
                if node.family == inet {
                    let oct4: [u8; 4] = [node.data[0], node.data[1], node.data[2], node.data[3]];
                    assert(oct4 == spec_first_four(node.data@)) by {
                        assert(oct4@ =~= spec_first_four(node.data@)@);
                    }
                    channel.config.nameservers.push((IpAddr::V4(oct4), None));
                    assert(channel.config.nameservers@ + spec_servers_of(node.next) =~= before
                        + spec_servers_of(*cur));
                }
                cur = &node.next;
            },
        }
    }
    assert(channel.config.nameservers@ + spec_servers_of(*cur) =~= channel.config.nameservers@);
}

/// Replaces the nameservers of the channel by those that a list written as
/// text denotes, with `parse_ip` to tell which texts are IP addresses. A text
/// that denotes no list is refused with `ARES_EBADSTR` and changes nothing.
pub fn ares_set_servers_ports_csv<T, F: Fn(&str) -> Option<IpAddr>>(
    channel: &mut Ares<T>,
    servers: &str,
    parse_ip: F,
) -> (status: i32)
    requires
        forall|t: &str| call_requires(parse_ip, (t,)),
    ensures
        forall|ip_of: spec_fn(Seq<char>) -> Option<IpAddr>|
            spec_describes(ip_of, parse_ip) ==> match #[trigger] spec_parse_servers(
                servers@,
                ip_of,
            ) {
                Some(list) => status == ARES_SUCCESS && final(channel).config.nameservers@ == list,
                None => status == ARES_EBADSTR && final(channel).config.nameservers == old(
                    channel,
                ).config.nameservers,
            },
        final(channel).config.domain == old(channel).config.domain,
        final(channel).config.search == old(channel).config.search,
        final(channel).config.options == old(channel).config.options,
        final(channel).tasks == old(channel).tasks,
        final(channel).default_udp_port == old(channel).default_udp_port,
        final(channel).default_tcp_port == old(channel).default_tcp_port,
{
    match parse_servers_str(servers, parse_ip) {
        Some(list) => {
            channel.config.nameservers = list;
            ARES_SUCCESS
        },
        None => ARES_EBADSTR,
    }
}

/// The sixteen bytes that hold an IPv4 address: the address, then zeros.
pub open spec fn spec_in_addr(octets: [u8; 4]) -> Seq<u8> {
    Seq::new(
        16,
        |i: int| if i < 4 {
            octets@[i]
        } else {
            0u8
        },
    )
}

/// The bytes that hold an address, whatever its family.
pub open spec fn spec_addr_bytes(ip: IpAddr) -> Seq<u8> {
    match ip {
        IpAddr::V4(octets) => spec_in_addr(octets),
        IpAddr::V6(octets) => octets@,
    }
}

/// The number of the family of an address.
pub open spec fn spec_addr_family(ip: IpAddr) -> i32 {
    match ip {
        IpAddr::V4(_) => AF_INET,
        IpAddr::V6(_) => AF_INET6,
    }
}

/// The bytes that hold an IPv4 address; nothing for an address of the other
/// family.
pub fn ipv4_to_in_addr(ip: IpAddr) -> (r: Option<AresAddrUnion>)
    ensures
        match ip {
            IpAddr::V4(octets) => r.is_some() && r.unwrap().bytes@ == spec_in_addr(octets),
            IpAddr::V6(_) => r.is_none(),
        },
{
    match ip {
        IpAddr::V4(v4) => {
            let bytes: [u8; 16] = [v4[0], v4[1], v4[2], v4[3], 0, 0, 0, 0, 0, 0, 0, 0, 0, 0, 0, 0];
            assert(bytes@ =~= spec_in_addr(v4));
            Some(AresAddrUnion { bytes })
        },
        IpAddr::V6(_) => None,
    }
}

/// The node that reports one nameserver: its family, its address, and for
/// each transport its own port or else the default.
pub open spec fn spec_server_node(
    server: (IpAddr, Option<u16>),
    default_udp_port: u16,
    default_tcp_port: u16,
) -> AddrPortNodeView {
    AddrPortNodeView {
        family: spec_addr_family(server.0),
        addr: spec_addr_bytes(server.0),
        udp_port: match server.1 {
            Some(port) => port as i32,
            None => default_udp_port as i32,
        },
        tcp_port: match server.1 {
            Some(port) => port as i32,
            None => default_tcp_port as i32,
        },
    }
}

/// Reports the nameservers of the channel as a list in an envelope, one node
/// for each in order. A channel without nameservers gives `ARES_ENODATA`.
pub fn ares_get_servers_ports<T>(channel: &Ares<T>) -> (r: Result<AresData<AresAddrPortNode>, i32>)
    ensures
        channel.config.nameservers@.len() == 0 ==> r.is_err() && r.unwrap_err() == ARES_ENODATA,
        channel.config.nameservers@.len() > 0 ==> {
            &&& r.is_ok()
            &&& r.unwrap().wf()
            &&& r.unwrap().data.spec_list() == Seq::new(
                channel.config.nameservers@.len(),
                |i: int|
                    spec_server_node(
                        channel.config.nameservers@[i],
                        channel.default_udp_port,
                        channel.default_tcp_port,
                    ),
            )
        },
{
    if channel.config.nameservers.len() == 0 {
        return Err(ARES_ENODATA);
    }
    let mut data: Vec<AresAddrPortNode> = Vec::new();
    let mut i: usize = 0;
    while i < channel.config.nameservers.len()
        invariant
            i <= channel.config.nameservers@.len(),
            data@.len() == i,
            forall|k: int|
                0 <= k < i ==> {
                    &&& (#[trigger] data@[k]).next.is_none()
                    &&& data@[k].spec_node() == spec_server_node(
                        channel.config.nameservers@[k],
                        channel.default_udp_port,
                        channel.default_tcp_port,
                    )
                },
        decreases channel.config.nameservers@.len() - i,
    {
        let srv: &(IpAddr, Option<u16>) = &channel.config.nameservers[i];
        let (family, addr): (i32, AresAddrUnion) = match srv.0 {
            IpAddr::V4(_) => (af_inet(), ipv4_to_in_addr(srv.0).unwrap()),
            IpAddr::V6(octets) => (af_inet6(), AresAddrUnion { bytes: octets }),
        };
        let udp_port: i32 = match srv.1 {
            Some(port) => port as i32,
            None => channel.default_udp_port as i32,
        };
        let tcp_port: i32 = match srv.1 {
            Some(port) => port as i32,
            None => channel.default_tcp_port as i32,
        };
        data.push(AresAddrPortNode { next: None, family, addr, udp_port, tcp_port });
        i += 1;
    }
    proof {
        lemma_chain_addr_port(data@);
        assert(Seq::new(data@.len(), |i: int| data@[i].spec_node()) =~= Seq::new(
            channel.config.nameservers@.len(),
            |i: int|
                spec_server_node(
                    channel.config.nameservers@[i],
                    channel.default_udp_port,
                    channel.default_tcp_port,
                ),
        ));
    }
    let head: AresAddrPortNode = chain_nodes(data);
    Ok(AresData::new(head))
}

} // verus!
