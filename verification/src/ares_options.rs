//! The options that a channel can be initialised with.

use crate::ares::Ares;
use crate::error::ARES_SUCCESS;
use crate::sysconfig::IpAddr;
use vstd::prelude::*;

verus! {

/// One pattern of a sort list. What it holds is not used by this resolver.
#[allow(non_camel_case_types)]
#[derive(Debug, Clone, Copy, PartialEq, Eq)]
pub struct apattern {
    _private: [u8; 0],
}

/// How failed servers are tried again.
#[allow(non_camel_case_types)]
#[derive(Debug, Clone, Copy, PartialEq, Eq)]
pub struct ares_server_failover_options {
    /// The chance of a retry, as one in so many; 0 turns retries off.
    pub retry_chance: u16,
    /// The least delay before a retry, in milliseconds.
    pub retry_delay: usize,
}

/// The options record. Where the C record holds a pointer and a count, this
/// one holds the elements; where it holds a pointer to a text, the text, if
/// there is one.
#[allow(non_camel_case_types)]
#[derive(Debug, Clone, PartialEq, Eq)]
pub struct ares_options {
    pub flags: i32,
    pub timeout: i32,
    pub tries: i32,
    pub ndots: i32,
    pub udp_port: u16,
    pub tcp_port: u16,
    pub socket_send_buffer_size: i32,
    pub socket_receive_buffer_size: i32,
    /// IPv4 addresses, each as its four bytes in network order.
    pub servers: Vec<[u8; 4]>,
    pub domains: Vec<String>,
    pub lookups: Option<String>,
    pub sortlist: Vec<apattern>,
    pub ednspsz: i32,
    pub resolvconf_path: Option<String>,
    pub hosts_path: Option<String>,
    pub udp_max_queries: i32,
    pub maxtimeout: i32,
    pub qcache_max_ttl: u32,
    pub evsys: i32,
    pub server_failover_opts: ares_server_failover_options,
}

impl Default for ares_options {
    /// Every number zero, every list empty, every text absent.
    fn default() -> (r: ares_options)
        ensures
            r.flags == 0,
            r.timeout == 0,
            r.tries == 0,
            r.ndots == 0,
            r.udp_port == 0,
            r.tcp_port == 0,
            r.socket_send_buffer_size == 0,
            r.socket_receive_buffer_size == 0,
            r.servers@.len() == 0,
            r.domains@.len() == 0,
            r.lookups.is_none(),
            r.sortlist@.len() == 0,
            r.ednspsz == 0,
            r.resolvconf_path.is_none(),
            r.hosts_path.is_none(),
            r.udp_max_queries == 0,
            r.maxtimeout == 0,
            r.qcache_max_ttl == 0,
            r.evsys == 0,
            r.server_failover_opts == (ares_server_failover_options {
                retry_chance: 0,
                retry_delay: 0,
            }),
    {
        ares_options {
            flags: 0,
            timeout: 0,
            tries: 0,
            ndots: 0,
            udp_port: 0,
            tcp_port: 0,
            socket_send_buffer_size: 0,
            socket_receive_buffer_size: 0,
            servers: Vec::new(),
            domains: Vec::new(),
            lookups: None,
            sortlist: Vec::new(),
            ednspsz: 0,
            resolvconf_path: None,
            hosts_path: None,
            udp_max_queries: 0,
            maxtimeout: 0,
            qcache_max_ttl: 0,
            evsys: 0,
            server_failover_opts: ares_server_failover_options { retry_chance: 0, retry_delay: 0 },
        }
    }
}

pub const ARES_OPT_FLAGS: i32 = 1 << 0;

pub const ARES_OPT_TIMEOUT: i32 = 1 << 1;

pub const ARES_OPT_TRIES: i32 = 1 << 2;

pub const ARES_OPT_NDOTS: i32 = 1 << 3;

pub const ARES_OPT_UDP_PORT: i32 = 1 << 4;

pub const ARES_OPT_TCP_PORT: i32 = 1 << 5;

pub const ARES_OPT_SERVERS: i32 = 1 << 6;

pub const ARES_OPT_DOMAINS: i32 = 1 << 7;

pub const ARES_OPT_LOOKUPS: i32 = 1 << 8;

pub const ARES_OPT_SOCK_STATE_CB: i32 = 1 << 9;

pub const ARES_OPT_SORTLIST: i32 = 1 << 10;

pub const ARES_OPT_SOCK_SNDBUF: i32 = 1 << 11;

pub const ARES_OPT_SOCK_RCVBUF: i32 = 1 << 12;

pub const ARES_OPT_TIMEOUTMS: i32 = 1 << 13;

pub const ARES_OPT_ROTATE: i32 = 1 << 14;

pub const ARES_OPT_EDNSPSZ: i32 = 1 << 15;

pub const ARES_OPT_NOROTATE: i32 = 1 << 16;

pub const ARES_OPT_RESOLVCONF: i32 = 1 << 17;

pub const ARES_OPT_HOSTS_FILE: i32 = 1 << 18;

pub const ARES_OPT_UDP_MAX_QUERIES: i32 = 1 << 19;

pub const ARES_OPT_MAXTIMEOUTMS: i32 = 1 << 20;

pub const ARES_OPT_QUERY_CACHE: i32 = 1 << 21;

pub const ARES_OPT_EVENT_THREAD: i32 = 1 << 22;

pub const ARES_OPT_SERVER_FAILOVER: i32 = 1 << 23;

/// Whether a mask selects the option with the given bit.
pub open spec fn spec_selects(optmask: i32, option: i32) -> bool {
    optmask & option != 0
}

/// The nameservers that the options give, where the mask selects them: one
/// for each address, in order and without a port. None otherwise.
pub open spec fn spec_option_servers(options: ares_options, optmask: i32) -> Seq<
    (IpAddr, Option<u16>),
> {
    if spec_selects(optmask, ARES_OPT_SERVERS) {
        Seq::new(options.servers@.len(), |i: int| (IpAddr::V4(options.servers@[i]), None::<u16>))
    } else {
        seq![]
    }
}

/// Applies to the channel the options that the mask selects. The nameservers
/// are replaced by those of the options, or dropped where the mask selects
/// none. The default ports are replaced where the mask selects them.
pub fn ares_init_options<T>(channel: &mut Ares<T>, options: &ares_options, optmask: i32) -> (status:
    i32)
    ensures
        status == ARES_SUCCESS,
        final(channel).config.nameservers@ == spec_option_servers(*options, optmask),
        final(channel).default_udp_port == if spec_selects(optmask, ARES_OPT_UDP_PORT) {
            options.udp_port
        } else {
            old(channel).default_udp_port
        },
        final(channel).default_tcp_port == if spec_selects(optmask, ARES_OPT_TCP_PORT) {
            options.tcp_port
        } else {
            old(channel).default_tcp_port
        },
        final(channel).config.domain == old(channel).config.domain,
        final(channel).config.search == old(channel).config.search,
        final(channel).config.options == old(channel).config.options,
        final(channel).tasks == old(channel).tasks,
{
    channel.config.nameservers.clear();
    if optmask & ARES_OPT_SERVERS != 0 {
        let mut i: usize = 0;
        while i < options.servers.len()
            invariant
                i <= options.servers@.len(),
                channel.config.nameservers@ == Seq::new(
                    i as nat,
                    |k: int| (IpAddr::V4(options.servers@[k]), None::<u16>),
                ),
                channel.config.domain == old(channel).config.domain,
                channel.config.search == old(channel).config.search,
                channel.config.options == old(channel).config.options,
                channel.tasks == old(channel).tasks,
                channel.default_udp_port == old(channel).default_udp_port,
                channel.default_tcp_port == old(channel).default_tcp_port,
            decreases options.servers@.len() - i,
        {
            channel.config.nameservers.push((IpAddr::V4(options.servers[i]), None));
            i += 1;
            assert(channel.config.nameservers@ =~= Seq::new(
                i as nat,
                |k: int| (IpAddr::V4(options.servers@[k]), None::<u16>),
            ));
        }
    }
    assert(channel.config.nameservers@ =~= spec_option_servers(*options, optmask));
    if optmask & ARES_OPT_UDP_PORT != 0 {
        channel.default_udp_port = options.udp_port;
    }
    if optmask & ARES_OPT_TCP_PORT != 0 {
        channel.default_tcp_port = options.tcp_port;
    }
    ARES_SUCCESS
}

} // verus!
