//! The query engine: a channel with its configuration and the tasks in
//! flight, and the steps that take a task from written to read to done.
//!
//! The engine does no input or output of its own. Sockets are known to it by
//! their descriptors, time by a count of milliseconds that the caller reads
//! off a clock of its choice, and what the network did is handed to it as
//! values.

use crate::packets::{spec_frame_bytes, DnsFrame, DnsFrameView, DnsQuery, DnsQueryView};
use crate::sysconfig::{spec_is_default_config, IpAddr, SysConfig};
use crate::text::spec_split;
use rand::Rng;
use vstd::prelude::*;

verus! {

/// The address family that a host is looked up in.
#[derive(PartialEq, Eq, Structural, Debug, Clone, Copy)]
pub enum Family {
    Ipv4,
    Ipv6,
}

/// How far a task has come.
#[derive(PartialEq, Eq, Structural, Debug, Clone, Copy)]
pub enum Status {
    /// The request has not been sent yet.
    Writing,
    /// The request has been sent and the reply is awaited.
    Reading,
    /// The outcome has been handed out.
    Completed,
}

/// One query in flight.
pub struct Task<T> {
    pub status: Status,
    /// The descriptor of the task's UDP socket.
    pub sock: i32,
    /// The request, as it goes on the wire.
    pub writebuf: Vec<u8>,
    pub userdata: T,
    /// The instant, in milliseconds, from which on the task has timed out.
    pub expires_at: u64,
    /// The family asked for, where the task looks up a host; `None` for a
    /// query whose reply is handed out as it came.
    pub family: Option<Family>,
    /// The record type asked for.
    pub qtype: u16,
}

/// A channel: the configuration, the tasks in the order they were submitted,
/// and the ports used for nameservers that name none.
pub struct Ares<T> {
    pub config: SysConfig,
    pub tasks: Vec<Task<T>>,
    pub default_udp_port: u16,
    pub default_tcp_port: u16,
}

/// The number of milliseconds in a second.
pub const MILLIS_PER_SEC: u64 = 1000;

/// The record type of IPv4 host addresses.
pub const QTYPE_A: u16 = 0x01;

/// The record type of IPv6 host addresses.
pub const QTYPE_AAAA: u16 = 0x1c;

/// The class of the Internet.
pub const QCLASS_IN: u16 = 1;

/// The flags of a standard query that desires recursion.
pub const FLAGS_QUERY: u16 = 0x0100;

/// The record type that a host lookup in a family asks for.
pub open spec fn spec_family_qtype(family: Family) -> u16 {
    match family {
        Family::Ipv4 => QTYPE_A,
        Family::Ipv6 => QTYPE_AAAA,
    }
}

/// The request for one name: a standard query with recursion desired and a
/// single question.
pub open spec fn spec_request(name: Seq<char>, qclass: u16, qtype: u16, id: u16) -> DnsFrameView {
    DnsFrameView {
        transaction_id: id,
        flags: FLAGS_QUERY,
        queries: seq![DnsQueryView { name: spec_split(name, '.'), qtype, qclass }],
        answers: seq![],
    }
}

/// A transaction identifier from `rand`'s thread-local generator, by
/// `Rng::gen`. Nothing is known of it but its type.
#[verifier::external_body]
pub(crate) fn random_transaction_id() -> (id: u16) {
    rand::thread_rng().gen::<u16>()
}

/// Builds the request for one name under a given transaction identifier.
pub fn build_request(name: &str, qclass: u16, qtype: u16, transaction_id: u16) -> (frame: DnsFrame)
    ensures
        frame@ == spec_request(name@, qclass, qtype, transaction_id),
{
    let query: DnsQuery = DnsQuery::new(name, qtype, qclass);
    let mut queries: Vec<DnsQuery> = Vec::new();
    queries.push(query);
    let frame = DnsFrame {
        transaction_id,
        flags: FLAGS_QUERY,
        queries,
        answers: Vec::new(),
    };
    assert(frame@.queries =~= seq![query@]);
    assert(frame@.answers =~= Seq::empty());
    frame
}

/// The configuration to start from: the one that was read from the system,
/// or the default where there is none.
pub fn build_sysconfig(parsed: Option<SysConfig>) -> (config: SysConfig)
    ensures
        parsed.is_some() ==> config == parsed.unwrap(),
        parsed.is_none() ==> spec_is_default_config(config),
{
    match parsed {
        Some(config) => config,
        None => SysConfig::default(),
    }
}

impl<T> Task<T> {
    /// Whether the task is well-formed: as long as it is in `Writing`, its
    /// write buffer holds the request.
    pub open spec fn wf(&self) -> bool {
        self.status == Status::Writing ==> self.writebuf@.len() > 0
    }

    /// Whether the task has timed out at the instant `now`.
    pub open spec fn spec_is_expired(&self, now: u64) -> bool {
        now >= self.expires_at
    }

    /// How long the task still has at the instant `now`; nothing once it has
    /// timed out.
    pub open spec fn spec_time_remaining(&self, now: u64) -> u64 {
        if self.expires_at > now {
            (self.expires_at - now) as u64
        } else {
            0
        }
    }

    /// Whether the task has timed out at the instant `now`.
    pub fn is_expired(&self, now: u64) -> (r: bool)
        ensures
            r == self.spec_is_expired(now),
    {
        now >= self.expires_at
    }

    /// How many milliseconds the task still has at the instant `now`.
    pub fn time_remaining(&self, now: u64) -> (r: u64)
        ensures
            r == self.spec_time_remaining(now),
    {
        if self.expires_at > now {
            self.expires_at - now
        } else {
            0
        }
    }
}

/// The least time that any of the tasks still has.
pub open spec fn spec_min_remaining<T>(tasks: Seq<Task<T>>, now: u64) -> u64
    recommends
        tasks.len() > 0,
    decreases tasks.len(),
{
    if tasks.len() <= 1 {
        tasks[0].spec_time_remaining(now)
    } else {
        let rest = spec_min_remaining(tasks.drop_last(), now);
        if tasks.last().spec_time_remaining(now) < rest {
            tasks.last().spec_time_remaining(now)
        } else {
            rest
        }
    }
}

/// The least remaining time is that of one of the tasks, and no task has
/// less.
pub proof fn lemma_min_remaining<T>(tasks: Seq<Task<T>>, now: u64)
    requires
        tasks.len() > 0,
    ensures
        forall|i: int|
            0 <= i < tasks.len() ==> spec_min_remaining(tasks, now) <= (
            #[trigger] tasks[i]).spec_time_remaining(now),
        exists|i: int|
            0 <= i < tasks.len() && spec_min_remaining(tasks, now) == (
            #[trigger] tasks[i]).spec_time_remaining(now),
    decreases tasks.len(),
{
    if tasks.len() <= 1 {
        assert(spec_min_remaining(tasks, now) == tasks[0].spec_time_remaining(now));
    } else {
        let front = tasks.drop_last();
        lemma_min_remaining(front, now);
        assert forall|i: int| 0 <= i < tasks.len() implies spec_min_remaining(tasks, now) <= (
        #[trigger] tasks[i]).spec_time_remaining(now) by {
            if i < front.len() {
                assert(front[i] == tasks[i]);
            }
        }
        let w = choose|i: int|
            0 <= i < front.len() && spec_min_remaining(front, now) == (
            #[trigger] front[i]).spec_time_remaining(now);
        assert(front[w] == tasks[w]);
        if tasks.last().spec_time_remaining(now) < spec_min_remaining(front, now) {
            assert(spec_min_remaining(tasks, now) == tasks[tasks.len() - 1].spec_time_remaining(
                now,
            ));
        } else {
            assert(spec_min_remaining(tasks, now) == tasks[w].spec_time_remaining(now));
        }
    }
}

/// Whether every one of the tasks is well-formed.
pub open spec fn spec_tasks_wf<T>(tasks: Seq<Task<T>>) -> bool {
    forall|i: int| 0 <= i < tasks.len() ==> (#[trigger] tasks[i]).wf()
}

/// A message on the wire is never empty: it begins with the twelve bytes of
/// its header.
pub proof fn lemma_frame_bytes_len(f: DnsFrameView)
    ensures
        spec_frame_bytes(f).len() >= 12,
{
}

impl<T> Ares<T> {
    /// Whether the channel is well-formed: all its tasks are.
    pub open spec fn wf(&self) -> bool {
        spec_tasks_wf(self.tasks@)
    }

    /// A channel with a configuration, no task, and port 53 as the default
    /// for both transports.
    pub fn new(config: SysConfig) -> (r: Self)
        ensures
            r.wf(),
            r.config == config,
            r.tasks@.len() == 0,
            r.default_udp_port == 53,
            r.default_tcp_port == 53,
    {
        Ares { config, tasks: Vec::new(), default_udp_port: 53, default_tcp_port: 53 }
    }

    /// A channel with the configuration that [`build_sysconfig`] gives.
    pub fn from_sysconfig(parsed: Option<SysConfig>) -> (r: Self)
        ensures
            r.wf(),
            parsed.is_some() ==> r.config == parsed.unwrap(),
            parsed.is_none() ==> spec_is_default_config(r.config),
            r.tasks@.len() == 0,
            r.default_udp_port == 53,
            r.default_tcp_port == 53,
    {
        Ares::new(build_sysconfig(parsed))
    }

    /// The task that submitting `request` at the instant `now` adds.
    pub open spec fn spec_new_task(
        &self,
        request: DnsFrameView,
        family: Option<Family>,
        qtype: u16,
        userdata: T,
        sock: i32,
        now: u64,
        task: Task<T>,
    ) -> bool {
        &&& task.status == Status::Writing
        &&& task.sock == sock
        &&& task.writebuf@ == spec_frame_bytes(request)
        &&& task.userdata == userdata
        &&& task.expires_at == now + self.config.options.timeout_secs * MILLIS_PER_SEC
        &&& task.family == family
        &&& task.qtype == qtype
    }

    /// Appends the task for a request: in `Writing`, with the request
    /// serialized into its write buffer and its deadline one timeout from
    /// `now`.
    pub fn submit(
        &mut self,
        request: &DnsFrame,
        family: Option<Family>,
        qtype: u16,
        userdata: T,
        sock: i32,
        now: u64,
    )
        requires
            now + old(self).config.options.timeout_secs * MILLIS_PER_SEC <= u64::MAX,
        ensures
            old(self).wf() ==> final(self).wf(),
            final(self).config == old(self).config,
            final(self).default_udp_port == old(self).default_udp_port,
            final(self).default_tcp_port == old(self).default_tcp_port,
            final(self).tasks@.len() == old(self).tasks@.len() + 1,
            final(self).tasks@.drop_last() == old(self).tasks@,
            old(self).spec_new_task(
                request@,
                family,
                qtype,
                userdata,
                sock,
                now,
                final(self).tasks@.last(),
            ),
    {
        let expires_at: u64 = now + self.config.options.timeout_secs * MILLIS_PER_SEC;
        let mut task = Task {
            status: Status::Writing,
            sock,
            writebuf: Vec::new(),
            userdata,
            expires_at,
            family,
            qtype,
        };
        request.write(&mut task.writebuf);
        assert(task.writebuf@ =~= spec_frame_bytes(request@));
        proof {
            lemma_frame_bytes_len(request@);
        }
        self.tasks.push(task);
        assert(self.tasks@.drop_last() =~= old(self).tasks@);
        assert(old(self).wf() ==> self.wf()) by {
            if old(self).wf() {
                assert forall|i: int| 0 <= i < self.tasks@.len() implies (
                #[trigger] self.tasks@[i]).wf() by {
                    if i < old(self).tasks@.len() {
                        assert(self.tasks@[i] == old(self).tasks@[i]);
                    }
                }
            }
        }
    }

    /// Submits the lookup of a host in a family, on a socket that the caller
    /// has opened, and gives the new task. The request carries a random
    /// transaction identifier.
    pub fn gethostbyname(
        &mut self,
        hostname: &str,
        family: Family,
        userdata: T,
        sock: i32,
        now: u64,
    ) -> (task: &Task<T>)
        requires
            now + old(self).config.options.timeout_secs * MILLIS_PER_SEC <= u64::MAX,
        ensures
            old(self).wf() ==> final(self).wf(),
            final(self).config == old(self).config,
            final(self).default_udp_port == old(self).default_udp_port,
            final(self).default_tcp_port == old(self).default_tcp_port,
            final(self).tasks@.len() == old(self).tasks@.len() + 1,
            final(self).tasks@.drop_last() == old(self).tasks@,
            *task == final(self).tasks@.last(),
            exists|id: u16|
                old(self).spec_new_task(
                    #[trigger] spec_request(hostname@, QCLASS_IN, spec_family_qtype(family), id),
                    Some(family),
                    spec_family_qtype(family),
                    userdata,
                    sock,
                    now,
                    *task,
                ),
    {
        let qtype: u16 = match family {
            Family::Ipv4 => QTYPE_A,
            Family::Ipv6 => QTYPE_AAAA,
        };
        let id: u16 = random_transaction_id();
        let request: DnsFrame = build_request(hostname, QCLASS_IN, qtype, id);
        self.submit(&request, Some(family), qtype, userdata, sock, now);
        let n: usize = self.tasks.len();
        assert(qtype == spec_family_qtype(family));
        assert(old(self).spec_new_task(
            spec_request(hostname@, QCLASS_IN, spec_family_qtype(family), id),
            Some(family),
            spec_family_qtype(family),
            userdata,
            sock,
            now,
            self.tasks@[n - 1],
        ));
        &self.tasks[n - 1]
    }

    /// Submits a query for a name in a class and of a record type, on a
    /// socket that the caller has opened. The request carries a random
    /// transaction identifier.
    pub fn query(&mut self, name: &str, dnsclass: u16, dnstype: u16, userdata: T, sock: i32, now: u64)
        requires
            now + old(self).config.options.timeout_secs * MILLIS_PER_SEC <= u64::MAX,
        ensures
            old(self).wf() ==> final(self).wf(),
            final(self).config == old(self).config,
            final(self).default_udp_port == old(self).default_udp_port,
            final(self).default_tcp_port == old(self).default_tcp_port,
            final(self).tasks@.len() == old(self).tasks@.len() + 1,
            final(self).tasks@.drop_last() == old(self).tasks@,
            exists|id: u16|
                old(self).spec_new_task(
                    #[trigger] spec_request(name@, dnsclass, dnstype, id),
                    None,
                    dnstype,
                    userdata,
                    sock,
                    now,
                    final(self).tasks@.last(),
                ),
    {
        let id: u16 = random_transaction_id();
        let request: DnsFrame = build_request(name, dnsclass, dnstype, id);
        self.submit(&request, None, dnstype, userdata, sock, now);
    }

    /// The nameserver that requests go to: the first one configured, at its
    /// own port or else at the channel's default UDP port.
    pub open spec fn spec_nameserver(&self) -> Option<(IpAddr, u16)> {
        if self.config.nameservers@.len() == 0 {
            None
        } else {
            let first = self.config.nameservers@[0];
            Some(
                (
                    first.0,
                    match first.1 {
                        Some(port) => port,
                        None => self.default_udp_port,
                    },
                ),
            )
        }
    }

    /// The nameserver that requests go to, if one is configured.
    pub fn nameserver(&self) -> (r: Option<(IpAddr, u16)>)
        ensures
            r == self.spec_nameserver(),
    {
        if self.config.nameservers.len() == 0 {
            None
        } else {
            let first: &(IpAddr, Option<u16>) = &self.config.nameservers[0];
            let port: u16 = match first.1 {
                Some(port) => port,
                None => self.default_udp_port,
            };
            Some((first.0, port))
        }
    }

    /// The least time, in milliseconds, that any task still has at the instant
    /// `now`.
    pub fn max_wait_time(&self, now: u64) -> (r: u64)
        requires
            self.tasks@.len() > 0,
        ensures
            r == spec_min_remaining(self.tasks@, now),
    {
        let mut least: u64 = self.tasks[0].time_remaining(now);
        let mut i: usize = 1;
        assert(self.tasks@.take(1)[0] == self.tasks@[0]);
        while i < self.tasks.len()
            invariant
                1 <= i <= self.tasks@.len(),
                least == spec_min_remaining(self.tasks@.take(i as int), now),
            decreases self.tasks@.len() - i,
        {
            let remaining: u64 = self.tasks[i].time_remaining(now);
            proof {
                let next = self.tasks@.take(i + 1);
                assert(next.drop_last() =~= self.tasks@.take(i as int));
                assert(next.last() == self.tasks@[i as int]);
            }
            if remaining < least {
                least = remaining;
            }
            i += 1;
        }
        assert(self.tasks@.take(i as int) =~= self.tasks@);
        least
    }
}

} // verus!
