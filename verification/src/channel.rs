//! The driver step of a channel, and what it hands out.
//!
//! A step first reports every task whose deadline has passed and sweeps the
//! finished ones from the list, then lets every task whose socket is ready
//! send its request or receive its reply. Sending and receiving are the
//! caller's: they are passed in as two functions, and the step is verified
//! for whatever they return.

use crate::ares::{spec_tasks_wf, Ares, Status, Task};
use crate::ares_hostent::{
    parse_hostent, spec_parse_hostent, Hostent, HostentParseMode, HostentView,
};
use crate::error::{rcode_status, spec_rcode_status, ARES_ETIMEOUT, ARES_SUCCESS};
use crate::packets::{spec_parse_frame, DnsFrame};
use crate::sysconfig::IpAddr;
use std::collections::HashSet;
use vstd::prelude::*;
use vstd::std_specs::hash::*;

verus! {

broadcast use vstd::std_specs::hash::group_hash_axioms;

/// The outcome of one task, to be handed to its callback: the task's user
/// data, the status, and with a success either the host entry, for a host
/// lookup, or the reply as it came, for any other query.
pub struct Completion<T> {
    pub userdata: T,
    pub status: i32,
    pub hostent: Option<Hostent>,
    pub abuf: Option<Vec<u8>>,
}

/// What the network did for one task during a step: whether its request went
/// out, and the datagram that came in for it, if any. A part that was not
/// attempted is `false` or `None`.
pub struct IoResult {
    pub sent: bool,
    pub datagram: Option<Vec<u8>>,
}

/// Whether a task is still under way at the instant `now`: not finished, and
/// its deadline not passed.
pub open spec fn spec_live<T>(t: Task<T>, now: u64) -> bool {
    t.status != Status::Completed && !t.spec_is_expired(now)
}

/// Whether a task times out at the instant `now`: its deadline has passed,
/// and it has not finished before.
pub open spec fn spec_times_out<T>(t: Task<T>, now: u64) -> bool {
    t.status != Status::Completed && t.spec_is_expired(now)
}

/// The tasks that are still under way at the instant `now`, in their order.
pub open spec fn spec_live_tasks<T>(tasks: Seq<Task<T>>, now: u64) -> Seq<Task<T>> {
    tasks.filter(|t: Task<T>| spec_live(t, now))
}

/// The tasks that time out at the instant `now`, in their order.
pub open spec fn spec_timed_out<T>(tasks: Seq<Task<T>>, now: u64) -> Seq<Task<T>> {
    tasks.filter(|t: Task<T>| spec_times_out(t, now))
}

/// The tasks that are not finished, in their order.
pub open spec fn spec_unfinished<T>(tasks: Seq<Task<T>>) -> Seq<Task<T>> {
    tasks.filter(|t: Task<T>| t.status != Status::Completed)
}

/// Whether `c` reports the timeout of the task `t`.
pub open spec fn spec_is_timeout_of<T>(c: Completion<T>, t: Task<T>) -> bool {
    &&& c.userdata == t.userdata
    &&& c.status == ARES_ETIMEOUT
    &&& c.hostent.is_none()
    &&& c.abuf.is_none()
}

/// What the callback of a host lookup is given for the reply `buf` with the
/// header flags `flags`: the error that a non-zero reply code stands for, or
/// else the host entry built from the addresses of either family, or the
/// error that building it gave.
pub open spec fn spec_host_delivery(buf: Seq<u8>, flags: u16) -> (i32, Option<HostentView>) {
    if spec_rcode_status(flags) != ARES_SUCCESS {
        (spec_rcode_status(flags), None)
    } else {
        match spec_parse_hostent(buf, HostentParseMode::Addrs) {
            Ok(h) => (ARES_SUCCESS, Some(h)),
            Err(e) => (e, None),
        }
    }
}

/// Whether `c` reports the reply `dg` to the task `t`: with the host entry
/// for a host lookup, with the reply itself for any other query, and with
/// the status that the reply code stands for.
pub open spec fn spec_is_reply_of<T>(c: Completion<T>, t: Task<T>, dg: Seq<u8>) -> bool {
    let frame = spec_parse_frame(dg).0;
    &&& frame.is_some()
    &&& c.userdata == t.userdata
    &&& if t.family.is_some() {
        &&& (c.status, c.hostent.deep_view()) == spec_host_delivery(dg, frame.unwrap().flags)
        &&& c.abuf.is_none()
    } else {
        &&& c.status == spec_rcode_status(frame.unwrap().flags)
        &&& c.hostent.is_none()
        &&& c.abuf.is_some() && c.abuf.unwrap()@ == dg
    }
}

/// Whether a task sends in a step: it is in `Writing`, its socket is ready to
/// be written, and there is a nameserver to send to.
pub open spec fn spec_wants_send<T>(t: Task<T>, write_fds: Set<i32>, dest: Option<(IpAddr, u16)>) -> bool {
    t.status == Status::Writing && write_fds.contains(t.sock) && dest.is_some()
}

/// The task after a send was attempted: in `Reading` where it was in
/// `Writing` and the request went out, unchanged otherwise.
pub open spec fn spec_after_write<T>(t: Task<T>, sent: bool) -> Task<T> {
    if t.status == Status::Writing && sent {
        Task { status: Status::Reading, ..t }
    } else {
        t
    }
}

/// The task after the sending part of a step.
pub open spec fn spec_after_send<T>(
    t: Task<T>,
    write_fds: Set<i32>,
    dest: Option<(IpAddr, u16)>,
    sent: bool,
) -> Task<T> {
    if spec_wants_send(t, write_fds, dest) {
        spec_after_write(t, sent)
    } else {
        t
    }
}

/// Whether a task receives in a step: after the sending part it is in
/// `Reading`, and its socket is ready to be read.
pub open spec fn spec_wants_recv<T>(
    t: Task<T>,
    read_fds: Set<i32>,
    write_fds: Set<i32>,
    dest: Option<(IpAddr, u16)>,
    sent: bool,
) -> bool {
    spec_after_send(t, write_fds, dest, sent).status == Status::Reading && read_fds.contains(
        t.sock,
    )
}

/// The reply that finishes a task in a step, if there is one: the datagram
/// that came in for a task that receives, provided that it parses as a
/// message. A datagram that does not parse is dropped.
pub open spec fn spec_reply<T>(
    t: Task<T>,
    read_fds: Set<i32>,
    write_fds: Set<i32>,
    dest: Option<(IpAddr, u16)>,
    io: IoResult,
) -> Option<Seq<u8>> {
    if spec_wants_recv(t, read_fds, write_fds, dest, io.sent) && io.datagram.is_some()
        && spec_parse_frame(io.datagram.unwrap()@).0.is_some() {
        Some(io.datagram.unwrap()@)
    } else {
        None
    }
}

/// The tasks that stay in the list after the input and output of a step, in
/// their order and as the step leaves them.
pub open spec fn spec_kept<T>(
    tasks: Seq<Task<T>>,
    read_fds: Set<i32>,
    write_fds: Set<i32>,
    dest: Option<(IpAddr, u16)>,
    io: Seq<IoResult>,
) -> Seq<Task<T>>
    recommends
        io.len() == tasks.len(),
    decreases tasks.len(),
{
    if tasks.len() == 0 {
        seq![]
    } else {
        let rest = spec_kept(tasks.drop_last(), read_fds, write_fds, dest, io.drop_last());
        if spec_reply(tasks.last(), read_fds, write_fds, dest, io.last()).is_some() {
            rest
        } else {
            rest.push(spec_after_send(tasks.last(), write_fds, dest, io.last().sent))
        }
    }
}

/// The tasks that the input and output of a step finish, in their order, each
/// with the reply that finishes it.
pub open spec fn spec_replied<T>(
    tasks: Seq<Task<T>>,
    read_fds: Set<i32>,
    write_fds: Set<i32>,
    dest: Option<(IpAddr, u16)>,
    io: Seq<IoResult>,
) -> Seq<(Task<T>, Seq<u8>)>
    recommends
        io.len() == tasks.len(),
    decreases tasks.len(),
{
    if tasks.len() == 0 {
        seq![]
    } else {
        let rest = spec_replied(tasks.drop_last(), read_fds, write_fds, dest, io.drop_last());
        match spec_reply(tasks.last(), read_fds, write_fds, dest, io.last()) {
            Some(dg) => rest.push((tasks.last(), dg)),
            None => rest,
        }
    }
}

/// Decides what the callback of a host lookup is given for a reply.
pub fn run_ares_host_callback(buf: &[u8], result: &DnsFrame) -> (r: (i32, Option<Hostent>))
    ensures
        (r.0, r.1.deep_view()) == spec_host_delivery(buf@, result.flags),
{
    let status: i32 = rcode_status(result.flags);
    if status != ARES_SUCCESS {
        return (status, None);
    }
    match parse_hostent(buf, HostentParseMode::Addrs) {
        Ok(hostent) => (ARES_SUCCESS, Some(hostent)),
        Err(e) => (e, None),
    }
}

/// Decides what the callback of any other query is given for a reply: the
/// status that the reply code stands for, and the reply as it came.
pub fn run_ares_callback(buf: Vec<u8>, result: &DnsFrame) -> (r: (i32, Option<Vec<u8>>))
    ensures
        r.0 == spec_rcode_status(result.flags),
        r.1 == Some(buf),
{
    (rcode_status(result.flags), Some(buf))
}

/// The elements of `v` in the opposite order.
fn reversed<E>(v: Vec<E>) -> (r: Vec<E>)
    ensures
        r@ == v@.reverse(),
{
    let mut v = v;
    let ghost all = v@;
    let mut r: Vec<E> = Vec::new();
    while v.len() > 0
        invariant
            v@.len() + r@.len() == all.len(),
            v@ == all.take(v@.len() as int),
            forall|k: int| 0 <= k < r@.len() ==> r@[k] == all[all.len() - 1 - k],
        decreases v@.len(),
    {
        let ghost n = v@.len() as int;
        let e: E = v.pop().unwrap();
        r.push(e);
        assert(v@ =~= all.take(n - 1));
    }
    assert(r@ =~= all.reverse());
    r
}

impl<T> Ares<T> {
    /// Takes note that a send was attempted for a task: where the task was
    /// in `Writing` and its request went out, it is now in `Reading`.
    pub fn write_impl(&self, task: &mut Task<T>, sent: bool)
        ensures
            *final(task) == spec_after_write(*old(task), sent),
    {
        if task.status == Status::Writing && sent {
            task.status = Status::Reading;
        }
    }

    /// Takes in a datagram that came for a task. Where the task is in
    /// `Reading` and the datagram parses as a message, the task is finished
    /// and the datagram is handed back with the message; any other datagram
    /// is dropped and leaves the task as it is.
    pub fn read_impl(&self, task: &mut Task<T>, datagram: Vec<u8>) -> (r: Option<
        (Vec<u8>, DnsFrame),
    >)
        ensures
            old(task).status == Status::Reading && spec_parse_frame(datagram@).0.is_some() ==> {
                &&& r.is_some()
                &&& r.unwrap().0 == datagram
                &&& Some(r.unwrap().1@) == spec_parse_frame(datagram@).0
                &&& *final(task) == Task { status: Status::Completed, ..*old(task) }
            },
            !(old(task).status == Status::Reading && spec_parse_frame(datagram@).0.is_some())
                ==> r.is_none() && *final(task) == *old(task),
    {
        if task.status != Status::Reading {
            return None;
        }
        let mut cur: &[u8] = datagram.as_slice();
        let frame: DnsFrame = DnsFrame::parse(&mut cur)?;
        task.status = Status::Completed;
        Some((datagram, frame))
    }

    /// Sweeps the finished tasks from the list.
    pub fn remove_completed(&mut self)
        ensures
            old(self).wf() ==> final(self).wf(),
            final(self).tasks@ == spec_unfinished(old(self).tasks@),
            forall|i: int|
                0 <= i < final(self).tasks@.len() ==> (#[trigger] final(self).tasks@[i]).status
                    != Status::Completed,
            final(self).config == old(self).config,
            final(self).default_udp_port == old(self).default_udp_port,
            final(self).default_tcp_port == old(self).default_tcp_port,
    {
        let ghost all = self.tasks@;
        let ghost pred = |t: Task<T>| t.status != Status::Completed;
        let mut old_tasks: Vec<Task<T>> = Vec::new();
        std::mem::swap(&mut self.tasks, &mut old_tasks);
        let mut rev: Vec<Task<T>> = reversed(old_tasks);
        proof {
            reveal(Seq::filter);
            assert(all.take(0).filter(pred) =~= Seq::<Task<T>>::empty());
        }
        while rev.len() > 0
            invariant
                rev@.len() <= all.len(),
                rev@ == all.reverse().take(rev@.len() as int),
                self.tasks@ == all.take(all.len() - rev@.len()).filter(pred),
                forall|i: int|
                    0 <= i < self.tasks@.len() ==> (#[trigger] self.tasks@[i]).status
                        != Status::Completed,
                self.config == old(self).config,
                self.default_udp_port == old(self).default_udp_port,
                self.default_tcp_port == old(self).default_tcp_port,
                pred == |t: Task<T>| t.status != Status::Completed,
            decreases rev@.len(),
        {
            let ghost i = all.len() - rev@.len();
            let ghost n = rev@.len() as int;
            let task: Task<T> = rev.pop().unwrap();
            proof {
                assert(rev@ =~= all.reverse().take(n - 1));
                assert(task == all[i]);
                assert(all.take(i + 1) =~= all.take(i).push(task));
                all.take(i).lemma_filter_push(task, pred);
            }
            if task.status != Status::Completed {
                self.tasks.push(task);
            }
        }
        assert(all.take(all.len() as int) =~= all);
        proof {
            if spec_tasks_wf(all) {
                lemma_filter_wf(all, pred);
            }
        }
    }
}

/// Whether `io` is what the two functions of the caller gave for the task
/// `t`: the request was handed to `send`, with the nameserver's address and
/// port, exactly if the task sends, and `recv` was asked for a datagram
/// exactly if the task receives.
pub open spec fn spec_io_of<T, S: Fn(&Task<T>, IpAddr, u16) -> bool, R: Fn(&Task<T>) -> Option<
    Vec<u8>,
>>(
    t: Task<T>,
    read_fds: Set<i32>,
    write_fds: Set<i32>,
    dest: Option<(IpAddr, u16)>,
    send: S,
    recv: R,
    io: IoResult,
) -> bool {
    &&& if spec_wants_send(t, write_fds, dest) {
        call_ensures(send, (&t, dest.unwrap().0, dest.unwrap().1), io.sent)
    } else {
        !io.sent
    }
    &&& if spec_wants_recv(t, read_fds, write_fds, dest, io.sent) {
        call_ensures(recv, (&t,), io.datagram)
    } else {
        io.datagram.is_none()
    }
}

/// Every task that was not finished before a step is, after it, either still
/// in the list or reported, and never both: the tasks kept and the replies
/// reported add up to the tasks that went in.
pub proof fn lemma_kept_or_replied<T>(
    tasks: Seq<Task<T>>,
    read_fds: Set<i32>,
    write_fds: Set<i32>,
    dest: Option<(IpAddr, u16)>,
    io: Seq<IoResult>,
)
    requires
        io.len() == tasks.len(),
    ensures
        spec_kept(tasks, read_fds, write_fds, dest, io).len() + spec_replied(
            tasks,
            read_fds,
            write_fds,
            dest,
            io,
        ).len() == tasks.len(),
    decreases tasks.len(),
{
    if tasks.len() > 0 {
        lemma_kept_or_replied(tasks.drop_last(), read_fds, write_fds, dest, io.drop_last());
    }
}

/// A reply is only ever reported for a task that was awaiting one, after the
/// sending part of the step, and whose socket the caller marked as readable.
pub proof fn lemma_replied_was_readable<T>(
    tasks: Seq<Task<T>>,
    read_fds: Set<i32>,
    write_fds: Set<i32>,
    dest: Option<(IpAddr, u16)>,
    io: Seq<IoResult>,
)
    requires
        io.len() == tasks.len(),
    ensures
        forall|j: int|
            0 <= j < spec_replied(tasks, read_fds, write_fds, dest, io).len() ==> {
                let t = (#[trigger] spec_replied(tasks, read_fds, write_fds, dest, io)[j]).0;
                &&& read_fds.contains(t.sock)
                &&& t.status == Status::Reading || (t.status == Status::Writing
                    && write_fds.contains(t.sock))
                &&& tasks.contains(t)
            },
    decreases tasks.len(),
{
    if tasks.len() > 0 {
        let front = tasks.drop_last();
        lemma_replied_was_readable(front, read_fds, write_fds, dest, io.drop_last());
        let all = spec_replied(tasks, read_fds, write_fds, dest, io);
        let rest = spec_replied(front, read_fds, write_fds, dest, io.drop_last());
        assert forall|j: int| 0 <= j < all.len() implies {
            let t = (#[trigger] all[j]).0;
            &&& read_fds.contains(t.sock)
            &&& t.status == Status::Reading || (t.status == Status::Writing && write_fds.contains(
                t.sock,
            ))
            &&& tasks.contains(t)
        } by {
            if j < rest.len() {
                assert(all[j] == rest[j]);
                let t = rest[j].0;
                let k = choose|k: int| 0 <= k < front.len() && front[k] == t;
                assert(tasks[k] == t);
            } else {
                assert(all[j].0 == tasks[tasks.len() - 1]);
            }
        }
    }
}

/// The input and output of a step leave well-formed tasks well-formed.
pub proof fn lemma_kept_wf<T>(
    tasks: Seq<Task<T>>,
    read_fds: Set<i32>,
    write_fds: Set<i32>,
    dest: Option<(IpAddr, u16)>,
    io: Seq<IoResult>,
)
    requires
        io.len() == tasks.len(),
        spec_tasks_wf(tasks),
    ensures
        spec_tasks_wf(spec_kept(tasks, read_fds, write_fds, dest, io)),
    decreases tasks.len(),
{
    if tasks.len() > 0 {
        let front = tasks.drop_last();
        assert forall|i: int| 0 <= i < front.len() implies (#[trigger] front[i]).wf() by {
            assert(front[i] == tasks[i]);
        }
        lemma_kept_wf(front, read_fds, write_fds, dest, io.drop_last());
        assert(tasks[tasks.len() - 1].wf());
    }
}

/// The tasks picked out of well-formed tasks are well-formed.
pub proof fn lemma_filter_wf<T>(tasks: Seq<Task<T>>, pred: spec_fn(Task<T>) -> bool)
    requires
        spec_tasks_wf(tasks),
    ensures
        spec_tasks_wf(tasks.filter(pred)),
    decreases tasks.len(),
{
    reveal(Seq::filter);
    if tasks.len() > 0 {
        let front = tasks.drop_last();
        assert forall|i: int| 0 <= i < front.len() implies (#[trigger] front[i]).wf() by {
            assert(front[i] == tasks[i]);
        }
        lemma_filter_wf(front, pred);
        assert(tasks[tasks.len() - 1].wf());
    }
}

/// Where no finished task goes into the input and output of a step, none is
/// left in the list after it.
pub proof fn lemma_kept_not_completed<T>(
    tasks: Seq<Task<T>>,
    read_fds: Set<i32>,
    write_fds: Set<i32>,
    dest: Option<(IpAddr, u16)>,
    io: Seq<IoResult>,
)
    requires
        io.len() == tasks.len(),
        forall|i: int| 0 <= i < tasks.len() ==> (#[trigger] tasks[i]).status != Status::Completed,
    ensures
        forall|i: int|
            0 <= i < spec_kept(tasks, read_fds, write_fds, dest, io).len() ==> (#[trigger] spec_kept(
                tasks,
                read_fds,
                write_fds,
                dest,
                io,
            )[i]).status != Status::Completed,
    decreases tasks.len(),
{
    if tasks.len() > 0 {
        let front = tasks.drop_last();
        assert forall|i: int| 0 <= i < front.len() implies (#[trigger] front[i]).status
            != Status::Completed by {
            assert(front[i] == tasks[i]);
        }
        lemma_kept_not_completed(front, read_fds, write_fds, dest, io.drop_last());
        assert(tasks[tasks.len() - 1].status != Status::Completed);
    }
}

impl<T> Ares<T> {
    /// Reports every task whose deadline has passed at the instant `now` as
    /// timed out, and sweeps those tasks and the finished ones from the list.
    pub fn expire(&mut self, now: u64) -> (done: Vec<Completion<T>>)
        ensures
            old(self).wf() ==> final(self).wf(),
            final(self).tasks@ == spec_live_tasks(old(self).tasks@, now),
            done@.len() == spec_timed_out(old(self).tasks@, now).len(),
            forall|j: int|
                0 <= j < done@.len() ==> spec_is_timeout_of(
                    #[trigger] done@[j],
                    spec_timed_out(old(self).tasks@, now)[j],
                ),
            forall|i: int|
                0 <= i < final(self).tasks@.len() ==> (#[trigger] final(self).tasks@[i]).status
                    != Status::Completed,
            final(self).config == old(self).config,
            final(self).default_udp_port == old(self).default_udp_port,
            final(self).default_tcp_port == old(self).default_tcp_port,
    {
        let ghost all = self.tasks@;
        let ghost live = |t: Task<T>| spec_live(t, now);
        let ghost timed = |t: Task<T>| spec_times_out(t, now);
        let mut old_tasks: Vec<Task<T>> = Vec::new();
        std::mem::swap(&mut self.tasks, &mut old_tasks);
        let mut rev: Vec<Task<T>> = reversed(old_tasks);
        let mut done: Vec<Completion<T>> = Vec::new();
        proof {
            reveal(Seq::filter);
            assert(all.take(0).filter(live) =~= Seq::<Task<T>>::empty());
            assert(all.take(0).filter(timed) =~= Seq::<Task<T>>::empty());
        }
        while rev.len() > 0
            invariant
                rev@.len() <= all.len(),
                rev@ == all.reverse().take(rev@.len() as int),
                self.tasks@ == all.take(all.len() - rev@.len()).filter(live),
                done@.len() == all.take(all.len() - rev@.len()).filter(timed).len(),
                forall|j: int|
                    0 <= j < done@.len() ==> spec_is_timeout_of(
                        #[trigger] done@[j],
                        all.take(all.len() - rev@.len()).filter(timed)[j],
                    ),
                forall|i: int|
                    0 <= i < self.tasks@.len() ==> (#[trigger] self.tasks@[i]).status
                        != Status::Completed,
                self.config == old(self).config,
                self.default_udp_port == old(self).default_udp_port,
                self.default_tcp_port == old(self).default_tcp_port,
                live == |t: Task<T>| spec_live(t, now),
                timed == |t: Task<T>| spec_times_out(t, now),
            decreases rev@.len(),
        {
            let ghost i = all.len() - rev@.len();
            let ghost n = rev@.len() as int;
            let ghost timed_before = all.take(i).filter(timed);
            let task: Task<T> = rev.pop().unwrap();
            proof {
                assert(rev@ =~= all.reverse().take(n - 1));
                assert(task == all[i]);
                assert(all.take(i + 1) =~= all.take(i).push(task));
                all.take(i).lemma_filter_push(task, live);
                all.take(i).lemma_filter_push(task, timed);
            }
            if task.status == Status::Completed {
            } else if task.is_expired(now) {
                done.push(
                    Completion {
                        userdata: task.userdata,
                        status: ARES_ETIMEOUT,
                        hostent: None,
                        abuf: None,
                    },
                );
                assert forall|j: int| 0 <= j < done@.len() implies spec_is_timeout_of(
                    #[trigger] done@[j],
                    all.take(i + 1).filter(timed)[j],
                ) by {
                    if j < timed_before.len() {
                        assert(all.take(i + 1).filter(timed)[j] == timed_before[j]);
                    }
                }
            } else {
                self.tasks.push(task);
            }
        }
        assert(all.take(all.len() as int) =~= all);
        proof {
            if spec_tasks_wf(all) {
                lemma_filter_wf(all, live);
            }
        }
        done
    }

    /// Lets the caller's functions send and receive for every task that a
    /// step would have do so, and collects what they gave, one result for
    /// each task in order. A task in `Writing` whose socket is writable has
    /// its request handed to `send`, with the nameserver's address and port;
    /// a task that after this is in `Reading` and whose socket is readable
    /// has `recv` asked for a datagram.
    pub fn perform_io<S: Fn(&Task<T>, IpAddr, u16) -> bool, R: Fn(&Task<T>) -> Option<Vec<u8>>>(
        &self,
        read_fds: &HashSet<i32>,
        write_fds: &HashSet<i32>,
        send: &S,
        recv: &R,
    ) -> (io: Vec<IoResult>)
        requires
            forall|t: &Task<T>, addr: IpAddr, port: u16| call_requires(*send, (t, addr, port)),
            forall|t: &Task<T>| call_requires(*recv, (t,)),
        ensures
            io@.len() == self.tasks@.len(),
            forall|i: int|
                0 <= i < io@.len() ==> spec_io_of(
                    self.tasks@[i],
                    read_fds@,
                    write_fds@,
                    self.spec_nameserver(),
                    *send,
                    *recv,
                    #[trigger] io@[i],
                ),
    {
        let dest: Option<(IpAddr, u16)> = self.nameserver();
        let mut io: Vec<IoResult> = Vec::new();
        let mut i: usize = 0;
        while i < self.tasks.len()
            invariant
                i <= self.tasks@.len(),
                io@.len() == i,
                dest == self.spec_nameserver(),
                forall|t: &Task<T>, addr: IpAddr, port: u16| call_requires(*send, (t, addr, port)),
                forall|t: &Task<T>| call_requires(*recv, (t,)),
                forall|k: int|
                    0 <= k < i ==> spec_io_of(
                        self.tasks@[k],
                        read_fds@,
                        write_fds@,
                        self.spec_nameserver(),
                        *send,
                        *recv,
                        #[trigger] io@[k],
                    ),
            decreases self.tasks@.len() - i,
        {
            let task: &Task<T> = &self.tasks[i];
            let mut sent: bool = false;
            let mut status: Status = task.status;
            if task.status == Status::Writing && write_fds.contains(&task.sock) {
                match dest {
                    Some((addr, port)) => {
                        sent = send(task, addr, port);
                        if sent {
                            status = Status::Reading;
                        }
                    },
                    None => {},
                }
            }
            let mut datagram: Option<Vec<u8>> = None;
            if status == Status::Reading && read_fds.contains(&task.sock) {
                datagram = recv(task);
            }
            io.push(IoResult { sent, datagram });
            i += 1;
        }
        io
    }

    /// Applies to the tasks what the network did for them, one result for
    /// each task in order. A task whose request went out moves on to
    /// `Reading`. A task that receives a datagram which parses as a message
    /// is finished: it leaves the list, and its outcome is handed out. Every
    /// other task stays.
    pub fn apply_io(
        &mut self,
        read_fds: &HashSet<i32>,
        write_fds: &HashSet<i32>,
        io: Vec<IoResult>,
    ) -> (done: Vec<Completion<T>>)
        requires
            io@.len() == old(self).tasks@.len(),
        ensures
            old(self).wf() ==> final(self).wf(),
            final(self).tasks@ == spec_kept(
                old(self).tasks@,
                read_fds@,
                write_fds@,
                old(self).spec_nameserver(),
                io@,
            ),
            done@.len() == spec_replied(
                old(self).tasks@,
                read_fds@,
                write_fds@,
                old(self).spec_nameserver(),
                io@,
            ).len(),
            forall|j: int|
                0 <= j < done@.len() ==> spec_is_reply_of(
                    #[trigger] done@[j],
                    spec_replied(
                        old(self).tasks@,
                        read_fds@,
                        write_fds@,
                        old(self).spec_nameserver(),
                        io@,
                    )[j].0,
                    spec_replied(
                        old(self).tasks@,
                        read_fds@,
                        write_fds@,
                        old(self).spec_nameserver(),
                        io@,
                    )[j].1,
                ),
            final(self).config == old(self).config,
            final(self).default_udp_port == old(self).default_udp_port,
            final(self).default_tcp_port == old(self).default_tcp_port,
    {
        let ghost all = self.tasks@;
        let ghost all_io = io@;
        let ghost r = read_fds@;
        let ghost w = write_fds@;
        let dest: Option<(IpAddr, u16)> = self.nameserver();
        let mut old_tasks: Vec<Task<T>> = Vec::new();
        std::mem::swap(&mut self.tasks, &mut old_tasks);
        let mut rev: Vec<Task<T>> = reversed(old_tasks);
        let mut rev_io: Vec<IoResult> = reversed(io);
        let mut done: Vec<Completion<T>> = Vec::new();
        proof {
            assert(all.take(0) =~= Seq::<Task<T>>::empty());
        }
        while rev.len() > 0
            invariant
                rev@.len() <= all.len(),
                all_io.len() == all.len(),
                rev@.len() == rev_io@.len(),
                rev@ == all.reverse().take(rev@.len() as int),
                rev_io@ == all_io.reverse().take(rev@.len() as int),
                r == read_fds@,
                w == write_fds@,
                dest == old(self).spec_nameserver(),
                self.tasks@ == spec_kept(
                    all.take(all.len() - rev@.len()),
                    r,
                    w,
                    dest,
                    all_io.take(all.len() - rev@.len()),
                ),
                done@.len() == spec_replied(
                    all.take(all.len() - rev@.len()),
                    r,
                    w,
                    dest,
                    all_io.take(all.len() - rev@.len()),
                ).len(),
                forall|j: int|
                    0 <= j < done@.len() ==> spec_is_reply_of(
                        #[trigger] done@[j],
                        spec_replied(
                            all.take(all.len() - rev@.len()),
                            r,
                            w,
                            dest,
                            all_io.take(all.len() - rev@.len()),
                        )[j].0,
                        spec_replied(
                            all.take(all.len() - rev@.len()),
                            r,
                            w,
                            dest,
                            all_io.take(all.len() - rev@.len()),
                        )[j].1,
                    ),
                self.config == old(self).config,
                self.default_udp_port == old(self).default_udp_port,
                self.default_tcp_port == old(self).default_tcp_port,
            decreases rev@.len(),
        {
            let ghost i = all.len() - rev@.len();
            let ghost n = rev@.len() as int;
            let ghost replied_before = spec_replied(all.take(i), r, w, dest, all_io.take(i));
            let mut task: Task<T> = rev.pop().unwrap();
            let result: IoResult = rev_io.pop().unwrap();
            proof {
                assert(rev@ =~= all.reverse().take(n - 1));
                assert(rev_io@ =~= all_io.reverse().take(n - 1));
                assert(task == all[i]);
                assert(result == all_io[i]);
                assert(all.take(i + 1).drop_last() =~= all.take(i));
                assert(all_io.take(i + 1).drop_last() =~= all_io.take(i));
                assert(all.take(i + 1).last() == task);
                assert(all_io.take(i + 1).last() == result);
            }
            let ghost task0 = task;
            if task.status == Status::Writing && write_fds.contains(&task.sock) && dest.is_some() {
                self.write_impl(&mut task, result.sent);
            }
            assert(task == spec_after_send(task0, w, dest, result.sent));
            let mut reply: Option<(Vec<u8>, DnsFrame)> = None;
            if task.status == Status::Reading && read_fds.contains(&task.sock) {
                match result.datagram {
                    Some(datagram) => {
                        reply = self.read_impl(&mut task, datagram);
                    },
                    None => {},
                }
            }
            match reply {
                Some((buf, frame)) => {
                    assert(spec_reply(task0, r, w, dest, result) == Some(buf@));
                    let completion: Completion<T> = if task.family.is_some() {
                        let (status, hostent) = run_ares_host_callback(buf.as_slice(), &frame);
                        Completion { userdata: task.userdata, status, hostent, abuf: None }
                    } else {
                        let (status, abuf) = run_ares_callback(buf, &frame);
                        Completion { userdata: task.userdata, status, hostent: None, abuf }
                    };
                    assert(spec_is_reply_of(completion, task0, buf@));
                    done.push(completion);
                    assert forall|j: int| 0 <= j < done@.len() implies spec_is_reply_of(
                        #[trigger] done@[j],
                        spec_replied(all.take(i + 1), r, w, dest, all_io.take(i + 1))[j].0,
                        spec_replied(all.take(i + 1), r, w, dest, all_io.take(i + 1))[j].1,
                    ) by {
                        if j < replied_before.len() {
                            assert(spec_replied(all.take(i + 1), r, w, dest, all_io.take(i + 1))[j]
                                == replied_before[j]);
                        }
                    }
                },
                None => {
                    assert(spec_reply(task0, r, w, dest, result).is_none());
                    self.tasks.push(task);
                },
            }
        }
        assert(all.take(all.len() as int) =~= all);
        assert(all_io.take(all.len() as int) =~= all_io);
        proof {
            if spec_tasks_wf(all) {
                lemma_kept_wf(all, r, w, dest, all_io);
            }
        }
        done
    }
}

/// What one step at the instant `now` makes of the tasks `before`, under the
/// results `io` of the input and output for those that are still under way:
/// the list `after`, and the outcomes `done`.
///
/// The tasks whose deadline has passed are reported as timed out, in their
/// order and before any reply. Those and the tasks finished before leave the
/// list. Of the tasks still under way, each is kept, or finished and
/// reported with its reply, as the results say.
pub open spec fn spec_step<T>(
    before: Seq<Task<T>>,
    now: u64,
    read_fds: Set<i32>,
    write_fds: Set<i32>,
    dest: Option<(IpAddr, u16)>,
    io: Seq<IoResult>,
    after: Seq<Task<T>>,
    done: Seq<Completion<T>>,
) -> bool {
    let live = spec_live_tasks(before, now);
    let timed = spec_timed_out(before, now);
    let replied = spec_replied(live, read_fds, write_fds, dest, io);
    &&& io.len() == live.len()
    &&& after == spec_kept(live, read_fds, write_fds, dest, io)
    &&& done.len() == timed.len() + replied.len()
    &&& forall|j: int| 0 <= j < timed.len() ==> spec_is_timeout_of(#[trigger] done[j], timed[j])
    &&& forall|j: int|
        0 <= j < replied.len() ==> spec_is_reply_of(
            #[trigger] done[timed.len() + j],
            replied[j].0,
            replied[j].1,
        )
}

/// Whatever the network does during a step:
///
/// - every task that went in unfinished is afterwards either still in the
///   list or reported, and never both, so that no task is reported twice and
///   none is lost;
/// - no finished task is left in the list;
/// - a reply is only reported for a task whose socket was marked as readable.
pub proof fn lemma_step<T>(
    before: Seq<Task<T>>,
    now: u64,
    read_fds: Set<i32>,
    write_fds: Set<i32>,
    dest: Option<(IpAddr, u16)>,
    io: Seq<IoResult>,
    after: Seq<Task<T>>,
    done: Seq<Completion<T>>,
)
    requires
        spec_step(before, now, read_fds, write_fds, dest, io, after, done),
    ensures
        done.len() + after.len() == spec_unfinished(before).len(),
        forall|i: int| 0 <= i < after.len() ==> (#[trigger] after[i]).status != Status::Completed,
        forall|j: int|
            0 <= j < spec_replied(spec_live_tasks(before, now), read_fds, write_fds, dest, io).len()
                ==> read_fds.contains(
                (#[trigger] spec_replied(
                    spec_live_tasks(before, now),
                    read_fds,
                    write_fds,
                    dest,
                    io,
                )[j]).0.sock,
            ),
{
    let live = spec_live_tasks(before, now);
    lemma_unfinished_split(before, now);
    lemma_kept_or_replied(live, read_fds, write_fds, dest, io);
    lemma_replied_was_readable(live, read_fds, write_fds, dest, io);
    assert forall|i: int| 0 <= i < live.len() implies (#[trigger] live[i]).status
        != Status::Completed by {
        before.lemma_filter_pred(|t: Task<T>| spec_live(t, now), i);
    }
    lemma_kept_not_completed(live, read_fds, write_fds, dest, io);
}

/// The driver step of a channel at the instant `now`, given the sockets that
/// are readable and writable and the caller's functions to send a request
/// and to receive a datagram.
///
/// It hands out one outcome for every task that it finishes, timeouts first.
/// After it no finished task is left in the list, and every task that went
/// in unfinished is either still in the list or has been reported, once.
pub fn ares_process<T, S: Fn(&Task<T>, IpAddr, u16) -> bool, R: Fn(&Task<T>) -> Option<Vec<u8>>>(
    channel: &mut Ares<T>,
    now: u64,
    read_fds: &HashSet<i32>,
    write_fds: &HashSet<i32>,
    send: S,
    recv: R,
) -> (done: Vec<Completion<T>>)
    requires
        forall|t: &Task<T>, addr: IpAddr, port: u16| call_requires(send, (t, addr, port)),
        forall|t: &Task<T>| call_requires(recv, (t,)),
    ensures
        exists|io: Seq<IoResult>|
            {
                &&& #[trigger] spec_step(
                    old(channel).tasks@,
                    now,
                    read_fds@,
                    write_fds@,
                    old(channel).spec_nameserver(),
                    io,
                    final(channel).tasks@,
                    done@,
                )
                &&& forall|i: int|
                    0 <= i < io.len() ==> spec_io_of(
                        spec_live_tasks(old(channel).tasks@, now)[i],
                        read_fds@,
                        write_fds@,
                        old(channel).spec_nameserver(),
                        send,
                        recv,
                        #[trigger] io[i],
                    )
            },
        forall|i: int|
            0 <= i < final(channel).tasks@.len() ==> (#[trigger] final(channel).tasks@[i]).status
                != Status::Completed,
        done@.len() + final(channel).tasks@.len() == spec_unfinished(old(channel).tasks@).len(),
        old(channel).wf() ==> final(channel).wf(),
        final(channel).config == old(channel).config,
        final(channel).default_udp_port == old(channel).default_udp_port,
        final(channel).default_tcp_port == old(channel).default_tcp_port,
{
    let ghost before = channel.tasks@;
    let ghost live = spec_live_tasks(before, now);
    let ghost timed = spec_timed_out(before, now);
    let ghost dest = channel.spec_nameserver();
    let mut done: Vec<Completion<T>> = channel.expire(now);
    let ghost timeouts = done@;
    let io: Vec<IoResult> = channel.perform_io(read_fds, write_fds, &send, &recv);
    let ghost results = io@;
    let mut replies: Vec<Completion<T>> = channel.apply_io(read_fds, write_fds, io);
    let ghost replied = spec_replied(live, read_fds@, write_fds@, dest, results);
    proof {
        lemma_kept_not_completed(live, read_fds@, write_fds@, dest, results);
        lemma_kept_or_replied(live, read_fds@, write_fds@, dest, results);
        lemma_unfinished_split(before, now);
        if spec_tasks_wf(before) {
            lemma_filter_wf(before, |t: Task<T>| spec_live(t, now));
            lemma_kept_wf(live, read_fds@, write_fds@, dest, results);
        }
    }
    let ghost reported = replies@;
    done.append(&mut replies);
    proof {
        assert forall|j: int| 0 <= j < timed.len() implies spec_is_timeout_of(
            #[trigger] done@[j],
            timed[j],
        ) by {
            assert(done@[j] == timeouts[j]);
        }
        assert forall|j: int| 0 <= j < replied.len() implies spec_is_reply_of(
            #[trigger] done@[timed.len() + j],
            replied[j].0,
            replied[j].1,
        ) by {
            assert(done@[timed.len() + j] == reported[j]);
        }
        assert(spec_step(
            before,
            now,
            read_fds@,
            write_fds@,
            dest,
            results,
            channel.tasks@,
            done@,
        ));
    }
    done
}

/// The tasks that are not finished are those still under way and those that
/// time out.
pub proof fn lemma_unfinished_split<T>(tasks: Seq<Task<T>>, now: u64)
    ensures
        spec_live_tasks(tasks, now).len() + spec_timed_out(tasks, now).len() == spec_unfinished(
            tasks,
        ).len(),
    decreases tasks.len(),
{
    reveal(Seq::filter);
    if tasks.len() > 0 {
        lemma_unfinished_split(tasks.drop_last(), now);
    }
}

} // verus!
