//! Scheme IPC: a synchronous command/reply channel between client threads
//! and a server thread, modelled over an explicit scheduler state.
//!
//! A client enqueues a command and blocks on the scheme; the server drains
//! the queue, then posts replies. A reply lands in the per-thread reply slot
//! only when the target thread is still blocked on the posting scheme,
//! otherwise it is silently dropped and the thread is not woken.

use vstd::prelude::*;

verus! {

/// Identifier value that means "not blocked on any scheme".
pub const SCHEME_ID_SENTINEL: u64 = 0xFFFF_FFFF_FFFF_FFFF;

/// Status of a scheme operation, carried inside a reply.
#[derive(Clone, Copy, PartialEq, Eq, Structural, Debug)]
pub enum Errno {
    /// The operation succeeded.
    Success,
    /// Resource temporarily unavailable.
    Again,
    /// Bad file handle.
    BadFile,
    /// Invalid argument.
    InvalidArgument,
    /// Operation not supported.
    NotSupported,
}

/// Identifier of a thread.
#[derive(Clone, Copy, PartialEq, Eq, Structural, Debug)]
pub struct ThreadId(pub u64);

/// Identifier of a scheme; `sentinel()` means "no scheme".
#[derive(Clone, Copy, PartialEq, Eq, Structural, Debug)]
pub struct SchemeId(pub u64);

impl SchemeId {
    /// The distinguished value stored in `blocked_on` while a thread waits
    /// on no scheme.
    pub fn sentinel() -> (r: SchemeId)
        ensures
            r.0 == SCHEME_ID_SENTINEL,
    {
        SchemeId(SCHEME_ID_SENTINEL)
    }
}

/// An opaque per-scheme file handle value chosen by the scheme owner.
#[derive(Clone, Copy, PartialEq, Eq, Structural, Debug)]
pub struct InnerFileHandle(pub u64);

/// A handle inside a scheme: the scheme's own control channel, or a file
/// opened within it.
#[derive(Clone, Copy, PartialEq, Eq, Structural, Debug)]
pub enum FileHandle {
    /// The scheme control channel itself (server-side endpoint).
    Own,
    /// A regular handle chosen by the scheme owner.
    Inner(InnerFileHandle),
}

/// Reply payload: a status and a value that rides along with it.
#[derive(Clone, Copy, PartialEq, Eq, Structural, Debug)]
pub struct ReplyPayload {
    pub status: Errno,
    pub value: u64,
}

/// Reply payload slot inside the thread control block. On real hardware
/// the writer stores `value` with relaxed ordering before releasing
/// `status`, and readers acquire `status` before reading `value`; this
/// model keeps the functional content of that single-producer /
/// single-consumer pair: a read after a store observes the status together
/// with its value.
#[derive(Clone, Copy)]
pub struct ReplyPayloadTcb {
    status: Errno,
    value: u64,
}

/// Data carried by a command.
#[derive(Clone, Copy, PartialEq, Eq, Structural, Debug)]
pub enum CommandData {
    Open(i32),
    Read(InnerFileHandle),
}

/// A command enqueued by a client thread.
#[derive(Clone, Copy, PartialEq, Eq, Structural, Debug)]
pub struct Command {
    pub thread_id: ThreadId,
    pub payload: CommandData,
}

/// Reply from the server to one blocked thread.
#[derive(Clone, Copy, PartialEq, Eq, Structural, Debug)]
pub struct Reply {
    pub to: ThreadId,
    pub payload: ReplyPayload,
}

impl ReplyPayloadTcb {
    /// The payload currently visible in the slot.
    pub closed spec fn spec_payload(self) -> ReplyPayload {
        ReplyPayload { status: self.status, value: self.value }
    }

    /// The slot as it stands after `store(data)`.
    pub closed spec fn spec_stored(data: ReplyPayload) -> ReplyPayloadTcb {
        ReplyPayloadTcb { status: data.status, value: data.value }
    }

    /// Creates a new reply slot.
    pub fn new() -> (r: ReplyPayloadTcb)
        ensures
            r.spec_payload() == (ReplyPayload { status: Errno::Success, value: 0 }),
    {
        ReplyPayloadTcb { status: Errno::Success, value: 0 }
    }

    /// Stores a new reply: the value first, then the status that publishes
    /// it (a release store on real hardware).
    pub fn store(&mut self, data: ReplyPayload)
        ensures
            *final(self) == ReplyPayloadTcb::spec_stored(data),
            final(self).spec_payload() == data,
    {
        self.value = data.value;
        self.status = data.status;
    }
}

impl ReplyPayload {
    /// Reads a reply out of a thread's slot: the status is acquired first,
    /// then the value that was published before it.
    pub fn from(reply_data_tcb: &ReplyPayloadTcb) -> (r: ReplyPayload)
        ensures
            r == reply_data_tcb.spec_payload(),
    {
        let status = reply_data_tcb.status;
        let value = reply_data_tcb.value;
        ReplyPayload { status, value }
    }
}

/// Release/acquire visibility: a reply read from a slot after a store
/// observes exactly the stored status together with the stored value; the
/// value can never be seen without its status.
pub proof fn lemma_reply_visibility(data: ReplyPayload)
    ensures
        ReplyPayloadTcb::spec_stored(data).spec_payload() == data,
{
}

/// Thread control block, as far as scheme IPC reads it: identity, the
/// scheme the thread is blocked on, whether it may run, and the reply slot.
#[derive(Clone, Copy)]
pub struct Thread {
    id: ThreadId,
    blocked_on: SchemeId,
    runnable: bool,
    pub reply: ReplyPayloadTcb,
}

impl Thread {
    pub closed spec fn spec_id(self) -> ThreadId {
        self.id
    }

    pub closed spec fn spec_blocked_on(self) -> SchemeId {
        self.blocked_on
    }

    pub closed spec fn spec_runnable(self) -> bool {
        self.runnable
    }

    /// The reply slot.
    pub closed spec fn spec_reply(self) -> ReplyPayloadTcb {
        self.reply
    }

    /// Creates a runnable thread blocked on nothing, with an empty slot.
    pub fn new(id: ThreadId) -> (r: Thread)
        ensures
            r.spec_id() == id,
            r.spec_blocked_on().0 == SCHEME_ID_SENTINEL,
            r.spec_runnable(),
            r.spec_reply().spec_payload() == (ReplyPayload { status: Errno::Success, value: 0 }),
    {
        Thread {
            id,
            blocked_on: SchemeId::sentinel(),
            runnable: true,
            reply: ReplyPayloadTcb::new(),
        }
    }

    pub fn id(&self) -> (r: ThreadId)
        ensures
            r == self.spec_id(),
    {
        self.id
    }

    pub fn blocked_on(&self) -> (r: SchemeId)
        ensures
            r == self.spec_blocked_on(),
    {
        self.blocked_on
    }

    pub fn set_blocked_on(&mut self, scheme: SchemeId)
        ensures
            final(self).spec_id() == old(self).spec_id(),
            final(self).spec_blocked_on() == scheme,
            final(self).spec_runnable() == old(self).spec_runnable(),
            final(self).spec_reply() == old(self).spec_reply(),
    {
        self.blocked_on = scheme;
    }

    pub fn is_runnable(&self) -> (r: bool)
        ensures
            r == self.spec_runnable(),
    {
        self.runnable
    }
}

/// A thread as it stands after blocking on `scheme`: off the run queue and
/// waiting for a reply from that scheme.
pub closed spec fn spec_blocked(t: Thread, scheme: SchemeId) -> Thread {
    Thread { blocked_on: scheme, runnable: false, ..t }
}

/// What blocking changes: the scheme waited on and the run-queue state;
/// identity and the reply slot are untouched.
pub proof fn lemma_spec_blocked(t: Thread, scheme: SchemeId)
    ensures
        spec_blocked(t, scheme).spec_id() == t.spec_id(),
        spec_blocked(t, scheme).spec_blocked_on() == scheme,
        !spec_blocked(t, scheme).spec_runnable(),
        spec_blocked(t, scheme).spec_reply() == t.spec_reply(),
{
}

/// A thread as it stands after a reply `p` was delivered and it was woken:
/// back on the run queue with the payload in its slot.
pub closed spec fn spec_delivered(t: Thread, p: ReplyPayload) -> Thread {
    Thread { reply: ReplyPayloadTcb::spec_stored(p), runnable: true, ..t }
}

/// What delivery changes: the reply slot and the run-queue state; identity
/// and `blocked_on` are untouched.
pub proof fn lemma_spec_delivered(t: Thread, p: ReplyPayload)
    ensures
        spec_delivered(t, p).spec_id() == t.spec_id(),
        spec_delivered(t, p).spec_blocked_on() == t.spec_blocked_on(),
        spec_delivered(t, p).spec_runnable(),
        spec_delivered(t, p).spec_reply().spec_payload() == p,
{
}

/// Scheduler state: the thread control blocks, looked up by identifier.
pub struct Scheduler {
    threads: Vec<Thread>,
}

impl Scheduler {
    pub closed spec fn threads_seq(self) -> Seq<Thread> {
        self.threads@
    }

    /// Thread identifiers are unique, so lookups are unambiguous.
    pub open spec fn wf(self) -> bool {
        forall|i: int, j: int|
            0 <= i < j < self.threads_seq().len() ==> (#[trigger] self.threads_seq()[i]).spec_id()
                != (#[trigger] self.threads_seq()[j]).spec_id()
    }

    /// True when a thread with identifier `id` exists.
    pub open spec fn has_thread(self, id: ThreadId) -> bool {
        exists|i: int|
            0 <= i < self.threads_seq().len() && (#[trigger] self.threads_seq()[i]).spec_id() == id
    }

    /// The thread with identifier `id`.
    pub open spec fn spec_thread(self, id: ThreadId) -> Thread {
        self.threads_seq()[choose|i: int|
            0 <= i < self.threads_seq().len() && (#[trigger] self.threads_seq()[i]).spec_id()
                == id]
    }

    pub fn new() -> (r: Scheduler)
        ensures
            r.wf(),
            r.threads_seq().len() == 0,
    {
        Scheduler { threads: Vec::new() }
    }

    /// Registers a thread under a fresh identifier.
    pub fn add_thread(&mut self, t: Thread)
        requires
            old(self).wf(),
            forall|i: int|
                0 <= i < old(self).threads_seq().len() ==> (#[trigger] old(self).threads_seq()[i]).spec_id() != t.spec_id(),
        ensures
            final(self).wf(),
            final(self).threads_seq() == old(self).threads_seq().push(t),
    {
        self.threads.push(t);
    }

    /// Copies the thread with identifier `id` out of the scheduler, for
    /// inspection.
    pub fn get_thread(&self, id: ThreadId) -> (r: Option<Thread>)
        requires
            self.wf(),
        ensures
            r is Some <==> self.has_thread(id),
            r is Some ==> r == Some(self.spec_thread(id)),
    {
        let mut i: usize = 0;
        while i < self.threads.len()
            invariant
                self.wf(),
                0 <= i <= self.threads@.len(),
                forall|j: int| 0 <= j < i ==> (#[trigger] self.threads@[j]).spec_id() != id,
            decreases self.threads@.len() - i,
        {
            if self.threads[i].id() == id {
                proof {
                    assert(self.threads_seq()[i as int].spec_id() == id);
                    let w = choose|w: int|
                        0 <= w < self.threads_seq().len() && (
                        #[trigger] self.threads_seq()[w]).spec_id() == id;
                    assert(w == i as int);
                }
                return Some(self.threads[i]);
            }
            i += 1;
        }
        None
    }

    /// Moves the thread with identifier `id` back to the run queue, so the
    /// scheduler may switch to it; unknown identifiers are ignored.
    pub fn wakeup_and_yield(&mut self, id: ThreadId)
        requires
            old(self).wf(),
        ensures
            final(self).wf(),
            final(self).threads_seq().len() == old(self).threads_seq().len(),
            forall|i: int|
                0 <= i < old(self).threads_seq().len() ==> (#[trigger] final(self).threads_seq()[i]) == (if old(self).threads_seq()[i].spec_id() == id {
                    spec_woken(old(self).threads_seq()[i])
                } else {
                    old(self).threads_seq()[i]
                }),
    {
        let ghost t0 = old(self).threads_seq();
        let mut i: usize = 0;
        while i < self.threads.len()
            invariant
                t0 == old(self).threads_seq(),
                old(self).wf(),
                self.threads@.len() == t0.len(),
                0 <= i <= t0.len(),
                forall|j: int|
                    0 <= j < t0.len() ==> (#[trigger] self.threads@[j]) == (if j < i
                        && t0[j].spec_id() == id {
                        spec_woken(t0[j])
                    } else {
                        t0[j]
                    }),
            decreases t0.len() - i,
        {
            if self.threads[i].id() == id {
                let mut t = self.threads[i];
                t.runnable = true;
                self.threads.set(i, t);
            }
            i += 1;
        }
        proof {
            assert forall|i: int, j: int|
                0 <= i < j < self.threads_seq().len() implies (
            #[trigger] self.threads_seq()[i]).spec_id() != (
            #[trigger] self.threads_seq()[j]).spec_id() by {
                assert(t0[i].spec_id() != t0[j].spec_id());
            }
        }
    }
}

/// A thread as it stands after being woken: back on the run queue, all else
/// unchanged.
pub closed spec fn spec_woken(t: Thread) -> Thread {
    Thread { runnable: true, ..t }
}

/// Waking only puts the thread back on the run queue.
pub proof fn lemma_spec_woken(t: Thread)
    ensures
        spec_woken(t).spec_id() == t.spec_id(),
        spec_woken(t).spec_blocked_on() == t.spec_blocked_on(),
        spec_woken(t).spec_runnable(),
        spec_woken(t).spec_reply() == t.spec_reply(),
{
}

pub struct Scheme {
    /// Identifier: needed for `blocked_on` in the thread control block.
    id: SchemeId,
    /// Command queue, drained by the server thread.
    command_queue: Vec<Command>,
}

impl Scheme {
    pub closed spec fn spec_id(self) -> SchemeId {
        self.id
    }

    /// The pending commands, oldest first.
    pub closed spec fn queue(self) -> Seq<Command> {
        self.command_queue@
    }

    /// A real scheme never uses the sentinel identifier.
    pub open spec fn wf(self) -> bool {
        self.spec_id().0 != SCHEME_ID_SENTINEL
    }

    /// Creates a new scheme with an empty command queue.
    pub fn new(id: SchemeId) -> (r: Scheme)
        requires
            id.0 != SCHEME_ID_SENTINEL,
        ensures
            r.wf(),
            r.spec_id() == id,
            r.queue().len() == 0,
    {
        Scheme { id, command_queue: Vec::new() }
    }

    /// Sends a blocking ipc message to the scheme, executed by the thread
    /// `current`: the thread marks itself blocked on this scheme, enqueues
    /// the command, and leaves the run queue until a matching reply arrives.
    /// `complete_command_blocking` is its continuation after the wakeup.
    pub fn send_command_blocking(
        &mut self,
        sched: &mut Scheduler,
        current: ThreadId,
        payload: CommandData,
    )
        requires
            old(self).wf(),
            old(sched).wf(),
            old(sched).has_thread(current),
            old(sched).spec_thread(current).spec_runnable(),
            old(sched).spec_thread(current).spec_blocked_on().0 == SCHEME_ID_SENTINEL,
        ensures
            final(self).wf(),
            final(sched).wf(),
            final(self).spec_id() == old(self).spec_id(),
            final(self).queue() == old(self).queue().push(
                Command { thread_id: current, payload },
            ),
            final(sched).threads_seq().len() == old(sched).threads_seq().len(),
            forall|i: int|
                0 <= i < old(sched).threads_seq().len() ==> (#[trigger] final(sched).threads_seq()[i]) == (if old(sched).threads_seq()[i].spec_id() == current {
                    spec_blocked(old(sched).threads_seq()[i], old(self).spec_id())
                } else {
                    old(sched).threads_seq()[i]
                }),
    {
        let ghost t0 = old(sched).threads_seq();
        let mut i: usize = 0;
        while i < sched.threads.len()
            invariant
                t0 == old(sched).threads_seq(),
                old(sched).wf(),
                self == old(self),
                sched.threads@.len() == t0.len(),
                0 <= i <= t0.len(),
                forall|j: int|
                    0 <= j < t0.len() ==> (#[trigger] sched.threads@[j]) == (if j < i
                        && t0[j].spec_id() == current {
                        spec_blocked(t0[j], self.spec_id())
                    } else {
                        t0[j]
                    }),
            decreases t0.len() - i,
        {
            if sched.threads[i].id() == current {
                let mut t = sched.threads[i];
                t.blocked_on = self.id;
                t.runnable = false;
                sched.threads.set(i, t);
            }
            i += 1;
        }
        self.command_queue.push(Command { thread_id: current, payload });
        proof {
            assert forall|p: int, q: int|
                0 <= p < q < sched.threads_seq().len() implies (
            #[trigger] sched.threads_seq()[p]).spec_id() != (
            #[trigger] sched.threads_seq()[q]).spec_id() by {
                assert(t0[p].spec_id() != t0[q].spec_id());
            }
        }
    }

    /// Opens a file inside the scheme: the blocking `Open` command of the
    /// client protocol. The reply, once the thread resumes, goes through
    /// `open_result`.
    pub fn open(&mut self, sched: &mut Scheduler, current: ThreadId)
        requires
            old(self).wf(),
            old(sched).wf(),
            old(sched).has_thread(current),
            old(sched).spec_thread(current).spec_runnable(),
            old(sched).spec_thread(current).spec_blocked_on().0 == SCHEME_ID_SENTINEL,
        ensures
            final(self).wf(),
            final(sched).wf(),
            final(self).spec_id() == old(self).spec_id(),
            final(self).queue() == old(self).queue().push(
                Command { thread_id: current, payload: CommandData::Open(313123) },
            ),
            final(sched).threads_seq().len() == old(sched).threads_seq().len(),
            forall|i: int|
                0 <= i < old(sched).threads_seq().len() ==> (#[trigger] final(sched).threads_seq()[i]) == (if old(sched).threads_seq()[i].spec_id() == current {
                    spec_blocked(old(sched).threads_seq()[i], old(self).spec_id())
                } else {
                    old(sched).threads_seq()[i]
                }),
    {
        self.send_command_blocking(sched, current, CommandData::Open(313123))
    }

    /// Turns the reply of an `Open` command into the client's result: on
    /// `Success` the opened handle, otherwise the error as such.
    pub fn open_result(reply: ReplyPayload) -> (r: Result<FileHandle, Errno>)
        ensures
            reply.status == Errno::Success ==> r == Ok::<FileHandle, Errno>(
                FileHandle::Inner(InnerFileHandle(reply.value)),
            ),
            reply.status != Errno::Success ==> r == Err::<FileHandle, Errno>(reply.status),
    {
        match reply.status {
            Errno::Success => Ok(FileHandle::Inner(InnerFileHandle(reply.value))),
            e => Err(e),
        }
    }

    /// Delivers one reply: under the scheduler lock the receiver is looked
    /// up and, only if it is still blocked on this scheme, the payload is
    /// stored in its slot; a stale reply is silently dropped. The wakeup
    /// happens after the lock is released, and only on success.
    pub fn send_reply(&self, sched: &mut Scheduler, reply: Reply)
        requires
            old(sched).wf(),
        ensures
            final(sched).wf(),
            final(sched).threads_seq().len() == old(sched).threads_seq().len(),
            forall|i: int|
                0 <= i < old(sched).threads_seq().len() ==> (#[trigger] final(sched).threads_seq()[i]) == spec_deliver_target(
                    old(sched).threads_seq()[i],
                    self.spec_id(),
                    reply,
                ),
    {
        let ghost t0 = old(sched).threads_seq();
        let mut success = false;
        let mut i: usize = 0;
        while i < sched.threads.len()
            invariant
                t0 == old(sched).threads_seq(),
                old(sched).wf(),
                sched.threads@.len() == t0.len(),
                0 <= i <= t0.len(),
                success <==> exists|j: int|
                    0 <= j < i && (#[trigger] t0[j]).spec_id() == reply.to
                        && t0[j].spec_blocked_on() == self.spec_id(),
                forall|j: int|
                    0 <= j < t0.len() ==> (#[trigger] sched.threads@[j]) == (if j < i
                        && t0[j].spec_id() == reply.to && t0[j].spec_blocked_on()
                        == self.spec_id() {
                        spec_slot_written(t0[j], reply.payload)
                    } else {
                        t0[j]
                    }),
            decreases t0.len() - i,
        {
            if sched.threads[i].id() == reply.to {
                if sched.threads[i].blocked_on() == self.id {
                    let mut t = sched.threads[i];
                    t.reply.store(reply.payload);
                    sched.threads.set(i, t);
                    success = true;
                    proof {
                        assert((#[trigger] t0[i as int]).spec_id() == reply.to && t0[
                            i as int].spec_blocked_on() == self.spec_id());
                    }
                }
            }
            i += 1;
        }
        let ghost t1 = sched.threads@;
        proof {
            assert forall|p: int, q: int|
                0 <= p < q < sched.threads@.len() implies (
            #[trigger] sched.threads@[p]).spec_id() != (#[trigger] sched.threads@[q]).spec_id() by {
                assert(t0[p].spec_id() != t0[q].spec_id());
            }
        }
        // The wakeup must happen outside the scheduler lock, and only when
        // the reply was actually stored.
        if success {
            sched.wakeup_and_yield(reply.to);
        }
        proof {
            assert forall|i: int|
                0 <= i < t0.len() implies (#[trigger] sched.threads@[i]) == spec_deliver_target(
                t0[i],
                self.spec_id(),
                reply,
            ) by {
                if success {
                    assert(sched.threads@[i] == (if t1[i].spec_id() == reply.to {
                        spec_woken(t1[i])
                    } else {
                        t1[i]
                    }));
                }
            }
        }
    }

    /// Dispatches every reply in the buffer through `send_reply`. By
    /// design it always reports zero bytes consumed, whatever was sent.
    pub fn send_replies(&self, sched: &mut Scheduler, replies: &Vec<Reply>) -> (r: Result<
        usize,
        Errno,
    >)
        requires
            old(sched).wf(),
        ensures
            final(sched).wf(),
            r == Ok::<usize, Errno>(0),
            final(sched).threads_seq() == spec_deliver_all(
                old(sched).threads_seq(),
                self.spec_id(),
                replies@,
            ),
    {
        let ghost t0 = old(sched).threads_seq();
        let mut k: usize = 0;
        while k < replies.len()
            invariant
                t0 == old(sched).threads_seq(),
                0 <= k <= replies@.len(),
                sched.wf(),
                sched.threads_seq() == spec_deliver_all(
                    t0,
                    self.spec_id(),
                    replies@.take(k as int),
                ),
            decreases replies@.len() - k,
        {
            let ghost before = sched.threads_seq();
            self.send_reply(sched, replies[k]);
            proof {
                assert(sched.threads_seq() =~= spec_deliver_one(
                    before,
                    self.spec_id(),
                    replies@[k as int],
                ));
                assert(replies@.take(k + 1) =~= replies@.take(k as int).push(
                    replies@[k as int],
                ));
                lemma_deliver_all_snoc(t0, self.spec_id(), replies@.take(k as int), replies@[
                    k as int]);
            }
            k += 1;
        }
        proof {
            assert(replies@.take(replies@.len() as int) =~= replies@);
        }
        Ok(0)
    }

    /// Server-side batch dequeue: drains up to `max` pending commands into
    /// the caller's buffer, oldest first, and returns how many. The wait
    /// queue blocks the server while the queue is empty, so a command must
    /// be pending.
    pub fn receive_commands_blocking(&mut self, buffer: &mut Vec<Command>, max: usize) -> (r:
        Result<usize, Errno>)
        requires
            old(self).queue().len() > 0,
        ensures
            final(self).spec_id() == old(self).spec_id(),
            r == Ok::<usize, Errno>(
                (if max as int <= old(self).queue().len() {
                    max as int
                } else {
                    old(self).queue().len() as int
                }) as usize,
            ),
            final(buffer)@ == old(self).queue().take(
                if max as int <= old(self).queue().len() {
                    max as int
                } else {
                    old(self).queue().len() as int
                },
            ),
            final(self).queue() == old(self).queue().skip(
                if max as int <= old(self).queue().len() {
                    max as int
                } else {
                    old(self).queue().len() as int
                },
            ),
    {
        let ghost q0 = old(self).queue();
        let count = if max <= self.command_queue.len() {
            max
        } else {
            self.command_queue.len()
        };
        buffer.clear();
        proof {
            assert(self.command_queue@ =~= q0.skip(0));
            assert(buffer@ =~= q0.take(0));
        }
        let mut k: usize = 0;
        while k < count
            invariant
                q0 == old(self).queue(),
                self.id == old(self).spec_id(),
                0 <= k <= count,
                count <= q0.len(),
                self.command_queue@ == q0.skip(k as int),
                buffer@ == q0.take(k as int),
            decreases count - k,
        {
            let c = self.command_queue.remove(0);
            buffer.push(c);
            proof {
                assert(q0.skip(k as int).remove(0) =~= q0.skip(k + 1));
                assert(q0.skip(k as int)[0] == q0[k as int]);
                assert(q0.take(k as int).push(q0[k as int]) =~= q0.take(k + 1));
            }
            k += 1;
        }
        Ok(count)
    }

    /// Client-side dispatch on a handle: reading the scheme's own control
    /// channel drains pending commands; reading a regular handle sends a
    /// blocking `Read` command and awaits the reply.
    pub fn read(
        &mut self,
        sched: &mut Scheduler,
        current: ThreadId,
        handle: FileHandle,
        buffer: &mut Vec<Command>,
        max: usize,
    ) -> (r: Result<ReadOutcome, Errno>)
        requires
            old(self).wf(),
            old(sched).wf(),
            handle == FileHandle::Own ==> old(self).queue().len() > 0,
            handle != FileHandle::Own ==> {
                &&& old(sched).has_thread(current)
                &&& old(sched).spec_thread(current).spec_runnable()
                &&& old(sched).spec_thread(current).spec_blocked_on().0 == SCHEME_ID_SENTINEL
            },
        ensures
            final(self).wf(),
            final(sched).wf(),
            final(self).spec_id() == old(self).spec_id(),
            handle == FileHandle::Own ==> {
                &&& *final(sched) == *old(sched)
                &&& r == Ok::<ReadOutcome, Errno>(
                    ReadOutcome::Commands(
                        (if max as int <= old(self).queue().len() {
                            max as int
                        } else {
                            old(self).queue().len() as int
                        }) as usize,
                    ),
                )
                &&& final(buffer)@ == old(self).queue().take(
                    if max as int <= old(self).queue().len() {
                        max as int
                    } else {
                        old(self).queue().len() as int
                    },
                )
                &&& final(self).queue() == old(self).queue().skip(
                    if max as int <= old(self).queue().len() {
                        max as int
                    } else {
                        old(self).queue().len() as int
                    },
                )
            },
            match handle {
                FileHandle::Own => true,
                FileHandle::Inner(h) => {
                    &&& r == Ok::<ReadOutcome, Errno>(ReadOutcome::AwaitingReply)
                    &&& final(buffer)@ == old(buffer)@
                    &&& final(self).queue() == old(self).queue().push(
                        Command { thread_id: current, payload: CommandData::Read(h) },
                    )
                    &&& forall|i: int|
                        0 <= i < old(sched).threads_seq().len() ==> (#[trigger] final(sched).threads_seq()[i]) == (if old(sched).threads_seq()[i].spec_id()
                            == current {
                            spec_blocked(old(sched).threads_seq()[i], old(self).spec_id())
                        } else {
                            old(sched).threads_seq()[i]
                        })
                },
            },
    {
        match handle {
            FileHandle::Own => {
                match self.receive_commands_blocking(buffer, max) {
                    Ok(n) => Ok(ReadOutcome::Commands(n)),
                    Err(e) => Err(e),
                }
            },
            FileHandle::Inner(h) => self.regular_read(sched, current, h),
        }
    }

    /// Sends the blocking `Read` command of the client protocol; the reply
    /// value, once the thread resumes, goes through `regular_read_result`.
    pub fn regular_read(
        &mut self,
        sched: &mut Scheduler,
        current: ThreadId,
        handle: InnerFileHandle,
    ) -> (r: Result<ReadOutcome, Errno>)
        requires
            old(self).wf(),
            old(sched).wf(),
            old(sched).has_thread(current),
            old(sched).spec_thread(current).spec_runnable(),
            old(sched).spec_thread(current).spec_blocked_on().0 == SCHEME_ID_SENTINEL,
        ensures
            final(self).wf(),
            final(sched).wf(),
            final(self).spec_id() == old(self).spec_id(),
            r == Ok::<ReadOutcome, Errno>(ReadOutcome::AwaitingReply),
            final(self).queue() == old(self).queue().push(
                Command { thread_id: current, payload: CommandData::Read(handle) },
            ),
            final(sched).threads_seq().len() == old(sched).threads_seq().len(),
            forall|i: int|
                0 <= i < old(sched).threads_seq().len() ==> (#[trigger] final(sched).threads_seq()[i]) == (if old(sched).threads_seq()[i].spec_id() == current {
                    spec_blocked(old(sched).threads_seq()[i], old(self).spec_id())
                } else {
                    old(sched).threads_seq()[i]
                }),
    {
        self.send_command_blocking(sched, current, CommandData::Read(handle));
        Ok(ReadOutcome::AwaitingReply)
    }

    /// The client's result of a regular read, taken from the reply value.
    pub fn regular_read_result(reply: ReplyPayload) -> (r: usize)
        ensures
            r == reply.value as usize,
    {
        #[verifier::truncate]
        (reply.value as usize)
    }

    /// Client-side dispatch on a handle: writing to the scheme's own
    /// control channel posts replies; writing to a regular handle is the
    /// reserved data path.
    pub fn write(
        &self,
        sched: &mut Scheduler,
        handle: FileHandle,
        replies: &Vec<Reply>,
        data: &Vec<u8>,
    ) -> (r: Result<usize, Errno>)
        requires
            old(sched).wf(),
        ensures
            final(sched).wf(),
            r == Ok::<usize, Errno>(0),
            handle == FileHandle::Own ==> final(sched).threads_seq() == spec_deliver_all(
                old(sched).threads_seq(),
                self.spec_id(),
                replies@,
            ),
            handle != FileHandle::Own ==> *final(sched) == *old(sched),
    {
        match handle {
            FileHandle::Own => self.send_replies(sched, replies),
            FileHandle::Inner(handle) => self.regular_write(handle, data),
        }
    }

    /// Regular data write: reserved, not yet given any behaviour; reports
    /// zero bytes consumed.
    pub fn regular_write(&self, handle: InnerFileHandle, buffer: &Vec<u8>) -> (r: Result<
        usize,
        Errno,
    >)
        ensures
            r == Ok::<usize, Errno>(0),
    {
        Ok(0)
    }
}

/// What the server sees of one command batch read.
#[derive(Clone, Copy, PartialEq, Eq, Structural, Debug)]
pub enum ReadOutcome {
    /// This many commands were drained into the buffer.
    Commands(usize),
    /// A blocking command went out; the reply arrives in the thread's slot.
    AwaitingReply,
}

/// A thread with only its reply slot overwritten, before the wakeup.
spec fn spec_slot_written(t: Thread, p: ReplyPayload) -> Thread {
    Thread { reply: ReplyPayloadTcb::spec_stored(p), ..t }
}

/// How one reply transforms one thread: the payload lands in the slot and
/// the thread is woken exactly when the thread is the reply's target and is
/// still blocked on the posting scheme; every other thread is untouched.
pub open spec fn spec_deliver_target(t: Thread, scheme: SchemeId, reply: Reply) -> Thread {
    if t.spec_id() == reply.to && t.spec_blocked_on() == scheme {
        spec_delivered(t, reply.payload)
    } else {
        t
    }
}

/// Reply exclusivity: delivering a reply touches a thread's slot, or wakes
/// it, only when that thread is the reply's target and is currently blocked
/// on the scheme that produced the reply; any other thread is left exactly
/// as it was.
pub proof fn lemma_reply_exclusivity(t: Thread, scheme: SchemeId, reply: Reply)
    ensures
        spec_deliver_target(t, scheme, reply) != t ==> (t.spec_id() == reply.to
            && t.spec_blocked_on() == scheme),
        !(t.spec_id() == reply.to && t.spec_blocked_on() == scheme) ==> spec_deliver_target(
            t,
            scheme,
            reply,
        ) == t,
{
}

/// One reply applied to every thread of the scheduler.
pub open spec fn spec_deliver_one(threads: Seq<Thread>, scheme: SchemeId, reply: Reply) -> Seq<
    Thread,
> {
    threads.map_values(|t: Thread| spec_deliver_target(t, scheme, reply))
}

/// A batch of replies applied in order.
pub open spec fn spec_deliver_all(threads: Seq<Thread>, scheme: SchemeId, rs: Seq<Reply>) -> Seq<
    Thread,
>
    decreases rs.len(),
{
    if rs.len() == 0 {
        threads
    } else {
        spec_deliver_all(spec_deliver_one(threads, scheme, rs[0]), scheme, rs.skip(1))
    }
}

proof fn lemma_deliver_all_snoc(threads: Seq<Thread>, scheme: SchemeId, rs: Seq<Reply>, r: Reply)
    ensures
        spec_deliver_all(threads, scheme, rs.push(r)) == spec_deliver_one(
            spec_deliver_all(threads, scheme, rs),
            scheme,
            r,
        ),
    decreases rs.len(),
{
    if rs.len() == 0 {
        assert(rs.push(r).skip(1) =~= Seq::<Reply>::empty());
        assert(rs.push(r)[0] == r);
        assert(spec_deliver_all(threads, scheme, rs.push(r)) == spec_deliver_all(
            spec_deliver_one(threads, scheme, r),
            scheme,
            Seq::<Reply>::empty(),
        ));
        assert(spec_deliver_all(threads, scheme, rs) == threads);
    } else {
        assert(rs.push(r).skip(1) =~= rs.skip(1).push(r));
        assert(rs.push(r)[0] == rs[0]);
        assert(spec_deliver_all(threads, scheme, rs.push(r)) == spec_deliver_all(
            spec_deliver_one(threads, scheme, rs[0]),
            scheme,
            rs.skip(1).push(r),
        ));
        lemma_deliver_all_snoc(spec_deliver_one(threads, scheme, rs[0]), scheme, rs.skip(1), r);
        assert(spec_deliver_all(threads, scheme, rs) == spec_deliver_all(
            spec_deliver_one(threads, scheme, rs[0]),
            scheme,
            rs.skip(1),
        ));
    }
}

/// Completes `send_command_blocking` on the resumed thread `current`: the
/// thread clears `blocked_on` and reads the reply out of its slot.
pub fn complete_command_blocking(sched: &mut Scheduler, current: ThreadId) -> (r: ReplyPayload)
    requires
        old(sched).wf(),
        old(sched).has_thread(current),
        old(sched).spec_thread(current).spec_runnable(),
    ensures
        final(sched).wf(),
        r == old(sched).spec_thread(current).spec_reply().spec_payload(),
        final(sched).threads_seq().len() == old(sched).threads_seq().len(),
        forall|i: int|
            0 <= i < old(sched).threads_seq().len() ==> (#[trigger] final(sched).threads_seq()[i]) == (if old(sched).threads_seq()[i].spec_id() == current {
                spec_resumed(old(sched).threads_seq()[i])
            } else {
                old(sched).threads_seq()[i]
            }),
{
    let ghost t0 = old(sched).threads_seq();
    let mut i: usize = 0;
    let mut result = ReplyPayload { status: Errno::Success, value: 0 };
    let mut found = false;
    while i < sched.threads.len()
        invariant
            t0 == old(sched).threads_seq(),
            old(sched).wf(),
            old(sched).has_thread(current),
            sched.threads@.len() == t0.len(),
            0 <= i <= t0.len(),
            found <==> exists|j: int| 0 <= j < i && (#[trigger] t0[j]).spec_id() == current,
            found ==> result == old(sched).spec_thread(current).spec_reply().spec_payload(),
            forall|j: int|
                0 <= j < t0.len() ==> (#[trigger] sched.threads@[j]) == (if j < i
                    && t0[j].spec_id() == current {
                    spec_resumed(t0[j])
                } else {
                    t0[j]
                }),
        decreases t0.len() - i,
    {
        if sched.threads[i].id() == current {
            let mut t = sched.threads[i];
            t.blocked_on = SchemeId::sentinel();
            result = ReplyPayload::from(&t.reply);
            sched.threads.set(i, t);
            found = true;
            proof {
                assert((#[trigger] t0[i as int]).spec_id() == current);
                let w = choose|w: int| 0 <= w < t0.len() && (#[trigger] t0[w]).spec_id() == current;
                assert(w == i as int);
            }
        }
        i += 1;
    }
    proof {
        let w = choose|w: int| 0 <= w < t0.len() && (#[trigger] t0[w]).spec_id() == current;
        assert(found);
        assert forall|p: int, q: int|
            0 <= p < q < sched.threads@.len() implies (
        #[trigger] sched.threads@[p]).spec_id() != (#[trigger] sched.threads@[q]).spec_id() by {
            assert(t0[p].spec_id() != t0[q].spec_id());
        }
    }
    result
}

/// A thread as it stands after resuming from a blocking send: no longer
/// blocked on any scheme.
pub closed spec fn spec_resumed(t: Thread) -> Thread {
    Thread { blocked_on: SchemeId(SCHEME_ID_SENTINEL), ..t }
}

/// Resuming only clears the scheme the thread was blocked on.
pub proof fn lemma_spec_resumed(t: Thread)
    ensures
        spec_resumed(t).spec_id() == t.spec_id(),
        spec_resumed(t).spec_blocked_on().0 == SCHEME_ID_SENTINEL,
        spec_resumed(t).spec_runnable() == t.spec_runnable(),
        spec_resumed(t).spec_reply() == t.spec_reply(),
{
}

} // verus!
