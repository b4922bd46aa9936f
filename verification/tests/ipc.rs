use kernel_core::scheme::{
    complete_command_blocking, Command, CommandData, Errno, FileHandle, InnerFileHandle,
    ReadOutcome, Reply, ReplyPayload, ReplyPayloadTcb, Scheduler, Scheme, SchemeId, Thread,
    ThreadId,
};

fn client() -> ThreadId {
    ThreadId(1)
}

fn server() -> ThreadId {
    ThreadId(2)
}

fn world() -> (Scheduler, Scheme) {
    let mut sched = Scheduler::new();
    sched.add_thread(Thread::new(client()));
    sched.add_thread(Thread::new(server()));
    (sched, Scheme::new(SchemeId(5)))
}

#[test]
fn reply_slot_round_trip() {
    let mut slot = ReplyPayloadTcb::new();
    let p = ReplyPayload::from(&slot);
    assert_eq!(p.status, Errno::Success);
    assert_eq!(p.value, 0);
    slot.store(ReplyPayload { status: Errno::BadFile, value: 123 });
    let p = ReplyPayload::from(&slot);
    assert_eq!(p.status, Errno::BadFile);
    assert_eq!(p.value, 123);
}

#[test]
fn send_command_blocks_the_caller() {
    let (mut sched, mut scheme) = world();
    scheme.send_command_blocking(&mut sched, client(), CommandData::Open(313123));
    let t = sched.get_thread(client()).unwrap();
    assert!(!t.is_runnable());
    assert_eq!(t.blocked_on(), SchemeId(5));
    let s = sched.get_thread(server()).unwrap();
    assert!(s.is_runnable());
    assert_eq!(s.blocked_on(), SchemeId::sentinel());
}

#[test]
fn open_round_trip_delivers_the_handle() {
    let (mut sched, mut scheme) = world();
    // client: open() enqueues the Open command and blocks
    scheme.open(&mut sched, client());
    assert!(!sched.get_thread(client()).unwrap().is_runnable());
    // server: drains exactly one command
    let mut buf: Vec<Command> = Vec::new();
    let n = scheme.receive_commands_blocking(&mut buf, 16).unwrap();
    assert_eq!(n, 1);
    assert_eq!(buf.len(), 1);
    assert_eq!(buf[0], Command { thread_id: client(), payload: CommandData::Open(313123) });
    // server: posts the reply; the client is woken
    scheme.send_reply(
        &mut sched,
        Reply { to: client(), payload: ReplyPayload { status: Errno::Success, value: 7 } },
    );
    assert!(sched.get_thread(client()).unwrap().is_runnable());
    // client: resumes and observes the handle
    let reply = complete_command_blocking(&mut sched, client());
    assert_eq!(reply.status, Errno::Success);
    assert_eq!(reply.value, 7);
    assert_eq!(sched.get_thread(client()).unwrap().blocked_on(), SchemeId::sentinel());
    assert_eq!(Scheme::open_result(reply), Ok(FileHandle::Inner(InnerFileHandle(7))));
}

#[test]
fn open_result_surfaces_errors() {
    let reply = ReplyPayload { status: Errno::BadFile, value: 0 };
    assert_eq!(Scheme::open_result(reply), Err(Errno::BadFile));
}

#[test]
fn stale_reply_is_dropped_and_thread_not_woken() {
    let mut sched = Scheduler::new();
    sched.add_thread(Thread::new(client()));
    let mut scheme_a = Scheme::new(SchemeId(5));
    let scheme_b = Scheme::new(SchemeId(6));
    scheme_a.send_command_blocking(&mut sched, client(), CommandData::Open(1));
    // a reply from the wrong scheme is silently discarded
    scheme_b.send_reply(
        &mut sched,
        Reply { to: client(), payload: ReplyPayload { status: Errno::BadFile, value: 99 } },
    );
    let t = sched.get_thread(client()).unwrap();
    assert!(!t.is_runnable());
    assert_eq!(t.blocked_on(), SchemeId(5));
    let slot = ReplyPayload::from(&t.reply);
    assert_eq!(slot.status, Errno::Success);
    assert_eq!(slot.value, 0);
}

#[test]
fn reply_to_unblocked_thread_is_dropped() {
    let (mut sched, scheme) = world();
    // the client never blocked: its blocked_on is the sentinel
    scheme.send_reply(
        &mut sched,
        Reply { to: client(), payload: ReplyPayload { status: Errno::Again, value: 3 } },
    );
    let t = sched.get_thread(client()).unwrap();
    let slot = ReplyPayload::from(&t.reply);
    assert_eq!(slot.status, Errno::Success);
    assert_eq!(slot.value, 0);
}

#[test]
fn send_replies_dispatches_each_and_returns_zero() {
    let mut sched = Scheduler::new();
    sched.add_thread(Thread::new(ThreadId(1)));
    sched.add_thread(Thread::new(ThreadId(2)));
    let mut scheme = Scheme::new(SchemeId(9));
    scheme.send_command_blocking(&mut sched, ThreadId(1), CommandData::Open(1));
    scheme.send_command_blocking(&mut sched, ThreadId(2), CommandData::Read(InnerFileHandle(4)));
    let replies = vec![
        Reply { to: ThreadId(1), payload: ReplyPayload { status: Errno::Success, value: 10 } },
        Reply { to: ThreadId(2), payload: ReplyPayload { status: Errno::Success, value: 20 } },
    ];
    let r = scheme.send_replies(&mut sched, &replies).unwrap();
    assert_eq!(r, 0);
    assert!(sched.get_thread(ThreadId(1)).unwrap().is_runnable());
    assert!(sched.get_thread(ThreadId(2)).unwrap().is_runnable());
    assert_eq!(complete_command_blocking(&mut sched, ThreadId(1)).value, 10);
    assert_eq!(complete_command_blocking(&mut sched, ThreadId(2)).value, 20);
}

#[test]
fn read_own_drains_commands() {
    let (mut sched, mut scheme) = world();
    scheme.send_command_blocking(&mut sched, client(), CommandData::Open(313123));
    let mut buf: Vec<Command> = Vec::new();
    let r = scheme.read(&mut sched, server(), FileHandle::Own, &mut buf, 8).unwrap();
    assert_eq!(r, ReadOutcome::Commands(1));
    assert_eq!(buf[0].thread_id, client());
}

#[test]
fn read_inner_sends_a_blocking_read() {
    let (mut sched, mut scheme) = world();
    let mut buf: Vec<Command> = Vec::new();
    let handle = FileHandle::Inner(InnerFileHandle(11));
    let r = scheme.read(&mut sched, client(), handle, &mut buf, 8).unwrap();
    assert_eq!(r, ReadOutcome::AwaitingReply);
    assert!(!sched.get_thread(client()).unwrap().is_runnable());
    // the server sees the Read command for the handle
    let mut commands: Vec<Command> = Vec::new();
    scheme.receive_commands_blocking(&mut commands, 8).unwrap();
    assert_eq!(
        commands[0],
        Command { thread_id: client(), payload: CommandData::Read(InnerFileHandle(11)) }
    );
    // and the reply value becomes the read result
    let reply = ReplyPayload { status: Errno::Success, value: 17 };
    assert_eq!(Scheme::regular_read_result(reply), 17);
}

#[test]
fn write_own_posts_replies_and_write_inner_is_reserved() {
    let (mut sched, mut scheme) = world();
    scheme.send_command_blocking(&mut sched, client(), CommandData::Open(1));
    let replies =
        vec![Reply { to: client(), payload: ReplyPayload { status: Errno::Success, value: 5 } }];
    let data: Vec<u8> = Vec::new();
    let r = scheme.write(&mut sched, FileHandle::Own, &replies, &data).unwrap();
    assert_eq!(r, 0);
    assert!(sched.get_thread(client()).unwrap().is_runnable());
    // the regular write path is reserved and consumes nothing
    let r = scheme
        .write(&mut sched, FileHandle::Inner(InnerFileHandle(2)), &replies, &data)
        .unwrap();
    assert_eq!(r, 0);
    assert_eq!(scheme.regular_write(InnerFileHandle(2), &data), Ok(0));
}

#[test]
fn receive_respects_the_buffer_capacity() {
    let mut sched = Scheduler::new();
    sched.add_thread(Thread::new(ThreadId(1)));
    sched.add_thread(Thread::new(ThreadId(2)));
    sched.add_thread(Thread::new(ThreadId(3)));
    let mut scheme = Scheme::new(SchemeId(9));
    scheme.send_command_blocking(&mut sched, ThreadId(1), CommandData::Open(1));
    scheme.send_command_blocking(&mut sched, ThreadId(2), CommandData::Open(2));
    scheme.send_command_blocking(&mut sched, ThreadId(3), CommandData::Open(3));
    let mut buf: Vec<Command> = Vec::new();
    let n = scheme.receive_commands_blocking(&mut buf, 2).unwrap();
    assert_eq!(n, 2);
    assert_eq!(buf[0].thread_id, ThreadId(1));
    assert_eq!(buf[1].thread_id, ThreadId(2));
    // the remaining command is still queued
    let n = scheme.receive_commands_blocking(&mut buf, 2).unwrap();
    assert_eq!(n, 1);
    assert_eq!(buf[0].thread_id, ThreadId(3));
}
