//! Forwarding: what to do with each thing that happens on a one-way flow of
//! bytes. Whoever reads and writes asks here what comes next.

use vstd::prelude::*;

use crate::config::FORWARD_BUF_SIZE;

verus! {

/// Where the bytes come from and where they go.
#[derive(Clone, Copy, Debug, PartialEq, Eq, Structural)]
pub enum Flow {
    QuicToTcp,
    TcpToQuic,
    QuicToStdout,
    StdinToQuic,
}

/// What a flow is waiting for.
#[derive(Clone, Copy, Debug, PartialEq, Eq, Structural)]
pub enum FlowState {
    /// For a read into the buffer.
    Reading,
    /// For the first `len` bytes of the buffer to be written.
    Writing { len: usize },
    /// For the far side to be told that no more comes.
    Closing,
    /// For nothing: it is over, and went well or not.
    Ended { ok: bool },
}

/// What happened on a flow.
#[derive(Clone, Copy, Debug, PartialEq, Eq, Structural)]
pub enum FlowEvent {
    /// A read brought this many bytes, or found the stream closed.
    Read { got: Option<usize> },
    ReadFailed,
    Written,
    WriteFailed,
    Closed,
    CloseFailed,
}

/// What to do next.
#[derive(Clone, Copy, Debug, PartialEq, Eq, Structural)]
pub enum FlowAction {
    /// Read into the buffer.
    Read,
    /// Write the first `len` bytes of the buffer.
    Write { len: usize },
    /// Shut down the writing half of the TCP stream.
    ShutdownWrite,
    /// Finish the sending QUIC stream.
    FinishSend,
    /// Nothing more; report that it went well, or the error that came last.
    Stop { ok: bool },
}

/// Whether a read tells that there is no more. A QUIC stream says so; of the
/// other sources, a read of nothing does.
pub open spec fn at_end(flow: Flow, got: Option<usize>) -> bool {
    match got {
        None => true,
        Some(n) => (flow is TcpToQuic || flow is StdinToQuic) && n == 0,
    }
}

/// Whether an event is one that a flow is waiting for.
pub open spec fn awaits(state: FlowState, event: FlowEvent) -> bool {
    match state {
        FlowState::Reading => match event {
            FlowEvent::Read { got } => got matches Some(n) ==> n <= FORWARD_BUF_SIZE,
            FlowEvent::ReadFailed => true,
            _ => false,
        },
        FlowState::Writing { .. } => event is Written || event is WriteFailed,
        FlowState::Closing => event is Closed || event is CloseFailed,
        FlowState::Ended { .. } => false,
    }
}

/// The state of a flow after an event that it was waiting for.
pub open spec fn flow_after(flow: Flow, state: FlowState, event: FlowEvent) -> FlowState {
    match event {
        FlowEvent::Read { got } => if !at_end(flow, got) {
            FlowState::Writing { len: got->0 }
        } else if flow is QuicToStdout {
            FlowState::Ended { ok: true }
        } else {
            FlowState::Closing
        },
        FlowEvent::Written => FlowState::Reading,
        FlowEvent::Closed => FlowState::Ended { ok: true },
        FlowEvent::CloseFailed => FlowState::Ended { ok: !(flow is QuicToTcp) },
        FlowEvent::ReadFailed | FlowEvent::WriteFailed => FlowState::Ended { ok: false },
    }
}

/// What brings about the event that a flow is waiting for.
pub open spec fn action_for(flow: Flow, state: FlowState) -> FlowAction {
    match state {
        FlowState::Reading => FlowAction::Read,
        FlowState::Writing { len } => FlowAction::Write { len },
        FlowState::Closing => if flow is QuicToTcp {
            FlowAction::ShutdownWrite
        } else {
            FlowAction::FinishSend
        },
        FlowState::Ended { ok } => FlowAction::Stop { ok },
    }
}

/// One direction of a forwarded connection.
#[derive(Debug)]
pub struct Forwarder {
    pub flow: Flow,
    pub state: FlowState,
}

impl Forwarder {
    /// A flow on which nothing has happened.
    pub fn new(flow: Flow) -> (r: Forwarder)
        ensures
            r == (Forwarder { flow, state: FlowState::Reading }),
    {
        Forwarder { flow, state: FlowState::Reading }
    }

    /// What to do next.
    pub fn action(&self) -> (r: FlowAction)
        ensures
            r == action_for(self.flow, self.state),
    {
        match self.state {
            FlowState::Reading => FlowAction::Read,
            FlowState::Writing { len } => FlowAction::Write { len },
            FlowState::Closing => match self.flow {
                Flow::QuicToTcp => FlowAction::ShutdownWrite,
                _ => FlowAction::FinishSend,
            },
            FlowState::Ended { ok } => FlowAction::Stop { ok },
        }
    }

    /// Takes note of what happened, and says what to do next. An error while a
    /// QUIC stream is finished does not count.
    pub fn step(&mut self, event: FlowEvent) -> (r: FlowAction)
        requires
            awaits(old(self).state, event),
        ensures
            final(self).flow == old(self).flow,
            final(self).state == flow_after(old(self).flow, old(self).state, event),
            r == action_for(final(self).flow, final(self).state),
    {
        let state: FlowState = match event {
            FlowEvent::Read { got } => match (got, self.flow) {
                (None, Flow::QuicToStdout) => FlowState::Ended { ok: true },
                (None, _) => FlowState::Closing,
                (Some(0), Flow::TcpToQuic | Flow::StdinToQuic) => FlowState::Closing,
                (Some(len), _) => FlowState::Writing { len },
            },
            FlowEvent::Written => FlowState::Reading,
            FlowEvent::Closed => FlowState::Ended { ok: true },
            FlowEvent::CloseFailed => match self.flow {
                Flow::QuicToTcp => FlowState::Ended { ok: false },
                _ => FlowState::Ended { ok: true },
            },
            FlowEvent::ReadFailed | FlowEvent::WriteFailed => FlowState::Ended { ok: false },
        };
        self.state = state;
        self.action()
    }
}

/// The two directions between a TCP stream and a QUIC connection.
pub fn forward_bidi() -> (r: (Forwarder, Forwarder))
    ensures
        r.0 == (Forwarder { flow: Flow::QuicToTcp, state: FlowState::Reading }),
        r.1 == (Forwarder { flow: Flow::TcpToQuic, state: FlowState::Reading }),
{
    (Forwarder::new(Flow::QuicToTcp), Forwarder::new(Flow::TcpToQuic))
}

/// The two directions between standard input and output and a QUIC connection.
pub fn forward_bidi_stdio() -> (r: (Forwarder, Forwarder))
    ensures
        r.0 == (Forwarder { flow: Flow::QuicToStdout, state: FlowState::Reading }),
        r.1 == (Forwarder { flow: Flow::StdinToQuic, state: FlowState::Reading }),
{
    (Forwarder::new(Flow::QuicToStdout), Forwarder::new(Flow::StdinToQuic))
}

/// How a forwarded connection ended, once both directions have: the error of the
/// first direction comes before that of the second.
pub fn both<E>(first: Result<(), E>, second: Result<(), E>) -> (r: Result<(), E>)
    ensures
        r == (if first is Err {
            first
        } else {
            second
        }),
{
    match first {
        Err(e) => Err(e),
        Ok(_) => second,
    }
}

/// The state of a flow once a sequence of events has happened on it.
pub open spec fn flow_state(flow: Flow, events: Seq<FlowEvent>) -> FlowState
    decreases events.len(),
{
    if events.len() == 0 {
        FlowState::Reading
    } else {
        flow_after(flow, flow_state(flow, events.drop_last()), events.last())
    }
}

/// Whether each event was one that the flow was waiting for.
pub open spec fn is_history(flow: Flow, events: Seq<FlowEvent>) -> bool
    decreases events.len(),
{
    events.len() > 0 ==> {
        &&& is_history(flow, events.drop_last())
        &&& awaits(flow_state(flow, events.drop_last()), events.last())
    }
}

/// The sizes of the chunks that were read.
pub open spec fn chunks_read(flow: Flow, events: Seq<FlowEvent>) -> Seq<usize>
    decreases events.len(),
{
    if events.len() == 0 {
        Seq::empty()
    } else {
        let before = chunks_read(flow, events.drop_last());
        match events.last() {
            FlowEvent::Read { got } => if at_end(flow, got) {
                before
            } else {
                before.push(got->0)
            },
            _ => before,
        }
    }
}

/// The sizes of the chunks that were written.
pub open spec fn chunks_written(flow: Flow, events: Seq<FlowEvent>) -> Seq<usize>
    decreases events.len(),
{
    if events.len() == 0 {
        Seq::empty()
    } else {
        let before = chunks_written(flow, events.drop_last());
        match (events.last(), flow_state(flow, events.drop_last())) {
            (FlowEvent::Written, FlowState::Writing { len }) => before.push(len),
            _ => before,
        }
    }
}

/// Whether the end of the source was seen.
pub open spec fn end_seen(flow: Flow, events: Seq<FlowEvent>) -> bool {
    exists|i: int|
        0 <= i < events.len() && (#[trigger] events[i] matches FlowEvent::Read { got } && at_end(
            flow,
            got,
        ))
}

/// Chunks are written one by one, each in full, before the next one is read: at
/// every moment the sizes of the chunks written are those of the chunks read, but
/// for the one that is being written; and once a flow has ended well, the end of
/// the source was seen and every chunk before it was written.
pub proof fn law_chunk_by_chunk(flow: Flow, events: Seq<FlowEvent>)
    requires
        is_history(flow, events),
    ensures
        match flow_state(flow, events) {
            FlowState::Reading => chunks_written(flow, events) == chunks_read(flow, events)
                && !end_seen(flow, events),
            FlowState::Writing { len } => chunks_written(flow, events).push(len) == chunks_read(
                flow,
                events,
            ) && !end_seen(flow, events),
            FlowState::Closing => chunks_written(flow, events) == chunks_read(flow, events)
                && end_seen(flow, events),
            FlowState::Ended { ok: true } => chunks_written(flow, events) == chunks_read(
                flow,
                events,
            ) && end_seen(flow, events),
            FlowState::Ended { ok: false } => chunks_written(flow, events).is_prefix_of(
                chunks_read(flow, events),
            ),
        },
    decreases events.len(),
{
    if events.len() > 0 {
        let before = events.drop_last();
        law_chunk_by_chunk(flow, before);
        assert(events == before.push(events.last()));
        if end_seen(flow, before) {
            let i = choose|i: int|
                0 <= i < before.len() && (#[trigger] before[i] matches FlowEvent::Read { got }
                    && at_end(flow, got));
            assert(events[i] == before[i]);
        } else {
            assert forall|i: int| 0 <= i < before.len() implies !(#[trigger] events[i] matches FlowEvent::Read {
                got,
            } && at_end(flow, got)) by {
                assert(events[i] == before[i]);
            }
            assert(events[events.len() - 1] == events.last());
        }
    }
}

/// The bytes that the last read left at the start of the buffer. `moved[i]` are
/// the bytes that the event `events[i]` moved (see [`moves`]).
pub open spec fn held(events: Seq<FlowEvent>, moved: Seq<Seq<u8>>) -> Seq<u8>
    decreases events.len(),
{
    if events.len() == 0 {
        Seq::empty()
    } else if events.last() is Read {
        moved[events.len() - 1]
    } else {
        held(events.drop_last(), moved)
    }
}

/// The bytes that an event may move where it answers an action and the buffer
/// starts with `buffer`. A read brings as many as it says. A write that failed may
/// have written some of what it was told to write, from the start on. A write that
/// went well wrote all of it.
pub open spec fn moves(
    action: FlowAction,
    event: FlowEvent,
    buffer: Seq<u8>,
    bytes: Seq<u8>,
) -> bool {
    match (event, action) {
        (FlowEvent::Read { got: Some(n) }, _) => bytes.len() == n,
        (FlowEvent::Written, FlowAction::Write { len }) => bytes == buffer.take(len as int),
        (FlowEvent::WriteFailed, FlowAction::Write { len }) => bytes.is_prefix_of(
            buffer.take(len as int),
        ),
        _ => bytes == Seq::<u8>::empty(),
    }
}

/// Whether each event was one that the flow was waiting for, and moved what it
/// may.
pub open spec fn is_transfer(flow: Flow, events: Seq<FlowEvent>, moved: Seq<Seq<u8>>) -> bool
    decreases events.len(),
{
    events.len() > 0 ==> {
        let before = events.drop_last();
        &&& is_transfer(flow, before, moved)
        &&& awaits(flow_state(flow, before), events.last())
        &&& moves(
            action_for(flow, flow_state(flow, before)),
            events.last(),
            held(before, moved),
            moved[events.len() - 1],
        )
    }
}

/// All bytes that came from the source, in their order.
pub open spec fn bytes_read(events: Seq<FlowEvent>, moved: Seq<Seq<u8>>) -> Seq<u8>
    decreases events.len(),
{
    if events.len() == 0 {
        Seq::empty()
    } else {
        let before = bytes_read(events.drop_last(), moved);
        if events.last() is Read {
            before + moved[events.len() - 1]
        } else {
            before
        }
    }
}

/// All bytes that went to the far side, in their order.
pub open spec fn bytes_written(events: Seq<FlowEvent>, moved: Seq<Seq<u8>>) -> Seq<u8>
    decreases events.len(),
{
    if events.len() == 0 {
        Seq::empty()
    } else {
        let before = bytes_written(events.drop_last(), moved);
        if events.last() is Written || events.last() is WriteFailed {
            before + moved[events.len() - 1]
        } else {
            before
        }
    }
}

/// Nothing is lost, repeated or reordered: at every moment the bytes written are
/// the first of the bytes read; between a write and the next read they are all of
/// them. The far side is told that no more comes only once they are all of them
/// and the end of the source was seen, and so it is once a flow has ended well.
pub proof fn law_forwards_everything(
    flow: Flow,
    events: Seq<FlowEvent>,
    moved: Seq<Seq<u8>>,
)
    requires
        is_transfer(flow, events, moved),
    ensures
        bytes_written(events, moved).is_prefix_of(bytes_read(events, moved)),
        flow_state(flow, events) is Reading ==> bytes_written(events, moved) == bytes_read(
            events,
            moved,
        ),
        flow_state(flow, events) is Closing ==> bytes_written(events, moved) == bytes_read(
            events,
            moved,
        ) && end_seen(flow, events),
        flow_state(flow, events) == (FlowState::Ended { ok: true }) ==> bytes_written(
            events,
            moved,
        ) == bytes_read(events, moved) && end_seen(flow, events),
{
    lemma_transfer(flow, events, moved);
    lemma_transfer_is_history(flow, events, moved);
    law_chunk_by_chunk(flow, events);
    if let FlowState::Writing { .. } = flow_state(flow, events) {
        assert(bytes_read(events, moved).subrange(0, bytes_written(events, moved).len() as int)
            =~= bytes_written(events, moved));
    }
}

proof fn lemma_transfer_is_history(flow: Flow, events: Seq<FlowEvent>, moved: Seq<Seq<u8>>)
    requires
        is_transfer(flow, events, moved),
    ensures
        is_history(flow, events),
    decreases events.len(),
{
    if events.len() > 0 {
        lemma_transfer_is_history(flow, events.drop_last(), moved);
    }
}

/// What the bytes written lack of the bytes read.
proof fn lemma_transfer(flow: Flow, events: Seq<FlowEvent>, moved: Seq<Seq<u8>>)
    requires
        is_transfer(flow, events, moved),
    ensures
        match flow_state(flow, events) {
            FlowState::Writing { len } => held(events, moved).len() == len && bytes_written(
                events,
                moved,
            ) + held(events, moved) == bytes_read(events, moved),
            FlowState::Ended { ok: false } => bytes_written(events, moved).is_prefix_of(
                bytes_read(events, moved),
            ),
            _ => bytes_written(events, moved) == bytes_read(events, moved),
        },
    decreases events.len(),
{
    if events.len() > 0 {
        let before = events.drop_last();
        let bytes = moved[events.len() - 1];
        let buffer = held(before, moved);
        let (written, read) = (bytes_written(before, moved), bytes_read(before, moved));
        lemma_transfer(flow, before, moved);
        match events.last() {
            FlowEvent::Read { got } => {
                if at_end(flow, got) {
                    assert(bytes =~= Seq::<u8>::empty());
                    assert(read + bytes =~= read);
                }
            },
            FlowEvent::Written => {
                assert(buffer.take(buffer.len() as int) =~= buffer);
            },
            FlowEvent::WriteFailed => {
                assert(buffer.take(buffer.len() as int) =~= buffer);
                assert((written + bytes) =~= read.subrange(0, (written + bytes).len() as int)) by {
                    assert(bytes =~= buffer.subrange(0, bytes.len() as int));
                }
            },
            _ => {},
        }
    }
}

/// What is to be done next, given what happened: exactly the bytes that a read
/// brought are written, and after that comes the next read. A read of nothing is
/// the end of TCP and of standard input, but not of a QUIC stream, which says so
/// itself. At the end TCP is shut down for writing, QUIC is finished, and standard
/// output is left as it is. A failure is the end, and is reported, unless it is
/// that a QUIC stream could not be finished.
pub proof fn law_next_action(flow: Flow, state: FlowState, event: FlowEvent)
    requires
        awaits(state, event),
    ensures
        action_for(flow, flow_after(flow, state, event)) == match event {
            FlowEvent::Read { got: Some(n) } if n > 0 || flow == Flow::QuicToTcp || flow
                == Flow::QuicToStdout => FlowAction::Write { len: n },
            FlowEvent::Read { .. } => if flow == Flow::QuicToTcp {
                FlowAction::ShutdownWrite
            } else if flow == Flow::QuicToStdout {
                FlowAction::Stop { ok: true }
            } else {
                FlowAction::FinishSend
            },
            FlowEvent::Written => FlowAction::Read,
            FlowEvent::Closed => FlowAction::Stop { ok: true },
            FlowEvent::CloseFailed => FlowAction::Stop { ok: flow != Flow::QuicToTcp },
            FlowEvent::ReadFailed | FlowEvent::WriteFailed => FlowAction::Stop { ok: false },
        },
{
}

/// An action is answered by what it can lead to, and by nothing else: any read
/// that fits into the buffer of 65536 bytes, the end of a write, or the end of
/// telling the far side; after the last action nothing happens. The first action
/// is a read.
pub proof fn law_answers(flow: Flow, state: FlowState, event: FlowEvent)
    ensures
        awaits(state, event) <==> match action_for(flow, state) {
            FlowAction::Read => event is ReadFailed || (event matches FlowEvent::Read { got } && (
            got matches Some(n) ==> n <= 65536)),
            FlowAction::Write { .. } => event is Written || event is WriteFailed,
            FlowAction::ShutdownWrite | FlowAction::FinishSend => event is Closed
                || event is CloseFailed,
            FlowAction::Stop { .. } => false,
        },
        action_for(flow, flow_state(flow, Seq::empty())) == FlowAction::Read,
{
}

/// The two directions of a connection go opposite ways: one from QUIC, and one
/// to it.
pub proof fn law_directions(tcp: (Forwarder, Forwarder), stdio: (Forwarder, Forwarder))
    requires
        call_ensures(forward_bidi, (), tcp),
        call_ensures(forward_bidi_stdio, (), stdio),
    ensures
        tcp.0.flow == Flow::QuicToTcp && tcp.1.flow == Flow::TcpToQuic,
        stdio.0.flow == Flow::QuicToStdout && stdio.1.flow == Flow::StdinToQuic,
        forall|f: Forwarder, a: FlowAction| #[trigger]
            call_ensures(Forwarder::action, (&f,), a) && (f == tcp.0 || f == tcp.1 || f == stdio.0
                || f == stdio.1) ==> a == FlowAction::Read,
{
}

/// A connection ends well if both directions do; else the error of the first counts,
/// and that of the second only if the first ended well.
pub proof fn law_first_error_counts<E>(
    first: Result<(), E>,
    second: Result<(), E>,
    r: Result<(), E>,
)
    requires
        call_ensures(both::<E>, (first, second), r),
    ensures
        r is Ok <==> first is Ok && second is Ok,
        first matches Err(e) ==> r == Err::<(), E>(e),
        first is Ok ==> (second matches Err(e) ==> r == Err::<(), E>(e)),
{
}

/// A flow that has ended stays so: no event may follow.
pub proof fn law_ends_once(flow: Flow, events: Seq<FlowEvent>, more: Seq<FlowEvent>)
    requires
        is_history(flow, events + more),
        flow_state(flow, events) is Ended,
    ensures
        more.len() == 0,
    decreases more.len(),
{
    if more.len() > 0 {
        let all = events + more;
        assert(all.drop_last() == events + more.drop_last());
        if more.len() > 1 {
            law_ends_once(flow, events, more.drop_last());
        } else {
            assert(events + more.drop_last() == events);
        }
    }
}

/// An event of telling the far side that no more comes.
pub open spec fn is_close(event: FlowEvent) -> bool {
    event is Closed || event is CloseFailed
}

proof fn lemma_no_close_before_end(flow: Flow, events: Seq<FlowEvent>)
    requires
        is_history(flow, events),
        !(flow_state(flow, events) is Ended),
    ensures
        forall|i: int| 0 <= i < events.len() ==> !is_close(#[trigger] events[i]),
    decreases events.len(),
{
    if events.len() > 0 {
        let before = events.drop_last();
        lemma_no_close_before_end(flow, before);
        assert forall|i: int| 0 <= i < events.len() implies !is_close(#[trigger] events[i]) by {
            if i < before.len() {
                assert(events[i] == before[i]);
            }
        }
    }
}

/// The far side is told once that no more comes, and last of all: where a flow
/// into TCP or QUIC has ended well, the last event, and no other, is that one.
/// Standard output is not told.
pub proof fn law_closes_once(flow: Flow, events: Seq<FlowEvent>, i: int)
    requires
        is_history(flow, events),
        flow_state(flow, events) == (FlowState::Ended { ok: true }),
        0 <= i < events.len(),
    ensures
        is_close(events[i]) <==> (i == events.len() - 1 && !(flow is QuicToStdout)),
{
    let before = events.drop_last();
    lemma_no_close_before_end(flow, before);
    if i < before.len() {
        assert(events[i] == before[i]);
    }
    lemma_stdout_not_closed(flow, before);
}

proof fn lemma_stdout_not_closed(flow: Flow, events: Seq<FlowEvent>)
    requires
        is_history(flow, events),
    ensures
        flow is QuicToStdout ==> !(flow_state(flow, events) is Closing),
{
}

} // verus!
