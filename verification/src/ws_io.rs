//! A contiguous byte stream over WebSocket messages.
//!
//! One binary message is sent per write. A read joins the messages that are ready, as far as they
//! fit, and keeps what did not. The multiplexer on top of the stream takes a read of no bytes for its
//! end, so an empty message must not look like one, and it never sends a byte again, so a write that
//! was taken must be reported as taken.
use crate::text;
use vstd::prelude::*;

verus! {

/// What the socket hands over.
#[derive(Debug)]
pub enum WsMessage {
    Binary(Vec<u8>),
    Ping,
    Pong,
    Close,
    Text,
    Frame,
    /// The socket failed, for the reason given.
    Fault(String),
    /// The stream has ended.
    End,
    /// No message is ready.
    NotReady,
}

/// What becomes of a read.
#[derive(Debug)]
pub enum ReadStep {
    /// That many bytes were put at the front of the buffer. None, in a buffer with room, is the end
    /// of the stream.
    Ready(usize),
    Fault(String),
    /// The same read is to be tried again later.
    Pending,
    /// That many bytes stand at the front of the buffer, and there is room for more: the next message
    /// is needed, if one is ready.
    NextMessage(usize),
}

/// What became of an operation on the socket's sink.
#[derive(Debug)]
pub enum SinkPoll {
    Done,
    Pending,
    Fault(String),
}

/// How far a write has come.
#[derive(Debug)]
pub enum WriteEvent {
    Start,
    /// The sink was asked whether it takes a message.
    Readied(SinkPoll),
    /// The message was handed to the sink, which does not wait.
    Sent(Result<(), String>),
    /// The sink was asked to put out what it holds.
    Flushed(SinkPoll),
}

/// What comes next in a write.
#[derive(Debug)]
pub enum WriteStep {
    /// That many bytes were written.
    Ready(usize),
    /// The same write is to be tried again later.
    Pending,
    Fault(String),
    /// Ask the sink whether it takes a message.
    PollReady,
    /// Hand this binary message to the sink.
    Send(Vec<u8>),
    /// Ask the sink to put out what it holds.
    Flush,
}

/// The state of the stream: what is left of the last message, whether the stream is closed, and the
/// fault that the next read has to tell. Once the stream is closed, reads are at its end and writes
/// fail.
#[derive(Debug)]
pub struct WsIoAdapter {
    read_buf: Vec<u8>,
    read_pos: usize,
    closed: bool,
    fault: Option<String>,
}

/// A stream, as reads and writes see it.
#[verifier::ext_equal]
pub struct StreamState {
    /// The bytes that came and were not read yet.
    pub pending: Seq<u8>,
    pub closed: bool,
    /// A fault that came behind bytes which a read had to hand out first.
    pub fault: Option<Seq<char>>,
}

impl View for WsIoAdapter {
    type V = StreamState;

    closed spec fn view(&self) -> StreamState {
        StreamState {
            pending: self.read_buf@.skip(self.read_pos as int),
            closed: self.closed,
            fault: text::text_in(self.fault),
        }
    }
}

/// The smaller of two lengths.
pub open spec fn smaller(a: nat, b: nat) -> nat {
    if a <= b {
        a
    } else {
        b
    }
}

/// What comes next in a write, over the bytes and characters that it holds.
#[verifier::ext_equal]
pub enum WriteNext {
    Ready(nat),
    Pending,
    Fault(Seq<char>),
    PollReady,
    Send(Seq<u8>),
    Flush,
}

impl View for WriteStep {
    type V = WriteNext;

    open spec fn view(&self) -> WriteNext {
        match self {
            WriteStep::Ready(n) => WriteNext::Ready(*n as nat),
            WriteStep::Pending => WriteNext::Pending,
            WriteStep::Fault(reason) => WriteNext::Fault(reason@),
            WriteStep::PollReady => WriteNext::PollReady,
            WriteStep::Send(data) => WriteNext::Send(data@),
            WriteStep::Flush => WriteNext::Flush,
        }
    }
}

/// The message of the failure of a write to a closed stream.
pub open spec fn closed_write() -> Seq<char> {
    "write on a closed WS stream"@
}

/// What comes next in a write of `buf` to the stream `s` after `event`.
pub open spec fn write_next(s: StreamState, buf: Seq<u8>, event: WriteEvent) -> WriteNext {
    match event {
        WriteEvent::Start => if buf.len() == 0 {
            WriteNext::Ready(0)
        } else if s.closed {
            WriteNext::Fault(closed_write())
        } else {
            WriteNext::PollReady
        },
        WriteEvent::Readied(SinkPoll::Done) => WriteNext::Send(buf),
        WriteEvent::Readied(SinkPoll::Pending) => WriteNext::Pending,
        WriteEvent::Readied(SinkPoll::Fault(reason)) => WriteNext::Fault(reason@),
        WriteEvent::Sent(Ok(())) => WriteNext::Flush,
        WriteEvent::Sent(Err(reason)) => WriteNext::Fault(reason@),
        WriteEvent::Flushed(SinkPoll::Done) | WriteEvent::Flushed(
            SinkPoll::Pending,
        ) => WriteNext::Ready(buf.len()),
        WriteEvent::Flushed(SinkPoll::Fault(reason)) => WriteNext::Fault(reason@),
    }
}

/// The message of the failure that a message of the wrong kind is.
pub open spec fn wrong_kind() -> Seq<char> {
    "unexpected non-binary WS frame on MPC mux stream"@
}

/// What a read comes to.
#[verifier::ext_equal]
pub enum ReadOutcome {
    /// These bytes are handed out.
    Ready(Seq<u8>),
    Fault(Seq<char>),
    Pending,
    /// These bytes were put together, and there is room for more.
    NextMessage(Seq<u8>),
}

/// Whether a read of `s` can take a message: nothing is kept that has to be told first.
pub open spec fn awaiting(s: StreamState) -> bool {
    s.pending.len() == 0 && !s.closed && s.fault is None
}

/// The beginning of a read into a buffer with room for `room` bytes: what is left of the last message
/// comes first.
pub open spec fn begin_read(s: StreamState, room: nat) -> (StreamState, ReadOutcome) {
    let n = smaller(s.pending.len(), room) as int;
    let got = s.pending.take(n);
    let next = StreamState { pending: s.pending.skip(n), ..s };
    if room == 0 {
        (s, ReadOutcome::Ready(Seq::empty()))
    } else if s.pending.len() > 0 {
        if n < room && awaiting(next) {
            (next, ReadOutcome::NextMessage(got))
        } else {
            (next, ReadOutcome::Ready(got))
        }
    } else if s.closed {
        (s, ReadOutcome::Ready(Seq::empty()))
    } else {
        match s.fault {
            Some(reason) => (StreamState { fault: None, ..s }, ReadOutcome::Fault(reason)),
            None => (s, ReadOutcome::NextMessage(Seq::empty())),
        }
    }
}

/// The end of a read that put together `got` and met a fault: bytes are handed out first, and the
/// fault is kept for the next read.
pub open spec fn meet_fault(s: StreamState, got: Seq<u8>, reason: Seq<char>) -> (
    StreamState,
    ReadOutcome,
) {
    if got.len() == 0 {
        (s, ReadOutcome::Fault(reason))
    } else {
        (StreamState { fault: Some(reason), ..s }, ReadOutcome::Ready(got))
    }
}

/// What a read that put together `got`, in a buffer with room for `room` bytes, does with a message.
pub open spec fn receive(s: StreamState, message: WsMessage, room: nat, got: Seq<u8>) -> (
    StreamState,
    ReadOutcome,
) {
    match message {
        WsMessage::Binary(data) => {
            let n = smaller(data@.len(), (room - got.len()) as nat) as int;
            let all = got + data@.take(n);
            let next = StreamState { pending: data@.skip(n), ..s };
            if all.len() < room {
                (next, ReadOutcome::NextMessage(all))
            } else {
                (next, ReadOutcome::Ready(all))
            }
        },
        WsMessage::Ping | WsMessage::Pong => (s, ReadOutcome::NextMessage(got)),
        WsMessage::Close | WsMessage::End => (
            StreamState { closed: true, ..s },
            ReadOutcome::Ready(got),
        ),
        WsMessage::Text | WsMessage::Frame => meet_fault(s, got, wrong_kind()),
        WsMessage::Fault(reason) => meet_fault(s, got, reason@),
        WsMessage::NotReady => if got.len() == 0 {
            (s, ReadOutcome::Pending)
        } else {
            (s, ReadOutcome::Ready(got))
        },
    }
}

/// Whether `step`, and what became of a buffer, are what `outcome` says: the bytes that are handed
/// out or were put together stand at the front of the buffer, and the rest of it is as it was.
pub open spec fn shows(
    step: ReadStep,
    before: Seq<u8>,
    after: Seq<u8>,
    outcome: ReadOutcome,
) -> bool {
    match (step, outcome) {
        (ReadStep::Ready(n), ReadOutcome::Ready(data)) => n == data.len() && after == data
            + before.skip(n as int),
        (ReadStep::Fault(e), ReadOutcome::Fault(reason)) => e@ == reason && after == before,
        (ReadStep::Pending, ReadOutcome::Pending) => after == before,
        (ReadStep::NextMessage(n), ReadOutcome::NextMessage(data)) => n == data.len() && after
            == data + before.skip(n as int),
        _ => false,
    }
}

/// Copies the bytes of `data` from `from` on to `buf` from `to` on, as many as fit, and returns how
/// many that are.
fn copy_into(buf: &mut [u8], to: usize, data: &Vec<u8>, from: usize) -> (n: usize)
    requires
        from <= data.len(),
        to <= old(buf)@.len(),
    ensures
        n == smaller((data.len() - from) as nat, (old(buf)@.len() - to) as nat),
        final(buf)@ == old(buf)@.take(to as int) + data@.subrange(from as int, from + n) + old(
            buf,
        )@.skip(to + n),
{
    let left: usize = data.len() - from;
    let room: usize = buf.len() - to;
    let n: usize = if left <= room {
        left
    } else {
        room
    };
    let ghost before = buf@;
    let mut i: usize = 0;
    while i < n
        invariant
            i <= n,
            to + n <= usize::MAX,
            n == smaller((data.len() - from) as nat, (before.len() - to) as nat),
            from <= data.len(),
            to <= before.len(),
            buf@.len() == before.len(),
            forall|k: int| 0 <= k < to ==> buf@[k] == before[k],
            forall|k: int| to <= k < to + i ==> buf@[k] == data@[from + (k - to)],
            forall|k: int| to + i <= k < before.len() ==> buf@[k] == before[k],
        decreases n - i,
    {
        buf[to + i] = data[from + i];
        i += 1;
    }
    assert(buf@ =~= before.take(to as int) + data@.subrange(from as int, from + n) + before.skip(
        to + n,
    ));
    n
}

impl WsIoAdapter {
    /// Nothing stands before the place that was read up to but what was read; where all was read,
    /// nothing is kept.
    #[verifier::type_invariant]
    spec fn inv(self) -> bool {
        self.read_pos < self.read_buf.len() || (self.read_pos == 0 && self.read_buf.len() == 0)
    }

    /// A stream of which nothing came yet.
    pub fn new() -> (stream: Self)
        ensures
            stream@ == (StreamState { pending: Seq::empty(), closed: false, fault: None }),
    {
        let stream = WsIoAdapter { read_buf: Vec::new(), read_pos: 0, closed: false, fault: None };
        assert(stream@.pending =~= Seq::empty());
        stream
    }

    /// Begins a read. What is left of the last message is handed out first. Where that does not fill
    /// the buffer, the messages that are ready come behind it; where there is nothing to hand out, the
    /// end of the stream shows, or the fault that the last read met behind its bytes.
    pub fn poll_read(&mut self, buf: &mut [u8]) -> (step: ReadStep)
        ensures
            final(self)@ == begin_read(old(self)@, old(buf)@.len()).0,
            shows(step, old(buf)@, final(buf)@, begin_read(old(self)@, old(buf)@.len()).1),
    {
        proof {
            use_type_invariant(&*self);
        }
        let ghost before = self@;
        let ghost room = buf@;
        if buf.len() == 0 {
            assert(buf@ =~= Seq::<u8>::empty() + room.skip(0));
            return ReadStep::Ready(0);
        }
        if self.read_pos < self.read_buf.len() {
            let n = copy_into(buf, 0, &self.read_buf, self.read_pos);
            assert(self.read_buf@.subrange(self.read_pos as int, self.read_pos + n)
                =~= before.pending.take(n as int));
            assert(buf@ =~= before.pending.take(n as int) + room.skip(n as int));
            if n == self.read_buf.len() - self.read_pos {
                let closed = self.closed;
                let fault = self.fault.clone();
                *self = WsIoAdapter { read_buf: Vec::new(), read_pos: 0, closed, fault };
            } else {
                self.read_pos = self.read_pos + n;
            }
            assert(self@.pending =~= before.pending.skip(n as int));
            assert(self@ =~= StreamState { pending: before.pending.skip(n as int), ..before });
            if n < buf.len() && !self.closed && self.fault.is_none() {
                return ReadStep::NextMessage(n);
            }
            return ReadStep::Ready(n);
        }
        if self.closed {
            assert(buf@ =~= Seq::<u8>::empty() + room.skip(0));
            return ReadStep::Ready(0);
        }
        let fault = self.fault.clone();
        match fault {
            Some(reason) => {
                self.fault = None;
                ReadStep::Fault(reason)
            },
            None => {
                assert(buf@ =~= Seq::<u8>::empty() + room.skip(0));
                ReadStep::NextMessage(0)
            },
        }
    }

    /// Ends a read that met a fault with `filled` bytes in the buffer.
    fn on_fault(&mut self, reason: String, filled: usize) -> (step: ReadStep)
        ensures
            filled == 0 ==> step == ReadStep::Fault(reason) && final(self)@ == old(self)@,
            filled > 0 ==> step == ReadStep::Ready(filled) && final(self)@ == (StreamState {
                fault: Some(reason@),
                ..old(self)@
            }),
    {
        proof {
            use_type_invariant(&*self);
        }
        if filled == 0 {
            return ReadStep::Fault(reason);
        }
        self.fault = Some(reason);
        ReadStep::Ready(filled)
    }

    /// Goes on with a read that put `filled` bytes at the front of the buffer and had room for more. An
    /// empty message is not the end of the stream: the message after it is needed. The end and faults
    /// show at once where nothing was put together, and else at the next read.
    pub fn on_message(&mut self, message: WsMessage, buf: &mut [u8], filled: usize) -> (step: ReadStep)
        requires
            awaiting(old(self)@),
            filled < old(buf)@.len(),
        ensures
            final(self)@ == receive(
                old(self)@,
                message,
                old(buf)@.len(),
                old(buf)@.take(filled as int),
            ).0,
            shows(
                step,
                old(buf)@,
                final(buf)@,
                receive(old(self)@, message, old(buf)@.len(), old(buf)@.take(filled as int)).1,
            ),
    {
        proof {
            use_type_invariant(&*self);
        }
        let ghost before = self@;
        let ghost room = buf@;
        let ghost got = room.take(filled as int);
        assert(buf@ =~= got + room.skip(filled as int));
        match message {
            WsMessage::Binary(data) => {
                let n = copy_into(buf, filled, &data, 0);
                assert(data@.subrange(0, n as int) =~= data@.take(n as int));
                assert(buf@ =~= (got + data@.take(n as int)) + room.skip(filled + n));
                if n < data.len() {
                    *self = WsIoAdapter { read_buf: data, read_pos: n, closed: false, fault: None };
                } else {
                    assert(self@.pending =~= data@.skip(n as int));
                }
                assert(self@ =~= StreamState { pending: data@.skip(n as int), ..before });
                if n < buf.len() - filled {
                    ReadStep::NextMessage(filled + n)
                } else {
                    ReadStep::Ready(filled + n)
                }
            },
            WsMessage::Ping | WsMessage::Pong => ReadStep::NextMessage(filled),
            WsMessage::Close | WsMessage::End => {
                self.closed = true;
                ReadStep::Ready(filled)
            },
            WsMessage::Text | WsMessage::Frame => {
                let reason = "unexpected non-binary WS frame on MPC mux stream".to_string();
                self.on_fault(reason, filled)
            },
            WsMessage::Fault(reason) => self.on_fault(reason, filled),
            WsMessage::NotReady => if filled == 0 {
                ReadStep::Pending
            } else {
                ReadStep::Ready(filled)
            },
        }
    }

    /// Says what comes next in a write of `buf`. The bytes go out as one message. Once the sink has
    /// taken it the write counts as done, whether or not the sink could put it out at once; it
    /// is asked to, since it holds messages back until it is. A closed stream takes no bytes.
    pub fn poll_write(&self, buf: &[u8], event: WriteEvent) -> (step: WriteStep)
        ensures
            step@ == write_next(self@, buf@, event),
    {
        match event {
            WriteEvent::Start => if buf.len() == 0 {
                WriteStep::Ready(0)
            } else if self.closed {
                WriteStep::Fault("write on a closed WS stream".to_string())
            } else {
                WriteStep::PollReady
            },
            WriteEvent::Readied(SinkPoll::Done) => WriteStep::Send(vstd::slice::slice_to_vec(buf)),
            WriteEvent::Readied(SinkPoll::Pending) => WriteStep::Pending,
            WriteEvent::Readied(SinkPoll::Fault(reason)) => WriteStep::Fault(reason),
            WriteEvent::Sent(Ok(())) => WriteStep::Flush,
            WriteEvent::Sent(Err(reason)) => WriteStep::Fault(reason),
            WriteEvent::Flushed(SinkPoll::Done)
            | WriteEvent::Flushed(SinkPoll::Pending) => WriteStep::Ready(buf.len()),
            WriteEvent::Flushed(SinkPoll::Fault(reason)) => WriteStep::Fault(reason),
        }
    }
}

/// The bytes that `messages` carry.
pub open spec fn payload(messages: Seq<WsMessage>) -> Seq<u8>
    decreases messages.len(),
{
    if messages.len() == 0 {
        Seq::empty()
    } else {
        match messages[0] {
            WsMessage::Binary(data) => data@ + payload(messages.skip(1)),
            _ => payload(messages.skip(1)),
        }
    }
}

/// A read that put together `got` and has room for more, with `messages` to come: the stream after
/// it, the messages that are still to come, and the outcome. Where they run out, none is ready.
pub open spec fn await_message(
    s: StreamState,
    room: nat,
    got: Seq<u8>,
    messages: Seq<WsMessage>,
) -> (StreamState, Seq<WsMessage>, ReadOutcome)
    decreases messages.len(),
{
    if messages.len() == 0 {
        let (next, outcome) = receive(s, WsMessage::NotReady, room, got);
        (next, messages, outcome)
    } else {
        let (next, outcome) = receive(s, messages[0], room, got);
        match outcome {
            ReadOutcome::NextMessage(more) => await_message(next, room, more, messages.skip(1)),
            end => (next, messages.skip(1), end),
        }
    }
}

/// A whole read, with `messages` to come.
pub open spec fn read(s: StreamState, room: nat, messages: Seq<WsMessage>) -> (
    StreamState,
    Seq<WsMessage>,
    ReadOutcome,
) {
    let (next, outcome) = begin_read(s, room);
    match outcome {
        ReadOutcome::NextMessage(got) => await_message(next, room, got, messages),
        end => (next, messages, end),
    }
}

/// The bytes that an outcome hands out.
pub open spec fn handed_out(outcome: ReadOutcome) -> Seq<u8> {
    match outcome {
        ReadOutcome::Ready(data) => data,
        _ => Seq::empty(),
    }
}

/// Reads one after the other, into buffers with room for `rooms` bytes: the stream after them, the
/// messages that are still to come, and all that was handed out.
pub open spec fn read_all(s: StreamState, rooms: Seq<nat>, messages: Seq<WsMessage>) -> (
    StreamState,
    Seq<WsMessage>,
    Seq<u8>,
)
    decreases rooms.len(),
{
    if rooms.len() == 0 {
        (s, messages, Seq::empty())
    } else {
        let (next, left, outcome) = read(s, rooms[0], messages);
        let (end, rest, data) = read_all(next, rooms.skip(1), left);
        (end, rest, handed_out(outcome) + data)
    }
}

proof fn lemma_await_keeps_bytes(
    s: StreamState,
    room: nat,
    got: Seq<u8>,
    messages: Seq<WsMessage>,
)
    requires
        s.pending.len() == 0,
        got.len() < room,
    ensures
        ({
            let (next, left, outcome) = await_message(s, room, got, messages);
            got + payload(messages) == handed_out(outcome) + next.pending + payload(left)
        }),
    decreases messages.len(),
{
    if messages.len() > 0 {
        let (next, outcome) = receive(s, messages[0], room, got);
        let left = messages.skip(1);
        let here = match messages[0] {
            WsMessage::Binary(data) => data@,
            _ => Seq::empty(),
        };
        assert(payload(messages) =~= here + payload(left));
        assert(got + payload(messages) =~= (got + here) + payload(left));
        if let ReadOutcome::NextMessage(more) = outcome {
            assert(more =~= got + here);
            lemma_await_keeps_bytes(next, room, more, left);
        } else {
            assert(got + here =~= handed_out(outcome) + next.pending);
        }
    } else {
        assert(got + payload(messages) =~= got + s.pending + payload(messages));
    }
}

proof fn lemma_read_keeps_bytes(s: StreamState, room: nat, messages: Seq<WsMessage>)
    ensures
        ({
            let (next, left, outcome) = read(s, room, messages);
            s.pending + payload(messages) == handed_out(outcome) + next.pending + payload(left)
        }),
{
    let (next, outcome) = begin_read(s, room);
    if let ReadOutcome::NextMessage(got) = outcome {
        lemma_await_keeps_bytes(next, room, got, messages);
        assert(s.pending =~= got);
    } else {
        assert(s.pending =~= handed_out(outcome) + next.pending);
        assert(s.pending + payload(messages) =~= handed_out(outcome) + next.pending + payload(
            messages,
        ));
    }
}

/// No byte is lost, doubled or moved: whatever is read, what was handed out, what is kept and what
/// is still to come make up what was kept before and what the messages carry.
pub proof fn law_reads_keep_every_byte_in_order(
    s: StreamState,
    rooms: Seq<nat>,
    messages: Seq<WsMessage>,
)
    ensures
        ({
            let (end, left, data) = read_all(s, rooms, messages);
            s.pending + payload(messages) == data + end.pending + payload(left)
        }),
    decreases rooms.len(),
{
    if rooms.len() == 0 {
        assert(s.pending + payload(messages) =~= Seq::<u8>::empty() + s.pending + payload(messages));
    } else {
        let (next, left, outcome) = read(s, rooms[0], messages);
        lemma_read_keeps_bytes(s, rooms[0], messages);
        law_reads_keep_every_byte_in_order(next, rooms.skip(1), left);
        let (end, rest, data) = read_all(next, rooms.skip(1), left);
        assert(handed_out(outcome) + next.pending + payload(left) =~= handed_out(outcome) + (
        next.pending + payload(left)));
        assert(handed_out(outcome) + (data + end.pending + payload(rest)) =~= (handed_out(outcome)
            + data) + end.pending + payload(rest));
    }
}

/// A read into a buffer with room hands out no bytes only at the end of the stream: the stream was
/// closed before with nothing left to read, or one of the messages that were taken closed it. An
/// empty message is never the end.
pub proof fn law_no_bytes_only_at_the_end(s: StreamState, room: nat, messages: Seq<WsMessage>)
    requires
        room > 0,
        read(s, room, messages).2 == ReadOutcome::Ready(Seq::empty()),
    ensures
        read(s, room, messages).0.closed,
        read(s, room, messages).0.pending.len() == 0,
        s.closed || exists|i: int|
            0 <= i < messages.len() - read(s, room, messages).1.len() && (#[trigger] messages[i] is Close
                || messages[i] is End),
{
    let (next, outcome) = begin_read(s, room);
    if let ReadOutcome::NextMessage(got) = outcome {
        lemma_await_ends(next, room, got, messages);
    } else if s.pending.len() > 0 {
        assert(handed_out(outcome).len() > 0);
    }
}

proof fn lemma_await_ends(s: StreamState, room: nat, got: Seq<u8>, messages: Seq<WsMessage>)
    requires
        got.len() < room,
        s.pending.len() == 0,
        await_message(s, room, got, messages).2 == ReadOutcome::Ready(Seq::empty()),
    ensures
        await_message(s, room, got, messages).0.closed,
        await_message(s, room, got, messages).0.pending.len() == 0,
        await_message(s, room, got, messages).1.len() < messages.len(),
        exists|i: int|
            0 <= i < messages.len() - await_message(s, room, got, messages).1.len() && (
            #[trigger] messages[i] is Close || messages[i] is End),
    decreases messages.len(),
{
    if messages.len() == 0 {
        assert(handed_out(receive(s, WsMessage::NotReady, room, got).1) =~= got);
    } else {
        let (next, outcome) = receive(s, messages[0], room, got);
        let left = messages.skip(1);
        if let ReadOutcome::NextMessage(more) = outcome {
            lemma_await_ends(next, room, more, left);
            let i = choose|i: int|
                0 <= i < left.len() - await_message(next, room, more, left).1.len() && (
                #[trigger] left[i] is Close || left[i] is End);
            assert(messages[i + 1] == left[i]);
        } else {
            if let WsMessage::Binary(_) = messages[0] {
                assert(handed_out(outcome).len() == room);
            }
            assert(messages[0] is Close || messages[0] is End);
        }
    }
}

/// Whether `message` is data, or nothing that a read takes notice of.
pub open spec fn carries_data(message: WsMessage) -> bool {
    message is Binary || message is Ping || message is Pong
}

proof fn lemma_payload_take(messages: Seq<WsMessage>, k: int)
    requires
        0 < k <= messages.len(),
    ensures
        payload(messages.take(k)) == (match messages[0] {
            WsMessage::Binary(data) => data@,
            _ => Seq::empty(),
        }) + payload(messages.skip(1).take(k - 1)),
{
    assert(messages.take(k).skip(1) =~= messages.skip(1).take(k - 1));
    assert(payload(messages.take(k)) =~= (match messages[0] {
        WsMessage::Binary(data) => data@,
        _ => Seq::empty(),
    }) + payload(messages.skip(1).take(k - 1)));
}

proof fn lemma_await_joins(
    s: StreamState,
    room: nat,
    got: Seq<u8>,
    messages: Seq<WsMessage>,
    k: int,
)
    requires
        awaiting(s),
        got.len() < room,
        0 <= k <= messages.len(),
        forall|i: int| 0 <= i < k ==> carries_data(#[trigger] messages[i]),
    ensures
        ({
            let all = got + payload(messages.take(k));
            if all.len() >= room {
                await_message(s, room, got, messages).2 == ReadOutcome::Ready(all.take(room as int))
            } else {
                await_message(s, room, got, messages) == await_message(
                    s,
                    room,
                    all,
                    messages.skip(k),
                )
            }
        }),
    decreases k,
{
    let all = got + payload(messages.take(k));
    if k == 0 {
        assert(all =~= got);
        assert(messages.skip(0) =~= messages);
    } else {
        let left = messages.skip(1);
        let here = match messages[0] {
            WsMessage::Binary(data) => data@,
            _ => Seq::empty(),
        };
        lemma_payload_take(messages, k);
        assert(all =~= (got + here) + payload(left.take(k - 1)));
        assert(carries_data(messages[0]));
        let (next, outcome) = receive(s, messages[0], room, got);
        if let ReadOutcome::NextMessage(more) = outcome {
            assert(more =~= got + here);
            assert(next.pending =~= s.pending);
            assert(next =~= s);
            assert forall|i: int| 0 <= i < k - 1 implies carries_data(#[trigger] left[i]) by {
                assert(left[i] == messages[i + 1]);
            }
            lemma_await_joins(s, room, more, left, k - 1);
            assert(left.skip(k - 1) =~= messages.skip(k));
        } else {
            assert(handed_out(outcome) =~= all.take(room as int));
        }
    }
}

/// A read joins what is left of the last message and all messages that are ready, up to the first that
/// is not data, and hands out as much of it as the buffer has room for.
pub proof fn law_reads_join_messages(
    s: StreamState,
    room: nat,
    messages: Seq<WsMessage>,
    k: int,
)
    requires
        room > 0,
        !s.closed,
        s.fault is None,
        0 <= k <= messages.len(),
        forall|i: int| 0 <= i < k ==> carries_data(#[trigger] messages[i]),
        k < messages.len() ==> !carries_data(messages[k]),
        s.pending.len() + payload(messages.take(k)).len() > 0,
    ensures
        ({
            let all = s.pending + payload(messages.take(k));
            read(s, room, messages).2 == ReadOutcome::Ready(
                all.take(smaller(all.len(), room) as int),
            )
        }),
{
    let all = s.pending + payload(messages.take(k));
    let (next, outcome) = begin_read(s, room);
    if let ReadOutcome::NextMessage(got) = outcome {
        assert(got =~= s.pending);
        lemma_await_joins(next, room, got, messages, k);
        let rest = messages.skip(k);
        if all.len() < room {
            assert(all.take(all.len() as int) =~= all);
            if k < messages.len() {
                assert(rest[0] == messages[k]);
            }
        }
    } else {
        assert(handed_out(outcome) =~= all.take(room as int));
    }
}

/// What ends a read that hands out bytes shows at the next one: the end of the stream, or the fault.
pub proof fn law_end_shows_at_the_next_read(
    s: StreamState,
    room: nat,
    messages: Seq<WsMessage>,
    k: int,
    again: nat,
)
    requires
        room > 0,
        again > 0,
        !s.closed,
        s.fault is None,
        0 <= k < messages.len(),
        forall|i: int| 0 <= i < k ==> carries_data(#[trigger] messages[i]),
        0 < s.pending.len() + payload(messages.take(k)).len() < room,
    ensures
        ({
            let (next, left, _) = read(s, room, messages);
            &&& !carries_data(messages[k]) ==> left == messages.skip(k + 1)
            &&& messages[k] is Close || messages[k] is End ==> read(next, again, left).2
                == ReadOutcome::Ready(Seq::empty())
            &&& messages[k] is Text || messages[k] is Frame ==> read(next, again, left).2
                == ReadOutcome::Fault(wrong_kind())
            &&& messages[k] matches WsMessage::Fault(reason) ==> read(next, again, left).2
                == ReadOutcome::Fault(reason@)
        }),
{
    let (next, outcome) = begin_read(s, room);
    if let ReadOutcome::NextMessage(got) = outcome {
        assert(got =~= s.pending);
        lemma_await_joins(next, room, got, messages, k);
        let rest = messages.skip(k);
        assert(rest[0] == messages[k]);
        assert(rest.skip(1) =~= messages.skip(k + 1));
    } else {
        assert(s.pending.skip(s.pending.len() as int).len() == 0);
    }
}

/// A closed stream of which all was read stays at its end.
pub proof fn law_closed_stream_stays_at_its_end(
    s: StreamState,
    room: nat,
    messages: Seq<WsMessage>,
)
    requires
        s.closed,
        s.pending.len() == 0,
    ensures
        read(s, room, messages) == (s, messages, ReadOutcome::Ready(Seq::empty())),
{
}

/// A whole write of `buf` to the stream `s`, with what the sink answers when it is asked: the messages that were
/// handed to the sink, and how the write ends.
pub open spec fn write(
    s: StreamState,
    buf: Seq<u8>,
    readied: SinkPoll,
    sent: Result<(), String>,
    flushed: SinkPoll,
) -> (Seq<Seq<u8>>, WriteNext) {
    match write_next(s, buf, WriteEvent::Start) {
        WriteNext::PollReady => match write_next(s, buf, WriteEvent::Readied(readied)) {
            WriteNext::Send(data) => {
                let handed = if sent is Ok {
                    seq![data]
                } else {
                    Seq::empty()
                };
                match write_next(s, buf, WriteEvent::Sent(sent)) {
                    WriteNext::Flush => (handed, write_next(s, buf, WriteEvent::Flushed(flushed))),
                    end => (handed, end),
                }
            },
            end => (Seq::empty(), end),
        },
        end => (Seq::empty(), end),
    }
}

/// A write that reports bytes has handed exactly these to the sink, as one message; a write that is
/// to be tried again has handed it nothing. So no byte is reported that was not sent, and none is
/// sent twice. On a stream that is not closed, a sink that takes the message and does not fail makes
/// the write succeed.
pub proof fn law_writes_report_what_was_sent(
    s: StreamState,
    buf: Seq<u8>,
    readied: SinkPoll,
    sent: Result<(), String>,
    flushed: SinkPoll,
)
    ensures
        ({
            let (handed, end) = write(s, buf, readied, sent, flushed);
            &&& end matches WriteNext::Ready(n) ==> n == buf.len() && handed == (if n == 0 {
                Seq::empty()
            } else {
                seq![buf]
            })
            &&& end is Pending ==> handed == Seq::<Seq<u8>>::empty()
            &&& end is Ready || end is Pending || end is Fault
            &&& !s.closed && readied is Done && sent is Ok && !(flushed is Fault) ==> end is Ready
        }),
{
}

/// A closed stream takes no bytes: a write of any ends in a failure, whatever the sink would answer,
/// and hands the sink nothing.
pub proof fn law_writes_to_a_closed_stream_fail(
    s: StreamState,
    buf: Seq<u8>,
    readied: SinkPoll,
    sent: Result<(), String>,
    flushed: SinkPoll,
)
    requires
        s.closed,
        buf.len() > 0,
    ensures
        write(s, buf, readied, sent, flushed) == (
            Seq::<Seq<u8>>::empty(),
            WriteNext::Fault(closed_write()),
        ),
{
}

/// A read with nothing to hand out waits where no message is ready, is at the end of the stream where it
/// was closed, and fails at once where a fault or a message of the wrong kind comes. `k` is the number
/// of messages before the first that is not data; they carry no bytes.
pub proof fn law_reads_without_bytes_tell_why(
    s: StreamState,
    room: nat,
    messages: Seq<WsMessage>,
    k: int,
)
    requires
        room > 0,
        s.pending.len() == 0,
        !s.closed,
        s.fault is None,
        0 <= k <= messages.len(),
        forall|i: int| 0 <= i < k ==> carries_data(#[trigger] messages[i]),
        k < messages.len() ==> !carries_data(messages[k]),
        payload(messages.take(k)).len() == 0,
    ensures
        ({
            let (next, left, outcome) = read(s, room, messages);
            &&& k == messages.len() ==> outcome == ReadOutcome::Pending && next == s && left
                == Seq::<WsMessage>::empty()
            &&& k < messages.len() ==> {
                &&& left == messages.skip(k + 1)
                &&& messages[k] is NotReady ==> outcome == ReadOutcome::Pending && next == s
                &&& messages[k] is Close || messages[k] is End ==> outcome == ReadOutcome::Ready(
                    Seq::empty(),
                ) && next == (StreamState { pending: s.pending, closed: true, fault: None })
                &&& messages[k] is Text || messages[k] is Frame ==> outcome == ReadOutcome::Fault(
                    "unexpected non-binary WS frame on MPC mux stream"@,
                ) && next == s
                &&& messages[k] matches WsMessage::Fault(reason) ==> outcome == ReadOutcome::Fault(
                    reason@,
                ) && next == s
            }
        }),
{
    lemma_await_joins(s, room, Seq::empty(), messages, k);
    let all = Seq::<u8>::empty() + payload(messages.take(k));
    assert(all =~= Seq::empty());
    let rest = messages.skip(k);
    if k < messages.len() {
        assert(rest[0] == messages[k]);
        assert(rest.skip(1) =~= messages.skip(k + 1));
    } else {
        assert(rest =~= Seq::empty());
    }
}

/// A read into a buffer without room changes nothing.
pub proof fn law_reads_without_room_change_nothing(s: StreamState, messages: Seq<WsMessage>)
    ensures
        read(s, 0, messages) == (s, messages, ReadOutcome::Ready(Seq::empty())),
{
}

/// A fault that came behind bytes is told by the next read, once.
pub proof fn law_a_kept_fault_is_told_once(s: StreamState, room: nat, messages: Seq<WsMessage>)
    requires
        room > 0,
        s.pending.len() == 0,
        !s.closed,
        s.fault is Some,
    ensures
        read(s, room, messages) == (
            StreamState { pending: s.pending, closed: false, fault: None },
            messages,
            ReadOutcome::Fault(s.fault->0),
        ),
{
}

/// What a step says of a read is so: the bytes stand at the front of the buffer in order, and what
/// stands behind them is as it was.
pub proof fn law_steps_show_the_bytes(
    step: ReadStep,
    before: Seq<u8>,
    after: Seq<u8>,
    data: Seq<u8>,
    reason: Seq<char>,
    i: int,
)
    requires
        data.len() <= before.len(),
        0 <= i < before.len(),
    ensures
        shows(step, before, after, ReadOutcome::Ready(data)) ==> {
            &&& step == ReadStep::Ready(data.len() as usize) && step->Ready_0 == data.len()
            &&& after.len() == before.len()
            &&& i < data.len() ==> after[i] == data[i]
            &&& i >= data.len() ==> after[i] == before[i]
        },
        shows(step, before, after, ReadOutcome::NextMessage(data)) ==> {
            &&& step is NextMessage && step->NextMessage_0 == data.len()
            &&& after.len() == before.len()
            &&& i < data.len() ==> after[i] == data[i]
            &&& i >= data.len() ==> after[i] == before[i]
        },
        shows(step, before, after, ReadOutcome::Fault(reason)) ==> step is Fault && step->Fault_0@
            == reason && after == before,
        shows(step, before, after, ReadOutcome::Pending) ==> step is Pending && after == before,
{
}

/// A write goes through its steps in order: the sink is asked whether it takes a message, gets all
/// bytes as one, and is asked to put it out. It is done whether or not that could be done at once.
pub proof fn law_writes_go_through_their_steps(s: StreamState, buf: Seq<u8>, reason: String)
    ensures
        buf.len() == 0 ==> write_next(s, buf, WriteEvent::Start) == WriteNext::Ready(0),
        buf.len() > 0 && s.closed ==> write_next(s, buf, WriteEvent::Start) == WriteNext::Fault(
            "write on a closed WS stream"@,
        ),
        buf.len() > 0 && !s.closed ==> write_next(s, buf, WriteEvent::Start) == WriteNext::PollReady,
        write_next(s, buf, WriteEvent::Readied(SinkPoll::Done)) == WriteNext::Send(buf),
        write_next(s, buf, WriteEvent::Readied(SinkPoll::Pending)) == WriteNext::Pending,
        write_next(s, buf, WriteEvent::Readied(SinkPoll::Fault(reason))) == WriteNext::Fault(reason@),
        write_next(s, buf, WriteEvent::Sent(Ok(()))) == WriteNext::Flush,
        write_next(s, buf, WriteEvent::Sent(Err(reason))) == WriteNext::Fault(reason@),
        write_next(s, buf, WriteEvent::Flushed(SinkPoll::Done)) == WriteNext::Ready(buf.len()),
        write_next(s, buf, WriteEvent::Flushed(SinkPoll::Pending)) == WriteNext::Ready(buf.len()),
        write_next(s, buf, WriteEvent::Flushed(SinkPoll::Fault(reason))) == WriteNext::Fault(reason@),
{
}

/// The steps of a write say what they hold.
pub proof fn law_write_steps_say_what_they_hold(n: usize, data: Vec<u8>, reason: String)
    ensures
        WriteStep::Ready(n)@ == WriteNext::Ready(n as nat),
        WriteStep::Pending@ == WriteNext::Pending,
        WriteStep::Fault(reason)@ == WriteNext::Fault(reason@),
        WriteStep::PollReady@ == WriteNext::PollReady,
        WriteStep::Send(data)@ == WriteNext::Send(data@),
        WriteStep::Flush@ == WriteNext::Flush,
{
}

} // verus!
