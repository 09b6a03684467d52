//! A poll-based byte stream over a completion-based TCP handle.
//!
//! The handle itself is driven by the caller: a method says what to start on the
//! handle, and the callbacks of the handle report back through the `on_` methods.
//! Those hand out the waker that has to be called.
use crate::progress::Progress;
use crate::reads::{copy_into_from_vec_buffs, ReadChunk, UvError};
use std::collections::VecDeque;
use vstd::prelude::*;

verus! {

/// Why an operation on the stream failed.
#[derive(Clone, Copy, Debug, PartialEq, Eq)]
pub enum TcpError<E> {
    /// Another task is already waiting for the same thing.
    AlreadyExists,
    Uv(UvError<E>),
}

/// The state of a TCP stream, for wakers `W` and foreign errors `E`.
pub struct MyTcp<W, E> {
    writes: Vec<Option<W>>,
    read_start: bool,
    read_waker: Option<W>,
    reads: VecDeque<Result<ReadChunk, UvError<E>>>,
    close_waker: Option<W>,
}

/// A TCP stream as its contracts see it.
#[verifier::ext_equal]
pub struct TcpView<W, E> {
    /// One slot per write in flight; the bottom slot holds the waker of a flush.
    pub writes: Seq<Option<W>>,
    /// Whether the handle has been told to read.
    pub read_start: bool,
    /// The task that waits for bytes.
    pub read_waker: Option<W>,
    /// What has arrived and has not been read.
    pub reads: Seq<Result<ReadChunk, UvError<E>>>,
    /// The task that waits for the handle to close.
    pub close_waker: Option<W>,
}

impl<W, E> TcpView<W, E> {
    /// A task waits for bytes only while there are none and the handle reads, and only
    /// the bottom write holds a waker.
    pub open spec fn wf(self) -> bool {
        &&& crate::reads::queue_wf(self.reads)
        &&& self.read_waker is Some ==> self.reads.len() == 0
        &&& self.read_waker is Some ==> self.read_start
        &&& forall|i: int| 0 < i < self.writes.len() ==> (#[trigger] self.writes[i]) is None
    }

    /// A stream on which nothing has happened.
    pub open spec fn fresh() -> TcpView<W, E> {
        TcpView {
            writes: Seq::empty(),
            read_start: false,
            read_waker: None,
            reads: Seq::empty(),
            close_waker: None,
        }
    }

    /// The stream after the handle has been told to read.
    pub open spec fn reading(self) -> TcpView<W, E> {
        TcpView { read_start: true, ..self }
    }

    /// The stream after `item` has arrived.
    pub open spec fn arrived(self, item: Result<ReadChunk, UvError<E>>) -> TcpView<W, E> {
        TcpView { reads: self.reads.push(item), read_waker: None, ..self }
    }

    /// The stream after a poll for bytes by the task behind `waker`, into `room` bytes.
    pub open spec fn read_polled(self, waker: W, room: nat) -> TcpView<W, E> {
        if self.read_waker is Some {
            self
        } else if self.reads.len() == 0 {
            TcpView { read_waker: Some(waker), ..self }
        } else {
            TcpView { reads: crate::reads::read_rest(self.reads, room), ..self }
        }
    }

    /// What that poll reports.
    pub open spec fn read_progress(self, room: nat) -> Progress<Result<usize, TcpError<E>>> {
        if self.read_waker is Some {
            Progress::Ready(Err(TcpError::AlreadyExists))
        } else if self.reads.len() == 0 {
            Progress::Pending
        } else {
            match crate::reads::read_result(self.reads, room) {
                Ok(count) => Progress::Ready(Ok(count)),
                Err(error) => Progress::Ready(Err(TcpError::Uv(error))),
            }
        }
    }

    /// What that poll makes of the buffer `dest`.
    pub open spec fn read_buffer(self, dest: Seq<u8>) -> Seq<u8> {
        if self.read_waker is Some {
            dest
        } else {
            crate::reads::read_into(self.reads, dest)
        }
    }

    /// The bytes that a poll into `room` bytes hands out.
    pub open spec fn read_bytes(self, room: nat) -> Seq<u8> {
        if self.read_waker is Some {
            Seq::empty()
        } else {
            crate::reads::readable(self.reads).take(crate::reads::taken(self.reads, room) as int)
        }
    }

    /// The stream after one more write has been queued.
    pub open spec fn write_begun(self) -> TcpView<W, E> {
        TcpView { writes: self.writes.push(None), ..self }
    }

    /// The stream after one write has completed.
    pub open spec fn written(self) -> TcpView<W, E> {
        if self.writes.len() == 0 {
            self
        } else {
            TcpView { writes: self.writes.drop_last(), ..self }
        }
    }

    /// The waker to call when one write has completed.
    pub open spec fn woken_by_write(self) -> Option<W> {
        if self.writes.len() == 0 {
            None
        } else {
            self.writes.last()
        }
    }

    /// The stream after a poll for a flush by the task behind `waker`.
    pub open spec fn flush_polled(self, waker: W) -> TcpView<W, E> {
        if self.writes.len() == 0 {
            self
        } else {
            TcpView { writes: self.writes.update(0, Some(waker)), ..self }
        }
    }

    /// What a poll for a flush reports.
    pub open spec fn flush_progress(self) -> Progress<Result<(), TcpError<E>>> {
        if self.writes.len() == 0 {
            Progress::Ready(Ok(()))
        } else {
            Progress::Pending
        }
    }

    /// The stream after a poll for it to close by the task behind `waker`.
    pub open spec fn close_polled(self, waker: W) -> TcpView<W, E> {
        if self.close_waker is Some {
            self
        } else {
            TcpView { close_waker: Some(waker), ..self }
        }
    }

    /// What that poll reports.
    pub open spec fn close_progress(self) -> Progress<Result<(), TcpError<E>>> {
        if self.close_waker is Some {
            Progress::Ready(Err(TcpError::AlreadyExists))
        } else {
            Progress::Pending
        }
    }

    /// The stream after the handle has closed.
    pub open spec fn closed(self) -> TcpView<W, E> {
        TcpView { close_waker: None, ..self }
    }
}

/// What the write of `count` bytes reports that the handle took as `submitted` says.
pub open spec fn write_progress<E>(
    count: nat,
    submitted: Result<(), UvError<E>>,
) -> Progress<Result<usize, TcpError<E>>> {
    Progress::Ready(
        match submitted {
            Ok(_) => Ok(count as usize),
            Err(error) => Err(TcpError::Uv(error)),
        },
    )
}

/// Something that happens to a stream.
pub enum StreamEvent<W, E> {
    /// The handle has read a chunk, or has failed.
    Arrived { item: Result<ReadChunk, UvError<E>> },
    /// The task behind `waker` polls for up to `room` bytes, once the handle reads.
    Polled { waker: W, room: nat },
}

/// A stream after a series of events.
pub open spec fn stream_after<W, E>(
    start: TcpView<W, E>,
    events: Seq<StreamEvent<W, E>>,
) -> TcpView<W, E>
    decreases events.len(),
{
    if events.len() == 0 {
        start
    } else {
        let before = stream_after(start, events.drop_last());
        match events.last() {
            StreamEvent::Arrived { item } => before.arrived(item),
            StreamEvent::Polled { waker, room } => before.reading().read_polled(waker, room),
        }
    }
}

/// The bytes that the polls among the events have handed out, in order.
pub open spec fn handed_out<W, E>(
    start: TcpView<W, E>,
    events: Seq<StreamEvent<W, E>>,
) -> Seq<u8>
    decreases events.len(),
{
    if events.len() == 0 {
        Seq::empty()
    } else {
        let before = stream_after(start, events.drop_last());
        handed_out(start, events.drop_last()) + match events.last() {
            StreamEvent::Arrived { .. } => Seq::empty(),
            StreamEvent::Polled { waker: _, room } => before.reading().read_bytes(room),
        }
    }
}

/// The errors of the handle that the polls among the events have reported, in order.
pub open spec fn reported<W, E>(
    start: TcpView<W, E>,
    events: Seq<StreamEvent<W, E>>,
) -> Seq<UvError<E>>
    decreases events.len(),
{
    if events.len() == 0 {
        Seq::empty()
    } else {
        let before = stream_after(start, events.drop_last());
        reported(start, events.drop_last()) + match events.last() {
            StreamEvent::Arrived { .. } => Seq::empty(),
            StreamEvent::Polled { waker: _, room } => match before.reading().read_progress(room) {
                Progress::Ready(Err(TcpError::Uv(error))) => seq![error],
                _ => Seq::empty(),
            },
        }
    }
}

/// The bytes that have arrived with the events, in order.
pub open spec fn arrivals<W, E>(events: Seq<StreamEvent<W, E>>) -> Seq<u8>
    decreases events.len(),
{
    if events.len() == 0 {
        Seq::empty()
    } else {
        arrivals(events.drop_last()) + match events.last() {
            StreamEvent::Arrived { item: Ok(chunk) } => chunk.unread(),
            _ => Seq::empty(),
        }
    }
}

/// The errors that have arrived with the events, in order.
pub open spec fn failures<W, E>(events: Seq<StreamEvent<W, E>>) -> Seq<UvError<E>>
    decreases events.len(),
{
    if events.len() == 0 {
        Seq::empty()
    } else {
        failures(events.drop_last()) + match events.last() {
            StreamEvent::Arrived { item: Err(error) } => seq![error],
            _ => Seq::empty(),
        }
    }
}

/// Something that happens to the writes of a stream.
pub enum WriteEvent<W> {
    /// A write is queued.
    Begun,
    /// A write has completed.
    Written,
    /// The task behind `waker` polls for a flush.
    Flushed { waker: W },
}

/// How many writes were queued among the events.
pub open spec fn begun<W>(events: Seq<WriteEvent<W>>) -> int
    decreases events.len(),
{
    if events.len() == 0 {
        0
    } else {
        begun(events.drop_last()) + if events.last() is Begun {
            1int
        } else {
            0
        }
    }
}

/// How many writes have completed among the events.
pub open spec fn completed<W>(events: Seq<WriteEvent<W>>) -> int
    decreases events.len(),
{
    if events.len() == 0 {
        0
    } else {
        completed(events.drop_last()) + if events.last() is Written {
            1int
        } else {
            0
        }
    }
}

/// The task that polled last for a flush among the events; the one behind `waker` if none
/// did.
pub open spec fn last_flusher<W>(waker: W, events: Seq<WriteEvent<W>>) -> W
    decreases events.len(),
{
    if events.len() == 0 {
        waker
    } else {
        match events.last() {
            WriteEvent::Flushed { waker } => waker,
            _ => last_flusher(waker, events.drop_last()),
        }
    }
}

/// A stream after a series of events of its writes.
pub open spec fn after_writes<W, E>(
    start: TcpView<W, E>,
    events: Seq<WriteEvent<W>>,
) -> TcpView<W, E>
    decreases events.len(),
{
    if events.len() == 0 {
        start
    } else {
        let before = after_writes(start, events.drop_last());
        match events.last() {
            WriteEvent::Begun => before.write_begun(),
            WriteEvent::Written => before.written(),
            WriteEvent::Flushed { waker } => before.flush_polled(waker),
        }
    }
}

impl<W, E> View for MyTcp<W, E> {
    type V = TcpView<W, E>;

    closed spec fn view(&self) -> TcpView<W, E> {
        TcpView {
            writes: self.writes@,
            read_start: self.read_start,
            read_waker: self.read_waker,
            reads: self.reads@,
            close_waker: self.close_waker,
        }
    }
}

impl<W, E> MyTcp<W, E> {
    /// A stream on which nothing has happened.
    pub fn new() -> (tcp: MyTcp<W, E>)
        ensures
            tcp@ == TcpView::<W, E>::fresh(),
            tcp@.wf(),
    {
        MyTcp {
            writes: Vec::new(),
            read_start: false,
            read_waker: None,
            reads: VecDeque::new(),
            close_waker: None,
        }
    }

    /// Reports how the handle took a request to connect. Whatever went wrong, the
    /// failure is a fault; without one, the result comes through the callback.
    pub fn connect<X>(&mut self, started: Result<(), X>) -> (result: Result<(), UvError<E>>)
        ensures
            final(self)@ == old(self)@,
            result == match started {
                Ok(_) => Ok::<(), UvError<E>>(()),
                Err(_) => Err(UvError::Fault),
            },
    {
        match started {
            Ok(_) => Ok(()),
            Err(_) => Err(UvError::Fault),
        }
    }

    /// Whether the handle still has to be told to read. It is told once.
    pub fn start_reading(&mut self) -> (needed: bool)
        ensures
            needed == !old(self)@.read_start,
            final(self)@ == old(self)@.reading(),
            final(self)@.read_start,
            old(self)@.wf() ==> final(self)@.wf(),
    {
        let needed = !self.read_start;
        self.read_start = true;
        needed
    }

    /// Polls for bytes, once the handle has been told to read with the outcome
    /// `started`. A failure to start is reported. A second task may not wait. If
    /// nothing has arrived the task waits; else it gets what has arrived.
    pub fn poll_read(
        &mut self,
        started: Result<(), UvError<E>>,
        waker: W,
        buf: &mut [u8],
    ) -> (result: Progress<Result<usize, TcpError<E>>>)
        requires
            old(self)@.wf(),
            started is Ok ==> old(self)@.read_start,
        ensures
            final(self)@.wf(),
            match started {
                Err(error) => {
                    &&& result == Progress::Ready(Err::<usize, TcpError<E>>(TcpError::Uv(error)))
                    &&& final(self)@ == old(self)@
                    &&& final(buf)@ == old(buf)@
                },
                Ok(_) => {
                    &&& result == old(self)@.read_progress(old(buf)@.len())
                    &&& final(self)@ == old(self)@.read_polled(waker, old(buf)@.len())
                    &&& final(buf)@ == old(self)@.read_buffer(old(buf)@)
                },
            },
    {
        if let Err(error) = started {
            return Progress::Ready(Err(TcpError::Uv(error)));
        }
        if self.read_waker.is_some() {
            return Progress::Ready(Err(TcpError::AlreadyExists));
        }
        if self.reads.len() == 0 {
            self.read_waker = Some(waker);
            assert(crate::reads::read_into(old(self)@.reads, buf@) =~= buf@);
            return Progress::Pending;
        }
        match copy_into_from_vec_buffs(buf, &mut self.reads) {
            Ok(count) => Progress::Ready(Ok(count)),
            Err(error) => Progress::Ready(Err(TcpError::Uv(error))),
        }
    }

    /// The handle has read `status`: the bytes, or the error, queue up, and the task
    /// that waits for bytes is to be woken.
    pub fn on_read(&mut self, status: Result<Vec<u8>, UvError<E>>) -> (woken: Option<W>)
        requires
            old(self)@.wf(),
        ensures
            final(self)@.wf(),
            final(self)@ == old(self)@.arrived(
                match status {
                    Ok(bytes) => Ok(ReadChunk { start: 0, len: bytes@.len() as usize, bytes }),
                    Err(error) => Err(error),
                },
            ),
            woken == old(self)@.read_waker,
            final(self)@.read_waker is None,
            final(self)@.reads.len() == old(self)@.reads.len() + 1,
            final(self)@.reads.drop_last() == old(self)@.reads,
            match status {
                Ok(bytes) => final(self)@.reads.last() matches Ok(chunk) && chunk.unread() == bytes@,
                Err(error) => final(self)@.reads.last() == Err::<ReadChunk, UvError<E>>(error),
            },
    {
        match status {
            Ok(bytes) => {
                self.reads.push_back(Ok(ReadChunk::new(bytes)));
            },
            Err(error) => {
                self.reads.push_back(Err(error));
            },
        }
        self.read_waker.take()
    }

    /// Queues a write. The bytes are then handed to the handle.
    pub fn begin_write(&mut self)
        requires
            old(self)@.wf(),
        ensures
            final(self)@.wf(),
            final(self)@ == old(self)@.write_begun(),
            final(self)@.writes.len() == old(self)@.writes.len() + 1,
    {
        self.writes.push(None);
    }

    /// Reports how the handle took the write of `buf`: it takes all or nothing, and
    /// never makes the writer wait. A write that was refused keeps its place in the
    /// queue.
    pub fn poll_write(
        &self,
        buf: &[u8],
        submitted: Result<(), UvError<E>>,
    ) -> (result: Progress<Result<usize, TcpError<E>>>)
        ensures
            result == write_progress(buf@.len(), submitted),
            result == Progress::Ready(
                match submitted {
                    Ok(_) => Ok::<usize, TcpError<E>>(buf@.len() as usize),
                    Err(error) => Err(TcpError::Uv(error)),
                },
            ),
    {
        match submitted {
            Ok(_) => Progress::Ready(Ok(buf.len())),
            Err(error) => Progress::Ready(Err(TcpError::Uv(error))),
        }
    }

    /// The handle has completed a write. If a flush waits and this was the last
    /// write, its task is to be woken.
    pub fn on_written(&mut self) -> (woken: Option<W>)
        requires
            old(self)@.wf(),
        ensures
            final(self)@.wf(),
            final(self)@ == old(self)@.written(),
            woken == old(self)@.woken_by_write(),
            woken is Some ==> old(self)@.writes.len() == 1,
            old(self)@.writes.len() > 0 ==> final(self)@.writes.len() == old(self)@.writes.len() - 1,
            old(self)@.writes.len() == 1 ==> woken == old(self)@.writes[0],
    {
        match self.writes.pop() {
            Some(slot) => slot,
            None => None,
        }
    }

    /// Polls for all writes to be completed. While some are in flight the task waits
    /// at the bottom of them.
    pub fn poll_flush(&mut self, waker: W) -> (result: Progress<Result<(), TcpError<E>>>)
        requires
            old(self)@.wf(),
        ensures
            final(self)@.wf(),
            result == old(self)@.flush_progress(),
            result == if old(self)@.writes.len() == 0 {
                Progress::Ready(Ok::<(), TcpError<E>>(()))
            } else {
                Progress::Pending
            },
            final(self)@ == old(self)@.flush_polled(waker),
            final(self)@.writes.len() == old(self)@.writes.len(),
            old(self)@.writes.len() > 0 ==> final(self)@.writes[0] == Some(waker),
    {
        if self.writes.len() == 0 {
            return Progress::Ready(Ok(()));
        }
        self.writes[0] = Some(waker);
        Progress::Pending
    }

    /// Polls for the stream to close. A second task may not wait; else the task
    /// waits, and the handle is to be closed.
    pub fn poll_close(&mut self, waker: W) -> (result: Progress<Result<(), TcpError<E>>>)
        ensures
            result == old(self)@.close_progress(),
            final(self)@ == old(self)@.close_polled(waker),
            result == if old(self)@.close_waker is Some {
                Progress::Ready(Err::<(), TcpError<E>>(TcpError::AlreadyExists))
            } else {
                Progress::Pending
            },
            final(self)@ == if old(self)@.close_waker is Some {
                old(self)@
            } else {
                TcpView { close_waker: Some(waker), ..old(self)@ }
            },
            old(self)@.wf() ==> final(self)@.wf(),
    {
        if self.close_waker.is_some() {
            return Progress::Ready(Err(TcpError::AlreadyExists));
        }
        self.close_waker = Some(waker);
        Progress::Pending
    }

    /// The handle has closed: the task that waits for it is to be woken.
    pub fn on_closed(&mut self) -> (woken: Option<W>)
        ensures
            woken == old(self)@.close_waker,
            final(self)@ == old(self)@.closed(),
            final(self)@ == (TcpView { close_waker: None, ..old(self)@ }),
            old(self)@.wf() ==> final(self)@.wf(),
    {
        self.close_waker.take()
    }
}

/// The count that a poll reports and the buffer that it leaves agree with the bytes
/// that it hands out: the buffer starts with them and is otherwise untouched.
pub proof fn law_poll_hands_out_bytes<W, E>(tcp: TcpView<W, E>, dest: Seq<u8>)
    requires
        tcp.wf(),
        dest.len() <= usize::MAX,
    ensures
        tcp.read_buffer(dest) == tcp.read_bytes(dest.len()) + dest.skip(
            tcp.read_bytes(dest.len()).len() as int,
        ),
        tcp.read_progress(dest.len()) matches Progress::Ready(Ok(count)) ==> count
            == tcp.read_bytes(dest.len()).len(),
        !(tcp.read_progress(dest.len()) matches Progress::Ready(Ok(_))) ==> tcp.read_bytes(
            dest.len(),
        ).len() == 0,
{
    assert(dest.skip(0) =~= dest);
    assert(Seq::<u8>::empty() + dest =~= dest);
}

/// Every byte that arrives is handed out once, in the order of arrival, whatever errors
/// arrive with them: what the polls have handed out, followed by what is still unread, is
/// what was unread at first, followed by what has arrived.
pub proof fn law_stream_in_order<W, E>(start: TcpView<W, E>, events: Seq<StreamEvent<W, E>>)
    requires
        start.wf(),
        forall|i: int|
            0 <= i < events.len() && (#[trigger] events[i]) is Arrived && events[i]->item is Ok
                ==> events[i]->item->Ok_0.wf(),
    ensures
        stream_after(start, events).wf(),
        handed_out(start, events) + crate::reads::unread(stream_after(start, events).reads)
            == crate::reads::unread(start.reads) + arrivals(events),
    decreases events.len(),
{
    if events.len() == 0 {
        assert(Seq::<u8>::empty() + crate::reads::unread(start.reads) =~= crate::reads::unread(
            start.reads,
        ) + Seq::<u8>::empty());
    } else {
        let earlier = events.drop_last();
        let before = stream_after(start, earlier);
        let after = stream_after(start, events);
        law_stream_in_order(start, earlier);
        lemma_stream_step(before, events.last());
        let out = handed_out(start, earlier);
        let waiting = crate::reads::unread(before.reads);
        let first = crate::reads::unread(start.reads);
        match events.last() {
            StreamEvent::Arrived { item } => {
                let new = match item {
                    Ok(chunk) => chunk.unread(),
                    Err(_) => Seq::empty(),
                };
                crate::reads::law_arrivals_go_last(before.reads, item);
                assert(out + Seq::<u8>::empty() + (waiting + new) =~= (out + waiting) + new);
                assert(first + (arrivals(earlier) + new) =~= (first + arrivals(earlier)) + new);
            },
            StreamEvent::Polled { waker: _, room } => {
                let taken = before.reading().read_bytes(room);
                assert((out + taken) + crate::reads::unread(after.reads) =~= out + (taken
                    + crate::reads::unread(after.reads)));
                assert(first + (arrivals(earlier) + Seq::<u8>::empty()) =~= first + arrivals(
                    earlier,
                ));
            },
        }
    }
}

/// Every error that arrives is reported once, in the order of arrival, and the end of the
/// stream stays: the errors that the polls have reported, followed by those that are left,
/// are those of the beginning, followed by those that have arrived.
pub proof fn law_errors_in_order<W, E>(start: TcpView<W, E>, events: Seq<StreamEvent<W, E>>)
    requires
        start.wf(),
        forall|i: int|
            0 <= i < events.len() && (#[trigger] events[i]) is Arrived && events[i]->item is Ok
                ==> events[i]->item->Ok_0.wf(),
    ensures
        reported(start, events) + crate::reads::errors(stream_after(start, events).reads)
            == crate::reads::errors(start.reads) + failures(events),
        !reported(start, events).contains(UvError::<E>::Eof),
    decreases events.len(),
{
    if events.len() == 0 {
        assert(Seq::<UvError<E>>::empty() + crate::reads::errors(start.reads)
            =~= crate::reads::errors(start.reads) + Seq::<UvError<E>>::empty());
    } else {
        let earlier = events.drop_last();
        let before = stream_after(start, earlier);
        let after = stream_after(start, events);
        law_stream_in_order(start, earlier);
        law_errors_in_order(start, earlier);
        lemma_stream_step(before, events.last());
        let out = reported(start, earlier);
        let waiting = crate::reads::errors(before.reads);
        let first = crate::reads::errors(start.reads);
        match events.last() {
            StreamEvent::Arrived { item } => {
                let new = match item {
                    Ok(_) => Seq::empty(),
                    Err(error) => seq![error],
                };
                crate::reads::law_arrivals_go_last(before.reads, item);
                assert(out + Seq::<UvError<E>>::empty() + (waiting + new) =~= (out + waiting)
                    + new);
                assert(first + (failures(earlier) + new) =~= (first + failures(earlier)) + new);
                assert(reported(start, events) =~= out);
            },
            StreamEvent::Polled { waker: _, room } => {
                let new = match before.reading().read_progress(room) {
                    Progress::Ready(Err(TcpError::Uv(error))) => seq![error],
                    _ => Seq::empty(),
                };
                assert((out + new) + crate::reads::errors(after.reads) =~= out + (new
                    + crate::reads::errors(after.reads)));
                assert(first + (failures(earlier) + Seq::<UvError<E>>::empty()) =~= first
                    + failures(earlier));
                assert forall|i: int| 0 <= i < (out + new).len() implies (out + new)[i]
                    != UvError::<E>::Eof by {
                    if i < out.len() {
                        assert(out.contains(out[i]));
                    }
                }
            },
        }
    }
}

/// What one event makes of the bytes and errors that wait.
proof fn lemma_stream_step<W, E>(before: TcpView<W, E>, event: StreamEvent<W, E>)
    requires
        before.wf(),
        event is Arrived && event->item is Ok ==> event->item->Ok_0.wf(),
    ensures
        match event {
            StreamEvent::Arrived { item } => before.arrived(item).wf(),
            StreamEvent::Polled { waker, room } => {
                let after = before.reading().read_polled(waker, room);
                &&& after.wf()
                &&& before.reading().read_bytes(room) + crate::reads::unread(after.reads)
                    == crate::reads::unread(before.reads)
                &&& crate::reads::errors(before.reads) == match before.reading().read_progress(
                    room,
                ) {
                    Progress::Ready(Err(TcpError::Uv(error))) => seq![error],
                    _ => Seq::empty(),
                } + crate::reads::errors(after.reads)
                &&& before.reading().read_progress(room) matches Progress::Ready(
                    Err(TcpError::Uv(error)),
                ) ==> error != UvError::<E>::Eof
            },
        },
{
    match event {
        StreamEvent::Arrived { item } => {
            let after = before.arrived(item);
            assert forall|i: int|
                0 <= i < after.reads.len() && (#[trigger] after.reads[i]) is Ok implies after.reads[
                i
            ]->Ok_0.wf() by {
                if i < before.reads.len() {
                    assert(after.reads[i] == before.reads[i]);
                }
            }
        },
        StreamEvent::Polled { waker, room } => {
            let reading = before.reading();
            let after = reading.read_polled(waker, room);
            let none = Seq::<u8>::empty();
            if reading.read_waker is Some || reading.reads.len() == 0 {
                assert(reading.read_bytes(room) =~= none);
                assert(none + crate::reads::unread(after.reads) =~= crate::reads::unread(
                    before.reads,
                ));
            } else if reading.reads[0] is Err {
                assert(reading.read_bytes(room) =~= none);
                assert(none + crate::reads::unread(after.reads) =~= crate::reads::unread(
                    before.reads,
                ));
                assert forall|i: int|
                    0 <= i < after.reads.len() && (#[trigger] after.reads[i]) is Ok implies after.reads[
                    i
                ]->Ok_0.wf() by {
                    if reading.reads[0]->Err_0 != UvError::<E>::Eof {
                        assert(after.reads[i] == before.reads[i + 1]);
                    }
                }
            } else {
                crate::reads::law_read_conserves_stream(reading.reads, room);
                crate::reads::law_read_keeps_the_rest(reading.reads, room);
            }
            assert(crate::reads::errors(before.reads) =~= match reading.read_progress(room) {
                Progress::Ready(Err(TcpError::Uv(error))) => seq![error],
                _ => Seq::empty(),
            } + crate::reads::errors(after.reads));
        },
    }
}

/// No wake-up is lost: a task that was told to wait for bytes is the one that the
/// next arrival wakes, and its next poll does not make it wait.
pub proof fn law_arrival_wakes_reader<W, E>(
    tcp: TcpView<W, E>,
    waker: W,
    room: nat,
    item: Result<ReadChunk, UvError<E>>,
    next_room: nat,
)
    requires
        tcp.read_progress(room) is Pending,
    ensures
        tcp.read_polled(waker, room).read_waker == Some(waker),
        tcp.read_polled(waker, room).arrived(item).read_waker is None,
        tcp.read_polled(waker, room).arrived(item).read_progress(next_room) is Ready,
        tcp.read_polled(waker, room).arrived(item).read_progress(next_room) != Progress::Ready(
            Err::<usize, TcpError<E>>(TcpError::AlreadyExists),
        ),
{
}

/// While something waits to be read, a poll neither waits nor is refused.
pub proof fn law_waiting_bytes_are_read<W, E>(tcp: TcpView<W, E>, room: nat)
    requires
        tcp.wf(),
        tcp.reads.len() > 0,
    ensures
        tcp.read_progress(room) is Ready,
        tcp.read_progress(room) != Progress::Ready(
            Err::<usize, TcpError<E>>(TcpError::AlreadyExists),
        ),
{
}

/// The end of the stream is final: once it has been reached, every poll reports zero
/// bytes and changes nothing, whatever arrives later.
pub proof fn law_end_of_stream_is_final<W, E>(
    tcp: TcpView<W, E>,
    waker: W,
    room: nat,
    item: Result<ReadChunk, UvError<E>>,
)
    requires
        tcp.wf(),
        crate::reads::front_error(tcp.reads) == Some(UvError::<E>::Eof),
    ensures
        tcp.read_progress(room) == Progress::Ready(Ok::<usize, TcpError<E>>(0)),
        tcp.read_polled(waker, room) == tcp,
        crate::reads::front_error(tcp.arrived(item).reads) == Some(UvError::<E>::Eof),
{
}

/// Any other error is reported to one poll and is then gone.
pub proof fn law_error_is_reported_once<W, E>(
    tcp: TcpView<W, E>,
    waker: W,
    room: nat,
    error: UvError<E>,
)
    requires
        tcp.wf(),
        crate::reads::front_error(tcp.reads) == Some(error),
        error != UvError::<E>::Eof,
    ensures
        tcp.read_progress(room) == Progress::Ready(
            Err::<usize, TcpError<E>>(TcpError::Uv(error)),
        ),
        tcp.read_polled(waker, room).reads == tcp.reads.drop_first(),
{
}

/// A flush is woken exactly by the completion that leaves no write in flight, also where
/// writes are queued while it waits. If several tasks have polled for it, the last is
/// woken.
pub proof fn law_flush_woken_by_last_write<W, E>(
    tcp: TcpView<W, E>,
    waker: W,
    events: Seq<WriteEvent<W>>,
)
    requires
        tcp.wf(),
        forall|n: int|
            0 <= n <= events.len() ==> tcp.writes.len() + begun(#[trigger] events.take(n))
                - completed(events.take(n)) > 0,
    ensures
        ({
            let waiting = after_writes(tcp.flush_polled(waker), events);
            let left = tcp.writes.len() + begun(events) - completed(events);
            &&& waiting.wf()
            &&& waiting.writes.len() == left
            &&& waiting.writes[0] == Some(last_flusher(waker, events))
            &&& waiting.written().writes.len() == left - 1
            &&& waiting.woken_by_write() == if left == 1 {
                Some(last_flusher(waker, events))
            } else {
                None
            }
        }),
    decreases events.len(),
{
    assert(events.take(events.len() as int) =~= events);
    if events.len() == 0 {
        assert(events.take(0) =~= events);
    } else {
        let earlier = events.drop_last();
        assert(events.take(events.len() - 1) =~= earlier);
        assert forall|n: int| 0 <= n <= earlier.len() implies tcp.writes.len() + begun(
            #[trigger] earlier.take(n),
        ) - completed(earlier.take(n)) > 0 by {
            assert(earlier.take(n) =~= events.take(n));
        }
        law_flush_woken_by_last_write(tcp, waker, earlier);
    }
}

/// After any series of writes, completions and flushes, with no more completions than
/// writes at any point, as many writes are in flight as were queued and have not completed.
/// A flush is ready exactly when every write has completed.
pub proof fn law_writes_are_counted<W, E>(start: TcpView<W, E>, events: Seq<WriteEvent<W>>)
    requires
        forall|n: int|
            0 <= n <= events.len() ==> start.writes.len() + begun(#[trigger] events.take(n))
                - completed(events.take(n)) >= 0,
    ensures
        after_writes(start, events).writes.len() == start.writes.len() + begun(events)
            - completed(events),
        start == TcpView::<W, E>::fresh() ==> (after_writes(start, events).writes.len() == 0
            <==> begun(events) == completed(events)),
        after_writes(start, events).flush_progress() == if start.writes.len() + begun(events)
            == completed(events) {
            Progress::Ready(Ok::<(), TcpError<E>>(()))
        } else {
            Progress::Pending
        },
    decreases events.len(),
{
    assert(events.take(events.len() as int) =~= events);
    if events.len() > 0 {
        let earlier = events.drop_last();
        assert(events.take(events.len() - 1) =~= earlier);
        assert forall|n: int| 0 <= n <= earlier.len() implies start.writes.len() + begun(
            #[trigger] earlier.take(n),
        ) - completed(earlier.take(n)) >= 0 by {
            assert(earlier.take(n) =~= events.take(n));
        }
        law_writes_are_counted(start, earlier);
    }
}

/// Completions wake nobody while no task has polled for a flush.
pub proof fn law_no_flush_wakes_nobody<W, E>(start: TcpView<W, E>, events: Seq<WriteEvent<W>>)
    requires
        forall|i: int| 0 <= i < start.writes.len() ==> (#[trigger] start.writes[i]) is None,
        forall|i: int| 0 <= i < events.len() ==> !((#[trigger] events[i]) is Flushed),
    ensures
        after_writes(start, events).woken_by_write() is None,
        forall|i: int|
            0 <= i < after_writes(start, events).writes.len() ==> (#[trigger] after_writes(
                start,
                events,
            ).writes[i]) is None,
    decreases events.len(),
{
    if events.len() > 0 {
        let earlier = events.drop_last();
        assert forall|i: int| 0 <= i < earlier.len() implies !((#[trigger] earlier[i]) is Flushed) by {
            assert(earlier[i] == events[i]);
        }
        assert(!(events[events.len() - 1] is Flushed));
        law_no_flush_wakes_nobody(start, earlier);
        let before = after_writes(start, earlier);
        let after = after_writes(start, events);
        assert forall|i: int| 0 <= i < after.writes.len() implies (#[trigger] after.writes[i]) is None by {
            if i < before.writes.len() {
                assert(after.writes[i] == before.writes[i]);
            }
        }
    }
}

/// What arrives goes behind everything that waits, bytes and errors in one order. So an
/// error, the end of the stream among them, does not change what can be read before it.
pub proof fn law_arrival_goes_behind_what_waits<W, E>(
    tcp: TcpView<W, E>,
    item: Result<ReadChunk, UvError<E>>,
)
    ensures
        tcp.arrived(item).reads.len() == tcp.reads.len() + 1,
        tcp.arrived(item).reads.take(tcp.reads.len() as int) == tcp.reads,
        tcp.arrived(item).reads[tcp.reads.len() as int] == item,
        crate::reads::pieces(tcp.arrived(item).reads) == crate::reads::pieces(tcp.reads)
            + crate::reads::item_pieces(item),
        item is Err ==> crate::reads::readable(tcp.arrived(item).reads) == crate::reads::readable(
            tcp.reads,
        ),
{
    assert(tcp.arrived(item).reads.take(tcp.reads.len() as int) =~= tcp.reads);
    crate::reads::lemma_pieces_of_push(tcp.reads, item);
    if item is Err {
        lemma_error_ends_readable(tcp.reads, item);
    }
}

proof fn lemma_error_ends_readable<E>(
    queue: Seq<Result<ReadChunk, UvError<E>>>,
    item: Result<ReadChunk, UvError<E>>,
)
    requires
        item is Err,
    ensures
        crate::reads::readable(queue.push(item)) == crate::reads::readable(queue),
    decreases queue.len(),
{
    let longer = queue.push(item);
    if queue.len() > 0 {
        assert(longer.drop_first() =~= queue.drop_first().push(item));
        lemma_error_ends_readable(queue.drop_first(), item);
    }
}

/// A buffer of zeros.
pub open spec fn blank(room: nat) -> Seq<u8> {
    Seq::new(room, |i: int| 0u8)
}

/// What the polls among the events have given their tasks, bytes and errors in one order,
/// as their buffers and reports show it.
pub open spec fn received<W, E>(
    start: TcpView<W, E>,
    events: Seq<StreamEvent<W, E>>,
) -> Seq<crate::reads::Piece<E>>
    decreases events.len(),
{
    if events.len() == 0 {
        Seq::empty()
    } else {
        let before = stream_after(start, events.drop_last()).reading();
        received(start, events.drop_last()) + match events.last() {
            StreamEvent::Arrived { .. } => Seq::empty(),
            StreamEvent::Polled { waker: _, room } => match before.read_progress(room) {
                Progress::Ready(Ok(count)) => crate::reads::byte_pieces(
                    before.read_buffer(blank(room)).take(count as int),
                ),
                Progress::Ready(Err(TcpError::Uv(error))) => seq![
                    crate::reads::Piece::Failed(error),
                ],
                _ => Seq::empty(),
            },
        }
    }
}

/// What has arrived with the events, bytes and errors in one order.
pub open spec fn delivered<W, E>(events: Seq<StreamEvent<W, E>>) -> Seq<crate::reads::Piece<E>>
    decreases events.len(),
{
    if events.len() == 0 {
        Seq::empty()
    } else {
        delivered(events.drop_last()) + match events.last() {
            StreamEvent::Arrived { item } => crate::reads::item_pieces(item),
            StreamEvent::Polled { .. } => Seq::empty(),
        }
    }
}

/// Bytes and errors reach the reader once each and in the one order in which they arrived:
/// what the polls have given, followed by what waits, is what waited at first, followed by
/// what has arrived.
pub proof fn law_bytes_and_errors_in_one_order<W, E>(
    start: TcpView<W, E>,
    events: Seq<StreamEvent<W, E>>,
)
    requires
        start.wf(),
        forall|i: int|
            0 <= i < events.len() && (#[trigger] events[i]) is Arrived && events[i]->item is Ok
                ==> events[i]->item->Ok_0.wf(),
        forall|i: int|
            0 <= i < events.len() && (#[trigger] events[i]) is Polled ==> events[i]->room
                <= usize::MAX,
    ensures
        received(start, events) + crate::reads::pieces(stream_after(start, events).reads)
            == crate::reads::pieces(start.reads) + delivered(events),
    decreases events.len(),
{
    let none = Seq::<crate::reads::Piece<E>>::empty();
    if events.len() == 0 {
        assert(none + crate::reads::pieces(start.reads) =~= crate::reads::pieces(start.reads)
            + none);
    } else {
        let earlier = events.drop_last();
        assert forall|i: int| 0 <= i < earlier.len() implies #[trigger] earlier[i] == events[i] by {}
        let before = stream_after(start, earlier);
        let after = stream_after(start, events);
        law_stream_in_order(start, earlier);
        law_bytes_and_errors_in_one_order(start, earlier);
        let out = received(start, earlier);
        let waiting = crate::reads::pieces(before.reads);
        let first = crate::reads::pieces(start.reads);
        assert(events[events.len() - 1] == events.last());
        match events.last() {
            StreamEvent::Arrived { item } => {
                let new = crate::reads::item_pieces(item);
                law_arrival_goes_behind_what_waits(before, item);
                assert((out + none) + (waiting + new) =~= (out + waiting) + new);
                assert(first + (delivered(earlier) + new) =~= (first + delivered(earlier)) + new);
            },
            StreamEvent::Polled { waker, room } => {
                law_poll_gives_next_pieces(before.reading(), waker, blank(room));
                let new = match before.reading().read_progress(room) {
                    Progress::Ready(Ok(count)) => crate::reads::byte_pieces(
                        before.reading().read_buffer(blank(room)).take(count as int),
                    ),
                    Progress::Ready(Err(TcpError::Uv(error))) => seq![
                        crate::reads::Piece::Failed(error),
                    ],
                    _ => none,
                };
                assert(waiting =~= new + crate::reads::pieces(after.reads));
                assert((out + new) + crate::reads::pieces(after.reads) =~= out + waiting);
                assert(first + (delivered(earlier) + none) =~= first + delivered(earlier));
            },
        }
    }
}

/// A poll that reports a count has put that many bytes at the front of the buffer, the next
/// that wait; it stops short of a full buffer only where nothing more waits, or an error. A
/// poll that reports an error of the handle has taken that error alone, which was next. Any
/// other poll takes nothing. What is not filled of the buffer is left alone.
pub proof fn law_poll_gives_next_pieces<W, E>(tcp: TcpView<W, E>, waker: W, dest: Seq<u8>)
    requires
        tcp.wf(),
        dest.len() <= usize::MAX,
    ensures
        ({
            let waiting = crate::reads::pieces(tcp.reads);
            let rest = crate::reads::pieces(tcp.read_polled(waker, dest.len()).reads);
            let buffer = tcp.read_buffer(dest);
            match tcp.read_progress(dest.len()) {
                Progress::Ready(Ok(count)) => {
                    &&& count <= dest.len()
                    &&& buffer.len() == dest.len()
                    &&& buffer.skip(count as int) == dest.skip(count as int)
                    &&& waiting == crate::reads::byte_pieces::<E>(buffer.take(count as int)) + rest
                    &&& count == dest.len() || rest.len() == 0 || rest[0] is Failed
                },
                Progress::Ready(Err(TcpError::Uv(error))) => {
                    &&& buffer == dest
                    &&& waiting == seq![crate::reads::Piece::Failed(error)] + rest
                    &&& error != UvError::<E>::Eof
                },
                _ => buffer == dest && waiting == rest,
            }
        }),
{
    if tcp.read_waker is None && tcp.reads.len() > 0 {
        crate::reads::law_read_takes_next_pieces(tcp.reads, dest);
    } else if tcp.read_waker is None {
        assert(crate::reads::readable(tcp.reads).take(0) + dest.skip(0) =~= dest);
    }
}

/// A poll is refused exactly while another task waits, and then changes nothing. It makes
/// its task wait exactly where none waits and nothing has arrived, and then the task is
/// registered. No poll touches the writes or the close.
pub proof fn law_one_reader_at_a_time<W, E>(tcp: TcpView<W, E>, waker: W, room: nat)
    ensures
        tcp.read_progress(room) == Progress::Ready(
            Err::<usize, TcpError<E>>(TcpError::AlreadyExists),
        ) <==> tcp.read_waker is Some,
        tcp.read_progress(room) is Pending <==> tcp.read_waker is None && tcp.reads.len() == 0,
        tcp.read_waker is Some ==> tcp.read_polled(waker, room) == tcp,
        tcp.read_progress(room) is Pending ==> {
            &&& tcp.read_polled(waker, room).read_waker == Some(waker)
            &&& tcp.read_polled(waker, room).reads == tcp.reads
        },
        tcp.reads.len() > 0 ==> tcp.read_polled(waker, room).read_waker == tcp.read_waker,
        tcp.read_polled(waker, room).writes == tcp.writes,
        tcp.read_polled(waker, room).close_waker == tcp.close_waker,
        tcp.read_polled(waker, room).read_start == tcp.read_start,
{
}

/// The parts of a stream do not touch each other: to start reading leaves everything else
/// alone, an arrival leaves the writes and the close alone and takes the reader off, and
/// writes, completions and flushes leave the reads and the close alone.
pub proof fn law_parts_are_apart<W, E>(
    tcp: TcpView<W, E>,
    item: Result<ReadChunk, UvError<E>>,
    waker: W,
)
    ensures
        tcp.reading() == (TcpView { read_start: true, ..tcp }),
        tcp.arrived(item) == (TcpView {
            reads: tcp.arrived(item).reads,
            read_waker: None,
            ..tcp
        }),
        tcp.write_begun() == (TcpView { writes: tcp.write_begun().writes, ..tcp }),
        tcp.written() == (TcpView { writes: tcp.written().writes, ..tcp }),
        tcp.flush_polled(waker) == (TcpView { writes: tcp.flush_polled(waker).writes, ..tcp }),
{
}

/// On a stream on which nothing has happened nothing waits, is in flight or is registered.
pub proof fn law_fresh_stream_is_empty<W, E>()
    ensures
        TcpView::<W, E>::fresh().writes.len() == 0,
        TcpView::<W, E>::fresh().reads.len() == 0,
        TcpView::<W, E>::fresh().read_waker is None,
        TcpView::<W, E>::fresh().close_waker is None,
        !TcpView::<W, E>::fresh().read_start,
{
}

/// A write is taken whole or not at all: it reports all of its bytes, however many, or the
/// error of the handle, and never makes its task wait.
pub proof fn law_write_is_taken_whole<E>(count: nat, error: UvError<E>)
    requires
        count <= usize::MAX,
    ensures
        write_progress::<E>(count, Ok(())) matches Progress::Ready(Ok(taken)) && taken == count,
        write_progress(count, Err(error)) == Progress::Ready(
            Err::<usize, TcpError<E>>(TcpError::Uv(error)),
        ),
{
}

/// The first task that polls for the stream to close waits and is registered; any other is
/// refused and changes nothing until the handle has closed. Then none is registered, and a
/// task can wait again. The reads and writes are left alone throughout.
pub proof fn law_one_task_waits_for_close<W, E>(tcp: TcpView<W, E>, waker: W, other: W)
    requires
        tcp.close_waker is None,
    ensures
        tcp.close_progress() is Pending,
        tcp.close_polled(waker) == (TcpView { close_waker: Some(waker), ..tcp }),
        tcp.close_polled(waker).close_progress() == Progress::Ready(
            Err::<(), TcpError<E>>(TcpError::AlreadyExists),
        ),
        tcp.close_polled(waker).close_polled(other) == tcp.close_polled(waker),
        tcp.close_polled(waker).closed() == tcp,
        tcp.closed() == tcp,
{
    assert(tcp.close_polled(waker).closed() =~= tcp);
    assert(tcp.closed() =~= tcp);
}

} // verus!
