//! Bytes that the network has delivered and that nobody has read yet.
use std::collections::VecDeque;
use vstd::prelude::*;

verus! {

/// An error reported by libuv. `E` carries the errors that no rule looks at.
#[derive(Clone, Copy, Debug, PartialEq, Eq)]
pub enum UvError<E> {
    /// The peer has closed its side of the stream.
    Eof,
    /// A bad address was handed to the loop.
    Fault,
    Other(E),
}

/// One buffer filled by the network, of which `start..len` is unread.
#[derive(Clone, Debug)]
pub struct ReadChunk {
    pub start: usize,
    pub len: usize,
    pub bytes: Vec<u8>,
}

impl ReadChunk {
    pub open spec fn wf(self) -> bool {
        self.start <= self.len <= self.bytes@.len()
    }

    /// The bytes that are still to be read.
    pub open spec fn unread(self) -> Seq<u8> {
        self.bytes@.subrange(self.start as int, self.len as int)
    }

    /// The chunk after `n` more of its bytes have been read.
    pub open spec fn advanced(self, n: nat) -> ReadChunk {
        ReadChunk { start: (self.start + n) as usize, len: self.len, bytes: self.bytes }
    }

    /// A chunk that holds `bytes`, all of them unread.
    pub fn new(bytes: Vec<u8>) -> (chunk: ReadChunk)
        ensures
            chunk == (ReadChunk { start: 0, len: bytes@.len() as usize, bytes }),
            chunk.wf(),
            chunk.unread() == bytes@,
    {
        let len: usize = bytes.len();
        ReadChunk { start: 0, len, bytes }
    }
}

/// Every chunk of the queue is well formed.
pub open spec fn queue_wf<E>(queue: Seq<Result<ReadChunk, UvError<E>>>) -> bool {
    forall|i: int| 0 <= i < queue.len() && (#[trigger] queue[i]) is Ok ==> queue[i]->Ok_0.wf()
}

/// The bytes that can be read before the first error of the queue.
pub open spec fn readable<E>(queue: Seq<Result<ReadChunk, UvError<E>>>) -> Seq<u8>
    decreases queue.len(),
{
    if queue.len() == 0 {
        Seq::empty()
    } else {
        match queue[0] {
            Ok(chunk) => chunk.unread() + readable(queue.drop_first()),
            Err(_) => Seq::empty(),
        }
    }
}

/// The unread bytes of all chunks of the queue, also behind errors.
pub open spec fn unread<E>(queue: Seq<Result<ReadChunk, UvError<E>>>) -> Seq<u8>
    decreases queue.len(),
{
    if queue.len() == 0 {
        Seq::empty()
    } else {
        match queue[0] {
            Ok(chunk) => chunk.unread() + unread(queue.drop_first()),
            Err(_) => unread(queue.drop_first()),
        }
    }
}

/// The errors of the queue, in order.
pub open spec fn errors<E>(queue: Seq<Result<ReadChunk, UvError<E>>>) -> Seq<UvError<E>>
    decreases queue.len(),
{
    if queue.len() == 0 {
        Seq::empty()
    } else {
        match queue[0] {
            Ok(_) => errors(queue.drop_first()),
            Err(error) => seq![error] + errors(queue.drop_first()),
        }
    }
}

/// A piece of what the network delivers: a byte or an error.
pub enum Piece<E> {
    Byte(u8),
    Failed(UvError<E>),
}

/// Bytes, one piece each.
pub open spec fn byte_pieces<E>(bytes: Seq<u8>) -> Seq<Piece<E>> {
    Seq::new(bytes.len(), |i: int| Piece::Byte(bytes[i]))
}

/// The pieces of one item of a queue.
pub open spec fn item_pieces<E>(item: Result<ReadChunk, UvError<E>>) -> Seq<Piece<E>> {
    match item {
        Ok(chunk) => byte_pieces(chunk.bytes@.subrange(chunk.start as int, chunk.len as int)),
        Err(error) => seq![Piece::Failed(error)],
    }
}

/// All that a queue holds, bytes and errors in one order.
pub open spec fn pieces<E>(queue: Seq<Result<ReadChunk, UvError<E>>>) -> Seq<Piece<E>>
    decreases queue.len(),
{
    if queue.len() == 0 {
        Seq::empty()
    } else {
        item_pieces(queue[0]) + pieces(queue.drop_first())
    }
}

/// No chunk of the queue is without unread bytes.
pub open spec fn none_exhausted<E>(queue: Seq<Result<ReadChunk, UvError<E>>>) -> bool {
    forall|i: int|
        0 <= i < queue.len() && (#[trigger] queue[i]) is Ok ==> queue[i]->Ok_0.start
            < queue[i]->Ok_0.len
}

/// The queue from its first error on.
pub open spec fn from_first_error<E>(
    queue: Seq<Result<ReadChunk, UvError<E>>>,
) -> Seq<Result<ReadChunk, UvError<E>>>
    decreases queue.len(),
{
    if queue.len() == 0 || queue[0] is Err {
        queue
    } else {
        from_first_error(queue.drop_first())
    }
}

/// The error that a queue starts with, if it starts with one.
pub open spec fn front_error<E>(queue: Seq<Result<ReadChunk, UvError<E>>>) -> Option<UvError<E>> {
    if queue.len() > 0 && queue[0] is Err {
        Some(queue[0]->Err_0)
    } else {
        None
    }
}

/// How many bytes a read into `room` bytes takes.
pub open spec fn taken<E>(queue: Seq<Result<ReadChunk, UvError<E>>>, room: nat) -> nat {
    if room <= readable(queue).len() {
        room
    } else {
        readable(queue).len()
    }
}

/// What a read into `room` bytes leaves in a queue: chunks that were read to
/// their end are gone, and a chunk that was read in part starts further on. An
/// empty chunk leaves the queue when it is reached.
pub open spec fn left<E>(
    queue: Seq<Result<ReadChunk, UvError<E>>>,
    room: nat,
) -> Seq<Result<ReadChunk, UvError<E>>>
    decreases queue.len(),
{
    if queue.len() == 0 {
        queue
    } else {
        match queue[0] {
            Err(_) => queue,
            Ok(chunk) => if chunk.unread().len() < room {
                left(queue.drop_first(), (room - chunk.unread().len()) as nat)
            } else if chunk.unread().len() == room {
                queue.drop_first()
            } else {
                queue.update(0, Ok(chunk.advanced(room)))
            },
        }
    }
}

/// What a read into `room` bytes reports: an error that the queue starts with, but
/// zero bytes at the end of the stream; else the number of bytes taken.
pub open spec fn read_result<E>(
    queue: Seq<Result<ReadChunk, UvError<E>>>,
    room: nat,
) -> Result<usize, UvError<E>> {
    match front_error(queue) {
        Some(UvError::Eof) => Ok(0),
        Some(error) => Err(error),
        None => Ok(taken(queue, room) as usize),
    }
}

/// What a read makes of the buffer `dest`: the bytes taken replace its front.
pub open spec fn read_into<E>(
    queue: Seq<Result<ReadChunk, UvError<E>>>,
    dest: Seq<u8>,
) -> Seq<u8> {
    let n = taken(queue, dest.len()) as int;
    readable(queue).take(n) + dest.skip(n)
}

/// What a read into `room` bytes makes of the queue: a reported error is gone, the
/// end of the stream stays.
pub open spec fn read_rest<E>(
    queue: Seq<Result<ReadChunk, UvError<E>>>,
    room: nat,
) -> Seq<Result<ReadChunk, UvError<E>>> {
    match front_error(queue) {
        Some(UvError::Eof) => queue,
        Some(_) => queue.drop_first(),
        None => left(queue, room),
    }
}

/// Copies `bytes[from..from + count]` to `into[at..at + count]`.
fn copy_bytes(into: &mut [u8], at: usize, bytes: &Vec<u8>, from: usize, count: usize)
    requires
        at + count <= old(into)@.len(),
        from + count <= bytes@.len(),
    ensures
        final(into)@ == old(into)@.subrange(0, at as int) + bytes@.subrange(
            from as int,
            from + count,
        ) + old(into)@.subrange(at + count, old(into)@.len() as int),
{
    let ghost before = into@;
    let mut i: usize = 0;
    while i < count
        invariant
            i <= count,
            at + count <= into.len(),
            from + count <= bytes.len(),
            into@.len() == before.len(),
            forall|k: int|
                0 <= k < before.len() ==> #[trigger] into@[k] == if at <= k < at + i {
                    bytes@[from + k - at]
                } else {
                    before[k]
                },
        decreases count - i,
    {
        into[at + i] = bytes[from + i];
        i = i + 1;
    }
}

/// Copying the next `count` bytes of a stream behind the first `done` of them.
proof fn lemma_copied(
    stream: Seq<u8>,
    dest: Seq<u8>,
    filled: Seq<u8>,
    done: int,
    piece: Seq<u8>,
    tail: Seq<u8>,
    count: int,
)
    requires
        0 <= done <= stream.len(),
        stream.skip(done) == piece + tail,
        0 <= count <= piece.len(),
        done + count <= dest.len(),
        filled == stream.take(done) + dest.skip(done),
    ensures
        done + count <= stream.len(),
        filled.subrange(0, done) + piece.take(count) + filled.subrange(
            done + count,
            filled.len() as int,
        ) == stream.take(done + count) + dest.skip(done + count),
        stream.skip(done + count) == piece.skip(count) + tail,
{
    assert forall|k: int| done <= k < stream.len() implies stream[k] == (piece + tail)[k - done] by {
        assert(stream.skip(done)[k - done] == stream[k]);
    }
    assert(stream.len() == done + piece.len() + tail.len()) by {
        assert(stream.skip(done).len() == stream.len() - done);
    }
    assert(filled.subrange(0, done) + piece.take(count) + filled.subrange(
        done + count,
        filled.len() as int,
    ) =~= stream.take(done + count) + dest.skip(done + count));
    assert(stream.skip(done + count) =~= piece.skip(count) + tail);
}

/// Reads from the queue into `into_buff` until `into_buff` is full or nothing is
/// left to read, and returns the number of bytes read.
///
/// A chunk that fits is consumed and discarded; of a chunk that does not fit, the
/// part that was read is marked as read. An error is reported only once the bytes
/// before it have been read, and is then consumed; the end of the stream stays in
/// the queue and reads as zero bytes from then on.
pub fn copy_into_from_vec_buffs<E>(
    into_buff: &mut [u8],
    from_buffs: &mut VecDeque<Result<ReadChunk, UvError<E>>>,
) -> (result: Result<usize, UvError<E>>)
    requires
        queue_wf(old(from_buffs)@),
    ensures
        queue_wf(final(from_buffs)@),
        result == read_result(old(from_buffs)@, old(into_buff)@.len()),
        final(into_buff)@ == read_into(old(from_buffs)@, old(into_buff)@),
        final(from_buffs)@ == read_rest(old(from_buffs)@, old(into_buff)@.len()),
{
    let ghost queue = from_buffs@;
    let ghost dest = into_buff@;
    let ghost stream = readable(queue);
    let room: usize = into_buff.len();
    let mut done: usize = 0;
    let mut begun: bool = false;
    let mut full: bool = false;
    proof {
        assert(into_buff@ =~= stream.take(0) + dest.skip(0));
        assert(stream.skip(0) =~= stream);
    }
    while !full
        invariant
            queue == old(from_buffs)@,
            dest == old(into_buff)@,
            room == dest.len(),
            stream == readable(queue),
            queue_wf(from_buffs@),
            done <= room,
            done <= stream.len(),
            readable(from_buffs@) == stream.skip(done as int),
            into_buff@ == stream.take(done as int) + dest.skip(done as int),
            begun ==> queue.len() > 0 && queue[0] is Ok,
            !begun ==> done == 0 && from_buffs@ == queue,
            begun && !full ==> done < room,
            full ==> begun && done == room && from_buffs@ == left(queue, room as nat),
            !full ==> left(queue, room as nat) == left(from_buffs@, (room - done) as nat),
        decreases from_buffs@.len() + if full { 0int } else { 1int },
    {
        let ghost rest = from_buffs@;
        let ghost filled = into_buff@;
        match from_buffs.pop_front() {
            None => {
                assert(stream.skip(done as int).len() == 0);
                assert(from_buffs@ =~= left(rest, (room - done) as nat));
                return Ok(done);
            },
            Some(Err(error)) => {
                assert(stream.skip(done as int).len() == 0);
                match error {
                    UvError::Eof => {
                        from_buffs.push_front(Err(UvError::Eof));
                        assert(from_buffs@ =~= rest);
                        return Ok(done);
                    },
                    _ => {
                        if begun {
                            from_buffs.push_front(Err(error));
                            assert(from_buffs@ =~= rest);
                            return Ok(done);
                        }
                        assert(from_buffs@ =~= queue.drop_first());
                        return Err(error);
                    },
                }
            },
            Some(Ok(chunk)) => {
                begun = true;
                let unread: usize = chunk.len - chunk.start;
                let ghost piece = chunk.unread();
                let ghost tail = readable(rest.drop_first());
                assert(from_buffs@ =~= rest.drop_first());
                if unread <= room - done {
                    copy_bytes(into_buff, done, &chunk.bytes, chunk.start, unread);
                    proof {
                        assert(chunk.bytes@.subrange(chunk.start as int, chunk.start + unread)
                            =~= piece.take(unread as int));
                        lemma_copied(stream, dest, filled, done as int, piece, tail, unread as int);
                        assert(piece.skip(unread as int) + tail =~= tail);
                    }
                    done = done + unread;
                    full = done == room;
                } else {
                    let count: usize = room - done;
                    copy_bytes(into_buff, done, &chunk.bytes, chunk.start, count);
                    proof {
                        assert(chunk.bytes@.subrange(chunk.start as int, chunk.start + count)
                            =~= piece.take(count as int));
                        lemma_copied(stream, dest, filled, done as int, piece, tail, count as int);
                    }
                    let rest_of_chunk = ReadChunk {
                        start: chunk.start + count,
                        len: chunk.len,
                        bytes: chunk.bytes,
                    };
                    from_buffs.push_front(Ok(rest_of_chunk));
                    proof {
                        assert(from_buffs@.drop_first() =~= rest.drop_first());
                        assert(rest_of_chunk.unread() =~= piece.skip(count as int));
                        assert(from_buffs@ =~= left(rest, count as nat));
                    }
                    done = room;
                    full = true;
                }
            },
        }
    }
    Ok(done)
}

proof fn lemma_rest_wf<E>(queue: Seq<Result<ReadChunk, UvError<E>>>)
    requires
        queue_wf(queue),
        queue.len() > 0,
    ensures
        queue_wf(queue.drop_first()),
{
    let rest = queue.drop_first();
    assert forall|i: int| 0 <= i < rest.len() && (#[trigger] rest[i]) is Ok implies rest[
        i
    ]->Ok_0.wf() by {
        assert(rest[i] == queue[i + 1]);
    }
}

/// A read takes bytes from the front of the stream and nothing else: what can be
/// read afterwards is what could be read before without the bytes taken, and the
/// queue from its first error on is as it was.
pub proof fn law_read_conserves_stream<E>(queue: Seq<Result<ReadChunk, UvError<E>>>, room: nat)
    requires
        queue_wf(queue),
    ensures
        queue_wf(left(queue, room)),
        readable(left(queue, room)) == readable(queue).skip(taken(queue, room) as int),
        from_first_error(left(queue, room)) == from_first_error(queue),
    decreases queue.len(),
{
    let after = left(queue, room);
    if queue.len() == 0 || queue[0] is Err {
        assert(readable(queue).skip(0) =~= readable(queue));
    } else {
        let chunk = queue[0]->Ok_0;
        let rest = queue.drop_first();
        let size = chunk.unread().len();
        lemma_rest_wf(queue);
        if size < room {
            law_read_conserves_stream(rest, (room - size) as nat);
            assert(readable(queue).skip(taken(queue, room) as int) =~= readable(rest).skip(
                taken(rest, (room - size) as nat) as int,
            ));
        } else if size == room {
            assert(readable(queue).skip(room as int) =~= readable(rest));
        } else {
            let part = chunk.advanced(room);
            assert(after.drop_first() =~= rest);
            assert(part.unread() =~= chunk.unread().skip(room as int));
            assert(readable(queue).skip(room as int) =~= part.unread() + readable(rest));
            assert(queue_wf(after)) by {
                assert forall|i: int| 0 <= i < after.len() && (#[trigger] after[i]) is Ok implies after[i]->Ok_0.wf() by {
                    if i > 0 {
                        assert(after[i] == queue[i]);
                    }
                }
            }
        }
    }
}

/// Two reads in a row take what one read with the room of both takes, and leave
/// what it leaves.
pub proof fn law_reads_compose<E>(queue: Seq<Result<ReadChunk, UvError<E>>>, first: nat, second: nat)
    requires
        queue_wf(queue),
        second > 0,
    ensures
        left(left(queue, first), second) == left(queue, first + second),
        taken(queue, first) + taken(left(queue, first), second) == taken(queue, first + second),
        readable(queue).take(taken(queue, first) as int) + readable(left(queue, first)).take(
            taken(left(queue, first), second) as int,
        ) == readable(queue).take(taken(queue, first + second) as int),
    decreases queue.len(),
{
    law_read_conserves_stream(queue, first);
    assert(readable(queue).take(taken(queue, first) as int) + readable(left(queue, first)).take(
        taken(left(queue, first), second) as int,
    ) =~= readable(queue).take(taken(queue, first + second) as int));
    if queue.len() > 0 && queue[0] is Ok {
        let chunk = queue[0]->Ok_0;
        let rest = queue.drop_first();
        let size = chunk.unread().len();
        if size < first {
            lemma_rest_wf(queue);
            law_reads_compose(rest, (first - size) as nat, second);
        } else if size > first {
            let part = chunk.advanced(first);
            let after = left(queue, first);
            assert(part.unread() =~= chunk.unread().skip(first as int));
            assert(after.drop_first() =~= rest);
            if size > first + second {
                assert(part.advanced(second) == chunk.advanced(first + second));
                assert(left(after, second) =~= left(queue, first + second));
            }
        }
    }
}

/// A read with more room than there are bytes takes all of them, and leaves the
/// queue from its first error on.
pub proof fn law_read_to_the_end<E>(queue: Seq<Result<ReadChunk, UvError<E>>>, room: nat)
    requires
        readable(queue).len() < room,
    ensures
        taken(queue, room) == readable(queue).len(),
        left(queue, room) == from_first_error(queue),
    decreases queue.len(),
{
    if queue.len() > 0 && queue[0] is Ok {
        law_read_to_the_end(
            queue.drop_first(),
            (room - queue[0]->Ok_0.unread().len()) as nat,
        );
    }
}

/// Bytes come out in the order in which they arrived: a chunk that arrives goes
/// behind everything that is waiting, as long as no error has arrived before it.
pub proof fn law_arrivals_queue_up<E>(queue: Seq<Result<ReadChunk, UvError<E>>>, chunk: ReadChunk)
    requires
        from_first_error(queue).len() == 0,
    ensures
        readable(queue.push(Ok(chunk))) == readable(queue) + chunk.unread(),
        from_first_error(queue.push(Ok(chunk))).len() == 0,
    decreases queue.len(),
{
    let longer = queue.push(Ok(chunk));
    if queue.len() == 0 {
        assert(longer.drop_first() =~= queue);
        assert(readable(longer.drop_first()) =~= Seq::<u8>::empty());
        assert(readable(longer) == longer[0]->Ok_0.unread() + readable(longer.drop_first()));
        assert(readable(queue) + chunk.unread() =~= chunk.unread());
    } else {
        law_arrivals_queue_up(queue.drop_first(), chunk);
        assert(longer.drop_first() =~= queue.drop_first().push(Ok(chunk)));
        assert(readable(longer) =~= readable(queue) + chunk.unread());
    }
}

/// Nothing that arrives behind an error can be read before the error is.
pub proof fn law_errors_hold_back<E>(
    queue: Seq<Result<ReadChunk, UvError<E>>>,
    item: Result<ReadChunk, UvError<E>>,
)
    requires
        from_first_error(queue).len() > 0,
    ensures
        readable(queue.push(item)) == readable(queue),
        from_first_error(queue.push(item)) == from_first_error(queue).push(item),
    decreases queue.len(),
{
    let longer = queue.push(item);
    if queue[0] is Ok {
        law_errors_hold_back(queue.drop_first(), item);
        assert(longer.drop_first() =~= queue.drop_first().push(item));
    }
}

/// What a read that does not start with an error takes and leaves, over the whole queue:
/// the bytes taken come first, and all errors are left.
pub proof fn law_read_keeps_the_rest<E>(queue: Seq<Result<ReadChunk, UvError<E>>>, room: nat)
    requires
        queue_wf(queue),
    ensures
        readable(queue).take(taken(queue, room) as int) + unread(left(queue, room)) == unread(
            queue,
        ),
        errors(left(queue, room)) == errors(queue),
    decreases queue.len(),
{
    let after = left(queue, room);
    if queue.len() == 0 || queue[0] is Err {
        assert(readable(queue).take(0) + unread(queue) =~= unread(queue));
    } else {
        let chunk = queue[0]->Ok_0;
        let rest = queue.drop_first();
        let size = chunk.unread().len();
        lemma_rest_wf(queue);
        lemma_readable_begins_unread(rest);
        if size < room {
            law_read_keeps_the_rest(rest, (room - size) as nat);
            let more = readable(rest).take(taken(rest, (room - size) as nat) as int);
            assert(readable(queue).take(taken(queue, room) as int) =~= chunk.unread() + more);
            assert((chunk.unread() + more) + unread(after) =~= chunk.unread() + (more + unread(
                after,
            )));
        } else if size == room {
            assert(readable(queue).take(room as int) =~= chunk.unread());
        } else {
            let part = chunk.advanced(room);
            assert(after.drop_first() =~= rest);
            assert(part.unread() =~= chunk.unread().skip(room as int));
            assert(readable(queue).take(room as int) + unread(after) =~= unread(queue));
        }
    }
}

proof fn lemma_readable_begins_unread<E>(queue: Seq<Result<ReadChunk, UvError<E>>>)
    ensures
        readable(queue).len() <= unread(queue).len(),
    decreases queue.len(),
{
    if queue.len() > 0 {
        lemma_readable_begins_unread(queue.drop_first());
    }
}

/// What arrives goes behind everything that waits, bytes behind bytes and errors behind
/// errors.
pub proof fn law_arrivals_go_last<E>(
    queue: Seq<Result<ReadChunk, UvError<E>>>,
    item: Result<ReadChunk, UvError<E>>,
)
    ensures
        unread(queue.push(item)) == unread(queue) + match item {
            Ok(chunk) => chunk.unread(),
            Err(_) => Seq::empty(),
        },
        errors(queue.push(item)) == errors(queue) + match item {
            Ok(_) => Seq::empty(),
            Err(error) => seq![error],
        },
    decreases queue.len(),
{
    let longer = queue.push(item);
    if queue.len() == 0 {
        assert(longer.drop_first() =~= queue);
        assert(unread(longer.drop_first()) =~= Seq::<u8>::empty());
        assert(errors(longer.drop_first()) =~= Seq::<UvError<E>>::empty());
        assert(unread(longer) =~= unread(queue) + match item {
            Ok(chunk) => chunk.unread(),
            Err(_) => Seq::empty(),
        });
        assert(errors(longer) =~= errors(queue) + match item {
            Ok(_) => Seq::empty(),
            Err(error) => seq![error],
        });
    } else {
        law_arrivals_go_last(queue.drop_first(), item);
        assert(longer.drop_first() =~= queue.drop_first().push(item));
        assert(unread(longer) =~= unread(queue) + match item {
            Ok(chunk) => chunk.unread(),
            Err(_) => Seq::empty(),
        });
        assert(errors(longer) =~= errors(queue) + match item {
            Ok(_) => Seq::empty(),
            Err(error) => seq![error],
        });
    }
}

/// Items that follow on each other have their pieces follow on each other.
pub proof fn lemma_pieces_of_push<E>(
    queue: Seq<Result<ReadChunk, UvError<E>>>,
    item: Result<ReadChunk, UvError<E>>,
)
    ensures
        pieces(queue.push(item)) == pieces(queue) + item_pieces(item),
    decreases queue.len(),
{
    let longer = queue.push(item);
    if queue.len() == 0 {
        assert(longer.drop_first() =~= queue);
        assert(pieces(longer) == item_pieces(longer[0]) + pieces(longer.drop_first()));
        assert(pieces(queue) =~= Seq::<Piece<E>>::empty());
        assert(pieces(longer) =~= pieces(queue) + item_pieces(item));
    } else {
        lemma_pieces_of_push(queue.drop_first(), item);
        assert(longer.drop_first() =~= queue.drop_first().push(item));
        assert(pieces(longer) =~= pieces(queue) + item_pieces(item));
    }
}

/// A read that reports a count has put that many bytes at the front of the buffer, the
/// next pieces in order, and has left the rest of the buffer and of the pieces alone. It
/// stops short of a full buffer only where there is nothing more, or an error. A read that
/// reports an error has taken that error alone, which was next, and has left the buffer
/// alone. The end of the stream is never taken.
pub proof fn law_read_takes_next_pieces<E>(
    queue: Seq<Result<ReadChunk, UvError<E>>>,
    dest: Seq<u8>,
)
    requires
        queue_wf(queue),
        dest.len() <= usize::MAX,
    ensures
        ({
            let rest = pieces(read_rest(queue, dest.len()));
            match read_result(queue, dest.len()) {
                Ok(count) => {
                    &&& count <= dest.len()
                    &&& read_into(queue, dest).len() == dest.len()
                    &&& read_into(queue, dest).skip(count as int) == dest.skip(count as int)
                    &&& pieces(queue) == byte_pieces::<E>(
                        read_into(queue, dest).take(count as int),
                    ) + rest
                    &&& count == dest.len() || rest.len() == 0 || rest[0] is Failed
                },
                Err(error) => {
                    &&& error != UvError::<E>::Eof
                    &&& read_into(queue, dest) == dest
                    &&& pieces(queue) == seq![Piece::Failed(error)] + rest
                },
            }
        }),
{
    let room = dest.len();
    if queue.len() > 0 && queue[0] is Err {
        assert(taken(queue, room) == 0);
        assert(read_into(queue, dest) =~= dest);
        assert(dest.skip(0) =~= dest);
        if queue[0]->Err_0 == UvError::<E>::Eof {
            assert(pieces(queue) =~= byte_pieces::<E>(dest.take(0)) + pieces(queue));
            assert(pieces(queue)[0] == item_pieces(queue[0])[0]);
        }
    } else {
        let n = taken(queue, room) as int;
        lemma_left_pieces(queue, room);
        assert(read_into(queue, dest).take(n) =~= readable(queue).take(n));
        assert(read_into(queue, dest).skip(n) =~= dest.skip(n));
    }
}

proof fn lemma_left_pieces<E>(queue: Seq<Result<ReadChunk, UvError<E>>>, room: nat)
    requires
        queue_wf(queue),
    ensures
        ({
            let n = taken(queue, room) as int;
            let rest = pieces(left(queue, room));
            &&& pieces(queue) == byte_pieces::<E>(readable(queue).take(n)) + rest
            &&& n == room || rest.len() == 0 || rest[0] is Failed
        }),
    decreases queue.len(),
{
    let n = taken(queue, room) as int;
    let after = left(queue, room);
    if queue.len() == 0 || queue[0] is Err {
        assert(byte_pieces::<E>(readable(queue).take(0)) + pieces(queue) =~= pieces(queue));
        if queue.len() > 0 {
            assert(pieces(queue)[0] == item_pieces(queue[0])[0]);
        }
    } else {
        let chunk = queue[0]->Ok_0;
        let rest = queue.drop_first();
        let size = chunk.unread().len();
        lemma_rest_wf(queue);
        if size < room {
            lemma_left_pieces(rest, (room - size) as nat);
            let more = readable(rest).take(taken(rest, (room - size) as nat) as int);
            assert(readable(queue).take(n) =~= chunk.unread() + more);
            assert(byte_pieces::<E>(chunk.unread() + more) =~= byte_pieces::<E>(chunk.unread())
                + byte_pieces::<E>(more));
            assert(pieces(queue) =~= byte_pieces::<E>(readable(queue).take(n)) + pieces(after));
        } else if size == room {
            assert(readable(queue).take(n) =~= chunk.unread());
        } else {
            let part = chunk.advanced(room);
            assert(after.drop_first() =~= rest);
            assert(part.unread() =~= chunk.unread().skip(room as int));
            assert(readable(queue).take(n) =~= chunk.unread().take(room as int));
            assert(pieces(queue) =~= byte_pieces::<E>(readable(queue).take(n)) + pieces(after));
        }
    }
}

/// An error at the front of the queue is reported by the next read, whatever its room, and
/// the end of the stream there is reported as zero bytes and stays.
pub proof fn law_front_error_is_reported<E>(
    queue: Seq<Result<ReadChunk, UvError<E>>>,
    error: UvError<E>,
    room: nat,
)
    requires
        queue.len() > 0,
        queue[0] == Err::<ReadChunk, UvError<E>>(error),
    ensures
        error == UvError::<E>::Eof ==> {
            &&& read_result(queue, room) == Ok::<usize, UvError<E>>(0)
            &&& read_rest(queue, room) == queue
        },
        error != UvError::<E>::Eof ==> {
            &&& read_result(queue, room) == Err::<usize, UvError<E>>(error)
            &&& read_rest(queue, room) == queue.skip(1)
        },
{
    assert(queue.drop_first() =~= queue.skip(1));
}

/// Zero bytes mean the end of the stream: where no chunk is exhausted and there is room, a
/// read of what waits reports zero bytes only at the end of the stream. A read leaves no
/// exhausted chunk behind.
pub proof fn law_zero_bytes_mean_the_end<E>(
    queue: Seq<Result<ReadChunk, UvError<E>>>,
    room: nat,
)
    requires
        queue_wf(queue),
        none_exhausted(queue),
        room <= usize::MAX,
    ensures
        none_exhausted(read_rest(queue, room)),
        room > 0 && queue.len() > 0 && read_result(queue, room) == Ok::<usize, UvError<E>>(0)
            ==> queue[0] == Err::<ReadChunk, UvError<E>>(UvError::Eof),
{
    if queue.len() > 0 && queue[0] is Err {
        let rest = queue.drop_first();
        assert forall|i: int| 0 <= i < rest.len() && (#[trigger] rest[i]) is Ok implies rest[
            i
        ]->Ok_0.start < rest[i]->Ok_0.len by {
            assert(rest[i] == queue[i + 1]);
        }
    } else {
        lemma_left_none_exhausted(queue, room);
        if queue.len() > 0 {
            assert(readable(queue).len() >= queue[0]->Ok_0.unread().len());
        }
    }
}

proof fn lemma_left_none_exhausted<E>(queue: Seq<Result<ReadChunk, UvError<E>>>, room: nat)
    requires
        queue_wf(queue),
        none_exhausted(queue),
    ensures
        none_exhausted(left(queue, room)),
    decreases queue.len(),
{
    if queue.len() > 0 && queue[0] is Ok {
        let chunk = queue[0]->Ok_0;
        let rest = queue.drop_first();
        let size = chunk.unread().len();
        lemma_rest_wf(queue);
        assert forall|i: int| 0 <= i < rest.len() && (#[trigger] rest[i]) is Ok implies rest[
            i
        ]->Ok_0.start < rest[i]->Ok_0.len by {
            assert(rest[i] == queue[i + 1]);
        }
        if size < room {
            lemma_left_none_exhausted(rest, (room - size) as nat);
        } else if size > room {
            let after = left(queue, room);
            assert forall|i: int|
                0 <= i < after.len() && (#[trigger] after[i]) is Ok implies after[i]->Ok_0.start
                < after[i]->Ok_0.len by {
                if i > 0 {
                    assert(after[i] == queue[i]);
                }
            }
        }
    }
}

} // verus!
