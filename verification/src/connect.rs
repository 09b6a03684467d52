//! The future behind a request to connect.
use crate::progress::Progress;
use crate::reads::UvError;
use vstd::prelude::*;

verus! {

/// A result that a callback delivers and a task waits for.
pub struct ConnectFuture<W, E> {
    waker: Option<W>,
    result: Option<Result<u32, UvError<E>>>,
}

/// The future as its contracts see it.
#[verifier::ext_equal]
pub struct ConnectView<W, E> {
    /// The task that polled last and had to wait.
    pub waker: Option<W>,
    /// The result that has been delivered and not been taken.
    pub result: Option<Result<u32, UvError<E>>>,
}

impl<W, E> ConnectView<W, E> {
    /// The future after a poll by the task behind `waker`.
    pub open spec fn polled(self, waker: W) -> ConnectView<W, E> {
        if self.result is Some {
            ConnectView { result: None, ..self }
        } else {
            ConnectView { waker: Some(waker), ..self }
        }
    }

    /// What that poll reports.
    pub open spec fn progress(self) -> Progress<Result<u32, UvError<E>>> {
        match self.result {
            Some(result) => Progress::Ready(result),
            None => Progress::Pending,
        }
    }

    /// The future after `result` has been delivered.
    pub open spec fn completed(self, result: Result<u32, UvError<E>>) -> ConnectView<W, E> {
        ConnectView { result: Some(result), ..self }
    }
}

impl<W, E> View for ConnectFuture<W, E> {
    type V = ConnectView<W, E>;

    closed spec fn view(&self) -> ConnectView<W, E> {
        ConnectView { waker: self.waker, result: self.result }
    }
}

impl<W, E> ConnectFuture<W, E> {
    /// A future without a result, for which nobody waits.
    pub fn new() -> (future: ConnectFuture<W, E>)
        ensures
            future@ == (ConnectView::<W, E> { waker: None, result: None }),
    {
        ConnectFuture { waker: None, result: None }
    }

    /// Takes the result if it has been delivered; else the task waits for it.
    pub fn poll(&mut self, waker: W) -> (progress: Progress<Result<u32, UvError<E>>>)
        ensures
            progress == old(self)@.progress(),
            final(self)@ == old(self)@.polled(waker),
    {
        match self.result.take() {
            Some(result) => Progress::Ready(result),
            None => {
                self.waker = Some(waker);
                Progress::Pending
            },
        }
    }

    /// Delivers the result. The task that waits is to be woken; it stays registered.
    pub fn complete(&mut self, result: Result<u32, UvError<E>>) -> (woken: Option<&W>)
        ensures
            final(self)@ == old(self)@.completed(result),
            woken is Some <==> old(self)@.waker is Some,
            woken is Some ==> *woken->0 == old(self)@.waker->0,
    {
        self.result = Some(result);
        self.waker.as_ref()
    }
}

/// The result that was delivered is what the next poll reports, and no poll after it
/// does.
pub proof fn law_result_is_taken_once<W, E>(
    future: ConnectView<W, E>,
    result: Result<u32, UvError<E>>,
    waker: W,
)
    ensures
        future.completed(result).progress() == Progress::Ready(result),
        future.completed(result).polled(waker).progress() is Pending,
{
}

/// The task that was told to wait is the one that the delivery wakes, and its next
/// poll takes the result.
pub proof fn law_delivery_wakes_waiter<W, E>(
    future: ConnectView<W, E>,
    waker: W,
    result: Result<u32, UvError<E>>,
)
    requires
        future.progress() is Pending,
    ensures
        future.polled(waker).waker == Some(waker),
        future.polled(waker).completed(result).progress() == Progress::Ready(result),
{
}

/// A poll that finds no result leaves none and registers its task in place of any other;
/// one that takes a result leaves the registered task. A delivery leaves it too.
pub proof fn law_last_waiter_stays_registered<W, E>(
    future: ConnectView<W, E>,
    waker: W,
    result: Result<u32, UvError<E>>,
)
    ensures
        future.polled(waker).result is None,
        future.result is None ==> future.progress() is Pending && future.polled(waker).waker
            == Some(waker),
        future.result is Some ==> future.progress() == Progress::Ready(future.result->0)
            && future.polled(waker).waker == future.waker,
        future.completed(result).waker == future.waker,
        future.completed(result).result == Some(result),
{
}

} // verus!
