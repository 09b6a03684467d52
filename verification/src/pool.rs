//! The pool of running tasks.
use futures::stream::FuturesUnordered;
use futures::task::LocalFutureObj;
use futures::StreamExt;
use std::task::{Context, Poll, Waker};
use vstd::multiset::Multiset;
use vstd::prelude::*;

verus! {

#[verifier::external_type_specification]
#[verifier::external_body]
#[verifier::reject_recursive_types(Fut)]
pub struct ExFuturesUnordered<Fut>(futures::stream::FuturesUnordered<Fut>);

#[verifier::external_type_specification]
#[verifier::external_body]
#[verifier::reject_recursive_types(T)]
pub struct ExLocalFutureObj<'a, T>(futures::task::LocalFutureObj<'a, T>);

#[verifier::external_type_specification]
#[verifier::external_body]
pub struct ExWaker(std::task::Waker);

/// A future that an executor runs to its end.
pub type Task = LocalFutureObj<'static, ()>;

/// The tasks that a pool holds.
pub uninterp spec fn pool_tasks(
    pool: FuturesUnordered<LocalFutureObj<'static, ()>>,
) -> Multiset<LocalFutureObj<'static, ()>>;

/// The tasks of a pool that are in its queue to be polled, as the last poll left the
/// queue, and those that were pushed since. Tasks that were woken since are not among
/// them; the next poll finds them.
pub uninterp spec fn pool_queued(
    pool: FuturesUnordered<LocalFutureObj<'static, ()>>,
) -> Multiset<LocalFutureObj<'static, ()>>;

/// The waker that the last poll of a pool was given, to be called when a task is woken;
/// `None` if the pool was never polled.
pub uninterp spec fn pool_waker(
    pool: FuturesUnordered<LocalFutureObj<'static, ()>>,
) -> Option<std::task::Waker>;

/// What happened to the tasks of a pool in its last poll and since the one before;
/// `None` if the pool was never polled.
pub uninterp spec fn pool_log(
    pool: FuturesUnordered<LocalFutureObj<'static, ()>>,
) -> Option<PollLog>;

/// A pool as its contracts see it.
#[verifier::ext_equal]
pub struct PoolView {
    pub tasks: Multiset<Task>,
    /// The tasks that are to be polled.
    pub queued: Multiset<Task>,
    /// The waker that the last poll was given.
    pub waker: Option<Waker>,
}

impl PoolView {
    /// A pool without tasks, which was never polled.
    pub open spec fn empty() -> PoolView {
        PoolView { tasks: Multiset::empty(), queued: Multiset::empty(), waker: None }
    }

    /// The pool with one more task, which is to be polled.
    pub open spec fn pushed(self, task: Task) -> PoolView {
        PoolView { tasks: self.tasks.insert(task), queued: self.queued.insert(task), ..self }
    }

    /// The pool with more tasks, which are to be polled.
    pub open spec fn with(self, more: Multiset<Task>) -> PoolView {
        PoolView { tasks: self.tasks.add(more), queued: self.queued.add(more), ..self }
    }
}

/// The view of a pool.
pub open spec fn pool_view(pool: FuturesUnordered<LocalFutureObj<'static, ()>>) -> PoolView {
    PoolView { tasks: pool_tasks(pool), queued: pool_queued(pool), waker: pool_waker(pool) }
}

/// What a poll of a pool reports.
#[derive(Clone, Copy, Debug, PartialEq, Eq)]
pub enum PoolPoll {
    /// A task has run to its end.
    TaskDone,
    /// There is no task.
    NoTasks,
    /// Tasks are left, and none has run to its end in this poll. Each waits to be woken,
    /// or has been woken already and is left to a later poll.
    Waiting,
}

/// What happens to the tasks of a pool from the end of one poll to the end of the next.
pub struct PollLog {
    /// The tasks of the pool whose wakers were called after the one poll and before the
    /// next. A call of another thread that was under way at the end of the one poll is
    /// among these if it was over before the next.
    pub woken: Multiset<Task>,
    /// The tasks whose wakers were called while the next poll ran, once for each call,
    /// also where a task has left the pool. A call of another thread that overlaps with
    /// the poll is among these.
    pub late: Multiset<Task>,
    /// The tasks that were polled, as often as they were.
    pub polled: Multiset<Task>,
}

impl PollLog {
    /// No waker was called.
    pub open spec fn is_quiet(self) -> bool {
        &&& self.woken == Multiset::<Task>::empty()
        &&& self.late == Multiset::<Task>::empty()
    }
}

/// How a poll changes the queue of a pool. What is polled, or left to be polled, had been
/// in the queue or was woken. What was in the queue is polled or left there; so is what
/// was woken, unless a late wake-up interferes.
pub open spec fn queue_polled_to(before: PoolView, log: PollLog, after: PoolView) -> bool {
    &&& log.polled.add(after.queued).subset_of(before.queued.add(log.woken).add(log.late))
    &&& before.queued.subset_of(log.polled.add(after.queued))
    &&& log.late == Multiset::<Task>::empty() ==> forall|task: Task| #[trigger]
        log.woken.contains(task) ==> log.polled.add(after.queued).contains(task)
}

/// How a poll with `waker` that reports `report` changes a pool. A task that has run to
/// its end was polled and is gone, and no other task leaves. A poll that ends no task has
/// emptied the queue, unless a late wake-up has interrupted it. The pool keeps the waker.
pub open spec fn polled_to(
    before: PoolView,
    waker: Waker,
    log: PollLog,
    report: PoolPoll,
    after: PoolView,
) -> bool {
    &&& queue_polled_to(before, log, after)
    &&& after.waker == Some(waker)
    &&& match report {
        PoolPoll::TaskDone => exists|task: Task|
            #![trigger before.tasks.contains(task)]
            before.tasks.contains(task) && log.polled.contains(task) && after.tasks
                == before.tasks.remove(task),
        PoolPoll::NoTasks => {
            &&& before.tasks == Multiset::<Task>::empty()
            &&& log.polled == Multiset::<Task>::empty()
            &&& after == (PoolView { waker: Some(waker), ..PoolView::empty() })
        },
        PoolPoll::Waiting => {
            &&& after.tasks == before.tasks
            &&& log.late == Multiset::<Task>::empty() ==> after.queued == Multiset::<Task>::empty()
        },
    }
}

/// `FuturesUnordered::new`: the pool is empty, and was never polled.
#[verifier::external_body]
pub(crate) fn new_pool() -> (pool: FuturesUnordered<LocalFutureObj<'static, ()>>)
    ensures
        pool_tasks(pool) == Multiset::<Task>::empty(),
        pool_queued(pool) == Multiset::<Task>::empty(),
        pool_waker(pool) is None,
        pool_log(pool) is None,
{
    FuturesUnordered::new()
}

/// `FuturesUnordered::push`: the pool holds the task besides those that it held. The
/// task is not polled, but queued to be polled.
#[verifier::external_body]
pub(crate) fn push(pool: &mut FuturesUnordered<LocalFutureObj<'static, ()>>, task: Task)
    ensures
        pool_tasks(*final(pool)) == pool_tasks(*old(pool)).insert(task),
        pool_queued(*final(pool)) == pool_queued(*old(pool)).insert(task),
        pool_waker(*final(pool)) == pool_waker(*old(pool)),
        pool_log(*final(pool)) == pool_log(*old(pool)),
{
    pool.push(task);
}

/// `StreamExt::poll_next_unpin` on a `FuturesUnordered`, in a context made from
/// `waker`: polls the tasks in the queue, where a task is put when it is pushed and when
/// its own waker is called. It returns as soon as one has run to its end, and that task
/// leaves the pool. It reports that there is no task only of an empty pool. Else no task
/// leaves, and the queue is empty, unless wakers were called while it ran: then it may
/// return before. The pool keeps `waker`, to call it when a task is woken. A panic of a
/// task passes through.
///
/// Which wakers of tasks are called and when, which task ends, what the tasks do, and
/// when `waker` is called are not stated: they rest on the tasks. The log of the poll
/// tells what it found.
#[verifier::external_body]
pub(crate) fn poll_next(
    pool: &mut FuturesUnordered<LocalFutureObj<'static, ()>>,
    waker: &Waker,
) -> (polled: PoolPoll)
    ensures
        pool_log(*final(pool)) is Some,
        polled_to(
            pool_view(*old(pool)),
            *waker,
            pool_log(*final(pool))->0,
            polled,
            pool_view(*final(pool)),
        ),
{
    match pool.poll_next_unpin(&mut Context::from_waker(waker)) {
        Poll::Ready(Some(())) => PoolPoll::TaskDone,
        Poll::Ready(None) => PoolPoll::NoTasks,
        Poll::Pending => PoolPoll::Waiting,
    }
}

} // verus!
