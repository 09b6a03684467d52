//! The executor: tasks that wait to be taken up, and the pool that runs them.
use crate::pool::{new_pool, poll_next, push, PollLog, PoolPoll, PoolView, Task};
use futures::stream::FuturesUnordered;
use futures::task::SpawnError;
use nvim_oxi::{Dictionary, Object};
use std::task::Waker;
use vstd::multiset::Multiset;
use vstd::prelude::*;

verus! {

#[verifier::external_type_specification]
#[verifier::external_body]
pub struct ExSpawnError(futures::task::SpawnError);

/// What `SpawnError::is_shutdown` says of an error.
pub uninterp spec fn is_shutdown(error: futures::task::SpawnError) -> bool;

/// `SpawnError::shutdown`: the error of an executor that is gone, as `is_shutdown` says
/// of it.
pub assume_specification[ futures::task::SpawnError::shutdown ]() -> (error:
    futures::task::SpawnError)
    ensures
        is_shutdown(error),
;

/// `SpawnError::is_shutdown`: whether a task was refused because the executor is gone,
/// which it says of every error.
pub assume_specification[ futures::task::SpawnError::is_shutdown ](
    error: &futures::task::SpawnError,
) -> (result: bool)
    ensures
        result == is_shutdown(*error),
        result,
;

/// The plugin: its options, its running tasks, and the waker that makes it run.
pub struct SeanVim<W> {
    url: Option<Object>,
    pool: FuturesUnordered<Task>,
    waker: Option<W>,
}

/// The plugin as its contracts see it.
#[verifier::ext_equal]
pub struct SeanVimView<W> {
    pub url: Option<Object>,
    pub pool: PoolView,
    /// What happened in the last poll of the pool and since the one before.
    pub log: Option<PollLog>,
    pub waker: Option<W>,
}

impl<W> View for SeanVim<W> {
    type V = SeanVimView<W>;

    closed spec fn view(&self) -> SeanVimView<W> {
        SeanVimView {
            url: self.url,
            pool: crate::pool::pool_view(self.pool),
            log: crate::pool::pool_log(self.pool),
            waker: self.waker,
        }
    }
}

/// The tasks that were spawned and wait to be taken up. All spawners of an executor
/// share them; they are closed when the executor goes.
pub struct Incoming {
    tasks: Option<Vec<Task>>,
}

impl Incoming {
    /// The tasks in the order in which they were spawned; `None` once the executor is
    /// gone.
    pub closed spec fn tasks(self) -> Option<Seq<Task>> {
        match self.tasks {
            Some(tasks) => Some(tasks@),
            None => None,
        }
    }

    /// The tasks that wait.
    pub open spec fn waiting(self) -> Seq<Task> {
        match self.tasks() {
            Some(tasks) => tasks,
            None => Seq::empty(),
        }
    }

    /// No task waits yet.
    pub fn new() -> (incoming: Incoming)
        ensures
            incoming.tasks() == Some(Seq::<Task>::empty()),
    {
        Incoming { tasks: Some(Vec::new()) }
    }

    /// The executor goes, and with it the tasks that it has not taken up.
    pub fn close(&mut self)
        ensures
            final(self).tasks() == after_event(old(self).tasks(), IncomingEvent::Closed),
            final(self).tasks() is None,
    {
        self.tasks = None;
    }
}

/// What happens to the incoming tasks.
pub enum IncomingEvent {
    /// A task is spawned, or refused.
    Spawned(Task),
    /// The executor takes up all that wait.
    Drained,
    /// The executor goes.
    Closed,
}

/// The incoming tasks after an event.
pub open spec fn after_event(tasks: Option<Seq<Task>>, event: IncomingEvent) -> Option<Seq<Task>> {
    match (tasks, event) {
        (None, _) => None,
        (_, IncomingEvent::Closed) => None,
        (Some(waiting), IncomingEvent::Spawned(task)) => Some(waiting.push(task)),
        (Some(_), IncomingEvent::Drained) => Some(Seq::empty()),
    }
}

/// The incoming tasks after a series of events.
pub open spec fn after_events(
    tasks: Option<Seq<Task>>,
    events: Seq<IncomingEvent>,
) -> Option<Seq<Task>>
    decreases events.len(),
{
    if events.len() == 0 {
        tasks
    } else {
        after_event(after_events(tasks, events.drop_last()), events.last())
    }
}

/// Whether an executor with these incoming tasks answers as it should: with success
/// while it is there, and with the error of one that is gone else.
pub open spec fn answers(tasks: Option<Seq<Task>>, result: Result<(), SpawnError>) -> bool {
    match result {
        Ok(_) => tasks is Some,
        Err(error) => tasks is None && is_shutdown(error),
    }
}

/// Whether an answer is that of an executor that is gone.
pub fn is_gone(answer: &Result<(), SpawnError>) -> (gone: bool)
    ensures
        gone <==> answer is Err,
        gone ==> is_shutdown(answer->Err_0),
{
    match answer {
        Ok(_) => false,
        Err(error) => error.is_shutdown(),
    }
}

/// A handle by which tasks are given to an executor.
#[derive(Clone)]
pub struct LocalSpawner<W> {
    pub waker: Option<W>,
}

/// What a run has come to.
#[derive(Clone, Copy, Debug, PartialEq, Eq)]
pub enum RunEvent {
    /// The run begins.
    Begin,
    /// The pool has been polled.
    Polled(PoolPoll),
}

/// What a run does next.
#[derive(Clone, Copy, Debug, PartialEq, Eq)]
pub enum RunAction {
    /// Stop: there is no waker yet, so nothing is run.
    NoWaker,
    /// Poll the pool.
    Poll,
    /// Stop: all tasks have run to their end.
    Done,
    /// Stop: the last poll has ended no task, and tasks are left. The executor runs again
    /// when it is woken, which may have happened already.
    Stalled,
}

/// What a run does next: with a waker it polls at least once, and goes on while tasks
/// are spawned or run to their end.
pub open spec fn action_after(
    has_waker: bool,
    event: RunEvent,
    incoming_is_empty: bool,
) -> RunAction {
    if !has_waker {
        RunAction::NoWaker
    } else if !incoming_is_empty {
        RunAction::Poll
    } else {
        match event {
            RunEvent::Begin => RunAction::Poll,
            RunEvent::Polled(PoolPoll::TaskDone) => RunAction::Poll,
            RunEvent::Polled(PoolPoll::NoTasks) => RunAction::Done,
            RunEvent::Polled(PoolPoll::Waiting) => RunAction::Stalled,
        }
    }
}

/// A run from its beginning to its last step.
pub struct RunTrace {
    /// The waker of the plugin.
    pub waker: Waker,
    /// The pool before each step.
    pub pools: Seq<PoolView>,
    /// The tasks that waited to be taken up at each step.
    pub waiting: Seq<Seq<Task>>,
    /// What the poll after each step but the last reported.
    pub polls: Seq<PoolPoll>,
    /// What happened to the tasks until the end of each of these polls.
    pub logs: Seq<PollLog>,
}

impl RunTrace {
    /// The last step.
    pub open spec fn end(self) -> int {
        self.polls.len() as int
    }

    /// What the run had come to at step `i`.
    pub open spec fn event(self, i: int) -> RunEvent {
        if i <= 0 {
            RunEvent::Begin
        } else {
            RunEvent::Polled(self.polls[i - 1])
        }
    }

    /// What was done after step `i`.
    pub open spec fn action(self, i: int) -> RunAction {
        action_after(true, self.event(i), self.waiting[i].len() == 0)
    }

    /// The pool after step `i`.
    pub open spec fn pool_after(self, i: int) -> PoolView {
        self.pools[i].with(self.waiting[i].to_multiset())
    }

    /// Each step takes up what waits, and each but the last is followed by a poll.
    pub open spec fn wf(self) -> bool {
        &&& self.pools.len() == self.polls.len() + 1
        &&& self.waiting.len() == self.polls.len() + 1
        &&& self.logs.len() == self.polls.len()
        &&& forall|i: int|
            0 <= i < self.end() ==> {
                &&& self.action(i) is Poll
                &&& crate::pool::polled_to(
                    self.pool_after(i),
                    self.waker,
                    self.logs[i],
                    #[trigger] self.polls[i],
                    self.pools[i + 1],
                )
            }
    }

    /// A run of one step, on `pool`, while `waiting` wait to be taken up.
    pub open spec fn begun(waker: Waker, pool: PoolView, waiting: Seq<Task>) -> RunTrace {
        RunTrace {
            waker,
            pools: seq![pool],
            waiting: seq![waiting],
            polls: Seq::empty(),
            logs: Seq::empty(),
        }
    }

    /// The run after one more poll, which reports `polled` and leaves the pool `left`,
    /// and one more step, while `waiting` wait to be taken up.
    pub open spec fn extended(
        self,
        polled: PoolPoll,
        log: PollLog,
        left: PoolView,
        waiting: Seq<Task>,
    ) -> RunTrace {
        RunTrace {
            waker: self.waker,
            pools: self.pools.push(left),
            waiting: self.waiting.push(waiting),
            polls: self.polls.push(polled),
            logs: self.logs.push(log),
        }
    }

    /// The run up to the step before the last.
    pub open spec fn shorter(self) -> RunTrace {
        RunTrace {
            waker: self.waker,
            pools: self.pools.drop_last(),
            waiting: self.waiting.drop_last(),
            polls: self.polls.drop_last(),
            logs: self.logs.drop_last(),
        }
    }

    /// All tasks that were taken up.
    pub open spec fn taken_up(self) -> Multiset<Task>
        decreases self.polls.len(),
    {
        if self.polls.len() == 0 {
            self.waiting[0].to_multiset()
        } else {
            self.shorter().taken_up().add(self.waiting[self.end()].to_multiset())
        }
    }

    /// How often a task was polled.
    pub open spec fn times_polled(self, task: Task) -> nat
        decreases self.polls.len(),
    {
        if self.polls.len() == 0 {
            0
        } else {
            self.shorter().times_polled(task) + self.logs.last().polled.count(task)
        }
    }

    /// How often a task was woken.
    pub open spec fn times_woken(self, task: Task) -> nat
        decreases self.polls.len(),
    {
        if self.polls.len() == 0 {
            0
        } else {
            self.shorter().times_woken(task) + self.logs.last().woken.count(task)
                + self.logs.last().late.count(task)
        }
    }

    /// How many tasks have run to their end.
    pub open spec fn ended(self) -> nat
        decreases self.polls.len(),
    {
        if self.polls.len() == 0 {
            0
        } else {
            self.shorter().ended() + if self.polls.last() is TaskDone {
                1nat
            } else {
                0
            }
        }
    }
}

impl<W> LocalSpawner<W> {
    /// Puts a task among the incoming ones of the executor. The waker is to be called
    /// if there is one. An executor that is gone refuses.
    pub fn spawn_local_obj<'a>(
        &'a self,
        incoming: &mut Incoming,
        future: Task,
    ) -> (result: (Result<(), SpawnError>, Option<&'a W>))
        ensures
            answers(old(incoming).tasks(), result.0),
            result.0 is Ok <==> old(incoming).tasks() is Some,
            result.0 is Ok ==> final(incoming).tasks() == Some(
                old(incoming).tasks()->0.push(future),
            ),
            result.0 is Err ==> final(incoming).tasks() is None,
            final(incoming).tasks() == after_event(
                old(incoming).tasks(),
                IncomingEvent::Spawned(future),
            ),
            result.1 is Some <==> result.0 is Ok && self.waker is Some,
            result.1 is Some ==> *result.1->0 == self.waker->0,
    {
        match incoming.tasks.take() {
            Some(mut tasks) => {
                tasks.push(future);
                incoming.tasks = Some(tasks);
                (Ok(()), self.waker.as_ref())
            },
            None => (Err(SpawnError::shutdown()), None),
        }
    }

    /// Whether the executor still takes tasks, that is, whether it is still there.
    pub fn status_local(&self, incoming: &Incoming) -> (result: Result<(), SpawnError>)
        ensures
            answers(incoming.tasks(), result),
            result is Ok <==> incoming.tasks() is Some,
    {
        if incoming.tasks.is_some() {
            Ok(())
        } else {
            Err(SpawnError::shutdown())
        }
    }
}

impl<W> SeanVim<W> {
    /// A plugin without options, tasks and waker.
    pub fn new() -> (plugin: SeanVim<W>)
        ensures
            plugin@ == (SeanVimView::<W> {
                url: None,
                pool: PoolView::empty(),
                log: None,
                waker: None,
            }),
    {
        SeanVim { url: None, pool: new_pool(), waker: None }
    }

    /// Sets the waker that makes the plugin run.
    pub fn set_waker(&mut self, waker: W)
        ensures
            final(self)@ == (SeanVimView { waker: Some(waker), ..old(self)@ }),
    {
        self.waker = Some(waker);
    }

    /// A clonable handle by which tasks are given to the pool.
    pub fn spawner(&self) -> (spawner: LocalSpawner<W>) where W: Clone
        ensures
            spawner.waker is Some <==> self@.waker is Some,
            spawner.waker is Some ==> cloned(self@.waker->0, spawner.waker->0),
    {
        LocalSpawner { waker: self.waker.clone() }
    }

    /// Takes over the options: the first entry under `url`.
    pub fn setup(&mut self, config: Dictionary)
        ensures
            match crate::config::first_entry(
                crate::config::entries(config),
                vstd::utf8::encode_utf8("url"@),
            ) {
                Some(url) => final(self)@.url is Some && cloned(url, final(self)@.url->0),
                None => final(self)@.url is None,
            },
            final(self)@ == (SeanVimView { url: final(self)@.url, ..old(self)@ }),
    {
        self.url = crate::config::get(&config, "url").cloned();
    }

    /// The option `url`.
    pub fn url(&self) -> (url: Option<&Object>)
        ensures
            url is Some <==> self@.url is Some,
            url is Some ==> *url->0 == self@.url->0,
    {
        self.url.as_ref()
    }

    /// Moves all incoming tasks into the pool.
    pub fn drain_incoming(&mut self, incoming: &mut Incoming)
        ensures
            final(incoming).tasks() == after_event(old(incoming).tasks(), IncomingEvent::Drained),
            old(incoming).tasks() matches Some(tasks) ==> {
                &&& final(incoming).tasks() == Some(Seq::<Task>::empty())
                &&& final(self)@.pool.tasks == old(self)@.pool.tasks.add(tasks.to_multiset())
                &&& final(self)@.pool.queued == old(self)@.pool.queued.add(tasks.to_multiset())
            },
            old(incoming).tasks() is None ==> {
                &&& final(incoming).tasks() is None
                &&& final(self)@.pool.tasks == old(self)@.pool.tasks
            },
            final(self)@ == (SeanVimView {
                pool: old(self)@.pool.with(old(incoming).waiting().to_multiset()),
                ..old(self)@
            }),
    {
        let ghost moved = incoming.waiting();
        let ghost before = self@.pool;
        proof {
            broadcast use vstd::seq_lib::group_to_multiset_ensures;

            assert(moved.take(0).to_multiset().len() == 0);
            assert(before =~= before.with(moved.take(0).to_multiset()));
            assert(moved.take(moved.len() as int) =~= moved);
        }
        if let Some(tasks) = incoming.tasks.take() {
            incoming.tasks = Some(Vec::new());
            for task in iter: tasks
                invariant
                    self.url == old(self).url,
                    self.waker == old(self).waker,
                    self@.log == old(self)@.log,
                    iter.seq() == moved,
                    self@.pool == before.with(moved.take(iter.index() as int).to_multiset()),
            {
                push(&mut self.pool, task);
                proof {
                    broadcast use vstd::seq_lib::group_to_multiset_ensures;

                    let i = iter.index() as int;
                    assert(moved.take(i + 1) =~= moved.take(i).push(moved[i]));
                    assert(self@.pool =~= before.with(moved.take(i + 1).to_multiset()));
                }
            }
        }
    }

    /// Takes a run one step further: what waits moves into the pool, and the answer says
    /// what to do next. Without a waker nothing is moved.
    pub fn run_step(&mut self, event: RunEvent, incoming: &mut Incoming) -> (action: RunAction)
        ensures
            action == action_after(
                old(self)@.waker is Some,
                event,
                old(incoming).waiting().len() == 0,
            ),
            action is NoWaker ==> final(self)@ == old(self)@ && final(incoming).tasks() == old(
                incoming,
            ).tasks(),
            action !is NoWaker ==> final(incoming).tasks() == after_event(
                old(incoming).tasks(),
                IncomingEvent::Drained,
            ) && final(self)@ == (SeanVimView {
                pool: old(self)@.pool.with(old(incoming).waiting().to_multiset()),
                ..old(self)@
            }),
            old(self)@.waker is Some ==> (old(incoming).tasks() matches Some(tasks) ==> {
                &&& final(incoming).tasks() == Some(Seq::<Task>::empty())
                &&& final(self)@.pool.tasks == old(self)@.pool.tasks.add(tasks.to_multiset())
                &&& final(self)@.pool.queued == old(self)@.pool.queued.add(tasks.to_multiset())
                &&& tasks.len() > 0 ==> action is Poll
            }),
    {
        if self.waker.is_none() {
            return RunAction::NoWaker;
        }
        let empty = match &incoming.tasks {
            Some(tasks) => tasks.len() == 0,
            None => true,
        };
        self.drain_incoming(incoming);
        if !empty {
            return RunAction::Poll;
        }
        match event {
            RunEvent::Begin => RunAction::Poll,
            RunEvent::Polled(PoolPoll::TaskDone) => RunAction::Poll,
            RunEvent::Polled(PoolPoll::NoTasks) => RunAction::Done,
            RunEvent::Polled(PoolPoll::Waiting) => RunAction::Stalled,
        }
    }
}

impl SeanVim<Waker> {
    /// Polls the tasks that are to be polled, if there is a waker. The pool gets it, to
    /// call it when a task is woken.
    pub fn poll_tasks(&mut self) -> (polled: Option<PoolPoll>)
        ensures
            polled is Some <==> old(self)@.waker is Some,
            match polled {
                Some(report) => {
                    &&& final(self)@.log is Some
                    &&& crate::pool::polled_to(
                        old(self)@.pool,
                        old(self)@.waker->0,
                        final(self)@.log->0,
                        report,
                        final(self)@.pool,
                    )
                },
                None => final(self)@ == old(self)@,
            },
            final(self)@ == (SeanVimView {
                pool: final(self)@.pool,
                log: final(self)@.log,
                ..old(self)@
            }),
    {
        match &self.waker {
            Some(waker) => Some(poll_next(&mut self.pool, waker)),
            None => None,
        }
    }
}

/// The status of an executor and its answer to the next task agree, on every spawner:
/// both are success, or both are the error of an executor that is gone.
pub proof fn law_status_foretells_spawn(
    tasks: Option<Seq<Task>>,
    status: Result<(), SpawnError>,
    spawned: Result<(), SpawnError>,
)
    requires
        answers(tasks, status),
        answers(tasks, spawned),
    ensures
        status is Ok <==> spawned is Ok,
        status is Err ==> is_shutdown(status->Err_0),
        spawned is Err ==> is_shutdown(spawned->Err_0),
{
}

/// A refusal lasts: an executor that is gone refuses whatever happens later.
pub proof fn law_refusal_lasts(
    tasks: Option<Seq<Task>>,
    events: Seq<IncomingEvent>,
    earlier: Result<(), SpawnError>,
    later: Result<(), SpawnError>,
)
    requires
        answers(tasks, earlier),
        earlier is Err,
        answers(after_events(tasks, events), later),
    ensures
        after_events(tasks, events) is None,
        later is Err,
        is_shutdown(later->Err_0),
{
    lemma_gone_stays_gone(events);
}

proof fn lemma_gone_stays_gone(events: Seq<IncomingEvent>)
    ensures
        after_events(None, events) is None,
    decreases events.len(),
{
    if events.len() > 0 {
        lemma_gone_stays_gone(events.drop_last());
    }
}

/// A spawned task is in the pool once the incoming tasks have been drained, besides
/// those that would have been there without it.
pub proof fn law_spawned_task_reaches_pool(pool: PoolView, waiting: Seq<Task>, future: Task)
    ensures
        pool.with(waiting.push(future).to_multiset()) == pool.with(waiting.to_multiset()).pushed(
            future,
        ),
{
    broadcast use vstd::seq_lib::group_to_multiset_ensures;

    assert(pool.with(waiting.push(future).to_multiset()) =~= pool.with(
        waiting.to_multiset(),
    ).pushed(future));
}

/// The first step of a plugin with a waker makes a run: the answer of `run_step` and the
/// pool that it leaves are those of the run's last step.
pub proof fn law_first_step_begins_run(waker: Waker, pool: PoolView, waiting: Seq<Task>)
    ensures
        ({
            let run = RunTrace::begun(waker, pool, waiting);
            &&& run.wf()
            &&& run.action(run.end()) == action_after(true, RunEvent::Begin, waiting.len() == 0)
            &&& run.pool_after(run.end()) == pool.with(waiting.to_multiset())
        }),
{
}

/// A poll and the step after it make a run longer: the answer of `run_step` and the
/// pool that it leaves are those of the longer run's last step.
pub proof fn law_poll_and_step_extend_run(
    run: RunTrace,
    polled: PoolPoll,
    log: PollLog,
    left: PoolView,
    waiting: Seq<Task>,
)
    requires
        run.wf(),
        run.action(run.end()) is Poll,
        crate::pool::polled_to(run.pool_after(run.end()), run.waker, log, polled, left),
    ensures
        ({
            let longer = run.extended(polled, log, left, waiting);
            &&& longer.wf()
            &&& longer.pools[0] == run.pools[0]
            &&& longer.action(longer.end()) == action_after(
                true,
                RunEvent::Polled(polled),
                waiting.len() == 0,
            )
            &&& longer.pool_after(longer.end()) == left.with(waiting.to_multiset())
        }),
{
    let longer = run.extended(polled, log, left, waiting);
    assert forall|i: int| 0 <= i < longer.end() implies {
        &&& longer.action(i) is Poll
        &&& crate::pool::polled_to(
            longer.pool_after(i),
            longer.waker,
            longer.logs[i],
            #[trigger] longer.polls[i],
            longer.pools[i + 1],
        )
    } by {
        assert(longer.action(i) == run.action(i));
        assert(longer.pool_after(i) == run.pool_after(i));
        if i < run.end() {
            assert(longer.polls[i] == run.polls[i]);
            assert(longer.logs[i] == run.logs[i]);
        }
    }
}

/// Tasks that were spawned during a poll are taken up and polled in the same run: the
/// run goes on, and its next poll is of a pool that holds them and has them in its queue.
pub proof fn law_spawned_tasks_run_in_same_run(run: RunTrace, i: int, task: Task)
    requires
        run.wf(),
        0 <= i <= run.end(),
        run.waiting[i].contains(task),
    ensures
        run.action(i) is Poll,
        run.pool_after(i).tasks.contains(task),
        run.pool_after(i).queued.contains(task),
{
    broadcast use vstd::seq_lib::group_to_multiset_ensures;

    assert(run.waiting[i].to_multiset().count(task) > 0);
}

/// A run that is done has left no task, neither in the pool nor waiting, and every task
/// that it began with or took up has run to its end.
pub proof fn law_done_run_has_ended_all(run: RunTrace)
    requires
        run.wf(),
        run.action(run.end()) is Done,
    ensures
        run.waiting[run.end()].len() == 0,
        run.pool_after(run.end()) == (PoolView { waker: Some(run.waker), ..PoolView::empty() }),
        run.ended() == run.pools[0].tasks.len() + run.taken_up().len(),
{
    broadcast use vstd::seq_lib::group_to_multiset_ensures;

    let n = run.end();
    assert(run.waiting[n].to_multiset().len() == 0);
    assert(run.polls[n - 1] is NoTasks);
    assert(run.pool_after(n) =~= (PoolView { waker: Some(run.waker), ..PoolView::empty() }));
    law_run_accounts_for_tasks(run);
    let left = run.pool_after(n).tasks;
    let ended = choose|ended: Multiset<Task>|
        #![trigger left.add(ended)]
        ended.len() == run.ended() && left.add(ended) == run.pools[0].tasks.add(run.taken_up());
    assert(left.add(ended).len() == left.len() + ended.len());
}

/// A run stalls only where no task waits to be taken up and its last poll has ended none;
/// and it leaves none in the queue, unless a waker was called during that poll.
pub proof fn law_stalled_run_is_still(run: RunTrace)
    requires
        run.wf(),
        run.action(run.end()) is Stalled,
    ensures
        run.waiting[run.end()].len() == 0,
        run.end() > 0,
        run.pool_after(run.end()).tasks == run.pool_after(run.end() - 1).tasks,
        run.logs.last().late == Multiset::<Task>::empty() ==> run.pool_after(run.end()).queued
            == Multiset::<Task>::empty(),
{
    broadcast use vstd::seq_lib::group_to_multiset_ensures;

    let n = run.end();
    assert(run.waiting[n].to_multiset().len() == 0);
    assert(run.polls[n - 1] is Waiting);
    assert(run.pool_after(n) =~= run.pools[n]);
}

/// A run that is over, stalled or done, has polled the pool and left it the plugin's
/// waker.
pub proof fn law_run_leaves_waker_with_pool(run: RunTrace)
    requires
        run.wf(),
        run.action(run.end()) !is Poll,
    ensures
        run.end() > 0,
        run.pool_after(run.end()).waker == Some(run.waker),
{
    let n = run.end();
    if n > 0 {
        assert(run.polls[n - 1] == run.polls[n - 1]);
    }
}

/// A task is polled only when there is a reason: no more often than it was in the queue
/// at the beginning of the run, taken up, and woken. What is still in the queue has its
/// reason left.
pub proof fn law_every_poll_has_a_reason(run: RunTrace, task: Task)
    requires
        run.wf(),
    ensures
        run.times_polled(task) + run.pool_after(run.end()).queued.count(task)
            <= run.pools[0].queued.count(task) + run.taken_up().count(task) + run.times_woken(task),
    decreases run.polls.len(),
{
    let n = run.end();
    if n > 0 {
        let shorter = run.shorter();
        let log = run.logs[n - 1];
        lemma_shorter_run(run);
        law_every_poll_has_a_reason(shorter, task);
        assert(shorter.pool_after(shorter.end()) == run.pool_after(n - 1));
        assert(crate::pool::polled_to(
            run.pool_after(n - 1),
            run.waker,
            log,
            run.polls[n - 1],
            run.pools[n],
        ));
        let found = run.pool_after(n - 1).queued.add(log.woken).add(log.late);
        assert(log.polled.add(run.pools[n].queued).count(task) <= found.count(task));
    }
}

/// After a run that left tasks, the next run polls none of them if no waker of theirs was
/// called, from the last poll of the one run to the end of the other, and no task was
/// spawned. It leaves the pool and the incoming tasks as they were; the pool gets the
/// waker anew.
pub proof fn law_task_is_not_polled_unless_woken(run: RunTrace, next: RunTrace)
    requires
        run.wf(),
        run.action(run.end()) is Stalled,
        run.logs.last().late == Multiset::<Task>::empty(),
        run.pool_after(run.end()).tasks.len() > 0,
        next.wf(),
        next.pools[0] == run.pool_after(run.end()),
        next.action(next.end()) !is Poll,
        forall|i: int| 0 <= i <= next.end() ==> (#[trigger] next.waiting[i]).len() == 0,
        forall|i: int| 0 <= i < next.end() ==> (#[trigger] next.logs[i]).is_quiet(),
    ensures
        next.end() == 1,
        next.logs[0].polled == Multiset::<Task>::empty(),
        next.pool_after(1) == (PoolView {
            waker: Some(next.waker),
            ..run.pool_after(run.end())
        }),
        next.waker == run.waker ==> next.pool_after(1) == run.pool_after(run.end()),
        next.waiting[1].len() == 0,
        next.action(1) is Stalled,
{
    broadcast use vstd::seq_lib::group_to_multiset_ensures;

    law_stalled_run_is_still(run);
    law_run_leaves_waker_with_pool(run);
    assert(next.waiting[0].to_multiset().len() == 0) by {
        assert(next.waiting[0].len() == 0);
    }
    assert(next.pool_after(0) =~= next.pools[0]);
    assert(next.end() > 0);
    assert(next.logs[0].is_quiet());
    lemma_quiet_poll(
        next.pool_after(0),
        next.waker,
        next.logs[0],
        next.polls[0],
        next.pools[1],
    );
    assert(next.waiting[1].to_multiset().len() == 0) by {
        assert(next.waiting[1].len() == 0);
    }
    assert(next.action(1) is Stalled);
    if next.end() > 1 {
        assert(crate::pool::polled_to(
            next.pool_after(1),
            next.waker,
            next.logs[1],
            next.polls[1],
            next.pools[2],
        ));
    }
    assert(next.pool_after(1) =~= next.pools[1]);
}

/// A poll of a pool with an empty queue, while no waker is called, polls nothing.
proof fn lemma_quiet_poll(
    before: PoolView,
    waker: Waker,
    log: PollLog,
    report: PoolPoll,
    after: PoolView,
)
    requires
        crate::pool::polled_to(before, waker, log, report, after),
        before.queued == Multiset::<Task>::empty(),
        before.tasks.len() > 0,
        log.is_quiet(),
    ensures
        log.polled == Multiset::<Task>::empty(),
        after == (PoolView { waker: Some(waker), ..before }),
        report is Waiting,
{
    let found = before.queued.add(log.woken).add(log.late);
    let reached = log.polled.add(after.queued);
    assert forall|task: Task| #[trigger] reached.count(task) == 0 by {
        assert(found.count(task) == 0);
        assert(reached.count(task) <= found.count(task));
    }
    assert forall|task: Task| #[trigger] log.polled.count(task) == 0 by {
        assert(reached.count(task) == 0);
    }
    assert forall|task: Task| #[trigger] after.queued.count(task) == 0 by {
        assert(reached.count(task) == 0);
    }
    assert(log.polled =~= Multiset::<Task>::empty());
    assert(after.queued =~= Multiset::<Task>::empty());
}

/// A task that is woken before a poll of a run, or taken up there, is polled by the time
/// the run is over, if no waker was called while that poll and the later ones ran.
pub proof fn law_woken_task_is_polled(run: RunTrace, i: int, task: Task) -> (j: int)
    requires
        run.wf(),
        run.action(run.end()) !is Poll,
        0 <= i < run.end(),
        run.logs[i].woken.contains(task) || run.waiting[i].contains(task),
        forall|k: int|
            i <= k < run.end() ==> (#[trigger] run.logs[k]).late == Multiset::<Task>::empty(),
    ensures
        i <= j < run.end(),
        run.logs[j].polled.contains(task),
{
    broadcast use vstd::seq_lib::group_to_multiset_ensures;

    assert(crate::pool::polled_to(
        run.pool_after(i),
        run.waker,
        run.logs[i],
        run.polls[i],
        run.pools[i + 1],
    ));
    let reached = run.logs[i].polled.add(run.pools[i + 1].queued);
    if run.waiting[i].contains(task) {
        assert(run.waiting[i].to_multiset().count(task) > 0);
        assert(run.pool_after(i).queued.count(task) <= reached.count(task));
    }
    assert(reached.count(task) > 0);
    if run.logs[i].polled.contains(task) {
        i
    } else {
        lemma_queued_task_is_polled(run, i + 1, task)
    }
}

/// A task in the queue at a step of a run is polled by the time the run is over, if no
/// waker was called while the later polls ran.
proof fn lemma_queued_task_is_polled(run: RunTrace, i: int, task: Task) -> (j: int)
    requires
        run.wf(),
        run.action(run.end()) !is Poll,
        0 < i <= run.end(),
        run.pools[i].queued.contains(task),
        run.logs[i - 1].late == Multiset::<Task>::empty(),
        forall|k: int|
            i <= k < run.end() ==> (#[trigger] run.logs[k]).late == Multiset::<Task>::empty(),
    ensures
        i <= j < run.end(),
        run.logs[j].polled.contains(task),
    decreases run.end() - i,
{
    assert(crate::pool::polled_to(
        run.pool_after(i - 1),
        run.waker,
        run.logs[i - 1],
        run.polls[i - 1],
        run.pools[i],
    ));
    if i == run.end() {
        assert(run.polls[i - 1] is TaskDone);
        assert(run.action(i) is Poll);
        i
    } else {
        assert(crate::pool::polled_to(
            run.pool_after(i),
            run.waker,
            run.logs[i],
            run.polls[i],
            run.pools[i + 1],
        ));
        let reached = run.logs[i].polled.add(run.pools[i + 1].queued);
        assert(run.pool_after(i).queued.count(task) > 0);
        assert(run.pool_after(i).queued.count(task) <= reached.count(task));
        if run.logs[i].polled.contains(task) {
            i
        } else {
            lemma_queued_task_is_polled(run, i + 1, task)
        }
    }
}

/// No task is lost or made up: the tasks that a run began with and those that it took
/// up are those that are left and those that have run to their end.
pub proof fn law_run_accounts_for_tasks(run: RunTrace)
    requires
        run.wf(),
    ensures
        exists|ended: Multiset<Task>|
            #![trigger run.pool_after(run.end()).tasks.add(ended)]
            ended.len() == run.ended() && run.pool_after(run.end()).tasks.add(ended)
                == run.pools[0].tasks.add(run.taken_up()),
    decreases run.polls.len(),
{
    let n = run.end();
    let after = run.pool_after(n).tasks;
    let start = run.pools[0].tasks;
    if n == 0 {
        assert(after.add(Multiset::empty()) =~= start.add(run.taken_up()));
    } else {
        let shorter = run.shorter();
        lemma_shorter_run(run);
        law_run_accounts_for_tasks(shorter);
        let reached = shorter.pool_after(shorter.end()).tasks;
        assert(reached == run.pool_after(n - 1).tasks);
        let ended = choose|ended: Multiset<Task>|
            #![trigger reached.add(ended)]
            ended.len() == shorter.ended() && reached.add(ended) == start.add(shorter.taken_up());
        let new = run.waiting[n].to_multiset();
        let left = run.pools[n].tasks;
        assert(crate::pool::polled_to(
            run.pool_after(n - 1),
            run.waker,
            run.logs[n - 1],
            run.polls[n - 1],
            run.pools[n],
        ));
        if run.polls[n - 1] is TaskDone {
            let task = choose|task: Task|
                #![trigger reached.contains(task)]
                reached.contains(task) && left == reached.remove(task);
            let more = ended.insert(task);
            assert(left.add(new).add(more) =~= reached.add(ended).add(new));
            assert(reached.add(ended).add(new) =~= start.add(run.taken_up()));
            assert(after.add(more) == start.add(run.taken_up()));
        } else {
            assert(left =~= reached);
            assert(left.add(new).add(ended) =~= reached.add(ended).add(new));
            assert(reached.add(ended).add(new) =~= start.add(run.taken_up()));
            assert(after.add(ended) == start.add(run.taken_up()));
        }
    }
}

proof fn lemma_shorter_run(run: RunTrace)
    requires
        run.wf(),
        run.end() > 0,
    ensures
        run.shorter().wf(),
{
    let shorter = run.shorter();
    assert forall|i: int| 0 <= i < shorter.end() implies {
        &&& shorter.action(i) is Poll
        &&& crate::pool::polled_to(
            shorter.pool_after(i),
            shorter.waker,
            shorter.logs[i],
            #[trigger] shorter.polls[i],
            shorter.pools[i + 1],
        )
    } by {
        assert(run.polls[i] == shorter.polls[i]);
        assert(run.logs[i] == shorter.logs[i]);
        assert(shorter.action(i) == run.action(i));
        assert(shorter.pool_after(i) == run.pool_after(i));
    }
}

/// The spawning of tasks, one after another.
pub open spec fn spawnings(tasks: Seq<Task>) -> Seq<IncomingEvent> {
    Seq::new(tasks.len(), |i: int| IncomingEvent::Spawned(tasks[i]))
}

/// An executor that is there accepts every task, however many wait: after any number of
/// spawnings all the tasks wait, in their order, behind those that waited. One that is gone
/// keeps none.
pub proof fn law_all_accepted_tasks_wait(waiting: Seq<Task>, tasks: Seq<Task>)
    ensures
        after_events(Some(waiting), spawnings(tasks)) == Some(waiting + tasks),
        after_events(None, spawnings(tasks)) is None,
    decreases tasks.len(),
{
    lemma_gone_stays_gone(spawnings(tasks));
    if tasks.len() == 0 {
        assert(waiting + tasks =~= waiting);
    } else {
        let earlier = tasks.drop_last();
        law_all_accepted_tasks_wait(waiting, earlier);
        assert(spawnings(tasks).drop_last() =~= spawnings(earlier));
        assert((waiting + earlier).push(tasks.last()) =~= waiting + tasks);
    }
}

/// All tasks that were accepted are in the pool once the incoming tasks have been drained,
/// each as often as it was spawned, to be polled; none waits then, and no task of the pool
/// is lost.
pub proof fn law_all_accepted_tasks_reach_pool(pool: PoolView, tasks: Seq<Task>, task: Task)
    ensures
        ({
            let waiting = after_events(Some(Seq::<Task>::empty()), spawnings(tasks));
            let after = pool.with(waiting->0.to_multiset());
            &&& after.tasks.count(task) == pool.tasks.count(task) + tasks.to_multiset().count(task)
            &&& after.queued.count(task) == pool.queued.count(task) + tasks.to_multiset().count(
                task,
            )
            &&& tasks.contains(task) ==> after.tasks.contains(task) && after.queued.contains(task)
            &&& after.waker == pool.waker
            &&& after_event(waiting, IncomingEvent::Drained) == Some(Seq::<Task>::empty())
        }),
{
    broadcast use vstd::seq_lib::group_to_multiset_ensures;

    law_all_accepted_tasks_wait(Seq::empty(), tasks);
    assert(Seq::<Task>::empty() + tasks =~= tasks);
    if tasks.contains(task) {
        assert(tasks.to_multiset().count(task) > 0);
    }
}

/// An executor that is there answers with success, and one that is gone with an error.
pub proof fn law_answer_tells_whether_executor_is_there(
    tasks: Option<Seq<Task>>,
    result: Result<(), SpawnError>,
)
    requires
        answers(tasks, result),
    ensures
        result is Ok <==> tasks is Some,
        after_event(tasks, IncomingEvent::Closed) is None,
{
}

/// Without a waker nothing is done. With one a run polls at its beginning, while tasks are
/// spawned, and after each task that has run to its end; else it stops, done if the pool
/// was empty and stalled if not.
pub proof fn law_run_stops_only_where_nothing_is_to_be_done(
    has_waker: bool,
    event: RunEvent,
    incoming_is_empty: bool,
)
    ensures
        ({
            let action = action_after(has_waker, event, incoming_is_empty);
            let quiet = has_waker && incoming_is_empty;
            &&& action is NoWaker <==> !has_waker
            &&& action is Poll <==> has_waker && (!incoming_is_empty || event is Begin || event
                == RunEvent::Polled(PoolPoll::TaskDone))
            &&& action is Done <==> quiet && event == RunEvent::Polled(PoolPoll::NoTasks)
            &&& action is Stalled <==> quiet && event == RunEvent::Polled(PoolPoll::Waiting)
        }),
{
}

/// The tasks that wait are all that are incoming; none waits for an executor that is gone.
pub proof fn law_all_incoming_tasks_wait(incoming: Incoming)
    ensures
        incoming.tasks() is Some ==> incoming.waiting() == incoming.tasks()->0,
        incoming.tasks() is None ==> incoming.waiting().len() == 0,
{
}

} // verus!
