use futures::task::{noop_waker, LocalFutureObj};
use nvim_oxi::{Dictionary, Object};
use seanvim::executor::{is_gone, Incoming, LocalSpawner, RunAction, RunEvent, SeanVim};
use seanvim::pool::{PoolPoll, Task};
use seanvim::waker::LuvWaker;
use std::cell::{Cell, RefCell};
use std::future::Future;
use std::pin::Pin;
use std::rc::Rc;
use std::sync::atomic::{AtomicU32, Ordering};
use std::sync::Arc;
use std::task::{Context, Poll, Wake, Waker};

/// Ends after it has been polled `left` times more, and counts its end.
struct Countdown {
    left: u32,
    ended: Rc<Cell<u32>>,
}

impl Future for Countdown {
    type Output = ();
    fn poll(mut self: Pin<&mut Self>, cx: &mut Context<'_>) -> Poll<()> {
        if self.left == 0 {
            self.ended.set(self.ended.get() + 1);
            return Poll::Ready(());
        }
        self.left -= 1;
        cx.waker().wake_by_ref();
        Poll::Pending
    }
}

/// Never ends. Counts its polls and keeps its waker.
struct Sleeper {
    polls: Rc<Cell<u32>>,
    waker: Rc<RefCell<Option<Waker>>>,
}

impl Future for Sleeper {
    type Output = ();
    fn poll(self: Pin<&mut Self>, cx: &mut Context<'_>) -> Poll<()> {
        self.polls.set(self.polls.get() + 1);
        *self.waker.borrow_mut() = Some(cx.waker().clone());
        Poll::Pending
    }
}

fn countdown(left: u32, ended: &Rc<Cell<u32>>) -> Task {
    LocalFutureObj::new(Box::new(Countdown { left, ended: ended.clone() }))
}

fn plugin() -> SeanVim<Waker> {
    let mut plugin = SeanVim::new();
    plugin.set_waker(noop_waker());
    plugin
}

/// Incoming tasks that count down from `lefts`.
fn incoming(lefts: &[u32], ended: &Rc<Cell<u32>>) -> RefCell<Incoming> {
    let mut incoming = Incoming::new();
    for left in lefts {
        spawn(&mut incoming, countdown(*left, ended));
    }
    RefCell::new(incoming)
}

fn spawn(incoming: &mut Incoming, task: Task) {
    let spawner: LocalSpawner<u32> = LocalSpawner { waker: None };
    assert!(spawner.spawn_local_obj(incoming, task).0.is_ok());
}

/// Runs the plugin; gives how it stopped and what the polls reported.
fn run(plugin: &mut SeanVim<Waker>, incoming: &RefCell<Incoming>) -> (RunAction, Vec<PoolPoll>) {
    let mut event = RunEvent::Begin;
    let mut polls = Vec::new();
    loop {
        let action = plugin.run_step(event, &mut incoming.borrow_mut());
        if action != RunAction::Poll {
            return (action, polls);
        }
        let polled = plugin.poll_tasks().unwrap();
        polls.push(polled);
        event = RunEvent::Polled(polled);
    }
}

#[test]
fn decisions_of_a_run() {
    let ended = Rc::new(Cell::new(0));
    let mut plugin = plugin();
    let mut none = Incoming::new();
    assert_eq!(plugin.run_step(RunEvent::Begin, &mut none), RunAction::Poll);
    for (polled, action) in [
        (PoolPoll::NoTasks, RunAction::Done),
        (PoolPoll::Waiting, RunAction::Stalled),
        (PoolPoll::TaskDone, RunAction::Poll),
    ] {
        assert_eq!(plugin.run_step(RunEvent::Polled(polled), &mut none), action);
        spawn(&mut none, countdown(0, &ended));
        assert_eq!(plugin.run_step(RunEvent::Polled(polled), &mut none), RunAction::Poll);
    }
}

#[test]
fn empty_pool_is_polled_once() {
    let ended = Rc::new(Cell::new(0));
    let mut plugin = plugin();
    assert_eq!(plugin.poll_tasks(), Some(PoolPoll::NoTasks));
    let outcome = run(&mut plugin, &incoming(&[], &ended));
    assert_eq!(outcome, (RunAction::Done, vec![PoolPoll::NoTasks]));
}

#[test]
fn nothing_runs_without_a_waker() {
    let ended = Rc::new(Cell::new(0));
    let mut plugin: SeanVim<Waker> = SeanVim::new();
    let incoming = incoming(&[0, 0], &ended);
    assert_eq!(plugin.poll_tasks(), None);
    assert_eq!(run(&mut plugin, &incoming), (RunAction::NoWaker, vec![]));
    assert_eq!(ended.get(), 0);
    plugin.set_waker(noop_waker());
    assert_eq!(plugin.poll_tasks(), Some(PoolPoll::NoTasks));
    assert_eq!(run(&mut plugin, &incoming).0, RunAction::Done);
    assert_eq!(ended.get(), 2);
}

#[test]
fn drained_tasks_run_to_their_end() {
    let ended = Rc::new(Cell::new(0));
    let mut plugin = plugin();
    let incoming = incoming(&[0, 0], &ended);
    plugin.drain_incoming(&mut incoming.borrow_mut());
    assert_eq!(plugin.poll_tasks(), Some(PoolPoll::TaskDone));
    assert_eq!(plugin.poll_tasks(), Some(PoolPoll::TaskDone));
    assert_eq!(plugin.poll_tasks(), Some(PoolPoll::NoTasks));
    assert_eq!(ended.get(), 2);
    plugin.drain_incoming(&mut incoming.borrow_mut());
    assert_eq!(plugin.poll_tasks(), Some(PoolPoll::NoTasks));
}

#[test]
fn run_takes_up_tasks_that_tasks_spawn() {
    let ended = Rc::new(Cell::new(0));
    let incoming = Rc::new(incoming(&[], &ended));
    let inner = (incoming.clone(), ended.clone());
    let first: Task = LocalFutureObj::new(Box::new(async move {
        spawn(&mut inner.0.borrow_mut(), countdown(0, &inner.1));
    }));
    spawn(&mut incoming.borrow_mut(), first);
    let (action, polls) = run(&mut plugin(), &incoming);
    assert_eq!(action, RunAction::Done);
    assert_eq!(polls, [PoolPoll::TaskDone, PoolPoll::TaskDone, PoolPoll::NoTasks]);
    assert_eq!(ended.get(), 1);
}

#[test]
fn run_stalls_on_a_waiting_task() {
    let ended = Rc::new(Cell::new(0));
    let mut plugin = plugin();
    let incoming = incoming(&[0], &ended);
    let forever: Task = LocalFutureObj::new(Box::new(std::future::pending::<()>()));
    spawn(&mut incoming.borrow_mut(), forever);
    assert_eq!(run(&mut plugin, &incoming).0, RunAction::Stalled);
    assert_eq!(ended.get(), 1);
    assert_eq!(run(&mut plugin, &incoming), (RunAction::Stalled, vec![PoolPoll::Waiting]));
}

#[test]
fn woken_task_goes_on_in_the_next_run() {
    let ended = Rc::new(Cell::new(0));
    let mut plugin = plugin();
    let incoming = incoming(&[2], &ended);
    assert_eq!(run(&mut plugin, &incoming).0, RunAction::Stalled);
    assert_eq!(run(&mut plugin, &incoming).0, RunAction::Stalled);
    assert_eq!(run(&mut plugin, &incoming).0, RunAction::Done);
    assert_eq!(ended.get(), 1);
}

#[test]
fn task_is_polled_again_only_when_woken() {
    let mut plugin = plugin();
    let incoming = RefCell::new(Incoming::new());
    let sleepers: Vec<(Rc<Cell<u32>>, Rc<RefCell<Option<Waker>>>)> =
        (0..3).map(|_| (Rc::new(Cell::new(0)), Rc::new(RefCell::new(None)))).collect();
    for (polls, waker) in &sleepers {
        let sleeper = Sleeper { polls: polls.clone(), waker: waker.clone() };
        spawn(&mut incoming.borrow_mut(), LocalFutureObj::new(Box::new(sleeper)));
    }
    let counts = || sleepers.iter().map(|(polls, _)| polls.get()).collect::<Vec<u32>>();
    assert_eq!(run(&mut plugin, &incoming).0, RunAction::Stalled);
    assert_eq!(counts(), [1, 1, 1]);
    for _ in 0..3 {
        assert_eq!(run(&mut plugin, &incoming), (RunAction::Stalled, vec![PoolPoll::Waiting]));
        assert_eq!(counts(), [1, 1, 1]);
    }
    let waker = sleepers[1].1.borrow_mut().take().unwrap();
    waker.wake_by_ref();
    waker.wake();
    assert_eq!(run(&mut plugin, &incoming).0, RunAction::Stalled);
    assert_eq!(counts(), [1, 2, 1]);
    assert_eq!(run(&mut plugin, &incoming).0, RunAction::Stalled);
    assert_eq!(counts(), [1, 2, 1]);
}

/// Counts its wake-ups.
struct Bell {
    rung: AtomicU32,
}

impl Wake for Bell {
    fn wake(self: Arc<Self>) {
        self.rung.fetch_add(1, Ordering::SeqCst);
    }
}

#[test]
fn woken_task_calls_the_waker_of_the_plugin() {
    let bell = Arc::new(Bell { rung: AtomicU32::new(0) });
    let mut plugin: SeanVim<Waker> = SeanVim::new();
    plugin.set_waker(Waker::from(bell.clone()));
    let incoming = RefCell::new(Incoming::new());
    let sleepers: Vec<(Rc<Cell<u32>>, Rc<RefCell<Option<Waker>>>)> =
        (0..2).map(|_| (Rc::new(Cell::new(0)), Rc::new(RefCell::new(None)))).collect();
    for (polls, waker) in &sleepers {
        let sleeper = Sleeper { polls: polls.clone(), waker: waker.clone() };
        spawn(&mut incoming.borrow_mut(), LocalFutureObj::new(Box::new(sleeper)));
    }
    assert_eq!(run(&mut plugin, &incoming).0, RunAction::Stalled);
    assert_eq!(run(&mut plugin, &incoming).0, RunAction::Stalled);
    let before = bell.rung.load(Ordering::SeqCst);
    sleepers[0].1.borrow_mut().take().unwrap().wake();
    assert_eq!(bell.rung.load(Ordering::SeqCst), before + 1);
}

#[test]
fn polls_report_as_many_ends_as_tasks_end() {
    let ended = Rc::new(Cell::new(0));
    let mut plugin = plugin();
    let incoming = incoming(&[0, 2, 0], &ended);
    let mut reported: u32 = 0;
    loop {
        let (action, polls) = run(&mut plugin, &incoming);
        let ends = polls.iter().filter(|polled| **polled == PoolPoll::TaskDone).count();
        reported += ends as u32;
        assert_eq!(reported, ended.get());
        if action == RunAction::Done {
            break;
        }
    }
    assert_eq!(reported, 3);
}

#[test]
fn spawner_queues_the_task_and_names_the_waker() {
    let ended = Rc::new(Cell::new(0));
    let mut plugin: SeanVim<u32> = SeanVim::new();
    assert_eq!(plugin.spawner().waker, None);
    plugin.set_waker(8);
    let spawner = plugin.spawner();
    assert_eq!(spawner.clone().waker, Some(8));
    let mut incoming = Incoming::new();
    assert!(spawner.status_local(&incoming).is_ok());
    assert!(!is_gone(&spawner.status_local(&incoming)));
    let (result, woken) = spawner.spawn_local_obj(&mut incoming, countdown(0, &ended));
    assert!(result.is_ok());
    assert_eq!(woken, Some(&8));
    let (action, polls) = run(&mut self::plugin(), &RefCell::new(incoming));
    assert_eq!((action, polls.len()), (RunAction::Done, 2));
    assert_eq!(ended.get(), 1);
}

#[test]
fn spawner_without_a_waker_wakes_nobody() {
    let ended = Rc::new(Cell::new(0));
    let plugin: SeanVim<u32> = SeanVim::new();
    let mut incoming = Incoming::new();
    let spawner = plugin.spawner();
    let (result, woken) = spawner.spawn_local_obj(&mut incoming, countdown(0, &ended));
    assert!(result.is_ok());
    assert_eq!(woken, None);
}

#[test]
fn executor_that_is_gone_refuses_tasks() {
    let ended = Rc::new(Cell::new(0));
    let spawner = LocalSpawner { waker: Some(8u32) };
    let mut incoming = Incoming::new();
    assert!(spawner.spawn_local_obj(&mut incoming, countdown(0, &ended)).0.is_ok());
    incoming.close();
    for _ in 0..3 {
        assert!(is_gone(&spawner.status_local(&incoming)));
        let (result, woken) = spawner.spawn_local_obj(&mut incoming, countdown(0, &ended));
        assert!(result.is_err_and(|error| error.is_shutdown()));
        assert_eq!(woken, None);
    }
    let outcome = run(&mut plugin(), &RefCell::new(incoming));
    assert_eq!(outcome, (RunAction::Done, vec![PoolPoll::NoTasks]));
    assert_eq!(ended.get(), 0);
}

#[test]
fn setup_takes_the_url() {
    let mut plugin: SeanVim<u32> = SeanVim::new();
    assert!(plugin.url().is_none());
    let mut config = Dictionary::new();
    config.insert("host", "elsewhere");
    config.insert("url", "192.168.0.10:11434");
    config.insert("url", "second");
    plugin.setup(config);
    assert!(plugin.url() == Some(&Object::from("192.168.0.10:11434")));
    plugin.setup(Dictionary::new());
    assert!(plugin.url().is_none());
}

#[test]
fn wake_signals_the_handle_it_was_given() {
    let mut waker: LuvWaker<u32> = LuvWaker::new();
    assert_eq!(waker.wake(), None);
    waker.init(3);
    if let Some(handle) = waker.wake() {
        *handle += 1;
    }
    assert_eq!(waker.wake(), Some(&mut 4));
    waker.init(9);
    assert_eq!(waker.wake(), Some(&mut 9));
}
