//! The commands and functions that the plugin offers to the editor.
use vstd::prelude::*;
use vstd::string::StringExecFns;

verus! {

/// What a command does.
#[derive(Clone, Copy, Debug, PartialEq, Eq)]
pub enum CommandAction {
    Greet,
    Spawn,
    Open,
    Close,
    Ollama,
}

/// How many arguments a command takes.
#[derive(Clone, Copy, Debug, PartialEq, Eq)]
pub enum CommandNArgs {
    ZeroOrOne,
}

/// A command of the editor.
#[derive(Clone, Copy, Debug)]
pub struct Command {
    pub name: &'static str,
    pub action: CommandAction,
    pub bang: bool,
    pub desc: &'static str,
    pub nargs: CommandNArgs,
}

/// A function that the plugin's Lua module exports.
#[derive(Clone, Copy, Debug, PartialEq, Eq)]
pub enum Export {
    Setup,
    OpenWindow,
    CloseWindow,
    OllamaGenerate,
}

/// A step of loading the plugin.
#[derive(Clone, Copy, Debug)]
pub enum LoadStep {
    /// Register a command.
    Register(Command),
    /// Make the handle by which the loop is woken, and with it the waker.
    StartWaker,
    /// Make the buffer that the window shows.
    CreateBuffer,
    /// Put the functions into the Lua module.
    FillModule,
    /// Spawn the first task.
    SayHello,
}

/// All that the plugin does when it is loaded.
pub struct Plugin {
    /// The steps, in order.
    pub steps: Vec<LoadStep>,
    /// The functions of the Lua module under their names.
    pub exports: Vec<(&'static str, Export)>,
    /// The name of the buffer that the window shows.
    pub buffer_name: &'static str,
    /// What the first task says.
    pub hello: &'static str,
}

/// A command with an optional bang and at most one argument.
pub open spec fn command(
    name: &'static str,
    action: CommandAction,
    desc: &'static str,
) -> Command {
    Command { name, action, bang: true, desc, nargs: CommandNArgs::ZeroOrOne }
}

/// The commands of the plugin.
pub open spec fn command_table() -> Seq<Command> {
    seq![
        command("SeanVim", CommandAction::Greet, "shows a greetings message"),
        command("SeanSpawn", CommandAction::Spawn, "shows a greetings message"),
        command("SeanOpen", CommandAction::Open, "opens a window"),
        command("SeanClose", CommandAction::Close, "closes a window"),
        command("SeanOllama", CommandAction::Ollama, "dumps an ollama call into the o register"),
    ]
}

/// The functions of the plugin's Lua module.
pub open spec fn export_table() -> Seq<(&'static str, Export)> {
    seq![
        ("setup", Export::Setup),
        ("open_window", Export::OpenWindow),
        ("close_window", Export::CloseWindow),
        ("ollama_generate", Export::OllamaGenerate),
    ]
}

/// The steps in which the plugin is loaded.
pub open spec fn load_steps() -> Seq<LoadStep> {
    seq![
        LoadStep::Register(command_table()[0]),
        LoadStep::StartWaker,
        LoadStep::CreateBuffer,
        LoadStep::Register(command_table()[1]),
        LoadStep::Register(command_table()[2]),
        LoadStep::Register(command_table()[3]),
        LoadStep::FillModule,
        LoadStep::SayHello,
        LoadStep::Register(command_table()[4]),
    ]
}

/// The commands that steps register, in their order.
pub open spec fn registered(steps: Seq<LoadStep>) -> Seq<Command>
    decreases steps.len(),
{
    if steps.len() == 0 {
        Seq::empty()
    } else {
        match steps.last() {
            LoadStep::Register(command) => registered(steps.drop_last()).push(command),
            _ => registered(steps.drop_last()),
        }
    }
}

/// What follows on a step, the first if `done` is zero: the next step, nothing after the
/// last, or the error that the editor answered with.
pub open spec fn step_after<E>(
    steps: Seq<LoadStep>,
    done: int,
    last: Result<(), E>,
) -> Result<Option<LoadStep>, E> {
    match last {
        Err(error) => Err(error),
        Ok(_) => Ok(
            if done < steps.len() {
                Some(steps[done])
            } else {
                None
            },
        ),
    }
}

/// A loading of the plugin so far: the steps that were tried, and how each went.
pub struct Loading<E> {
    pub tried: Seq<LoadStep>,
    pub results: Seq<Result<(), E>>,
}

impl<E> Loading<E> {
    /// How the step before step `i` went; the first has none before it.
    pub open spec fn before(self, i: int) -> Result<(), E> {
        if i <= 0 {
            Ok(())
        } else {
            self.results[i - 1]
        }
    }

    /// Each step was tried because it was the next.
    pub open spec fn wf(self, steps: Seq<LoadStep>) -> bool {
        &&& self.tried.len() == self.results.len()
        &&& forall|i: int|
            0 <= i < self.tried.len() ==> step_after(steps, i, self.before(i)) == Ok::<_, E>(
                Some(#[trigger] self.tried[i]),
            )
    }

    /// What comes next.
    pub open spec fn next(self, steps: Seq<LoadStep>) -> Result<Option<LoadStep>, E> {
        step_after(steps, self.results.len() as int, self.before(self.results.len() as int))
    }

    /// The loading with one more step.
    pub open spec fn with_step(self, step: LoadStep, result: Result<(), E>) -> Loading<E> {
        Loading { tried: self.tried.push(step), results: self.results.push(result) }
    }
}

fn make_command(name: &'static str, action: CommandAction, desc: &'static str) -> (made: Command)
    ensures
        made == command(name, action, desc),
{
    Command { name, action, bang: true, desc, nargs: CommandNArgs::ZeroOrOne }
}

/// What the plugin does when it is loaded.
pub fn seanvim() -> (plugin: Plugin)
    ensures
        plugin.steps@ == load_steps(),
        plugin.steps@ == seq![
            LoadStep::Register(
                Command {
                    name: "SeanVim",
                    action: CommandAction::Greet,
                    bang: true,
                    desc: "shows a greetings message",
                    nargs: CommandNArgs::ZeroOrOne,
                },
            ),
            LoadStep::StartWaker,
            LoadStep::CreateBuffer,
            LoadStep::Register(
                Command {
                    name: "SeanSpawn",
                    action: CommandAction::Spawn,
                    bang: true,
                    desc: "shows a greetings message",
                    nargs: CommandNArgs::ZeroOrOne,
                },
            ),
            LoadStep::Register(
                Command {
                    name: "SeanOpen",
                    action: CommandAction::Open,
                    bang: true,
                    desc: "opens a window",
                    nargs: CommandNArgs::ZeroOrOne,
                },
            ),
            LoadStep::Register(
                Command {
                    name: "SeanClose",
                    action: CommandAction::Close,
                    bang: true,
                    desc: "closes a window",
                    nargs: CommandNArgs::ZeroOrOne,
                },
            ),
            LoadStep::FillModule,
            LoadStep::SayHello,
            LoadStep::Register(
                Command {
                    name: "SeanOllama",
                    action: CommandAction::Ollama,
                    bang: true,
                    desc: "dumps an ollama call into the o register",
                    nargs: CommandNArgs::ZeroOrOne,
                },
            ),
        ],
        registered(plugin.steps@) == command_table(),
        plugin.exports@ == export_table(),
        plugin.exports@ == seq![
            ("setup", Export::Setup),
            ("open_window", Export::OpenWindow),
            ("close_window", Export::CloseWindow),
            ("ollama_generate", Export::OllamaGenerate),
        ],
        plugin.buffer_name@ == "SeanVimBuff"@,
        plugin.hello@ == "Hello"@,
{
    let greet = make_command("SeanVim", CommandAction::Greet, "shows a greetings message");
    let spawn = make_command("SeanSpawn", CommandAction::Spawn, "shows a greetings message");
    let open = make_command("SeanOpen", CommandAction::Open, "opens a window");
    let close = make_command("SeanClose", CommandAction::Close, "closes a window");
    let ollama = make_command(
        "SeanOllama",
        CommandAction::Ollama,
        "dumps an ollama call into the o register",
    );
    let mut steps: Vec<LoadStep> = Vec::new();
    steps.push(LoadStep::Register(greet));
    steps.push(LoadStep::StartWaker);
    steps.push(LoadStep::CreateBuffer);
    steps.push(LoadStep::Register(spawn));
    steps.push(LoadStep::Register(open));
    steps.push(LoadStep::Register(close));
    steps.push(LoadStep::FillModule);
    steps.push(LoadStep::SayHello);
    steps.push(LoadStep::Register(ollama));
    proof {
        assert(steps@ =~= load_steps());
        lemma_registered();
    }
    let mut exports: Vec<(&'static str, Export)> = Vec::new();
    exports.push(("setup", Export::Setup));
    exports.push(("open_window", Export::OpenWindow));
    exports.push(("close_window", Export::CloseWindow));
    exports.push(("ollama_generate", Export::OllamaGenerate));
    Plugin { steps, exports, buffer_name: "SeanVimBuff", hello: "Hello" }
}

/// The step to take after `done` steps, of which the last went as `last` says: loading
/// stops at the first error of the editor, with that error, and ends well after the last
/// step.
pub fn next_step<E>(plugin: &Plugin, done: usize, last: Result<(), E>) -> (next: Result<
    Option<LoadStep>,
    E,
>)
    ensures
        next == step_after(plugin.steps@, done as int, last),
{
    match last {
        Err(error) => Err(error),
        Ok(_) => {
            if done < plugin.steps.len() {
                Ok(Some(plugin.steps[done]))
            } else {
                Ok(None)
            }
        },
    }
}

/// The argument of a command, or what stands for it.
pub open spec fn or_else(args: Option<String>, default: Seq<char>) -> Seq<char> {
    match args {
        Some(text) => text@,
        None => default,
    }
}

/// An exclamation mark after a command with a bang.
pub open spec fn bang_mark(bang: bool) -> Seq<char> {
    if bang {
        "!"@
    } else {
        Seq::empty()
    }
}

fn message(start: &str, args: Option<String>, default: &str, bang: bool) -> (text: String)
    ensures
        text@ == start@ + or_else(args, default@) + bang_mark(bang),
{
    let mut text = String::from_str(start);
    match args {
        Some(given) => {
            text.append(given.as_str());
        },
        None => {
            text.append(default);
        },
    }
    if bang {
        text.append("!");
    }
    text
}

/// The greeting of the command `SeanVim`.
pub fn greeting(args: Option<String>, bang: bool) -> (text: String)
    ensures
        text@ == "Hello "@ + or_else(args, "from  Rust"@) + bang_mark(bang),
        args is Some && !bang ==> text@ == "Hello "@ + args->0@,
        args is Some && bang ==> text@ == "Hello "@ + args->0@ + "!"@,
        args is None && !bang ==> text@ == "Hello "@ + "from  Rust"@,
        args is None && bang ==> text@ == "Hello "@ + "from  Rust"@ + "!"@,
{
    message("Hello ", args, "from  Rust", bang)
}

/// The message of the task that the command `SeanSpawn` spawns.
pub fn spawned_message(args: Option<String>, bang: bool) -> (text: String)
    ensures
        text@ == "Hello from command spawned future"@ + or_else(args, "from Rust Async"@)
            + bang_mark(bang),
        args is Some && !bang ==> text@ == "Hello from command spawned future"@ + args->0@,
        args is Some && bang ==> text@ == "Hello from command spawned future"@ + args->0@ + "!"@,
        args is None && !bang ==> text@ == "Hello from command spawned future"@
            + "from Rust Async"@,
        args is None && bang ==> text@ == "Hello from command spawned future"@
            + "from Rust Async"@ + "!"@,
{
    message("Hello from command spawned future", args, "from Rust Async", bang)
}

proof fn lemma_registered()
    ensures
        registered(load_steps()) == command_table(),
{
    let steps = load_steps();
    reveal_with_fuel(registered, 10);
    assert(steps.drop_last() =~= steps.take(8));
    assert(steps.take(8).drop_last() =~= steps.take(7));
    assert(steps.take(7).drop_last() =~= steps.take(6));
    assert(steps.take(6).drop_last() =~= steps.take(5));
    assert(steps.take(5).drop_last() =~= steps.take(4));
    assert(steps.take(4).drop_last() =~= steps.take(3));
    assert(steps.take(3).drop_last() =~= steps.take(2));
    assert(steps.take(2).drop_last() =~= steps.take(1));
    assert(registered(steps) =~= command_table());
}

/// Loading tries the steps in their order, and so registers the commands in theirs: what
/// was tried is a beginning of the steps.
pub proof fn law_loading_keeps_order<E>(steps: Seq<LoadStep>, loading: Loading<E>)
    requires
        loading.wf(steps),
    ensures
        loading.tried.len() <= steps.len(),
        loading.tried == steps.take(loading.tried.len() as int),
        registered(loading.tried).is_prefix_of(registered(steps)),
{
    let n = loading.tried.len() as int;
    assert forall|i: int| 0 <= i < n implies i < steps.len() && loading.tried[i] == steps[i] by {
        assert(step_after(steps, i, loading.before(i)) == Ok::<_, E>(Some(loading.tried[i])));
    }
    if n > 0 {
        assert(loading.tried[n - 1] == steps[n - 1]);
    }
    assert(loading.tried =~= steps.take(n));
    lemma_beginning_registers_first(steps, n);
}

proof fn lemma_beginning_registers_first(steps: Seq<LoadStep>, n: int)
    requires
        0 <= n <= steps.len(),
    ensures
        registered(steps.take(n)).is_prefix_of(registered(steps)),
    decreases steps.len() - n,
{
    if n == steps.len() {
        assert(steps.take(n) =~= steps);
    } else {
        lemma_beginning_registers_first(steps, n + 1);
        assert(steps.take(n + 1).drop_last() =~= steps.take(n));
        assert(registered(steps.take(n)).is_prefix_of(registered(steps.take(n + 1))));
    }
}

/// Loading stops at the first step that the editor refuses: its error is the result, all
/// steps before it went well, and no step after it is tried.
pub proof fn law_loading_stops_at_first_refusal<E>(
    steps: Seq<LoadStep>,
    loading: Loading<E>,
    i: int,
)
    requires
        loading.wf(steps),
        0 <= i < loading.results.len(),
        loading.results[i] is Err,
    ensures
        i == loading.results.len() - 1,
        loading.next(steps) == Err::<Option<LoadStep>, E>(loading.results[i]->Err_0),
        forall|j: int| 0 <= j < i ==> (#[trigger] loading.results[j]) is Ok,
{
    assert forall|j: int| 0 <= j < loading.results.len() - 1 implies (
    #[trigger] loading.results[j]) is Ok by {
        assert(step_after(steps, j + 1, loading.before(j + 1)) == Ok::<_, E>(
            Some(loading.tried[j + 1]),
        ));
    }
}

/// Loading ends well exactly when all steps were tried and the editor took each.
pub proof fn law_loaded_when_all_taken<E>(steps: Seq<LoadStep>, loading: Loading<E>)
    requires
        loading.wf(steps),
    ensures
        loading.next(steps) == Ok::<Option<LoadStep>, E>(None) <==> {
            &&& loading.tried == steps
            &&& forall|j: int|
                0 <= j < loading.results.len() ==> (#[trigger] loading.results[j]) is Ok
        },
{
    let n = loading.results.len() as int;
    law_loading_keeps_order(steps, loading);
    if loading.next(steps) == Ok::<Option<LoadStep>, E>(None) {
        assert(loading.tried =~= steps);
        assert forall|j: int| 0 <= j < n implies (#[trigger] loading.results[j]) is Ok by {
            if loading.results[j] is Err {
                law_loading_stops_at_first_refusal(steps, loading, j);
            }
        }
    }
}

/// Loading grows by the step that `next_step` names, however it goes.
pub proof fn law_next_step_extends_loading<E>(
    steps: Seq<LoadStep>,
    loading: Loading<E>,
    result: Result<(), E>,
)
    requires
        loading.wf(steps),
        loading.next(steps) matches Ok(Some(_)),
    ensures
        loading.with_step(loading.next(steps)->Ok_0->0, result).wf(steps),
{
    let longer = loading.with_step(loading.next(steps)->Ok_0->0, result);
    assert forall|i: int| 0 <= i < longer.tried.len() implies step_after(
        steps,
        i,
        longer.before(i),
    ) == Ok::<_, E>(Some(#[trigger] longer.tried[i])) by {
        assert(longer.before(i) == loading.before(i));
        if i < loading.tried.len() {
            assert(longer.tried[i] == loading.tried[i]);
        }
    }
}

/// A message holds the whole argument of its command, and what stands for it where there
/// is none; a bang adds one exclamation mark at the end and nothing else.
pub proof fn law_message_holds_argument(start: Seq<char>, args: Option<String>, default: Seq<char>)
    ensures
        ({
            let plain = start + or_else(args, default) + bang_mark(false);
            &&& plain.take(start.len() as int) == start
            &&& args is Some ==> plain.skip(start.len() as int) == args->0@
            &&& args is None ==> plain.skip(start.len() as int) == default
            &&& start + or_else(args, default) + bang_mark(true) == plain + "!"@
        }),
{
    let middle = or_else(args, default);
    let plain = start + middle + bang_mark(false);
    assert(plain.take(start.len() as int) =~= start);
    assert(plain.skip(start.len() as int) =~= middle);
    assert(start + middle + bang_mark(true) =~= plain + "!"@);
}

/// Every command takes a bang and at most one argument, and does what it is made for.
pub proof fn law_commands_are_uniform(
    name: &'static str,
    action: CommandAction,
    desc: &'static str,
)
    ensures
        command(name, action, desc).bang,
        command(name, action, desc).nargs is ZeroOrOne,
        command(name, action, desc).name == name,
        command(name, action, desc).action == action,
        command(name, action, desc).desc == desc,
{
}

/// The step that follows on a step that went well is the next of the list, and there is
/// none after the last; an error is handed on.
pub proof fn law_steps_follow_on_each_other<E>(steps: Seq<LoadStep>, done: int, error: E)
    requires
        0 <= done,
    ensures
        step_after(steps, done, Err(error)) == Err::<Option<LoadStep>, E>(error),
        done < steps.len() ==> step_after::<E>(steps, done, Ok(())) == Ok::<
            Option<LoadStep>,
            E,
        >(Some(steps[done])),
        done >= steps.len() ==> step_after::<E>(steps, done, Ok(())) == Ok::<
            Option<LoadStep>,
            E,
        >(None),
{
}

} // verus!
