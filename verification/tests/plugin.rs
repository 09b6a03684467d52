use futures::executor::block_on;
use http_types::Method;
use seanvim::commands::{
    greeting, next_step, seanvim, spawned_message, Command, CommandAction, CommandNArgs, Export,
    LoadStep, Plugin,
};
use seanvim::ollama::{
    advance, call_address, context_lines, context_query, generate_body, generate_query, generate_request,
    ollama_address, query_body, AnswerTarget, CallAction, CallEvent, CallState, GenerateQuery,
    OllamaGenerateResponse,
};
use seanvim::window::{Opener, WindowAnchor, WindowLayout, WindowSlot};

/// What is to be done, in one line each.
fn lines(actions: Vec<CallAction>) -> Vec<String> {
    actions
        .into_iter()
        .map(|action| match action {
            CallAction::Notify(text) => format!("notify {}", text),
            CallAction::Print(text) => format!("print {}", text),
            CallAction::Send => "send".to_string(),
            CallAction::ReadBody => "read".to_string(),
            CallAction::SetRegister { register, text } => format!("set {} {}", register, text),
            CallAction::Insert { text } => format!("insert {}", text),
        })
        .collect()
}

fn decoded(text: &str) -> CallEvent {
    CallEvent::Decoded {
        shown: format!("Ok({})", text),
        response: OllamaGenerateResponse { response: text.to_string() },
    }
}

#[test]
fn greetings_with_and_without_argument() {
    assert_eq!(greeting(None, false), "Hello from  Rust");
    assert_eq!(greeting(Some("Sean".to_string()), true), "Hello Sean!");
    assert_eq!(
        spawned_message(None, true),
        "Hello from command spawned futurefrom Rust Async!"
    );
    assert_eq!(
        spawned_message(Some(" you".to_string()), false),
        "Hello from command spawned future you"
    );
}

fn commands(plugin: &Plugin) -> Vec<Command> {
    plugin
        .steps
        .iter()
        .filter_map(|step| match step {
            LoadStep::Register(command) => Some(*command),
            _ => None,
        })
        .collect()
}

#[test]
fn plugin_registers_its_commands() {
    let plugin = seanvim();
    let commands = commands(&plugin);
    let names: Vec<&str> = commands.iter().map(|command| command.name).collect();
    assert_eq!(names, ["SeanVim", "SeanSpawn", "SeanOpen", "SeanClose", "SeanOllama"]);
    assert!(commands.iter().all(|c| c.bang && c.nargs == CommandNArgs::ZeroOrOne));
    assert_eq!(commands[3].action, CommandAction::Close);
    assert_eq!(commands[4].desc, "dumps an ollama call into the o register");
    assert_eq!(
        plugin.exports,
        [
            ("setup", Export::Setup),
            ("open_window", Export::OpenWindow),
            ("close_window", Export::CloseWindow),
            ("ollama_generate", Export::OllamaGenerate)
        ]
    );
    assert_eq!(plugin.buffer_name, "SeanVimBuff");
    assert_eq!(plugin.hello, "Hello");
}

#[test]
fn plugin_is_loaded_in_order() {
    let steps: Vec<String> = seanvim()
        .steps
        .iter()
        .map(|step| match step {
            LoadStep::Register(command) => command.name.to_string(),
            other => format!("{:?}", other),
        })
        .collect();
    assert_eq!(
        steps,
        [
            "SeanVim",
            "StartWaker",
            "CreateBuffer",
            "SeanSpawn",
            "SeanOpen",
            "SeanClose",
            "FillModule",
            "SayHello",
            "SeanOllama"
        ]
    );
}

/// Loads the plugin into an editor that refuses the commands in `refused`. Gives the
/// commands that were taken, and the result.
fn load(refused: &[&'static str]) -> (Vec<&'static str>, Result<(), String>) {
    let plugin = seanvim();
    let mut taken = Vec::new();
    let mut done = 0;
    let mut last: Result<(), String> = Ok(());
    loop {
        match next_step(&plugin, done, last) {
            Err(error) => return (taken, Err(error)),
            Ok(None) => return (taken, Ok(())),
            Ok(Some(LoadStep::Register(command))) if refused.contains(&command.name) => {
                last = Err(format!("no {}", command.name));
            }
            Ok(Some(step)) => {
                if let LoadStep::Register(command) = step {
                    taken.push(command.name);
                }
                last = Ok(());
            }
        }
        done += 1;
    }
}

#[test]
fn loading_stops_at_the_first_refusal() {
    let all = vec!["SeanVim", "SeanSpawn", "SeanOpen", "SeanClose", "SeanOllama"];
    assert_eq!(load(&[]), (all.clone(), Ok(())));
    for k in 0..all.len() {
        let refusal = Err(format!("no {}", all[k]));
        assert_eq!(load(&all[k..]), (all[..k].to_vec(), refusal.clone()));
        assert_eq!(load(&all[k..k + 1]), (all[..k].to_vec(), refusal));
    }
}

#[test]
fn nothing_follows_the_last_step() {
    let plugin = seanvim();
    for done in [plugin.steps.len(), plugin.steps.len() + 1, usize::MAX] {
        assert!(matches!(next_step::<u8>(&plugin, done, Ok(())), Ok(None)));
        assert!(matches!(next_step::<u8>(&plugin, done, Err(7)), Err(7)));
    }
}

#[test]
fn one_window_at_a_time() {
    let mut slot: WindowSlot<u32> = WindowSlot::new();
    assert_eq!(slot.close_window(), Err("Window is already closed"));
    let wide = WindowLayout {
        relative: WindowAnchor::Cursor,
        height: 5,
        width: 50,
        row: 1,
        col: 0,
    };
    assert_eq!(slot.open_window(Opener::Function), Ok(wide));
    assert_eq!(slot.open_window(Opener::Command), Ok(WindowLayout { width: 10, ..wide }));
    slot.opened(12);
    assert_eq!(slot.open_window(Opener::Function), Err("Window is already open"));
    assert_eq!(slot.close_window(), Ok(12));
    assert_eq!(slot.close_window(), Err("Window is already closed"));
    assert_eq!(slot.open_window(Opener::Function), Ok(wide));
}

#[test]
fn query_asks_for_an_introduction() {
    assert_eq!(ollama_address(), "192.168.254.37:11434");
    let query = generate_query();
    assert_eq!(query.model, "gemma3:12b");
    assert_eq!(query.prompt, "can you introduce yourself?");
    assert!(!query.stream);
}

#[test]
fn calls_go_to_the_address_of_the_options() {
    assert_eq!(call_address(None), "192.168.254.37:11434");
    assert_eq!(call_address(Some("192.168.0.10:11434".to_string())), "192.168.0.10:11434");
}

#[test]
fn request_carries_headers_and_body() {
    let mut request = generate_request(&generate_query());
    assert_eq!(request.method(), Method::Post);
    assert_eq!(request.url().as_str(), "http://seanvim.requestcatcher.com/api/generate");
    let mut headers: Vec<(String, String)> = request
        .iter()
        .map(|(name, values)| (name.as_str().to_string(), values.as_str().to_string()))
        .collect();
    headers.sort();
    let expected: Vec<(String, String)> = [
        ("accept", "application/json"),
        ("connection", "close"),
        ("content-type", "application/json"),
        ("user-agent", "nvim-libuv"),
    ]
    .iter()
    .map(|(name, value)| (name.to_string(), value.to_string()))
    .collect();
    assert_eq!(headers, expected);
    assert_eq!(block_on(request.body_string()).unwrap(), generate_body());
}

#[test]
fn body_is_json() {
    assert_eq!(
        generate_body(),
        "{\"model\":\"gemma3:12b\",\"prompt\":\"can you introduce yourself?\",\"stream\":false}"
    );
    let query = GenerateQuery {
        model: "m\"",
        prompt: "a\\b\t\n\r\u{8}\u{c}\u{1}\u{1f}\u{7f}/\u{e9}\u{1f600}".to_string(),
        stream: true,
    };
    assert_eq!(
        query_body(&query),
        "{\"model\":\"m\\\"\",\"prompt\":\"a\\\\b\\t\\n\\r\\b\\f\\u0001\\u001f\u{7f}/\u{e9}\u{1f600}\",\"stream\":true}"
    );
}

#[test]
fn body_reads_back_as_the_query() {
    let query = GenerateQuery {
        model: "gemma3:12b",
        prompt: (0u32..256).filter_map(char::from_u32).collect(),
        stream: false,
    };
    let value: serde_json::Value = serde_json::from_str(&query_body(&query)).unwrap();
    assert_eq!(value["model"], "gemma3:12b");
    assert_eq!(value["prompt"], query.prompt.as_str());
    assert_eq!(value["stream"], false);
}

fn numbered(count: usize) -> Vec<String> {
    (0..count).map(|i| format!("line {}", i)).collect()
}

#[test]
fn context_is_up_to_fifteen_lines_above() {
    let lines = numbered(40);
    assert!(context_lines(&lines, 0).is_empty());
    assert_eq!(context_lines(&lines, 2), ["line 0", "line 1"]);
    assert_eq!(context_lines(&lines, 15), numbered(15));
    assert_eq!(context_lines(&lines, 16), numbered(16)[1..]);
    assert_eq!(context_lines(&lines, 40), lines[25..]);
    assert!(context_lines(&Vec::new(), 0).is_empty());
}

#[test]
fn context_follows_the_system_prompt() {
    let lines = numbered(20);
    let system = context_query(&lines, 0).prompt;
    assert!(!system.is_empty());
    let query = context_query(&lines, 3);
    assert_eq!(query.model, "gemma3:12b");
    assert_eq!(query.prompt, format!("{}\nline 0\nline 1\nline 2", system));
    assert!(!query.stream);
    let mut request = generate_request(&query);
    assert_eq!(block_on(request.body_string()).unwrap(), query_body(&query));
}

#[test]
fn call_inserts_the_answer_into_the_buffer() {
    let target = AnswerTarget::Buffer;
    let (state, actions) = advance(target, CallState::Connecting, CallEvent::Connected(0));
    assert_eq!(lines(actions), ["notify Connected! 0", "send"]);
    let (state, _) = advance(target, state, CallEvent::Answered("200".to_string()));
    let (state, actions) = advance(target, state, decoded("x = 1\n"));
    assert_eq!(state, CallState::Finished);
    assert_eq!(
        lines(actions),
        ["print Response: Ok(x = 1\n)", "print Response Body: x = 1\n", "insert x = 1\n"]
    );
    let (_, actions) =
        advance(target, CallState::Reading, CallEvent::NotDecoded("Err(eof)".to_string()));
    assert_eq!(lines(actions), ["print Response: Err(eof)"]);
}

#[test]
fn call_puts_the_answer_into_the_register() {
    let (state, actions) = advance(AnswerTarget::Register, CallState::Connecting, CallEvent::Connected(4294967295));
    assert_eq!(state, CallState::Requesting);
    assert_eq!(lines(actions), ["notify Connected! 4294967295", "send"]);
    let (state, actions) = advance(AnswerTarget::Register, state, CallEvent::Answered("200".to_string()));
    assert_eq!(state, CallState::Reading);
    assert_eq!(lines(actions), ["print Response: 200", "read"]);
    let (state, actions) = advance(AnswerTarget::Register, state, decoded("hi"));
    assert_eq!(state, CallState::Finished);
    assert_eq!(
        lines(actions),
        ["print Response: Ok(hi)", "print Response Body: hi", "set o hi"]
    );
}

#[test]
fn call_ends_at_the_first_failure() {
    let (state, actions) =
        advance(AnswerTarget::Register, CallState::Connecting, CallEvent::ConnectFailed("EOF".to_string()));
    assert_eq!(state, CallState::Finished);
    assert_eq!(lines(actions), ["notify Connected? EOF"]);
    let (state, actions) =
        advance(AnswerTarget::Register, CallState::Requesting, CallEvent::RequestFailed("reset".to_string()));
    assert_eq!(state, CallState::Finished);
    assert_eq!(lines(actions), ["print Response: ERROR: reset"]);
    let (state, actions) =
        advance(AnswerTarget::Register, CallState::Reading, CallEvent::NotDecoded("Err(eof)".to_string()));
    assert_eq!(state, CallState::Finished);
    assert_eq!(lines(actions), ["print Response: Err(eof)"]);
}

#[test]
fn events_out_of_place_change_nothing() {
    let (state, actions) = advance(AnswerTarget::Register, CallState::Finished, decoded("hi"));
    assert_eq!(state, CallState::Finished);
    assert!(actions.is_empty());
    let (state, actions) = advance(AnswerTarget::Register, CallState::Connecting, decoded("hi"));
    assert_eq!(state, CallState::Connecting);
    assert!(actions.is_empty());
}

#[test]
fn status_is_written_in_decimal() {
    for status in [0u32, 7, 10, 99, 100, 65536] {
        let (_, actions) = advance(AnswerTarget::Register, CallState::Connecting, CallEvent::Connected(status));
        assert_eq!(lines(actions)[0], format!("notify Connected! {}", status));
    }
}
