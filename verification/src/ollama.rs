//! The calls to Ollama: what is asked, and what is done with the answer.
use crate::http::{insert_header, post, set_body};
use crate::json::json_string;
use http_types::Request;
use vstd::prelude::*;
use vstd::string::StringExecFns;

verus! {

/// What Ollama is asked to generate from.
#[derive(Debug)]
pub struct GenerateQuery {
    pub model: &'static str,
    pub prompt: String,
    pub stream: bool,
}

/// The answer of Ollama.
#[derive(Debug)]
pub struct OllamaGenerateResponse {
    pub response: String,
}

/// The address that Ollama listens at if the options name none.
pub fn ollama_address() -> (address: &'static str)
    ensures
        address@ == "192.168.254.37:11434"@,
{
    "192.168.254.37:11434"
}

/// The address of a call: the one that the option `url` gives, or that of Ollama.
pub open spec fn address_or_default(url: Option<String>) -> Seq<char> {
    match url {
        Some(url) => url@,
        None => "192.168.254.37:11434"@,
    }
}

/// The address that a call goes to, if `url` is the text of the option `url`.
pub fn call_address(url: Option<String>) -> (address: String)
    ensures
        address@ == address_or_default(url),
        url is Some ==> address@ == url->0@,
        url is None ==> address@ == "192.168.254.37:11434"@,
{
    match url {
        Some(url) => url,
        None => String::from_str(ollama_address()),
    }
}

/// The model that answers.
pub open spec fn model() -> Seq<char> {
    "gemma3:12b"@
}

/// The question of the command `SeanOllama`: an introduction, in one piece.
pub fn generate_query() -> (query: GenerateQuery)
    ensures
        query.model@ == model(),
        query.prompt@ == "can you introduce yourself?"@,
        !query.stream,
{
    GenerateQuery {
        model: "gemma3:12b",
        prompt: String::from_str("can you introduce yourself?"),
        stream: false,
    }
}

/// Lines with their texts as sequences.
pub open spec fn texts(lines: Seq<String>) -> Seq<Seq<char>> {
    Seq::new(lines.len(), |i: int| lines[i]@)
}

/// The lines above line `row`, or the last fifteen of them if there are more.
pub open spec fn lines_above(lines: Seq<Seq<char>>, row: nat) -> Seq<Seq<char>> {
    lines.subrange(
        if row > 15 {
            row - 15
        } else {
            0
        },
        row as int,
    )
}

/// Lines, each on a line of its own.
pub open spec fn on_lines(lines: Seq<Seq<char>>) -> Seq<char>
    decreases lines.len(),
{
    if lines.len() == 0 {
        Seq::empty()
    } else {
        on_lines(lines.drop_last()) + "\n"@ + lines.last()
    }
}

/// What Ollama is told to do with the lines that follow.
pub open spec fn system_prompt() -> Seq<char> {
    "You write at the cursor of a text editor. Continue the lines below. Answer with the text to insert and nothing else."@
}

/// The lines of a buffer that are sent along: up to fifteen above the cursor in line
/// `row`, counted from zero.
pub fn context_lines(lines: &Vec<String>, row: usize) -> (above: Vec<String>)
    requires
        row <= lines@.len(),
    ensures
        texts(above@) == lines_above(texts(lines@), row as nat),
        above@.len() == if row > 15 {
            15
        } else {
            row as int
        },
        forall|i: int|
            0 <= i < above@.len() ==> (#[trigger] above@[i])@ == lines@[row - above@.len() + i]@,
{
    let first: usize = if row > 15 {
        row - 15
    } else {
        0
    };
    let mut above: Vec<String> = Vec::new();
    let mut i: usize = first;
    while i < row
        invariant
            first <= i <= row <= lines@.len(),
            above@ == lines@.subrange(first as int, i as int),
        decreases row - i,
    {
        above.push(lines[i].clone());
        i = i + 1;
        assert(above@ =~= lines@.subrange(first as int, i as int));
    }
    assert(texts(above@) =~= lines_above(texts(lines@), row as nat));
    above
}

/// The question of the function `ollama_generate`: what to write at the cursor in line
/// `row` of a buffer, after the system prompt and the lines above.
pub fn context_query(lines: &Vec<String>, row: usize) -> (query: GenerateQuery)
    requires
        row <= lines@.len(),
    ensures
        query.model@ == model(),
        query.prompt@ == system_prompt() + on_lines(lines_above(texts(lines@), row as nat)),
        row == 0 ==> query.prompt@ == system_prompt(),
        row > 0 ==> ({
            let line = lines@[row - 1]@;
            let before = query.prompt@.len() - line.len() - 1;
            &&& before >= system_prompt().len()
            &&& query.prompt@.take(system_prompt().len() as int) == system_prompt()
            &&& query.prompt@[before] == '\n'
            &&& query.prompt@.skip(before + 1) == line
        }),
        !query.stream,
{
    let above = context_lines(lines, row);
    let ghost shown = texts(above@);
    let mut prompt = String::from_str(
        "You write at the cursor of a text editor. Continue the lines below. Answer with the text to insert and nothing else.",
    );
    let mut i: usize = 0;
    assert(prompt@ =~= system_prompt() + on_lines(shown.take(0)));
    while i < above.len()
        invariant
            i <= above@.len(),
            shown == texts(above@),
            prompt@ == system_prompt() + on_lines(shown.take(i as int)),
        decreases above@.len() - i,
    {
        prompt.append("\n");
        prompt.append(above[i].as_str());
        proof {
            let next = shown.take(i + 1);
            assert(next.drop_last() =~= shown.take(i as int));
            assert(next.last() == above@[i as int]@);
            assert(prompt@ =~= system_prompt() + on_lines(next));
        }
        i = i + 1;
    }
    assert(shown.take(i as int) =~= shown);
    proof {
        reveal_strlit("\n");
        if row > 0 {
            let line = lines@[row - 1]@;
            let before = prompt@.len() - line.len() - 1;
            let start = system_prompt() + on_lines(shown.drop_last());
            assert(shown.last() == line);
            assert(prompt@ =~= start + "\n"@ + line);
            assert(before == start.len());
            assert(prompt@.skip(before + 1) =~= line);
            assert(prompt@.take(system_prompt().len() as int) =~= system_prompt());
        } else {
            assert(prompt@ =~= system_prompt());
        }
    }
    GenerateQuery { model: "gemma3:12b", prompt, stream: false }
}

/// A query as JSON.
pub open spec fn query_json(model: Seq<char>, prompt: Seq<char>, stream: bool) -> Seq<char> {
    "{\"model\":"@ + crate::json::quoted(model) + ",\"prompt\":"@ + crate::json::quoted(prompt) + (
    if stream {
        ",\"stream\":true}"@
    } else {
        ",\"stream\":false}"@
    })
}

/// The JSON text of a query.
pub fn query_body(query: &GenerateQuery) -> (body: String)
    ensures
        body@ == query_json(query.model@, query.prompt@, query.stream),
{
    let mut body = String::from_str("{\"model\":");
    body.append(json_string(query.model).as_str());
    body.append(",\"prompt\":");
    body.append(json_string(query.prompt.as_str()).as_str());
    if query.stream {
        body.append(",\"stream\":true}");
    } else {
        body.append(",\"stream\":false}");
    }
    body
}

/// The JSON text of the question of the command `SeanOllama`.
pub fn generate_body() -> (body: String)
    ensures
        body@ == query_json(model(), "can you introduce yourself?"@, false),
        body@
            == "{\"model\":\"gemma3:12b\",\"prompt\":\"can you introduce yourself?\",\"stream\":false}"@,
{
    let query = generate_query();
    let body = query_body(&query);
    proof {
        reveal_strlit("gemma3:12b");
        reveal_strlit("can you introduce yourself?");
        reveal_strlit("{\"model\":");
        reveal_strlit(",\"prompt\":");
        reveal_strlit(",\"stream\":false}");
        reveal_strlit(
            "{\"model\":\"gemma3:12b\",\"prompt\":\"can you introduce yourself?\",\"stream\":false}",
        );
        crate::json::lemma_plain_text("gemma3:12b"@);
        crate::json::lemma_plain_text("can you introduce yourself?"@);
        assert(body@
            =~= "{\"model\":\"gemma3:12b\",\"prompt\":\"can you introduce yourself?\",\"stream\":false}"@);
    }
    body
}

/// The headers of the request, under their names in lower case.
pub open spec fn generate_headers() -> Map<Seq<char>, Seq<Seq<char>>> {
    map![
        "user-agent"@ => seq!["nvim-libuv"@],
        "accept"@ => seq!["application/json"@],
        "content-type"@ => seq!["application/json"@],
        "connection"@ => seq!["close"@],
    ]
}

/// The request that carries a question.
pub fn generate_request(query: &GenerateQuery) -> (request: Request)
    ensures
        crate::http::request_view(request) == (crate::http::RequestView {
            method: "POST"@,
            url: crate::http::generate_url(),
            headers: generate_headers(),
            body: query_json(query.model@, query.prompt@, query.stream),
        }),
{
    let mut request = post("http://seanvim.requestcatcher.com/api/generate");
    proof {
        reveal_strlit("User-Agent");
        reveal_strlit("user-agent");
        reveal_strlit("nvim-libuv");
        reveal_strlit("Accept");
        reveal_strlit("accept");
        reveal_strlit("application/json");
        reveal_strlit("Content-Type");
        reveal_strlit("content-type");
        reveal_strlit("Connection");
        reveal_strlit("connection");
        reveal_strlit("close");
        assert(crate::http::lower("User-Agent"@) =~= "user-agent"@);
        assert(crate::http::lower("Accept"@) =~= "accept"@);
        assert(crate::http::lower("Content-Type"@) =~= "content-type"@);
        assert(crate::http::lower("Connection"@) =~= "connection"@);
    }
    insert_header(&mut request, "User-Agent", "nvim-libuv");
    insert_header(&mut request, "Accept", "application/json");
    insert_header(&mut request, "Content-Type", "application/json");
    insert_header(&mut request, "Connection", "close");
    set_body(&mut request, query_body(query));
    assert(crate::http::request_view(request).headers =~= generate_headers());
    request
}

/// Where a call to Ollama stands.
#[derive(Clone, Copy, Debug, PartialEq, Eq)]
pub enum CallState {
    /// Waiting for the connection.
    Connecting,
    /// Waiting for the answer to the request.
    Requesting,
    /// Waiting for the body of the answer.
    Reading,
    /// Nothing more is to come.
    Finished,
}

/// Where the answer of a call goes.
#[derive(Clone, Copy, Debug, PartialEq, Eq)]
pub enum AnswerTarget {
    /// Into the register `o`.
    Register,
    /// Into the buffer, at the cursor.
    Buffer,
}

/// What happens to a call. Texts are what a value looks like when it is shown.
pub enum CallEvent {
    /// The connection is made, with this status.
    Connected(u32),
    ConnectFailed(String),
    /// The head of the answer has come.
    Answered(String),
    RequestFailed(String),
    /// The body of the answer has been read and understood.
    Decoded { shown: String, response: OllamaGenerateResponse },
    NotDecoded(String),
}

/// What is to be done for a call.
pub enum CallAction {
    /// Tell the user.
    Notify(String),
    /// Write to the message log.
    Print(String),
    /// Send the request.
    Send,
    /// Read the body of the answer.
    ReadBody,
    /// Put a text into a register of the editor.
    SetRegister { register: &'static str, text: String },
    /// Insert a text into the buffer.
    Insert { text: String },
}

/// What is to be done, with texts as sequences.
pub enum CallActionView {
    Notify(Seq<char>),
    Print(Seq<char>),
    Send,
    ReadBody,
    SetRegister { register: Seq<char>, text: Seq<char> },
    Insert { text: Seq<char> },
}

impl View for CallAction {
    type V = CallActionView;

    open spec fn view(&self) -> CallActionView {
        match *self {
            CallAction::Notify(text) => CallActionView::Notify(text@),
            CallAction::Print(text) => CallActionView::Print(text@),
            CallAction::Send => CallActionView::Send,
            CallAction::ReadBody => CallActionView::ReadBody,
            CallAction::SetRegister { register, text } => CallActionView::SetRegister {
                register: register@,
                text: text@,
            },
            CallAction::Insert { text } => CallActionView::Insert { text: text@ },
        }
    }
}

/// A list of things to do, with texts as sequences.
pub open spec fn views(actions: Seq<CallAction>) -> Seq<CallActionView> {
    Seq::new(actions.len(), |i: int| actions[i]@)
}

/// The decimal digit `d`.
pub open spec fn digit(d: nat) -> char {
    (('0' as u8) + d) as char
}

/// A number in decimal.
pub open spec fn decimal(n: nat) -> Seq<char>
    decreases n,
{
    if n < 10 {
        seq![digit(n)]
    } else {
        decimal(n / 10).push(digit(n % 10))
    }
}

/// Where a call stands after an event; one that does not belong there changes nothing.
pub open spec fn next_state(state: CallState, event: CallEvent) -> CallState {
    match (state, event) {
        (CallState::Connecting, CallEvent::Connected(_)) => CallState::Requesting,
        (CallState::Connecting, CallEvent::ConnectFailed(_)) => CallState::Finished,
        (CallState::Requesting, CallEvent::Answered(_)) => CallState::Reading,
        (CallState::Requesting, CallEvent::RequestFailed(_)) => CallState::Finished,
        (CallState::Reading, CallEvent::Decoded { .. }) => CallState::Finished,
        (CallState::Reading, CallEvent::NotDecoded(_)) => CallState::Finished,
        _ => state,
    }
}

/// What is to be done with an answer.
pub open spec fn delivery(target: AnswerTarget, text: Seq<char>) -> CallActionView {
    match target {
        AnswerTarget::Register => CallActionView::SetRegister { register: "o"@, text },
        AnswerTarget::Buffer => CallActionView::Insert { text },
    }
}

/// What is to be done about an event.
pub open spec fn actions_for(
    target: AnswerTarget,
    state: CallState,
    event: CallEvent,
) -> Seq<CallActionView> {
    match (state, event) {
        (CallState::Connecting, CallEvent::Connected(status)) => seq![
            CallActionView::Notify("Connected! "@ + decimal(status as nat)),
            CallActionView::Send,
        ],
        (CallState::Connecting, CallEvent::ConnectFailed(error)) => seq![
            CallActionView::Notify("Connected? "@ + error@),
        ],
        (CallState::Requesting, CallEvent::Answered(shown)) => seq![
            CallActionView::Print("Response: "@ + shown@),
            CallActionView::ReadBody,
        ],
        (CallState::Requesting, CallEvent::RequestFailed(error)) => seq![
            CallActionView::Print("Response: ERROR: "@ + error@),
        ],
        (CallState::Reading, CallEvent::Decoded { shown, response }) => seq![
            CallActionView::Print("Response: "@ + shown@),
            CallActionView::Print("Response Body: "@ + response.response@),
            delivery(target, response.response@),
        ],
        (CallState::Reading, CallEvent::NotDecoded(shown)) => seq![
            CallActionView::Print("Response: "@ + shown@),
        ],
        _ => Seq::empty(),
    }
}

fn digit_text(d: u32) -> (text: &'static str)
    requires
        d < 10,
    ensures
        text@ == seq![digit(d as nat)],
{
    proof {
        reveal_strlit("0");
        reveal_strlit("1");
        reveal_strlit("2");
        reveal_strlit("3");
        reveal_strlit("4");
        reveal_strlit("5");
        reveal_strlit("6");
        reveal_strlit("7");
        reveal_strlit("8");
        reveal_strlit("9");
    }
    match d {
        0 => "0",
        1 => "1",
        2 => "2",
        3 => "3",
        4 => "4",
        5 => "5",
        6 => "6",
        7 => "7",
        8 => "8",
        _ => "9",
    }
}

/// Appends a number in decimal to a text.
fn append_decimal(text: &mut String, n: u32)
    ensures
        final(text)@ == old(text)@ + decimal(n as nat),
    decreases n,
{
    if n >= 10 {
        append_decimal(text, n / 10);
    }
    text.append(digit_text(n % 10));
    proof {
        let upper = if n >= 10 {
            decimal((n / 10) as nat)
        } else {
            Seq::empty()
        };
        assert(decimal(n as nat) =~= upper + seq![digit((n % 10) as nat)]);
        assert(text@ =~= old(text)@ + decimal(n as nat));
    }
}

fn joined(start: &str, rest: &String) -> (text: String)
    ensures
        text@ == start@ + rest@,
{
    let mut text = String::from_str(start);
    text.append(rest.as_str());
    text
}

/// Takes a call one event further: the state that it comes to, and what is to be done,
/// in order.
pub fn advance(target: AnswerTarget, state: CallState, event: CallEvent) -> (next: (
    CallState,
    Vec<CallAction>,
))
    ensures
        next.0 == next_state(state, event),
        views(next.1@) == actions_for(target, state, event),
        state is Reading && event is Decoded ==> {
            &&& next.1@.len() == 3
            &&& match target {
                AnswerTarget::Register => next.1@[2] matches CallAction::SetRegister {
                    register,
                    text,
                } && register@ == "o"@ && text@ == event->response.response@,
                AnswerTarget::Buffer => next.1@[2] matches CallAction::Insert { text } && text@
                    == event->response.response@,
            }
        },
{
    let mut actions: Vec<CallAction> = Vec::new();
    let mut after: CallState = state;
    match (state, &event) {
        (CallState::Connecting, CallEvent::Connected(status)) => {
            let mut text = String::from_str("Connected! ");
            append_decimal(&mut text, *status);
            actions.push(CallAction::Notify(text));
            actions.push(CallAction::Send);
            after = CallState::Requesting;
        },
        (CallState::Connecting, CallEvent::ConnectFailed(error)) => {
            actions.push(CallAction::Notify(joined("Connected? ", error)));
            after = CallState::Finished;
        },
        (CallState::Requesting, CallEvent::Answered(shown)) => {
            actions.push(CallAction::Print(joined("Response: ", shown)));
            actions.push(CallAction::ReadBody);
            after = CallState::Reading;
        },
        (CallState::Requesting, CallEvent::RequestFailed(error)) => {
            actions.push(CallAction::Print(joined("Response: ERROR: ", error)));
            after = CallState::Finished;
        },
        (CallState::Reading, CallEvent::Decoded { shown, response }) => {
            actions.push(CallAction::Print(joined("Response: ", shown)));
            actions.push(CallAction::Print(joined("Response Body: ", &response.response)));
            let text = response.response.clone();
            actions.push(
                match target {
                    AnswerTarget::Register => CallAction::SetRegister { register: "o", text },
                    AnswerTarget::Buffer => CallAction::Insert { text },
                },
            );
            after = CallState::Finished;
        },
        (CallState::Reading, CallEvent::NotDecoded(shown)) => {
            actions.push(CallAction::Print(joined("Response: ", shown)));
            after = CallState::Finished;
        },
        _ => {},
    }
    assert(views(actions@) =~= actions_for(target, state, event));
    (after, actions)
}

/// The context is the end of what stands above the cursor, and at most fifteen lines of
/// it.
pub proof fn law_context_ends_at_cursor(lines: Seq<Seq<char>>, row: nat)
    requires
        row <= lines.len(),
    ensures
        lines_above(lines, row).len() == if row > 15 {
            15
        } else {
            row
        },
        lines_above(lines, row) == lines.take(row as int).skip(
            row - lines_above(lines, row).len(),
        ),
{
    assert(lines_above(lines, row) =~= lines.take(row as int).skip(
        row - lines_above(lines, row).len(),
    ));
}

/// A finished call stays finished, and nothing more is done for it.
pub proof fn law_finished_is_final(target: AnswerTarget, event: CallEvent)
    ensures
        next_state(CallState::Finished, event) is Finished,
        actions_for(target, CallState::Finished, event).len() == 0,
{
}

/// A register is set, or a text inserted, only when an answer has been understood; what
/// is set or inserted is the answer as it came, in the place that was asked for.
pub proof fn law_answer_goes_to_target(
    target: AnswerTarget,
    state: CallState,
    event: CallEvent,
    i: int,
)
    requires
        0 <= i < actions_for(target, state, event).len(),
        ({
            let action = actions_for(target, state, event)[i];
            action is SetRegister || action is Insert
        }),
    ensures
        state is Reading,
        event is Decoded,
        actions_for(target, state, event)[i] == delivery(target, event->response.response@),
{
}

/// An answer that has been understood is delivered.
pub proof fn law_answer_is_delivered(target: AnswerTarget, event: CallEvent)
    requires
        event is Decoded,
    ensures
        actions_for(target, CallState::Reading, event).last() == delivery(
            target,
            event->response.response@,
        ),
{
}

/// The request is sent only over a connection that was made.
pub proof fn law_request_needs_connection(
    target: AnswerTarget,
    state: CallState,
    event: CallEvent,
    i: int,
)
    requires
        0 <= i < actions_for(target, state, event).len(),
        actions_for(target, state, event)[i] is Send,
    ensures
        state is Connecting,
        event is Connected,
        next_state(state, event) is Requesting,
{
}

/// Every text of an action is shown whole.
pub proof fn law_actions_show_their_texts(actions: Seq<CallAction>, i: int)
    requires
        0 <= i < actions.len(),
    ensures
        views(actions).len() == actions.len(),
        match actions[i] {
            CallAction::Notify(text) => views(actions)[i] == CallActionView::Notify(text@),
            CallAction::Print(text) => views(actions)[i] == CallActionView::Print(text@),
            CallAction::Send => views(actions)[i] == CallActionView::Send,
            CallAction::ReadBody => views(actions)[i] == CallActionView::ReadBody,
            CallAction::SetRegister { register, text } => views(actions)[i]
                == (CallActionView::SetRegister { register: register@, text: text@ }),
            CallAction::Insert { text } => views(actions)[i] == (CallActionView::Insert {
                text: text@,
            }),
        },
{
}

/// An answer that was understood is delivered whole, as the last thing that is done: it is
/// put into the register `o`, or inserted into the buffer. The call is then finished.
pub proof fn law_whole_answer_is_delivered(
    target: AnswerTarget,
    shown: String,
    response: OllamaGenerateResponse,
)
    ensures
        ({
            let event = CallEvent::Decoded { shown, response };
            let actions = actions_for(target, CallState::Reading, event);
            let text = response.response@;
            &&& actions == seq![
                CallActionView::Print("Response: "@ + shown@),
                CallActionView::Print("Response Body: "@ + text),
                match target {
                    AnswerTarget::Register => CallActionView::SetRegister {
                        register: "o"@,
                        text,
                    },
                    AnswerTarget::Buffer => CallActionView::Insert { text },
                },
            ]
            &&& next_state(CallState::Reading, event) is Finished
        }),
{
}

/// What happens on the way is told with the whole text of it, and takes the call on: a
/// connection to the request, an answer to its body, and a failure to the end.
pub proof fn law_call_tells_what_happens(target: AnswerTarget, status: u32, text: String)
    ensures
        ({
            let connected = actions_for(
                target,
                CallState::Connecting,
                CallEvent::Connected(status),
            );
            &&& connected.len() == 2
            &&& connected[0] matches CallActionView::Notify(told) && {
                &&& told.len() > 11
                &&& told.take(11) == "Connected! "@
                &&& number(told.skip(11)) == status
            }
            &&& connected[1] is Send
            &&& next_state(CallState::Connecting, CallEvent::Connected(status)) is Requesting
        }),
        actions_for(target, CallState::Connecting, CallEvent::ConnectFailed(text)) == seq![
            CallActionView::Notify("Connected? "@ + text@),
        ],
        next_state(CallState::Connecting, CallEvent::ConnectFailed(text)) is Finished,
        actions_for(target, CallState::Requesting, CallEvent::Answered(text)) == seq![
            CallActionView::Print("Response: "@ + text@),
            CallActionView::ReadBody,
        ],
        next_state(CallState::Requesting, CallEvent::Answered(text)) is Reading,
        actions_for(target, CallState::Requesting, CallEvent::RequestFailed(text)) == seq![
            CallActionView::Print("Response: ERROR: "@ + text@),
        ],
        next_state(CallState::Requesting, CallEvent::RequestFailed(text)) is Finished,
        actions_for(target, CallState::Reading, CallEvent::NotDecoded(text)) == seq![
            CallActionView::Print("Response: "@ + text@),
        ],
        next_state(CallState::Reading, CallEvent::NotDecoded(text)) is Finished,
{
    reveal_strlit("Connected! ");
    law_decimal_reads_back(status as nat);
    let told = "Connected! "@ + decimal(status as nat);
    assert(told.take(11) =~= "Connected! "@);
    assert(told.skip(11) =~= decimal(status as nat));
}

/// The number that digits stand for.
pub open spec fn number(digits: Seq<char>) -> int
    decreases digits.len(),
{
    if digits.len() == 0 {
        0
    } else {
        number(digits.drop_last()) * 10 + (digits.last() as int - '0' as int)
    }
}

/// A number that was written in decimal is read back as it was. It is written with digits
/// alone, and without zeros in front.
pub proof fn law_decimal_reads_back(n: nat)
    ensures
        number(decimal(n)) == n,
        decimal(n).len() > 0,
        forall|i: int| 0 <= i < decimal(n).len() ==> '0' <= #[trigger] decimal(n)[i] <= '9',
        n > 0 ==> decimal(n)[0] != '0',
        n == 0 ==> decimal(n).len() == 1,
    decreases n,
{
    if n < 10 {
        let digits = decimal(n);
        assert(digits.drop_last() =~= Seq::<char>::empty());
        assert(number(digits.drop_last()) == 0);
    } else {
        law_decimal_reads_back(n / 10);
        let upper = decimal(n / 10);
        assert(decimal(n).drop_last() =~= upper);
        assert(decimal(n)[0] == upper[0]);
    }
}

/// Where a call stands after a series of events.
pub open spec fn state_after(events: Seq<CallEvent>) -> CallState
    decreases events.len(),
{
    if events.len() == 0 {
        CallState::Connecting
    } else {
        next_state(state_after(events.drop_last()), events.last())
    }
}

/// Whether an action delivers an answer.
pub open spec fn delivers(action: CallActionView) -> bool {
    action is SetRegister || action is Insert
}

/// What was done for a call in a series of events.
pub open spec fn done_in(target: AnswerTarget, events: Seq<CallEvent>) -> Seq<CallActionView>
    decreases events.len(),
{
    if events.len() == 0 {
        Seq::empty()
    } else {
        done_in(target, events.drop_last()) + actions_for(
            target,
            state_after(events.drop_last()),
            events.last(),
        )
    }
}

/// A call that connects, is answered and is understood delivers the whole answer.
pub proof fn law_call_delivers_answer(
    target: AnswerTarget,
    status: u32,
    answered: String,
    shown: String,
    response: OllamaGenerateResponse,
)
    ensures
        ({
            let events = seq![
                CallEvent::Connected(status),
                CallEvent::Answered(answered),
                CallEvent::Decoded { shown, response },
            ];
            &&& state_after(events) is Finished
            &&& done_in(target, events).last() == match target {
                AnswerTarget::Register => CallActionView::SetRegister {
                    register: "o"@,
                    text: response.response@,
                },
                AnswerTarget::Buffer => CallActionView::Insert { text: response.response@ },
            }
        }),
{
    let one = seq![CallEvent::Connected(status)];
    let two = one.push(CallEvent::Answered(answered));
    let events = seq![
        CallEvent::Connected(status),
        CallEvent::Answered(answered),
        CallEvent::Decoded { shown, response },
    ];
    assert(events.drop_last() =~= two);
    assert(two.drop_last() =~= one);
    assert(one.drop_last() =~= Seq::<CallEvent>::empty());
    assert(state_after(one.drop_last()) is Connecting);
    assert(state_after(one) is Requesting);
    assert(state_after(two) is Reading);
    law_whole_answer_is_delivered(target, shown, response);
}

/// A call delivers at most once, whatever happens to it: a delivery is the last thing that
/// is done for it, and it is finished then.
pub proof fn law_call_delivers_at_most_once(
    target: AnswerTarget,
    events: Seq<CallEvent>,
    i: int,
)
    requires
        0 <= i < done_in(target, events).len(),
        delivers(done_in(target, events)[i]),
    ensures
        i == done_in(target, events).len() - 1,
        state_after(events) is Finished,
    decreases events.len(),
{
    let earlier = events.drop_last();
    let before = done_in(target, earlier);
    if i < before.len() {
        law_call_delivers_at_most_once(target, earlier, i);
        assert(done_in(target, events) =~= before);
    } else {
        let new = actions_for(target, state_after(earlier), events.last());
        assert(done_in(target, events)[i] == new[i - before.len()]);
    }
}

/// The text of lines holds every line, in order, each after a line break.
pub proof fn law_text_holds_every_line(lines: Seq<Seq<char>>, line: Seq<char>)
    ensures
        on_lines(Seq::<Seq<char>>::empty()) == Seq::<char>::empty(),
        on_lines(lines.push(line)) == on_lines(lines) + seq!['\n'] + line,
        on_lines(lines.push(line)).len() == on_lines(lines).len() + 1 + line.len(),
{
    reveal_strlit("\n");
    assert(lines.push(line).drop_last() =~= lines);
    assert("\n"@ =~= seq!['\n']);
}

/// Where a line of lines begins in their text.
pub open spec fn line_start(lines: Seq<Seq<char>>, i: int) -> int
    decreases i,
{
    if i <= 0 {
        1
    } else {
        line_start(lines, i - 1) + lines[i - 1].len() + 1
    }
}

/// Every line stands whole in the text of lines, behind the lengths of those before it and
/// one line break for each, and nothing else stands there.
pub proof fn law_every_line_stands_in_text(lines: Seq<Seq<char>>, i: int)
    requires
        0 <= i < lines.len(),
    ensures
        ({
            let text = on_lines(lines);
            let start = line_start(lines, i);
            &&& 1 <= start
            &&& start + lines[i].len() <= text.len()
            &&& text[start - 1] == '\n'
            &&& text.subrange(start, start + lines[i].len()) == lines[i]
        }),
        on_lines(lines).len() == line_start(lines, lines.len() as int) - 1,
    decreases lines.len(),
{
    let earlier = lines.drop_last();
    let n = earlier.len() as int;
    law_text_holds_every_line(earlier, lines.last());
    assert(earlier.push(lines.last()) =~= lines);
    lemma_line_start(earlier, lines.last(), n);
    if n > 0 {
        law_every_line_stands_in_text(earlier, if i < n {
            i
        } else {
            n - 1
        });
    } else {
        assert(earlier =~= Seq::<Seq<char>>::empty());
    }
    let text = on_lines(lines);
    let start = line_start(lines, i);
    if i < n {
        lemma_line_start(earlier, lines.last(), i);
        assert(text.subrange(start, start + lines[i].len()) =~= on_lines(earlier).subrange(
            start,
            start + lines[i].len(),
        ));
    } else {
        assert(text.subrange(start, start + lines[i].len()) =~= lines[i]);
    }
}

proof fn lemma_line_start(lines: Seq<Seq<char>>, line: Seq<char>, i: int)
    requires
        0 <= i <= lines.len(),
    ensures
        line_start(lines.push(line), i) == line_start(lines, i),
        line_start(lines, i) >= 1,
    decreases i,
{
    if i > 0 {
        lemma_line_start(lines, line, i - 1);
    }
}

/// The texts of lines are the lines.
pub proof fn law_texts_are_whole(lines: Seq<String>, i: int)
    requires
        0 <= i < lines.len(),
    ensures
        texts(lines).len() == lines.len(),
        texts(lines)[i] == lines[i]@,
{
}

/// A query is read back from its JSON as it was: an object with the model, the prompt and
/// whether to stream, and nothing else.
pub proof fn law_query_reads_back(model: Seq<char>, prompt: Seq<char>, stream: bool)
    ensures
        ({
            let json = query_json(model, prompt, stream);
            &&& json.len() > 10
            &&& json.take(10) == "{\"model\":\""@
            &&& crate::json::read_string(json.skip(10)) matches Some((first, more)) && {
                &&& first == model
                &&& more.len() > 11
                &&& more.take(11) == ",\"prompt\":\""@
                &&& crate::json::read_string(more.skip(11)) matches Some((second, last)) && {
                    &&& second == prompt
                    &&& last == if stream {
                        ",\"stream\":true}"@
                    } else {
                        ",\"stream\":false}"@
                    }
                }
            }
        }),
{
    reveal_strlit("{\"model\":");
    reveal_strlit("{\"model\":\"");
    reveal_strlit(",\"prompt\":");
    reveal_strlit(",\"prompt\":\"");
    let last = if stream {
        ",\"stream\":true}"@
    } else {
        ",\"stream\":false}"@
    };
    let json = query_json(model, prompt, stream);
    let more = ",\"prompt\":"@ + crate::json::quoted(prompt) + last;
    crate::json::law_string_reads_back(model, more);
    crate::json::law_string_reads_back(prompt, last);
    assert(json =~= "{\"model\":"@ + (crate::json::quoted(model) + more));
    assert(json.take(10) =~= "{\"model\":\""@);
    assert(json.skip(10) =~= (crate::json::quoted(model) + more).skip(1));
    assert(more.take(11) =~= ",\"prompt\":\""@);
    assert(more.skip(11) =~= (crate::json::quoted(prompt) + last).skip(1));
}

/// Whether an event belongs to where a call stands.
pub open spec fn belongs(state: CallState, event: CallEvent) -> bool {
    match event {
        CallEvent::Connected(_) | CallEvent::ConnectFailed(_) => state is Connecting,
        CallEvent::Answered(_) | CallEvent::RequestFailed(_) => state is Requesting,
        CallEvent::Decoded { .. } | CallEvent::NotDecoded(_) => state is Reading,
    }
}

/// An event that does not belong to where a call stands changes nothing, and nothing is
/// done about it. One that belongs there takes the call on.
pub proof fn law_only_events_in_place_matter(
    target: AnswerTarget,
    state: CallState,
    event: CallEvent,
)
    ensures
        !belongs(state, event) ==> next_state(state, event) == state && actions_for(
            target,
            state,
            event,
        ).len() == 0,
        belongs(state, event) ==> next_state(state, event) != state && actions_for(
            target,
            state,
            event,
        ).len() > 0,
{
}

/// The address that the option gives is used as it is; without the option the fixed one is
/// used.
pub proof fn law_option_names_the_address(url: String)
    ensures
        address_or_default(Some(url)) == url@,
        address_or_default(None) == "192.168.254.37:11434"@,
{
}

} // verus!
