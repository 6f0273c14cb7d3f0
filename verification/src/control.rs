//! Remote control over HTTP, for home automation.
//!
//! `POST /start` starts sending or receiving, `POST /stop` ends it, and `GET /status` tells the
//! state as JSON. There is no authentication: this is for a network that is trusted.
use crate::text::{chars_of, decimal, decimal_of, first_word, past_word, piece, replaced};
use crate::text::{law_first_word, str_eq, white_space, without_quotes, word_range};
use vstd::prelude::*;
use vstd::utf8::encode_utf8;

verus! {

pub const CONTROL_PORT: u16 = 48101;

/// What the control server and the window share.
#[derive(Debug)]
pub struct ControlState {
    /// The command that waits to be carried out: `Some(true)` to start, `Some(false)` to stop.
    pub pending: Option<bool>,
    /// Whether a stream is running.
    pub running: bool,
    /// The state in words.
    pub info: String,
}

/// What a client asks for.
#[derive(Debug, Clone, Copy, PartialEq, Eq, Structural)]
pub enum Request {
    Start,
    Stop,
    Status,
    Unknown,
}

/// What the first line of a request asks for: its first word is the method, its second the path.
pub open spec fn request_of(line: Seq<char>) -> Request {
    let method = first_word(line);
    let path = first_word(past_word(line));
    if method == "POST"@ && path == "/start"@ {
        Request::Start
    } else if method == "POST"@ && path == "/stop"@ {
        Request::Stop
    } else if method == "GET"@ && (path == "/status"@ || path == "/"@) {
        Request::Status
    } else {
        Request::Unknown
    }
}

/// What the first line of a request asks for.
pub fn parse_request(line: &str) -> (request: Request)
    ensures
        request == request_of(line@),
{
    let chars = chars_of(line);
    assert(chars@.skip(0) =~= chars@);
    let (start, end) = word_range(&chars, 0);
    let method = piece(line, start, end);
    let (start, end) = word_range(&chars, end);
    let path = piece(line, start, end);
    let post = str_eq(method.as_str(), "POST");
    let get = str_eq(method.as_str(), "GET");
    if post && str_eq(path.as_str(), "/start") {
        Request::Start
    } else if post && str_eq(path.as_str(), "/stop") {
        Request::Stop
    } else if get && (str_eq(path.as_str(), "/status") || str_eq(path.as_str(), "/")) {
        Request::Status
    } else {
        Request::Unknown
    }
}

/// The answer to a request.
#[derive(Debug)]
pub struct Reply {
    pub status: &'static str,
    pub body: String,
    /// Whether the window must be woken to carry out a command.
    pub wake: bool,
}

/// The state as JSON. A quote in the description would end its string, so it becomes an
/// apostrophe.
pub open spec fn status_body(running: bool, info: Seq<char>) -> Seq<char> {
    "{\"running\":"@ + (if running {
        "true"@
    } else {
        "false"@
    }) + ",\"info\":\""@ + replaced(info, '"', '\'') + "\"}"@
}

/// Whether a reply answers a request in a given state.
pub open spec fn answers(reply: Reply, request: Request, state: ControlState) -> bool {
    match request {
        Request::Start => {
            &&& reply.status@ == "200 OK"@
            &&& reply.body@ == "{\"ok\":true,\"cmd\":\"start\"}"@
            &&& reply.wake
        },
        Request::Stop => {
            &&& reply.status@ == "200 OK"@
            &&& reply.body@ == "{\"ok\":true,\"cmd\":\"stop\"}"@
            &&& reply.wake
        },
        Request::Status => {
            &&& reply.status@ == "200 OK"@
            &&& reply.body@ == status_body(state.running, state.info@)
            &&& !reply.wake
        },
        Request::Unknown => {
            &&& reply.status@ == "404 Not Found"@
            &&& reply.body@ == "{\"ok\":false}"@
            &&& !reply.wake
        },
    }
}

/// The state after a request: only a command changes it, and only by waiting in it.
pub open spec fn state_after(state: ControlState, request: Request) -> ControlState {
    match request {
        Request::Start => ControlState { pending: Some(true), ..state },
        Request::Stop => ControlState { pending: Some(false), ..state },
        _ => state,
    }
}

impl ControlState {
    pub fn new() -> (state: ControlState)
        ensures
            state.pending is None,
            !state.running,
            state.info@ == Seq::<char>::empty(),
    {
        ControlState { pending: None, running: false, info: String::new() }
    }

    /// Answers a request, given its first line.
    pub fn route(&mut self, request_line: &str) -> (reply: Reply)
        ensures
            answers(reply, request_of(request_line@), *old(self)),
            *final(self) == state_after(*old(self), request_of(request_line@)),
    {
        match parse_request(request_line) {
            Request::Start => {
                self.pending = Some(true);
                Reply {
                    status: "200 OK",
                    body: "{\"ok\":true,\"cmd\":\"start\"}".to_owned(),
                    wake: true,
                }
            },
            Request::Stop => {
                self.pending = Some(false);
                Reply {
                    status: "200 OK",
                    body: "{\"ok\":true,\"cmd\":\"stop\"}".to_owned(),
                    wake: true,
                }
            },
            Request::Status => {
                let mut body = "{\"running\":".to_owned();
                if self.running {
                    body.append("true");
                } else {
                    body.append("false");
                }
                body.append(",\"info\":\"");
                body.append(without_quotes(self.info.as_str()).as_str());
                body.append("\"}");
                Reply { status: "200 OK", body, wake: false }
            },
            Request::Unknown => Reply {
                status: "404 Not Found",
                body: "{\"ok\":false}".to_owned(),
                wake: false,
            },
        }
    }
}

/// A whole HTTP response: its length is that of the body in bytes.
pub open spec fn response_text(status: Seq<char>, body: Seq<char>) -> Seq<char> {
    "HTTP/1.1 "@ + status + "\r\nContent-Type: application/json\r\nContent-Length: "@ + decimal(
        encode_utf8(body).len(),
    ) + "\r\nConnection: close\r\n\r\n"@ + body
}

/// The HTTP response that carries a reply.
pub fn http_response(reply: &Reply) -> (response: String)
    ensures
        response@ == response_text(reply.status@, reply.body@),
{
    let length: u64 = reply.body.as_str().as_bytes().len() as u64;
    let mut response = "HTTP/1.1 ".to_owned();
    response.append(reply.status);
    response.append("\r\nContent-Type: application/json\r\nContent-Length: ");
    response.append(decimal_of(length).as_str());
    response.append("\r\nConnection: close\r\n\r\n");
    response.append(reply.body.as_str());
    response
}

/// A request that is not known is refused, and changes nothing.
pub proof fn law_unknown_requests_are_refused(state: ControlState, line: Seq<char>, reply: Reply)
    requires
        request_of(line) is Unknown,
        answers(reply, request_of(line), state),
    ensures
        state_after(state, request_of(line)) == state,
        reply.status@ == "404 Not Found"@,
{
}

/// Asking for the status never changes the state, and the answer depends on nothing else.
pub proof fn law_status_only_looks(
    state: ControlState,
    line: Seq<char>,
    first: Reply,
    second: Reply,
)
    requires
        request_of(line) is Status,
        answers(first, request_of(line), state),
        answers(second, request_of(line), state_after(state, request_of(line))),
    ensures
        state_after(state, request_of(line)) == state,
        first.body@ == second.body@,
{
}

/// Of several commands only the last one waits.
pub proof fn law_last_command_wins(state: ControlState, first: Request, last: Request)
    requires
        last is Start || last is Stop,
    ensures
        state_after(state_after(state, first), last) == state_after(state, last),
        state_after(state, last).pending == Some(last is Start),
{
}

/// No quote of a description is left once it is in the answer, and nothing else of it is changed.
pub proof fn law_info_has_no_quotes(info: Seq<char>, i: int)
    requires
        0 <= i < info.len(),
    ensures
        replaced(info, '"', '\'').len() == info.len(),
        replaced(info, '"', '\'')[i] != '"',
        info[i] != '"' ==> replaced(info, '"', '\'')[i] == info[i],
{
}

/// What a request asks for follows from its first two words, however they are spaced and whatever
/// follows: `POST /start`, `POST /stop`, and `GET /status` or `GET /`. Everything else is unknown.
pub proof fn law_requests_are_told_by_two_words(
    before: Seq<char>,
    method: Seq<char>,
    between: Seq<char>,
    path: Seq<char>,
    rest: Seq<char>,
)
    requires
        forall|i: int| 0 <= i < before.len() ==> white_space(#[trigger] before[i]),
        forall|i: int| 0 <= i < method.len() ==> !white_space(#[trigger] method[i]),
        forall|i: int| 0 <= i < between.len() ==> white_space(#[trigger] between[i]),
        forall|i: int| 0 <= i < path.len() ==> !white_space(#[trigger] path[i]),
        rest.len() > 0 ==> white_space(rest[0]),
        method.len() == 0 ==> between.len() == 0,
        between.len() == 0 ==> path.len() == 0,
        path.len() == 0 ==> rest.len() == 0,
    ensures
        ({
            let request = request_of(before + method + (between + path + rest));
            &&& request is Start <==> method == "POST"@ && path == "/start"@
            &&& request is Stop <==> method == "POST"@ && path == "/stop"@
            &&& request is Status <==> method == "GET"@ && (path == "/status"@ || path == "/"@)
        }),
{
    reveal_strlit("POST");
    reveal_strlit("GET");
    reveal_strlit("/start");
    reveal_strlit("/stop");
    let tail = between + path + rest;
    assert("POST"@.len() != "GET"@.len());
    assert("/start"@.len() != "/stop"@.len());
    if between.len() > 0 {
        assert(tail[0] == between[0]);
    }
    law_first_word(before, method, tail);
    law_first_word(between, path, rest);
}

/// What is replied, word for word. A command is taken and wakes the window, the status tells the
/// state, and nothing else is known.
pub proof fn law_replies_word_for_word(reply: Reply, request: Request, state: ControlState)
    requires
        answers(reply, request, state),
    ensures
        request is Unknown <==> reply.status@ == "404 Not Found"@,
        !(request is Unknown) ==> reply.status@ == "200 OK"@,
        reply.wake <==> request is Start || request is Stop,
        request is Start ==> reply.body@ == "{\"ok\":true,\"cmd\":\"start\"}"@,
        request is Stop ==> reply.body@ == "{\"ok\":true,\"cmd\":\"stop\"}"@,
        request is Unknown ==> reply.body@ == "{\"ok\":false}"@,
        request is Status && state.running ==> reply.body@ == "{\"running\":true,\"info\":\""@
            + replaced(state.info@, '"', '\'') + "\"}"@,
        request is Status && !state.running ==> reply.body@ == "{\"running\":false,\"info\":\""@
            + replaced(state.info@, '"', '\'') + "\"}"@,
{
    reveal_strlit("404 Not Found");
    reveal_strlit("200 OK");
    reveal_strlit("{\"running\":");
    reveal_strlit("true");
    reveal_strlit("false");
    reveal_strlit(",\"info\":\"");
    reveal_strlit("{\"running\":true,\"info\":\"");
    reveal_strlit("{\"running\":false,\"info\":\"");
    assert("404 Not Found"@.len() != "200 OK"@.len());
    assert("{\"running\":"@ + "true"@ + ",\"info\":\""@
        =~= "{\"running\":true,\"info\":\""@);
    assert("{\"running\":"@ + "false"@ + ",\"info\":\""@
        =~= "{\"running\":false,\"info\":\""@);
}

/// A command waits in the state until it is carried out; no request changes anything else.
pub proof fn law_commands_wait(state: ControlState, request: Request)
    ensures
        request is Start ==> state_after(state, request).pending == Some(true),
        request is Stop ==> state_after(state, request).pending == Some(false),
        request is Status || request is Unknown ==> state_after(state, request).pending
            == state.pending,
        state_after(state, request).running == state.running,
        state_after(state, request).info == state.info,
{
}

/// A response is its status line, its type, the length of its body in bytes, and the body, each on
/// a line of its own and the body behind an empty one.
pub proof fn law_response_lines(status: Seq<char>, body: Seq<char>)
    ensures
        response_text(status, body) == "HTTP/1.1 "@ + status
            + "\r\nContent-Type: application/json\r\nContent-Length: "@ + decimal(
            encode_utf8(body).len(),
        ) + "\r\nConnection: close\r\n\r\n"@ + body,
{
}

} // verus!
