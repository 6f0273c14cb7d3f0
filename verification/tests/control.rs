use soundtransfer::control::{http_response, parse_request, ControlState, Request, CONTROL_PORT};

#[test]
fn the_port_is_the_one_that_automation_expects() {
    assert_eq!(CONTROL_PORT, 48101);
}

#[test]
fn commands_wait_until_they_are_carried_out() {
    let mut state = ControlState::new();
    let reply = state.route("POST /start HTTP/1.1\r\n");
    assert_eq!(reply.status, "200 OK");
    assert_eq!(reply.body, r#"{"ok":true,"cmd":"start"}"#);
    assert!(reply.wake);
    assert_eq!(state.pending, Some(true));
    let reply = state.route("POST /stop HTTP/1.1\r\n");
    assert_eq!(reply.body, r#"{"ok":true,"cmd":"stop"}"#);
    assert!(reply.wake);
    assert_eq!(state.pending, Some(false));
    assert!(!state.running);
}

#[test]
fn the_status_is_told_as_json() {
    let mut state = ControlState::new();
    let reply = state.route("GET /status HTTP/1.1\r\n");
    assert_eq!(reply.body, r#"{"running":false,"info":""}"#);
    assert!(!reply.wake);
    state.running = true;
    state.info = "играет \"музыка\"".to_string();
    let reply = state.route("GET / HTTP/1.0");
    assert_eq!(reply.status, "200 OK");
    assert_eq!(reply.body, r#"{"running":true,"info":"играет 'музыка'"}"#);
    assert_eq!(state.pending, None);
}

#[test]
fn everything_else_is_not_found() {
    let mut state = ControlState::new();
    for line in ["GET /start", "POST /status", "POST", "", "post /start", "POST /start/ HTTP/1.1"] {
        let reply = state.route(line);
        assert_eq!(reply.status, "404 Not Found");
        assert_eq!(reply.body, r#"{"ok":false}"#);
        assert!(!reply.wake);
        assert_eq!(state.pending, None);
    }
}

#[test]
fn words_may_be_apart() {
    assert_eq!(parse_request("  POST \t /stop\u{2003}HTTP/1.1"), Request::Stop);
    assert_eq!(parse_request("GET /status"), Request::Status);
    assert_eq!(parse_request("GET\n/\n"), Request::Status);
}

#[test]
fn responses_count_bytes() {
    let mut state = ControlState::new();
    state.info = "звук".to_string();
    let reply = state.route("GET /status");
    let body = r#"{"running":false,"info":"звук"}"#;
    assert_eq!(
        http_response(&reply),
        format!(
            "HTTP/1.1 200 OK\r\nContent-Type: application/json\r\nContent-Length: {}\r\nConnection: close\r\n\r\n{body}",
            body.len()
        )
    );
    assert_eq!(body.len(), 35);
}
