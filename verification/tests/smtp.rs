use smtp_server::smtp::Connection;

fn request_lines(request: &str) -> Vec<String> {
    request.lines().map(|l| l.to_string()).collect()
}

fn response_stream(responses: &[String]) -> String {
    responses.iter().map(|r| format!("{}\n", r)).collect()
}

#[test]
fn parse_message() {
    // When
    let request = "HELO localhost\n\
                   MAIL FROM: tester@localhost\n\
                   RCPT TO: admin@localhost\n\
                   DATA\n\
                   It works!\n\
                   .\n\
                   QUIT\n";
    let lines = request_lines(request);

    let (result, responses) = Connection::handle(&lines);
    let response = response_stream(&responses);

    // Then
    assert_eq!(result.get_sender_domain(), Some("localhost"));

    let messages = result.get_messages().unwrap();
    assert_eq!(messages.len(), 1);

    let message = messages.first().unwrap();

    assert_eq!(message.get_sender(), "tester@localhost");
    assert_eq!(message.get_recipients().join(", "), "admin@localhost");
    assert_eq!(message.get_data(), "It works!");

    assert_eq!(
        response,
        "220 ready\n\
         250 OK\n\
         250 OK\n\
         250 OK\n\
         354 Send message content\n\
         250 OK\n\
         221 Bye\n"
    )
}

#[test]
fn single_cycle_two_recipients_two_lines() {
    let lines = request_lines(
        "HELO example.org\n\
         MAIL FROM:alice@example.org\n\
         RCPT TO:bob@example.net\n\
         RCPT TO:carol@example.net\n\
         DATA\n\
         first line\n\
         second line\n\
         .\n\
         QUIT\n",
    );
    let (result, _) = Connection::handle(&lines);

    assert_eq!(result.get_sender_domain(), Some("example.org"));
    let messages = result.get_messages().unwrap();
    assert_eq!(messages.len(), 1);
    let message = &messages[0];
    assert_eq!(message.get_sender(), "alice@example.org");
    assert_eq!(
        message.get_recipients(),
        &vec![
            "bob@example.net".to_string(),
            "carol@example.net".to_string()
        ]
    );
    assert_eq!(message.get_data(), "first line\nsecond line");
}

#[test]
fn two_cycles_yield_two_messages_in_order() {
    let lines = request_lines(
        "HELO h\n\
         MAIL FROM:first@h\n\
         RCPT TO:one@h\n\
         DATA\n\
         body one\n\
         .\n\
         MAIL FROM:second@h\n\
         RCPT TO:two@h\n\
         DATA\n\
         body two\n\
         .\n\
         QUIT\n",
    );
    let (result, _) = Connection::handle(&lines);

    let messages = result.get_messages().unwrap();
    assert_eq!(messages.len(), 2);
    assert_eq!(messages[0].get_sender(), "first@h");
    assert_eq!(messages[0].get_data(), "body one");
    assert_eq!(messages[1].get_sender(), "second@h");
    assert_eq!(messages[1].get_data(), "body two");
}

#[test]
fn feed_line_is_deterministic() {
    let mut a = Connection::new();
    let mut b = Connection::new();
    assert_eq!(a.feed_line("HELO here"), b.feed_line("HELO here"));
    assert_eq!(a.feed_line("MAIL FROM:x@y"), b.feed_line("MAIL FROM:x@y"));
    assert_eq!(a.feed_line("bogus"), b.feed_line("bogus"));
    assert_eq!(a.feed_line("RCPT TO:z@y"), b.feed_line("RCPT TO:z@y"));
}

#[test]
fn queries_unavailable_before_quit_and_stable_after() {
    let mut conn = Connection::new();
    assert!(conn.get_sender_domain().is_none());
    assert!(conn.get_messages().is_none());

    assert_eq!(conn.feed_line("HELO dom"), Ok("250 OK"));
    assert!(conn.get_sender_domain().is_none());
    assert!(conn.get_messages().is_none());

    assert_eq!(conn.feed_line("MAIL FROM:a@dom"), Ok("250 OK"));
    assert_eq!(conn.feed_line("RCPT TO:b@dom"), Ok("250 OK"));
    assert_eq!(conn.feed_line("DATA"), Ok("354 Send message content"));
    assert_eq!(conn.feed_line("hello"), Ok(""));
    assert_eq!(conn.feed_line("."), Ok("250 OK"));
    assert!(conn.get_sender_domain().is_none());
    assert!(conn.get_messages().is_none());

    assert_eq!(conn.feed_line("QUIT"), Ok("221 Bye"));
    assert_eq!(conn.get_sender_domain(), Some("dom"));
    assert_eq!(conn.get_messages().unwrap().len(), 1);

    // Further lines are rejected and change nothing.
    assert_eq!(conn.feed_line("HELO other"), Err("500 unexpected line"));
    assert_eq!(conn.feed_line("QUIT"), Err("500 unexpected line"));
    assert_eq!(conn.get_sender_domain(), Some("dom"));
    assert_eq!(conn.get_messages().unwrap().len(), 1);
}

#[test]
fn syntax_error_leaves_state_unchanged() {
    let mut conn = Connection::new();

    // Wrong commands for the greeting state, including wrong case and a
    // missing space, are rejected; the right command still succeeds after.
    assert_eq!(conn.feed_line("MAIL FROM:a@b"), Err("500 unexpected line"));
    assert_eq!(conn.feed_line("helo x"), Err("500 unexpected line"));
    assert_eq!(conn.feed_line("HELO"), Err("500 unexpected line"));
    assert_eq!(conn.feed_line("HELO x"), Ok("250 OK"));

    // QUIT is not accepted before the first completed cycle.
    assert_eq!(conn.feed_line("QUIT"), Err("500 unexpected line"));
    assert_eq!(conn.feed_line("MAIL FROM:a@b"), Ok("250 OK"));

    // DATA needs at least one recipient first.
    assert_eq!(conn.feed_line("DATA"), Err("500 unexpected line"));
    assert_eq!(conn.feed_line("RCPT TO:c@d"), Ok("250 OK"));
    assert_eq!(conn.feed_line("DATA"), Ok("354 Send message content"));
    assert_eq!(conn.feed_line("."), Ok("250 OK"));
    assert_eq!(conn.feed_line("QUIT"), Ok("221 Bye"));

    let messages = conn.get_messages().unwrap();
    assert_eq!(messages.len(), 1);
    assert_eq!(messages[0].get_sender(), "a@b");
    assert_eq!(messages[0].get_recipients(), &vec!["c@d".to_string()]);
    assert_eq!(messages[0].get_data(), "");
}

#[test]
fn arguments_are_trimmed() {
    let mut conn = Connection::new();
    assert_eq!(conn.feed_line("HELO \t spaced.example \t"), Ok("250 OK"));
    assert_eq!(conn.feed_line("MAIL FROM:  a@b  "), Ok("250 OK"));
    assert_eq!(conn.feed_line("RCPT TO:\tc@d "), Ok("250 OK"));
    assert_eq!(conn.feed_line("DATA"), Ok("354 Send message content"));
    assert_eq!(conn.feed_line("  kept as is  "), Ok(""));
    assert_eq!(conn.feed_line("."), Ok("250 OK"));
    assert_eq!(conn.feed_line("QUIT"), Ok("221 Bye"));

    assert_eq!(conn.get_sender_domain(), Some("spaced.example"));
    let messages = conn.get_messages().unwrap();
    assert_eq!(messages[0].get_sender(), "a@b");
    assert_eq!(messages[0].get_recipients(), &vec!["c@d".to_string()]);
    // Body lines are taken raw, never trimmed.
    assert_eq!(messages[0].get_data(), "  kept as is  ");
}

#[test]
fn body_lines_that_look_like_commands_stay_raw() {
    let lines = request_lines(
        "HELO h\n\
         MAIL FROM:a@h\n\
         RCPT TO:b@h\n\
         DATA\n\
         QUIT\n\
         MAIL FROM:not-a-command\n\
         \n\
         ..\n\
         .\n\
         QUIT\n",
    );
    let (result, responses) = Connection::handle(&lines);

    let messages = result.get_messages().unwrap();
    assert_eq!(messages.len(), 1);
    assert_eq!(
        messages[0].get_data(),
        "QUIT\nMAIL FROM:not-a-command\n\n.."
    );
    // Body lines draw no response at all.
    assert_eq!(
        response_stream(&responses),
        "220 ready\n250 OK\n250 OK\n250 OK\n354 Send message content\n250 OK\n221 Bye\n"
    );
}

#[test]
fn end_of_stream_before_quit_leaves_session_incomplete() {
    let lines = request_lines("HELO h\nMAIL FROM:a@h\nRCPT TO:b@h\n");
    let (result, responses) = Connection::handle(&lines);

    assert!(result.get_sender_domain().is_none());
    assert!(result.get_messages().is_none());
    assert_eq!(
        response_stream(&responses),
        "220 ready\n250 OK\n250 OK\n250 OK\n"
    );
}

#[test]
fn empty_input_writes_only_the_greeting() {
    let lines: Vec<String> = Vec::new();
    let (result, responses) = Connection::handle(&lines);

    assert!(result.get_messages().is_none());
    assert_eq!(response_stream(&responses), "220 ready\n");
}

#[test]
fn lines_after_quit_are_not_read() {
    let lines = request_lines(
        "HELO h\n\
         MAIL FROM:a@h\n\
         RCPT TO:b@h\n\
         DATA\n\
         .\n\
         QUIT\n\
         HELO again\n",
    );
    let (result, responses) = Connection::handle(&lines);

    // The loop stops at the terminal response; the trailing line draws none.
    assert_eq!(
        response_stream(&responses),
        "220 ready\n250 OK\n250 OK\n250 OK\n354 Send message content\n250 OK\n221 Bye\n"
    );
    assert_eq!(result.get_messages().unwrap().len(), 1);
}

#[test]
fn syntax_errors_are_answered_and_the_session_goes_on() {
    let lines = request_lines(
        "EHLO h\n\
         HELO h\n\
         MAIL FROM:a@h\n\
         RCPT TO:b@h\n\
         DATA\n\
         .\n\
         QUIT\n",
    );
    let (result, responses) = Connection::handle(&lines);

    assert_eq!(
        response_stream(&responses),
        "220 ready\n500 unexpected line\n250 OK\n250 OK\n250 OK\n354 Send message content\n250 OK\n221 Bye\n"
    );
    assert_eq!(result.get_sender_domain(), Some("h"));
}
