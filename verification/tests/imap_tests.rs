use mailcore::body::BodyStructure;
use mailcore::error::MailError;
use mailcore::imap::{
    classify_line, fetch_body_command, fetch_body_structure_command, fetch_headers_command,
    list_command, login_command, login_reply_ok, parse_headers_response, parse_list_response,
    parse_status_count, read_email_command, ImapSession, LineClass, ResponseAccumulator,
};
use mailcore::inbox::{Inbox, InboxRangeStr, RangeEdge};

#[test]
fn command_lines() {
    assert_eq!(login_command("u", "p").as_str(), "? LOGIN \"u\" \"p\"");
    assert_eq!(list_command().as_str(), "? LIST \"*\" \"*\"");
    let range = InboxRangeStr::from_bounds(RangeEdge::Unbounded, RangeEdge::Included(9));
    assert_eq!(
        fetch_headers_command(&range).as_str(),
        "? FETCH *:9 (FLAGS BODY.PEEK[HEADER.FIELDS (SUBJECT FROM TO CC BCC)])"
    );
    assert_eq!(fetch_body_structure_command(42).as_str(), "? FETCH 42 (BODYSTRUCTURE)");
    assert_eq!(fetch_body_command(42, "1.2").as_str(), "? FETCH 42 BODY[1.2]");
}

#[test]
fn classify_response_lines() {
    assert!(matches!(classify_line("* LIST () \"/\" \"INBOX\""), LineClass::Data));
    assert!(matches!(classify_line("? OK LIST completed"), LineClass::Complete));
    assert!(matches!(classify_line("? BAD unknown command"), LineClass::Rejected));
}

#[test]
fn login_rejection_is_an_auth_failure() {
    assert!(login_reply_ok("? OK LOGIN completed").is_ok());
    assert!(matches!(login_reply_ok("? BAD invalid credentials"), Err(MailError::Auth)));
}

#[test]
fn status_count_parses_trailing_number() {
    assert_eq!(parse_status_count("* STATUS INBOX (MESSAGES 42)\r\n").unwrap(), 42);
    assert!(matches!(
        parse_status_count("* STATUS INBOX (MESSAGES)\r\n"),
        Err(MailError::Parse)
    ));
    assert!(matches!(parse_status_count("   \r\n"), Err(MailError::Parse)));
}

#[test]
fn list_response_parses_every_line() {
    let resp = "* LIST (\\HasNoChildren) \"/\" \"INBOX\"\r\n* LIST (\\Noselect) \"/\" \"[Gmail]\"\r\n";
    let boxes = parse_list_response(resp).unwrap();
    assert_eq!(boxes.len(), 2);
    assert_eq!(boxes[0].name.as_str(), "INBOX");
    assert!(boxes[0].selectable);
    assert_eq!(boxes[1].name.as_str(), "[Gmail]");
    assert!(!boxes[1].selectable);
}

#[test]
fn list_response_rejects_bad_line() {
    let resp = "* LIST (\\HasNoChildren) \"/\" \"INBOX\"\r\nno quotes in this line\r\n";
    assert!(matches!(parse_list_response(resp), Err(MailError::Parse)));
}

#[test]
fn headers_response_splits_blocks() {
    let resp = "* 2 FETCH ()\r\nSubject: a\r\nFrom: a@b.c\r\n\n* 1 FETCH ()\r\nSubject: b\r\nFrom: d@e.f\r\n";
    let ms = parse_headers_response(resp).unwrap();
    assert_eq!(ms.len(), 2);
    assert_eq!(ms[0].id, 2);
    assert_eq!(ms[0].subject.as_str(), "a");
    assert_eq!(ms[1].id, 1);
    assert_eq!(ms[1].subject.as_str(), "b");
}

#[test]
fn select_checks_locally() {
    let mut session = ImapSession::new();
    let dead = Inbox { name: "[Gmail]".to_string(), selectable: false, has_children: true };
    assert!(matches!(session.select_command(&dead), Err(MailError::NotSelectable)));
    assert!(matches!(session.status_command(), Err(MailError::NoSelection)));
    let inbox = Inbox { name: "INBOX".to_string(), selectable: true, has_children: false };
    let cmd = session.select_command(&inbox).unwrap();
    assert_eq!(cmd.as_str(), "? SELECT \"INBOX\"");
    session.confirm_select(inbox);
    assert_eq!(session.status_command().unwrap().as_str(), "? STATUS INBOX (MESSAGES)");
}

#[test]
fn read_email_command_needs_a_text_part() {
    let with_text = BodyStructure::Alternative(
        vec![BodyStructure::Html, BodyStructure::Plain],
        "b".to_string(),
    );
    assert_eq!(read_email_command(7, &with_text).unwrap().as_str(), "? FETCH 7 BODY[2]");
    let without = BodyStructure::Html;
    assert!(matches!(read_email_command(7, &without), Err(MailError::NoTextPart)));
}

#[test]
fn response_accumulates_data_lines() {
    let mut acc = ResponseAccumulator::new();
    assert_eq!(acc.take_line("* LIST a\r\n").unwrap(), false);
    assert_eq!(acc.take_line("* LIST b\r\n").unwrap(), false);
    assert_eq!(acc.take_line("? OK done\r\n").unwrap(), true);
    assert_eq!(acc.into_text().as_str(), "* LIST a\r\n* LIST b\r\n");
}

#[test]
fn rejected_response_keeps_the_server_line() {
    let mut acc = ResponseAccumulator::new();
    match acc.take_line("? BAD nope\r\n") {
        Err(MailError::CommandRejected(t)) => assert_eq!(t.as_str(), "? BAD nope\r\n"),
        other => panic!("expected a rejection, got {:?}", other),
    }
}
