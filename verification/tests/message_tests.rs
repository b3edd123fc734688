use mailcore::error::MailError;
use mailcore::message::{Contact, Message};

const HEADER_BLOCK: &'static str = "* 17 FETCH (FLAGS (\\Seen) BODY[HEADER.FIELDS (SUBJECT FROM TO CC BCC)]\r\nSubject: Hello there\r\nFrom: Alice <alice@example.com>\r\nTo: Bob <bob@example.com>, carol@example.com\r\n\r\n";

#[test]
fn parse_header_block() {
    let m = Message::parse(HEADER_BLOCK).unwrap();
    assert_eq!(m.id, 17);
    assert!(m.read);
    assert_eq!(m.subject.as_str(), "Hello there");
    assert_eq!(m.from.name.as_deref(), Some("Alice "));
    assert_eq!(m.from.email.as_str(), "alice@example.com");
    let to = m.to.as_ref().unwrap();
    assert_eq!(to.len(), 2);
    assert_eq!(to[0].name.as_deref(), Some("Bob "));
    assert_eq!(to[0].email.as_str(), "bob@example.com");
    assert_eq!(to[1].name, None);
    assert_eq!(to[1].email.as_str(), " carol@example.com");
    assert!(m.cc.is_none());
    assert!(m.bcc.is_none());
}

#[test]
fn parse_unread_block() {
    let block = "* 3 FETCH (FLAGS ())\r\nSubject: x\r\nFrom: a@b.c\r\n";
    let m = Message::parse(block).unwrap();
    assert_eq!(m.id, 3);
    assert!(!m.read);
    assert_eq!(m.from.email.as_str(), "a@b.c");
    assert_eq!(m.from.name, None);
}

#[test]
fn missing_subject_fails() {
    let block = "* 3 FETCH (FLAGS ())\r\nFrom: a@b.c\r\n";
    assert!(matches!(Message::parse(block), Err(MailError::Parse)));
}

#[test]
fn missing_from_fails() {
    let block = "* 3 FETCH (FLAGS ())\r\nSubject: x\r\n";
    assert!(matches!(Message::parse(block), Err(MailError::Parse)));
}

#[test]
fn missing_id_fails() {
    let block = "* FETCH\r\nSubject: x\r\nFrom: a@b.c\r\n";
    assert!(matches!(Message::parse(block), Err(MailError::Parse)));
}

#[test]
fn last_header_line_wins() {
    let block = "* 9 FETCH ()\r\nSubject: first\r\nFrom: a@b.c\r\nSubject: second\r\n";
    let m = Message::parse(block).unwrap();
    assert_eq!(m.subject.as_str(), "second");
}

#[test]
fn unparsable_address_entry_clears_the_list() {
    let block = "* 9 FETCH ()\r\nSubject: s\r\nFrom: a@b.c\r\nTo: good@x.y, bad<\r\n";
    let m = Message::parse(block).unwrap();
    assert!(m.to.is_none());
}

#[test]
fn contact_parse_bare_and_named() {
    let bare = Contact::parse("a@b.c").unwrap();
    assert_eq!(bare.name, None);
    assert_eq!(bare.email.as_str(), "a@b.c");
    let named = Contact::parse("Dana <dana@b.c>").unwrap();
    assert_eq!(named.name.as_deref(), Some("Dana "));
    assert_eq!(named.email.as_str(), "dana@b.c");
    assert!(Contact::parse("dangling<").is_none());
}

#[test]
fn contact_render_forms() {
    let named = Contact { name: Some("Dana".to_string()), email: "dana@b.c".to_string() };
    assert_eq!(named.render().as_str(), "Dana (dana@b.c)");
    let bare = Contact { name: None, email: "a@b.c".to_string() };
    assert_eq!(bare.render().as_str(), "a@b.c");
}

#[test]
fn message_render_layout() {
    let m = Message {
        id: 1,
        subject: "Hi".to_string(),
        from: Contact { name: None, email: "a@b.c".to_string() },
        to: Some(vec![
            Contact { name: None, email: "x@y.z".to_string() },
            Contact { name: Some("W".to_string()), email: "w@y.z".to_string() },
        ]),
        cc: None,
        bcc: None,
        read: false,
    };
    assert_eq!(m.render().as_str(), "From: a@b.c\nTo: x@y.z,W (w@y.z)\nSubject: Hi\n");
}
