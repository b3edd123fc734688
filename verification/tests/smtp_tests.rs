use mailcore::error::MailError;
use mailcore::smtp::{check_reply, find_reply_code, SmtpSession};

#[test]
fn reply_code_is_first_numeric_token() {
    assert_eq!(find_reply_code("220 smtp.example.com ESMTP ready"), Some(220));
    assert_eq!(find_reply_code("250-smtp.example.com at your service"), None);
    assert_eq!(find_reply_code("ok 354 go ahead"), Some(354));
    assert_eq!(find_reply_code("no code here"), None);
}

#[test]
fn check_reply_exact_match() {
    assert!(check_reply(250, 250).is_ok());
    match check_reply(220, 554) {
        Err(MailError::UnexpectedReply { expected, actual }) => {
            assert_eq!(expected, 220);
            assert_eq!(actual, 554);
        }
        other => panic!("expected a reply mismatch, got {:?}", other),
    }
}

#[test]
fn greeting_mismatch_fails_connect() {
    let mut session = SmtpSession::new();
    match session.handle_greeting(554) {
        Err(MailError::UnexpectedReply { expected, actual }) => {
            assert_eq!(expected, 220);
            assert_eq!(actual, 554);
        }
        other => panic!("expected a reply mismatch, got {:?}", other),
    }
    assert!(!session.greeted);
    assert!(session.handle_greeting(220).is_ok());
    assert!(session.greeted);
}

#[test]
fn login_script_lines_and_codes() {
    let mut session = SmtpSession::new();
    session.handle_greeting(220).unwrap();
    let script = session.login_script("user@example.com", "hunter2").unwrap();
    assert_eq!(script.len(), 4);
    assert_eq!(script[0].0.as_str(), "EHLO example.com\r\n");
    assert_eq!(script[0].1, 250);
    assert_eq!(script[1].0.as_str(), "AUTH LOGIN\r\n");
    assert_eq!(script[1].1, 334);
    assert_eq!(script[2].0.as_str(), "dXNlckBleGFtcGxlLmNvbQ==\r\n");
    assert_eq!(script[2].1, 334);
    assert_eq!(script[3].0.as_str(), "aHVudGVyMg==\r\n");
    assert_eq!(script[3].1, 235);
}

#[test]
fn login_script_needs_a_domain() {
    let session = SmtpSession::new();
    assert!(matches!(session.login_script("nodomain", "pw"), Err(MailError::Parse)));
}

#[test]
fn send_script_order_and_payload() {
    let mut session = SmtpSession::new();
    session.handle_greeting(220).unwrap();
    session.confirm_login("user@example.com".to_string());
    let to = vec!["a@x.y".to_string(), "b@x.y".to_string()];
    let cc = Some(vec!["c@x.y".to_string()]);
    let script = session
        .send_email_script(&to, &cc, &None, "Subject line", "body text")
        .unwrap();
    assert_eq!(script.len(), 6);
    assert_eq!(script[0].0.as_str(), "MAIL FROM:<user@example.com>\r\n");
    assert_eq!(script[0].1, 250);
    assert_eq!(script[1].0.as_str(), "RCPT TO:<a@x.y>\r\n");
    assert_eq!(script[2].0.as_str(), "RCPT TO:<b@x.y>\r\n");
    assert_eq!(script[3].0.as_str(), "RCPT TO:<c@x.y>\r\n");
    assert_eq!(script[3].1, 250);
    assert_eq!(script[4].0.as_str(), "DATA\r\n");
    assert_eq!(script[4].1, 354);
    assert_eq!(
        script[5].0.as_str(),
        "Subject: Subject line\r\nTo: a@x.y, b@x.y\r\nCc: c@x.y\r\nbody text\r\n.\r\n"
    );
    assert_eq!(script[5].1, 250);
}

#[test]
fn send_script_needs_login() {
    let session = SmtpSession::new();
    let to = vec!["a@x.y".to_string()];
    assert!(matches!(
        session.send_email_script(&to, &None, &None, "s", "b"),
        Err(MailError::Auth)
    ));
}
