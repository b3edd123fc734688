use mailcore::error::MailError;
use mailcore::inbox::{Inbox, InboxRangeStr, RangeEdge};

#[test]
fn test_parse() {
    let test = "* LIST (\\HasNoChildren) \"/\" \"Deleted Messages\"";
    let inbox: Inbox = Inbox::parse(test).expect("Inbox parse fails");
    assert_eq!(inbox.name.as_str(), "Deleted Messages");
    assert!(!inbox.has_children);
    assert!(inbox.selectable);
}

#[test]
fn parse_noselect_flag() {
    let test = "* LIST (\\Noselect) \"/\" \"[Gmail]\"";
    let inbox = Inbox::parse(test).unwrap();
    assert_eq!(inbox.name.as_str(), "[Gmail]");
    assert!(!inbox.selectable);
    assert!(inbox.has_children);
}

#[test]
fn parse_line_without_quotes_fails() {
    let res = Inbox::parse("* LIST (\\HasNoChildren) nothing quoted");
    assert!(matches!(res, Err(MailError::Parse)));
}

#[test]
fn parse_line_with_single_quote_fails() {
    // one quote character is no quoted name
    let res = Inbox::parse("* LIST (\\HasNoChildren) / \"half");
    assert!(matches!(res, Err(MailError::Parse)));
}

#[test]
fn range_unbounded_start_inclusive_end() {
    let r = InboxRangeStr::from_bounds(RangeEdge::Unbounded, RangeEdge::Included(17));
    assert_eq!(r.0.as_str(), "*");
    assert_eq!(r.1.as_str(), "17");
}

#[test]
fn range_inclusive_inclusive() {
    let r = InboxRangeStr::from_bounds(RangeEdge::Included(20), RangeEdge::Included(60830));
    assert_eq!(r.0.as_str(), "20");
    assert_eq!(r.1.as_str(), "60830");
}

#[test]
fn range_exclusive_edges() {
    let r = InboxRangeStr::from_bounds(RangeEdge::Excluded(5), RangeEdge::Excluded(9));
    assert_eq!(r.0.as_str(), "6");
    assert_eq!(r.1.as_str(), "8");
}
