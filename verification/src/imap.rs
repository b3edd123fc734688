use vstd::prelude::*;
use crate::body::{has_plain, spec_section_path, BodyStructure};
use crate::chars::str_to_chars;
use crate::error::MailError;
use crate::inbox::{spec_parse_inbox, Inbox, InboxRangeStr};
use crate::message::{spec_parse_message, Message};
use crate::numbers::{dec_str, parses_as_usize, render_usize, usize_token_value};
use crate::strutil::{
    contains_exec, contains_seq, is_ws, matches_at, matches_at_exec, split_seq, split_seq_exec,
    trim_end_exec, trim_end_ws,
};

verus! {

/// What one response line means to the tagged command engine: more data, a
/// completed command, or a completed command the server rejected.
pub enum LineClass {
    Data,
    Complete,
    Rejected,
}

/// The protocol state of one IMAP connection: whether the session has
/// logged in, and which mailbox a `SELECT` has made current.
pub struct ImapSession {
    pub authenticated: bool,
    pub selected_inbox: Option<Inbox>,
}

/// The command line that logs in with the given credentials.
pub fn login_command(username: &str, password: &str) -> (r: String)
    ensures
        r@ == "? LOGIN \""@ + username@ + "\" \""@ + password@ + "\""@,
{
    let mut out = String::new();
    out.append("? LOGIN \"");
    out.append(username);
    out.append("\" \"");
    out.append(password);
    out.append("\"");
    proof {
        assert(out@ =~= "? LOGIN \""@ + username@ + "\" \""@ + password@ + "\""@);
    }
    out
}

/// The command line that lists every mailbox.
pub fn list_command() -> (r: String)
    ensures
        r@ == "? LIST \"*\" \"*\""@,
{
    let mut out = String::new();
    out.append("? LIST \"*\" \"*\"");
    proof {
        assert(out@ =~= "? LIST \"*\" \"*\""@);
    }
    out
}

/// The command line that fetches the header fields of a sequence-number
/// range.
pub fn fetch_headers_command(range: &InboxRangeStr) -> (r: String)
    ensures
        r@ == "? FETCH "@ + range.0@ + ":"@ + range.1@
            + " (FLAGS BODY.PEEK[HEADER.FIELDS (SUBJECT FROM TO CC BCC)])"@,
{
    let mut out = String::new();
    out.append("? FETCH ");
    out.append(range.0.as_str());
    out.append(":");
    out.append(range.1.as_str());
    out.append(" (FLAGS BODY.PEEK[HEADER.FIELDS (SUBJECT FROM TO CC BCC)])");
    proof {
        assert(out@ =~= "? FETCH "@ + range.0@ + ":"@ + range.1@
            + " (FLAGS BODY.PEEK[HEADER.FIELDS (SUBJECT FROM TO CC BCC)])"@);
    }
    out
}

/// The command line that fetches the body structure of one message.
pub fn fetch_body_structure_command(id: usize) -> (r: String)
    ensures
        r@ == "? FETCH "@ + dec_str(id as nat) + " (BODYSTRUCTURE)"@,
{
    let mut out = String::new();
    out.append("? FETCH ");
    let num = render_usize(id);
    out.append(num.as_str());
    out.append(" (BODYSTRUCTURE)");
    proof {
        assert(out@ =~= "? FETCH "@ + dec_str(id as nat) + " (BODYSTRUCTURE)"@);
    }
    out
}

/// The command line that fetches one body section of one message.
pub fn fetch_body_command(id: usize, section: &str) -> (r: String)
    ensures
        r@ == "? FETCH "@ + dec_str(id as nat) + " BODY["@ + section@ + "]"@,
{
    let mut out = String::new();
    out.append("? FETCH ");
    let num = render_usize(id);
    out.append(num.as_str());
    out.append(" BODY[");
    out.append(section);
    out.append("]");
    proof {
        assert(out@ =~= "? FETCH "@ + dec_str(id as nat) + " BODY["@ + section@ + "]"@);
    }
    out
}

/// The command that fetches the readable text of a message whose structure
/// is already parsed: it addresses the first plain-text leaf, and fails
/// exactly when the tree has none.
pub fn read_email_command(id: usize, structure: &BodyStructure) -> (r: Result<String, MailError>)
    ensures
        match r {
            Ok(cmd) => has_plain(structure@) && cmd@ == "? FETCH "@ + dec_str(id as nat)
                + " BODY["@ + spec_section_path(structure@)->0 + "]"@,
            Err(e) => !has_plain(structure@) && e is NoTextPart,
        },
{
    match structure.find_text() {
        Some(section) => Ok(fetch_body_command(id, section.as_str())),
        None => Err(MailError::NoTextPart),
    }
}

/// How the response reader treats one line: lines that do not start with the
/// tag accumulate; the tag line completes the command, and completes it as
/// rejected when it carries `BAD`.
pub fn classify_line(line: &str) -> (r: LineClass)
    ensures
        match r {
            LineClass::Data => !matches_at(line@, 0, "?"@),
            LineClass::Complete => matches_at(line@, 0, "?"@) && !contains_seq(line@, "BAD"@),
            LineClass::Rejected => matches_at(line@, 0, "?"@) && contains_seq(line@, "BAD"@),
        },
{
    let chars = str_to_chars(line);
    let tag = str_to_chars("?");
    if !matches_at_exec(chars.as_slice(), 0, tag.as_slice()) {
        return LineClass::Data;
    }
    let bad = str_to_chars("BAD");
    proof {
        reveal_strlit("BAD");
    }
    if contains_exec(chars.as_slice(), bad.as_slice()) {
        LineClass::Rejected
    } else {
        LineClass::Complete
    }
}

/// Accumulates one command's response line by line: data lines collect in
/// order; the tag line completes the response, which is all accumulated text
/// with the terminator line excluded; a tag line carrying `BAD` rejects the
/// command with the raw server line preserved.
pub struct ResponseAccumulator {
    text: String,
}

impl ResponseAccumulator {
    /// The text accumulated so far.
    pub closed spec fn text_view(self) -> Seq<char> {
        self.text@
    }

    pub fn new() -> (r: ResponseAccumulator)
        ensures
            r.text_view() == Seq::<char>::empty(),
    {
        ResponseAccumulator { text: String::new() }
    }

    /// Takes one line: `Ok(false)` keeps reading with the line appended,
    /// `Ok(true)` completes the response with the line excluded, and a
    /// rejected command carries the server's line back.
    pub fn take_line(&mut self, line: &str) -> (r: Result<bool, MailError>)
        ensures
            match r {
                Ok(done) => {
                    &&& done == matches_at(line@, 0, "?"@)
                    &&& !(matches_at(line@, 0, "?"@) && contains_seq(line@, "BAD"@))
                    &&& final(self).text_view() == if done {
                        old(self).text_view()
                    } else {
                        old(self).text_view() + line@
                    }
                },
                Err(e) => {
                    &&& matches_at(line@, 0, "?"@) && contains_seq(line@, "BAD"@)
                    &&& e matches MailError::CommandRejected(t) && t@ == line@
                    &&& final(self).text_view() == old(self).text_view()
                },
            },
    {
        match classify_line(line) {
            LineClass::Data => {
                self.text.append(line);
                Ok(false)
            },
            LineClass::Complete => Ok(true),
            LineClass::Rejected => Err(MailError::CommandRejected(line.to_owned())),
        }
    }

    /// Hands the accumulated response out.
    pub fn into_text(self) -> (r: String)
        ensures
            r@ == self.text_view(),
    {
        self.text
    }
}

/// Whether the reply to a `LOGIN` accepts the credentials: a tag line that
/// carries `BAD` is a rejection, and the session stays unauthenticated.
pub fn login_reply_ok(line: &str) -> (r: Result<(), MailError>)
    ensures
        r is Ok <==> !(matches_at(line@, 0, "?"@) && contains_seq(line@, "BAD"@)),
        r matches Err(e) ==> e is Auth,
{
    match classify_line(line) {
        LineClass::Rejected => Err(MailError::Auth),
        _ => Ok(()),
    }
}

pub open spec fn inbox_views(s: Seq<Inbox>) -> Seq<(Seq<char>, bool, bool)> {
    s.map_values(|ib: Inbox| (ib.name@, ib.selectable, ib.has_children))
}

/// The parse of a whole `LIST` response: trailing whitespace dropped, one
/// mailbox per line, and any malformed line spoils the whole response.
pub open spec fn spec_parse_list(s: Seq<char>) -> Option<Seq<(Seq<char>, bool, bool)>> {
    let ls = split_seq(trim_end_ws(s), seq!['\n']);
    if forall|i: int| 0 <= i < ls.len() ==> spec_parse_inbox(#[trigger] ls[i]) is Some {
        Some(Seq::new(ls.len(), |i: int| spec_parse_inbox(ls[i])->0))
    } else {
        None
    }
}

/// Parses a `LIST` response into mailboxes, exactly as `spec_parse_list`
/// says.
pub fn parse_list_response(resp: &str) -> (r: Result<Vec<Inbox>, MailError>)
    ensures
        match r {
            Ok(ibs) => spec_parse_list(resp@) == Some(inbox_views(ibs@)),
            Err(e) => spec_parse_list(resp@) is None && e is Parse,
        },
{
    let chars = str_to_chars(resp);
    let trimmed = trim_end_exec(chars.as_slice());
    let nl: [char; 1] = ['\n'];
    let ls = split_seq_exec(trimmed.as_slice(), nl.as_slice());
    proof {
        assert(nl@ =~= seq!['\n']);
    }
    let ghost lsd = ls.deep_view();
    let mut out: Vec<Inbox> = Vec::new();
    let mut i: usize = 0;
    while i < ls.len()
        invariant
            i <= ls@.len(),
            ls.deep_view() == lsd,
            lsd == split_seq(trim_end_ws(resp@), seq!['\n']),
            out@.len() == i as int,
            forall|j: int| 0 <= j < i ==> spec_parse_inbox(#[trigger] lsd[j]) is Some,
            forall|j: int|
                0 <= j < i ==> spec_parse_inbox(lsd[j])->0 == (
                #[trigger] out@[j].name@,
                out@[j].selectable,
                out@[j].has_children,
                ),
        decreases ls@.len() - i,
    {
        proof {
            assert(lsd[i as int] == ls@[i as int]@);
        }
        let line = crate::chars::chars_to_string(ls[i].as_slice());
        match Inbox::parse(line.as_str()) {
            Ok(ib) => {
                out.push(ib);
            },
            Err(_) => {
                proof {
                    assert(spec_parse_inbox(lsd[i as int]) is None);
                }
                return Err(MailError::Parse);
            },
        }
        i = i + 1;
    }
    proof {
        assert(inbox_views(out@) =~= Seq::new(lsd.len(), |j: int| spec_parse_inbox(lsd[j])->0));
    }
    Ok(out)
}

/// The start of the whitespace-free run that ends at `e`.
pub open spec fn run_start(s: Seq<char>, e: int) -> int
    decreases e,
{
    if e <= 0 {
        0
    } else if is_ws(s[e - 1]) {
        e
    } else {
        run_start(s, e - 1)
    }
}

/// The last whitespace-delimited token of the text, if any.
pub open spec fn spec_last_token(s: Seq<char>) -> Option<Seq<char>> {
    let t = trim_end_ws(s);
    if t.len() == 0 {
        None
    } else {
        Some(t.subrange(run_start(t, t.len() as int), t.len() as int))
    }
}

/// The message count in a `STATUS ... (MESSAGES n)` reply: the last token
/// less its final character (the closing parenthesis), read as a number.
pub open spec fn spec_status_count(s: Seq<char>) -> Option<int> {
    match spec_last_token(s) {
        None => None,
        Some(tok) => {
            let num = tok.drop_last();
            if parses_as_usize(num) {
                Some(usize_token_value(num))
            } else {
                None
            }
        },
    }
}

proof fn lemma_run_start_le(s: Seq<char>, e: int)
    requires
        e >= 0,
    ensures
        0 <= run_start(s, e) <= e,
    decreases e,
{
    if e > 0 && !is_ws(s[e - 1]) {
        lemma_run_start_le(s, e - 1);
    }
}

fn run_start_exec(v: &[char], e: usize) -> (r: usize)
    requires
        e <= v@.len(),
    ensures
        r as int == run_start(v@, e as int),
        r <= e,
    decreases e,
{
    if e == 0 {
        return 0;
    }
    let c = v[e - 1];
    if c == ' ' || c == '\t' || c == '\r' || c == '\n' {
        e
    } else {
        run_start_exec(v, e - 1)
    }
}

/// Parses the message count out of a `STATUS` reply, exactly as
/// `spec_status_count` says.
pub fn parse_status_count(resp: &str) -> (r: Result<usize, MailError>)
    ensures
        match r {
            Ok(n) => spec_status_count(resp@) == Some(n as int),
            Err(e) => spec_status_count(resp@) is None && e is Parse,
        },
{
    let chars = str_to_chars(resp);
    let t = trim_end_exec(chars.as_slice());
    if t.len() == 0 {
        return Err(MailError::Parse);
    }
    let start = run_start_exec(t.as_slice(), t.len());
    proof {
        crate::strutil::lemma_trim_end_last(resp@);
        assert(!is_ws(t@.last()));
        assert(run_start(t@, t@.len() as int) == run_start(t@, t@.len() - 1));
        lemma_run_start_le(t@, t@.len() - 1);
        assert(start < t@.len());
    }
    let tok = vstd::slice::slice_subrange(t.as_slice(), start, t.len());
    proof {
        assert(tok@.drop_last() =~= t@.subrange(start as int, t@.len() - 1));
    }
    let num = vstd::slice::slice_subrange(tok, 0, tok.len() - 1);
    match crate::numbers::parse_usize_token(num) {
        Some(n) => Ok(n),
        None => Err(MailError::Parse),
    }
}

pub open spec fn message_views(s: Seq<Message>) -> Seq<crate::message::MessageView> {
    s.map_values(|m: Message| m@)
}

/// The parse of a whole header-fetch response: the text splits at each
/// response-start delimiter into one block per message, and any malformed
/// block spoils the whole response.
pub open spec fn spec_parse_headers(s: Seq<char>) -> Option<Seq<crate::message::MessageView>> {
    let bs = split_seq(s, "\n*"@);
    if forall|i: int| 0 <= i < bs.len() ==> spec_parse_message(#[trigger] bs[i]) is Some {
        Some(Seq::new(bs.len(), |i: int| spec_parse_message(bs[i])->0))
    } else {
        None
    }
}

/// Parses a header-fetch response into messages, exactly as
/// `spec_parse_headers` says.
pub fn parse_headers_response(resp: &str) -> (r: Result<Vec<Message>, MailError>)
    ensures
        match r {
            Ok(ms) => spec_parse_headers(resp@) == Some(message_views(ms@)),
            Err(e) => spec_parse_headers(resp@) is None && e is Parse,
        },
{
    let chars = str_to_chars(resp);
    let delim = str_to_chars("\n*");
    proof {
        reveal_strlit("\n*");
    }
    let bs = split_seq_exec(chars.as_slice(), delim.as_slice());
    let ghost bsd = bs.deep_view();
    let mut out: Vec<Message> = Vec::new();
    let mut i: usize = 0;
    while i < bs.len()
        invariant
            i <= bs@.len(),
            bs.deep_view() == bsd,
            bsd == split_seq(resp@, "\n*"@),
            out@.len() == i as int,
            forall|j: int| 0 <= j < i ==> spec_parse_message(#[trigger] bsd[j]) is Some,
            forall|j: int| 0 <= j < i ==> spec_parse_message(bsd[j])->0 == #[trigger] out@[j]@,
        decreases bs@.len() - i,
    {
        proof {
            assert(bsd[i as int] == bs@[i as int]@);
        }
        let block = crate::chars::chars_to_string(bs[i].as_slice());
        match Message::parse(block.as_str()) {
            Ok(m) => {
                out.push(m);
            },
            Err(_) => {
                proof {
                    assert(spec_parse_message(bsd[i as int]) is None);
                }
                return Err(MailError::Parse);
            },
        }
        i = i + 1;
    }
    proof {
        assert(message_views(out@) =~= Seq::new(
            bsd.len(),
            |j: int| spec_parse_message(bsd[j])->0,
        ));
    }
    Ok(out)
}

impl ImapSession {
    /// A fresh connection: not authenticated, nothing selected.
    pub fn new() -> (r: ImapSession)
        ensures
            !r.authenticated,
            r.selected_inbox is None,
    {
        ImapSession { authenticated: false, selected_inbox: None }
    }

    /// Records that the server accepted the login.
    pub fn confirm_login(&mut self)
        ensures
            final(self).authenticated,
            final(self).selected_inbox == old(self).selected_inbox,
    {
        self.authenticated = true;
    }

    /// The `SELECT` command for a mailbox, refused locally — before any
    /// network round trip — when the mailbox is not selectable.
    pub fn select_command(&self, inbox: &Inbox) -> (r: Result<String, MailError>)
        ensures
            match r {
                Ok(cmd) => inbox.selectable && cmd@ == "? SELECT \""@ + inbox.name@ + "\""@,
                Err(e) => !inbox.selectable && e is NotSelectable,
            },
    {
        if !inbox.selectable {
            return Err(MailError::NotSelectable);
        }
        let mut out = String::new();
        out.append("? SELECT \"");
        out.append(inbox.name.as_str());
        out.append("\"");
        proof {
            assert(out@ =~= "? SELECT \""@ + inbox.name@ + "\""@);
        }
        Ok(out)
    }

    /// Records that the server accepted the selection.
    pub fn confirm_select(&mut self, inbox: Inbox)
        ensures
            final(self).selected_inbox == Some(inbox),
            final(self).authenticated == old(self).authenticated,
    {
        self.selected_inbox = Some(inbox);
    }

    /// The `STATUS` command asking for the message count of the selected
    /// mailbox; there must be a selection.
    pub fn status_command(&self) -> (r: Result<String, MailError>)
        ensures
            match r {
                Ok(cmd) => self.selected_inbox matches Some(ib) && cmd@ == "? STATUS "@ + ib.name@
                    + " (MESSAGES)"@,
                Err(e) => self.selected_inbox is None && e is NoSelection,
            },
    {
        match &self.selected_inbox {
            None => Err(MailError::NoSelection),
            Some(ib) => {
                let mut out = String::new();
                out.append("? STATUS ");
                out.append(ib.name.as_str());
                out.append(" (MESSAGES)");
                proof {
                    assert(out@ =~= "? STATUS "@ + ib.name@ + " (MESSAGES)"@);
                }
                Ok(out)
            },
        }
    }
}

} // verus!
