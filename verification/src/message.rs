use vstd::prelude::*;
use crate::chars::{chars_to_string, str_to_chars};
use crate::error::MailError;
use crate::numbers::{first_numeric_word, parse_usize_token, usize_token_value};
use crate::strutil::{
    contains_exec, contains_seq, find_char, find_char_exec, join_exec, join_seq, lines_exec,
    matches_at, matches_at_exec, spec_lines, split_seq, split_seq_exec,
};
use vstd::slice::{slice_subrange, slice_to_vec};

verus! {

/// One address of a header field: an optional display name and the address
/// itself.
#[derive(Debug, Clone)]
pub struct Contact {
    pub name: Option<String>,
    pub email: String,
}

/// The mathematical model of a `Contact`.
pub struct ContactView {
    pub name: Option<Seq<char>>,
    pub email: Seq<char>,
}

impl View for Contact {
    type V = ContactView;

    open spec fn view(&self) -> ContactView {
        ContactView {
            name: match self.name {
                Some(n) => Some(n@),
                None => None,
            },
            email: self.email@,
        }
    }
}

pub open spec fn contact_views(s: Seq<Contact>) -> Seq<ContactView> {
    s.map_values(|c: Contact| c@)
}

/// The parse of one address: with no `'<'` the whole text is the address;
/// otherwise the text before the first `'<'` is the display name and the
/// text after it, less its final character (the closing `'>'`), is the
/// address. Text that ends directly after the `'<'` is malformed.
pub open spec fn spec_parse_contact(s: Seq<char>) -> Option<ContactView> {
    match find_char(s, '<', 0) {
        None => Some(ContactView { name: None, email: s }),
        Some(i) => {
            let rest = s.subrange(i + 1, s.len() as int);
            if rest.len() == 0 {
                None
            } else {
                Some(ContactView { name: Some(s.subrange(0, i)), email: rest.drop_last() })
            }
        },
    }
}

fn parse_contact_chars(v: &[char]) -> (r: Option<Contact>)
    ensures
        match r {
            Some(c) => spec_parse_contact(v@) == Some(c@),
            None => spec_parse_contact(v@) is None,
        },
{
    proof {
        vstd::slice::axiom_spec_len(v);
    }
    match find_char_exec(v, '<', 0) {
        None => {
            let whole = slice_to_vec(slice_subrange(v, 0, v.len()));
            proof {
                assert(v@.subrange(0, v@.len() as int) =~= v@);
            }
            Some(Contact { name: None, email: chars_to_string(whole.as_slice()) })
        },
        Some(i) => {
            if i + 1 >= v.len() {
                proof {
                    assert(v@.subrange(i + 1, v@.len() as int).len() == 0);
                }
                return None;
            }
            let name_chars = slice_to_vec(slice_subrange(v, 0, i));
            let email_chars = slice_to_vec(slice_subrange(v, i + 1, v.len() - 1));
            proof {
                assert(v@.subrange(i + 1, v@.len() - 1) =~= v@.subrange(
                    i + 1,
                    v@.len() as int,
                ).drop_last());
            }
            Some(
                Contact {
                    name: Some(chars_to_string(name_chars.as_slice())),
                    email: chars_to_string(email_chars.as_slice()),
                },
            )
        },
    }
}

impl Contact {
    /// Parses one address, exactly as `spec_parse_contact` says.
    pub fn parse(s: &str) -> (r: Option<Contact>)
        ensures
            match r {
                Some(c) => spec_parse_contact(s@) == Some(c@),
                None => spec_parse_contact(s@) is None,
            },
    {
        let chars = str_to_chars(s);
        parse_contact_chars(chars.as_slice())
    }

    /// The display text of an address: `name (email)`, or the bare address
    /// when there is no name.
    pub fn render(&self) -> (r: String)
        ensures
            r@ == contact_text(self@),
    {
        match &self.name {
            Some(n) => {
                let mut out = String::new();
                out.append(n.as_str());
                out.append(" (");
                out.append(self.email.as_str());
                out.append(")");
                proof {
                    assert(out@ =~= contact_text(self@));
                }
                out
            },
            None => self.email.clone(),
        }
    }
}

pub open spec fn contact_text(c: ContactView) -> Seq<char> {
    match c.name {
        Some(n) => n + " ("@ + c.email + ")"@,
        None => c.email,
    }
}

pub open spec fn contact_list_text(cs: Seq<ContactView>) -> Seq<char> {
    join_seq(cs.map_values(|c: ContactView| contact_text(c)), seq![','])
}

/// One message header block: sequence number, subject, sender, the optional
/// address lists, and the read flag.
#[derive(Debug, Clone)]
pub struct Message {
    pub id: usize,
    pub subject: String,
    pub from: Contact,
    pub to: Option<Vec<Contact>>,
    pub cc: Option<Vec<Contact>>,
    pub bcc: Option<Vec<Contact>>,
    pub read: bool,
}

/// The mathematical model of a `Message`.
pub struct MessageView {
    pub id: int,
    pub subject: Seq<char>,
    pub from: ContactView,
    pub to: Option<Seq<ContactView>>,
    pub cc: Option<Seq<ContactView>>,
    pub bcc: Option<Seq<ContactView>>,
    pub read: bool,
}

pub open spec fn opt_contacts_view(o: Option<Vec<Contact>>) -> Option<Seq<ContactView>> {
    match o {
        Some(cs) => Some(contact_views(cs@)),
        None => None,
    }
}

impl View for Message {
    type V = MessageView;

    open spec fn view(&self) -> MessageView {
        MessageView {
            id: self.id as int,
            subject: self.subject@,
            from: self.from@,
            to: opt_contacts_view(self.to),
            cc: opt_contacts_view(self.cc),
            bcc: opt_contacts_view(self.bcc),
            read: self.read,
        }
    }
}

/// The value of the last header line (skipping the first line of the block)
/// that starts with `key`: the text from position `off` on, empty where the
/// line is shorter.
pub open spec fn spec_header_value(lines: Seq<Seq<char>>, key: Seq<char>, off: int) -> Option<
    Seq<char>,
>
    decreases lines.len(),
{
    if lines.len() <= 1 {
        None
    } else {
        let l = lines.last();
        if matches_at(l, 0, key) {
            Some(
                if l.len() >= off {
                    l.subrange(off, l.len() as int)
                } else {
                    Seq::empty()
                },
            )
        } else {
            spec_header_value(lines.drop_last(), key, off)
        }
    }
}

/// A comma-separated address list; one malformed entry spoils the whole
/// list.
pub open spec fn spec_contact_list(v: Seq<char>) -> Option<Seq<ContactView>> {
    let ps = split_seq(v, seq![',']);
    if forall|i: int| 0 <= i < ps.len() ==> spec_parse_contact(#[trigger] ps[i]) is Some {
        Some(Seq::new(ps.len(), |i: int| spec_parse_contact(ps[i])->0))
    } else {
        None
    }
}

/// The parse of one `FETCH` header block. The sequence number is the first
/// space-separated word that reads as a number; the block is read exactly
/// when it contains `\Seen`; the header lines after the first give subject,
/// sender and address lists, the last occurrence of each key winning.
/// Subject and sender are mandatory; an address list with a malformed entry
/// is treated as absent.
pub open spec fn spec_parse_message(s: Seq<char>) -> Option<MessageView> {
    let id = first_numeric_word(split_seq(s, seq![' ']), 0);
    let lines = spec_lines(s);
    let subject = spec_header_value(lines, "Subject:"@, 9);
    let from_txt = spec_header_value(lines, "From:"@, 6);
    if id is None || subject is None || from_txt is None {
        None
    } else {
        match spec_parse_contact(from_txt->0) {
            None => None,
            Some(from) => Some(
                MessageView {
                    id: id->0,
                    subject: subject->0,
                    from: from,
                    to: match spec_header_value(lines, "To:"@, 4) {
                        None => None,
                        Some(v) => spec_contact_list(v),
                    },
                    cc: match spec_header_value(lines, "Cc:"@, 4) {
                        None => None,
                        Some(v) => spec_contact_list(v),
                    },
                    bcc: match spec_header_value(lines, "Bcc:"@, 5) {
                        None => None,
                        Some(v) => spec_contact_list(v),
                    },
                    read: contains_seq(s, "\\Seen"@),
                },
            ),
        }
    }
}

fn find_id(ws: &Vec<Vec<char>>, k: usize) -> (r: Option<usize>)
    requires
        k <= ws@.len(),
    ensures
        match r {
            Some(v) => first_numeric_word(ws.deep_view(), k as int) == Some(v as int),
            None => first_numeric_word(ws.deep_view(), k as int) is None,
        },
    decreases ws@.len() - k,
{
    if k >= ws.len() {
        return None;
    }
    proof {
        assert(ws.deep_view()[k as int] == ws@[k as int]@);
    }
    match parse_usize_token(ws[k].as_slice()) {
        Some(v) => Some(v),
        None => find_id(ws, k + 1),
    }
}

fn header_value(lines: &Vec<Vec<char>>, n: usize, key: &[char], off: usize) -> (r: Option<
    Vec<char>,
>)
    requires
        n <= lines@.len(),
    ensures
        match r {
            Some(v) => spec_header_value(lines.deep_view().subrange(0, n as int), key@, off as int)
                == Some(v@),
            None => spec_header_value(lines.deep_view().subrange(0, n as int), key@, off as int)
                is None,
        },
    decreases n,
{
    let ghost pre = lines.deep_view().subrange(0, n as int);
    if n <= 1 {
        return None;
    }
    let l = &lines[n - 1];
    proof {
        assert(pre.last() == l@);
        assert(pre.drop_last() =~= lines.deep_view().subrange(0, n - 1));
    }
    if matches_at_exec(l.as_slice(), 0, key) {
        if l.len() >= off {
            Some(slice_to_vec(slice_subrange(l.as_slice(), off, l.len())))
        } else {
            let empty: Vec<char> = Vec::new();
            proof {
                assert(empty@ =~= Seq::<char>::empty());
            }
            Some(empty)
        }
    } else {
        header_value(lines, n - 1, key, off)
    }
}

fn parse_contact_list(v: &[char]) -> (r: Option<Vec<Contact>>)
    ensures
        match r {
            Some(cs) => spec_contact_list(v@) == Some(contact_views(cs@)),
            None => spec_contact_list(v@) is None,
        },
{
    let comma: [char; 1] = [','];
    let ps = split_seq_exec(v, comma.as_slice());
    proof {
        assert(comma@ =~= seq![',']);
    }
    let ghost psd = ps.deep_view();
    let mut out: Vec<Contact> = Vec::new();
    let mut i: usize = 0;
    while i < ps.len()
        invariant
            i <= ps@.len(),
            ps.deep_view() == psd,
            psd == split_seq(v@, seq![',']),
            out@.len() == i as int,
            forall|j: int| 0 <= j < i ==> spec_parse_contact(#[trigger] psd[j]) is Some,
            forall|j: int|
                0 <= j < i ==> #[trigger] out@[j]@ == spec_parse_contact(psd[j])->0,
        decreases ps@.len() - i,
    {
        proof {
            assert(psd[i as int] == ps@[i as int]@);
        }
        match parse_contact_chars(ps[i].as_slice()) {
            Some(c) => {
                out.push(c);
            },
            None => {
                proof {
                    assert(spec_parse_contact(psd[i as int]) is None);
                }
                return None;
            },
        }
        i = i + 1;
    }
    proof {
        assert(contact_views(out@) =~= Seq::new(
            psd.len(),
            |j: int| spec_parse_contact(psd[j])->0,
        ));
    }
    Some(out)
}

impl Message {
    /// Parses one `FETCH` header block, exactly as `spec_parse_message`
    /// says; a block without a readable sequence number, subject or sender
    /// is rejected.
    pub fn parse(s: &str) -> (r: Result<Message, MailError>)
        ensures
            match r {
                Ok(m) => spec_parse_message(s@) == Some(m@),
                Err(e) => spec_parse_message(s@) is None && e is Parse,
            },
    {
        let chars = str_to_chars(s);
        let space: [char; 1] = [' '];
        let ws = split_seq_exec(chars.as_slice(), space.as_slice());
        proof {
            assert(space@ =~= seq![' ']);
        }
        let id = match find_id(&ws, 0) {
            Some(v) => v,
            None => {
                return Err(MailError::Parse);
            },
        };
        let seen_lit = str_to_chars("\\Seen");
        proof {
            reveal_strlit("\\Seen");
        }
        let read = contains_exec(chars.as_slice(), seen_lit.as_slice());
        let lines = lines_exec(chars.as_slice());
        let ghost linesd = lines.deep_view();
        proof {
            assert(linesd.subrange(0, linesd.len() as int) =~= linesd);
        }
        let key_subject = str_to_chars("Subject:");
        let key_from = str_to_chars("From:");
        let key_to = str_to_chars("To:");
        let key_cc = str_to_chars("Cc:");
        let key_bcc = str_to_chars("Bcc:");
        let n = lines.len();
        let subject = match header_value(&lines, n, key_subject.as_slice(), 9) {
            Some(v) => v,
            None => {
                return Err(MailError::Parse);
            },
        };
        let from_txt = match header_value(&lines, n, key_from.as_slice(), 6) {
            Some(v) => v,
            None => {
                return Err(MailError::Parse);
            },
        };
        let from = match parse_contact_chars(from_txt.as_slice()) {
            Some(c) => c,
            None => {
                return Err(MailError::Parse);
            },
        };
        let to = match header_value(&lines, n, key_to.as_slice(), 4) {
            Some(v) => parse_contact_list(v.as_slice()),
            None => None,
        };
        let cc = match header_value(&lines, n, key_cc.as_slice(), 4) {
            Some(v) => parse_contact_list(v.as_slice()),
            None => None,
        };
        let bcc = match header_value(&lines, n, key_bcc.as_slice(), 5) {
            Some(v) => parse_contact_list(v.as_slice()),
            None => None,
        };
        Ok(Message { id, subject: chars_to_string(subject.as_slice()), from, to, cc, bcc, read })
    }

    /// The display text of a message header: sender, the address lists that
    /// exist, and the subject, one line each.
    pub fn render(&self) -> (r: String)
        ensures
            r@ == message_text(self@),
    {
        let mut out = String::new();
        out.append("From: ");
        let from_txt = self.from.render();
        out.append(from_txt.as_str());
        out.append("\n");
        match &self.to {
            Some(cs) => {
                out.append("To: ");
                let txt = render_contacts(cs);
                out.append(txt.as_str());
                out.append("\n");
            },
            None => {},
        }
        match &self.cc {
            Some(cs) => {
                out.append("CC: ");
                let txt = render_contacts(cs);
                out.append(txt.as_str());
                out.append("\n");
            },
            None => {},
        }
        match &self.bcc {
            Some(cs) => {
                out.append("BCC: ");
                let txt = render_contacts(cs);
                out.append(txt.as_str());
                out.append("\n");
            },
            None => {},
        }
        out.append("Subject: ");
        out.append(self.subject.as_str());
        out.append("\n");
        proof {
            reveal_strlit("\n");
            assert(out@ =~= message_text(self@));
        }
        out
    }
}

/// The display text of a whole message header block.
pub open spec fn message_text(m: MessageView) -> Seq<char> {
    "From: "@ + contact_text(m.from) + "\n"@ + (match m.to {
        Some(cs) => "To: "@ + contact_list_text(cs) + "\n"@,
        None => Seq::<char>::empty(),
    }) + (match m.cc {
        Some(cs) => "CC: "@ + contact_list_text(cs) + "\n"@,
        None => Seq::<char>::empty(),
    }) + (match m.bcc {
        Some(cs) => "BCC: "@ + contact_list_text(cs) + "\n"@,
        None => Seq::<char>::empty(),
    }) + "Subject: "@ + m.subject + "\n"@
}

/// Renders an address list, the entries joined with commas.
fn render_contacts(cs: &Vec<Contact>) -> (r: String)
    ensures
        r@ == contact_list_text(contact_views(cs@)),
{
    let mut pieces: Vec<Vec<char>> = Vec::new();
    let mut i: usize = 0;
    while i < cs.len()
        invariant
            i <= cs@.len(),
            pieces.deep_view() =~= contact_views(cs@).subrange(0, i as int).map_values(
                |c: ContactView| contact_text(c),
            ),
        decreases cs@.len() - i,
    {
        let txt = cs[i].render();
        let piece = str_to_chars(txt.as_str());
        let ghost old_deep = pieces.deep_view();
        pieces.push(piece);
        proof {
            assert(piece.deep_view() =~= contact_text(cs@[i as int]@));
            assert(pieces.deep_view() =~= old_deep.push(contact_text(cs@[i as int]@)));
            assert(contact_views(cs@).subrange(0, i + 1).map_values(
                |c: ContactView| contact_text(c),
            ) =~= old_deep.push(contact_text(cs@[i as int]@)));
        }
        i = i + 1;
    }
    let comma: [char; 1] = [','];
    let joined = join_exec(&pieces, comma.as_slice());
    proof {
        assert(comma@ =~= seq![',']);
        assert(contact_views(cs@).subrange(0, cs@.len() as int) =~= contact_views(cs@));
    }
    chars_to_string(joined.as_slice())
}

} // verus!
