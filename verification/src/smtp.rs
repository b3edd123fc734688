use vstd::prelude::*;
use crate::chars::{chars_to_string, str_to_chars};
use crate::error::MailError;
use crate::numbers::{first_u32_word, parse_u32_token};
use crate::strutil::{find_char, find_char_exec, join_exec, join_seq, split_seq, split_seq_exec};
use vstd::slice::{slice_subrange, slice_to_vec};
use vstd::string::StringSliceAdditionalSpecFns;

verus! {

/// What the base64 encoding of a byte string is: a function of the bytes
/// alone, left unstated here and supplied by the outside encoder.
pub uninterp spec fn base64_of(bytes: Seq<u8>) -> Seq<char>;

/// Relies on `openssl::base64::encode_block` (`EVP_EncodeBlock`): standard
/// padded base64, a function of the input bytes alone, four output characters
/// for every three input bytes rounded up. The function panics when the input
/// length or the computed output length overflows a signed C `int`; the
/// precondition keeps the output length, nul terminator included, within that
/// bound, and with it the input length.
#[verifier::external_body]
fn encode_base64(data: &[u8]) -> (r: String)
    requires
        data@.len() <= 1_610_612_733,
    ensures
        r@ == base64_of(data@),
        r@.len() == 4 * ((data@.len() + 2) / 3),
{
    openssl::base64::encode_block(data)
}

/// The first space-separated word that reads as a three-or-fewer-digit...
/// reply code of an SMTP response line: the first word that parses as a
/// 32-bit number.
pub open spec fn spec_reply_code(s: Seq<char>) -> Option<int> {
    first_u32_word(split_seq(s, seq![' ']), 0)
}

fn find_code(ws: &Vec<Vec<char>>, k: usize) -> (r: Option<u32>)
    requires
        k <= ws@.len(),
    ensures
        match r {
            Some(v) => first_u32_word(ws.deep_view(), k as int) == Some(v as int),
            None => first_u32_word(ws.deep_view(), k as int) is None,
        },
    decreases ws@.len() - k,
{
    if k >= ws.len() {
        return None;
    }
    proof {
        assert(ws.deep_view()[k as int] == ws@[k as int]@);
    }
    match parse_u32_token(ws[k].as_slice()) {
        Some(v) => Some(v),
        None => find_code(ws, k + 1),
    }
}

/// Reads the reply code out of one response line, exactly as
/// `spec_reply_code` says; a line without a numeric word has none, and the
/// reader then waits for the next line.
pub fn find_reply_code(line: &str) -> (r: Option<u32>)
    ensures
        match r {
            Some(c) => spec_reply_code(line@) == Some(c as int),
            None => spec_reply_code(line@) is None,
        },
{
    let chars = str_to_chars(line);
    let space: [char; 1] = [' '];
    let ws = split_seq_exec(chars.as_slice(), space.as_slice());
    proof {
        assert(space@ =~= seq![' ']);
    }
    find_code(&ws, 0)
}

/// Every protocol step demands one exact reply code; any other code fails
/// the step, carrying both the code that was owed and the one that came.
pub fn check_reply(expected: u32, actual: u32) -> (r: Result<(), MailError>)
    ensures
        r is Ok <==> actual == expected,
        r matches Err(e) ==> e == (MailError::UnexpectedReply { expected, actual }),
{
    if actual == expected {
        Ok(())
    } else {
        Err(MailError::UnexpectedReply { expected, actual })
    }
}

/// The protocol state of one SMTP connection.
pub struct SmtpSession {
    pub greeted: bool,
    pub authenticated: bool,
    pub username: Option<String>,
}

pub open spec fn script_views(v: Seq<(String, u32)>) -> Seq<(Seq<char>, u32)> {
    v.map_values(|p: (String, u32)| (p.0@, p.1))
}

pub open spec fn strs_views(v: Seq<String>) -> Seq<Seq<char>> {
    v.map_values(|s: String| s@)
}

/// The login exchange: `EHLO` with the domain of the address (the text after
/// its first `'@'`), then `AUTH LOGIN`, then the base64 of the name and of
/// the password, with the codes each step owes.
pub open spec fn spec_login_script(user: Seq<char>, user_bytes: Seq<u8>, pass_bytes: Seq<u8>) -> Seq<
    (Seq<char>, u32),
> {
    let at = find_char(user, '@', 0)->0;
    seq![
        ("EHLO "@ + user.subrange(at + 1, user.len() as int) + "\r\n"@, 250u32),
        ("AUTH LOGIN\r\n"@, 334u32),
        (base64_of(user_bytes) + "\r\n"@, 334u32),
        (base64_of(pass_bytes) + "\r\n"@, 235u32),
    ]
}

/// One `RCPT TO` line, owed a 250, per recipient.
pub open spec fn rcpt_items(addrs: Seq<Seq<char>>) -> Seq<(Seq<char>, u32)> {
    addrs.map_values(|a: Seq<char>| ("RCPT TO:<"@ + a + ">\r\n"@, 250u32))
}

pub open spec fn opt_list(o: Option<Seq<Seq<char>>>) -> Seq<Seq<char>> {
    match o {
        Some(s) => s,
        None => Seq::empty(),
    }
}

/// The message payload sent after `DATA`: the header block with subject and
/// recipient lists, the body, and the lone-dot terminator line.
pub open spec fn data_text(
    to: Seq<Seq<char>>,
    cc: Option<Seq<Seq<char>>>,
    bcc: Option<Seq<Seq<char>>>,
    subject: Seq<char>,
    body: Seq<char>,
) -> Seq<char> {
    "Subject: "@ + subject + "\r\nTo: "@ + join_seq(to, ", "@) + "\r\n"@ + (match cc {
        Some(cs) => "Cc: "@ + join_seq(cs, ", "@) + "\r\n"@,
        None => Seq::<char>::empty(),
    }) + (match bcc {
        Some(bs) => "Bcc: "@ + join_seq(bs, ", "@) + "\r\n"@,
        None => Seq::<char>::empty(),
    }) + body + "\r\n.\r\n"@
}

/// The whole submission exchange: the sender, one line per recipient across
/// to, cc and bcc in that order, `DATA`, and the payload, with the codes
/// each step owes.
pub open spec fn spec_send_script(
    user: Seq<char>,
    to: Seq<Seq<char>>,
    cc: Option<Seq<Seq<char>>>,
    bcc: Option<Seq<Seq<char>>>,
    subject: Seq<char>,
    body: Seq<char>,
) -> Seq<(Seq<char>, u32)> {
    seq![("MAIL FROM:<"@ + user + ">\r\n"@, 250u32)] + rcpt_items(
        to + opt_list(cc) + opt_list(bcc),
    ) + seq![("DATA\r\n"@, 354u32)] + seq![(data_text(to, cc, bcc, subject, body), 250u32)]
}

impl SmtpSession {
    /// A fresh connection, before even the greeting.
    pub fn new() -> (r: SmtpSession)
        ensures
            !r.greeted,
            !r.authenticated,
            r.username is None,
    {
        SmtpSession { greeted: false, authenticated: false, username: None }
    }

    /// Takes the server's greeting code: 220 is owed; any other code fails
    /// the connection attempt and leaves the session unusable, so that no
    /// further command is sent.
    pub fn handle_greeting(&mut self, code: u32) -> (r: Result<(), MailError>)
        ensures
            r is Ok <==> code == 220,
            r is Ok ==> final(self).greeted && final(self).authenticated == old(
                self,
            ).authenticated && final(self).username == old(self).username,
            r matches Err(e) ==> e == (MailError::UnexpectedReply { expected: 220, actual: code })
                && *final(self) == *old(self),
    {
        match check_reply(220, code) {
            Ok(_) => {
                self.greeted = true;
                Ok(())
            },
            Err(e) => Err(e),
        }
    }

    /// The lines of the login exchange, each with the reply code it is owed;
    /// a name without an `'@'` has no domain to greet with and is rejected
    /// before anything is sent.
    pub fn login_script(&self, username: &str, password: &str) -> (r: Result<
        Vec<(String, u32)>,
        MailError,
    >)
        requires
            username.spec_bytes().len() <= 1_610_612_733,
            password.spec_bytes().len() <= 1_610_612_733,
        ensures
            match r {
                Ok(sc) => find_char(username@, '@', 0) is Some && script_views(sc@)
                    == spec_login_script(
                    username@,
                    username.spec_bytes(),
                    password.spec_bytes(),
                ),
                Err(e) => find_char(username@, '@', 0) is None && e is Parse,
            },
    {
        let uchars = str_to_chars(username);
        let at = match find_char_exec(uchars.as_slice(), '@', 0) {
            Some(i) => i,
            None => {
                return Err(MailError::Parse);
            },
        };
        let ulen = uchars.len();
        let domain_chars = slice_to_vec(slice_subrange(uchars.as_slice(), at + 1, ulen));
        let domain = chars_to_string(domain_chars.as_slice());
        let mut ehlo = String::new();
        ehlo.append("EHLO ");
        ehlo.append(domain.as_str());
        ehlo.append("\r\n");
        let mut auth = String::new();
        auth.append("AUTH LOGIN\r\n");
        let mut user_line = encode_base64(username.as_bytes());
        user_line.append("\r\n");
        let mut pass_line = encode_base64(password.as_bytes());
        pass_line.append("\r\n");
        proof {
            assert(ehlo@ =~= "EHLO "@ + username@.subrange(at + 1, username@.len() as int)
                + "\r\n"@);
            assert(auth@ =~= "AUTH LOGIN\r\n"@);
        }
        let mut sc: Vec<(String, u32)> = Vec::new();
        sc.push((ehlo, 250));
        sc.push((auth, 334));
        sc.push((user_line, 334));
        sc.push((pass_line, 235));
        proof {
            assert(script_views(sc@) =~= spec_login_script(
                username@,
                username.spec_bytes(),
                password.spec_bytes(),
            ));
        }
        Ok(sc)
    }

    /// Records that the server accepted the login.
    pub fn confirm_login(&mut self, username: String)
        ensures
            final(self).username == Some(username),
            final(self).authenticated,
            final(self).greeted == old(self).greeted,
    {
        self.username = Some(username);
        self.authenticated = true;
    }

    /// The lines of one message submission, each with the reply code it is
    /// owed; without a prior login there is no sender address, and nothing
    /// is sent.
    pub fn send_email_script(
        &self,
        to: &Vec<String>,
        cc: &Option<Vec<String>>,
        bcc: &Option<Vec<String>>,
        subject: &str,
        body: &str,
    ) -> (r: Result<Vec<(String, u32)>, MailError>)
        ensures
            match r {
                Ok(sc) => self.username matches Some(u) && script_views(sc@) == spec_send_script(
                    u@,
                    strs_views(to@),
                    match cc {
                        Some(cs) => Some(strs_views(cs@)),
                        None => None,
                    },
                    match bcc {
                        Some(bs) => Some(strs_views(bs@)),
                        None => None,
                    },
                    subject@,
                    body@,
                ),
                Err(e) => self.username is None && e is Auth,
            },
    {
        let user = match &self.username {
            Some(u) => u,
            None => {
                return Err(MailError::Auth);
            },
        };
        let ghost to_v = strs_views(to@);
        let ghost cc_v = match cc {
            Some(cs) => Some(strs_views(cs@)),
            None => None::<Seq<Seq<char>>>,
        };
        let ghost bcc_v = match bcc {
            Some(bs) => Some(strs_views(bs@)),
            None => None::<Seq<Seq<char>>>,
        };
        let mut sc: Vec<(String, u32)> = Vec::new();
        let mut mail_from = String::new();
        mail_from.append("MAIL FROM:<");
        mail_from.append(user.as_str());
        mail_from.append(">\r\n");
        proof {
            assert(mail_from@ =~= "MAIL FROM:<"@ + user@ + ">\r\n"@);
        }
        sc.push((mail_from, 250));
        let ghost all_rcpts = to_v + opt_list(cc_v) + opt_list(bcc_v);
        push_rcpts(&mut sc, to);
        match cc {
            Some(cs) => push_rcpts(&mut sc, cs),
            None => {},
        }
        match bcc {
            Some(bs) => push_rcpts(&mut sc, bs),
            None => {},
        }
        proof {
            assert(script_views(sc@) =~= seq![
                ("MAIL FROM:<"@ + user@ + ">\r\n"@, 250u32),
            ] + rcpt_items(all_rcpts));
        }
        let mut data = String::new();
        data.append("DATA\r\n");
        proof {
            assert(data@ =~= "DATA\r\n"@);
        }
        sc.push((data, 354));
        let mut payload = String::new();
        payload.append("Subject: ");
        payload.append(subject);
        payload.append("\r\nTo: ");
        let to_joined = join_strings(to);
        payload.append(to_joined.as_str());
        payload.append("\r\n");
        match cc {
            Some(cs) => {
                payload.append("Cc: ");
                let joined = join_strings(cs);
                payload.append(joined.as_str());
                payload.append("\r\n");
            },
            None => {},
        }
        match bcc {
            Some(bs) => {
                payload.append("Bcc: ");
                let joined = join_strings(bs);
                payload.append(joined.as_str());
                payload.append("\r\n");
            },
            None => {},
        }
        payload.append(body);
        payload.append("\r\n.\r\n");
        proof {
            assert(payload@ =~= data_text(to_v, cc_v, bcc_v, subject@, body@));
        }
        sc.push((payload, 250));
        proof {
            assert(script_views(sc@) =~= spec_send_script(
                user@,
                to_v,
                cc_v,
                bcc_v,
                subject@,
                body@,
            ));
        }
        Ok(sc)
    }
}

/// Appends one `RCPT TO` line per address.
fn push_rcpts(sc: &mut Vec<(String, u32)>, addrs: &Vec<String>)
    ensures
        script_views(final(sc)@) == script_views(old(sc)@) + rcpt_items(strs_views(addrs@)),
{
    let mut i: usize = 0;
    proof {
        assert(script_views(sc@) =~= script_views(sc@) + rcpt_items(
            strs_views(addrs@).subrange(0, 0),
        ));
    }
    let ghost base = script_views(sc@);
    while i < addrs.len()
        invariant
            i <= addrs@.len(),
            script_views(sc@) == base + rcpt_items(strs_views(addrs@).subrange(0, i as int)),
        decreases addrs@.len() - i,
    {
        let mut line = String::new();
        line.append("RCPT TO:<");
        line.append(addrs[i].as_str());
        line.append(">\r\n");
        proof {
            assert(line@ =~= "RCPT TO:<"@ + addrs@[i as int]@ + ">\r\n"@);
        }
        let ghost line_v = line@;
        let ghost old_sc = sc@;
        sc.push((line, 250));
        proof {
            let svs = strs_views(addrs@);
            assert(script_views(sc@) =~= script_views(old_sc).push((line_v, 250u32)));
            assert(svs.subrange(0, i + 1) =~= svs.subrange(0, i as int).push(svs[i as int]));
            assert(rcpt_items(svs.subrange(0, i as int).push(svs[i as int])) =~= rcpt_items(
                svs.subrange(0, i as int),
            ).push(("RCPT TO:<"@ + svs[i as int] + ">\r\n"@, 250u32)));
            assert(svs[i as int] == addrs@[i as int]@);
            assert(script_views(sc@) =~= base + rcpt_items(svs.subrange(0, i + 1)));
        }
        i = i + 1;
    }
    proof {
        assert(strs_views(addrs@).subrange(0, addrs@.len() as int) =~= strs_views(addrs@));
    }
}

/// Joins addresses with a comma and a space, as message headers list them.
fn join_strings(items: &Vec<String>) -> (r: String)
    ensures
        r@ == join_seq(strs_views(items@), ", "@),
{
    let mut pieces: Vec<Vec<char>> = Vec::new();
    let mut i: usize = 0;
    while i < items.len()
        invariant
            i <= items@.len(),
            pieces.deep_view() =~= strs_views(items@).subrange(0, i as int),
        decreases items@.len() - i,
    {
        let piece = str_to_chars(items[i].as_str());
        let ghost old_deep = pieces.deep_view();
        pieces.push(piece);
        proof {
            assert(piece.deep_view() =~= items@[i as int]@);
            assert(pieces.deep_view() =~= old_deep.push(items@[i as int]@));
            assert(strs_views(items@).subrange(0, i + 1) =~= old_deep.push(items@[i as int]@));
        }
        i = i + 1;
    }
    let sep = str_to_chars(", ");
    let joined = join_exec(&pieces, sep.as_slice());
    proof {
        assert(strs_views(items@).subrange(0, items@.len() as int) =~= strs_views(items@));
    }
    chars_to_string(joined.as_slice())
}

} // verus!
