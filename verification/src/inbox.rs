use vstd::prelude::*;
use crate::chars::{chars_to_string, str_to_chars};
use crate::error::MailError;
use crate::numbers::{dec_str, render_usize};
use crate::strutil::{seq_eq, split_seq, split_seq_exec};
use vstd::slice::{slice_subrange, slice_to_vec};

verus! {

/// A mailbox as one `LIST` reply line describes it.
#[derive(Debug)]
pub struct Inbox {
    pub name: String,
    pub selectable: bool,
    pub has_children: bool,
}

pub open spec fn ends_paren(w: Seq<char>) -> bool {
    w.len() > 0 && w.last() == ')'
}

/// The run of flag words: the words from position `k` on, for as long as
/// they end with `')'`.
pub open spec fn flag_words(ws: Seq<Seq<char>>, k: int) -> Seq<Seq<char>>
    decreases ws.len() - k,
{
    if k < 0 || k >= ws.len() || !ends_paren(ws[k]) {
        Seq::empty()
    } else {
        seq![ws[k]] + flag_words(ws, k + 1)
    }
}

/// A flag word without its surrounding parentheses: one leading `'('` and
/// one trailing `')'` are removed, in that order.
pub open spec fn strip_flag(w: Seq<char>) -> Seq<char> {
    let w1 = if w.len() > 0 && w[0] == '(' {
        w.drop_first()
    } else {
        w
    };
    if w1.len() > 0 && w1.last() == ')' {
        w1.drop_last()
    } else {
        w1
    }
}

/// The parse of one `LIST` line: name, selectable, has_children. The flags
/// start at the third space-separated word; `\Noselect` clears `selectable`
/// and `\HasNoChildren` clears `has_children`, both true otherwise. The name
/// is the text between the last pair of double quotes; a line with fewer than
/// two quote characters holds no quoted name and is rejected.
pub open spec fn spec_parse_inbox(s: Seq<char>) -> Option<(Seq<char>, bool, bool)> {
    let flags = flag_words(split_seq(s, seq![' ']), 2).map_values(|w: Seq<char>| strip_flag(w));
    let selectable = !(exists|i: int|
        0 <= i < flags.len() && flags[i] == "\\Noselect"@);
    let has_children = !(exists|i: int|
        0 <= i < flags.len() && flags[i] == "\\HasNoChildren"@);
    let qs = split_seq(s, seq!['"']);
    if qs.len() < 3 {
        None
    } else {
        Some((qs[qs.len() - 2], selectable, has_children))
    }
}

impl Inbox {
    /// Parses one `LIST` reply line, exactly as `spec_parse_inbox` says.
    pub fn parse(s: &str) -> (r: Result<Inbox, MailError>)
        ensures
            match r {
                Ok(ib) => spec_parse_inbox(s@) == Some((ib.name@, ib.selectable, ib.has_children)),
                Err(e) => spec_parse_inbox(s@) is None && e is Parse,
            },
    {
        let chars = str_to_chars(s);
        let space: [char; 1] = [' '];
        let ws = split_seq_exec(chars.as_slice(), space.as_slice());
        proof {
            assert(space@ =~= seq![' ']);
        }
        let ghost wsd = ws.deep_view();
        let ghost flags = flag_words(wsd, 2).map_values(|w: Seq<char>| strip_flag(w));
        let noselect = str_to_chars("\\Noselect");
        let nochildren = str_to_chars("\\HasNoChildren");
        let mut selectable = true;
        let mut has_children = true;
        let mut k: usize = 2;
        while k < ws.len() && ws[k].len() > 0 && ws[k][ws[k].len() - 1] == ')'
            invariant
                2 <= k,
                ws.deep_view() == wsd,
                flags == flag_words(wsd, 2).map_values(|w: Seq<char>| strip_flag(w)),
                noselect@ == "\\Noselect"@,
                nochildren@ == "\\HasNoChildren"@,
                k <= wsd.len() || k == 2,
                flag_words(wsd, 2) == flag_words(wsd, 2).subrange(
                    0,
                    flag_words(wsd, 2).len() - flag_words(wsd, k as int).len(),
                ) + flag_words(wsd, k as int),
                flag_words(wsd, k as int).len() <= flag_words(wsd, 2).len(),
                selectable == !(exists|i: int|
                    0 <= i < flags.len() - flag_words(wsd, k as int).len() && flags[i]
                        == "\\Noselect"@),
                has_children == !(exists|i: int|
                    0 <= i < flags.len() - flag_words(wsd, k as int).len() && flags[i]
                        == "\\HasNoChildren"@),
            decreases wsd.len() - k,
        {
            let w = &ws[k];
            let start: usize = if w.len() > 0 && w[0] == '(' {
                1
            } else {
                0
            };
            let end: usize = if w.len() > start && w[w.len() - 1] == ')' {
                w.len() - 1
            } else {
                w.len()
            };
            let stripped = slice_subrange(w.as_slice(), start, end);
            proof {
                assert(w@ == wsd[k as int]);
                assert(stripped@ =~= strip_flag(wsd[k as int]));
                assert(ends_paren(wsd[k as int]));
                assert(flag_words(wsd, k as int) == seq![wsd[k as int]] + flag_words(
                    wsd,
                    k + 1,
                ));
            }
            if seq_eq(stripped, noselect.as_slice()) {
                selectable = false;
            }
            if seq_eq(stripped, nochildren.as_slice()) {
                has_children = false;
            }
            proof {
                let prev_rest = flag_words(wsd, k as int);
                let next_rest = flag_words(wsd, k + 1);
                let pos = flags.len() - prev_rest.len();
                assert(flag_words(wsd, 2)[pos] == prev_rest[0]);
                assert(flags[pos] == strip_flag(wsd[k as int]));
                assert forall|i: int|
                    0 <= i < flags.len() - next_rest.len() && flags[i] == "\\Noselect"@
                        implies !selectable by {}
                assert forall|i: int|
                    0 <= i < flags.len() - next_rest.len() && flags[i] == "\\HasNoChildren"@
                        implies !has_children by {}
            }
            k = k + 1;
        }
        proof {
            assert(flag_words(wsd, k as int) =~= Seq::<Seq<char>>::empty());
            assert(selectable == !(exists|i: int|
                0 <= i < flags.len() && flags[i] == "\\Noselect"@));
            assert(has_children == !(exists|i: int|
                0 <= i < flags.len() && flags[i] == "\\HasNoChildren"@));
        }
        let quote: [char; 1] = ['"'];
        let qs = split_seq_exec(chars.as_slice(), quote.as_slice());
        proof {
            assert(quote@ =~= seq!['"']);
            crate::strutil::lemma_split_seq_nonempty(s@, seq!['"']);
        }
        if qs.len() < 3 {
            return Err(MailError::Parse);
        }
        let name_chars = &qs[qs.len() - 2];
        let name = chars_to_string(name_chars.as_slice());
        Ok(Inbox { name, selectable, has_children })
    }
}

/// A sequence-number range as the two endpoint texts of a `FETCH` command.
pub struct InboxRangeStr(pub String, pub String);

/// One endpoint of a sequence-number interval.
pub enum RangeEdge {
    Included(usize),
    Excluded(usize),
    Unbounded,
}

/// The text of a range start: an unbounded edge is the wildcard `'*'`; an
/// exclusive start means the number one above.
pub open spec fn start_text(e: RangeEdge) -> Seq<char> {
    match e {
        RangeEdge::Included(x) => dec_str(x as nat),
        RangeEdge::Excluded(x) => dec_str((x + 1) as nat),
        RangeEdge::Unbounded => "*"@,
    }
}

/// The text of a range end: an unbounded edge is the wildcard `'*'`; an
/// exclusive end means the number one below.
pub open spec fn end_text(e: RangeEdge) -> Seq<char> {
    match e {
        RangeEdge::Included(x) => dec_str(x as nat),
        RangeEdge::Excluded(x) => dec_str((x - 1) as nat),
        RangeEdge::Unbounded => "*"@,
    }
}

/// The full rendering of a range: start, colon, end.
pub open spec fn range_text(start: RangeEdge, end: RangeEdge) -> Seq<char> {
    start_text(start) + seq![':'] + end_text(end)
}

impl InboxRangeStr {
    /// Renders the two endpoints of a sequence-number interval.
    pub fn from_bounds(start: RangeEdge, end: RangeEdge) -> (r: InboxRangeStr)
        requires
            start matches RangeEdge::Excluded(x) ==> x < usize::MAX,
            end matches RangeEdge::Excluded(x) ==> x > 0,
        ensures
            r.0@ == start_text(start),
            r.1@ == end_text(end),
    {
        let lhs = match start {
            RangeEdge::Included(x) => render_usize(x),
            RangeEdge::Excluded(x) => render_usize(x + 1),
            RangeEdge::Unbounded => "*".to_owned(),
        };
        let rhs = match end {
            RangeEdge::Included(x) => render_usize(x),
            RangeEdge::Excluded(x) => render_usize(x - 1),
            RangeEdge::Unbounded => "*".to_owned(),
        };
        InboxRangeStr(lhs, rhs)
    }
}

/// An unbounded start with an inclusive end renders as `*:b`, and two
/// inclusive endpoints render as `a:b`, both in plain decimal.
pub proof fn lemma_range_rendering(a: usize, b: usize)
    ensures
        range_text(RangeEdge::Unbounded, RangeEdge::Included(b)) == seq!['*', ':'] + dec_str(
            b as nat,
        ),
        range_text(RangeEdge::Included(a), RangeEdge::Included(b)) == dec_str(a as nat)
            + seq![':'] + dec_str(b as nat),
{
    reveal_strlit("*");
    assert(range_text(RangeEdge::Unbounded, RangeEdge::Included(b)) =~= seq!['*', ':'] + dec_str(
        b as nat,
    ));
    assert(range_text(RangeEdge::Included(a), RangeEdge::Included(b)) =~= dec_str(a as nat)
        + seq![':'] + dec_str(b as nat));
}

} // verus!
