use vstd::prelude::*;
use crate::chars::{chars_to_string, str_to_chars};
use crate::error::MailError;
use crate::numbers::{dec_str, render_usize_chars};
use crate::reader::{
    consume_until_end_paren, first_open, first_open_exec, get_quoted, paren_scan, quoted_end,
    spec_get_quoted,
};
use crate::strutil::{join_exec, join_seq, matches_at, matches_at_exec};
use vstd::slice::{slice_subrange, slice_to_vec};

verus! {

broadcast use vstd::std_specs::vec::axiom_vec_index_decreases, vstd::seq::axiom_seq_index_decreases;

/// Metadata of an image or application MIME leaf.
#[derive(Clone, Debug, PartialEq, Eq)]
pub struct FileMeta {
    pub file_type: String,
    pub name: String,
}

/// One node of the MIME part tree read from a `BODYSTRUCTURE` reply: a text,
/// image or application leaf, or a multipart group carrying its boundary
/// string and its children in order.
#[derive(Debug)]
pub enum BodyStructure {
    Plain,
    Html,
    Image(FileMeta),
    Application(FileMeta),
    Mixed(Vec<BodyStructure>, String),
    Related(Vec<BodyStructure>, String),
    Alternative(Vec<BodyStructure>, String),
}

/// The mathematical model of a `BodyStructure` tree.
pub enum BodyNode {
    Plain,
    Html,
    Image(Seq<char>, Seq<char>),
    Application(Seq<char>, Seq<char>),
    Mixed(Seq<BodyNode>, Seq<char>),
    Related(Seq<BodyNode>, Seq<char>),
    Alternative(Seq<BodyNode>, Seq<char>),
}

pub open spec fn body_view(b: BodyStructure) -> BodyNode
    decreases b,
{
    match b {
        BodyStructure::Plain => BodyNode::Plain,
        BodyStructure::Html => BodyNode::Html,
        BodyStructure::Image(m) => BodyNode::Image(m.file_type@, m.name@),
        BodyStructure::Application(m) => BodyNode::Application(m.file_type@, m.name@),
        BodyStructure::Mixed(ch, b2) => BodyNode::Mixed(child_views(ch), b2@),
        BodyStructure::Related(ch, b2) => BodyNode::Related(child_views(ch), b2@),
        BodyStructure::Alternative(ch, b2) => BodyNode::Alternative(child_views(ch), b2@),
    }
}

pub open spec fn child_views(ch: Vec<BodyStructure>) -> Seq<BodyNode>
    decreases ch,
{
    Seq::new(
        ch@.len(),
        |i: int|
            if 0 <= i < ch@.len() {
                body_view(ch@[i])
            } else {
                BodyNode::Plain
            },
    )
}

impl View for BodyStructure {
    type V = BodyNode;

    open spec fn view(&self) -> BodyNode {
        body_view(*self)
    }
}

pub open spec fn views_of(s: Seq<BodyStructure>) -> Seq<BodyNode> {
    s.map_values(|b: BodyStructure| body_view(b))
}

pub open spec fn ints_of(s: Seq<usize>) -> Seq<int> {
    s.map_values(|x: usize| x as int)
}

pub open spec fn opt_body_view(o: Option<BodyStructure>) -> Option<BodyNode> {
    match o {
        Some(b) => Some(body_view(b)),
        None => None,
    }
}

/// A `TEXT` leaf: the reader stands just past the `'T'`; the leaf is
/// recognized by its literal subtype, and the scan then consumes through the
/// leaf's closing parenthesis. The pair is the node read, if any, and the
/// reader position afterwards.
pub open spec fn spec_parse_t(s: Seq<char>, i: int) -> (Option<BodyNode>, int) {
    let is_plain = matches_at(s, i, "EXT\" \"PLAIN\""@);
    let is_html = matches_at(s, i, "EXT\" \"HTML\""@);
    if !is_plain && !is_html {
        (None::<BodyNode>, i)
    } else {
        let i2 = if i + 4 <= s.len() {
            i + 4
        } else {
            s.len() as int
        };
        match paren_scan(s, i2, 0, false) {
            Some(ni) => (
                Some(
                    if is_html {
                        BodyNode::Html
                    } else {
                        BodyNode::Plain
                    },
                ),
                ni,
            ),
            None => (None::<BodyNode>, i2),
        }
    }
}

/// An `IMAGE` leaf: subtype and `NAME` parameter are read as quoted strings;
/// a leaf without a name is not an image and is skipped.
pub open spec fn spec_parse_i(s: Seq<char>, i: int) -> Option<BodyNode> {
    if !matches_at(s, i, "MAGE\" \""@) {
        None
    } else {
        match spec_get_quoted(s, i + 6) {
            None => None,
            Some(ft) => {
                if !matches_at(s, ft.1, " (\"NAME\" \""@) {
                    None
                } else {
                    match spec_get_quoted(s, ft.1 + 9) {
                        None => None,
                        Some(nm) => match paren_scan(s, nm.1, 0, false) {
                            Some(_) => Some(BodyNode::Image(ft.0, nm.0)),
                            None => None,
                        },
                    }
                }
            },
        }
    }
}

/// The `BOUNDARY` parameter of a multipart node: the scan looks for a `'('`
/// directly followed by the literal parameter name, then reads the quoted
/// value.
pub open spec fn spec_find_boundary(s: Seq<char>, j: int) -> Option<(Seq<char>, int)>
    decreases s.len() - j,
{
    if j < 0 || j >= s.len() {
        None
    } else if s[j] == '(' {
        if matches_at(s, j + 1, "\"BOUNDARY\" \""@) {
            spec_get_quoted(s, j + 12)
        } else {
            None
        }
    } else {
        spec_find_boundary(s, j + 1)
    }
}

/// An `ALTERNATIVE` multipart or an `APPLICATION` leaf, both introduced by
/// `'A'`. A multipart is read with empty children; the grouping step of the
/// main scan fills them in.
pub open spec fn spec_parse_a(s: Seq<char>, i: int) -> Option<BodyNode> {
    if matches_at(s, i, "LTERNATIVE\""@) {
        match spec_find_boundary(s, i + 11) {
            Some(bd) => Some(BodyNode::Alternative(Seq::empty(), bd.0)),
            None => None,
        }
    } else if !matches_at(s, i, "PPLICATION\" \""@) {
        None
    } else {
        match spec_get_quoted(s, i + 12) {
            None => None,
            Some(ft) => {
                if !matches_at(s, ft.1, " (\"NAME\" \""@) {
                    None
                } else {
                    match spec_get_quoted(s, ft.1 + 9) {
                        None => None,
                        Some(nm) => match paren_scan(s, nm.1, 0, false) {
                            Some(_) => Some(BodyNode::Application(ft.0, nm.0)),
                            None => None,
                        },
                    }
                }
            },
        }
    }
}

/// A `RELATED` multipart.
pub open spec fn spec_parse_r(s: Seq<char>, i: int) -> Option<BodyNode> {
    if !matches_at(s, i, "ELATED\""@) {
        None
    } else {
        match spec_find_boundary(s, i + 7) {
            Some(bd) => Some(BodyNode::Related(Seq::empty(), bd.0)),
            None => None,
        }
    }
}

/// A `MIXED` multipart.
pub open spec fn spec_parse_m(s: Seq<char>, i: int) -> Option<BodyNode> {
    if !matches_at(s, i, "IXED\""@) {
        None
    } else {
        match spec_find_boundary(s, i + 5) {
            Some(bd) => Some(BodyNode::Mixed(Seq::empty(), bd.0)),
            None => None,
        }
    }
}

pub open spec fn is_multipart(n: BodyNode) -> bool {
    n is Mixed || n is Related || n is Alternative
}

/// The same multipart node with its children replaced.
pub open spec fn with_children(n: BodyNode, ch: Seq<BodyNode>) -> BodyNode {
    match n {
        BodyNode::Mixed(_, b) => BodyNode::Mixed(ch, b),
        BodyNode::Related(_, b) => BodyNode::Related(ch, b),
        BodyNode::Alternative(_, b) => BodyNode::Alternative(ch, b),
        other => other,
    }
}

/// The flat scan over the part text: `'(('` pushes a grouping marker holding
/// how many parts stand in `acc`; a recognized multipart pops the latest
/// marker and adopts every part produced since it as its children; exactly
/// one part must remain at the end.
pub open spec fn spec_parse_loop(
    s: Seq<char>,
    i: int,
    acc: Seq<BodyNode>,
    splits: Seq<int>,
) -> Option<BodyNode>
    decreases s.len() - i,
{
    if i < 0 {
        None
    } else if i >= s.len() {
        if acc.len() == 1 {
            Some(acc[0])
        } else {
            None
        }
    } else {
        let c = s[i];
        if c == '(' && i + 1 < s.len() && s[i + 1] == '(' {
            spec_parse_loop(s, i + 1, acc, splits.push(acc.len() as int))
        } else {
            let pr = if c == 'T' {
                spec_parse_t(s, i + 1)
            } else if c == 'I' {
                (spec_parse_i(s, i + 1), i + 1)
            } else if c == 'A' {
                (spec_parse_a(s, i + 1), i + 1)
            } else if c == 'R' {
                (spec_parse_r(s, i + 1), i + 1)
            } else if c == 'M' {
                (spec_parse_m(s, i + 1), i + 1)
            } else {
                (None::<BodyNode>, i + 1)
            };
            if !(i < pr.1 <= s.len()) {
                None
            } else {
                match pr.0 {
                    None => spec_parse_loop(s, pr.1, acc, splits),
                    Some(n) => {
                        if is_multipart(n) {
                            if splits.len() == 0 {
                                None
                            } else {
                                let k = splits.last();
                                if !(0 <= k <= acc.len()) {
                                    None
                                } else {
                                    spec_parse_loop(
                                        s,
                                        pr.1,
                                        acc.subrange(0, k).push(
                                            with_children(n, acc.subrange(k, acc.len() as int)),
                                        ),
                                        splits.drop_last(),
                                    )
                                }
                            }
                        } else {
                            spec_parse_loop(s, pr.1, acc.push(n), splits)
                        }
                    },
                }
            }
        }
    }
}

/// The text the scan runs over: everything after the second `'('` of the
/// reply (after the first, or the whole text, where fewer occur).
pub open spec fn spec_command_text(s: Seq<char>) -> Seq<char> {
    match first_open(s, 0) {
        None => s,
        Some(p1) => match first_open(s, p1 + 1) {
            None => s.subrange(p1 + 1, s.len() as int),
            Some(p2) => s.subrange(p2 + 1, s.len() as int),
        },
    }
}

/// The part tree of a raw `BODYSTRUCTURE` reply, if the text is well formed.
pub open spec fn spec_parse_body(s: Seq<char>) -> Option<BodyNode> {
    spec_parse_loop(spec_command_text(s), 0, Seq::empty(), seq![0int])
}

fn parse_t_exec(v: &[char], i: usize) -> (r: (Option<BodyStructure>, usize))
    requires
        i <= v@.len(),
    ensures
        opt_body_view(r.0) == spec_parse_t(v@, i as int).0,
        r.1 as int == spec_parse_t(v@, i as int).1,
        i <= r.1 <= v@.len(),
{
    let lit_plain = str_to_chars("EXT\" \"PLAIN\"");
    let lit_html = str_to_chars("EXT\" \"HTML\"");
    let is_plain = matches_at_exec(v, i, lit_plain.as_slice());
    let is_html = matches_at_exec(v, i, lit_html.as_slice());
    if !is_plain && !is_html {
        return (None, i);
    }
    let i2 = if v.len() - i >= 4 {
        i + 4
    } else {
        v.len()
    };
    match consume_until_end_paren(v, i2, 0, false) {
        Some(ni) => (
            Some(
                if is_html {
                    BodyStructure::Html
                } else {
                    BodyStructure::Plain
                },
            ),
            ni,
        ),
        None => (None, i2),
    }
}

fn parse_i_exec(v: &[char], i: usize) -> (r: Option<BodyStructure>)
    requires
        i <= v@.len(),
    ensures
        opt_body_view(r) == spec_parse_i(v@, i as int),
{
    proof {
        vstd::slice::axiom_spec_len(v);
    }
    let lit = str_to_chars("MAGE\" \"");
    if !matches_at_exec(v, i, lit.as_slice()) {
        return None;
    }
    proof {
        reveal_strlit("MAGE\" \"");
    }
    match get_quoted(v, i + 6) {
        None => None,
        Some((ft, j1)) => {
            let lit2 = str_to_chars(" (\"NAME\" \"");
            if !matches_at_exec(v, j1, lit2.as_slice()) {
                return None;
            }
            proof {
                reveal_strlit(" (\"NAME\" \"");
            }
            match get_quoted(v, j1 + 9) {
                None => None,
                Some((nm, j2)) => match consume_until_end_paren(v, j2, 0, false) {
                    Some(_) => Some(
                        BodyStructure::Image(
                            FileMeta {
                                file_type: chars_to_string(ft.as_slice()),
                                name: chars_to_string(nm.as_slice()),
                            },
                        ),
                    ),
                    None => None,
                },
            }
        },
    }
}

fn find_boundary_exec(v: &[char], j: usize) -> (r: Option<(Vec<char>, usize)>)
    ensures
        match r {
            Some(p) => spec_find_boundary(v@, j as int) == Some((p.0@, p.1 as int)),
            None => spec_find_boundary(v@, j as int) is None,
        },
    decreases v@.len() - j,
{
    if j >= v.len() {
        return None;
    }
    proof {
        vstd::slice::axiom_spec_len(v);
    }
    if v[j] == '(' {
        let lit = str_to_chars("\"BOUNDARY\" \"");
        if !matches_at_exec(v, j + 1, lit.as_slice()) {
            return None;
        }
        proof {
            reveal_strlit("\"BOUNDARY\" \"");
        }
        get_quoted(v, j + 12)
    } else {
        find_boundary_exec(v, j + 1)
    }
}

fn parse_a_exec(v: &[char], i: usize) -> (r: Option<BodyStructure>)
    requires
        i <= v@.len(),
    ensures
        opt_body_view(r) == spec_parse_a(v@, i as int),
{
    proof {
        vstd::slice::axiom_spec_len(v);
    }
    let lit_alt = str_to_chars("LTERNATIVE\"");
    if matches_at_exec(v, i, lit_alt.as_slice()) {
        proof {
            reveal_strlit("LTERNATIVE\"");
        }
        return match find_boundary_exec(v, i + 11) {
            Some((bd, _)) => {
                let empty_children: Vec<BodyStructure> = Vec::new();
                proof {
                    assert(child_views(empty_children) =~= Seq::<BodyNode>::empty());
                }
                Some(BodyStructure::Alternative(empty_children, chars_to_string(bd.as_slice())))
            },
            None => None,
        };
    }
    let lit_app = str_to_chars("PPLICATION\" \"");
    if !matches_at_exec(v, i, lit_app.as_slice()) {
        return None;
    }
    proof {
        reveal_strlit("PPLICATION\" \"");
    }
    match get_quoted(v, i + 12) {
        None => None,
        Some((ft, j1)) => {
            let lit2 = str_to_chars(" (\"NAME\" \"");
            if !matches_at_exec(v, j1, lit2.as_slice()) {
                return None;
            }
            proof {
                reveal_strlit(" (\"NAME\" \"");
            }
            match get_quoted(v, j1 + 9) {
                None => None,
                Some((nm, j2)) => match consume_until_end_paren(v, j2, 0, false) {
                    Some(_) => Some(
                        BodyStructure::Application(
                            FileMeta {
                                file_type: chars_to_string(ft.as_slice()),
                                name: chars_to_string(nm.as_slice()),
                            },
                        ),
                    ),
                    None => None,
                },
            }
        },
    }
}

fn parse_r_exec(v: &[char], i: usize) -> (r: Option<BodyStructure>)
    requires
        i <= v@.len(),
    ensures
        opt_body_view(r) == spec_parse_r(v@, i as int),
{
    proof {
        vstd::slice::axiom_spec_len(v);
    }
    let lit = str_to_chars("ELATED\"");
    if !matches_at_exec(v, i, lit.as_slice()) {
        return None;
    }
    proof {
        reveal_strlit("ELATED\"");
    }
    match find_boundary_exec(v, i + 7) {
        Some((bd, _)) => {
            let empty_children: Vec<BodyStructure> = Vec::new();
            proof {
                assert(child_views(empty_children) =~= Seq::<BodyNode>::empty());
            }
            Some(BodyStructure::Related(empty_children, chars_to_string(bd.as_slice())))
        },
        None => None,
    }
}

fn parse_m_exec(v: &[char], i: usize) -> (r: Option<BodyStructure>)
    requires
        i <= v@.len(),
    ensures
        opt_body_view(r) == spec_parse_m(v@, i as int),
{
    proof {
        vstd::slice::axiom_spec_len(v);
    }
    let lit = str_to_chars("IXED\"");
    if !matches_at_exec(v, i, lit.as_slice()) {
        return None;
    }
    proof {
        reveal_strlit("IXED\"");
    }
    match find_boundary_exec(v, i + 5) {
        Some((bd, _)) => {
            let empty_children: Vec<BodyStructure> = Vec::new();
            proof {
                assert(child_views(empty_children) =~= Seq::<BodyNode>::empty());
            }
            Some(BodyStructure::Mixed(empty_children, chars_to_string(bd.as_slice())))
        },
        None => None,
    }
}

fn command_text(v: &[char]) -> (r: Vec<char>)
    ensures
        r@ == spec_command_text(v@),
{
    proof {
        vstd::slice::axiom_spec_len(v);
    }
    match first_open_exec(v, 0) {
        None => {
            let r = slice_to_vec(slice_subrange(v, 0, v.len()));
            proof {
                assert(v@.subrange(0, v@.len() as int) =~= v@);
            }
            r
        },
        Some(p1) => match first_open_exec(v, p1 + 1) {
            None => slice_to_vec(slice_subrange(v, p1 + 1, v.len())),
            Some(p2) => slice_to_vec(slice_subrange(v, p2 + 1, v.len())),
        },
    }
}

fn parse_loop(v: &[char], i: usize, acc: Vec<BodyStructure>, splits: Vec<usize>) -> (r: Result<
    BodyStructure,
    MailError,
>)
    requires
        i <= v@.len(),
    ensures
        ({
            let sr = spec_parse_loop(v@, i as int, views_of(acc@), ints_of(splits@));
            match r {
                Ok(b) => sr == Some(b@),
                Err(e) => sr is None && e is MalformedBodyStructure,
            }
        }),
    decreases v@.len() - i,
{
    let ghost acc_s = views_of(acc@);
    let ghost splits_s = ints_of(splits@);
    if i >= v.len() {
        if acc.len() == 1 {
            let mut acc2 = acc;
            match acc2.pop() {
                Some(b) => {
                    proof {
                        assert(acc_s[0] == body_view(acc2@.push(b)[0]));
                    }
                    return Ok(b);
                },
                None => {
                    proof {
                        assert(false);
                    }
                    return Err(MailError::MalformedBodyStructure);
                },
            }
        }
        return Err(MailError::MalformedBodyStructure);
    }
    let c = v[i];
    if c == '(' && i + 1 < v.len() && v[i + 1] == '(' {
        let mut splits2 = splits;
        splits2.push(acc.len());
        proof {
            assert(ints_of(splits2@) =~= splits_s.push(acc_s.len() as int));
        }
        return parse_loop(v, i + 1, acc, splits2);
    }
    let (res, ni) = if c == 'T' {
        parse_t_exec(v, i + 1)
    } else if c == 'I' {
        (parse_i_exec(v, i + 1), i + 1)
    } else if c == 'A' {
        (parse_a_exec(v, i + 1), i + 1)
    } else if c == 'R' {
        (parse_r_exec(v, i + 1), i + 1)
    } else if c == 'M' {
        (parse_m_exec(v, i + 1), i + 1)
    } else {
        (None, i + 1)
    };
    match res {
        None => parse_loop(v, ni, acc, splits),
        Some(node) => {
            let multi = match &node {
                BodyStructure::Mixed(..) => true,
                BodyStructure::Related(..) => true,
                BodyStructure::Alternative(..) => true,
                _ => false,
            };
            if multi {
                if splits.len() == 0 {
                    return Err(MailError::MalformedBodyStructure);
                }
                let mut splits2 = splits;
                let k = match splits2.pop() {
                    Some(k) => k,
                    None => {
                        proof {
                            assert(false);
                        }
                        return Err(MailError::MalformedBodyStructure);
                    },
                };
                proof {
                    assert(ints_of(splits2@) =~= splits_s.drop_last());
                    assert(splits_s.last() == k as int);
                }
                if k > acc.len() {
                    return Err(MailError::MalformedBodyStructure);
                }
                let mut acc2 = acc;
                let children = acc2.split_off(k);
                let node2 = match node {
                    BodyStructure::Mixed(_, b) => BodyStructure::Mixed(children, b),
                    BodyStructure::Related(_, b) => BodyStructure::Related(children, b),
                    BodyStructure::Alternative(_, b) => BodyStructure::Alternative(children, b),
                    _ => {
                        proof {
                            assert(false);
                        }
                        BodyStructure::Plain
                    },
                };
                let ghost children_s = acc_s.subrange(k as int, acc_s.len() as int);
                acc2.push(node2);
                proof {
                    assert(views_of(acc2@.drop_last()) =~= acc_s.subrange(0, k as int));
                    assert(child_views(children) =~= children_s);
                    assert(body_view(node2) == with_children(body_view(node), children_s));
                    assert(views_of(acc2@) =~= acc_s.subrange(0, k as int).push(
                        with_children(body_view(node), children_s),
                    ));
                }
                parse_loop(v, ni, acc2, splits2)
            } else {
                let mut acc2 = acc;
                acc2.push(node);
                proof {
                    assert(views_of(acc2@) =~= acc_s.push(body_view(node)));
                }
                parse_loop(v, ni, acc2, splits)
            }
        },
    }
}

impl BodyStructure {
    /// Parses the raw text of a `FETCH (BODYSTRUCTURE ...)` reply into the
    /// MIME part tree, exactly as `spec_parse_body` defines it; every
    /// malformed input is rejected.
    pub fn parse(s: &str) -> (r: Result<BodyStructure, MailError>)
        ensures
            match r {
                Ok(b) => spec_parse_body(s@) == Some(b@),
                Err(e) => spec_parse_body(s@) is None && e is MalformedBodyStructure,
            },
    {
        let chars = str_to_chars(s);
        let cmd = command_text(chars.as_slice());
        let acc: Vec<BodyStructure> = Vec::new();
        let mut splits: Vec<usize> = Vec::new();
        splits.push(0);
        proof {
            assert(views_of(acc@) =~= Seq::<BodyNode>::empty());
            assert(ints_of(splits@) =~= seq![0int]);
        }
        parse_loop(cmd.as_slice(), 0, acc, splits)
    }
}

/// Whether the tree holds a plain-text leaf at all.
pub open spec fn has_plain(n: BodyNode) -> bool
    decreases n,
{
    match n {
        BodyNode::Plain => true,
        BodyNode::Html => false,
        BodyNode::Image(_, _) => false,
        BodyNode::Application(_, _) => false,
        BodyNode::Mixed(ch, _) => exists|i: int| 0 <= i < ch.len() && has_plain(ch[i]),
        BodyNode::Related(ch, _) => exists|i: int| 0 <= i < ch.len() && has_plain(ch[i]),
        BodyNode::Alternative(ch, _) => exists|i: int| 0 <= i < ch.len() && has_plain(ch[i]),
    }
}

/// The depth-first, left-to-right path of 1-based child indices leading to
/// the first plain-text leaf; empty when the root itself is that leaf.
pub open spec fn dfs_path(n: BodyNode) -> Option<Seq<int>>
    decreases n,
{
    match n {
        BodyNode::Plain => Some(Seq::empty()),
        BodyNode::Html => None,
        BodyNode::Image(_, _) => None,
        BodyNode::Application(_, _) => None,
        BodyNode::Mixed(ch, _) => dfs_children_path(ch, 0),
        BodyNode::Related(ch, _) => dfs_children_path(ch, 0),
        BodyNode::Alternative(ch, _) => dfs_children_path(ch, 0),
    }
}

pub open spec fn dfs_children_path(ch: Seq<BodyNode>, k: int) -> Option<Seq<int>>
    decreases ch, ch.len() - k,
{
    if k < 0 || k >= ch.len() {
        None
    } else {
        match dfs_path(ch[k]) {
            Some(p) => Some(seq![k + 1] + p),
            None => dfs_children_path(ch, k + 1),
        }
    }
}

/// The search succeeds exactly on the trees that hold a plain-text leaf.
pub proof fn lemma_dfs_path_iff_has_plain(n: BodyNode)
    ensures
        dfs_path(n) is Some <==> has_plain(n),
    decreases n,
{
    match n {
        BodyNode::Mixed(ch, _) => lemma_dfs_children(ch, 0),
        BodyNode::Related(ch, _) => lemma_dfs_children(ch, 0),
        BodyNode::Alternative(ch, _) => lemma_dfs_children(ch, 0),
        _ => {},
    }
}

proof fn lemma_dfs_children(ch: Seq<BodyNode>, k: int)
    requires
        0 <= k <= ch.len(),
    ensures
        dfs_children_path(ch, k) is Some <==> exists|i: int| k <= i < ch.len() && has_plain(
            ch[i],
        ),
    decreases ch, ch.len() - k,
{
    if k < ch.len() {
        lemma_dfs_path_iff_has_plain(ch[k]);
        lemma_dfs_children(ch, k + 1);
        if has_plain(ch[k]) {
            assert(k <= k < ch.len() && has_plain(ch[k]));
        }
    }
}

/// The rendered section path: the 1-based indices in decimal, joined with
/// dots; the path of a tree whose root is the single plain-text leaf is "1".
pub open spec fn spec_section_path(n: BodyNode) -> Option<Seq<char>> {
    match dfs_path(n) {
        Some(p) => Some(
            render_path(
                if p.len() == 0 {
                    seq![1int]
                } else {
                    p
                },
            ),
        ),
        None => None,
    }
}

pub open spec fn render_path(p: Seq<int>) -> Seq<char> {
    join_seq(p.map_values(|x: int| dec_str(x as nat)), seq!['.'])
}

fn find_text_children(ch: &Vec<BodyStructure>, k: usize) -> (r: Option<Vec<usize>>)
    requires
        k <= ch@.len(),
    ensures
        match r {
            Some(p) => dfs_children_path(child_views(*ch), k as int) == Some(ints_of(p@)),
            None => dfs_children_path(child_views(*ch), k as int) is None,
        },
    decreases *ch, ch@.len() - k,
{
    if k >= ch.len() {
        return None;
    }
    match BodyStructure::find_text_dfs(&ch[k]) {
        Some(p) => {
            let mut p2 = p;
            p2.insert(0, k + 1);
            proof {
                assert(ints_of(p2@) =~= seq![k + 1 as int] + ints_of(p2@.drop_first()));
                assert(p2@.drop_first() =~= p2@.subrange(1, p2@.len() as int));
            }
            Some(p2)
        },
        None => find_text_children(ch, k + 1),
    }
}

impl BodyStructure {
    /// The depth-first search for the first plain-text leaf, returning its
    /// raw index path.
    fn find_text_dfs(current: &BodyStructure) -> (r: Option<Vec<usize>>)
        ensures
            match r {
                Some(p) => dfs_path(current@) == Some(ints_of(p@)),
                None => dfs_path(current@) is None,
            },
        decreases *current,
    {
        match current {
            BodyStructure::Plain => {
                let p: Vec<usize> = Vec::new();
                proof {
                    assert(ints_of(p@) =~= Seq::<int>::empty());
                }
                Some(p)
            },
            BodyStructure::Html => None,
            BodyStructure::Image(_) => None,
            BodyStructure::Application(_) => None,
            BodyStructure::Mixed(ch, _) => find_text_children(ch, 0),
            BodyStructure::Related(ch, _) => find_text_children(ch, 0),
            BodyStructure::Alternative(ch, _) => find_text_children(ch, 0),
        }
    }

    /// The section path of the first plain-text leaf, depth first and left to
    /// right, with 1-based indices joined by dots; `None` exactly when the
    /// tree holds no plain-text leaf.
    pub fn find_text(&self) -> (r: Option<String>)
        ensures
            match r {
                Some(t) => spec_section_path(self@) == Some(t@),
                None => spec_section_path(self@) is None,
            },
            r is Some <==> has_plain(self@),
    {
        proof {
            lemma_dfs_path_iff_has_plain(self@);
        }
        match Self::find_text_dfs(self) {
            None => None,
            Some(path) => {
                let effective: Vec<usize> = if path.len() == 0 {
                    let mut p2: Vec<usize> = Vec::new();
                    p2.push(1);
                    proof {
                        assert(ints_of(p2@) =~= seq![1int]);
                    }
                    p2
                } else {
                    path
                };
                let mut pieces: Vec<Vec<char>> = Vec::new();
                let mut k: usize = 0;
                while k < effective.len()
                    invariant
                        k <= effective@.len(),
                        pieces.deep_view() =~= ints_of(effective@).subrange(0, k as int)
                            .map_values(|x: int| dec_str(x as nat)),
                    decreases effective@.len() - k,
                {
                    let piece = render_usize_chars(effective[k]);
                    let ghost old_deep = pieces.deep_view();
                    pieces.push(piece);
                    proof {
                        assert(piece.deep_view() =~= dec_str(effective@[k as int] as nat));
                        assert(pieces.deep_view() =~= old_deep.push(piece.deep_view()));
                        assert(ints_of(effective@).subrange(0, k + 1).map_values(
                            |x: int| dec_str(x as nat),
                        ) =~= old_deep.push(dec_str(effective@[k as int] as nat)));
                    }
                    k = k + 1;
                }
                let dot: [char; 1] = ['.'];
                let joined = join_exec(&pieces, dot.as_slice());
                proof {
                    assert(ints_of(effective@).subrange(0, effective@.len() as int) =~= ints_of(
                        effective@,
                    ));
                    assert(dot@ =~= seq!['.']);
                }
                Some(chars_to_string(joined.as_slice()))
            },
        }
    }
}

/// Whether `b` is the content of some quoted string of `s`, read exactly as
/// the scanner reads quoted text.
pub open spec fn quoted_verbatim(s: Seq<char>, b: Seq<char>) -> bool {
    exists|i: int| #[trigger] spec_get_quoted(s, i) is Some && (spec_get_quoted(s, i)->0).0 == b
}

/// Whether every multipart node of the tree carries a boundary that stands
/// quoted verbatim in the text `s`, children included.
pub open spec fn boundaries_from(s: Seq<char>, n: BodyNode) -> bool
    decreases n,
{
    match n {
        BodyNode::Mixed(ch, b) => quoted_verbatim(s, b) && (forall|i: int|
            0 <= i < ch.len() ==> boundaries_from(s, #[trigger] ch[i])),
        BodyNode::Related(ch, b) => quoted_verbatim(s, b) && (forall|i: int|
            0 <= i < ch.len() ==> boundaries_from(s, #[trigger] ch[i])),
        BodyNode::Alternative(ch, b) => quoted_verbatim(s, b) && (forall|i: int|
            0 <= i < ch.len() ==> boundaries_from(s, #[trigger] ch[i])),
        _ => true,
    }
}

proof fn lemma_quoted_end_props(s: Seq<char>, j: int)
    ensures
        quoted_end(s, j) matches Some(q) ==> j <= q < s.len() && s[q] == '"',
    decreases s.len() - j,
{
    if 0 <= j < s.len() && !(j + 1 < s.len() && s[j + 1] == '"' && s[j] != '\\') {
        lemma_quoted_end_props(s, j + 1);
    }
}

/// What a quoted reading preserves: the content is, character for character,
/// the text standing between an opening and a closing double quote of `s`,
/// with nothing unescaped or altered.
pub proof fn lemma_quoted_verbatim_is_subrange(s: Seq<char>, b: Seq<char>)
    requires
        quoted_verbatim(s, b),
    ensures
        exists|i: int, q: int|
            0 <= i && i + 1 <= q < s.len() && s[i] == '"' && s[q] == '"' && b == s.subrange(
                i + 1,
                q,
            ),
{
    let i = choose|i: int|
        #[trigger] spec_get_quoted(s, i) is Some && (spec_get_quoted(s, i)->0).0 == b;
    lemma_quoted_end_props(s, i + 1);
    let q = quoted_end(s, i + 1)->0;
    assert(0 <= i && i + 1 <= q < s.len() && s[i] == '"' && s[q] == '"' && b == s.subrange(
        i + 1,
        q,
    ));
}

proof fn lemma_find_boundary_verbatim(s: Seq<char>, j: int)
    ensures
        spec_find_boundary(s, j) matches Some(pr) ==> quoted_verbatim(s, pr.0),
    decreases s.len() - j,
{
    if 0 <= j < s.len() {
        if s[j] == '(' {
            if matches_at(s, j + 1, "\"BOUNDARY\" \""@) && spec_get_quoted(s, j + 12) is Some {
                assert(quoted_verbatim(s, (spec_get_quoted(s, j + 12)->0).0));
            }
        } else {
            lemma_find_boundary_verbatim(s, j + 1);
        }
    }
}

proof fn lemma_parse_a_boundary(s: Seq<char>, i: int)
    ensures
        spec_parse_a(s, i) matches Some(n) ==> boundaries_from(s, n),
{
    if matches_at(s, i, "LTERNATIVE\""@) {
        lemma_find_boundary_verbatim(s, i + 11);
    }
}

proof fn lemma_parse_r_boundary(s: Seq<char>, i: int)
    ensures
        spec_parse_r(s, i) matches Some(n) ==> boundaries_from(s, n),
{
    lemma_find_boundary_verbatim(s, i + 7);
}

proof fn lemma_parse_m_boundary(s: Seq<char>, i: int)
    ensures
        spec_parse_m(s, i) matches Some(n) ==> boundaries_from(s, n),
{
    lemma_find_boundary_verbatim(s, i + 5);
}

proof fn lemma_parse_loop_boundaries(s: Seq<char>, i: int, acc: Seq<BodyNode>, splits: Seq<int>)
    requires
        forall|t: int| 0 <= t < acc.len() ==> boundaries_from(s, #[trigger] acc[t]),
    ensures
        spec_parse_loop(s, i, acc, splits) matches Some(n) ==> boundaries_from(s, n),
    decreases s.len() - i,
{
    if i < 0 || i >= s.len() {
    } else {
        let c = s[i];
        if c == '(' && i + 1 < s.len() && s[i + 1] == '(' {
            lemma_parse_loop_boundaries(s, i + 1, acc, splits.push(acc.len() as int));
        } else {
            let pr = if c == 'T' {
                spec_parse_t(s, i + 1)
            } else if c == 'I' {
                (spec_parse_i(s, i + 1), i + 1)
            } else if c == 'A' {
                (spec_parse_a(s, i + 1), i + 1)
            } else if c == 'R' {
                (spec_parse_r(s, i + 1), i + 1)
            } else if c == 'M' {
                (spec_parse_m(s, i + 1), i + 1)
            } else {
                (None::<BodyNode>, i + 1)
            };
            if i < pr.1 <= s.len() {
                match pr.0 {
                    None => lemma_parse_loop_boundaries(s, pr.1, acc, splits),
                    Some(n) => {
                        if c == 'A' {
                            lemma_parse_a_boundary(s, i + 1);
                        }
                        if c == 'R' {
                            lemma_parse_r_boundary(s, i + 1);
                        }
                        if c == 'M' {
                            lemma_parse_m_boundary(s, i + 1);
                        }
                        assert(boundaries_from(s, n));
                        if is_multipart(n) {
                            if splits.len() > 0 {
                                let k = splits.last();
                                if 0 <= k <= acc.len() {
                                    let children = acc.subrange(k, acc.len() as int);
                                    let node2 = with_children(n, children);
                                    assert forall|t: int|
                                        0 <= t < children.len() implies boundaries_from(
                                        s,
                                        #[trigger] children[t],
                                    ) by {
                                        assert(children[t] == acc[k + t]);
                                    }
                                    assert(boundaries_from(s, node2));
                                    let acc2 = acc.subrange(0, k).push(node2);
                                    assert forall|t: int|
                                        0 <= t < acc2.len() implies boundaries_from(
                                        s,
                                        #[trigger] acc2[t],
                                    ) by {
                                        if t < k {
                                            assert(acc2[t] == acc[t]);
                                        } else {
                                            assert(acc2[t] == node2);
                                        }
                                    }
                                    lemma_parse_loop_boundaries(s, pr.1, acc2, splits.drop_last());
                                }
                            }
                        } else {
                            let acc2 = acc.push(n);
                            assert forall|t: int|
                                0 <= t < acc2.len() implies boundaries_from(
                                s,
                                #[trigger] acc2[t],
                            ) by {
                                if t < acc.len() {
                                    assert(acc2[t] == acc[t]);
                                } else {
                                    assert(acc2[t] == n);
                                }
                            }
                            lemma_parse_loop_boundaries(s, pr.1, acc2, splits);
                        }
                    },
                }
            }
        }
    }
}

/// Boundary strings survive parsing exactly as quoted in the input: every
/// multipart node of any accepted reply carries, character for character, the
/// text standing between a pair of double quotes of the scanned text, with
/// escapes kept verbatim and nothing altered.
pub proof fn lemma_parse_boundaries_verbatim(s: Seq<char>)
    ensures
        spec_parse_body(s) matches Some(n) ==> boundaries_from(spec_command_text(s), n),
{
    if spec_parse_body(s) is Some {
        lemma_parse_loop_boundaries(spec_command_text(s), 0, Seq::empty(), seq![0int]);
    }
}

} // verus!
