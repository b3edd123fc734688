use vstd::prelude::*;
use vstd::slice::{slice_subrange, slice_to_vec};

verus! {

/// Position of the quote that closes a quoted string whose content starts at
/// `j`: the first position `q > j` holding a `'"'` that does not directly
/// follow a backslash (a backslash-escaped quote stays inside the string).
pub open spec fn quoted_end(s: Seq<char>, j: int) -> Option<int>
    decreases s.len() - j,
{
    if j < 0 || j >= s.len() {
        None
    } else if j + 1 < s.len() && s[j + 1] == '"' && s[j] != '\\' {
        Some(j + 1)
    } else {
        quoted_end(s, j + 1)
    }
}

/// A quoted string read at position `i`: `s[i]` must be the opening quote;
/// the result is the content between the quotes and the position just past
/// the closing quote.
pub open spec fn spec_get_quoted(s: Seq<char>, i: int) -> Option<(Seq<char>, int)> {
    if 0 <= i < s.len() && s[i] == '"' {
        match quoted_end(s, i + 1) {
            Some(q) => Some((s.subrange(i + 1, q), q + 1)),
            None => None,
        }
    } else {
        None
    }
}

fn quoted_end_exec(v: &[char], j: usize) -> (r: Option<usize>)
    ensures
        match r {
            Some(q) => quoted_end(v@, j as int) == Some(q as int) && j < q < v@.len(),
            None => quoted_end(v@, j as int) is None,
        },
    decreases v@.len() - j,
{
    if j >= v.len() {
        return None;
    }
    if j + 1 < v.len() && v[j + 1] == '"' && v[j] != '\\' {
        Some(j + 1)
    } else {
        quoted_end_exec(v, j + 1)
    }
}

/// Reads a quoted string at position `i`, as `spec_get_quoted` says.
pub fn get_quoted(v: &[char], i: usize) -> (r: Option<(Vec<char>, usize)>)
    ensures
        match r {
            Some(p) => spec_get_quoted(v@, i as int) == Some((p.0@, p.1 as int)) && p.1
                <= v@.len(),
            None => spec_get_quoted(v@, i as int) is None,
        },
{
    if i >= v.len() || v[i] != '"' {
        return None;
    }
    match quoted_end_exec(v, i + 1) {
        Some(q) => {
            let content = slice_to_vec(slice_subrange(v, i + 1, q));
            Some((content, q + 1))
        },
        None => None,
    }
}

/// The scan that consumes through the parenthesis closing the group the
/// reader stands in: depth is tracked across nested groups, and quoted text
/// is skipped so that a quoted `')'` does not close anything. The result is
/// the position just past the closing parenthesis.
pub open spec fn paren_scan(s: Seq<char>, j: int, depth: int, in_q: bool) -> Option<int>
    decreases s.len() - j,
{
    if j < 0 || j >= s.len() {
        None
    } else {
        let c = s[j];
        let peek_q = j + 1 < s.len() && s[j + 1] == '"';
        if !in_q && c == '(' {
            paren_scan(s, j + 1, depth + 1, false)
        } else if !in_q && c == ')' {
            if depth == 0 {
                Some(j + 1)
            } else {
                paren_scan(s, j + 1, depth - 1, false)
            }
        } else if !in_q && c == '"' {
            paren_scan(s, j + 1, depth, true)
        } else if in_q && c == '\\' && peek_q {
            paren_scan(s, j + 2, depth, true)
        } else if in_q && peek_q {
            paren_scan(s, j + 2, depth, false)
        } else {
            paren_scan(s, j + 1, depth, in_q)
        }
    }
}

/// Consumes through the matching close parenthesis, as `paren_scan` says.
pub fn consume_until_end_paren(v: &[char], j: usize, depth: usize, in_q: bool) -> (r: Option<
    usize,
>)
    requires
        depth <= j,
    ensures
        match r {
            Some(ni) => paren_scan(v@, j as int, depth as int, in_q) == Some(ni as int) && j < ni
                <= v@.len(),
            None => paren_scan(v@, j as int, depth as int, in_q) is None,
        },
    decreases v@.len() - j,
{
    if j >= v.len() {
        return None;
    }
    let c = v[j];
    let peek_q = j + 1 < v.len() && v[j + 1] == '"';
    if !in_q && c == '(' {
        consume_until_end_paren(v, j + 1, depth + 1, false)
    } else if !in_q && c == ')' {
        if depth == 0 {
            Some(j + 1)
        } else {
            consume_until_end_paren(v, j + 1, depth - 1, false)
        }
    } else if !in_q && c == '"' {
        consume_until_end_paren(v, j + 1, depth, true)
    } else if in_q && c == '\\' && peek_q {
        consume_until_end_paren(v, j + 2, depth, true)
    } else if in_q && peek_q {
        consume_until_end_paren(v, j + 2, depth, false)
    } else {
        consume_until_end_paren(v, j + 1, depth, in_q)
    }
}

/// The first `'('` at or after `j`.
pub open spec fn first_open(s: Seq<char>, j: int) -> Option<int>
    decreases s.len() - j,
{
    if j < 0 || j >= s.len() {
        None
    } else if s[j] == '(' {
        Some(j)
    } else {
        first_open(s, j + 1)
    }
}

/// Finds the first `'('` at or after `j`, as `first_open` says.
pub fn first_open_exec(v: &[char], j: usize) -> (r: Option<usize>)
    ensures
        match r {
            Some(p) => first_open(v@, j as int) == Some(p as int) && j <= p < v@.len(),
            None => first_open(v@, j as int) is None,
        },
    decreases v@.len() - j,
{
    if j >= v.len() {
        None
    } else if v[j] == '(' {
        Some(j)
    } else {
        first_open_exec(v, j + 1)
    }
}

} // verus!
