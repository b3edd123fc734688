use vstd::prelude::*;
use vstd::slice::{slice_subrange, slice_to_vec};

verus! {

/// Whether pattern `p` occurs in `s` starting at position `i`.
pub open spec fn matches_at(s: Seq<char>, i: int, p: Seq<char>) -> bool {
    0 <= i && i + p.len() <= s.len() && s.subrange(i, i + p.len()) == p
}

/// Whether `s` contains `p` anywhere.
pub open spec fn contains_seq(s: Seq<char>, p: Seq<char>) -> bool {
    exists|i: int| matches_at(s, i, p)
}

/// The pieces of `s` between non-overlapping, leftmost-first occurrences of
/// `p`; one piece more than there are occurrences.
pub open spec fn split_seq(s: Seq<char>, p: Seq<char>) -> Seq<Seq<char>>
    decreases s.len(),
{
    if p.len() == 0 || s.len() == 0 {
        seq![s]
    } else if matches_at(s, 0, p) {
        seq![Seq::<char>::empty()] + split_seq(s.subrange(p.len() as int, s.len() as int), p)
    } else {
        let r = split_seq(s.subrange(1, s.len() as int), p);
        seq![seq![s[0]] + r.first()] + r.drop_first()
    }
}

pub proof fn lemma_split_seq_nonempty(s: Seq<char>, p: Seq<char>)
    ensures
        split_seq(s, p).len() >= 1,
    decreases s.len(),
{
    if !(p.len() == 0 || s.len() == 0) && !matches_at(s, 0, p) {
        lemma_split_seq_nonempty(s.subrange(1, s.len() as int), p);
    }
}

/// Occurrences shift with the suffix they are found in.
proof fn lemma_matches_at_offset(s: Seq<char>, from: int, k: int, p: Seq<char>)
    requires
        0 <= from <= s.len(),
        0 <= k,
    ensures
        matches_at(s.subrange(from, s.len() as int), k, p) <==> matches_at(s, from + k, p),
{
    let suf = s.subrange(from, s.len() as int);
    if k + p.len() <= suf.len() {
        assert(suf.subrange(k, k + p.len()) =~= s.subrange(from + k, from + k + p.len()));
    }
}

/// Splitting at the first occurrence: the piece before it, then the split of
/// what follows it.
proof fn lemma_split_seq_first(s: Seq<char>, p: Seq<char>, j: int)
    requires
        p.len() >= 1,
        matches_at(s, j, p),
        forall|k: int| 0 <= k < j ==> !matches_at(s, k, p),
    ensures
        split_seq(s, p) == seq![s.subrange(0, j)] + split_seq(
            s.subrange(j + p.len(), s.len() as int),
            p,
        ),
    decreases j,
{
    if j == 0 {
        assert(split_seq(s, p) == seq![Seq::<char>::empty()] + split_seq(
            s.subrange(p.len() as int, s.len() as int),
            p,
        ));
        assert(s.subrange(0, 0) =~= Seq::<char>::empty());
        assert(seq![s.subrange(0, 0)] =~= seq![Seq::<char>::empty()]);
    } else {
        let s1 = s.subrange(1, s.len() as int);
        assert(!matches_at(s, 0, p));
        assert forall|k: int| 0 <= k < j - 1 implies !matches_at(s1, k, p) by {
            lemma_matches_at_offset(s, 1, k, p);
        }
        assert(matches_at(s1, j - 1, p)) by {
            lemma_matches_at_offset(s, 1, j - 1, p);
        }
        lemma_split_seq_first(s1, p, j - 1);
        let r = split_seq(s1, p);
        assert(s1.subrange(0, j - 1) =~= s.subrange(1, j));
        assert(s1.subrange(j - 1 + p.len(), s1.len() as int) =~= s.subrange(
            j + p.len(),
            s.len() as int,
        ));
        let rest = split_seq(s.subrange(j + p.len(), s.len() as int), p);
        assert(r == seq![s.subrange(1, j)] + rest);
        assert(r.first() == s.subrange(1, j));
        assert(seq![s[0]] + r.first() =~= s.subrange(0, j));
        assert(r.drop_first() =~= rest);
        assert(split_seq(s, p) == seq![seq![s[0]] + r.first()] + r.drop_first());
        assert(seq![seq![s[0]] + r.first()] + r.drop_first() =~= seq![s.subrange(0, j)] + rest);
    }
}

/// With no occurrence at all, the split is the whole string as one piece.
proof fn lemma_split_seq_none(s: Seq<char>, p: Seq<char>)
    requires
        p.len() >= 1,
        forall|k: int| !matches_at(s, k, p),
    ensures
        split_seq(s, p) == seq![s],
    decreases s.len(),
{
    if s.len() == 0 {
    } else {
        let s1 = s.subrange(1, s.len() as int);
        assert forall|k: int| !matches_at(s1, k, p) by {
            if k >= 0 {
                lemma_matches_at_offset(s, 1, k, p);
            }
        }
        lemma_split_seq_none(s1, p);
        let r = split_seq(s1, p);
        assert(r.drop_first() =~= Seq::<Seq<char>>::empty());
        assert(seq![s[0]] + r.first() =~= s);
        assert(seq![seq![s[0]] + r.first()] + r.drop_first() =~= seq![s]);
    }
}

/// Whether `p` occurs at position `i`, executably.
pub fn matches_at_exec(v: &[char], i: usize, p: &[char]) -> (r: bool)
    ensures
        r == matches_at(v@, i as int, p@),
{
    if i > v.len() || p.len() > v.len() - i {
        return false;
    }
    let mut j: usize = 0;
    while j < p.len()
        invariant
            i + p@.len() <= v@.len() <= usize::MAX,
            j <= p@.len(),
            forall|k: int| 0 <= k < j ==> v@[i + k] == p@[k],
        decreases p@.len() - j,
    {
        if v[i + j] != p[j] {
            proof {
                assert(v@.subrange(i as int, i + p@.len())[j as int] == v@[i + j]);
            }
            return false;
        }
        j = j + 1;
    }
    proof {
        assert(v@.subrange(i as int, i + p@.len()) =~= p@);
    }
    true
}

/// The first occurrence of `p` at or after `from`, if any.
pub fn find_match_from(v: &[char], from: usize, p: &[char]) -> (r: Option<usize>)
    requires
        p@.len() >= 1,
    ensures
        match r {
            Some(j) => from <= j && matches_at(v@, j as int, p@) && forall|k: int|
                from <= k < j ==> !matches_at(v@, k, p@),
            None => forall|k: int| from <= k ==> !matches_at(v@, k, p@),
        },
{
    if p.len() > v.len() || from > v.len() - p.len() {
        return None;
    }
    let mut i: usize = from;
    while i <= v.len() - p.len()
        invariant
            1 <= p@.len() <= v@.len() <= usize::MAX,
            from <= i,
            forall|k: int| from <= k < i ==> !matches_at(v@, k, p@),
        decreases v@.len() - i,
    {
        if matches_at_exec(v, i, p) {
            return Some(i);
        }
        i = i + 1;
    }
    None
}

/// Whether `p` occurs anywhere in `v`.
pub fn contains_exec(v: &[char], p: &[char]) -> (r: bool)
    requires
        p@.len() >= 1,
    ensures
        r == contains_seq(v@, p@),
{
    match find_match_from(v, 0, p) {
        Some(j) => {
            proof {
                assert(matches_at(v@, j as int, p@));
            }
            true
        },
        None => false,
    }
}

/// Splits `v` on every occurrence of `p`, leftmost first.
pub fn split_seq_exec(v: &[char], p: &[char]) -> (r: Vec<Vec<char>>)
    requires
        p@.len() >= 1,
    ensures
        r.deep_view() == split_seq(v@, p@),
{
    let mut done: Vec<Vec<char>> = Vec::new();
    let mut from: usize = 0;
    proof {
        vstd::slice::axiom_spec_len(v);
        assert(v@.subrange(0, v@.len() as int) =~= v@);
        assert(done.deep_view() =~= Seq::<Seq<char>>::empty());
        assert(done.deep_view() + split_seq(v@, p@) =~= split_seq(v@, p@));
    }
    loop
        invariant
            from <= v@.len() <= usize::MAX,
            p@.len() >= 1,
            split_seq(v@, p@) == done.deep_view() + split_seq(
                v@.subrange(from as int, v@.len() as int),
                p@,
            ),
        decreases v@.len() - from,
    {
        let ghost suf = v@.subrange(from as int, v@.len() as int);
        match find_match_from(v, from, p) {
            None => {
                let piece = slice_to_vec(slice_subrange(v, from, v.len()));
                proof {
                    assert forall|k: int| !matches_at(suf, k, p@) by {
                        if k >= 0 {
                            lemma_matches_at_offset(v@, from as int, k, p@);
                        }
                    }
                    lemma_split_seq_none(suf, p@);
                }
                let ghost old_deep = done.deep_view();
                done.push(piece);
                proof {
                    assert(piece.deep_view() =~= suf);
                    assert(done.deep_view() =~= old_deep.push(suf));
                    assert(done.deep_view() =~= old_deep + seq![suf]);
                }
                return done;
            },
            Some(j) => {
                proof {
                    assert(j + p@.len() <= v@.len());
                }
                let piece = slice_to_vec(slice_subrange(v, from, j));
                proof {
                    assert(matches_at(suf, j - from, p@)) by {
                        lemma_matches_at_offset(v@, from as int, j - from, p@);
                    }
                    assert forall|k: int| 0 <= k < j - from implies !matches_at(suf, k, p@) by {
                        lemma_matches_at_offset(v@, from as int, k, p@);
                    }
                    lemma_split_seq_first(suf, p@, j - from);
                    assert(suf.subrange(0, j - from) =~= v@.subrange(from as int, j as int));
                    assert(suf.subrange(j - from + p@.len(), suf.len() as int) =~= v@.subrange(
                        j + p@.len(),
                        v@.len() as int,
                    ));
                }
                let ghost old_deep = done.deep_view();
                done.push(piece);
                from = j + p.len();
                proof {
                    assert(piece.deep_view() =~= v@.subrange(
                        from - p@.len() - piece@.len(),
                        from - p@.len(),
                    ));
                    assert(done.deep_view() =~= old_deep.push(piece.deep_view()));
                    assert(split_seq(v@, p@) == done.deep_view() + split_seq(
                        v@.subrange(from as int, v@.len() as int),
                        p@,
                    ));
                }
            },
        }
    }
}

/// Joining pieces with a separator between each adjacent pair.
pub open spec fn join_seq(items: Seq<Seq<char>>, sep: Seq<char>) -> Seq<char>
    decreases items.len(),
{
    if items.len() == 0 {
        Seq::empty()
    } else if items.len() == 1 {
        items[0]
    } else {
        items[0] + sep + join_seq(items.drop_first(), sep)
    }
}

proof fn lemma_join_push(items: Seq<Seq<char>>, x: Seq<char>, sep: Seq<char>)
    ensures
        join_seq(items.push(x), sep) == if items.len() == 0 {
            x
        } else {
            join_seq(items, sep) + sep + x
        },
    decreases items.len(),
{
    if items.len() == 0 {
        assert(items.push(x)[0] == x);
    } else if items.len() == 1 {
        assert(items.push(x).drop_first() =~= seq![x]);
        assert(items.push(x)[0] == items[0]);
        assert(join_seq(seq![x], sep) == x);
        assert(join_seq(items.push(x), sep) =~= join_seq(items, sep) + sep + x);
    } else {
        lemma_join_push(items.drop_first(), x, sep);
        assert(items.push(x).drop_first() =~= items.drop_first().push(x));
        assert(items.push(x)[0] == items[0]);
        assert(join_seq(items.push(x), sep) == items[0] + sep + (join_seq(
            items.drop_first(),
            sep,
        ) + sep + x));
        assert(join_seq(items.push(x), sep) =~= join_seq(items, sep) + sep + x);
    }
}

/// Joins pieces with a separator, as the spec-level `join_seq` says.
pub fn join_exec(items: &Vec<Vec<char>>, sep: &[char]) -> (r: Vec<char>)
    ensures
        r@ == join_seq(items.deep_view(), sep@),
{
    let mut r: Vec<char> = Vec::new();
    let mut i: usize = 0;
    while i < items.len()
        invariant
            i <= items@.len(),
            r@ == join_seq(items.deep_view().subrange(0, i as int), sep@),
        decreases items@.len() - i,
    {
        if i > 0 {
            let mut k: usize = 0;
            while k < sep.len()
                invariant
                    k <= sep@.len(),
                    i <= items@.len(),
                    r@ == join_seq(items.deep_view().subrange(0, i as int), sep@)
                        + sep@.subrange(0, k as int),
                decreases sep@.len() - k,
            {
                r.push(sep[k]);
                proof {
                    assert(sep@.subrange(0, k + 1) =~= sep@.subrange(0, k as int).push(
                        sep@[k as int],
                    ));
                }
                k = k + 1;
            }
            proof {
                assert(sep@.subrange(0, sep@.len() as int) =~= sep@);
            }
        }
        let piece = &items[i];
        let ghost base = r@;
        let mut k: usize = 0;
        while k < piece.len()
            invariant
                k <= piece@.len(),
                r@ == base + piece@.subrange(0, k as int),
            decreases piece@.len() - k,
        {
            r.push(piece[k]);
            proof {
                assert(piece@.subrange(0, k + 1) =~= piece@.subrange(0, k as int).push(
                    piece@[k as int],
                ));
            }
            k = k + 1;
        }
        proof {
            assert(piece@.subrange(0, piece@.len() as int) =~= piece@);
            assert(piece.deep_view() =~= piece@);
            let pre = items.deep_view().subrange(0, i as int);
            lemma_join_push(pre, piece@, sep@);
            assert(pre.push(piece@) =~= items.deep_view().subrange(0, i + 1));
        }
        i = i + 1;
    }
    proof {
        assert(items.deep_view().subrange(0, items@.len() as int) =~= items.deep_view());
    }
    r
}

/// The first occurrence of the character `c` at or after `j`.
pub open spec fn find_char(s: Seq<char>, c: char, j: int) -> Option<int>
    decreases s.len() - j,
{
    if j < 0 || j >= s.len() {
        None
    } else if s[j] == c {
        Some(j)
    } else {
        find_char(s, c, j + 1)
    }
}

/// Finds the first occurrence of `c` at or after `j`, as `find_char` says.
pub fn find_char_exec(v: &[char], c: char, j: usize) -> (r: Option<usize>)
    ensures
        match r {
            Some(p) => find_char(v@, c, j as int) == Some(p as int) && j <= p < v@.len(),
            None => find_char(v@, c, j as int) is None,
        },
    decreases v@.len() - j,
{
    if j >= v.len() {
        None
    } else if v[j] == c {
        Some(j)
    } else {
        find_char_exec(v, c, j + 1)
    }
}

/// Whether two character sequences are equal.
pub fn seq_eq(a: &[char], b: &[char]) -> (r: bool)
    ensures
        r == (a@ == b@),
{
    if a.len() != b.len() {
        return false;
    }
    if matches_at_exec(a, 0, b) {
        proof {
            assert(a@.subrange(0, b@.len() as int) =~= a@);
        }
        true
    } else {
        proof {
            assert(a@.subrange(0, b@.len() as int) =~= a@);
        }
        false
    }
}

/// A piece split at a `'\n'` loses one trailing `'\r'`, as text lines do.
pub open spec fn strip_cr(p: Seq<char>) -> Seq<char> {
    if p.len() > 0 && p.last() == '\r' {
        p.drop_last()
    } else {
        p
    }
}

/// The lines of `s`: split at `'\n'`, a trailing `'\r'` removed from every
/// line that was newline-terminated, and no final empty line when the text
/// ends with a newline.
pub open spec fn spec_lines(s: Seq<char>) -> Seq<Seq<char>> {
    let ps = split_seq(s, seq!['\n']);
    if ps.last().len() == 0 {
        ps.drop_last().map_values(|p: Seq<char>| strip_cr(p))
    } else {
        ps.subrange(0, ps.len() - 1).map_values(|p: Seq<char>| strip_cr(p)).push(ps.last())
    }
}

/// Splits text into lines, as `spec_lines` says.
pub fn lines_exec(v: &[char]) -> (r: Vec<Vec<char>>)
    ensures
        r.deep_view() == spec_lines(v@),
{
    let nl: [char; 1] = ['\n'];
    let mut ps = split_seq_exec(v, nl.as_slice());
    proof {
        lemma_split_seq_nonempty(v@, seq!['\n']);
        assert(nl@ =~= seq!['\n']);
    }
    let ghost whole = ps.deep_view();
    let last_empty = ps[ps.len() - 1].len() == 0;
    let keep: usize = ps.len() - 1;
    let mut r: Vec<Vec<char>> = Vec::new();
    let mut i: usize = 0;
    while i < keep
        invariant
            keep == ps@.len() - 1,
            i <= keep,
            ps.deep_view() == whole,
            r.deep_view() =~= whole.subrange(0, i as int).map_values(
                |p: Seq<char>| strip_cr(p),
            ),
        decreases keep - i,
    {
        let piece = &ps[i];
        let ghost old_deep = r.deep_view();
        if piece.len() > 0 && piece[piece.len() - 1] == '\r' {
            let stripped = slice_to_vec(slice_subrange(piece.as_slice(), 0, piece.len() - 1));
            proof {
                assert(piece@.subrange(0, piece@.len() - 1) =~= piece@.drop_last());
                assert(stripped.deep_view() =~= strip_cr(whole[i as int]));
            }
            r.push(stripped);
        } else {
            let copied = slice_to_vec(slice_subrange(piece.as_slice(), 0, piece.len()));
            proof {
                assert(piece@.subrange(0, piece@.len() as int) =~= piece@);
                assert(copied.deep_view() =~= strip_cr(whole[i as int]));
            }
            r.push(copied);
        }
        proof {
            assert(r.deep_view() =~= old_deep.push(strip_cr(whole[i as int])));
            assert(whole.subrange(0, i + 1).map_values(|p: Seq<char>| strip_cr(p)) =~= whole
                .subrange(0, i as int).map_values(|p: Seq<char>| strip_cr(p)).push(
                strip_cr(whole[i as int]),
            ));
        }
        i = i + 1;
    }
    if !last_empty {
        let piece = &ps[keep];
        let copied = slice_to_vec(slice_subrange(piece.as_slice(), 0, piece.len()));
        let ghost old_deep = r.deep_view();
        r.push(copied);
        proof {
            assert(copied.deep_view() =~= whole.last());
            assert(r.deep_view() =~= old_deep.push(whole.last()));
            assert(whole.subrange(0, keep as int) =~= whole.subrange(0, whole.len() - 1));
            assert(r.deep_view() =~= spec_lines(v@));
        }
    } else {
        proof {
            assert(whole.subrange(0, keep as int) =~= whole.drop_last());
            assert(r.deep_view() =~= spec_lines(v@));
        }
    }
    r
}

/// The simple whitespace set of the line protocols.
pub open spec fn is_ws(c: char) -> bool {
    c == ' ' || c == '\t' || c == '\r' || c == '\n'
}

/// `s` without its trailing whitespace.
pub open spec fn trim_end_ws(s: Seq<char>) -> Seq<char>
    decreases s.len(),
{
    if s.len() > 0 && is_ws(s.last()) {
        trim_end_ws(s.drop_last())
    } else {
        s
    }
}

/// What trimming leaves never ends in whitespace.
pub proof fn lemma_trim_end_last(s: Seq<char>)
    ensures
        trim_end_ws(s).len() == 0 || !is_ws(trim_end_ws(s).last()),
    decreases s.len(),
{
    if s.len() > 0 && is_ws(s.last()) {
        lemma_trim_end_last(s.drop_last());
    }
}

/// Removes trailing whitespace, as `trim_end_ws` says.
pub fn trim_end_exec(v: &[char]) -> (r: Vec<char>)
    ensures
        r@ == trim_end_ws(v@),
{
    let mut end: usize = v.len();
    proof {
        assert(v@.subrange(0, v@.len() as int) =~= v@);
    }
    while end > 0 && (v[end - 1] == ' ' || v[end - 1] == '\t' || v[end - 1] == '\r' || v[end - 1]
        == '\n')
        invariant
            end <= v@.len(),
            trim_end_ws(v@) == trim_end_ws(v@.subrange(0, end as int)),
        decreases end,
    {
        proof {
            assert(v@.subrange(0, end as int).drop_last() =~= v@.subrange(0, end - 1));
        }
        end = end - 1;
    }
    let r = slice_to_vec(slice_subrange(v, 0, end));
    proof {
        assert(trim_end_ws(v@.subrange(0, end as int)) == v@.subrange(0, end as int));
    }
    r
}

} // verus!
