use vstd::prelude::*;

verus! {

/// The decimal digit character for a value below ten.
pub open spec fn digit_char(d: int) -> char {
    if d == 0 {
        '0'
    } else if d == 1 {
        '1'
    } else if d == 2 {
        '2'
    } else if d == 3 {
        '3'
    } else if d == 4 {
        '4'
    } else if d == 5 {
        '5'
    } else if d == 6 {
        '6'
    } else if d == 7 {
        '7'
    } else if d == 8 {
        '8'
    } else {
        '9'
    }
}

/// The usual decimal rendering of a natural number, without sign or leading
/// zeros (a single `'0'` for zero).
pub open spec fn dec_str(n: nat) -> Seq<char>
    decreases n,
{
    if n < 10 {
        seq![digit_char(n as int)]
    } else {
        dec_str(n / 10).push(digit_char((n % 10) as int))
    }
}

pub open spec fn is_digit(c: char) -> bool {
    '0' <= c && c <= '9'
}

pub open spec fn digit_val(c: char) -> int {
    c as int - 48
}

/// The value of a digit string, most significant digit first.
pub open spec fn digits_val(s: Seq<char>) -> int
    decreases s.len(),
{
    if s.len() == 0 {
        0
    } else {
        digits_val(s.drop_last()) * 10 + digit_val(s.last())
    }
}

/// The digits of a numeric token: everything after an optional leading `'+'`.
pub open spec fn num_body(s: Seq<char>) -> Seq<char> {
    if s.len() > 0 && s[0] == '+' {
        s.subrange(1, s.len() as int)
    } else {
        s
    }
}

/// Whether `s` is accepted by the standard decimal parse for `usize`:
/// an optional `'+'`, then one or more digits, with a value that fits.
pub open spec fn parses_as_usize(s: Seq<char>) -> bool {
    &&& num_body(s).len() > 0
    &&& (forall|i: int| 0 <= i < num_body(s).len() ==> is_digit(num_body(s)[i]))
    &&& digits_val(num_body(s)) <= usize::MAX
}

pub open spec fn usize_token_value(s: Seq<char>) -> int {
    digits_val(num_body(s))
}

/// Whether `s` is accepted by the standard decimal parse for `u32`.
pub open spec fn parses_as_u32(s: Seq<char>) -> bool {
    parses_as_usize(s) && usize_token_value(s) <= u32::MAX
}

/// The value of the first word that reads as a 32-bit number, from position
/// `k` on.
pub open spec fn first_u32_word(ws: Seq<Seq<char>>, k: int) -> Option<int>
    decreases ws.len() - k,
{
    if k < 0 || k >= ws.len() {
        None
    } else if parses_as_u32(ws[k]) {
        Some(usize_token_value(ws[k]))
    } else {
        first_u32_word(ws, k + 1)
    }
}

/// The value of the first word that reads as a number, from position `k` on.
pub open spec fn first_numeric_word(ws: Seq<Seq<char>>, k: int) -> Option<int>
    decreases ws.len() - k,
{
    if k < 0 || k >= ws.len() {
        None
    } else if parses_as_usize(ws[k]) {
        Some(usize_token_value(ws[k]))
    } else {
        first_numeric_word(ws, k + 1)
    }
}

fn digit_char_exec(d: usize) -> (c: char)
    requires
        d < 10,
    ensures
        c == digit_char(d as int),
{
    if d == 0 {
        '0'
    } else if d == 1 {
        '1'
    } else if d == 2 {
        '2'
    } else if d == 3 {
        '3'
    } else if d == 4 {
        '4'
    } else if d == 5 {
        '5'
    } else if d == 6 {
        '6'
    } else if d == 7 {
        '7'
    } else if d == 8 {
        '8'
    } else {
        '9'
    }
}

/// Renders `n` in decimal as a character vector.
pub fn render_usize_chars(n: usize) -> (v: Vec<char>)
    ensures
        v@ == dec_str(n as nat),
    decreases n,
{
    if n < 10 {
        let mut v: Vec<char> = Vec::new();
        v.push(digit_char_exec(n));
        proof {
            assert(v@ =~= dec_str(n as nat));
        }
        v
    } else {
        let mut v = render_usize_chars(n / 10);
        v.push(digit_char_exec(n % 10));
        v
    }
}

/// Renders `n` in decimal.
pub fn render_usize(n: usize) -> (s: String)
    ensures
        s@ == dec_str(n as nat),
{
    let v = render_usize_chars(n);
    crate::chars::chars_to_string(v.as_slice())
}

/// The value of an all-digit prefix never exceeds the value of the whole
/// digit string: appending digits only multiplies and adds.
proof fn lemma_digits_val_prefix_le(s: Seq<char>, i: int)
    requires
        0 <= i <= s.len(),
        forall|j: int| 0 <= j < s.len() ==> is_digit(#[trigger] s[j]),
    ensures
        digits_val(s.subrange(0, i)) <= digits_val(s),
        digits_val(s) >= 0,
    decreases s.len(),
{
    if s.len() == 0 {
    } else {
        lemma_digits_val_prefix_le(s.drop_last(), if i < s.len() { i } else { i - 1 });
        if i < s.len() {
            assert(s.subrange(0, i) =~= s.drop_last().subrange(0, i));
        } else {
            assert(s.subrange(0, i) =~= s);
        }
    }
}

/// Parses a decimal digit string (no sign) with overflow checking.
fn parse_digits(w: &[char], start: usize) -> (r: Option<usize>)
    requires
        start <= w@.len(),
    ensures
        ({
            let body = w@.subrange(start as int, w@.len() as int);
            match r {
                Some(v) => {
                    &&& body.len() > 0
                    &&& (forall|i: int| 0 <= i < body.len() ==> is_digit(body[i]))
                    &&& digits_val(body) == v as int
                },
                None => !(body.len() > 0 && (forall|i: int|
                    0 <= i < body.len() ==> is_digit(body[i])) && digits_val(body)
                    <= usize::MAX),
            }
        }),
{
    let ghost body = w@.subrange(start as int, w@.len() as int);
    let len = w.len();
    if start >= len {
        return None;
    }
    let mut acc: usize = 0;
    let mut i: usize = start;
    while i < len
        invariant
            start <= i <= len,
            len == w@.len(),
            start < len,
            body == w@.subrange(start as int, w@.len() as int),
            forall|j: int| start <= j < i ==> is_digit(#[trigger] w@[j]),
            acc as int == digits_val(w@.subrange(start as int, i as int)),
        decreases len - i,
    {
        let c = w[i];
        if !('0' <= c && c <= '9') {
            proof {
                assert(body[i - start] == w@[i as int]);
            }
            return None;
        }
        let d: usize = (c as usize) - 48;
        proof {
            assert(is_digit(c));
            assert(0 <= d < 10);
        }
        let acc10 = match acc.checked_mul(10) {
            Some(x) => x,
            None => {
                proof {
                    lemma_overflow_implies_large(w@, start as int, i as int, acc as int, 0);
                }
                return None;
            },
        };
        let next = match acc10.checked_add(d) {
            Some(x) => x,
            None => {
                proof {
                    lemma_overflow_implies_large(w@, start as int, i as int, acc as int, d as int);
                }
                return None;
            },
        };
        proof {
            assert(w@.subrange(start as int, i + 1 as int).drop_last() =~= w@.subrange(
                start as int,
                i as int,
            ));
            assert(w@.subrange(start as int, i + 1 as int).last() == w@[i as int]);
        }
        acc = next;
        i = i + 1;
    }
    proof {
        assert(w@.subrange(start as int, i as int) =~= body);
    }
    Some(acc)
}

/// If the running value already overflows at some prefix, the whole digit
/// string overflows too.
proof fn lemma_overflow_implies_large(s: Seq<char>, start: int, i: int, acc: int, d: int)
    requires
        0 <= start <= i < s.len(),
        acc == digits_val(s.subrange(start, i)),
        0 <= d,
        acc * 10 + d > usize::MAX,
        is_digit(s[i]),
        d <= digit_val(s[i]),
    ensures
        !(forall|j: int| 0 <= j < s.subrange(start, s.len() as int).len() ==> is_digit(
            s.subrange(start, s.len() as int)[j],
        )) || digits_val(s.subrange(start, s.len() as int)) > usize::MAX,
{
    let body = s.subrange(start, s.len() as int);
    if forall|j: int| 0 <= j < body.len() ==> is_digit(#[trigger] body[j]) {
        let upto = s.subrange(start, i + 1);
        assert(upto.drop_last() =~= s.subrange(start, i));
        assert(upto.last() == s[i]);
        assert(digits_val(upto) == acc * 10 + digit_val(s[i]));
        assert(digits_val(upto) > usize::MAX);
        assert(upto =~= body.subrange(0, i + 1 - start));
        lemma_digits_val_prefix_le(body, i + 1 - start);
        lemma_digits_val_grows(body, i + 1 - start);
    }
}

/// Extending an all-digit string keeps its value at least as large.
proof fn lemma_digits_val_grows(s: Seq<char>, i: int)
    requires
        0 <= i <= s.len(),
        forall|j: int| 0 <= j < s.len() ==> is_digit(#[trigger] s[j]),
    ensures
        digits_val(s) >= digits_val(s.subrange(0, i)),
    decreases s.len() - i,
{
    if i < s.len() {
        lemma_digits_val_grows(s, i + 1);
        let a = s.subrange(0, i);
        let b = s.subrange(0, i + 1);
        assert(b.drop_last() =~= a);
        lemma_digits_val_prefix_le(b, i);
        assert(digits_val(b) == digits_val(a) * 10 + digit_val(b.last()));
        assert(digits_val(a) >= 0) by {
            lemma_digits_val_prefix_le(a, i);
        }
    } else {
        assert(s.subrange(0, i) =~= s);
    }
}

/// Parses a character token exactly as the standard `usize` decimal parse
/// does: an optional `'+'`, then digits, rejecting overflow.
pub fn parse_usize_token(w: &[char]) -> (r: Option<usize>)
    ensures
        r is Some <==> parses_as_usize(w@),
        r is Some ==> r->0 as int == usize_token_value(w@),
{
    if w.len() > 0 && w[0] == '+' {
        proof {
            assert(num_body(w@) =~= w@.subrange(1, w@.len() as int));
        }
        parse_digits(w, 1)
    } else {
        proof {
            assert(num_body(w@) =~= w@.subrange(0, w@.len() as int));
        }
        parse_digits(w, 0)
    }
}

/// Parses a character token exactly as the standard `u32` decimal parse does.
pub fn parse_u32_token(w: &[char]) -> (r: Option<u32>)
    ensures
        r is Some <==> parses_as_u32(w@),
        r is Some ==> r->0 as int == usize_token_value(w@),
{
    match parse_usize_token(w) {
        Some(v) => {
            if v <= u32::MAX as usize {
                Some(v as u32)
            } else {
                None
            }
        },
        None => None,
    }
}

} // verus!
