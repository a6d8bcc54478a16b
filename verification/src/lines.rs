//! Splitting text into lines and words, and reading port numbers.
use vstd::prelude::*;
use crate::text::{first_index, is_white_space, slice_part, white_space};

verus! {

/// A line without one trailing carriage return.
pub open spec fn strip_cr(p: Seq<char>) -> Seq<char> {
    if p.len() > 0 && p.last() == '\r' { p.drop_last() } else { p }
}

/// The lines of a text, as `str::lines` yields them: split at `\n`, a `\r` before a `\n`
/// dropped, no empty line after a final `\n`.
#[verifier::opaque]
pub open spec fn text_lines(s: Seq<char>) -> Seq<Seq<char>>
    decreases s.len(),
{
    if s.len() == 0 {
        seq![]
    } else {
        match first_index(s, '\n') {
            None => seq![s],
            Some(i) => if 0 <= i < s.len() {
                seq![strip_cr(s.take(i))] + text_lines(s.skip(i + 1))
            } else {
                seq![]
            },
        }
    }
}

/// A text whose first `\n` is at `j` has, as lines, its part before `j` and then the
/// lines of the rest.
pub proof fn lemma_text_lines_split(s: Seq<char>, j: int)
    requires
        0 <= j < s.len(),
        s[j] == '\n',
        forall|k: int| 0 <= k < j ==> s[k] != '\n',
    ensures
        text_lines(s) == seq![strip_cr(s.take(j))] + text_lines(s.skip(j + 1)),
{
    reveal_with_fuel(text_lines, 1);
    let w = choose|k: int| 0 <= k < s.len() && s[k] == '\n' && forall|m: int| 0 <= m < k ==> s[m] != '\n';
    assert(0 <= w < s.len() && s[w] == '\n' && forall|m: int| 0 <= m < w ==> s[m] != '\n');
    if w < j {
    } else if w > j {
        assert(s[j] != '\n');
    }
    assert(first_index(s, '\n') == Some(j));
}

/// A non-empty text without `\n` is one line; an empty text has none.
pub proof fn lemma_text_lines_last(s: Seq<char>)
    requires
        forall|k: int| 0 <= k < s.len() ==> s[k] != '\n',
    ensures
        text_lines(s) == (if s.len() == 0 { seq![] } else { seq![s] }),
{
    reveal_with_fuel(text_lines, 1);
    assert(first_index(s, '\n') is None);
}

/// The lines of `v` (see `text_lines`).
pub fn lines_of(v: &[char]) -> (r: Vec<Vec<char>>)
    ensures
        r@.len() == text_lines(v@).len(),
        forall|k: int| 0 <= k < r@.len() ==> (#[trigger] r@[k])@ == text_lines(v@)[k],
{
    let n = v.len();
    let mut out: Vec<Vec<char>> = Vec::new();
    let ghost mut done: Seq<Seq<char>> = seq![];
    let mut start: usize = 0;
    let mut i: usize = 0;
    assert(done + text_lines(v@.skip(0)) =~= text_lines(v@)) by {
        assert(v@.skip(0) =~= v@);
    }
    while i < n
        invariant
            n == v@.len(),
            start <= i <= n,
            forall|k: int| start <= k < i ==> v@[k] != '\n',
            out@.len() == done.len(),
            forall|k: int| 0 <= k < out@.len() ==> (#[trigger] out@[k])@ == done[k],
            text_lines(v@) == done + text_lines(v@.skip(start as int)),
        decreases n - i,
    {
        if v[i] == '\n' {
            let ghost rest = v@.skip(start as int);
            proof {
                let j = (i - start) as int;
                lemma_text_lines_split(rest, j);
                assert(rest.take(j) =~= v@.subrange(start as int, i as int));
                assert(rest.skip(j + 1) =~= v@.skip(i + 1));
            }
            let mut piece = slice_part(v, start, i);
            if piece.len() > 0 && piece[piece.len() - 1] == '\r' {
                piece.pop();
            }
            proof {
                assert(piece@ == strip_cr(v@.subrange(start as int, i as int)));
                done = done.push(piece@);
                assert(text_lines(v@) == done + text_lines(v@.skip(i + 1)));
            }
            out.push(piece);
            start = i + 1;
        }
        i = i + 1;
    }
    proof {
        lemma_text_lines_last(v@.skip(start as int));
    }
    if start < n {
        let piece = slice_part(v, start, n);
        proof {
            assert(v@.skip(start as int) =~= piece@);
            done = done.push(piece@);
        }
        out.push(piece);
    }
    proof {
        assert(text_lines(v@) =~= done);
    }
    out
}

/// State of splitting at whitespace: the words so far and the word being read.
pub open spec fn word_scan(s: Seq<char>) -> (Seq<Seq<char>>, Seq<char>)
    decreases s.len(),
{
    if s.len() == 0 {
        (seq![], seq![])
    } else {
        let (ws, cur) = word_scan(s.drop_last());
        let c = s.last();
        if white_space(c) {
            if cur.len() > 0 { (ws.push(cur), seq![]) } else { (ws, cur) }
        } else {
            (ws, cur.push(c))
        }
    }
}

/// The words of a text: its maximal runs of non-whitespace characters (what
/// `str::split_whitespace` yields).
pub open spec fn words(s: Seq<char>) -> Seq<Seq<char>> {
    let (ws, cur) = word_scan(s);
    if cur.len() > 0 { ws.push(cur) } else { ws }
}

/// The words of `v` (see `words`).
pub fn words_of(v: &[char]) -> (r: Vec<Vec<char>>)
    ensures
        r@.len() == words(v@).len(),
        forall|k: int| 0 <= k < r@.len() ==> (#[trigger] r@[k])@ == words(v@)[k],
{
    let n = v.len();
    let mut out: Vec<Vec<char>> = Vec::new();
    let mut cur: Vec<char> = Vec::new();
    let mut i: usize = 0;
    while i < n
        invariant
            n == v@.len(),
            i <= n,
            out@.len() == word_scan(v@.take(i as int)).0.len(),
            forall|k: int| 0 <= k < out@.len() ==> (#[trigger] out@[k])@ == word_scan(v@.take(i as int)).0[k],
            cur@ == word_scan(v@.take(i as int)).1,
        decreases n - i,
    {
        let c = v[i];
        proof {
            assert(v@.take(i + 1).drop_last() =~= v@.take(i as int));
            assert(v@.take(i + 1).last() == c);
        }
        if is_white_space(c) {
            if cur.len() > 0 {
                out.push(cur);
                cur = Vec::new();
            }
        } else {
            cur.push(c);
        }
        i = i + 1;
    }
    assert(v@.take(n as int) =~= v@);
    if cur.len() > 0 {
        out.push(cur);
    }
    out
}

/// The decimal value of a string of digits.
pub open spec fn digits_value(d: Seq<char>) -> int
    decreases d.len(),
{
    if d.len() == 0 {
        0
    } else {
        digits_value(d.drop_last()) * 10 + (d.last() as int - '0' as int)
    }
}

/// `c` is an ASCII decimal digit.
pub open spec fn is_digit(c: char) -> bool {
    '0' <= c && c <= '9'
}

/// The text after an optional leading `+`.
pub open spec fn unsigned_part(s: Seq<char>) -> Seq<char> {
    if s.len() > 0 && s[0] == '+' { s.drop_first() } else { s }
}

/// Every character is a decimal digit.
pub open spec fn all_digits(d: Seq<char>) -> bool {
    forall|k: int| 0 <= k < d.len() ==> is_digit(#[trigger] d[k])
}

/// What `str::parse::<u16>` gives: an optional `+` followed by one or more decimal
/// digits whose value fits in 16 bits.
pub open spec fn parse_u16_spec(s: Seq<char>) -> Option<u16> {
    let d = unsigned_part(s);
    if d.len() > 0 && all_digits(d) && digits_value(d) <= 0xffff {
        Some(digits_value(d) as u16)
    } else {
        None
    }
}

proof fn lemma_digits_value_nonneg(d: Seq<char>)
    requires
        forall|k: int| 0 <= k < d.len() ==> is_digit(#[trigger] d[k]),
    ensures
        digits_value(d) >= 0,
    decreases d.len(),
{
    if d.len() > 0 {
        lemma_digits_value_nonneg(d.drop_last());
        assert(is_digit(d[d.len() - 1]));
    }
}

proof fn lemma_digits_value_grows(d: Seq<char>, i: int)
    requires
        0 <= i <= d.len(),
        forall|k: int| 0 <= k < d.len() ==> is_digit(#[trigger] d[k]),
    ensures
        digits_value(d.take(i)) <= digits_value(d),
    decreases d.len() - i,
{
    if i < d.len() {
        lemma_digits_value_grows(d, i + 1);
        assert(d.take(i + 1).drop_last() =~= d.take(i));
        lemma_digits_value_nonneg(d.take(i));
        assert(is_digit(d[i]));
    } else {
        assert(d.take(i) =~= d);
    }
}

/// Reads a port number (see `parse_u16_spec`).
pub fn parse_port(s: &[char]) -> (r: Option<u16>)
    ensures
        r == parse_u16_spec(s@),
{
    let n = s.len();
    let mut i: usize = 0;
    if n > 0 && s[0] == '+' {
        i = 1;
    }
    let ghost d = unsigned_part(s@);
    let first = i;
    assert(d =~= s@.skip(first as int));
    if first == n {
        return None;
    }
    let mut value: u32 = 0;
    while i < n
        invariant
            n == s@.len(),
            first <= i <= n,
            first < n,
            d == s@.skip(first as int),
            d == unsigned_part(s@),
            value == digits_value(d.take(i - first)),
            value <= 0xffff,
            forall|k: int| 0 <= k < i - first ==> is_digit(#[trigger] d[k]),
        decreases n - i,
    {
        let c = s[i];
        assert(d[i - first] == c);
        if !('0' <= c && c <= '9') {
            assert(!is_digit(d[i - first]));
            assert(!all_digits(d));
            return None;
        }
        assert(d.take(i - first + 1).drop_last() =~= d.take(i - first));
        let digit = (c as u32) - ('0' as u32);
        let next = value * 10 + digit;
        if next > 0xffff {
            proof {
                assert(forall|k: int| 0 <= k < i - first + 1 ==> is_digit(#[trigger] d[k]));
                if all_digits(d) {
                    lemma_digits_value_grows(d, i - first + 1);
                    lemma_digits_value_nonneg(d.take(i - first));
                    assert(digits_value(d.take(i - first + 1)) == value * 10 + digit);
                    assert(digits_value(d) > 0xffff);
                }
            }
            return None;
        }
        value = next;
        i = i + 1;
    }
    assert(d.take(n - first) =~= d);
    Some(value as u16)
}

} // verus!
