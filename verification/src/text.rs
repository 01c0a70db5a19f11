//! Text handling shared by the parsers: splitting names on the `__` delimiter
//! and joining pieces of text.
use vstd::prelude::*;
use vstd::string::*;

verus! {

/// Whether the two characters of `s` at `i` and `i + 1` form the delimiter `__`.
pub open spec fn delimiter_at(s: Seq<char>, i: int) -> bool {
    0 <= i && i + 1 < s.len() && s[i] == '_' && s[i + 1] == '_'
}

/// The position of the first delimiter of `s` at or after `from`, or the length
/// of `s` if there is none.
pub open spec fn next_delimiter(s: Seq<char>, from: int) -> int
    decreases s.len() - from,
{
    if from < 0 || from >= s.len() {
        s.len() as int
    } else if delimiter_at(s, from) {
        from
    } else {
        next_delimiter(s, from + 1)
    }
}

/// The tokens of `s` between its delimiters, found from the left: a delimiter
/// starts at the first `__` after the previous delimiter's end, so that
/// `a___b` holds the tokens `a` and `_b`. A text without a delimiter is its own
/// single token, and a delimiter at either end yields an empty token there.
pub open spec fn split_tokens(s: Seq<char>) -> Seq<Seq<char>>
    decreases s.len(),
{
    let at = next_delimiter(s, 0);
    if 0 <= at && at + 2 <= s.len() {
        seq![s.subrange(0, at)] + split_tokens(s.subrange(at + 2, s.len() as int))
    } else {
        seq![s]
    }
}

/// The result of `next_delimiter` is a delimiter's position at or after `from`,
/// or the length of the text.
pub proof fn lemma_next_delimiter_bounds(s: Seq<char>, from: int)
    requires
        0 <= from <= s.len(),
    ensures
        from <= next_delimiter(s, from) <= s.len(),
        next_delimiter(s, from) < s.len() ==> delimiter_at(s, next_delimiter(s, from)),
        forall|j: int| from <= j < next_delimiter(s, from) ==> !delimiter_at(s, j),
    decreases s.len() - from,
{
    if from < s.len() && !delimiter_at(s, from) {
        lemma_next_delimiter_bounds(s, from + 1);
    }
}

/// A text has a single token exactly when it holds no delimiter.
pub proof fn lemma_single_token(s: Seq<char>)
    ensures
        split_tokens(s).len() >= 1,
        split_tokens(s).len() == 1 <==> (forall|j: int| !delimiter_at(s, j)),
        split_tokens(s).len() == 1 ==> split_tokens(s) == seq![s],
    decreases s.len(),
{
    lemma_next_delimiter_bounds(s, 0);
    let at = next_delimiter(s, 0);
    if 0 <= at && at + 2 <= s.len() {
        lemma_single_token(s.subrange(at + 2, s.len() as int));
        assert(delimiter_at(s, at));
    } else {
        assert forall|j: int| !delimiter_at(s, j) by {
            if delimiter_at(s, j) {
                assert(j < at);
            }
        }
    }
}

/// The tokens `tokens` with a delimiter between each two of them.
pub open spec fn rejoined(tokens: Seq<Seq<char>>) -> Seq<char>
    decreases tokens.len(),
{
    if tokens.len() == 0 {
        Seq::empty()
    } else if tokens.len() == 1 {
        tokens[0]
    } else {
        tokens[0] + seq!['_', '_'] + rejoined(tokens.drop_first())
    }
}

/// The tokens of a text, with the delimiters put back between them, are the
/// text; and no token holds a delimiter.
pub proof fn lemma_tokens_rebuild_the_text(s: Seq<char>)
    ensures
        rejoined(split_tokens(s)) == s,
        forall|k: int, j: int|
            0 <= k < split_tokens(s).len() ==> !#[trigger] delimiter_at(split_tokens(s)[k], j),
    decreases s.len(),
{
    lemma_next_delimiter_bounds(s, 0);
    let at = next_delimiter(s, 0);
    let tokens = split_tokens(s);
    if 0 <= at && at + 2 <= s.len() {
        let first = s.subrange(0, at);
        let rest = s.subrange(at + 2, s.len() as int);
        lemma_tokens_rebuild_the_text(rest);
        lemma_single_token(rest);
        assert(delimiter_at(s, at));
        assert(tokens.drop_first() == split_tokens(rest));
        assert(first + seq!['_', '_'] + rest == s);
        assert forall|k: int, j: int| 0 <= k < tokens.len() implies !#[trigger] delimiter_at(
            tokens[k],
            j,
        ) by {
            if k == 0 {
                if delimiter_at(first, j) {
                    assert(delimiter_at(s, j));
                }
            } else {
                assert(tokens[k] == split_tokens(rest)[k - 1]);
            }
        }
    } else {
        assert forall|k: int, j: int| 0 <= k < tokens.len() implies !#[trigger] delimiter_at(
            tokens[k],
            j,
        ) by {
            if delimiter_at(s, j) {
                assert(j < at);
            }
        }
    }
}

/// The characters of a text, one element each.
pub fn chars_of(s: &str) -> (chars: Vec<char>)
    ensures
        chars@ == s@,
{
    let mut chars: Vec<char> = Vec::new();
    for c in it: s.chars()
        invariant
            chars@ == it.seq().take(it.index() as int),
            it.seq() == s@,
    {
        chars.push(c);
    }
    chars
}

/// Splits `s` on the delimiter `__`.
pub fn split(s: &str) -> (tokens: Vec<String>)
    ensures
        tokens.deep_view() == split_tokens(s@),
{
    let chars = chars_of(s);
    let n: usize = chars.len();
    let mut tokens: Vec<String> = Vec::new();
    let mut start: usize = 0;
    let mut i: usize = 0;
    proof {
        assert(s@.subrange(0, n as int) == s@);
        assert(tokens.deep_view() + split_tokens(s@) == split_tokens(s@));
    }
    while i < n
        invariant
            n == s@.len(),
            chars@ == s@,
            start <= i <= n,
            split_tokens(s@) == tokens.deep_view() + split_tokens(s@.subrange(start as int, n as int)),
            next_delimiter(s@.subrange(start as int, n as int), 0) == next_delimiter(
                s@.subrange(start as int, n as int),
                i - start,
            ),
        decreases n - i,
    {
        let ghost rest = s@.subrange(start as int, n as int);
        if i + 1 < n && chars[i] == '_' && chars[i + 1] == '_' {
            let token = s.substring_char(start, i).to_owned();
            proof {
                let at = i - start;
                assert(delimiter_at(rest, at));
                assert(next_delimiter(rest, 0) == at);
                assert(rest.subrange(0, at) == s@.subrange(start as int, i as int));
                assert(rest.subrange(at + 2, rest.len() as int) == s@.subrange(i + 2, n as int));
                assert(tokens.deep_view().push(token@) == tokens.deep_view() + seq![token@]);
            }
            let ghost before = tokens.deep_view();
            tokens.push(token);
            assert(tokens.deep_view() == before.push(token@));
            i = i + 2;
            start = i;
        } else {
            assert(!delimiter_at(rest, i - start));
            i = i + 1;
        }
    }
    let last = s.substring_char(start, n).to_owned();
    let ghost before = tokens.deep_view();
    tokens.push(last);
    assert(tokens.deep_view() == before.push(last@));
    tokens
}

/// The text made of `a` followed by `b`.
pub fn followed_by(a: &str, b: &str) -> (joined: String)
    ensures
        joined@ == a@ + b@,
{
    let mut joined = a.to_owned();
    joined.append(b);
    joined
}

/// Whether two texts hold the same characters.
pub fn same_text(a: &str, b: &str) -> (same: bool)
    ensures
        same == (a@ == b@),
{
    let left = a.to_owned();
    let right = b.to_owned();
    left == right
}

/// The position of the first line break of `s` at or after `from`, or the
/// length of `s` if there is none.
pub open spec fn next_line_break(s: Seq<char>, from: int) -> int
    decreases s.len() - from,
{
    if from < 0 || from >= s.len() {
        s.len() as int
    } else if s[from] == '\n' {
        from
    } else {
        next_line_break(s, from + 1)
    }
}

/// The text `s` without its first `n` lines. A line ends with a line break; a
/// text with fewer than `n` line breaks has nothing after its first `n` lines.
pub open spec fn skip_lines(s: Seq<char>, n: nat) -> Seq<char>
    decreases n,
{
    if n == 0 {
        s
    } else {
        let at = next_line_break(s, 0);
        if 0 <= at < s.len() {
            skip_lines(s.subrange(at + 1, s.len() as int), (n - 1) as nat)
        } else {
            Seq::empty()
        }
    }
}

/// The text `s` without its first `n` lines.
pub fn without_lines(s: &str, n: usize) -> (rest: String)
    ensures
        rest@ == skip_lines(s@, n as nat),
{
    let chars = chars_of(s);
    let len = chars.len();
    let mut start: usize = 0;
    let mut left: usize = n;
    let mut i: usize = 0;
    assert(s@.subrange(0, len as int) == s@);
    while left > 0 && i < len
        invariant
            len == s@.len(),
            chars@ == s@,
            start <= i <= len,
            skip_lines(s@, n as nat) == skip_lines(s@.subrange(start as int, len as int), left as nat),
            next_line_break(s@.subrange(start as int, len as int), 0) == next_line_break(
                s@.subrange(start as int, len as int),
                i - start,
            ),
        decreases len - i,
    {
        let ghost rest = s@.subrange(start as int, len as int);
        if chars[i] == '\n' {
            proof {
                let at = i - start;
                assert(rest[at] == '\n');
                assert(next_line_break(rest, 0) == at);
                assert(rest.subrange(at + 1, rest.len() as int) == s@.subrange(i + 1, len as int));
            }
            left = left - 1;
            i = i + 1;
            start = i;
        } else {
            assert(rest[i - start] != '\n');
            i = i + 1;
        }
    }
    if left > 0 {
        assert(next_line_break(s@.subrange(start as int, len as int), 0) == len - start);
        String::new()
    } else {
        s.substring_char(start, len).to_owned()
    }
}

} // verus!
