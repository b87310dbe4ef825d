//! Whitespace tokenizer with single- and double-quoted tokens, used to cut
//! a configuration line into a command and its arguments.

use vstd::prelude::*;

verus! {

/// Whether `c` is one of the Unicode white-space characters.
pub open spec fn is_space(c: char) -> bool {
    ||| c == ' '
    ||| c == '\t'
    ||| c == '\n'
    ||| c == '\u{b}'
    ||| c == '\u{c}'
    ||| c == '\r'
    ||| c == '\u{85}'
    ||| c == '\u{a0}'
    ||| c == '\u{1680}'
    ||| ('\u{2000}' <= c && c <= '\u{200a}')
    ||| c == '\u{2028}'
    ||| c == '\u{2029}'
    ||| c == '\u{202f}'
    ||| c == '\u{205f}'
    ||| c == '\u{3000}'
}

/// Decides [`is_space`].
pub fn is_space_char(c: char) -> (r: bool)
    ensures
        r == is_space(c),
{
    c == ' ' || c == '\t' || c == '\n' || c == '\u{b}' || c == '\u{c}' || c == '\r' || c == '\u{85}'
        || c == '\u{a0}' || c == '\u{1680}' || ('\u{2000}' <= c && c <= '\u{200a}') || c
        == '\u{2028}' || c == '\u{2029}' || c == '\u{202f}' || c == '\u{205f}' || c == '\u{3000}'
}

/// The position of the first non-whitespace character of `s` at or after
/// `i`, or the length of `s` if there is none.
pub open spec fn skip_spaces(s: Seq<char>, i: int) -> int
    decreases s.len() - i,
        when 0 <= i <= s.len()
{
    if i >= s.len() {
        s.len() as int
    } else if !is_space(s[i]) {
        i
    } else {
        skip_spaces(s, i + 1)
    }
}

/// The position of the first occurrence of `q` in `s` at or after `i`, or
/// the length of `s` if there is none.
pub open spec fn find_char(s: Seq<char>, i: int, q: char) -> int
    decreases s.len() - i,
        when 0 <= i <= s.len()
{
    if i >= s.len() {
        s.len() as int
    } else if s[i] == q {
        i
    } else {
        find_char(s, i + 1, q)
    }
}

/// The position of the first whitespace character of `s` at or after `i`,
/// or the length of `s` if there is none.
pub open spec fn find_space(s: Seq<char>, i: int) -> int
    decreases s.len() - i,
        when 0 <= i <= s.len()
{
    if i >= s.len() {
        s.len() as int
    } else if is_space(s[i]) {
        i
    } else {
        find_space(s, i + 1)
    }
}

/// The next token of `s` scanning from `pos`, or `None` when only
/// whitespace remains.  A token found is given as `(start, end, next)`: its
/// text is `s[start..end]` and the scan resumes at `next`.  A token opened
/// by a quote character runs to the matching quote, or to the end of `s` if
/// the quote is never closed; any other token runs to the next whitespace.
pub open spec fn next_token(s: Seq<char>, pos: int) -> Option<(int, int, int)>
    recommends
        0 <= pos <= s.len(),
{
    let i = skip_spaces(s, pos);
    if i == s.len() {
        None
    } else {
        let q = s[i];
        if q == '"' || q == '\'' {
            let e = find_char(s, i + 1, q);
            Some(
                (
                    i + 1,
                    e,
                    if e < s.len() {
                        e + 1
                    } else {
                        e
                    },
                ),
            )
        } else {
            let e = find_space(s, i + 1);
            Some(
                (
                    i,
                    e,
                    if e < s.len() {
                        e + 1
                    } else {
                        e
                    },
                ),
            )
        }
    }
}

/// `skip_spaces` never scans backwards nor past the end.
pub proof fn lemma_skip_spaces_bounds(s: Seq<char>, i: int)
    requires
        0 <= i <= s.len(),
    ensures
        i <= skip_spaces(s, i) <= s.len(),
    decreases s.len() - i,
{
    if i < s.len() && is_space(s[i]) {
        lemma_skip_spaces_bounds(s, i + 1);
    }
}

/// `find_char` never scans backwards nor past the end.
pub proof fn lemma_find_char_bounds(s: Seq<char>, i: int, q: char)
    requires
        0 <= i <= s.len(),
    ensures
        i <= find_char(s, i, q) <= s.len(),
    decreases s.len() - i,
{
    if i < s.len() && s[i] != q {
        lemma_find_char_bounds(s, i + 1, q);
    }
}

/// `find_space` never scans backwards nor past the end.
pub proof fn lemma_find_space_bounds(s: Seq<char>, i: int)
    requires
        0 <= i <= s.len(),
    ensures
        i <= find_space(s, i) <= s.len(),
    decreases s.len() - i,
{
    if i < s.len() && !is_space(s[i]) {
        lemma_find_space_bounds(s, i + 1);
    }
}

/// A token found by `next_token` has well-formed bounds, and the scan makes
/// progress: it resumes strictly after `pos` and within the string.
pub proof fn lemma_next_token_progress(s: Seq<char>, pos: int)
    requires
        0 <= pos <= s.len(),
    ensures
        match next_token(s, pos) {
            Some((start, end, next)) => {
                &&& 0 <= start <= end <= s.len()
                &&& pos < next <= s.len()
                &&& end <= next
            },
            None => true,
        },
{
    lemma_skip_spaces_bounds(s, pos);
    let i = skip_spaces(s, pos);
    if i < s.len() {
        let q = s[i];
        if q == '"' || q == '\'' {
            lemma_find_char_bounds(s, i + 1, q);
        } else {
            lemma_find_space_bounds(s, i + 1);
        }
    }
}

/// An iterator over the tokens of a string, as [`next_token`] describes
/// them: tokens are separated by whitespace, and a token that opens with a
/// single or double quote runs to the matching quote, with the quotes
/// stripped from its text.
pub struct SplitQuoted<'a> {
    s: &'a str,
    pos: usize,
}

impl<'a> SplitQuoted<'a> {
    /// The text being split.
    pub closed spec fn text(self) -> Seq<char> {
        self.s@
    }

    /// The position the next scan starts from.
    pub closed spec fn position(self) -> int {
        self.pos as int
    }

    /// The scan position sits within the text.
    pub open spec fn wf(self) -> bool {
        0 <= self.position() <= self.text().len()
    }

    /// The next token, or `None` when only whitespace remains (from then on
    /// every call returns `None`).
    pub fn next(&mut self) -> (r: Option<&'a str>)
        requires
            old(self).wf(),
        ensures
            final(self).wf(),
            final(self).text() == old(self).text(),
            match (r, next_token(old(self).text(), old(self).position())) {
                (Some(t), Some((start, end, next))) => {
                    &&& t@ == old(self).text().subrange(start, end)
                    &&& final(self).position() == next
                },
                (None, None) => final(self).position() == old(self).text().len(),
                _ => false,
            },
    {
        let ghost text = self.s@;
        let ghost pos0 = self.pos as int;
        proof {
            lemma_next_token_progress(text, pos0);
        }
        let n: usize = self.s.unicode_len();
        let mut i: usize = self.pos;
        while i < n && is_space_char(self.s.get_char(i))
            invariant
                pos0 <= i <= n,
                n == text.len(),
                text == self.s@,
                skip_spaces(text, pos0) == skip_spaces(text, i as int),
            decreases n - i,
        {
            i = i + 1;
        }
        assert(i as int == skip_spaces(text, pos0));
        if i == n {
            self.pos = n;
            return None;
        }
        let quote_char: char = self.s.get_char(i);
        if quote_char == '"' || quote_char == '\'' {
            let start: usize = i + 1;
            let mut j: usize = start;
            while j < n && self.s.get_char(j) != quote_char
                invariant
                    start <= j <= n,
                    n == text.len(),
                    text == self.s@,
                    find_char(text, start as int, quote_char) == find_char(
                        text,
                        j as int,
                        quote_char,
                    ),
                decreases n - j,
            {
                j = j + 1;
            }
            assert(j as int == find_char(text, start as int, quote_char));
            let end: usize = j;
            self.pos = if j < n {
                j + 1
            } else {
                j
            };
            Some(self.s.substring_char(start, end))
        } else {
            let start: usize = i;
            let mut j: usize = i + 1;
            while j < n && !is_space_char(self.s.get_char(j))
                invariant
                    start + 1 <= j <= n,
                    n == text.len(),
                    text == self.s@,
                    find_space(text, start as int + 1) == find_space(text, j as int),
                decreases n - j,
            {
                j = j + 1;
            }
            assert(j as int == find_space(text, start as int + 1));
            let end: usize = j;
            self.pos = if j < n {
                j + 1
            } else {
                j
            };
            Some(self.s.substring_char(start, end))
        }
    }
}

/// Splits `s` into whitespace-separated tokens, honouring single and double
/// quotes: the returned iterator starts at the beginning of `s`.
pub fn split_quoted<'a>(s: &'a str) -> (r: SplitQuoted<'a>)
    ensures
        r.wf(),
        r.text() == s@,
        r.position() == 0,
{
    SplitQuoted { s, pos: 0 }
}

} // verus!
