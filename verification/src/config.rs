//! Configuration records: a line of the configuration file tokenized into a
//! command and its arguments, and the reading of an `audio` record, which
//! binds a clip slot number to a sample file.  The application reads the
//! file and loads the samples; deciding what each line means happens here.

use crate::split_quoted::{next_token, split_quoted, lemma_next_token_progress};
use vstd::prelude::*;

verus! {

/// All tokens of `s` from `pos` on, in order.
pub open spec fn spec_tokens(s: Seq<char>, pos: int) -> Seq<Seq<char>>
    decreases s.len() - pos,
        when 0 <= pos <= s.len()
        via spec_tokens_decreases
{
    match next_token(s, pos) {
        None => Seq::<Seq<char>>::empty(),
        Some((start, end, next)) => seq![s.subrange(start, end)] + spec_tokens(s, next),
    }
}

#[via_fn]
proof fn spec_tokens_decreases(s: Seq<char>, pos: int) {
    lemma_next_token_progress(s, pos);
}

/// The texts of a sequence of strings.
pub open spec fn strings_seq(v: Seq<String>) -> Seq<Seq<char>> {
    v.map_values(|x: String| x@)
}

/// One record of the configuration file: a command and its arguments.
pub struct ConfigLine {
    pub cmd: String,
    pub args: Vec<String>,
}

/// What a configuration line holds: `None` for a blank line or a comment
/// (a first token opening with `#`), otherwise the first token as the
/// command and the remaining tokens as its arguments.
pub open spec fn spec_parse_line(s: Seq<char>) -> Option<(Seq<char>, Seq<Seq<char>>)> {
    let toks = spec_tokens(s, 0);
    if toks.len() == 0 {
        None
    } else if toks[0].len() > 0 && toks[0][0] == '#' {
        None
    } else {
        Some((toks[0], toks.skip(1)))
    }
}

/// Tokenizes one line of the configuration file, as [`spec_parse_line`]
/// describes: blank lines and comments yield nothing.
pub fn parse_config_line(line: &str) -> (r: Option<ConfigLine>)
    ensures
        match (r, spec_parse_line(line@)) {
            (Some(c), Some((cmd, args))) => c.cmd@ == cmd && strings_seq(c.args@) == args,
            (None, None) => true,
            _ => false,
        },
{
    let ghost text = line@;
    let mut it = split_quoted(line);
    let first = it.next();
    let cmd: &str = match first {
        None => {
            return None;
        },
        Some(t) => t,
    };
    assert(spec_tokens(text, 0)[0] == cmd@);
    if cmd.unicode_len() > 0 {
        let c0 = cmd.get_char(0);
        if c0 == '#' {
            return None;
        }
    }
    let mut args: Vec<String> = Vec::new();
    let mut done = false;
    while !done
        invariant
            it.wf(),
            it.text() == text,
            done ==> spec_tokens(text, it.position()) == Seq::<Seq<char>>::empty(),
            spec_tokens(text, 0) =~= seq![cmd@] + strings_seq(args@) + spec_tokens(
                text,
                it.position(),
            ),
        decreases text.len() - it.position() + (if done {
            0int
        } else {
            1int
        }),
    {
        proof {
            lemma_next_token_progress(text, it.position());
        }
        let ghost pre_args = args@;
        let ghost pre_pos = it.position();
        match it.next() {
            Some(t) => {
                args.push(t.to_owned());
                proof {
                    assert(strings_seq(args@) =~= strings_seq(pre_args) + seq![t@]);
                    assert(seq![cmd@] + strings_seq(args@) + spec_tokens(text, it.position())
                        =~= seq![cmd@] + strings_seq(pre_args) + spec_tokens(text, pre_pos));
                }
            },
            None => {
                done = true;
            },
        }
    }
    let out = ConfigLine { cmd: cmd.to_owned(), args };
    proof {
        let toks = spec_tokens(text, 0);
        assert(strings_seq(out.args@) =~= toks.skip(1));
    }
    Some(out)
}

/// Whether `c` is a decimal digit.
pub open spec fn is_digit(c: char) -> bool {
    '0' <= c && c <= '9'
}

/// The numeric value of the decimal digit string `s`.
pub open spec fn digits_value(s: Seq<char>) -> int
    decreases s.len(),
{
    if s.len() == 0 {
        0
    } else {
        digits_value(s.drop_last()) * 10 + (s.last() as int - '0' as int)
    }
}

/// The digits of a decimal integer string: everything after one optional
/// leading plus sign.
pub open spec fn digits_part(s: Seq<char>) -> Seq<char> {
    if s.len() >= 1 && s[0] == '+' {
        s.skip(1)
    } else {
        s
    }
}

/// Whether `s` writes a 16-bit unsigned integer in decimal: an optional
/// plus sign, then at least one digit, with a value that fits.
pub open spec fn is_u16_string(s: Seq<char>) -> bool {
    let d = digits_part(s);
    &&& d.len() >= 1
    &&& forall|i: int| 0 <= i < d.len() ==> is_digit(#[trigger] d[i])
    &&& digits_value(d) <= 0xffff
}

/// The value of a digit string never goes down as digits are appended.
proof fn lemma_digits_value_nonneg(s: Seq<char>)
    requires
        forall|i: int| 0 <= i < s.len() ==> is_digit(#[trigger] s[i]),
    ensures
        digits_value(s) >= 0,
    decreases s.len(),
{
    if s.len() > 0 {
        lemma_digits_value_nonneg(s.drop_last());
    }
}

/// A prefix of a digit string never has a larger value than the whole.
proof fn lemma_digits_prefix_le(s: Seq<char>, j: int)
    requires
        forall|i: int| 0 <= i < s.len() ==> is_digit(#[trigger] s[i]),
        0 <= j <= s.len(),
    ensures
        digits_value(s.take(j)) <= digits_value(s),
    decreases s.len() - j,
{
    if j < s.len() {
        lemma_digits_prefix_le(s, j + 1);
        let t = s.take(j + 1);
        assert(t.drop_last() =~= s.take(j));
        lemma_digits_value_nonneg(s.take(j));
    } else {
        assert(s.take(j) =~= s);
    }
}

/// Parses a 16-bit unsigned integer written in decimal, with one optional
/// leading plus sign; anything else — an empty string, another sign, a
/// non-digit, a value too large — yields `None`.
pub fn parse_u16(s: &str) -> (r: Option<u16>)
    ensures
        match r {
            Some(v) => is_u16_string(s@) && v == digits_value(digits_part(s@)),
            None => !is_u16_string(s@),
        },
{
    let n: usize = s.unicode_len();
    let start: usize = if n >= 1 && s.get_char(0) == '+' {
        1
    } else {
        0
    };
    let ghost d = digits_part(s@);
    assert(d =~= s@.subrange(start as int, n as int));
    if start >= n {
        return None;
    }
    let mut acc: u32 = 0;
    let mut i: usize = start;
    while i < n
        invariant
            start <= i <= n,
            n == s@.len(),
            d == digits_part(s@),
            d =~= s@.subrange(start as int, n as int),
            forall|k: int| start <= k < i ==> is_digit(#[trigger] s@[k]),
            acc <= 0xffff,
            acc == digits_value(s@.subrange(start as int, i as int)),
        decreases n - i,
    {
        let c = s.get_char(i);
        if !(c >= '0' && c <= '9') {
            assert(!is_u16_string(s@)) by {
                assert(d[i - start] == s@[i as int]);
            }
            return None;
        }
        let dv: u32 = (c as u32) - ('0' as u32);
        let ghost pre = s@.subrange(start as int, i as int);
        acc = acc * 10 + dv;
        proof {
            let cur = s@.subrange(start as int, i + 1);
            assert(cur.drop_last() =~= pre);
            assert(cur.last() == s@[i as int]);
        }
        if acc > 0xffff {
            assert(!is_u16_string(s@)) by {
                if is_u16_string(s@) {
                    lemma_digits_prefix_le(d, i + 1 - start);
                    assert(d.take(i + 1 - start) =~= s@.subrange(start as int, i + 1));
                }
            }
            return None;
        }
        i = i + 1;
    }
    assert(s@.subrange(start as int, n as int) =~= d);
    Some(acc as u16)
}

/// What one configuration record asks of the application.
pub enum Directive {
    /// Not an `audio` record: nothing.
    Other,
    /// An `audio` record without the slot and file arguments it needs.
    MissingArgs,
    /// An `audio` record whose slot is not a 16-bit number.
    BadSlot,
    /// An `audio` record: load the file named by the second argument and
    /// register its samples under this slot.
    Audio(u16),
}

/// The directive a record carries, as [`audio_directive`] returns it.
pub open spec fn spec_audio_directive(cmd: Seq<char>, args: Seq<Seq<char>>) -> Directive {
    if cmd != "audio"@ {
        Directive::Other
    } else if args.len() < 2 {
        Directive::MissingArgs
    } else if !is_u16_string(args[0]) {
        Directive::BadSlot
    } else {
        Directive::Audio(digits_value(digits_part(args[0])) as u16)
    }
}

/// Reads a configuration record as a directive: an `audio` record with a
/// valid slot asks for a clip registration; anything not named `audio` asks
/// nothing; an `audio` record with missing arguments or a malformed slot is
/// reported as such.
pub fn audio_directive(line: &ConfigLine) -> (r: Directive)
    ensures
        r == spec_audio_directive(line.cmd@, strings_seq(line.args@)),
{
    let audio: String = "audio".to_owned();
    if !(line.cmd == audio) {
        return Directive::Other;
    }
    if line.args.len() < 2 {
        return Directive::MissingArgs;
    }
    assert(strings_seq(line.args@)[0] == line.args@[0]@);
    match parse_u16(line.args[0].as_str()) {
        Some(slot) => Directive::Audio(slot),
        None => Directive::BadSlot,
    }
}

} // verus!
