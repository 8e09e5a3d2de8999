//! The chat command grammar: `x y r g b [a]`, decimal tokens separated by
//! single spaces.

use vstd::prelude::*;
use vstd::string::{is_ascii, is_ascii_spec_bytes, StringSliceAdditionalSpecFns};

verus! {

/// An RGBA color with 8-bit channels.
#[derive(Clone, Copy, Debug, PartialEq, Eq, Structural)]
pub struct Color {
    pub r: u8,
    pub g: u8,
    pub b: u8,
    pub a: u8,
}

/// A validated instruction to write one color at one position.
#[derive(Clone, Copy, Debug, PartialEq, Eq, Structural)]
pub struct PixelCommand {
    pub x: u32,
    pub y: u32,
    pub color: Color,
}

/// Why a chat line is not a pixel command.
#[derive(Clone, Copy, Debug, PartialEq, Eq, Structural)]
pub enum ParseError {
    /// Some token is not a decimal number that fits in 32 bits.
    Malformed,
    /// The line has neither five nor six tokens.
    ArityMismatch,
    /// A color component exceeds 255.
    ColorOutOfRange,
}

/// Alpha of a command that names only `r g b`: fully opaque.
pub const OPAQUE: u8 = 255;

pub open spec fn is_digit(c: char) -> bool {
    48 <= c as u32 <= 57
}

pub open spec fn digit_value(c: char) -> nat {
    (c as u32 - 48) as nat
}

/// The number that a string of decimal digits denotes, most significant
/// digit first. The empty string denotes zero.
pub open spec fn decimal_value(t: Seq<char>) -> nat
    decreases t.len(),
{
    if t.len() == 0 {
        0
    } else {
        decimal_value(t.drop_last()) * 10 + digit_value(t.last())
    }
}

pub open spec fn all_digits(t: Seq<char>) -> bool {
    forall|i: int| 0 <= i < t.len() ==> is_digit(#[trigger] t[i])
}

/// A token is numeric when it is a non-empty string of decimal digits whose
/// value fits in a `u32`.
pub open spec fn is_numeric(t: Seq<char>) -> bool {
    &&& t.len() > 0
    &&& all_digits(t)
    &&& decimal_value(t) <= u32::MAX
}

/// The tokens of a line: the maximal space-free pieces between its space
/// characters, in order. A line with `n` spaces has `n + 1` tokens, some of
/// which may be empty.
pub open spec fn split_on_space(s: Seq<char>) -> Seq<Seq<char>>
    decreases s.len(),
{
    if s.len() == 0 {
        seq![Seq::<char>::empty()]
    } else {
        let head = split_on_space(s.drop_last());
        if s.last() == ' ' {
            head.push(Seq::<char>::empty())
        } else {
            head.drop_last().push(head.last().push(s.last()))
        }
    }
}

/// The tokens written one after another with a single space between
/// neighbours.
pub open spec fn join_with_space(tokens: Seq<Seq<char>>) -> Seq<char>
    decreases tokens.len(),
{
    if tokens.len() == 0 {
        Seq::<char>::empty()
    } else if tokens.len() == 1 {
        tokens[0]
    } else {
        join_with_space(tokens.drop_last()) + seq![' '] + tokens.last()
    }
}

/// What a list of token values means as a command.
pub open spec fn command_of_values(v: Seq<u32>) -> Result<PixelCommand, ParseError> {
    if v.len() != 5 && v.len() != 6 {
        Err(ParseError::ArityMismatch)
    } else if v[2] > 255 || v[3] > 255 || v[4] > 255 || (v.len() == 6 && v[5] > 255) {
        Err(ParseError::ColorOutOfRange)
    } else {
        Ok(
            PixelCommand {
                x: v[0],
                y: v[1],
                color: Color {
                    r: v[2] as u8,
                    g: v[3] as u8,
                    b: v[4] as u8,
                    a: if v.len() == 6 {
                        v[5] as u8
                    } else {
                        OPAQUE
                    },
                },
            },
        )
    }
}

/// The values of a list of numeric tokens.
pub open spec fn values_of(tokens: Seq<Seq<char>>) -> Seq<u32> {
    Seq::new(tokens.len(), |i: int| decimal_value(tokens[i]) as u32)
}

/// What a list of tokens means: every token must be numeric, then the
/// values must form a command.
pub open spec fn command_of_tokens(tokens: Seq<Seq<char>>) -> Result<PixelCommand, ParseError> {
    if exists|i: int| 0 <= i < tokens.len() && !is_numeric(#[trigger] tokens[i]) {
        Err(ParseError::Malformed)
    } else {
        command_of_values(values_of(tokens))
    }
}

/// What a chat line means.
pub open spec fn parse_spec(text: Seq<char>) -> Result<PixelCommand, ParseError> {
    command_of_tokens(split_on_space(text))
}

/// The views of a list of tokens held as vectors.
pub open spec fn token_views(tokens: Seq<Vec<char>>) -> Seq<Seq<char>> {
    Seq::new(tokens.len(), |i: int| tokens[i]@)
}

/// Reads one token as a decimal number.
pub fn parse_number(token: &Vec<char>) -> (res: Option<u32>)
    ensures
        res is Some <==> is_numeric(token@),
        res is Some ==> res->0 == decimal_value(token@),
{
    if token.len() == 0 {
        return None;
    }
    let mut acc: u64 = 0;
    let mut over: bool = false;
    let mut i: usize = 0;
    while i < token.len()
        invariant
            0 <= i <= token.len(),
            all_digits(token@.take(i as int)),
            !over ==> acc == decimal_value(token@.take(i as int)) && acc <= u32::MAX,
            over ==> decimal_value(token@.take(i as int)) > u32::MAX,
        decreases token.len() - i,
    {
        let c: char = token[i];
        let code: u32 = c as u32;
        if code < 48 || code > 57 {
            proof {
                assert(!is_digit(token@[i as int]));
            }
            return None;
        }
        proof {
            let next = token@.take(i + 1);
            assert(next.drop_last() =~= token@.take(i as int));
            assert(next.last() == c);
            assert forall|j: int| 0 <= j < next.len() implies is_digit(#[trigger] next[j]) by {
                if j < i {
                    assert(token@.take(i as int)[j] == next[j]);
                }
            }
        }
        if !over {
            let next: u64 = acc * 10 + (code - 48) as u64;
            if next > 0xffff_ffff {
                over = true;
            } else {
                acc = next;
            }
        }
        i = i + 1;
    }
    proof {
        assert(token@.take(i as int) =~= token@);
    }
    if over {
        None
    } else {
        Some(acc as u32)
    }
}

/// Builds a command from the values of a line's tokens.
pub fn command_from_values(values: &Vec<u32>) -> (res: Result<PixelCommand, ParseError>)
    ensures
        res == command_of_values(values@),
{
    let n: usize = values.len();
    if n != 5 && n != 6 {
        return Err(ParseError::ArityMismatch);
    }
    if values[2] > 255 || values[3] > 255 || values[4] > 255 || (n == 6 && values[5] > 255) {
        return Err(ParseError::ColorOutOfRange);
    }
    let a: u8 = if n == 6 {
        values[5] as u8
    } else {
        OPAQUE
    };
    Ok(
        PixelCommand {
            x: values[0],
            y: values[1],
            color: Color { r: values[2] as u8, g: values[3] as u8, b: values[4] as u8, a },
        },
    )
}

/// Cuts a line into its tokens.
pub fn split_tokens(text: &str) -> (tokens: Vec<Vec<char>>)
    ensures
        token_views(tokens@) == split_on_space(text@),
{
    // Characters of plain ASCII text are read in constant time.
    let ascii: bool = text.is_ascii();
    let n: usize = if ascii {
        text.as_bytes().len()
    } else {
        text.unicode_len()
    };
    proof {
        if ascii {
            is_ascii_spec_bytes(text);
            assert(text.spec_bytes().len() == text@.len());
        }
    }
    let mut done: Vec<Vec<char>> = Vec::new();
    let mut cur: Vec<char> = Vec::new();
    let mut i: usize = 0;
    while i < n
        invariant
            0 <= i <= n,
            n == text@.len(),
            ascii == is_ascii(text),
            token_views(done@).push(cur@) == split_on_space(text@.take(i as int)),
        decreases n - i,
    {
        let c: char = if ascii {
            text.get_ascii(i) as char
        } else {
            text.get_char(i)
        };
        assert(c == text@[i as int]);
        let ghost before = split_on_space(text@.take(i as int));
        let ghost old_done = token_views(done@);
        let ghost old_cur = cur@;
        proof {
            let next = text@.take(i + 1);
            assert(next.drop_last() =~= text@.take(i as int));
            assert(next.last() == c);
            assert(before.last() == old_cur);
            assert(before.drop_last() =~= old_done);
        }
        if c == ' ' {
            done.push(cur);
            cur = Vec::new();
            proof {
                assert(token_views(done@) =~= old_done.push(old_cur));
            }
        } else {
            cur.push(c);
        }
        i = i + 1;
    }
    proof {
        assert(text@.take(i as int) =~= text@);
    }
    let ghost old_done = token_views(done@);
    let ghost old_cur = cur@;
    done.push(cur);
    proof {
        assert(token_views(done@) =~= old_done.push(old_cur));
    }
    done
}

/// Parses one chat line as a pixel command.
///
/// The line is cut at every space character. Every token must be a decimal
/// number that fits in 32 bits, there must be five or six of them, and the
/// color components must not exceed 255. A line of five tokens gets a fully
/// opaque color.
pub fn parse(text: &str) -> (res: Result<PixelCommand, ParseError>)
    ensures
        res == parse_spec(text@),
{
    let tokens = split_tokens(text);
    let ghost toks = split_on_space(text@);
    let mut values: Vec<u32> = Vec::new();
    let mut i: usize = 0;
    while i < tokens.len()
        invariant
            0 <= i <= tokens.len(),
            toks == split_on_space(text@),
            token_views(tokens@) == toks,
            values@.len() == i,
            forall|j: int| 0 <= j < i ==> is_numeric(#[trigger] toks[j]),
            forall|j: int| 0 <= j < i ==> values@[j] == decimal_value(#[trigger] toks[j]),
        decreases tokens.len() - i,
    {
        proof {
            assert(toks[i as int] == tokens@[i as int]@);
        }
        match parse_number(&tokens[i]) {
            None => {
                proof {
                    assert(toks.len() == tokens@.len());
                    assert(!is_numeric(toks[i as int]));
                }
                return Err(ParseError::Malformed);
            },
            Some(v) => {
                values.push(v);
            },
        }
        i = i + 1;
    }
    proof {
        assert(toks.len() == tokens@.len());
        assert(values@ =~= values_of(toks));
    }
    command_from_values(&values)
}

/// No character of the token is a space.
pub open spec fn space_free(t: Seq<char>) -> bool {
    forall|i: int| 0 <= i < t.len() ==> #[trigger] t[i] != ' '
}

/// A piece of text without a space is a single token.
pub proof fn lemma_split_space_free(t: Seq<char>)
    requires
        space_free(t),
    ensures
        split_on_space(t) == seq![t],
    decreases t.len(),
{
    if t.len() > 0 {
        let front = t.drop_last();
        assert(space_free(front)) by {
            assert forall|i: int| 0 <= i < front.len() implies #[trigger] front[i] != ' ' by {
                assert(front[i] == t[i]);
            }
        }
        lemma_split_space_free(front);
        assert(t.last() == t[t.len() - 1]);
        assert(front.push(t.last()) =~= t);
        assert(seq![front].drop_last().push(front.push(t.last())) =~= seq![t]);
    } else {
        assert(t =~= Seq::<char>::empty());
    }
}

/// A space followed by a space-free piece adds that piece as one more token.
pub proof fn lemma_split_appended(line: Seq<char>, t: Seq<char>)
    requires
        space_free(t),
    ensures
        split_on_space(line + seq![' '] + t) == split_on_space(line).push(t),
    decreases t.len(),
{
    let s = line + seq![' '] + t;
    if t.len() == 0 {
        assert(s.drop_last() =~= line);
        assert(s.last() == ' ');
        assert(t =~= Seq::<char>::empty());
    } else {
        let front = t.drop_last();
        assert(space_free(front)) by {
            assert forall|i: int| 0 <= i < front.len() implies #[trigger] front[i] != ' ' by {
                assert(front[i] == t[i]);
            }
        }
        lemma_split_appended(line, front);
        assert(s.drop_last() =~= line + seq![' '] + front);
        assert(s.last() == t[t.len() - 1]);
        assert(front.push(t.last()) =~= t);
        let head = split_on_space(line).push(front);
        assert(head.drop_last() =~= split_on_space(line));
        assert(head.last() == front);
    }
}

/// Splitting undoes joining: a line made of space-free tokens with one space
/// between neighbours has exactly those tokens.
pub proof fn lemma_split_join(tokens: Seq<Seq<char>>)
    requires
        tokens.len() >= 1,
        forall|i: int| 0 <= i < tokens.len() ==> space_free(#[trigger] tokens[i]),
    ensures
        split_on_space(join_with_space(tokens)) == tokens,
    decreases tokens.len(),
{
    if tokens.len() == 1 {
        lemma_split_space_free(tokens[0]);
        assert(seq![tokens[0]] =~= tokens);
    } else {
        let front = tokens.drop_last();
        assert forall|i: int| 0 <= i < front.len() implies space_free(#[trigger] front[i]) by {
            assert(front[i] == tokens[i]);
        }
        lemma_split_join(front);
        lemma_split_appended(join_with_space(front), tokens.last());
        assert(front.push(tokens.last()) =~= tokens);
    }
}

/// Every line of five or six numeric tokens, joined by single spaces, whose
/// color components are at most 255, parses, and the command holds the
/// tokens' values; with five tokens the alpha is 255.
pub proof fn lemma_well_formed_line_parses(tokens: Seq<Seq<char>>)
    requires
        tokens.len() == 5 || tokens.len() == 6,
        forall|i: int| 0 <= i < tokens.len() ==> is_numeric(#[trigger] tokens[i]),
        forall|i: int| 2 <= i < tokens.len() ==> decimal_value(#[trigger] tokens[i]) <= 255,
    ensures
        split_on_space(join_with_space(tokens)) == tokens,
        parse_spec(join_with_space(tokens)) is Ok,
        parse_spec(join_with_space(tokens))->Ok_0.x == decimal_value(tokens[0]),
        parse_spec(join_with_space(tokens))->Ok_0.y == decimal_value(tokens[1]),
        parse_spec(join_with_space(tokens))->Ok_0.color.r == decimal_value(tokens[2]),
        parse_spec(join_with_space(tokens))->Ok_0.color.g == decimal_value(tokens[3]),
        parse_spec(join_with_space(tokens))->Ok_0.color.b == decimal_value(tokens[4]),
        tokens.len() == 6 ==> parse_spec(join_with_space(tokens))->Ok_0.color.a == decimal_value(
            tokens[5],
        ),
        tokens.len() == 5 ==> parse_spec(join_with_space(tokens))->Ok_0.color.a == 255,
{
    assert forall|i: int| 0 <= i < tokens.len() implies space_free(#[trigger] tokens[i]) by {
        let t = tokens[i];
        assert(is_numeric(t));
        assert forall|j: int| 0 <= j < t.len() implies #[trigger] t[j] != ' ' by {
            assert(is_digit(t[j]));
        }
    }
    lemma_split_join(tokens);
    assert(decimal_value(tokens[2]) <= 255);
    assert(decimal_value(tokens[3]) <= 255);
    assert(decimal_value(tokens[4]) <= 255);
    assert(is_numeric(tokens[0]));
    assert(is_numeric(tokens[1]));
    if tokens.len() == 6 {
        assert(decimal_value(tokens[5]) <= 255);
    }
}

/// Some token of the line is not numeric.
pub open spec fn has_bad_token(text: Seq<char>) -> bool {
    exists|i: int|
        0 <= i < split_on_space(text).len() && !is_numeric(#[trigger] split_on_space(text)[i])
}

/// The line has neither five nor six tokens.
pub open spec fn has_bad_arity(text: Seq<char>) -> bool {
    split_on_space(text).len() != 5 && split_on_space(text).len() != 6
}

/// Some token from the third on has a value above 255.
pub open spec fn has_bad_color(text: Seq<char>) -> bool {
    exists|i: int|
        2 <= i < split_on_space(text).len() && decimal_value(#[trigger] split_on_space(text)[i])
            > 255
}

/// A line is rejected exactly when some token is not numeric, or the number
/// of tokens is neither five nor six, or a color component exceeds 255; the
/// first of these that holds names the error.
pub proof fn lemma_rejected_lines(text: Seq<char>)
    ensures
        parse_spec(text) is Err <==> has_bad_token(text) || has_bad_arity(text) || has_bad_color(
            text,
        ),
        has_bad_token(text) ==> parse_spec(text) == Err::<PixelCommand, ParseError>(
            ParseError::Malformed,
        ),
        !has_bad_token(text) && has_bad_arity(text) ==> parse_spec(text) == Err::<
            PixelCommand,
            ParseError,
        >(ParseError::ArityMismatch),
        !has_bad_token(text) && !has_bad_arity(text) && has_bad_color(text) ==> parse_spec(text)
            == Err::<PixelCommand, ParseError>(ParseError::ColorOutOfRange),
{
    let tokens = split_on_space(text);
    let v = values_of(tokens);
    if !has_bad_token(text) {
        assert forall|i: int| 0 <= i < tokens.len() implies is_numeric(#[trigger] tokens[i]) by {}
        if tokens.len() == 5 || tokens.len() == 6 {
            assert(is_numeric(tokens[2]) && is_numeric(tokens[3]) && is_numeric(tokens[4]));
            if tokens.len() == 6 {
                assert(is_numeric(tokens[5]));
            }
            if parse_spec(text) is Err {
                let k: int = if v[2] > 255 {
                    2
                } else if v[3] > 255 {
                    3
                } else if v[4] > 255 {
                    4
                } else {
                    5
                };
                assert(2 <= k < tokens.len() && decimal_value(tokens[k]) > 255);
            }
            if has_bad_color(text) {
                let k = choose|i: int|
                    2 <= i < tokens.len() && decimal_value(#[trigger] tokens[i]) > 255;
                assert(is_numeric(tokens[k]));
                assert(v[k] > 255);
            }
        }
    }
}

} // verus!
