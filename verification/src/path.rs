//! The drawing-path language: command letters and numbers, as the outline
//! walker writes them and the editor hands them back.

use vstd::prelude::*;
use vstd::string::StrSliceExecFns;
use crate::error::{FontError, PathFault};
use crate::float_bits::{negate, negated};
use crate::text::chars_of;

verus! {

/// A letter that names a path command: move, line, quadratic curve, cubic
/// curve or close, in either case.
pub open spec fn is_command_letter(c: char) -> bool {
    c == 'M' || c == 'm' || c == 'L' || c == 'l' || c == 'Q' || c == 'q' || c == 'C' || c == 'c'
        || c == 'Z' || c == 'z'
}

/// A digit or the decimal point.
pub open spec fn is_number_char(c: char) -> bool {
    ('0' <= c && c <= '9') || c == '.'
}

/// The letter that starts an exponent.
pub open spec fn is_exponent_letter(c: char) -> bool {
    c == 'e' || c == 'E'
}

/// A sign.
pub open spec fn is_sign(c: char) -> bool {
    c == '+' || c == '-'
}

/// Where the number ends whose characters from `i` on are still to be read.
/// Digits and points go on; an exponent letter goes on, with a sign behind
/// it if there is one, once the number has `started`, that is, holds a
/// character besides its own sign.
pub open spec fn number_end(s: Seq<char>, i: int, started: bool) -> int
    decreases s.len() - i,
{
    if i < 0 || i >= s.len() {
        i
    } else if is_number_char(s[i]) {
        number_end(s, i + 1, true)
    } else if is_exponent_letter(s[i]) && started {
        if i + 1 < s.len() && is_sign(s[i + 1]) {
            number_end(s, i + 2, true)
        } else {
            number_end(s, i + 1, true)
        }
    } else {
        i
    }
}

/// A number ends at or behind the place where it is read, and inside the text.
pub proof fn lemma_number_end_bounds(s: Seq<char>, i: int, started: bool)
    requires
        0 <= i <= s.len(),
    ensures
        i <= number_end(s, i, started) <= s.len(),
    decreases s.len() - i,
{
    if i < s.len() {
        if is_number_char(s[i]) {
            lemma_number_end_bounds(s, i + 1, true);
        } else if is_exponent_letter(s[i]) && started {
            if i + 1 < s.len() && is_sign(s[i + 1]) {
                lemma_number_end_bounds(s, i + 2, true);
            } else {
                lemma_number_end_bounds(s, i + 1, true);
            }
        }
    }
}

/// The tokens of the text from `i` on. A command letter is a token by
/// itself. A number is the longest run that `number_end` admits, with the
/// sign in front of it if there is one; a sign with nothing behind it is no
/// token. Every other character separates.
pub open spec fn tokens_from(s: Seq<char>, i: int) -> Seq<Seq<char>>
    decreases s.len() - i,
{
    if i < 0 || i >= s.len() {
        Seq::empty()
    } else if is_command_letter(s[i]) {
        seq![seq![s[i]]] + tokens_from(s, i + 1)
    } else if is_number_char(s[i]) || is_sign(s[i]) {
        let first = if is_sign(s[i]) { i + 1 } else { i };
        let end = number_end(s, first, false);
        proof {
            lemma_number_end_bounds(s, first, false);
            if !is_sign(s[i]) {
                lemma_number_end_bounds(s, i + 1, true);
            }
        }
        if end > first {
            seq![s.subrange(i, end)] + tokens_from(s, end)
        } else {
            tokens_from(s, end)
        }
    } else {
        tokens_from(s, i + 1)
    }
}

/// The tokens of a drawing path.
pub open spec fn path_tokens(s: Seq<char>) -> Seq<Seq<char>> {
    tokens_from(s, 0)
}

/// The texts of a list of strings.
pub open spec fn texts(v: Seq<String>) -> Seq<Seq<char>> {
    v.map_values(|t: String| t@)
}

/// Splits a drawing path into its tokens: command letters and numbers, in
/// the order in which they stand. Blanks, tabs, line ends, commas and every
/// character that belongs to no token are passed over.
pub fn tokenize_svg_path(path: &str) -> (tokens: Vec<String>)
    ensures
        texts(tokens@) == path_tokens(path@),
{
    let chars = chars_of(path);
    let n = chars.len();
    let mut tokens: Vec<String> = Vec::new();
    let mut i: usize = 0;
    assert(texts(tokens@) + tokens_from(chars@, 0) =~= path_tokens(path@));
    while i < n
        invariant
            i <= n,
            n == chars.len(),
            chars@ == path@,
            texts(tokens@) + tokens_from(chars@, i as int) == path_tokens(path@),
        decreases n - i,
    {
        let c = chars[i];
        let ghost done = texts(tokens@);
        if c == 'M' || c == 'm' || c == 'L' || c == 'l' || c == 'Q' || c == 'q' || c == 'C' || c
            == 'c' || c == 'Z' || c == 'z' {
            let mut t = String::new();
            t.push(c);
            assert(t@ =~= seq![c]);
            tokens.push(t);
            i += 1;
            assert(texts(tokens@) =~= done + seq![seq![c]]);
            assert(texts(tokens@) + tokens_from(chars@, i as int) =~= path_tokens(path@));
        } else if ('0' <= c && c <= '9') || c == '.' || c == '+' || c == '-' {
            let signed = c == '+' || c == '-';
            let mut t = String::new();
            let mut j: usize = i;
            if signed {
                t.push(c);
                j += 1;
            }
            let first: usize = j;
            let mut started = false;
            assert(t@ =~= chars@.subrange(i as int, j as int));
            while j < n && (('0' <= chars[j] && chars[j] <= '9') || chars[j] == '.' || (started
                && (chars[j] == 'e' || chars[j] == 'E')))
                invariant
                    i <= first <= j <= n,
                    n == chars.len(),
                    t@ == chars@.subrange(i as int, j as int),
                    started == (j > first),
                    number_end(chars@, j as int, started) == number_end(
                        chars@,
                        first as int,
                        false,
                    ),
                decreases n - j,
            {
                let d = chars[j];
                t.push(d);
                j += 1;
                if d == 'e' || d == 'E' {
                    if j < n && (chars[j] == '+' || chars[j] == '-') {
                        t.push(chars[j]);
                        j += 1;
                    }
                }
                started = true;
                assert(t@ =~= chars@.subrange(i as int, j as int));
            }
            if j > first {
                tokens.push(t);
                assert(texts(tokens@) =~= done + seq![chars@.subrange(i as int, j as int)]);
            }
            i = j;
            assert(texts(tokens@) + tokens_from(chars@, i as int) =~= path_tokens(path@));
        } else {
            i += 1;
        }
    }
    assert(texts(tokens@) =~= path_tokens(path@));
    tokens
}

/// One token of a drawing path together with the number that it spells, if
/// it spells one. The number is held as the bit pattern of a binary32 value.
#[derive(Clone, Debug, PartialEq, Eq)]
pub struct PathToken {
    pub text: String,
    pub number: Option<u32>,
}

/// A token as plain values: its characters and the number that they spell.
pub ghost struct Token {
    pub text: Seq<char>,
    pub number: Option<u32>,
}

impl View for PathToken {
    type V = Token;

    open spec fn view(&self) -> Token {
        Token { text: self.text@, number: self.number }
    }
}

/// The tokens of a list as plain values.
pub open spec fn token_views(tokens: Seq<PathToken>) -> Seq<Token> {
    tokens.map_values(|t: PathToken| t@)
}

/// The tokens with these texts, each with the number at its place in
/// `numbers`; a token beyond the end of `numbers` spells none.
pub open spec fn numbered(texts: Seq<Seq<char>>, numbers: Seq<Option<u32>>) -> Seq<Token> {
    Seq::new(
        texts.len(),
        |i: int|
            Token {
                text: texts[i],
                number: if i < numbers.len() {
                    numbers[i]
                } else {
                    None
                },
            },
    )
}

/// Gives each token the number that was read from it.
pub fn number_tokens(words: &Vec<String>, numbers: &[Option<u32>]) -> (tokens: Vec<PathToken>)
    ensures
        token_views(tokens@) == numbered(texts(words@), numbers@),
{
    let mut tokens: Vec<PathToken> = Vec::new();
    let mut i: usize = 0;
    while i < words.len()
        invariant
            i <= words.len(),
            tokens.len() == i,
            forall|k: int|
                0 <= k < i ==> (#[trigger] tokens@[k])@ == numbered(texts(words@), numbers@)[k],
        decreases words.len() - i,
    {
        let number = if i < numbers.len() {
            numbers[i]
        } else {
            None
        };
        tokens.push(PathToken { text: words[i].clone(), number });
        i += 1;
    }
    assert(token_views(tokens@) =~= numbered(texts(words@), numbers@));
    tokens
}

/// A path command in font space, y upwards. Each coordinate is the bit
/// pattern of a binary32 value.
#[derive(Clone, Copy, Debug, PartialEq, Eq, Structural)]
pub enum SvgCmd {
    MoveTo(u32, u32),
    LineTo(u32, u32),
    QuadTo(u32, u32, u32, u32),
    CurveTo(u32, u32, u32, u32, u32, u32),
    Close,
}

/// How many numbers follow the command that this token names; `None` for a
/// token that names no command.
pub open spec fn command_arity(text: Seq<char>) -> Option<int> {
    if text.len() != 1 {
        None
    } else if text[0] == 'M' || text[0] == 'm' || text[0] == 'L' || text[0] == 'l' {
        Some(2)
    } else if text[0] == 'Q' || text[0] == 'q' {
        Some(4)
    } else if text[0] == 'C' || text[0] == 'c' {
        Some(6)
    } else if text[0] == 'Z' || text[0] == 'z' {
        Some(0)
    } else {
        None
    }
}

/// What is wrong with the `count` numbers that are due from token `at` on:
/// the first place, in order, at which the path has ended or the token
/// spells no number. `None` if all of them are there.
pub open spec fn first_fault(tokens: Seq<Token>, at: int, count: int) -> Option<PathFault>
    decreases count,
{
    if count <= 0 {
        None
    } else if at >= tokens.len() {
        Some(PathFault::UnexpectedEnd)
    } else if tokens[at].number is None {
        Some(PathFault::BadNumber { token: at as usize })
    } else {
        first_fault(tokens, at + 1, count - 1)
    }
}

/// The number that token `at` spells.
pub open spec fn number_at(tokens: Seq<Token>, at: int) -> u32 {
    tokens[at].number->0
}

/// The command that the letter at token `at` and the numbers behind it make.
/// The path is written y downwards, so every y is negated on the way in.
pub open spec fn command_at(tokens: Seq<Token>, at: int) -> SvgCmd {
    let c = tokens[at].text[0];
    if c == 'M' || c == 'm' {
        SvgCmd::MoveTo(number_at(tokens, at + 1), negated(number_at(tokens, at + 2)))
    } else if c == 'L' || c == 'l' {
        SvgCmd::LineTo(number_at(tokens, at + 1), negated(number_at(tokens, at + 2)))
    } else if c == 'Q' || c == 'q' {
        SvgCmd::QuadTo(
            number_at(tokens, at + 1),
            negated(number_at(tokens, at + 2)),
            number_at(tokens, at + 3),
            negated(number_at(tokens, at + 4)),
        )
    } else if c == 'C' || c == 'c' {
        SvgCmd::CurveTo(
            number_at(tokens, at + 1),
            negated(number_at(tokens, at + 2)),
            number_at(tokens, at + 3),
            negated(number_at(tokens, at + 4)),
            number_at(tokens, at + 5),
            negated(number_at(tokens, at + 6)),
        )
    } else {
        SvgCmd::Close
    }
}

/// The commands that the tokens from `at` on make, or the first fault that
/// stops the reading. A token that names a command takes the numbers that it
/// needs from the tokens behind it; a token that names none, in a place where
/// a command is due, is passed over.
pub open spec fn commands_from(tokens: Seq<Token>, at: int) -> Result<Seq<SvgCmd>, PathFault>
    decreases tokens.len() - at,
{
    if at < 0 || at >= tokens.len() {
        Ok(Seq::empty())
    } else {
        match command_arity(tokens[at].text) {
            None => commands_from(tokens, at + 1),
            Some(count) => match first_fault(tokens, at + 1, count) {
                Some(fault) => Err(fault),
                None => {
                    proof {
                        if count > 0 {
                            lemma_no_fault(tokens, at + 1, count, count - 1);
                        }
                    }
                    match commands_from(tokens, at + 1 + count) {
                        Ok(rest) => Ok(seq![command_at(tokens, at)] + rest),
                        Err(fault) => Err(fault),
                    }
                },
            },
        }
    }
}

/// Where no number is at fault, all of them are there.
pub proof fn lemma_no_fault(tokens: Seq<Token>, at: int, count: int, k: int)
    requires
        0 <= at,
        0 <= k < count,
        first_fault(tokens, at, count) is None,
    ensures
        at + k < tokens.len(),
        tokens[at + k].number is Some,
    decreases count,
{
    if k > 0 {
        lemma_no_fault(tokens, at + 1, count - 1, k - 1);
    }
}

/// The count of numbers that the command named by `text` takes, if it names one.
fn arity_of(text: &str) -> (r: Option<(char, usize)>)
    ensures
        match r {
            Some((c, count)) => command_arity(text@) == Some(count as int) && text@[0] == c,
            None => command_arity(text@) is None,
        },
{
    if text.unicode_len() != 1 {
        return None;
    }
    let c = text.get_char(0);
    if c == 'M' || c == 'm' || c == 'L' || c == 'l' {
        Some((c, 2))
    } else if c == 'Q' || c == 'q' {
        Some((c, 4))
    } else if c == 'C' || c == 'c' {
        Some((c, 6))
    } else if c == 'Z' || c == 'z' {
        Some((c, 0))
    } else {
        None
    }
}

/// Looks for the first fault among the `count` numbers due from `at` on.
fn find_fault(tokens: &[PathToken], at: usize, count: usize) -> (r: Option<PathFault>)
    requires
        at <= tokens.len(),
        count <= 6,
    ensures
        r == first_fault(token_views(tokens@), at as int, count as int),
{
    let mut k: usize = 0;
    while k < count
        invariant
            k <= count <= 6,
            at <= tokens.len(),
            at + k <= tokens.len(),
            first_fault(token_views(tokens@), at as int, count as int) == first_fault(
                token_views(tokens@),
                at + k,
                count - k,
            ),
        decreases count - k,
    {
        if at + k >= tokens.len() {
            return Some(PathFault::UnexpectedEnd);
        }
        if tokens[at + k].number.is_none() {
            return Some(PathFault::BadNumber { token: at + k });
        }
        k += 1;
    }
    None
}

/// Folds the tokens of a drawing path into commands in font space.
///
/// It fails, with `BadPath`, on the first command that lacks a number: one
/// that the path ends before, or one whose token spells none.
pub fn parse_svg_path_cmds(tokens: &[PathToken]) -> (r: Result<Vec<SvgCmd>, FontError>)
    ensures
        match r {
            Ok(cmds) => commands_from(token_views(tokens@), 0) == Ok::<Seq<SvgCmd>, PathFault>(
                cmds@,
            ),
            Err(e) => commands_from(token_views(tokens@), 0) is Err && e == (FontError::BadPath {
                fault: commands_from(token_views(tokens@), 0)->Err_0,
            }),
        },
{
    let ghost shown = token_views(tokens@);
    let mut cmds: Vec<SvgCmd> = Vec::new();
    let mut i: usize = 0;
    while i < tokens.len()
        invariant
            i <= tokens.len(),
            shown == token_views(tokens@),
            commands_from(shown, 0) == (match commands_from(shown, i as int) {
                Ok(rest) => Ok::<Seq<SvgCmd>, PathFault>(cmds@ + rest),
                Err(fault) => Err(fault),
            }),
        decreases tokens.len() - i,
    {
        match arity_of(tokens[i].text.as_str()) {
            None => {
                i += 1;
            },
            Some((c, count)) => {
                match find_fault(tokens, i + 1, count) {
                    Some(fault) => {
                        return Err(FontError::BadPath { fault });
                    },
                    None => {},
                }
                proof {
                    if count > 0 {
                        lemma_no_fault(shown, i + 1, count as int, count - 1);
                    }
                    assert forall|k: int| 0 <= k < count implies (#[trigger] tokens@[i + 1
                        + k]).number is Some by {
                        lemma_no_fault(shown, i + 1, count as int, k);
                        assert(shown[i + 1 + k] == tokens@[i + 1 + k]@);
                    }
                    assert(tokens@[i + 1 + 0].number is Some || count < 1);
                    assert(tokens@[i + 1 + 1].number is Some || count < 2);
                    assert(tokens@[i + 1 + 2].number is Some || count < 3);
                    assert(tokens@[i + 1 + 3].number is Some || count < 4);
                    assert(tokens@[i + 1 + 4].number is Some || count < 5);
                    assert(tokens@[i + 1 + 5].number is Some || count < 6);
                }
                let cmd = if count == 2 {
                    let x = tokens[i + 1].number.unwrap();
                    let y = negate(tokens[i + 2].number.unwrap());
                    if c == 'M' || c == 'm' {
                        SvgCmd::MoveTo(x, y)
                    } else {
                        SvgCmd::LineTo(x, y)
                    }
                } else if count == 4 {
                    SvgCmd::QuadTo(
                        tokens[i + 1].number.unwrap(),
                        negate(tokens[i + 2].number.unwrap()),
                        tokens[i + 3].number.unwrap(),
                        negate(tokens[i + 4].number.unwrap()),
                    )
                } else if count == 6 {
                    SvgCmd::CurveTo(
                        tokens[i + 1].number.unwrap(),
                        negate(tokens[i + 2].number.unwrap()),
                        tokens[i + 3].number.unwrap(),
                        negate(tokens[i + 4].number.unwrap()),
                        tokens[i + 5].number.unwrap(),
                        negate(tokens[i + 6].number.unwrap()),
                    )
                } else {
                    SvgCmd::Close
                };
                assert(cmd == command_at(shown, i as int));
                let ghost before = cmds@;
                cmds.push(cmd);
                proof {
                    match commands_from(shown, i + 1 + count) {
                        Ok(rest) => {
                            assert(cmds@ + rest =~= before + (seq![cmd] + rest));
                        },
                        Err(_) => {},
                    }
                }
                i = i + 1 + count;
            },
        }
    }
    assert(cmds@ + Seq::<SvgCmd>::empty() =~= cmds@);
    Ok(cmds)
}

/// The same command with its y coordinates negated: what turns font space
/// (y upwards) into the space of the drawing path (y downwards), and back.
pub open spec fn flipped(cmd: SvgCmd) -> SvgCmd {
    match cmd {
        SvgCmd::MoveTo(x, y) => SvgCmd::MoveTo(x, negated(y)),
        SvgCmd::LineTo(x, y) => SvgCmd::LineTo(x, negated(y)),
        SvgCmd::QuadTo(cx, cy, x, y) => SvgCmd::QuadTo(cx, negated(cy), x, negated(y)),
        SvgCmd::CurveTo(ax, ay, bx, by, x, y) => SvgCmd::CurveTo(
            ax,
            negated(ay),
            bx,
            negated(by),
            x,
            negated(y),
        ),
        SvgCmd::Close => SvgCmd::Close,
    }
}

/// Flipping y twice restores every coordinate, sign and all: a path that is
/// written out flipped and read back flipped is in font space again.
pub proof fn lemma_flip_twice(cmd: SvgCmd)
    ensures
        flipped(flipped(cmd)) == cmd,
{
}

} // verus!
