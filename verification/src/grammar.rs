//! The lexical grammar, as a mathematical description.
//!
//! [`scan_raw`] classifies a character sequence into the full token
//! stream, one token per lexical unit, with whitespace and comments
//! appearing as [`SpecToken::Empty`]. [`spec_tokenize`] is the published
//! result: the same stream with every `Empty` dropped. The executable
//! scanner is proved to return exactly `spec_tokenize` of its input.

use vstd::prelude::*;

verus! {

use crate::cursor::consumed_until;
use crate::cursor::lemma_consumed_until_bound;
use crate::text::{is_letter, is_digit, is_word_start, is_word_char, is_blank};
use crate::tokens::{Operator, Keyword, SpecLiteralValue, SpecToken};

/// The reason a scan fails: the only three fatal lexical errors.
#[derive(Debug, Clone, Copy, PartialEq, Eq, Structural)]
pub enum ScanFault {
    /// A string literal ran into a raw newline or the end of the text
    /// before its closing quote.
    BrokenString,
    /// A number literal had a second decimal point, or a trailing decimal
    /// point with no digit after it.
    UnknownNumber,
    /// A character matching no lexical class.
    UnknownChar,
}

/// The reason text the reported error carries for each fault.
pub open spec fn fault_text(f: ScanFault) -> Seq<char> {
    match f {
        ScanFault::BrokenString => "broken string"@,
        ScanFault::UnknownNumber => "unknown number"@,
        ScanFault::UnknownChar => "unknown char"@,
    }
}

/// A character that is a complete token by itself.
pub open spec fn is_simple(c: char) -> bool {
    c == '(' || c == ')' || c == '[' || c == ']' || c == '{' || c == '}' || c == ';' || c == '.'
        || c == '&' || c == '|' || c == '+' || c == '-' || c == '*'
}

/// The token a single-character lexical unit yields.
pub open spec fn simple_token(c: char) -> SpecToken {
    if c == '(' {
        SpecToken::Operator(Operator::LeftPeren)
    } else if c == ')' {
        SpecToken::Operator(Operator::RightPeren)
    } else if c == '[' {
        SpecToken::Operator(Operator::LeftSqket)
    } else if c == ']' {
        SpecToken::Operator(Operator::RightSqket)
    } else if c == '{' {
        SpecToken::Operator(Operator::LeftCuket)
    } else if c == '}' {
        SpecToken::Operator(Operator::RightCuket)
    } else if c == ';' {
        SpecToken::End
    } else if c == '.' {
        SpecToken::Operator(Operator::Call)
    } else if c == '&' {
        SpecToken::Operator(Operator::And)
    } else if c == '|' {
        SpecToken::Operator(Operator::Or)
    } else if c == '+' {
        SpecToken::Operator(Operator::Add)
    } else if c == '-' {
        SpecToken::Operator(Operator::Minus)
    } else {
        SpecToken::Operator(Operator::Times)
    }
}

/// A character that opens a two-character disambiguation, and the
/// operator chosen when the second character matches.
pub open spec fn pair_op(c: char) -> Operator {
    if c == '!' {
        Operator::Nonequal
    } else if c == '=' {
        Operator::Equal
    } else if c == '>' {
        Operator::NotSmaller
    } else {
        Operator::NotLarger
    }
}

/// The operator chosen when the second character does not match.
pub open spec fn lone_op(c: char) -> Operator {
    if c == '/' {
        Operator::Divide
    } else if c == '!' {
        Operator::Not
    } else if c == '=' {
        Operator::Assign
    } else if c == '>' {
        Operator::Larger
    } else {
        Operator::Smaller
    }
}

/// The scan of a string literal body: the characters after the opening
/// quote. Yields the content and the remainder after the closing quote,
/// or nothing when a raw newline or the end of the text comes first.
pub open spec fn string_scan(s: Seq<char>) -> Option<(Seq<char>, Seq<char>)>
    decreases s.len(),
{
    if s.len() == 0 {
        None
    } else if s[0] == '\n' {
        None
    } else if s[0] == '"' {
        Some((Seq::empty(), s.skip(1)))
    } else {
        match string_scan(s.skip(1)) {
            Some(p) => Some((seq![s[0]] + p.0, p.1)),
            None => None,
        }
    }
}

/// A successful string scan consumes at least the closing quote.
pub proof fn lemma_string_scan_bound(s: Seq<char>)
    ensures
        string_scan(s) matches Some(p) ==> p.1.len() + 1 <= s.len(),
    decreases s.len(),
{
    if s.len() > 0 && s[0] != '\n' && s[0] != '"' {
        lemma_string_scan_bound(s.skip(1));
    }
}

/// The scan of a number literal after its first digit. `doted` records
/// whether a decimal point has been consumed, `last_dot` whether the
/// decimal point was the last character consumed. Yields the remaining
/// text of the literal and the remainder of the input, or nothing when
/// the literal is malformed.
pub open spec fn num_scan(s: Seq<char>, doted: bool, last_dot: bool) -> Option<
    (Seq<char>, Seq<char>),
>
    decreases s.len(),
{
    if s.len() > 0 && is_digit(s[0]) {
        match num_scan(s.skip(1), doted, false) {
            Some(p) => Some((seq![s[0]] + p.0, p.1)),
            None => None,
        }
    } else if s.len() > 0 && s[0] == '.' {
        if !doted {
            match num_scan(s.skip(1), true, true) {
                Some(p) => Some((seq!['.'] + p.0, p.1)),
                None => None,
            }
        } else {
            None
        }
    } else {
        if last_dot {
            None
        } else {
            Some((Seq::empty(), s))
        }
    }
}

/// A number scan never leaves more input than it was given.
pub proof fn lemma_num_scan_bound(s: Seq<char>, doted: bool, last_dot: bool)
    ensures
        num_scan(s, doted, last_dot) matches Some(p) ==> p.1.len() <= s.len(),
    decreases s.len(),
{
    if s.len() > 0 && is_digit(s[0]) {
        lemma_num_scan_bound(s.skip(1), doted, false);
    } else if s.len() > 0 && s[0] == '.' && !doted {
        lemma_num_scan_bound(s.skip(1), true, true);
    }
}

/// The scan of an identifier or keyword after its first character: the
/// longest run of word characters, and the remainder.
pub open spec fn word_scan(s: Seq<char>) -> (Seq<char>, Seq<char>)
    decreases s.len(),
{
    if s.len() > 0 && is_word_char(s[0]) {
        let p = word_scan(s.skip(1));
        (seq![s[0]] + p.0, p.1)
    } else {
        (Seq::empty(), s)
    }
}

/// A word scan never leaves more input than it was given.
pub proof fn lemma_word_scan_bound(s: Seq<char>)
    ensures
        word_scan(s).1.len() <= s.len(),
    decreases s.len(),
{
    if s.len() > 0 && is_word_char(s[0]) {
        lemma_word_scan_bound(s.skip(1));
    }
}

/// The text of each keyword.
pub open spec fn kw_text(k: Keyword) -> Seq<char> {
    match k {
        Keyword::Let => "let"@,
        Keyword::If => "if"@,
        Keyword::Else => "else"@,
        Keyword::False => "false"@,
        Keyword::True => "true"@,
        Keyword::Null => "null"@,
        Keyword::Func => "func"@,
        Keyword::For => "for"@,
        Keyword::While => "while"@,
        Keyword::Return => "return"@,
        Keyword::This => "this"@,
        Keyword::Super => "super"@,
    }
}

/// The keyword a word resolves to, if any; matching is case-sensitive.
pub open spec fn keyword_of(text: Seq<char>) -> Option<Keyword> {
    if text == kw_text(Keyword::Let) {
        Some(Keyword::Let)
    } else if text == kw_text(Keyword::If) {
        Some(Keyword::If)
    } else if text == kw_text(Keyword::Else) {
        Some(Keyword::Else)
    } else if text == kw_text(Keyword::False) {
        Some(Keyword::False)
    } else if text == kw_text(Keyword::True) {
        Some(Keyword::True)
    } else if text == kw_text(Keyword::Null) {
        Some(Keyword::Null)
    } else if text == kw_text(Keyword::Func) {
        Some(Keyword::Func)
    } else if text == kw_text(Keyword::For) {
        Some(Keyword::For)
    } else if text == kw_text(Keyword::While) {
        Some(Keyword::While)
    } else if text == kw_text(Keyword::Return) {
        Some(Keyword::Return)
    } else if text == kw_text(Keyword::This) {
        Some(Keyword::This)
    } else if text == kw_text(Keyword::Super) {
        Some(Keyword::Super)
    } else {
        None
    }
}

/// The token a completed word yields: the keyword it spells, or an
/// identifier carrying its text.
pub open spec fn word_token(text: Seq<char>) -> SpecToken {
    match keyword_of(text) {
        Some(k) => SpecToken::Keyword(k),
        None => SpecToken::Id(text),
    }
}

/// Puts one classified token in front of the rest of a scan.
pub open spec fn prepend(t: SpecToken, r: Result<Seq<SpecToken>, ScanFault>) -> Result<
    Seq<SpecToken>,
    ScanFault,
> {
    match r {
        Ok(ts) => Ok(seq![t] + ts),
        Err(f) => Err(f),
    }
}

/// The full classification of a character sequence: every lexical unit
/// in order of occurrence, whitespace and comments as [`SpecToken::Empty`],
/// or the first fatal fault.
pub open spec fn scan_raw(s: Seq<char>) -> Result<Seq<SpecToken>, ScanFault>
    decreases s.len(),
{
    if s.len() == 0 {
        Ok(Seq::empty())
    } else {
        let c = s[0];
        let rest = s.skip(1);
        if is_simple(c) {
            prepend(simple_token(c), scan_raw(rest))
        } else if c == '/' {
            if rest.len() > 0 && rest[0] == '/' {
                let k = 2 + consumed_until(s.skip(2), '\n');
                if k <= s.len() {
                    prepend(SpecToken::Empty, scan_raw(s.skip(k as int)))
                } else {
                    prepend(SpecToken::Empty, scan_raw(Seq::empty()))
                }
            } else {
                prepend(SpecToken::Operator(lone_op(c)), scan_raw(rest))
            }
        } else if c == '!' || c == '=' || c == '>' || c == '<' {
            if rest.len() > 0 && rest[0] == '=' {
                prepend(SpecToken::Operator(pair_op(c)), scan_raw(s.skip(2)))
            } else {
                prepend(SpecToken::Operator(lone_op(c)), scan_raw(rest))
            }
        } else if is_blank(c) {
            prepend(SpecToken::Empty, scan_raw(rest))
        } else if c == '"' {
            match string_scan(rest) {
                Some(p) => if p.1.len() < s.len() {
                    prepend(SpecToken::LiteralValue(SpecLiteralValue::Str(p.0)), scan_raw(p.1))
                } else {
                    Err(ScanFault::BrokenString)
                },
                None => Err(ScanFault::BrokenString),
            }
        } else if is_digit(c) {
            match num_scan(rest, false, false) {
                Some(p) => if p.1.len() < s.len() {
                    prepend(
                        SpecToken::LiteralValue(SpecLiteralValue::Num(seq![c] + p.0)),
                        scan_raw(p.1),
                    )
                } else {
                    Err(ScanFault::UnknownNumber)
                },
                None => Err(ScanFault::UnknownNumber),
            }
        } else if is_word_start(c) {
            let p = word_scan(rest);
            if p.1.len() < s.len() {
                prepend(word_token(seq![c] + p.0), scan_raw(p.1))
            } else {
                prepend(word_token(seq![c] + p.0), scan_raw(rest))
            }
        } else {
            Err(ScanFault::UnknownChar)
        }
    }
}

/// Whether a token survives into the published sequence.
pub open spec fn keep_token(t: SpecToken) -> bool {
    !(t is Empty)
}

/// Drops every insignificant token from a classified stream.
pub open spec fn drop_empties(ts: Seq<SpecToken>) -> Seq<SpecToken> {
    ts.filter(|t: SpecToken| keep_token(t))
}

/// The published result of tokenizing a character sequence: the
/// classified stream with whitespace and comments dropped, in the order
/// of occurrence, or the first fatal fault.
pub open spec fn spec_tokenize(s: Seq<char>) -> Result<Seq<SpecToken>, ScanFault> {
    match scan_raw(s) {
        Ok(ts) => Ok(drop_empties(ts)),
        Err(f) => Err(f),
    }
}

/// A single-character token is taken and the scan goes on behind it.
pub proof fn lemma_step_simple(s: Seq<char>)
    requires
        s.len() > 0,
        is_simple(s[0]),
    ensures
        scan_raw(s) == prepend(simple_token(s[0]), scan_raw(s.skip(1))),
{
}

/// A comment runs to the end of its line (or of the text) and yields one
/// insignificant token.
pub proof fn lemma_step_comment(s: Seq<char>)
    requires
        s.len() >= 2,
        s[0] == '/',
        s[1] == '/',
    ensures
        scan_raw(s) == prepend(
            SpecToken::Empty,
            scan_raw(s.skip(2 + consumed_until(s.skip(2), '\n') as int)),
        ),
{
    lemma_consumed_until_bound(s.skip(2), '\n');
}

/// When the second character matches, the two-character operator wins.
pub proof fn lemma_step_pair(s: Seq<char>)
    requires
        s.len() >= 2,
        s[0] == '!' || s[0] == '=' || s[0] == '>' || s[0] == '<',
        s[1] == '=',
    ensures
        scan_raw(s) == prepend(SpecToken::Operator(pair_op(s[0])), scan_raw(s.skip(2))),
{
}

/// When the second character does not match (or the text ends), the
/// single-character operator is taken.
pub proof fn lemma_step_lone(s: Seq<char>)
    requires
        s.len() > 0,
        s[0] == '/' || s[0] == '!' || s[0] == '=' || s[0] == '>' || s[0] == '<',
        s.len() == 1 || (s[0] == '/' && s[1] != '/') || (s[0] != '/' && s[1] != '='),
    ensures
        scan_raw(s) == prepend(SpecToken::Operator(lone_op(s[0])), scan_raw(s.skip(1))),
{
}

/// Whitespace yields one insignificant token.
pub proof fn lemma_step_blank(s: Seq<char>)
    requires
        s.len() > 0,
        is_blank(s[0]),
    ensures
        scan_raw(s) == prepend(SpecToken::Empty, scan_raw(s.skip(1))),
{
}

/// A well-formed string literal yields its content and the scan goes on
/// after the closing quote.
pub proof fn lemma_step_string(s: Seq<char>)
    requires
        s.len() > 0,
        s[0] == '"',
    ensures
        string_scan(s.skip(1)) matches Some(p) ==> scan_raw(s) == prepend(
            SpecToken::LiteralValue(SpecLiteralValue::Str(p.0)),
            scan_raw(p.1),
        ),
        string_scan(s.skip(1)) is None ==> scan_raw(s) == Err::<Seq<SpecToken>, ScanFault>(
            ScanFault::BrokenString,
        ),
{
    lemma_string_scan_bound(s.skip(1));
}

/// A well-formed number literal yields its text and the scan goes on
/// after it; a malformed one is the whole scan's fault.
pub proof fn lemma_step_number(s: Seq<char>)
    requires
        s.len() > 0,
        is_digit(s[0]),
    ensures
        num_scan(s.skip(1), false, false) matches Some(p) ==> scan_raw(s) == prepend(
            SpecToken::LiteralValue(SpecLiteralValue::Num(seq![s[0]] + p.0)),
            scan_raw(p.1),
        ),
        num_scan(s.skip(1), false, false) is None ==> scan_raw(s) == Err::<
            Seq<SpecToken>,
            ScanFault,
        >(ScanFault::UnknownNumber),
{
    lemma_num_scan_bound(s.skip(1), false, false);
}

/// An identifier or keyword takes the longest run of word characters.
pub proof fn lemma_step_word(s: Seq<char>)
    requires
        s.len() > 0,
        is_word_start(s[0]),
    ensures
        scan_raw(s) == prepend(
            word_token(seq![s[0]] + word_scan(s.skip(1)).0),
            scan_raw(word_scan(s.skip(1)).1),
        ),
{
    lemma_word_scan_bound(s.skip(1));
}

/// A character matching no lexical class is the whole scan's fault.
pub proof fn lemma_step_unknown(s: Seq<char>)
    requires
        s.len() > 0,
        !is_simple(s[0]),
        s[0] != '/' && s[0] != '!' && s[0] != '=' && s[0] != '>' && s[0] != '<',
        !is_blank(s[0]),
        s[0] != '"',
        !is_digit(s[0]),
        !is_word_start(s[0]),
    ensures
        scan_raw(s) == Err::<Seq<SpecToken>, ScanFault>(ScanFault::UnknownChar),
{
}

/// Dropping the insignificant tokens distributes over splitting a stream.
pub proof fn lemma_drop_empties_add(a: Seq<SpecToken>, b: Seq<SpecToken>)
    ensures
        drop_empties(a + b) == drop_empties(a) + drop_empties(b),
{
}

/// Dropping the insignificant tokens from one classified token.
pub proof fn lemma_drop_empties_one(t: SpecToken)
    ensures
        keep_token(t) ==> drop_empties(seq![t]) == seq![t],
        !keep_token(t) ==> drop_empties(seq![t]) == Seq::<SpecToken>::empty(),
{
    reveal_with_fuel(Seq::filter, 2);
    assert(seq![t].drop_last() =~= Seq::<SpecToken>::empty());
    assert(seq![t].last() == t);
}

} // verus!
