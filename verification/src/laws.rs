//! Laws the scanner obeys, stated and proved against the grammar.
//!
//! The central result is [`lemma_round_trip`]: serializing any
//! well-formed token sequence and tokenizing the text again yields the
//! same sequence. Around it stand the laws that the output never holds
//! an insignificant token, that it is exactly the significant part of
//! the full classification in order, and that a compound operator always
//! wins over its one-character prefix.

use vstd::prelude::*;

verus! {

use crate::cursor::{consumed_until, lemma_consumed_until_bound};
use crate::grammar::{
    ScanFault,
    drop_empties,
    keep_token,
    keyword_of,
    kw_text,
    lemma_drop_empties_add,
    lemma_drop_empties_one,
    lemma_step_blank,
    lemma_step_comment,
    lemma_step_lone,
    lemma_step_number,
    lemma_step_pair,
    lemma_step_simple,
    lemma_step_string,
    lemma_step_word,
    num_scan,
    pair_op,
    lone_op,
    prepend,
    scan_raw,
    simple_token,
    spec_tokenize,
    string_scan,
    word_scan,
    word_token,
};
use crate::text::{is_digit, is_word_char, is_word_start};
use crate::tokens::{Keyword, Operator, SpecLiteralValue, SpecToken};

/// The text an operator is written as.
pub open spec fn op_text(o: Operator) -> Seq<char> {
    match o {
        Operator::Add => seq!['+'],
        Operator::Minus => seq!['-'],
        Operator::Times => seq!['*'],
        Operator::Divide => seq!['/'],
        Operator::Assign => seq!['='],
        Operator::Equal => seq!['=', '='],
        Operator::Nonequal => seq!['!', '='],
        Operator::Larger => seq!['>'],
        Operator::NotSmaller => seq!['>', '='],
        Operator::Smaller => seq!['<'],
        Operator::NotLarger => seq!['<', '='],
        Operator::Not => seq!['!'],
        Operator::LeftPeren => seq!['('],
        Operator::RightPeren => seq![')'],
        Operator::LeftSqket => seq!['['],
        Operator::RightSqket => seq![']'],
        Operator::LeftCuket => seq!['{'],
        Operator::RightCuket => seq!['}'],
        Operator::Call => seq!['.'],
        Operator::And => seq!['&'],
        Operator::Or => seq!['|'],
    }
}

/// The text a token is written as when a sequence is serialized.
pub open spec fn token_text(t: SpecToken) -> Seq<char> {
    match t {
        SpecToken::Id(s) => s,
        SpecToken::LiteralValue(l) => match l {
            SpecLiteralValue::Str(s) => seq!['"'] + s + seq!['"'],
            SpecLiteralValue::Num(s) => s,
        },
        SpecToken::Keyword(k) => kw_text(k),
        SpecToken::Operator(o) => op_text(o),
        SpecToken::Empty => Seq::empty(),
        SpecToken::End => seq![';'],
    }
}

/// A well-formed identifier text: nonempty, starting with a word-start
/// character, continuing with word characters, and spelling no keyword.
pub open spec fn wf_id(s: Seq<char>) -> bool {
    &&& s.len() > 0
    &&& is_word_start(s[0])
    &&& forall|i: int| 1 <= i < s.len() ==> is_word_char(#[trigger] s[i])
    &&& keyword_of(s) is None
}

/// A well-formed string literal body: no raw newline and no quote.
pub open spec fn wf_string_body(s: Seq<char>) -> bool {
    forall|i: int| 0 <= i < s.len() ==> (#[trigger] s[i]) != '"' && s[i] != '\n'
}

/// A well-formed number literal text: digits with at most one decimal
/// point, starting and ending on a digit.
pub open spec fn wf_number(s: Seq<char>) -> bool {
    &&& s.len() > 0
    &&& is_digit(s[0])
    &&& is_digit(s[s.len() - 1])
    &&& forall|i: int| 0 <= i < s.len() ==> is_digit(#[trigger] s[i]) || s[i] == '.'
    &&& forall|i: int, j: int|
        0 <= i < j < s.len() && #[trigger] s[i] == '.' && #[trigger] s[j] == '.' ==> false
}

/// A token whose serialized text scans back to itself: the condition
/// under which serialization is unambiguous.
pub open spec fn wf_token(t: SpecToken) -> bool {
    match t {
        SpecToken::Id(s) => wf_id(s),
        SpecToken::LiteralValue(l) => match l {
            SpecLiteralValue::Str(s) => wf_string_body(s),
            SpecLiteralValue::Num(s) => wf_number(s),
        },
        SpecToken::Keyword(_) => true,
        SpecToken::Operator(_) => true,
        SpecToken::Empty => false,
        SpecToken::End => true,
    }
}

/// Every token of the sequence is well-formed.
pub open spec fn wf_tokens(ts: Seq<SpecToken>) -> bool {
    forall|i: int| 0 <= i < ts.len() ==> wf_token(#[trigger] ts[i])
}

/// The unambiguous serialization of a token sequence: each token's text
/// followed by a single space.
pub open spec fn serialize(ts: Seq<SpecToken>) -> Seq<char>
    decreases ts.len(),
{
    if ts.len() == 0 {
        Seq::empty()
    } else {
        token_text(ts[0]) + seq![' '] + serialize(ts.skip(1))
    }
}

/// A run of word characters followed by anything that is not one is
/// scanned as exactly that run.
proof fn lemma_word_scan_exact(w: Seq<char>, rest: Seq<char>)
    requires
        forall|i: int| 0 <= i < w.len() ==> is_word_char(#[trigger] w[i]),
        rest.len() == 0 || !is_word_char(rest[0]),
    ensures
        word_scan(w + rest).0 == w,
        word_scan(w + rest).1 == rest,
    decreases w.len(),
{
    let s = w + rest;
    if w.len() == 0 {
        assert(s =~= rest);
        assert(word_scan(s).0 =~= w);
    } else {
        assert(s[0] == w[0]);
        assert forall|i: int| 0 <= i < w.skip(1).len() implies is_word_char(
            #[trigger] w.skip(1)[i],
        ) by {
            assert(w.skip(1)[i] == w[i + 1]);
        }
        lemma_word_scan_exact(w.skip(1), rest);
        assert(w.skip(1) + rest =~= s.skip(1));
        assert(seq![s[0]] + w.skip(1) =~= w);
    }
}

/// A quote-free, newline-free body followed by a closing quote is
/// scanned as exactly that body.
proof fn lemma_string_scan_exact(body: Seq<char>, rest: Seq<char>)
    requires
        wf_string_body(body),
    ensures
        string_scan(body + seq!['"'] + rest) == Some::<(Seq<char>, Seq<char>)>((body, rest)),
    decreases body.len(),
{
    let s = body + seq!['"'] + rest;
    if body.len() == 0 {
        assert(s[0] == '"');
        assert(s.skip(1) =~= rest);
    } else {
        assert(s[0] == body[0]);
        assert forall|i: int| 0 <= i < body.skip(1).len() implies (#[trigger] body.skip(1)[i])
            != '"' && body.skip(1)[i] != '\n' by {
            assert(body.skip(1)[i] == body[i + 1]);
        }
        lemma_string_scan_exact(body.skip(1), rest);
        assert(body.skip(1) + seq!['"'] + rest =~= s.skip(1));
        assert(seq![body[0]] + body.skip(1) =~= body);
    }
}

/// The rest of a well-formed number text followed by anything that is
/// neither a digit nor a decimal point is scanned as exactly that text.
proof fn lemma_num_scan_exact(w: Seq<char>, doted: bool, last_dot: bool, rest: Seq<char>)
    requires
        forall|i: int| 0 <= i < w.len() ==> is_digit(#[trigger] w[i]) || w[i] == '.',
        w.len() > 0 ==> is_digit(w[w.len() - 1]),
        doted ==> forall|i: int| 0 <= i < w.len() ==> (#[trigger] w[i]) != '.',
        !doted ==> forall|i: int, j: int|
            0 <= i < j < w.len() && #[trigger] w[i] == '.' && #[trigger] w[j] == '.' ==> false,
        last_dot ==> w.len() > 0 && is_digit(w[0]),
        rest.len() == 0 || (!is_digit(rest[0]) && rest[0] != '.'),
    ensures
        num_scan(w + rest, doted, last_dot) == Some::<(Seq<char>, Seq<char>)>((w, rest)),
    decreases w.len(),
{
    let s = w + rest;
    if w.len() == 0 {
        assert(s =~= rest);
    } else if is_digit(w[0]) {
        assert(s[0] == w[0]);
        assert forall|i: int| 0 <= i < w.skip(1).len() implies is_digit(#[trigger] w.skip(1)[i])
            || w.skip(1)[i] == '.' by {
            assert(w.skip(1)[i] == w[i + 1]);
        }
        if w.skip(1).len() > 0 {
            assert(w.skip(1)[w.skip(1).len() - 1] == w[w.len() - 1]);
        }
        if doted {
            assert forall|i: int| 0 <= i < w.skip(1).len() implies (#[trigger] w.skip(1)[i])
                != '.' by {
                assert(w.skip(1)[i] == w[i + 1]);
            }
        } else {
            assert forall|i: int, j: int|
                0 <= i < j < w.skip(1).len() && #[trigger] w.skip(1)[i] == '.' && #[trigger] w.skip(
                    1,
                )[j] == '.' implies false by {
                assert(w.skip(1)[i] == w[i + 1]);
                assert(w.skip(1)[j] == w[j + 1]);
            }
        }
        lemma_num_scan_exact(w.skip(1), doted, false, rest);
        assert(w.skip(1) + rest =~= s.skip(1));
        assert(seq![w[0]] + w.skip(1) =~= w);
    } else {
        assert(w[0] == '.');
        assert(!doted);
        assert(w.len() >= 2);
        assert(is_digit(w[1]) || w[1] == '.');
        assert(w[1] != '.');
        assert(s[0] == '.');
        assert forall|i: int| 0 <= i < w.skip(1).len() implies (#[trigger] w.skip(1)[i]) != '.' by {
            assert(w.skip(1)[i] == w[i + 1]);
        }
        assert forall|i: int| 0 <= i < w.skip(1).len() implies is_digit(#[trigger] w.skip(1)[i])
            || w.skip(1)[i] == '.' by {
            assert(w.skip(1)[i] == w[i + 1]);
        }
        assert(w.skip(1)[w.skip(1).len() - 1] == w[w.len() - 1]);
        lemma_num_scan_exact(w.skip(1), true, true, rest);
        assert(w.skip(1) + rest =~= s.skip(1));
        assert(seq!['.'] + w.skip(1) =~= w);
    }
}

/// Each keyword's text is a nonempty word made of word characters.
proof fn lemma_kw_text_wf(k: Keyword)
    ensures
        kw_text(k).len() > 0,
        is_word_start(kw_text(k)[0]),
        forall|i: int| 0 <= i < kw_text(k).len() ==> is_word_char(#[trigger] kw_text(k)[i]),
{
    reveal_strlit("let");
    reveal_strlit("if");
    reveal_strlit("else");
    reveal_strlit("false");
    reveal_strlit("true");
    reveal_strlit("null");
    reveal_strlit("func");
    reveal_strlit("for");
    reveal_strlit("while");
    reveal_strlit("return");
    reveal_strlit("this");
    reveal_strlit("super");
    assert("let"@ =~= seq!['l', 'e', 't']);
    assert("if"@ =~= seq!['i', 'f']);
    assert("else"@ =~= seq!['e', 'l', 's', 'e']);
    assert("false"@ =~= seq!['f', 'a', 'l', 's', 'e']);
    assert("true"@ =~= seq!['t', 'r', 'u', 'e']);
    assert("null"@ =~= seq!['n', 'u', 'l', 'l']);
    assert("func"@ =~= seq!['f', 'u', 'n', 'c']);
    assert("for"@ =~= seq!['f', 'o', 'r']);
    assert("while"@ =~= seq!['w', 'h', 'i', 'l', 'e']);
    assert("return"@ =~= seq!['r', 'e', 't', 'u', 'r', 'n']);
    assert("this"@ =~= seq!['t', 'h', 'i', 's']);
    assert("super"@ =~= seq!['s', 'u', 'p', 'e', 'r']);
}

/// Each keyword's text resolves to that keyword and no other.
proof fn lemma_keyword_of_kw(k: Keyword)
    ensures
        keyword_of(kw_text(k)) == Some(k),
{
    reveal_strlit("let");
    reveal_strlit("if");
    reveal_strlit("else");
    reveal_strlit("false");
    reveal_strlit("true");
    reveal_strlit("null");
    reveal_strlit("func");
    reveal_strlit("for");
    reveal_strlit("while");
    reveal_strlit("return");
    reveal_strlit("this");
    reveal_strlit("super");
    assert("let"@ =~= seq!['l', 'e', 't']);
    assert("if"@ =~= seq!['i', 'f']);
    assert("else"@ =~= seq!['e', 'l', 's', 'e']);
    assert("false"@ =~= seq!['f', 'a', 'l', 's', 'e']);
    assert("true"@ =~= seq!['t', 'r', 'u', 'e']);
    assert("null"@ =~= seq!['n', 'u', 'l', 'l']);
    assert("func"@ =~= seq!['f', 'u', 'n', 'c']);
    assert("for"@ =~= seq!['f', 'o', 'r']);
    assert("while"@ =~= seq!['w', 'h', 'i', 'l', 'e']);
    assert("return"@ =~= seq!['r', 'e', 't', 'u', 'r', 'n']);
    assert("this"@ =~= seq!['t', 'h', 'i', 's']);
    assert("super"@ =~= seq!['s', 'u', 'p', 'e', 'r']);
}

/// Scanning one well-formed token's text, followed by a space or the end
/// of the text, yields that token and leaves the rest.
#[verifier::rlimit(100)]
proof fn lemma_scan_one(t: SpecToken, rest: Seq<char>)
    requires
        wf_token(t),
        rest.len() == 0 || rest[0] == ' ',
    ensures
        scan_raw(token_text(t) + rest) == prepend(t, scan_raw(rest)),
{
    let s = token_text(t) + rest;
    match t {
        SpecToken::Id(w) => {
            assert(s[0] == w[0]);
            assert forall|i: int| 0 <= i < w.skip(1).len() implies is_word_char(
                #[trigger] w.skip(1)[i],
            ) by {
                assert(w.skip(1)[i] == w[i + 1]);
            }
            lemma_word_scan_exact(w.skip(1), rest);
            assert(w.skip(1) + rest =~= s.skip(1));
            lemma_step_word(s);
            assert(seq![s[0]] + w.skip(1) =~= w);
        },
        SpecToken::Keyword(k) => {
            lemma_kw_text_wf(k);
            let w = kw_text(k);
            assert(s[0] == w[0]);
            assert forall|i: int| 0 <= i < w.skip(1).len() implies is_word_char(
                #[trigger] w.skip(1)[i],
            ) by {
                assert(w.skip(1)[i] == w[i + 1]);
            }
            lemma_word_scan_exact(w.skip(1), rest);
            assert(w.skip(1) + rest =~= s.skip(1));
            lemma_step_word(s);
            assert(seq![s[0]] + w.skip(1) =~= w);
            lemma_keyword_of_kw(k);
        },
        SpecToken::LiteralValue(l) => match l {
            SpecLiteralValue::Str(body) => {
                assert(s[0] == '"');
                lemma_string_scan_exact(body, rest);
                assert(body + seq!['"'] + rest =~= s.skip(1));
                lemma_step_string(s);
            },
            SpecLiteralValue::Num(w) => {
                assert(s[0] == w[0]);
                assert forall|i: int| 0 <= i < w.skip(1).len() implies is_digit(
                    #[trigger] w.skip(1)[i],
                ) || w.skip(1)[i] == '.' by {
                    assert(w.skip(1)[i] == w[i + 1]);
                }
                if w.skip(1).len() > 0 {
                    assert(w.skip(1)[w.skip(1).len() - 1] == w[w.len() - 1]);
                }
                assert forall|i: int, j: int|
                    0 <= i < j < w.skip(1).len() && #[trigger] w.skip(1)[i] == '.'
                        && #[trigger] w.skip(1)[j] == '.' implies false by {
                    assert(w.skip(1)[i] == w[i + 1]);
                    assert(w.skip(1)[j] == w[j + 1]);
                }
                lemma_num_scan_exact(w.skip(1), false, false, rest);
                assert(w.skip(1) + rest =~= s.skip(1));
                lemma_step_number(s);
                assert(seq![s[0]] + w.skip(1) =~= w);
            },
        },
        SpecToken::Operator(o) => {
            let w = op_text(o);
            if w.len() == 2 {
                assert(s[0] == w[0] && s[1] == w[1]);
                lemma_step_pair(s);
                assert(s.skip(2) =~= rest);
            } else {
                assert(s[0] == w[0]);
                assert(s.skip(1) =~= rest);
                if o is Divide || o is Not || o is Assign || o is Larger || o is Smaller {
                    lemma_step_lone(s);
                } else {
                    lemma_step_simple(s);
                }
            }
        },
        SpecToken::End => {
            assert(s[0] == ';');
            assert(s.skip(1) =~= rest);
            lemma_step_simple(s);
        },
        SpecToken::Empty => {
            assert(false);
        },
    }
}

/// Dropping insignificant tokens from the empty stream leaves it empty.
proof fn lemma_drop_empties_none()
    ensures
        drop_empties(Seq::<SpecToken>::empty()) == Seq::<SpecToken>::empty(),
{
    reveal_with_fuel(Seq::filter, 1);
}

/// Round trip: tokenizing the serialized text of any well-formed token
/// sequence yields exactly that sequence. In particular no significant
/// token is ever dropped and the left-to-right order of occurrence is
/// kept.
pub proof fn lemma_round_trip(ts: Seq<SpecToken>)
    requires
        wf_tokens(ts),
    ensures
        spec_tokenize(serialize(ts)) == Ok::<Seq<SpecToken>, ScanFault>(ts),
    decreases ts.len(),
{
    if ts.len() == 0 {
        lemma_drop_empties_none();
        assert(ts =~= Seq::<SpecToken>::empty());
        assert(serialize(ts) =~= Seq::<char>::empty());
    } else {
        let t = ts[0];
        let tail = ts.skip(1);
        assert(wf_tokens(tail)) by {
            assert forall|i: int| 0 <= i < tail.len() implies wf_token(#[trigger] tail[i]) by {
                assert(tail[i] == ts[i + 1]);
            }
        }
        lemma_round_trip(tail);
        let rest1 = seq![' '] + serialize(tail);
        assert(serialize(ts) =~= token_text(t) + rest1);
        lemma_scan_one(t, rest1);
        lemma_step_blank(rest1);
        assert(rest1.skip(1) =~= serialize(tail));
        match scan_raw(serialize(tail)) {
            Ok(raw) => {
                assert(scan_raw(serialize(ts)) == Ok::<Seq<SpecToken>, ScanFault>(
                    seq![t] + (seq![SpecToken::Empty] + raw),
                ));
                lemma_drop_empties_one(t);
                lemma_drop_empties_one(SpecToken::Empty);
                lemma_drop_empties_add(seq![SpecToken::Empty], raw);
                lemma_drop_empties_add(seq![t], seq![SpecToken::Empty] + raw);
                assert(drop_empties(seq![t] + (seq![SpecToken::Empty] + raw)) =~= seq![t]
                    + drop_empties(raw));
                assert(seq![t] + tail =~= ts);
            },
            Err(_) => {
                assert(false);
            },
        }
    }
}

/// The content of a scanned string literal is quote-free and
/// newline-free.
proof fn lemma_string_scan_wf(s: Seq<char>)
    ensures
        string_scan(s) matches Some(p) ==> wf_string_body(p.0),
    decreases s.len(),
{
    if s.len() == 0 || s[0] == '\n' || s[0] == '"' {
    } else {
        lemma_string_scan_wf(s.skip(1));
        match string_scan(s.skip(1)) {
            Some(p) => {
                let w = seq![s[0]] + p.0;
                assert forall|i: int| 0 <= i < w.len() implies (#[trigger] w[i]) != '"' && w[i]
                    != '\n' by {
                    if i > 0 {
                        assert(w[i] == p.0[i - 1]);
                    }
                }
            },
            None => {},
        }
    }
}

/// What a number scan accepts: digit-or-dot characters, ending on a
/// digit, with no dot once one was seen and at most one dot otherwise.
proof fn lemma_num_scan_wf(s: Seq<char>, doted: bool, last_dot: bool)
    ensures
        num_scan(s, doted, last_dot) matches Some(p) ==> {
            &&& forall|i: int| 0 <= i < p.0.len() ==> is_digit(#[trigger] p.0[i]) || p.0[i] == '.'
            &&& p.0.len() > 0 ==> is_digit(p.0[p.0.len() - 1])
            &&& p.0.len() == 0 ==> !last_dot
            &&& doted ==> forall|i: int| 0 <= i < p.0.len() ==> (#[trigger] p.0[i]) != '.'
            &&& !doted ==> forall|i: int, j: int|
                0 <= i < j < p.0.len() && #[trigger] p.0[i] == '.' && #[trigger] p.0[j] == '.'
                    ==> false
        },
    decreases s.len(),
{
    if s.len() > 0 && is_digit(s[0]) {
        lemma_num_scan_wf(s.skip(1), doted, false);
        match num_scan(s.skip(1), doted, false) {
            Some(p) => {
                let w = seq![s[0]] + p.0;
                assert forall|i: int| 1 <= i < w.len() implies w[i] == p.0[i - 1] by {}
            },
            None => {},
        }
    } else if s.len() > 0 && s[0] == '.' && !doted {
        lemma_num_scan_wf(s.skip(1), true, true);
        match num_scan(s.skip(1), true, true) {
            Some(p) => {
                let w = seq!['.'] + p.0;
                assert forall|i: int| 1 <= i < w.len() implies w[i] == p.0[i - 1] by {}
            },
            None => {},
        }
    }
}

/// Every character a word scan accepts is a word character.
proof fn lemma_word_scan_wf(s: Seq<char>)
    ensures
        forall|i: int|
            0 <= i < word_scan(s).0.len() ==> is_word_char(#[trigger] word_scan(s).0[i]),
    decreases s.len(),
{
    if s.len() > 0 && is_word_char(s[0]) {
        lemma_word_scan_wf(s.skip(1));
        let w = seq![s[0]] + word_scan(s.skip(1)).0;
        assert forall|i: int| 0 <= i < w.len() implies is_word_char(#[trigger] w[i]) by {
            if i > 0 {
                assert(w[i] == word_scan(s.skip(1)).0[i - 1]);
            }
        }
    }
}

/// Whether every token of a raw classified stream is either
/// insignificant or well-formed.
spec fn wf_raw(ts: Seq<SpecToken>) -> bool {
    forall|i: int| 0 <= i < ts.len() ==> (ts[i] is Empty || wf_token(#[trigger] ts[i]))
}

/// One well-formed (or insignificant) token in front of a well-formed
/// stream leaves the stream well-formed.
proof fn lemma_wf_cons(t: SpecToken, rem: Seq<char>, s: Seq<char>)
    requires
        scan_raw(s) == prepend(t, scan_raw(rem)),
        t is Empty || wf_token(t),
        scan_raw(rem) matches Ok(ts2) ==> wf_raw(ts2),
    ensures
        scan_raw(s) matches Ok(ts) ==> wf_raw(ts),
{
    match scan_raw(rem) {
        Ok(ts2) => {
            let ts = seq![t] + ts2;
            assert forall|i: int| 0 <= i < ts.len() implies (ts[i] is Empty || wf_token(
                #[trigger] ts[i],
            )) by {
                if i > 0 {
                    assert(ts[i] == ts2[i - 1]);
                }
            }
        },
        Err(_) => {},
    }
}

/// Every token the full classification yields is either insignificant
/// or well-formed.
proof fn lemma_scan_raw_wf(s: Seq<char>)
    ensures
        scan_raw(s) matches Ok(ts) ==> wf_raw(ts),
    decreases s.len(),
{
    if s.len() == 0 {
    } else {
        let c = s[0];
        let rest = s.skip(1);
        if crate::grammar::is_simple(c) {
            lemma_step_simple(s);
            lemma_scan_raw_wf(rest);
            lemma_wf_cons(simple_token(c), rest, s);
        } else if c == '/' && rest.len() > 0 && rest[0] == '/' {
            lemma_consumed_until_bound(s.skip(2), '\n');
            let rem = s.skip(2 + consumed_until(s.skip(2), '\n') as int);
            lemma_step_comment(s);
            lemma_scan_raw_wf(rem);
            lemma_wf_cons(SpecToken::Empty, rem, s);
        } else if (c == '!' || c == '=' || c == '>' || c == '<') && rest.len() > 0 && rest[0]
            == '=' {
            lemma_step_pair(s);
            lemma_scan_raw_wf(s.skip(2));
            lemma_wf_cons(SpecToken::Operator(pair_op(c)), s.skip(2), s);
        } else if c == '/' || c == '!' || c == '=' || c == '>' || c == '<' {
            lemma_step_lone(s);
            lemma_scan_raw_wf(rest);
            lemma_wf_cons(SpecToken::Operator(lone_op(c)), rest, s);
        } else if crate::text::is_blank(c) {
            lemma_step_blank(s);
            lemma_scan_raw_wf(rest);
            lemma_wf_cons(SpecToken::Empty, rest, s);
        } else if c == '"' {
            lemma_step_string(s);
            match string_scan(rest) {
                Some(p) => {
                    crate::grammar::lemma_string_scan_bound(rest);
                    lemma_string_scan_wf(rest);
                    lemma_scan_raw_wf(p.1);
                    lemma_wf_cons(
                        SpecToken::LiteralValue(SpecLiteralValue::Str(p.0)),
                        p.1,
                        s,
                    );
                },
                None => {},
            }
        } else if is_digit(c) {
            lemma_step_number(s);
            match num_scan(rest, false, false) {
                Some(p) => {
                    crate::grammar::lemma_num_scan_bound(rest, false, false);
                    lemma_num_scan_wf(rest, false, false);
                    let w = seq![c] + p.0;
                    assert forall|i: int| 1 <= i < w.len() implies w[i] == p.0[i - 1] by {}
                    assert(wf_number(w));
                    lemma_scan_raw_wf(p.1);
                    lemma_wf_cons(SpecToken::LiteralValue(SpecLiteralValue::Num(w)), p.1, s);
                },
                None => {},
            }
        } else if is_word_start(c) {
            lemma_step_word(s);
            let p = word_scan(rest);
            crate::grammar::lemma_word_scan_bound(rest);
            lemma_word_scan_wf(rest);
            let w = seq![c] + p.0;
            assert forall|i: int| 1 <= i < w.len() implies w[i] == p.0[i - 1] by {}
            assert(word_token(w) is Id ==> keyword_of(w) is None);
            assert(wf_token(word_token(w)));
            lemma_scan_raw_wf(p.1);
            lemma_wf_cons(word_token(w), p.1, s);
        } else {
        }
    }
}

/// Dropping the insignificant tokens from a stream whose significant
/// tokens are well-formed leaves only well-formed tokens.
proof fn lemma_drop_empties_wf(raw: Seq<SpecToken>)
    requires
        wf_raw(raw),
    ensures
        wf_tokens(drop_empties(raw)),
    decreases raw.len(),
{
    reveal_with_fuel(Seq::filter, 2);
    if raw.len() == 0 {
    } else {
        assert forall|i: int| 0 <= i < raw.drop_last().len() implies (raw.drop_last()[i] is Empty
            || wf_token(#[trigger] raw.drop_last()[i])) by {
            assert(raw.drop_last()[i] == raw[i]);
        }
        lemma_drop_empties_wf(raw.drop_last());
        let inner = drop_empties(raw.drop_last());
        let whole = drop_empties(raw);
        assert(whole == if keep_token(raw.last()) {
            inner.push(raw.last())
        } else {
            inner
        });
        assert forall|i: int| 0 <= i < whole.len() implies wf_token(#[trigger] whole[i]) by {
            if i < inner.len() {
                assert(whole[i] == inner[i]);
            }
        }
    }
}

/// Every token the tokenizer publishes is well-formed: its identifiers
/// spell no keyword, its string bodies hold no quote or newline, its
/// number texts are digits around at most one decimal point.
pub proof fn lemma_tokenize_wf(s: Seq<char>)
    ensures
        spec_tokenize(s) matches Ok(ts) ==> wf_tokens(ts),
{
    lemma_scan_raw_wf(s);
    match scan_raw(s) {
        Ok(raw) => {
            lemma_drop_empties_wf(raw);
        },
        Err(_) => {},
    }
}

/// Idempotence of classification: serializing what the tokenizer
/// returned and tokenizing that text yields the same token sequence
/// again.
pub proof fn lemma_tokenize_idempotent(s: Seq<char>)
    ensures
        spec_tokenize(s) matches Ok(ts) ==> spec_tokenize(serialize(ts)) == Ok::<
            Seq<SpecToken>,
            ScanFault,
        >(ts),
{
    lemma_tokenize_wf(s);
    match spec_tokenize(s) {
        Ok(ts) => {
            lemma_round_trip(ts);
        },
        Err(_) => {},
    }
}

/// The published sequence is exactly the significant part of the full
/// classification, in the order of occurrence: nothing else is dropped
/// and nothing is reordered.
pub proof fn lemma_output_complete_and_ordered(s: Seq<char>, raw: Seq<SpecToken>)
    requires
        scan_raw(s) == Ok::<Seq<SpecToken>, ScanFault>(raw),
    ensures
        spec_tokenize(s) == Ok::<Seq<SpecToken>, ScanFault>(drop_empties(raw)),
{
}

/// Whitespace and comments never appear in the output sequence, however
/// many there are and wherever they stand.
pub proof fn lemma_no_insignificant_output(s: Seq<char>, ts: Seq<SpecToken>)
    requires
        spec_tokenize(s) == Ok::<Seq<SpecToken>, ScanFault>(ts),
    ensures
        forall|i: int| 0 <= i < ts.len() ==> !((#[trigger] ts[i]) is Empty),
{
    match scan_raw(s) {
        Ok(raw) => {
            assert forall|i: int| 0 <= i < ts.len() implies !((#[trigger] ts[i]) is Empty) by {
                assert(ts[i] == drop_empties(raw)[i]);
                assert(keep_token(drop_empties(raw)[i]));
            }
        },
        Err(_) => {},
    }
}

/// When the character after `!`, `=`, `>` or `<` is `=`, the compound
/// operator always wins: the first token of the scan is the compound,
/// never the one-character prefix followed by `=`.
pub proof fn lemma_compound_operator_wins(s: Seq<char>)
    requires
        s.len() >= 2,
        s[0] == '!' || s[0] == '=' || s[0] == '>' || s[0] == '<',
        s[1] == '=',
    ensures
        scan_raw(s) == prepend(SpecToken::Operator(pair_op(s[0])), scan_raw(s.skip(2))),
        spec_tokenize(s) matches Ok(ts) ==> ts.len() >= 1 && ts[0] == SpecToken::Operator(
            pair_op(s[0]),
        ),
        pair_op(s[0]) != lone_op(s[0]),
{
    lemma_step_pair(s);
    match scan_raw(s.skip(2)) {
        Ok(raw) => {
            lemma_drop_empties_one(SpecToken::Operator(pair_op(s[0])));
            lemma_drop_empties_add(seq![SpecToken::Operator(pair_op(s[0]))], raw);
        },
        Err(_) => {},
    }
}

} // verus!
