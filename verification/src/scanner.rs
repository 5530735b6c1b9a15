//! The scanner engine: the executable single-pass tokenizer, proved to
//! return exactly what the lexical grammar demands.

use vstd::prelude::*;

verus! {

use crate::cursor::{FutureStr, consumed_until, lemma_consumed_until_bound};
use crate::errors::SyntaxError;
use crate::grammar::{
    ScanFault,
    drop_empties,
    fault_text,
    keep_token,
    lemma_drop_empties_add,
    lemma_drop_empties_one,
    lemma_step_blank,
    lemma_step_comment,
    lemma_step_lone,
    lemma_step_number,
    lemma_step_pair,
    lemma_step_simple,
    lemma_step_string,
    lemma_step_unknown,
    lemma_step_word,
    num_scan,
    prepend,
    scan_raw,
    spec_tokenize,
    string_scan,
    word_scan,
    word_token,
};
use crate::text::{chars_to_string, digit_char, matches_word, word_char, word_start_char};
use crate::tokens::{Keyword, LiteralValue, Operator, SpecToken, Token};

/// Resolves a completed word to its token: the keyword it spells, or an
/// identifier carrying its text.
fn word_to_token(buf: Vec<char>) -> (t: Token)
    ensures
        t@ == word_token(buf@),
{
    if matches_word(&buf, "let") {
        Token::Keyword(Keyword::Let)
    } else if matches_word(&buf, "if") {
        Token::Keyword(Keyword::If)
    } else if matches_word(&buf, "else") {
        Token::Keyword(Keyword::Else)
    } else if matches_word(&buf, "false") {
        Token::Keyword(Keyword::False)
    } else if matches_word(&buf, "true") {
        Token::Keyword(Keyword::True)
    } else if matches_word(&buf, "null") {
        Token::Keyword(Keyword::Null)
    } else if matches_word(&buf, "func") {
        Token::Keyword(Keyword::Func)
    } else if matches_word(&buf, "for") {
        Token::Keyword(Keyword::For)
    } else if matches_word(&buf, "while") {
        Token::Keyword(Keyword::While)
    } else if matches_word(&buf, "return") {
        Token::Keyword(Keyword::Return)
    } else if matches_word(&buf, "this") {
        Token::Keyword(Keyword::This)
    } else if matches_word(&buf, "super") {
        Token::Keyword(Keyword::Super)
    } else {
        Token::Id(chars_to_string(&buf))
    }
}

/// One scanned token moves from the part of the text still to do to the
/// part already done, keeping the overall answer the same.
proof fn lemma_advance(
    full: Seq<char>,
    pre: Seq<char>,
    now: Seq<char>,
    done_old: Seq<SpecToken>,
    done_new: Seq<SpecToken>,
    t: SpecToken,
)
    requires
        scan_raw(pre) == prepend(t, scan_raw(now)),
        match scan_raw(pre) {
            Ok(ts) => spec_tokenize(full) == Ok::<Seq<SpecToken>, ScanFault>(
                done_old + drop_empties(ts),
            ),
            Err(f) => spec_tokenize(full) == Err::<Seq<SpecToken>, ScanFault>(f),
        },
        keep_token(t) ==> done_new == done_old + seq![t],
        !keep_token(t) ==> done_new == done_old,
    ensures
        match scan_raw(now) {
            Ok(ts) => spec_tokenize(full) == Ok::<Seq<SpecToken>, ScanFault>(
                done_new + drop_empties(ts),
            ),
            Err(f) => spec_tokenize(full) == Err::<Seq<SpecToken>, ScanFault>(f),
        },
{
    match scan_raw(now) {
        Ok(ts1) => {
            lemma_drop_empties_add(seq![t], ts1);
            lemma_drop_empties_one(t);
            assert(done_new + drop_empties(ts1) =~= done_old + drop_empties(seq![t] + ts1));
        },
        Err(_) => {},
    }
}

/// Converts source text into the ordered sequence of its tokens, or
/// fails with the first lexical error.
///
/// The returned sequence holds every significant token of the text in
/// order of occurrence and nothing else; whitespace and comments never
/// appear in it. On failure the error carries the reason the grammar
/// assigns to the fault.
#[verifier::loop_isolation(false)]
#[verifier::rlimit(60)]
pub fn str_to_token(s: &str) -> (r: Result<Vec<Token>, SyntaxError>)
    ensures
        match spec_tokenize(s@) {
            Ok(ts) => r matches Ok(v) && v.deep_view() == ts,
            Err(f) => r matches Err(e) && e.line_of() == 0 && e.reason_of() == fault_text(f),
        },
{
    let mut cur = FutureStr::from_str(s);
    let mut ans: Vec<Token> = Vec::new();
    proof {
        assert(ans.deep_view() =~= Seq::<SpecToken>::empty());
        match scan_raw(s@) {
            Ok(ts) => {
                assert(ans.deep_view() + drop_empties(ts) =~= drop_empties(ts));
            },
            Err(_) => {},
        }
    }
    loop
        invariant
            match scan_raw(cur@) {
                Ok(ts) => spec_tokenize(s@) == Ok::<Seq<SpecToken>, ScanFault>(
                    ans.deep_view() + drop_empties(ts),
                ),
                Err(f) => spec_tokenize(s@) == Err::<Seq<SpecToken>, ScanFault>(f),
            },
        decreases cur@.len(),
    {
        let ghost pre = cur@;
        let c = match cur.next() {
            Some(c) => c,
            None => { break },
        };
        let token: Token;
        if c == '(' || c == ')' || c == '[' || c == ']' || c == '{' || c == '}' || c == ';' || c
            == '.' || c == '&' || c == '|' || c == '+' || c == '-' || c == '*' {
            token = if c == '(' {
                Token::Operator(Operator::LeftPeren)
            } else if c == ')' {
                Token::Operator(Operator::RightPeren)
            } else if c == '[' {
                Token::Operator(Operator::LeftSqket)
            } else if c == ']' {
                Token::Operator(Operator::RightSqket)
            } else if c == '{' {
                Token::Operator(Operator::LeftCuket)
            } else if c == '}' {
                Token::Operator(Operator::RightCuket)
            } else if c == ';' {
                Token::End
            } else if c == '.' {
                Token::Operator(Operator::Call)
            } else if c == '&' {
                Token::Operator(Operator::And)
            } else if c == '|' {
                Token::Operator(Operator::Or)
            } else if c == '+' {
                Token::Operator(Operator::Add)
            } else if c == '-' {
                Token::Operator(Operator::Minus)
            } else {
                Token::Operator(Operator::Times)
            };
            proof {
                lemma_step_simple(pre);
            }
        } else if c == '/' {
            let second = cur.peek();
            let is_comment = match second {
                Some(c2) => c2 == '/',
                None => false,
            };
            if is_comment {
                let _ = cur.next();
                let ghost mid = cur@;
                cur.until('\n');
                token = Token::Empty;
                proof {
                    lemma_consumed_until_bound(mid, '\n');
                    assert(mid =~= pre.skip(2));
                    assert(mid.skip(consumed_until(mid, '\n') as int) =~= pre.skip(
                        2 + consumed_until(pre.skip(2), '\n') as int,
                    ));
                    lemma_step_comment(pre);
                }
            } else {
                token = Token::Operator(Operator::Divide);
                proof {
                    lemma_step_lone(pre);
                }
            }
        } else if c == '!' || c == '=' || c == '>' || c == '<' {
            let second = cur.peek();
            let is_pair = match second {
                Some(c2) => c2 == '=',
                None => false,
            };
            if is_pair {
                let _ = cur.next();
                token = if c == '!' {
                    Token::Operator(Operator::Nonequal)
                } else if c == '=' {
                    Token::Operator(Operator::Equal)
                } else if c == '>' {
                    Token::Operator(Operator::NotSmaller)
                } else {
                    Token::Operator(Operator::NotLarger)
                };
                proof {
                    assert(cur@ =~= pre.skip(2));
                    lemma_step_pair(pre);
                }
            } else {
                token = if c == '!' {
                    Token::Operator(Operator::Not)
                } else if c == '=' {
                    Token::Operator(Operator::Assign)
                } else if c == '>' {
                    Token::Operator(Operator::Larger)
                } else {
                    Token::Operator(Operator::Smaller)
                };
                proof {
                    lemma_step_lone(pre);
                }
            }
        } else if c == ' ' || c == '\r' || c == '\t' || c == '\n' {
            token = Token::Empty;
            proof {
                lemma_step_blank(pre);
            }
        } else if c == '"' {
            let ghost start = cur@;
            let mut buf: Vec<char> = Vec::new();
            let mut closed = false;
            while !closed
                invariant
                    !closed ==> match string_scan(cur@) {
                        Some(p) => string_scan(start) == Some::<(Seq<char>, Seq<char>)>(
                            (buf@ + p.0, p.1),
                        ),
                        None => string_scan(start) is None,
                    },
                    closed ==> string_scan(start) == Some::<(Seq<char>, Seq<char>)>((buf@, cur@)),
                decreases cur@.len() + (if closed {
                    0int
                } else {
                    1int
                }),
            {
                match cur.next() {
                    Some(c2) => {
                        if c2 == '\n' {
                            proof {
                                lemma_step_string(pre);
                            }
                            return Err(cur.gen_error("broken string"));
                        } else if c2 == '"' {
                            closed = true;
                            proof {
                                assert(buf@ + Seq::<char>::empty() =~= buf@);
                            }
                        } else {
                            buf.push(c2);
                            proof {
                                match string_scan(cur@) {
                                    Some(p) => {
                                        assert(buf@.drop_last() + (seq![c2] + p.0) =~= buf@ + p.0);
                                    },
                                    None => {},
                                }
                            }
                        }
                    },
                    None => {
                        proof {
                            lemma_step_string(pre);
                        }
                        return Err(cur.gen_error("broken string"));
                    },
                }
            }
            token = Token::LiteralValue(LiteralValue::String(chars_to_string(&buf)));
            proof {
                crate::grammar::lemma_string_scan_bound(start);
                lemma_step_string(pre);
            }
        } else if digit_char(c) {
            let ghost start = cur@;
            let mut buf: Vec<char> = Vec::new();
            buf.push(c);
            let mut doted = false;
            let ghost mut lastdot = false;
            let mut ended = false;
            while !ended
                invariant
                    buf@.len() >= 1,
                    buf@[0] == c,
                    !ended ==> lastdot == (buf@.last() == '.'),
                    !ended ==> match num_scan(cur@, doted, lastdot) {
                        Some(p) => num_scan(start, false, false) == Some::<(Seq<char>, Seq<char>)>(
                            (buf@.skip(1) + p.0, p.1),
                        ),
                        None => num_scan(start, false, false) is None,
                    },
                    ended ==> num_scan(start, false, false) == Some::<(Seq<char>, Seq<char>)>(
                        (buf@.skip(1), cur@),
                    ),
                decreases cur@.len() + (if ended {
                    0int
                } else {
                    1int
                }),
            {
                let second = cur.peek();
                match second {
                    Some(c2) => {
                        if digit_char(c2) {
                            let _ = cur.next();
                            buf.push(c2);
                            proof {
                                lastdot = false;
                                match num_scan(cur@, doted, false) {
                                    Some(p) => {
                                        assert(buf@.drop_last().skip(1) + (seq![c2] + p.0)
                                            =~= buf@.skip(1) + p.0);
                                    },
                                    None => {},
                                }
                            }
                        } else if c2 == '.' {
                            if !doted {
                                doted = true;
                                let _ = cur.next();
                                buf.push('.');
                                proof {
                                    lastdot = true;
                                    match num_scan(cur@, true, true) {
                                        Some(p) => {
                                            assert(buf@.drop_last().skip(1) + (seq!['.'] + p.0)
                                                =~= buf@.skip(1) + p.0);
                                        },
                                        None => {},
                                    }
                                }
                            } else {
                                proof {
                                    lemma_step_number(pre);
                                }
                                return Err(cur.gen_error("unknown number"));
                            }
                        } else {
                            let last = buf[buf.len() - 1];
                            if last == '.' {
                                proof {
                                    lemma_step_number(pre);
                                }
                                return Err(cur.gen_error("unknown number"));
                            } else {
                                ended = true;
                                proof {
                                    assert(buf@.skip(1) + Seq::<char>::empty() =~= buf@.skip(1));
                                }
                            }
                        }
                    },
                    None => {
                        let last = buf[buf.len() - 1];
                        if last == '.' {
                            proof {
                                lemma_step_number(pre);
                            }
                            return Err(cur.gen_error("unknown number"));
                        } else {
                            ended = true;
                            proof {
                                assert(buf@.skip(1) + Seq::<char>::empty() =~= buf@.skip(1));
                            }
                        }
                    },
                }
            }
            token = Token::LiteralValue(LiteralValue::Number(chars_to_string(&buf)));
            proof {
                crate::grammar::lemma_num_scan_bound(start, false, false);
                lemma_step_number(pre);
                assert(seq![c] + buf@.skip(1) =~= buf@);
            }
        } else if word_start_char(c) {
            let ghost start = cur@;
            let mut buf: Vec<char> = Vec::new();
            buf.push(c);
            let mut ended = false;
            while !ended
                invariant
                    buf@.len() >= 1,
                    buf@[0] == c,
                    !ended ==> word_scan(start).0 == buf@.skip(1) + word_scan(cur@).0,
                    !ended ==> word_scan(start).1 == word_scan(cur@).1,
                    ended ==> word_scan(start).0 == buf@.skip(1),
                    ended ==> word_scan(start).1 == cur@,
                decreases cur@.len() + (if ended {
                    0int
                } else {
                    1int
                }),
            {
                let second = cur.peek();
                match second {
                    Some(c2) => {
                        if word_char(c2) {
                            let _ = cur.next();
                            buf.push(c2);
                            proof {
                                assert(buf@.drop_last().skip(1) + (seq![c2] + word_scan(cur@).0)
                                    =~= buf@.skip(1) + word_scan(cur@).0);
                            }
                        } else {
                            ended = true;
                            proof {
                                assert(buf@.skip(1) + Seq::<char>::empty() =~= buf@.skip(1));
                            }
                        }
                    },
                    None => {
                        ended = true;
                        proof {
                            assert(buf@.skip(1) + Seq::<char>::empty() =~= buf@.skip(1));
                        }
                    },
                }
            }
            proof {
                crate::grammar::lemma_word_scan_bound(start);
                lemma_step_word(pre);
                assert(seq![c] + buf@.skip(1) =~= buf@);
            }
            token = word_to_token(buf);
        } else {
            proof {
                lemma_step_unknown(pre);
            }
            return Err(cur.gen_error("unknown char"));
        }
        let ghost olddv = ans.deep_view();
        let ghost spec_t = token@;
        proof {
            assert(scan_raw(pre) == prepend(spec_t, scan_raw(cur@)));
        }
        if !matches!(token, Token::Empty) {
            ans.push(token);
            proof {
                assert(ans.deep_view() =~= olddv + seq![spec_t]);
            }
        }
        proof {
            lemma_advance(s@, pre, cur@, olddv, ans.deep_view(), spec_t);
        }
    }
    proof {
        assert(scan_raw(cur@) == Ok::<Seq<SpecToken>, ScanFault>(Seq::empty()));
        assert(drop_empties(Seq::<SpecToken>::empty()) =~= Seq::<SpecToken>::empty());
        assert(ans.deep_view() + Seq::<SpecToken>::empty() =~= ans.deep_view());
    }
    Ok(ans)
}

} // verus!
