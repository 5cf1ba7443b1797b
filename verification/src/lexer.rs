//! The tokenizer: a single forward scan over one line of text, with one
//! character of lookahead, producing an ordered sequence of tokens.
//!
//! The scan is modelled by spec functions over the sequence of characters:
//! `num_scan`, `str_scan` and `kw_scan` describe the three accumulating
//! sub-scans, `tok_step` one iteration of the outer scan, and `spec_tokenize`
//! the whole run. Positions past the end of the input read as the sentinel
//! character, which ends every scan.

use vstd::prelude::*;
use vstd::string::StrSliceExecFns;
use crate::error::{Error, ErrorKind, reports};
use crate::text::{
    advance_pos,
    ascii_char,
    char_at,
    digit_char,
    is_ascii_char,
    is_digit,
    is_whitespace,
    push_char,
    whitespace_char,
};
use crate::token::{Token, TokenModel, TokenType, token_models};

verus! {

/// The number sub-scan, started at position `i` with the characters read so
/// far in `acc` and `has_dot` recording whether a decimal point was seen.
/// It consumes the following characters while they are digits or decimal
/// points; a second decimal point is the fatal condition. On success it
/// yields the accumulated lexeme, whether a point was seen, and the position
/// of the last consumed character.
pub open spec fn num_scan(s: Seq<char>, i: int, acc: Seq<char>, has_dot: bool) -> Result<
    (Seq<char>, bool, int),
    (),
>
    decreases s.len() - i,
{
    let c = char_at(s, i + 1);
    if is_digit(c) || c == '.' {
        if has_dot && c == '.' {
            Err(())
        } else {
            num_scan(s, i + 1, acc.push(c), has_dot || c == '.')
        }
    } else {
        Ok((acc, has_dot, i))
    }
}

/// The string sub-scan: consumes the following characters while they are
/// printable ASCII, not a closing quote and not the sentinel, and yields the
/// accumulated payload and the position of the last consumed character.
pub open spec fn str_scan(s: Seq<char>, i: int, acc: Seq<char>) -> (Seq<char>, int)
    decreases s.len() - i,
{
    let c = char_at(s, i + 1);
    if is_ascii_char(c) && c != '"' && c != '\0' {
        str_scan(s, i + 1, acc.push(c))
    } else {
        (acc, i)
    }
}

/// The keyword sub-scan: consumes the following characters while they are
/// neither whitespace nor the sentinel, and yields the accumulated lexeme and
/// the position of the last consumed character.
pub open spec fn kw_scan(s: Seq<char>, i: int, acc: Seq<char>) -> (Seq<char>, int)
    decreases s.len() - i,
{
    let c = char_at(s, i + 1);
    if !is_whitespace(c) && c != '\0' {
        kw_scan(s, i + 1, acc.push(c))
    } else {
        (acc, i)
    }
}

/// The number sub-scan never moves backwards.
proof fn lemma_num_scan_pos(s: Seq<char>, i: int, acc: Seq<char>, has_dot: bool)
    ensures
        num_scan(s, i, acc, has_dot) matches Ok((text, dot, j)) ==> i <= j,
    decreases s.len() - i,
{
    let c = char_at(s, i + 1);
    if (is_digit(c) || c == '.') && !(has_dot && c == '.') {
        lemma_num_scan_pos(s, i + 1, acc.push(c), has_dot || c == '.');
    }
}

/// The string sub-scan never moves backwards.
proof fn lemma_str_scan_pos(s: Seq<char>, i: int, acc: Seq<char>)
    ensures
        i <= str_scan(s, i, acc).1,
    decreases s.len() - i,
{
    let c = char_at(s, i + 1);
    if is_ascii_char(c) && c != '"' && c != '\0' {
        lemma_str_scan_pos(s, i + 1, acc.push(c));
    }
}

/// The keyword sub-scan never moves backwards.
proof fn lemma_kw_scan_pos(s: Seq<char>, i: int, acc: Seq<char>)
    ensures
        i <= kw_scan(s, i, acc).1,
    decreases s.len() - i,
{
    let c = char_at(s, i + 1);
    if !is_whitespace(c) && c != '\0' {
        lemma_kw_scan_pos(s, i + 1, acc.push(c));
    }
}

/// One iteration of the outer scan, at position `i` with a non-sentinel
/// current character: the tokens it emits and the position for the next
/// iteration, or the fatal tokenizer error.
///
/// The character classes are checked in order on the current character,
/// which the number and string sub-scans move: the character that ends a
/// number is still inspected by the operator, string and keyword checks of
/// the same iteration, and the closing quote of a string is not.
pub open spec fn tok_step(s: Seq<char>, i: int) -> Result<(Seq<TokenModel>, int), ErrorKind> {
    let c0 = char_at(s, i);
    if is_digit(c0) && num_scan(s, i, seq![c0], false) is Err {
        Err(ErrorKind::IllegalChar)
    } else {
        let (ts1, p1): (Seq<TokenModel>, int) = if is_digit(c0) {
            match num_scan(s, i, seq![c0], false) {
                Ok((text, dot, j)) => (
                    seq![
                        TokenModel {
                            kind: if dot {
                                TokenType::Float
                            } else {
                                TokenType::Int
                            },
                            text,
                        },
                    ],
                    advance_pos(s, j),
                ),
                Err(_) => (Seq::empty(), i),
            }
        } else {
            (Seq::empty(), i)
        };
        let c1 = char_at(s, p1);
        let ts2 = if c1 == '+' {
            ts1.push(TokenModel { kind: TokenType::Plus, text: Seq::empty() })
        } else if c1 == '*' {
            ts1.push(TokenModel { kind: TokenType::Multiply, text: Seq::empty() })
        } else {
            ts1
        };
        let (ts3, p3): (Seq<TokenModel>, int) = if c1 == '"' {
            let (text, j) = str_scan(s, p1, Seq::empty());
            (ts2.push(TokenModel { kind: TokenType::String, text }), advance_pos(s, j))
        } else {
            (ts2, p1)
        };
        let c3 = char_at(s, p3);
        let (ts4, p4): (Seq<TokenModel>, int) = if c3 != '+' && c3 != '"' && !is_digit(c3)
            && !is_whitespace(c3) && c3 != '\0' {
            let (text, j) = kw_scan(s, p3, seq![c3]);
            (ts3.push(TokenModel { kind: TokenType::Keyword, text }), j)
        } else {
            (ts3, p3)
        };
        Ok((ts4, advance_pos(s, p4)))
    }
}

/// A successful step moves the scan forward and stays within the input.
proof fn lemma_tok_step_pos(s: Seq<char>, i: int)
    requires
        0 <= i < s.len(),
    ensures
        tok_step(s, i) matches Ok((ts, next)) ==> i < next <= s.len(),
{
    let c0 = char_at(s, i);
    lemma_num_scan_pos(s, i, seq![c0], false);
    if !(is_digit(c0) && num_scan(s, i, seq![c0], false) is Err) {
        let (ts1, p1): (Seq<TokenModel>, int) = if is_digit(c0) {
            match num_scan(s, i, seq![c0], false) {
                Ok((text, dot, j)) => (
                    seq![
                        TokenModel {
                            kind: if dot {
                                TokenType::Float
                            } else {
                                TokenType::Int
                            },
                            text,
                        },
                    ],
                    advance_pos(s, j),
                ),
                Err(_) => (Seq::empty(), i),
            }
        } else {
            (Seq::empty(), i)
        };
        let c1 = char_at(s, p1);
        let p3: int = if c1 == '"' {
            lemma_str_scan_pos(s, p1, Seq::empty());
            advance_pos(s, str_scan(s, p1, Seq::empty()).1)
        } else {
            p1
        };
        let c3 = char_at(s, p3);
        if c3 != '+' && c3 != '"' && !is_digit(c3) && !is_whitespace(c3) && c3 != '\0' {
            lemma_kw_scan_pos(s, p3, seq![c3]);
        }
    }
}

/// The whole scan from position `i`: the tokens of the rest of the input in
/// order, or the fatal tokenizer error.
pub open spec fn spec_tokenize(s: Seq<char>, i: int) -> Result<Seq<TokenModel>, ErrorKind>
    decreases s.len() - i,
        when true
        via spec_tokenize_decreases
{
    if char_at(s, i) == '\0' {
        Ok(Seq::empty())
    } else {
        match tok_step(s, i) {
            Err(e) => Err(e),
            Ok((emitted, next)) => match spec_tokenize(s, next) {
                Ok(rest) => Ok(emitted + rest),
                Err(e) => Err(e),
            },
        }
    }
}

#[via_fn]
proof fn spec_tokenize_decreases(s: Seq<char>, i: int) {
    if char_at(s, i) != '\0' {
        lemma_tok_step_pos(s, i);
    }
}

/// Prefixes already-emitted tokens onto the outcome of the rest of a scan.
pub open spec fn with_prefix(pre: Seq<TokenModel>, r: Result<Seq<TokenModel>, ErrorKind>) -> Result<
    Seq<TokenModel>,
    ErrorKind,
> {
    match r {
        Ok(ts) => Ok(pre + ts),
        Err(e) => Err(e),
    }
}

/// The tokenizer's state: the source line, the scan position, and the
/// character at that position (the sentinel once the position has reached
/// the end of the input).
pub struct Lexer {
    pub src: String,
    pub current_position: usize,
    pub current_character: char,
}

impl Lexer {
    /// The tokenizer's invariant: the position never passes the end of the
    /// input, and the current character is the one at the position.
    pub open spec fn wf(&self) -> bool {
        &&& self.current_position <= self.src@.len()
        &&& self.current_character == char_at(self.src@, self.current_position as int)
    }

    /// Starts a scan at the beginning of the given line. An empty line
    /// starts, and therefore ends, at the sentinel.
    pub fn new(source: String) -> (r: Lexer)
        ensures
            r.wf(),
            r.src@ == source@,
            r.current_position == 0,
    {
        let len = source.as_str().unicode_len();
        let first_character = if len > 0 {
            source.as_str().get_char(0)
        } else {
            '\0'
        };
        Lexer { src: source, current_position: 0, current_character: first_character }
    }

    /// The character `offset` places after the current one, or the sentinel
    /// when that runs past the end of the input.
    pub fn peek(&self, offset: usize) -> (c: char)
        requires
            self.wf(),
        ensures
            c == char_at(self.src@, self.current_position + offset),
    {
        let len = self.src.as_str().unicode_len();
        if offset < len - self.current_position {
            self.src.as_str().get_char(self.current_position + offset)
        } else {
            '\0'
        }
    }

    /// Moves to the next character. At the end of the input the position
    /// stays put and the current character remains the sentinel.
    pub fn advance(&mut self)
        requires
            old(self).wf(),
        ensures
            final(self).wf(),
            final(self).src@ == old(self).src@,
            final(self).current_position as int == advance_pos(
                old(self).src@,
                old(self).current_position as int,
            ),
    {
        let len = self.src.as_str().unicode_len();
        if self.current_position < len {
            self.current_position = self.current_position + 1;
        }
        self.current_character = if self.current_position < len {
            self.src.as_str().get_char(self.current_position)
        } else {
            '\0'
        };
    }

    /// Runs the number sub-scan from the current character: accumulates
    /// digits and at most one decimal point, then steps past the last digit.
    /// A second decimal point is the fatal `IllegalCharError`.
    pub fn match_number(&mut self) -> (r: Result<Token, Error>)
        requires
            old(self).wf(),
        ensures
            final(self).wf(),
            final(self).src@ == old(self).src@,
            match r {
                Ok(t) => num_scan(
                    old(self).src@,
                    old(self).current_position as int,
                    seq![old(self).current_character],
                    false,
                ) matches Ok((text, dot, j)) && t@ == (TokenModel {
                    kind: if dot {
                        TokenType::Float
                    } else {
                        TokenType::Int
                    },
                    text,
                }) && final(self).current_position as int == advance_pos(old(self).src@, j),
                Err(e) => num_scan(
                    old(self).src@,
                    old(self).current_position as int,
                    seq![old(self).current_character],
                    false,
                ) is Err && reports(e, ErrorKind::IllegalChar),
            },
    {
        let ghost s = self.src@;
        let ghost i0 = self.current_position as int;
        let ghost acc0 = seq![self.current_character];
        let mut has_dot: bool = false;
        let mut number = String::new();
        push_char(&mut number, self.current_character);
        proof {
            assert(number@ =~= acc0);
        }
        loop
            invariant
                self.wf(),
                self.src@ == s,
                s == old(self).src@,
                i0 == old(self).current_position as int,
                acc0 == seq![old(self).current_character],
                num_scan(s, i0, acc0, false) == num_scan(
                    s,
                    self.current_position as int,
                    number@,
                    has_dot,
                ),
            ensures
                self.wf(),
                self.src@ == s,
                s == old(self).src@,
                i0 == old(self).current_position as int,
                acc0 == seq![old(self).current_character],
                num_scan(s, i0, acc0, false) == num_scan(
                    s,
                    self.current_position as int,
                    number@,
                    has_dot,
                ),
                !(is_digit(char_at(s, self.current_position + 1)) || char_at(
                    s,
                    self.current_position + 1,
                ) == '.'),
            decreases s.len() - self.current_position,
        {
            let ghost pos_e = self.current_position as int;
            let ghost num_e = number@;
            let ghost dot_e = has_dot;
            let p = self.peek(1);
            if !(digit_char(p) || p == '.') {
                break ;
            }
            self.advance();
            if has_dot && self.current_character == '.' {
                proof {
                    assert(num_scan(s, pos_e, num_e, dot_e) == Err::<(Seq<char>, bool, int), ()>(
                        (),
                    ));
                }
                return Err(Error::new("IllegalCharError", "Found an extra dot"));
            }
            if self.current_character == '.' {
                has_dot = true;
            }
            push_char(&mut number, self.current_character);
            proof {
                assert(num_scan(s, pos_e, num_e, dot_e) == num_scan(
                    s,
                    self.current_position as int,
                    number@,
                    has_dot,
                ));
            }
        }
        let ghost j = self.current_position as int;
        proof {
            assert(num_scan(s, j, number@, has_dot) == Ok::<(Seq<char>, bool, int), ()>(
                (number@, has_dot, j),
            ));
        }
        self.advance();
        if has_dot {
            Ok(Token::new(TokenType::Float, number))
        } else {
            Ok(Token::new(TokenType::Int, number))
        }
    }

    /// Runs the string sub-scan from the current character (the opening
    /// quote): accumulates the payload, then steps onto the character that
    /// ended it (the closing quote, when there is one).
    pub fn match_string(&mut self) -> (t: Token)
        requires
            old(self).wf(),
        ensures
            final(self).wf(),
            final(self).src@ == old(self).src@,
            ({
                let (text, j) = str_scan(
                    old(self).src@,
                    old(self).current_position as int,
                    Seq::empty(),
                );
                t@ == (TokenModel { kind: TokenType::String, text }) && final(self).current_position as int == advance_pos(old(self).src@, j)
            }),
    {
        let ghost s = self.src@;
        let ghost i0 = self.current_position as int;
        let mut string = String::new();
        proof {
            assert(string@ =~= Seq::<char>::empty());
        }
        loop
            invariant
                self.wf(),
                self.src@ == s,
                s == old(self).src@,
                i0 == old(self).current_position as int,
                str_scan(s, i0, Seq::empty()) == str_scan(
                    s,
                    self.current_position as int,
                    string@,
                ),
            ensures
                self.wf(),
                self.src@ == s,
                s == old(self).src@,
                i0 == old(self).current_position as int,
                str_scan(s, i0, Seq::empty()) == (string@, self.current_position as int),
            decreases s.len() - self.current_position,
        {
            let ghost pos_e = self.current_position as int;
            let ghost str_e = string@;
            let p = self.peek(1);
            if !(ascii_char(p) && p != '"' && p != '\0') {
                break ;
            }
            self.advance();
            push_char(&mut string, self.current_character);
            proof {
                assert(str_scan(s, pos_e, str_e) == str_scan(
                    s,
                    self.current_position as int,
                    string@,
                ));
            }
        }
        self.advance();
        Token::new(TokenType::String, string)
    }

    /// Runs the keyword sub-scan from the current character: accumulates the
    /// following characters up to, and not including, the next whitespace or
    /// the end of the input, and stays on the last one.
    pub fn match_keyword(&mut self) -> (t: Token)
        requires
            old(self).wf(),
        ensures
            final(self).wf(),
            final(self).src@ == old(self).src@,
            ({
                let (text, j) = kw_scan(
                    old(self).src@,
                    old(self).current_position as int,
                    seq![old(self).current_character],
                );
                t@ == (TokenModel { kind: TokenType::Keyword, text }) && final(self).current_position as int == j
            }),
    {
        let ghost s = self.src@;
        let ghost i0 = self.current_position as int;
        let ghost acc0 = seq![self.current_character];
        let mut keyword = String::new();
        push_char(&mut keyword, self.current_character);
        proof {
            assert(keyword@ =~= acc0);
        }
        loop
            invariant
                self.wf(),
                self.src@ == s,
                s == old(self).src@,
                i0 == old(self).current_position as int,
                acc0 == seq![old(self).current_character],
                kw_scan(s, i0, acc0) == kw_scan(s, self.current_position as int, keyword@),
            ensures
                self.wf(),
                self.src@ == s,
                s == old(self).src@,
                i0 == old(self).current_position as int,
                acc0 == seq![old(self).current_character],
                kw_scan(s, i0, acc0) == (keyword@, self.current_position as int),
            decreases s.len() - self.current_position,
        {
            let ghost pos_e = self.current_position as int;
            let ghost kw_e = keyword@;
            let p = self.peek(1);
            if !(!whitespace_char(p) && p != '\0') {
                break ;
            }
            self.advance();
            push_char(&mut keyword, self.current_character);
            proof {
                assert(kw_scan(s, pos_e, kw_e) == kw_scan(
                    s,
                    self.current_position as int,
                    keyword@,
                ));
            }
        }
        Token::new(TokenType::Keyword, keyword)
    }

    /// Tokenizes the rest of the line: scans forward until the sentinel,
    /// emitting the tokens of `spec_tokenize`, or stops at the fatal
    /// `IllegalCharError` of a numeric literal with a second decimal point.
    pub fn tokenize(&mut self) -> (r: Result<Vec<Token>, Error>)
        requires
            old(self).wf(),
        ensures
            final(self).wf(),
            match r {
                Ok(tokens) => spec_tokenize(old(self).src@, old(self).current_position as int)
                    == Ok::<Seq<TokenModel>, ErrorKind>(token_models(tokens@)),
                Err(e) => spec_tokenize(old(self).src@, old(self).current_position as int)
                    == Err::<Seq<TokenModel>, ErrorKind>(ErrorKind::IllegalChar) && reports(
                    e,
                    ErrorKind::IllegalChar,
                ),
            },
    {
        let ghost s = self.src@;
        let ghost i_start = self.current_position as int;
        let mut tokens: Vec<Token> = Vec::new();
        proof {
            assert(token_models(tokens@) =~= Seq::<TokenModel>::empty());
        }
        loop
            invariant
                self.wf(),
                self.src@ == s,
                s == old(self).src@,
                i_start == old(self).current_position as int,
                spec_tokenize(s, i_start) == with_prefix(
                    token_models(tokens@),
                    spec_tokenize(s, self.current_position as int),
                ),
            ensures
                self.wf(),
                self.src@ == s,
                s == old(self).src@,
                i_start == old(self).current_position as int,
                spec_tokenize(s, i_start) == with_prefix(
                    token_models(tokens@),
                    spec_tokenize(s, self.current_position as int),
                ),
                char_at(s, self.current_position as int) == '\0',
            decreases s.len() - self.current_position,
        {
            if self.current_character == '\0' {
                break ;
            }
            let ghost pos_a = self.current_position as int;
            let ghost toks_a = token_models(tokens@);
            let c0 = self.current_character;
            if digit_char(c0) {
                let numbered = self.match_number();
                match numbered {
                    Ok(t) => {
                        tokens.push(t);
                        proof {
                            assert(token_models(tokens@) =~= toks_a.push(t@));
                        }
                    },
                    Err(e) => {
                        proof {
                            assert(tok_step(s, pos_a) == Err::<(Seq<TokenModel>, int), ErrorKind>(
                                ErrorKind::IllegalChar,
                            ));
                            assert(spec_tokenize(s, pos_a) == Err::<Seq<TokenModel>, ErrorKind>(
                                ErrorKind::IllegalChar,
                            ));
                        }
                        return Err(e);
                    },
                }
            }
            let ghost ts1 = token_models(tokens@);
            let ghost p1 = self.current_position as int;
            if self.current_character == '+' {
                tokens.push(Token::new(TokenType::Plus, String::new()));
                proof {
                    assert(token_models(tokens@) =~= ts1.push(
                        TokenModel { kind: TokenType::Plus, text: Seq::empty() },
                    ));
                }
            }
            if self.current_character == '*' {
                tokens.push(Token::new(TokenType::Multiply, String::new()));
                proof {
                    assert(token_models(tokens@) =~= ts1.push(
                        TokenModel { kind: TokenType::Multiply, text: Seq::empty() },
                    ));
                }
            }
            let ghost ts2 = token_models(tokens@);
            if self.current_character == '"' {
                let t = self.match_string();
                tokens.push(t);
                proof {
                    assert(token_models(tokens@) =~= ts2.push(t@));
                }
            }
            let ghost ts3 = token_models(tokens@);
            let ghost p3 = self.current_position as int;
            let c3 = self.current_character;
            if c3 != '+' && c3 != '"' && !digit_char(c3) && !whitespace_char(c3) && c3 != '\0' {
                let t = self.match_keyword();
                tokens.push(t);
                proof {
                    assert(token_models(tokens@) =~= ts3.push(t@));
                }
            }
            let ghost ts4 = token_models(tokens@);
            let ghost p4 = self.current_position as int;
            self.advance();
            proof {
                lemma_tok_step_pos(s, pos_a);
                let c0s = char_at(s, pos_a);
                let (sts1, sp1): (Seq<TokenModel>, int) = if is_digit(c0s) {
                    match num_scan(s, pos_a, seq![c0s], false) {
                        Ok((text, dot, j)) => (
                            seq![
                                TokenModel {
                                    kind: if dot {
                                        TokenType::Float
                                    } else {
                                        TokenType::Int
                                    },
                                    text,
                                },
                            ],
                            advance_pos(s, j),
                        ),
                        Err(_) => (Seq::empty(), pos_a),
                    }
                } else {
                    (Seq::empty(), pos_a)
                };
                assert(ts1 =~= toks_a + sts1);
                assert(p1 == sp1);
                let c1s = char_at(s, sp1);
                let sts2: Seq<TokenModel> = if c1s == '+' {
                    sts1.push(TokenModel { kind: TokenType::Plus, text: Seq::empty() })
                } else if c1s == '*' {
                    sts1.push(TokenModel { kind: TokenType::Multiply, text: Seq::empty() })
                } else {
                    sts1
                };
                assert(ts2 =~= toks_a + sts2);
                let (sts3, sp3): (Seq<TokenModel>, int) = if c1s == '"' {
                    let (text, j) = str_scan(s, sp1, Seq::empty());
                    (sts2.push(TokenModel { kind: TokenType::String, text }), advance_pos(s, j))
                } else {
                    (sts2, sp1)
                };
                assert(ts3 =~= toks_a + sts3);
                assert(p3 == sp3);
                let c3s = char_at(s, sp3);
                let (sts4, sp4): (Seq<TokenModel>, int) = if c3s != '+' && c3s != '"' && !is_digit(
                    c3s,
                ) && !is_whitespace(c3s) && c3s != '\0' {
                    let (text, j) = kw_scan(s, sp3, seq![c3s]);
                    (sts3.push(TokenModel { kind: TokenType::Keyword, text }), j)
                } else {
                    (sts3, sp3)
                };
                assert(ts4 =~= toks_a + sts4);
                assert(p4 == sp4);
                assert(tok_step(s, pos_a) == Ok::<(Seq<TokenModel>, int), ErrorKind>(
                    (sts4, advance_pos(s, sp4)),
                ));
                assert(self.current_position as int == advance_pos(s, sp4));
                assert(spec_tokenize(s, pos_a) == with_prefix(
                    sts4,
                    spec_tokenize(s, self.current_position as int),
                ));
                match spec_tokenize(s, self.current_position as int) {
                    Ok(rest) => {
                        assert(toks_a + (sts4 + rest) =~= ts4 + rest);
                    },
                    Err(_) => {},
                }
                assert(spec_tokenize(s, i_start) == with_prefix(
                    token_models(tokens@),
                    spec_tokenize(s, self.current_position as int),
                ));
            }
        }
        proof {
            assert(spec_tokenize(s, self.current_position as int) == Ok::<
                Seq<TokenModel>,
                ErrorKind,
            >(Seq::empty()));
            assert(token_models(tokens@) + Seq::<TokenModel>::empty() =~= token_models(tokens@));
        }
        Ok(tokens)
    }
}


/// A run of digits drives the number sub-scan to the first non-digit,
/// non-point character, accumulating exactly those digits.
pub proof fn lemma_num_scan_digit_run(s: Seq<char>, i: int, acc: Seq<char>, m: int)
    requires
        0 <= i <= m < s.len(),
        forall|p: int| i < p <= m ==> is_digit(s[p]),
        !is_digit(char_at(s, m + 1)),
        char_at(s, m + 1) != '.',
    ensures
        num_scan(s, i, acc, false) == Ok::<(Seq<char>, bool, int), ()>(
            (acc + s.subrange(i + 1, m + 1), false, m),
        ),
    decreases m - i,
{
    if i == m {
        assert(acc + s.subrange(i + 1, i + 1) =~= acc);
    } else {
        lemma_num_scan_digit_run(s, i + 1, acc.push(s[i + 1]), m);
        assert(acc.push(s[i + 1]) + s.subrange(i + 2, m + 1) =~= acc + s.subrange(i + 1, m + 1));
    }
}

/// A run of printable, unquoted characters drives the string sub-scan to its
/// terminator, accumulating exactly those characters.
pub proof fn lemma_str_scan_run(s: Seq<char>, i: int, acc: Seq<char>, m: int)
    requires
        0 <= i <= m < s.len(),
        forall|p: int| i < p <= m ==> is_ascii_char(s[p]) && s[p] != '"' && s[p] != '\0',
        !(is_ascii_char(char_at(s, m + 1)) && char_at(s, m + 1) != '"' && char_at(s, m + 1)
            != '\0'),
    ensures
        str_scan(s, i, acc) == (acc + s.subrange(i + 1, m + 1), m),
    decreases m - i,
{
    if i == m {
        assert(acc + s.subrange(i + 1, i + 1) =~= acc);
    } else {
        lemma_str_scan_run(s, i + 1, acc.push(s[i + 1]), m);
        assert(acc.push(s[i + 1]) + s.subrange(i + 2, m + 1) =~= acc + s.subrange(i + 1, m + 1));
    }
}

/// A run of non-whitespace characters drives the keyword sub-scan to the
/// next whitespace or the end of the input, accumulating exactly that run.
pub proof fn lemma_kw_scan_run(s: Seq<char>, i: int, acc: Seq<char>, m: int)
    requires
        0 <= i <= m < s.len(),
        forall|p: int| i < p <= m ==> !is_whitespace(s[p]) && s[p] != '\0',
        is_whitespace(char_at(s, m + 1)) || char_at(s, m + 1) == '\0',
    ensures
        kw_scan(s, i, acc) == (acc + s.subrange(i + 1, m + 1), m),
    decreases m - i,
{
    if i == m {
        assert(acc + s.subrange(i + 1, i + 1) =~= acc);
    } else {
        lemma_kw_scan_run(s, i + 1, acc.push(s[i + 1]), m);
        assert(acc.push(s[i + 1]) + s.subrange(i + 2, m + 1) =~= acc + s.subrange(i + 1, m + 1));
    }
}

proof fn lemma_ws_tokenize_from(s: Seq<char>, i: int)
    requires
        0 <= i,
        forall|k: int| 0 <= k < s.len() ==> is_whitespace(s[k]),
    ensures
        spec_tokenize(s, i) == Ok::<Seq<TokenModel>, ErrorKind>(Seq::<TokenModel>::empty()),
    decreases s.len() - i,
{
    let c0 = char_at(s, i);
    if c0 != '\0' {
        assert(is_whitespace(c0));
        assert(tok_step(s, i) == Ok::<(Seq<TokenModel>, int), ErrorKind>(
            (Seq::empty(), advance_pos(s, i)),
        ));
        lemma_ws_tokenize_from(s, advance_pos(s, i));
        assert(Seq::<TokenModel>::empty() + Seq::<TokenModel>::empty()
            =~= Seq::<TokenModel>::empty());
    }
}

/// A line of nothing but whitespace tokenizes to the empty token sequence.
pub proof fn lemma_whitespace_only_line_tokenizes_empty(s: Seq<char>)
    requires
        forall|k: int| 0 <= k < s.len() ==> is_whitespace(s[k]),
    ensures
        spec_tokenize(s, 0) == Ok::<Seq<TokenModel>, ErrorKind>(Seq::<TokenModel>::empty()),
{
    lemma_ws_tokenize_from(s, 0);
}

/// A line of the form `<int> + <int>` tokenizes to exactly an `Int` token
/// carrying the first numeral, a `Plus` token, and an `Int` token carrying
/// the second numeral, in source order.
pub proof fn lemma_addition_line_tokens(a: Seq<char>, b: Seq<char>)
    requires
        a.len() > 0,
        b.len() > 0,
        crate::numbers::all_digits(a),
        crate::numbers::all_digits(b),
    ensures
        spec_tokenize(a + " + "@ + b, 0) == Ok::<Seq<TokenModel>, ErrorKind>(
            seq![
                TokenModel { kind: TokenType::Int, text: a },
                TokenModel { kind: TokenType::Plus, text: Seq::empty() },
                TokenModel { kind: TokenType::Int, text: b },
            ],
        ),
{
    reveal_strlit(" + ");
    let s = a + " + "@ + b;
    let la = a.len() as int;
    let n = s.len() as int;
    assert(n == la + 3 + b.len());
    assert(s[la] == ' ' && s[la + 1] == '+' && s[la + 2] == ' ');
    assert(forall|k: int| 0 <= k < la ==> s[k] == a[k]);
    assert(forall|k: int| la + 3 <= k < n ==> s[k] == b[k - la - 3]);
    let int_a = TokenModel { kind: TokenType::Int, text: a };
    let plus = TokenModel { kind: TokenType::Plus, text: Seq::<char>::empty() };
    let int_b = TokenModel { kind: TokenType::Int, text: b };

    // the tail of the line: the second numeral, then the end of the input
    assert(spec_tokenize(s, n) == Ok::<Seq<TokenModel>, ErrorKind>(Seq::<TokenModel>::empty()));
    assert(is_digit(char_at(s, la + 3)));
    lemma_num_scan_digit_run(s, la + 3, seq![s[la + 3]], n - 1);
    assert(seq![s[la + 3]] + s.subrange(la + 4, n) =~= b);
    assert(char_at(s, advance_pos(s, n - 1)) == '\0');
    assert(tok_step(s, la + 3) == Ok::<(Seq<TokenModel>, int), ErrorKind>((seq![int_b], n)));
    assert(seq![int_b] + Seq::<TokenModel>::empty() =~= seq![int_b]);
    assert(spec_tokenize(s, la + 3) == Ok::<Seq<TokenModel>, ErrorKind>(seq![int_b]));

    // the whitespace between the operator and the second numeral
    assert(tok_step(s, la + 2) == Ok::<(Seq<TokenModel>, int), ErrorKind>(
        (Seq::empty(), la + 3),
    ));
    assert(Seq::<TokenModel>::empty() + seq![int_b] =~= seq![int_b]);
    assert(spec_tokenize(s, la + 2) == Ok::<Seq<TokenModel>, ErrorKind>(seq![int_b]));

    // the operator
    assert(tok_step(s, la + 1) == Ok::<(Seq<TokenModel>, int), ErrorKind>(
        (seq![plus], la + 2),
    ));
    assert(seq![plus] + seq![int_b] =~= seq![plus, int_b]);
    assert(spec_tokenize(s, la + 1) == Ok::<Seq<TokenModel>, ErrorKind>(seq![plus, int_b]));

    // the first numeral, ended by the whitespace before the operator
    assert(is_digit(char_at(s, 0)));
    lemma_num_scan_digit_run(s, 0, seq![s[0]], la - 1);
    assert(seq![s[0]] + s.subrange(1, la) =~= a);
    assert(char_at(s, advance_pos(s, la - 1)) == ' ');
    assert(tok_step(s, 0) == Ok::<(Seq<TokenModel>, int), ErrorKind>((seq![int_a], la + 1)));
    assert(seq![int_a] + seq![plus, int_b] =~= seq![int_a, plus, int_b]);
    assert(spec_tokenize(s, 0) == Ok::<Seq<TokenModel>, ErrorKind>(seq![int_a, plus, int_b]));
}

} // verus!
