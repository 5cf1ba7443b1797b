//! The evaluator: drains a double-ended stack of tokens from the tail,
//! reducing additions against the front of the stack and dispatching keyword
//! tokens, and collects the lines it prints. Any failure is fatal for the
//! whole session: the evaluator stops and reports it as a value.

use vstd::prelude::*;
use std::collections::VecDeque;
use vstd::string::StringExecFns;
use crate::error::{Error, ErrorKind, reports};
use crate::lexer::{Lexer, lemma_kw_scan_run, lemma_num_scan_digit_run, lemma_str_scan_run, spec_tokenize, str_scan, tok_step};
use crate::text::{is_ascii_char, is_digit};
use crate::numbers::{all_digits, dec_str, digits_val, lemma_digits_val_nonneg, parse_usize, parse_usize_val, usize_to_string};
use crate::token::{Token, TokenModel, TokenType, token_models};

verus! {

/// The outcome of an addition reduction: the reduced token, what remains of
/// the stack and the sums printed on the way, or a failure together with the
/// sums printed before it.
#[verifier::ext_equal]
pub enum AddResult {
    Reduced { token: TokenModel, rest: Seq<TokenModel>, outs: Seq<Seq<char>> },
    Failed { outs: Seq<Seq<char>>, err: ErrorKind },
}

/// The outcome of evaluating a stack: the lines printed in order, and the
/// fatal failure if evaluation stopped on one.
#[verifier::ext_equal]
pub struct RunOutcome {
    pub outs: Seq<Seq<char>>,
    pub err: Option<ErrorKind>,
}

/// Combines the two resolved operands of an addition: their kinds must agree
/// exactly, both lexemes must read as machine integers, and the sum must fit;
/// the reduced token keeps the first operand's kind and carries the sum's
/// decimal text, which is also printed.
pub open spec fn add_combine(
    first: TokenModel,
    second: TokenModel,
    rest: Seq<TokenModel>,
    outs: Seq<Seq<char>>,
) -> AddResult {
    if first.kind != second.kind {
        AddResult::Failed { outs, err: ErrorKind::MismatchedTypes }
    } else {
        match (parse_usize_val(first.text), parse_usize_val(second.text)) {
            (Some(v1), Some(v2)) => if v1 + v2 > usize::MAX {
                AddResult::Failed { outs, err: ErrorKind::Overflow }
            } else {
                AddResult::Reduced {
                    token: TokenModel { kind: first.kind, text: dec_str(v1 + v2) },
                    rest,
                    outs: outs.push(dec_str(v1 + v2)),
                }
            },
            _ => AddResult::Failed { outs, err: ErrorKind::BadNumber },
        }
    }
}

/// An addition reduction over the front of the stack: takes the first two
/// tokens; when the second is itself a `Plus`, first reduces the rest of the
/// stack recursively to obtain the real second operand.
pub open spec fn spec_add(stack: Seq<TokenModel>) -> AddResult
    decreases stack.len(),
{
    if stack.len() < 2 {
        AddResult::Failed { outs: Seq::empty(), err: ErrorKind::EmptyStack }
    } else {
        let first = stack[0];
        let second = stack[1];
        let after = stack.skip(2);
        if second.kind == TokenType::Plus {
            match spec_add(after) {
                AddResult::Failed { outs, err } => AddResult::Failed { outs, err },
                AddResult::Reduced { token, rest, outs } => add_combine(first, token, rest, outs),
            }
        } else {
            add_combine(first, second, after, Seq::empty())
        }
    }
}

/// A successful addition reduction consumes at least two tokens.
pub proof fn lemma_spec_add_rest(stack: Seq<TokenModel>)
    ensures
        spec_add(stack) matches AddResult::Reduced { rest, .. } ==> rest.len() + 2 <= stack.len(),
    decreases stack.len(),
{
    if stack.len() >= 2 && stack[1].kind == TokenType::Plus {
        lemma_spec_add_rest(stack.skip(2));
    }
}

/// Evaluation of a stack of tokens, removing from the tail: a `Plus` starts
/// an addition reduction whose result is pushed onto the front; a `Keyword`
/// dispatches on its text (`puts` prints the payload of the token popped from
/// the tail, anything else is the unknown-keyword failure); every other token
/// is silently dropped.
pub open spec fn spec_run(stack: Seq<TokenModel>) -> RunOutcome
    decreases stack.len(),
        when true
        via spec_run_decreases
{
    if stack.len() == 0 {
        RunOutcome { outs: Seq::empty(), err: None }
    } else {
        let token = stack.last();
        let rest = stack.drop_last();
        if token.kind == TokenType::Plus {
            match spec_add(rest) {
                AddResult::Failed { outs, err } => RunOutcome { outs, err: Some(err) },
                AddResult::Reduced { token: t, rest: rest2, outs } => {
                    let r2 = spec_run(seq![t] + rest2);
                    RunOutcome { outs: outs + r2.outs, err: r2.err }
                },
            }
        } else if token.kind == TokenType::Keyword {
            if token.text == "puts"@ {
                if rest.len() == 0 {
                    RunOutcome { outs: Seq::empty(), err: Some(ErrorKind::EmptyStack) }
                } else {
                    let r2 = spec_run(rest.drop_last());
                    RunOutcome { outs: seq![rest.last().text] + r2.outs, err: r2.err }
                }
            } else {
                RunOutcome { outs: Seq::empty(), err: Some(ErrorKind::UnknownKeyword(token.text)) }
            }
        } else {
            spec_run(rest)
        }
    }
}

#[via_fn]
proof fn spec_run_decreases(stack: Seq<TokenModel>) {
    if stack.len() > 0 && stack.last().kind == TokenType::Plus {
        lemma_spec_add_rest(stack.drop_last());
    }
}

/// Prefixes already-printed lines onto the outcome of the rest of a run.
pub open spec fn with_outputs(pre: Seq<Seq<char>>, o: RunOutcome) -> RunOutcome {
    RunOutcome { outs: pre + o.outs, err: o.err }
}

/// The evaluator's state: the double-ended stack of tokens still to be
/// consumed.
pub struct Runner {
    pub token_stack: VecDeque<Token>,
}

impl Runner {
    /// Wraps a stack of tokens for evaluation.
    pub fn new(stack: VecDeque<Token>) -> (r: Runner)
        ensures
            r.token_stack@ == stack@,
    {
        Runner { token_stack: stack }
    }

    /// The addition reduction: pops the two operands from the front of the
    /// stack (reducing recursively when the second is itself a `Plus`),
    /// checks their kinds, sums their values, pushes the printed sum onto
    /// `outputs` and returns the reduced token.
    pub fn add(&mut self, outputs: &mut Vec<String>) -> (r: Result<Token, Error>)
        ensures
            match (r, spec_add(token_models(old(self).token_stack@))) {
                (Ok(t), AddResult::Reduced { token, rest, outs }) => t@ == token && token_models(
                    final(self).token_stack@,
                ) == rest && final(outputs).deep_view() == old(outputs).deep_view() + outs,
                (Err(e), AddResult::Failed { outs, err }) => reports(e, err) && final(outputs).deep_view() == old(outputs).deep_view() + outs,
                _ => false,
            },
        decreases old(self).token_stack@.len(),
    {
        let ghost stack0 = token_models(self.token_stack@);
        let ghost outs0 = outputs.deep_view();
        let first = match self.token_stack.pop_front() {
            Some(t) => t,
            None => {
                proof {
                    assert(outputs.deep_view() =~= outs0 + Seq::<Seq<char>>::empty());
                }
                return Err(
                    Error::new("EmptyStackError", "Tried to pop a token from an empty stack"),
                );
            },
        };
        let second0 = match self.token_stack.pop_front() {
            Some(t) => t,
            None => {
                proof {
                    assert(outputs.deep_view() =~= outs0 + Seq::<Seq<char>>::empty());
                }
                return Err(
                    Error::new("EmptyStackError", "Tried to pop a token from an empty stack"),
                );
            },
        };
        proof {
            assert(first@ == stack0[0]);
            assert(second0@ == stack0[1]);
            assert(token_models(self.token_stack@) =~= stack0.skip(2));
        }
        let ghost after = stack0.skip(2);
        let second: Token;
        let ghost second_model: TokenModel;
        let ghost rest: Seq<TokenModel>;
        let ghost combine_outs: Seq<Seq<char>>;
        if second0.token_type == TokenType::Plus {
            let reduced = self.add(outputs);
            match reduced {
                Ok(t) => {
                    second = t;
                    proof {
                        second_model = t@;
                        rest = token_models(self.token_stack@);
                        combine_outs = outputs.deep_view().skip(outs0.len() as int);
                        assert(outs0 + combine_outs =~= outputs.deep_view());
                    }
                },
                Err(e) => {
                    return Err(e);
                },
            }
        } else {
            second = second0;
            proof {
                second_model = second0@;
                rest = after;
                combine_outs = Seq::<Seq<char>>::empty();
                assert(outs0 + combine_outs =~= outputs.deep_view());
            }
        }
        proof {
            assert(spec_add(stack0) == add_combine(first@, second_model, rest, combine_outs));
        }
        if first.token_type != second.token_type {
            return Err(Error::new("Mismatched types", "Cannot add on 2 values of different types"));
        }
        let v1 = match parse_usize(first.token_value.as_str()) {
            Some(v) => v,
            None => {
                return Err(
                    Error::new(
                        "NumberParseError",
                        "Cannot parse a token value as a non-negative integer",
                    ),
                );
            },
        };
        let v2 = match parse_usize(second.token_value.as_str()) {
            Some(v) => v,
            None => {
                return Err(
                    Error::new(
                        "NumberParseError",
                        "Cannot parse a token value as a non-negative integer",
                    ),
                );
            },
        };
        if v1 > usize::MAX - v2 {
            return Err(
                Error::new("OverflowError", "Addition result does not fit in a machine integer"),
            );
        }
        let result = v1 + v2;
        let text = usize_to_string(result);
        let line = text.clone();
        outputs.push(line);
        proof {
            assert(outputs.deep_view() =~= (outs0 + combine_outs).push(dec_str(result as int)));
            assert(outs0 + combine_outs.push(dec_str(result as int)) =~= (outs0
                + combine_outs).push(dec_str(result as int)));
        }
        Ok(Token::new(first.token_type, text))
    }

    /// Pops one token from the tail of the stack and returns its payload as
    /// the line `puts` prints; an empty stack is the fatal pop failure.
    pub fn puts(&mut self) -> (r: Result<String, Error>)
        ensures
            match r {
                Ok(line) => old(self).token_stack@.len() > 0 && line@ == old(self).token_stack@.last()@.text && final(self).token_stack@ == old(self).token_stack@.drop_last(),
                Err(e) => old(self).token_stack@.len() == 0 && final(self).token_stack@ == old(self).token_stack@ && reports(e, ErrorKind::EmptyStack),
            },
    {
        match self.token_stack.pop_back() {
            Some(t) => {
                proof {
                    assert(self.token_stack@ =~= old(self).token_stack@.drop_last());
                }
                Ok(t.token_value)
            },
            None => Err(Error::new("EmptyStackError", "Tried to pop a token from an empty stack")),
        }
    }

    /// Dispatches a keyword token by its exact text: `puts` prints, anything
    /// else is the fatal unknown-keyword failure naming the text.
    pub fn handle_keyword(&mut self, token: Token) -> (r: Result<String, Error>)
        ensures
            match r {
                Ok(line) => token@.text == "puts"@ && old(self).token_stack@.len() > 0 && line@
                    == old(self).token_stack@.last()@.text && final(self).token_stack@ == old(self).token_stack@.drop_last(),
                Err(e) => final(self).token_stack@ == old(self).token_stack@ && ((token@.text
                    != "puts"@ && reports(e, ErrorKind::UnknownKeyword(token@.text))) || (
                token@.text == "puts"@ && old(self).token_stack@.len() == 0 && reports(
                    e,
                    ErrorKind::EmptyStack,
                ))),
            },
    {
        let keyword = token.token_value;
        if keyword == String::from_str("puts") {
            self.puts()
        } else {
            let description = String::from_str("No such keyword: ").concat(keyword.as_str());
            Err(Error::new("Unknown keyword error", description.as_str()))
        }
    }

    /// Evaluates the stack until it is empty or a fatal failure stops it,
    /// returning the printed lines in order and the failure, if any. On
    /// success the stack has been fully drained.
    pub fn start(&mut self) -> (r: (Vec<String>, Option<Error>))
        ensures
            ({
                let outcome = spec_run(token_models(old(self).token_stack@));
                &&& r.0.deep_view() == outcome.outs
                &&& match (r.1, outcome.err) {
                    (None, None) => final(self).token_stack@.len() == 0,
                    (Some(e), Some(k)) => reports(e, k),
                    _ => false,
                }
            }),
    {
        let ghost stack0 = token_models(old(self).token_stack@);
        let mut outputs: Vec<String> = Vec::new();
        proof {
            assert(outputs.deep_view() =~= Seq::<Seq<char>>::empty());
            assert(Seq::<Seq<char>>::empty() + spec_run(stack0).outs =~= spec_run(stack0).outs);
        }
        loop
            invariant
                stack0 == token_models(old(self).token_stack@),
                spec_run(stack0) == with_outputs(
                    outputs.deep_view(),
                    spec_run(token_models(self.token_stack@)),
                ),
            ensures
                stack0 == token_models(old(self).token_stack@),
                spec_run(stack0) == with_outputs(
                    outputs.deep_view(),
                    spec_run(token_models(self.token_stack@)),
                ),
                self.token_stack@.len() == 0,
            decreases self.token_stack@.len(),
        {
            if self.token_stack.len() == 0 {
                break ;
            }
            let ghost cur = token_models(self.token_stack@);
            let ghost outs_a = outputs.deep_view();
            let token = self.token_stack.pop_back().unwrap();
            let ghost tv = token@;
            proof {
                assert(tv == cur.last());
                assert(token_models(self.token_stack@) =~= cur.drop_last());
            }
            if token.token_type == TokenType::Plus {
                let added = self.add(&mut outputs);
                match added {
                    Ok(t) => {
                        self.token_stack.push_front(t);
                        proof {
                            lemma_spec_add_rest(cur.drop_last());
                            match spec_add(cur.drop_last()) {
                                AddResult::Reduced { token: st, rest, outs } => {
                                    assert(token_models(self.token_stack@) =~= seq![st] + rest);
                                    let r2 = spec_run(seq![st] + rest);
                                    assert(spec_run(cur) == RunOutcome {
                                        outs: outs + r2.outs,
                                        err: r2.err,
                                    });
                                    assert(outputs.deep_view() =~= outs_a + outs);
                                    assert(outs_a + (outs + r2.outs) =~= (outs_a + outs)
                                        + r2.outs);
                                    assert(spec_run(stack0) =~= with_outputs(
                                        outputs.deep_view(),
                                        spec_run(token_models(self.token_stack@)),
                                    ));
                                },
                                AddResult::Failed { .. } => {
                                    assert(false);
                                },
                            }
                        }
                    },
                    Err(e) => {
                        proof {
                            match spec_add(cur.drop_last()) {
                                AddResult::Failed { outs, err } => {
                                    assert(spec_run(cur) == RunOutcome {
                                        outs,
                                        err: Some(err),
                                    });
                                    assert(outputs.deep_view() =~= outs_a + outs);
                                },
                                AddResult::Reduced { .. } => {
                                    assert(false);
                                },
                            }
                        }
                        return (outputs, Some(e));
                    },
                }
            } else if token.token_type == TokenType::Keyword {
                let handled = self.handle_keyword(token);
                match handled {
                    Ok(line) => {
                        let ghost lv = line@;
                        outputs.push(line);
                        proof {
                            assert(token_models(self.token_stack@) =~= cur.drop_last().drop_last());
                            let r2 = spec_run(cur.drop_last().drop_last());
                            assert(lv == cur.drop_last().last().text);
                            assert(spec_run(cur) == RunOutcome {
                                outs: seq![lv] + r2.outs,
                                err: r2.err,
                            });
                            assert(outputs.deep_view() =~= outs_a.push(lv));
                            assert(outs_a + (seq![lv] + r2.outs) =~= outs_a.push(lv) + r2.outs);
                            assert(spec_run(stack0) =~= with_outputs(
                                outputs.deep_view(),
                                spec_run(token_models(self.token_stack@)),
                            ));
                        }
                    },
                    Err(e) => {
                        proof {
                            assert(spec_run(cur).outs == Seq::<Seq<char>>::empty());
                            assert(outputs.deep_view() =~= outs_a + Seq::<Seq<char>>::empty());
                        }
                        return (outputs, Some(e));
                    },
                }
            } else {
                proof {
                    assert(spec_run(cur) == spec_run(cur.drop_last()));
                    assert(spec_run(stack0) =~= with_outputs(
                        outputs.deep_view(),
                        spec_run(token_models(self.token_stack@)),
                    ));
                }
            }
        }
        proof {
            assert(token_models(self.token_stack@) =~= Seq::<TokenModel>::empty());
            assert(outputs.deep_view() + Seq::<Seq<char>>::empty() =~= outputs.deep_view());
        }
        (outputs, None)
    }
}

/// The outcome of one whole line: tokenize, then evaluate the tokens as a
/// stack. A tokenizer failure produces no output at all.
pub open spec fn spec_eval(line: Seq<char>) -> RunOutcome {
    match spec_tokenize(line, 0) {
        Err(e) => RunOutcome { outs: Seq::empty(), err: Some(e) },
        Ok(tokens) => spec_run(tokens),
    }
}

/// Processes one line of input: tokenizes it and evaluates the resulting
/// token stack, returning the lines printed in order and the fatal failure,
/// if any. Each line is processed with a fresh tokenizer and a fresh stack:
/// nothing persists between lines.
pub fn evaluate_line(source: String) -> (r: (Vec<String>, Option<Error>))
    ensures
        ({
            let outcome = spec_eval(source@);
            &&& r.0.deep_view() == outcome.outs
            &&& match (r.1, outcome.err) {
                (None, None) => true,
                (Some(e), Some(k)) => reports(e, k),
                _ => false,
            }
        }),
{
    let ghost line = source@;
    let mut lexer = Lexer::new(source);
    let tokenized = lexer.tokenize();
    match tokenized {
        Err(e) => {
            let outputs: Vec<String> = Vec::new();
            proof {
                assert(outputs.deep_view() =~= Seq::<Seq<char>>::empty());
            }
            (outputs, Some(e))
        },
        Ok(mut tokens) => {
            let ghost all_models = token_models(tokens@);
            let mut stack: VecDeque<Token> = VecDeque::new();
            proof {
                assert(token_models(stack@) =~= Seq::<TokenModel>::empty());
                assert(token_models(tokens@) + token_models(stack@) =~= all_models);
            }
            loop
                invariant
                    token_models(tokens@) + token_models(stack@) == all_models,
                ensures
                    token_models(stack@) == all_models,
                decreases tokens.len(),
            {
                if tokens.len() == 0 {
                    proof {
                        assert(token_models(tokens@) =~= Seq::<TokenModel>::empty());
                        assert(token_models(stack@) =~= all_models);
                    }
                    break ;
                }
                let ghost toks_b = token_models(tokens@);
                let ghost stk_b = token_models(stack@);
                let t = tokens.pop().unwrap();
                stack.push_front(t);
                proof {
                    assert(token_models(tokens@) =~= toks_b.drop_last());
                    assert(token_models(stack@) =~= seq![t@] + stk_b);
                    assert(toks_b.drop_last() + (seq![t@] + stk_b) =~= toks_b + stk_b);
                }
            }
            let mut runner = Runner::new(stack);
            runner.start()
        },
    }
}


/// A line of the form `"<text>" puts` — a quoted run of printable, unquoted
/// characters followed by the `puts` keyword — evaluates without failure and
/// prints exactly the quoted text.
pub proof fn lemma_puts_line(w: Seq<char>)
    requires
        forall|k: int| 0 <= k < w.len() ==> is_ascii_char(w[k]) && w[k] != '"' && w[k] != '\0',
    ensures
        spec_eval(seq!['"'] + w + "\" puts"@) == (RunOutcome { outs: seq![w], err: None }),
{
    reveal_strlit("\" puts");
    reveal_strlit("puts");
    let s = seq!['"'] + w + "\" puts"@;
    let lw = w.len() as int;
    let n = s.len() as int;
    assert(n == lw + 7);
    assert(s[0] == '"');
    assert(forall|k: int| 1 <= k <= lw ==> s[k] == w[k - 1]);
    assert(s[lw + 1] == '"' && s[lw + 2] == ' ' && s[lw + 3] == 'p' && s[lw + 4] == 'u' && s[lw
        + 5] == 't' && s[lw + 6] == 's');
    let str_w = TokenModel { kind: TokenType::String, text: w };
    let kw_puts = TokenModel { kind: TokenType::Keyword, text: "puts"@ };

    // past the end of the line
    assert(spec_tokenize(s, n) == Ok::<Seq<TokenModel>, crate::error::ErrorKind>(
        Seq::<TokenModel>::empty(),
    ));

    // the keyword, ended by the end of the input
    lemma_kw_scan_run(s, lw + 3, seq![s[lw + 3]], lw + 6);
    assert(seq![s[lw + 3]] + s.subrange(lw + 4, lw + 7) =~= "puts"@);
    assert(tok_step(s, lw + 3) == Ok::<(Seq<TokenModel>, int), crate::error::ErrorKind>(
        (seq![kw_puts], n),
    ));
    assert(seq![kw_puts] + Seq::<TokenModel>::empty() =~= seq![kw_puts]);
    assert(spec_tokenize(s, lw + 3) == Ok::<Seq<TokenModel>, crate::error::ErrorKind>(
        seq![kw_puts],
    ));

    // the whitespace after the closing quote
    assert(tok_step(s, lw + 2) == Ok::<(Seq<TokenModel>, int), crate::error::ErrorKind>(
        (Seq::empty(), lw + 3),
    ));
    assert(Seq::<TokenModel>::empty() + seq![kw_puts] =~= seq![kw_puts]);
    assert(spec_tokenize(s, lw + 2) == Ok::<Seq<TokenModel>, crate::error::ErrorKind>(
        seq![kw_puts],
    ));

    // the quoted string, ended by its closing quote
    lemma_str_scan_run(s, 0, Seq::empty(), lw);
    assert(Seq::<char>::empty() + s.subrange(1, lw + 1) =~= w);
    assert(str_scan(s, 0, Seq::empty()) == (w, lw));
    assert(tok_step(s, 0) == Ok::<(Seq<TokenModel>, int), crate::error::ErrorKind>(
        (seq![str_w], lw + 2),
    ));
    assert(seq![str_w] + seq![kw_puts] =~= seq![str_w, kw_puts]);
    assert(spec_tokenize(s, 0) == Ok::<Seq<TokenModel>, crate::error::ErrorKind>(
        seq![str_w, kw_puts],
    ));

    // evaluation: the keyword comes off the tail and prints the payload of
    // the string token below it
    let stack = seq![str_w, kw_puts];
    assert(stack.last() == kw_puts);
    assert(stack.drop_last() =~= seq![str_w]);
    assert(stack.drop_last().last() == str_w);
    assert(stack.drop_last().drop_last() =~= Seq::<TokenModel>::empty());
    assert(spec_run(Seq::<TokenModel>::empty()) == (RunOutcome {
        outs: Seq::<Seq<char>>::empty(),
        err: None,
    }));
    assert(spec_run(stack) == (RunOutcome {
        outs: seq![w] + Seq::<Seq<char>>::empty(),
        err: None,
    }));
    assert(seq![w] + Seq::<Seq<char>>::empty() =~= seq![w]);
    assert(spec_eval(s) =~= (RunOutcome { outs: seq![w], err: None }));
}


/// An addition whose two operands are integer tokens stacked in front of the
/// `Plus` prints exactly the decimal text of their sum and fails nothing,
/// whenever the sum fits in a machine integer.
pub proof fn lemma_stacked_addition_prints_sum(a: Seq<char>, b: Seq<char>)
    requires
        a.len() > 0,
        b.len() > 0,
        all_digits(a),
        all_digits(b),
        digits_val(a) + digits_val(b) <= usize::MAX,
    ensures
        spec_run(
            seq![
                TokenModel { kind: TokenType::Int, text: a },
                TokenModel { kind: TokenType::Int, text: b },
                TokenModel { kind: TokenType::Plus, text: Seq::empty() },
            ],
        ) == (RunOutcome { outs: seq![dec_str(digits_val(a) + digits_val(b))], err: None }),
{
    lemma_digits_val_nonneg(a);
    lemma_digits_val_nonneg(b);
    let int_a = TokenModel { kind: TokenType::Int, text: a };
    let int_b = TokenModel { kind: TokenType::Int, text: b };
    let plus = TokenModel { kind: TokenType::Plus, text: Seq::<char>::empty() };
    let stack = seq![int_a, int_b, plus];
    let sum = digits_val(a) + digits_val(b);
    // the digit runs read back as their values: neither starts with a sign
    assert(is_digit(a[0]) && a[0] != '+');
    assert(is_digit(b[0]) && b[0] != '+');
    assert(parse_usize_val(a) == Some(digits_val(a)));
    assert(parse_usize_val(b) == Some(digits_val(b)));
    // the reduction takes both operands and leaves nothing
    assert(stack.last() == plus);
    assert(stack.drop_last() =~= seq![int_a, int_b]);
    let operands = seq![int_a, int_b];
    assert(operands.skip(2) =~= Seq::<TokenModel>::empty());
    assert(spec_add(operands) == (AddResult::Reduced {
        token: TokenModel { kind: TokenType::Int, text: dec_str(sum) },
        rest: Seq::<TokenModel>::empty(),
        outs: Seq::<Seq<char>>::empty().push(dec_str(sum)),
    }));
    // the reduced token is pushed back alone and is then silently dropped
    let reduced = TokenModel { kind: TokenType::Int, text: dec_str(sum) };
    let rerun = seq![reduced] + Seq::<TokenModel>::empty();
    assert(rerun =~= seq![reduced]);
    assert(rerun.drop_last() =~= Seq::<TokenModel>::empty());
    assert(spec_run(Seq::<TokenModel>::empty()) == (RunOutcome {
        outs: Seq::<Seq<char>>::empty(),
        err: None,
    }));
    assert(spec_run(rerun) == (RunOutcome { outs: Seq::<Seq<char>>::empty(), err: None }));
    assert(Seq::<Seq<char>>::empty().push(dec_str(sum)) + Seq::<Seq<char>>::empty() =~= seq![
        dec_str(sum),
    ]);
    assert(spec_run(stack) =~= (RunOutcome { outs: seq![dec_str(sum)], err: None }));
}


/// A whole line of the form `<int> <int> +` — the two integer operands
/// stacked in front of the operator — evaluates without failure and prints
/// exactly the decimal text of their sum, whenever the sum fits in a machine
/// integer.
pub proof fn lemma_addition_line_evaluates(a: Seq<char>, b: Seq<char>)
    requires
        a.len() > 0,
        b.len() > 0,
        all_digits(a),
        all_digits(b),
        digits_val(a) + digits_val(b) <= usize::MAX,
    ensures
        spec_eval(a + " "@ + b + " +"@) == (RunOutcome {
            outs: seq![dec_str(digits_val(a) + digits_val(b))],
            err: None,
        }),
{
    reveal_strlit(" ");
    reveal_strlit(" +");
    let s = a + " "@ + b + " +"@;
    let la = a.len() as int;
    let lb = b.len() as int;
    let n = s.len() as int;
    assert(n == la + lb + 3);
    assert(forall|k: int| 0 <= k < la ==> s[k] == a[k]);
    assert(s[la] == ' ');
    assert(forall|k: int| 0 <= k < lb ==> s[la + 1 + k] == b[k]);
    assert(s[la + 1 + lb] == ' ' && s[la + 2 + lb] == '+');
    let int_a = TokenModel { kind: TokenType::Int, text: a };
    let int_b = TokenModel { kind: TokenType::Int, text: b };
    let plus = TokenModel { kind: TokenType::Plus, text: Seq::<char>::empty() };

    // past the end of the line
    assert(spec_tokenize(s, n) == Ok::<Seq<TokenModel>, ErrorKind>(Seq::<TokenModel>::empty()));

    // the operator, ended by the end of the input
    assert(tok_step(s, la + lb + 2) == Ok::<(Seq<TokenModel>, int), ErrorKind>(
        (seq![plus], n),
    ));
    assert(seq![plus] + Seq::<TokenModel>::empty() =~= seq![plus]);
    assert(spec_tokenize(s, la + lb + 2) == Ok::<Seq<TokenModel>, ErrorKind>(seq![plus]));

    // the whitespace before the operator
    assert(tok_step(s, la + lb + 1) == Ok::<(Seq<TokenModel>, int), ErrorKind>(
        (Seq::empty(), la + lb + 2),
    ));
    assert(Seq::<TokenModel>::empty() + seq![plus] =~= seq![plus]);
    assert(spec_tokenize(s, la + lb + 1) == Ok::<Seq<TokenModel>, ErrorKind>(seq![plus]));

    // the second numeral, ended by that whitespace
    assert(forall|p: int| la + 1 < p <= la + lb ==> is_digit(s[p]));
    lemma_num_scan_digit_run(s, la + 1, seq![s[la + 1]], la + lb);
    assert(seq![s[la + 1]] + s.subrange(la + 2, la + lb + 1) =~= b);
    assert(tok_step(s, la + 1) == Ok::<(Seq<TokenModel>, int), ErrorKind>(
        (seq![int_b], la + lb + 2),
    ));
    assert(seq![int_b] + seq![plus] =~= seq![int_b, plus]);
    assert(spec_tokenize(s, la + 1) == Ok::<Seq<TokenModel>, ErrorKind>(seq![int_b, plus]));

    // the first numeral, ended by the whitespace after it
    assert(forall|p: int| 0 < p < la ==> is_digit(s[p]));
    lemma_num_scan_digit_run(s, 0, seq![s[0]], la - 1);
    assert(seq![s[0]] + s.subrange(1, la) =~= a);
    assert(tok_step(s, 0) == Ok::<(Seq<TokenModel>, int), ErrorKind>((seq![int_a], la + 1)));
    assert(seq![int_a] + seq![int_b, plus] =~= seq![int_a, int_b, plus]);
    assert(spec_tokenize(s, 0) == Ok::<Seq<TokenModel>, ErrorKind>(seq![int_a, int_b, plus]));

    // the evaluation of that stack prints the sum
    lemma_stacked_addition_prints_sum(a, b);
}

} // verus!
