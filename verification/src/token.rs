//! The lexical data model: a token is a kind together with the raw lexeme
//! text that produced it (empty for operator tokens).

use vstd::prelude::*;

verus! {

/// The kind of a lexical token. `Multiply` is recognized by the tokenizer but
/// never interpreted by the evaluator.
#[derive(Clone, Copy, Debug, PartialEq, Eq, Structural)]
pub enum TokenType {
    Int,
    Float,
    String,
    Keyword,
    Plus,
    Multiply,
}

/// A token as produced by the tokenizer: immutable once constructed.
#[derive(Debug)]
pub struct Token {
    pub token_type: TokenType,
    pub token_value: String,
}

/// The mathematical model of a token: its kind and the sequence of characters
/// of its lexeme.
#[verifier::ext_equal]
pub struct TokenModel {
    pub kind: TokenType,
    pub text: Seq<char>,
}

impl View for Token {
    type V = TokenModel;

    open spec fn view(&self) -> TokenModel {
        TokenModel { kind: self.token_type, text: self.token_value@ }
    }
}

/// The models of a sequence of tokens, in order.
pub open spec fn token_models(tokens: Seq<Token>) -> Seq<TokenModel> {
    tokens.map_values(|t: Token| t@)
}

impl Token {
    /// Constructs a token of the given kind carrying the given lexeme.
    pub fn new(t_type: TokenType, t_value: String) -> (r: Token)
        ensures
            r@ == (TokenModel { kind: t_type, text: t_value@ }),
    {
        Token { token_type: t_type, token_value: t_value }
    }
}

} // verus!
