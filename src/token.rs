//! Tokens of constraint expressions, read by the Lua lexer of `lex_lua`.

use vstd::prelude::*;
use lex_lua::{Keyword, Lexer, Punct};

verus! {

/// The tokens that constraint expressions are made of. Every Lua token that
/// has no meaning here becomes `Other`.
#[derive(Debug)]
pub enum Token {
    Not,
    And,
    Or,
    OpenParen,
    CloseParen,
    Comma,
    Name(String),
    Numeral(String),
    /// A quoted literal, quotes included.
    Literal(String),
    Other,
}

pub enum TokenView {
    Not,
    And,
    Or,
    OpenParen,
    CloseParen,
    Comma,
    Name(Seq<char>),
    Numeral(Seq<char>),
    Literal(Seq<char>),
    Other,
}

impl View for Token {
    type V = TokenView;

    open spec fn view(&self) -> TokenView {
        match self {
            Token::Not => TokenView::Not,
            Token::And => TokenView::And,
            Token::Or => TokenView::Or,
            Token::OpenParen => TokenView::OpenParen,
            Token::CloseParen => TokenView::CloseParen,
            Token::Comma => TokenView::Comma,
            Token::Name(s) => TokenView::Name(s@),
            Token::Numeral(s) => TokenView::Numeral(s@),
            Token::Literal(s) => TokenView::Literal(s@),
            Token::Other => TokenView::Other,
        }
    }
}

pub open spec fn tokens_view(t: Seq<Token>) -> Seq<TokenView> {
    t.map_values(|x: Token| x@)
}

/// The tokens that `lex_lua` reads from a text.
pub uninterp spec fn lua_tokens(s: Seq<char>) -> Seq<TokenView>;

/// The text opens a Lua long bracket (`[[` or `[=`); `lex_lua` does not stop
/// on such text when the bracket is left unclosed.
pub open spec fn has_long_bracket(s: Seq<char>) -> bool {
    exists|i: int| 0 <= i && i + 1 < s.len() && s[i] == '[' && (#[trigger] s[i + 1] == '[' || s[i + 1] == '=')
}

/// Relies on `lex_lua::Lexer` (an iterator of tokens over the text's bytes):
/// the tokens it yields depend on the text alone. Its long-bracket scan does
/// not return on an unclosed bracket, so such text is left out.
#[verifier::external_body]
fn lex(s: &str) -> (r: Vec<Token>)
    requires
        !has_long_bracket(s@),
    ensures
        tokens_view(r@) == lua_tokens(s@),
{
    Lexer::new(s.as_bytes()).map(|t| match t {
        lex_lua::Token::Keyword(Keyword::Not) => Token::Not,
        lex_lua::Token::Keyword(Keyword::And) => Token::And,
        lex_lua::Token::Keyword(Keyword::Or) => Token::Or,
        lex_lua::Token::Punct(Punct::OpenParen) => Token::OpenParen,
        lex_lua::Token::Punct(Punct::CloseParen) => Token::CloseParen,
        lex_lua::Token::Punct(Punct::Comma) => Token::Comma,
        lex_lua::Token::Name(n) => Token::Name(n.into_owned()),
        lex_lua::Token::Numeral(n) => Token::Numeral(n.into_owned()),
        lex_lua::Token::LiteralString(l) => Token::Literal(l.to_string()),
        _ => Token::Other,
    }).collect()
}

/// Whether the text opens a Lua long bracket.
pub fn opens_long_bracket(s: &str) -> (r: bool)
    ensures
        r == has_long_bracket(s@),
{
    let n = s.unicode_len();
    if n < 2 {
        return false;
    }
    let mut i: usize = 0;
    while i + 1 < n
        invariant
            n == s@.len(),
            n >= 2,
            i + 1 <= n,
            forall|j: int| 0 <= j < i ==> !(s@[j] == '[' && (#[trigger] s@[j + 1] == '[' || s@[j + 1] == '=')),
        decreases n - i,
    {
        let c = s.get_char(i);
        if c == '[' {
            let d = s.get_char(i + 1);
            if d == '[' || d == '=' {
                return true;
            }
        }
        i = i + 1;
    }
    false
}

/// The tokens of an expression, or `None` where the text opens a long
/// bracket, which no constraint expression holds.
pub fn tokenize(s: &str) -> (r: Option<Vec<Token>>)
    ensures
        match r {
            Some(t) => !has_long_bracket(s@) && tokens_view(t@) == lua_tokens(s@),
            None => has_long_bracket(s@),
        },
{
    if opens_long_bracket(s) {
        None
    } else {
        Some(lex(s))
    }
}

} // verus!
