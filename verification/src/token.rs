//! Tokens: the labelled pieces the lexer cuts the source into.

use vstd::prelude::*;
use crate::error::{Span, spec_span};
use crate::text::{int_decimal, push_char, push_i64};

verus! {

broadcast use vstd::string::group_string_axioms;

/// Every kind of token. A decimal literal keeps the digits as written.
#[derive(Debug, PartialEq)]
pub enum TokenKind {
    Identifier(String),
    StringLiteral(String),
    CharLiteral(char),
    NumberLiteral(i64),
    FloatLiteral(String),
    True,
    False,
    For,
    In,
    Range,
    Through,
    If,
    Else,
    While,
    Return,
    And,
    Or,
    Not,
    Plus,
    Minus,
    Star,
    Slash,
    Equal,
    EqualEqual,
    BangEqual,
    Less,
    Greater,
    LessEqual,
    GreaterEqual,
    LeftParen,
    RightParen,
    LeftBracket,
    RightBracket,
    Semicolon,
    Comma,
    Newline,
    Indent,
    Dedent,
    EOF,
}

/// The plain-value form of a [`TokenKind`].
pub enum KindView {
    Identifier(Seq<char>),
    StringLiteral(Seq<char>),
    CharLiteral(char),
    NumberLiteral(i64),
    FloatLiteral(Seq<char>),
    True,
    False,
    For,
    In,
    Range,
    Through,
    If,
    Else,
    While,
    Return,
    And,
    Or,
    Not,
    Plus,
    Minus,
    Star,
    Slash,
    Equal,
    EqualEqual,
    BangEqual,
    Less,
    Greater,
    LessEqual,
    GreaterEqual,
    LeftParen,
    RightParen,
    LeftBracket,
    RightBracket,
    Semicolon,
    Comma,
    Newline,
    Indent,
    Dedent,
    EOF,
}

impl View for TokenKind {
    type V = KindView;

    open spec fn view(&self) -> KindView {
        match self {
            TokenKind::Identifier(s) => KindView::Identifier(s@),
            TokenKind::StringLiteral(s) => KindView::StringLiteral(s@),
            TokenKind::CharLiteral(c) => KindView::CharLiteral(*c),
            TokenKind::NumberLiteral(n) => KindView::NumberLiteral(*n),
            TokenKind::FloatLiteral(s) => KindView::FloatLiteral(s@),
            TokenKind::True => KindView::True,
            TokenKind::False => KindView::False,
            TokenKind::For => KindView::For,
            TokenKind::In => KindView::In,
            TokenKind::Range => KindView::Range,
            TokenKind::Through => KindView::Through,
            TokenKind::If => KindView::If,
            TokenKind::Else => KindView::Else,
            TokenKind::While => KindView::While,
            TokenKind::Return => KindView::Return,
            TokenKind::And => KindView::And,
            TokenKind::Or => KindView::Or,
            TokenKind::Not => KindView::Not,
            TokenKind::Plus => KindView::Plus,
            TokenKind::Minus => KindView::Minus,
            TokenKind::Star => KindView::Star,
            TokenKind::Slash => KindView::Slash,
            TokenKind::Equal => KindView::Equal,
            TokenKind::EqualEqual => KindView::EqualEqual,
            TokenKind::BangEqual => KindView::BangEqual,
            TokenKind::Less => KindView::Less,
            TokenKind::Greater => KindView::Greater,
            TokenKind::LessEqual => KindView::LessEqual,
            TokenKind::GreaterEqual => KindView::GreaterEqual,
            TokenKind::LeftParen => KindView::LeftParen,
            TokenKind::RightParen => KindView::RightParen,
            TokenKind::LeftBracket => KindView::LeftBracket,
            TokenKind::RightBracket => KindView::RightBracket,
            TokenKind::Semicolon => KindView::Semicolon,
            TokenKind::Comma => KindView::Comma,
            TokenKind::Newline => KindView::Newline,
            TokenKind::Indent => KindView::Indent,
            TokenKind::Dedent => KindView::Dedent,
            TokenKind::EOF => KindView::EOF,
        }
    }
}

impl Clone for TokenKind {
    fn clone(&self) -> (r: Self)
        ensures
            r == *self,
    {
        match self {
            TokenKind::Identifier(s) => TokenKind::Identifier(s.clone()),
            TokenKind::StringLiteral(s) => TokenKind::StringLiteral(s.clone()),
            TokenKind::CharLiteral(c) => TokenKind::CharLiteral(*c),
            TokenKind::NumberLiteral(n) => TokenKind::NumberLiteral(*n),
            TokenKind::FloatLiteral(s) => TokenKind::FloatLiteral(s.clone()),
            TokenKind::True => TokenKind::True,
            TokenKind::False => TokenKind::False,
            TokenKind::For => TokenKind::For,
            TokenKind::In => TokenKind::In,
            TokenKind::Range => TokenKind::Range,
            TokenKind::Through => TokenKind::Through,
            TokenKind::If => TokenKind::If,
            TokenKind::Else => TokenKind::Else,
            TokenKind::While => TokenKind::While,
            TokenKind::Return => TokenKind::Return,
            TokenKind::And => TokenKind::And,
            TokenKind::Or => TokenKind::Or,
            TokenKind::Not => TokenKind::Not,
            TokenKind::Plus => TokenKind::Plus,
            TokenKind::Minus => TokenKind::Minus,
            TokenKind::Star => TokenKind::Star,
            TokenKind::Slash => TokenKind::Slash,
            TokenKind::Equal => TokenKind::Equal,
            TokenKind::EqualEqual => TokenKind::EqualEqual,
            TokenKind::BangEqual => TokenKind::BangEqual,
            TokenKind::Less => TokenKind::Less,
            TokenKind::Greater => TokenKind::Greater,
            TokenKind::LessEqual => TokenKind::LessEqual,
            TokenKind::GreaterEqual => TokenKind::GreaterEqual,
            TokenKind::LeftParen => TokenKind::LeftParen,
            TokenKind::RightParen => TokenKind::RightParen,
            TokenKind::LeftBracket => TokenKind::LeftBracket,
            TokenKind::RightBracket => TokenKind::RightBracket,
            TokenKind::Semicolon => TokenKind::Semicolon,
            TokenKind::Comma => TokenKind::Comma,
            TokenKind::Newline => TokenKind::Newline,
            TokenKind::Indent => TokenKind::Indent,
            TokenKind::Dedent => TokenKind::Dedent,
            TokenKind::EOF => TokenKind::EOF,
        }
    }
}

impl TokenKind {
    /// Whether two kinds are the same, payload included.
    pub fn same_as(&self, other: &TokenKind) -> (r: bool)
        ensures
            r == (self@ == other@),
    {
        match (self, other) {
            (TokenKind::Identifier(a), TokenKind::Identifier(b)) => *a == *b,
            (TokenKind::StringLiteral(a), TokenKind::StringLiteral(b)) => *a == *b,
            (TokenKind::CharLiteral(a), TokenKind::CharLiteral(b)) => *a == *b,
            (TokenKind::NumberLiteral(a), TokenKind::NumberLiteral(b)) => *a == *b,
            (TokenKind::FloatLiteral(a), TokenKind::FloatLiteral(b)) => *a == *b,
            (TokenKind::True, TokenKind::True) => true,
            (TokenKind::False, TokenKind::False) => true,
            (TokenKind::For, TokenKind::For) => true,
            (TokenKind::In, TokenKind::In) => true,
            (TokenKind::Range, TokenKind::Range) => true,
            (TokenKind::Through, TokenKind::Through) => true,
            (TokenKind::If, TokenKind::If) => true,
            (TokenKind::Else, TokenKind::Else) => true,
            (TokenKind::While, TokenKind::While) => true,
            (TokenKind::Return, TokenKind::Return) => true,
            (TokenKind::And, TokenKind::And) => true,
            (TokenKind::Or, TokenKind::Or) => true,
            (TokenKind::Not, TokenKind::Not) => true,
            (TokenKind::Plus, TokenKind::Plus) => true,
            (TokenKind::Minus, TokenKind::Minus) => true,
            (TokenKind::Star, TokenKind::Star) => true,
            (TokenKind::Slash, TokenKind::Slash) => true,
            (TokenKind::Equal, TokenKind::Equal) => true,
            (TokenKind::EqualEqual, TokenKind::EqualEqual) => true,
            (TokenKind::BangEqual, TokenKind::BangEqual) => true,
            (TokenKind::Less, TokenKind::Less) => true,
            (TokenKind::Greater, TokenKind::Greater) => true,
            (TokenKind::LessEqual, TokenKind::LessEqual) => true,
            (TokenKind::GreaterEqual, TokenKind::GreaterEqual) => true,
            (TokenKind::LeftParen, TokenKind::LeftParen) => true,
            (TokenKind::RightParen, TokenKind::RightParen) => true,
            (TokenKind::LeftBracket, TokenKind::LeftBracket) => true,
            (TokenKind::RightBracket, TokenKind::RightBracket) => true,
            (TokenKind::Semicolon, TokenKind::Semicolon) => true,
            (TokenKind::Comma, TokenKind::Comma) => true,
            (TokenKind::Newline, TokenKind::Newline) => true,
            (TokenKind::Indent, TokenKind::Indent) => true,
            (TokenKind::Dedent, TokenKind::Dedent) => true,
            (TokenKind::EOF, TokenKind::EOF) => true,
            _ => false,
        }
    }
}

/// A token together with where it stands in the source.
#[derive(Debug)]
pub struct Token {
    pub kind: TokenKind,
    pub span: Span,
}

pub struct TokenView {
    pub kind: KindView,
    pub span: Span,
}

impl View for Token {
    type V = TokenView;

    open spec fn view(&self) -> TokenView {
        TokenView { kind: self.kind@, span: self.span }
    }
}

impl Clone for Token {
    fn clone(&self) -> (r: Self)
        ensures
            r == *self,
    {
        Token { kind: self.kind.clone(), span: self.span }
    }
}

/// The views of a sequence of tokens.
pub open spec fn tokens_view(v: Seq<Token>) -> Seq<TokenView> {
    v.map_values(|t: Token| t@)
}

impl Token {
    /// A token of `kind` at the given line, column and width (each at least 1).
    pub fn at(kind: TokenKind, line: usize, column: usize, length: usize) -> (t: Token)
        ensures
            t.kind == kind,
            t.span == spec_span(line, column, length),
    {
        Token { kind, span: Span::new(line, column, length) }
    }
}

/// How a token kind is named in messages.
pub open spec fn spec_describe(kind: KindView) -> Seq<char> {
    match kind {
        KindView::Identifier(name) => "name '"@ + name + "'"@,
        KindView::StringLiteral(text) => "string \""@ + text + "\""@,
        KindView::CharLiteral(ch) => "char '"@ + seq![ch] + "'"@,
        KindView::NumberLiteral(n) => "number "@ + int_decimal(n as int),
        KindView::FloatLiteral(digits) => "number "@ + digits,
        KindView::True => "true"@,
        KindView::False => "false"@,
        KindView::For => "'for'"@,
        KindView::In => "'in'"@,
        KindView::Range => "'range'"@,
        KindView::Through => "'through'"@,
        KindView::If => "'if'"@,
        KindView::Else => "'else'"@,
        KindView::While => "'while'"@,
        KindView::Return => "'return'"@,
        KindView::And => "'and'"@,
        KindView::Or => "'or'"@,
        KindView::Not => "'not'"@,
        KindView::Plus => "'+'"@,
        KindView::Minus => "'-'"@,
        KindView::Star => "'*'"@,
        KindView::Slash => "'/'"@,
        KindView::Equal => "'='"@,
        KindView::EqualEqual => "'=='"@,
        KindView::BangEqual => "'!='"@,
        KindView::Less => "'<'"@,
        KindView::Greater => "'>'"@,
        KindView::LessEqual => "'<='"@,
        KindView::GreaterEqual => "'>='"@,
        KindView::LeftParen => "'('"@,
        KindView::RightParen => "')'"@,
        KindView::LeftBracket => "'['"@,
        KindView::RightBracket => "']'"@,
        KindView::Semicolon => "';'"@,
        KindView::Comma => "','"@,
        KindView::Newline => "end of line"@,
        KindView::Indent => "an indented block"@,
        KindView::Dedent => "the end of an indented block"@,
        KindView::EOF => "end of file"@,
    }
}

/// Appends how `kind` is named in messages.
pub fn push_describe(out: &mut String, kind: &TokenKind)
    ensures
        final(out)@ == old(out)@ + spec_describe(kind@),
{
    match kind {
        TokenKind::Identifier(name) => {
            out.append("name '");
            out.append(name.as_str());
            out.append("'");
        },
        TokenKind::StringLiteral(text) => {
            out.append("string \"");
            out.append(text.as_str());
            out.append("\"");
        },
        TokenKind::CharLiteral(ch) => {
            out.append("char '");
            push_char(out, *ch);
            out.append("'");
        },
        TokenKind::NumberLiteral(n) => {
            out.append("number ");
            push_i64(out, *n);
        },
        TokenKind::FloatLiteral(digits) => {
            out.append("number ");
            out.append(digits.as_str());
        },
        TokenKind::True => out.append("true"),
        TokenKind::False => out.append("false"),
        TokenKind::For => out.append("'for'"),
        TokenKind::In => out.append("'in'"),
        TokenKind::Range => out.append("'range'"),
        TokenKind::Through => out.append("'through'"),
        TokenKind::If => out.append("'if'"),
        TokenKind::Else => out.append("'else'"),
        TokenKind::While => out.append("'while'"),
        TokenKind::Return => out.append("'return'"),
        TokenKind::And => out.append("'and'"),
        TokenKind::Or => out.append("'or'"),
        TokenKind::Not => out.append("'not'"),
        TokenKind::Plus => out.append("'+'"),
        TokenKind::Minus => out.append("'-'"),
        TokenKind::Star => out.append("'*'"),
        TokenKind::Slash => out.append("'/'"),
        TokenKind::Equal => out.append("'='"),
        TokenKind::EqualEqual => out.append("'=='"),
        TokenKind::BangEqual => out.append("'!='"),
        TokenKind::Less => out.append("'<'"),
        TokenKind::Greater => out.append("'>'"),
        TokenKind::LessEqual => out.append("'<='"),
        TokenKind::GreaterEqual => out.append("'>='"),
        TokenKind::LeftParen => out.append("'('"),
        TokenKind::RightParen => out.append("')'"),
        TokenKind::LeftBracket => out.append("'['"),
        TokenKind::RightBracket => out.append("']'"),
        TokenKind::Semicolon => out.append("';'"),
        TokenKind::Comma => out.append("','"),
        TokenKind::Newline => out.append("end of line"),
        TokenKind::Indent => out.append("an indented block"),
        TokenKind::Dedent => out.append("the end of an indented block"),
        TokenKind::EOF => out.append("end of file"),
    }
    assert(out@ =~= old(out)@ + spec_describe(kind@));
}

/// How a token kind is named in messages, such as `name 'x'` or `')'`.
pub fn describe_kind(kind: &TokenKind) -> (s: String)
    ensures
        s@ == spec_describe(kind@),
{
    let mut s = String::new();
    push_describe(&mut s, kind);
    assert(s@ =~= spec_describe(kind@));
    s
}

} // verus!
