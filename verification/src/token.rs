//! What is said and asked of single tokens.

use vstd::prelude::*;
use vstd::string::*;

use crate::decimal;
use crate::lex::{TokenKind, TokenKindView};
use crate::text;

verus! {

impl TokenKindView {
    /// How error messages name a token.
    pub open spec fn described(self) -> Seq<char> {
        match self {
            TokenKindView::Ident { name, .. } => "'"@ + name + "'"@,
            TokenKindView::Integer(n) => "integer "@ + text::signed_decimal(n as int),
            TokenKindView::IntegerTooLarge(n) => "integer "@ + text::decimal(n as nat),
            TokenKindView::Float(bits) => "float "@ + decimal::shown(bits),
            TokenKindView::Str(_) => "string literal"@,
            TokenKindView::Parameter(name) => "parameter $"@ + name,
            TokenKindView::LParen => "'('"@,
            TokenKindView::RParen => "')'"@,
            TokenKindView::LBracket => "'['"@,
            TokenKindView::RBracket => "']'"@,
            TokenKindView::LBrace => "'{'"@,
            TokenKindView::RBrace => "'}'"@,
            TokenKindView::Comma => "','"@,
            TokenKindView::Dot => "'.'"@,
            TokenKindView::DotDot => "'..'"@,
            TokenKindView::Colon => "':'"@,
            TokenKindView::Semicolon => "';'"@,
            TokenKindView::Pipe => "'|'"@,
            TokenKindView::Star => "'*'"@,
            TokenKindView::Plus => "'+'"@,
            TokenKindView::Minus => "'-'"@,
            TokenKindView::Slash => "'/'"@,
            TokenKindView::Percent => "'%'"@,
            TokenKindView::Caret => "'^'"@,
            TokenKindView::Eq => "'='"@,
            TokenKindView::Ne => "'<>'"@,
            TokenKindView::Lt => "'<'"@,
            TokenKindView::Le => "'<='"@,
            TokenKindView::Gt => "'>'"@,
            TokenKindView::Ge => "'>='"@,
            TokenKindView::RegexEq => "'=~'"@,
            TokenKindView::Arrow => "'->'"@,
            TokenKindView::LArrow => "'<-'"@,
            TokenKindView::Eof => "end of input"@,
        }
    }

    /// Whether a token holds nothing but its kind.
    pub open spec fn is_mark(self) -> bool {
        self.code() > 5
    }

    /// A number for the kind of a token.
    pub open spec fn code(self) -> u8 {
        match self {
            TokenKindView::Ident { .. } => 0,
            TokenKindView::Integer(_) => 1,
            TokenKindView::IntegerTooLarge(_) => 2,
            TokenKindView::Float(_) => 3,
            TokenKindView::Str(_) => 4,
            TokenKindView::Parameter(_) => 5,
            TokenKindView::LParen => 6,
            TokenKindView::RParen => 7,
            TokenKindView::LBracket => 8,
            TokenKindView::RBracket => 9,
            TokenKindView::LBrace => 10,
            TokenKindView::RBrace => 11,
            TokenKindView::Comma => 12,
            TokenKindView::Dot => 13,
            TokenKindView::DotDot => 14,
            TokenKindView::Colon => 15,
            TokenKindView::Semicolon => 16,
            TokenKindView::Pipe => 17,
            TokenKindView::Star => 18,
            TokenKindView::Plus => 19,
            TokenKindView::Minus => 20,
            TokenKindView::Slash => 21,
            TokenKindView::Percent => 22,
            TokenKindView::Caret => 23,
            TokenKindView::Eq => 24,
            TokenKindView::Ne => 25,
            TokenKindView::Lt => 26,
            TokenKindView::Le => 27,
            TokenKindView::Gt => 28,
            TokenKindView::Ge => 29,
            TokenKindView::RegexEq => 30,
            TokenKindView::Arrow => 31,
            TokenKindView::LArrow => 32,
            TokenKindView::Eof => 33,
        }
    }
}

impl TokenKind {
    /// How error messages name this token.
    pub fn describe(&self) -> (r: String)
        ensures
            r@ == self@.described(),
    {
        match self {
            TokenKind::Ident { name, .. } => text::join3("'", name.as_str(), "'"),
            TokenKind::Integer(n) => text::join2("integer ", text::int_text(*n).as_str()),
            TokenKind::IntegerTooLarge(n) => text::join2(
                "integer ",
                text::decimal_text(*n).as_str(),
            ),
            TokenKind::Float(bits) => text::join2(
                "float ",
                decimal::show(*bits).as_str(),
            ),
            TokenKind::Str(_) => "string literal".to_owned(),
            TokenKind::Parameter(name) => text::join2("parameter $", name.as_str()),
            TokenKind::LParen => "'('".to_owned(),
            TokenKind::RParen => "')'".to_owned(),
            TokenKind::LBracket => "'['".to_owned(),
            TokenKind::RBracket => "']'".to_owned(),
            TokenKind::LBrace => "'{'".to_owned(),
            TokenKind::RBrace => "'}'".to_owned(),
            TokenKind::Comma => "','".to_owned(),
            TokenKind::Dot => "'.'".to_owned(),
            TokenKind::DotDot => "'..'".to_owned(),
            TokenKind::Colon => "':'".to_owned(),
            TokenKind::Semicolon => "';'".to_owned(),
            TokenKind::Pipe => "'|'".to_owned(),
            TokenKind::Star => "'*'".to_owned(),
            TokenKind::Plus => "'+'".to_owned(),
            TokenKind::Minus => "'-'".to_owned(),
            TokenKind::Slash => "'/'".to_owned(),
            TokenKind::Percent => "'%'".to_owned(),
            TokenKind::Caret => "'^'".to_owned(),
            TokenKind::Eq => "'='".to_owned(),
            TokenKind::Ne => "'<>'".to_owned(),
            TokenKind::Lt => "'<'".to_owned(),
            TokenKind::Le => "'<='".to_owned(),
            TokenKind::Gt => "'>'".to_owned(),
            TokenKind::Ge => "'>='".to_owned(),
            TokenKind::RegexEq => "'=~'".to_owned(),
            TokenKind::Arrow => "'->'".to_owned(),
            TokenKind::LArrow => "'<-'".to_owned(),
            TokenKind::Eof => "end of input".to_owned(),
        }
    }

    fn code(&self) -> (r: u8)
        ensures
            r == self@.code(),
    {
        match self {
            TokenKind::Ident { .. } => 0,
            TokenKind::Integer(_) => 1,
            TokenKind::IntegerTooLarge(_) => 2,
            TokenKind::Float(_) => 3,
            TokenKind::Str(_) => 4,
            TokenKind::Parameter(_) => 5,
            TokenKind::LParen => 6,
            TokenKind::RParen => 7,
            TokenKind::LBracket => 8,
            TokenKind::RBracket => 9,
            TokenKind::LBrace => 10,
            TokenKind::RBrace => 11,
            TokenKind::Comma => 12,
            TokenKind::Dot => 13,
            TokenKind::DotDot => 14,
            TokenKind::Colon => 15,
            TokenKind::Semicolon => 16,
            TokenKind::Pipe => 17,
            TokenKind::Star => 18,
            TokenKind::Plus => 19,
            TokenKind::Minus => 20,
            TokenKind::Slash => 21,
            TokenKind::Percent => 22,
            TokenKind::Caret => 23,
            TokenKind::Eq => 24,
            TokenKind::Ne => 25,
            TokenKind::Lt => 26,
            TokenKind::Le => 27,
            TokenKind::Gt => 28,
            TokenKind::Ge => 29,
            TokenKind::RegexEq => 30,
            TokenKind::Arrow => 31,
            TokenKind::LArrow => 32,
            TokenKind::Eof => 33,
        }
    }

    /// Whether this token is the mark `other`.
    pub(crate) fn is(&self, other: &TokenKind) -> (r: bool)
        requires
            other@.is_mark(),
        ensures
            r == (self@ == other@),
    {
        self.code() == other.code()
    }
}

} // verus!
