use vstd::prelude::*;
use vstd::string::StringExecFns;
use crate::text::{decimal, render_u64};

verus! {

/// Where a token starts in the source text. Lines and columns count from 1.
#[derive(Clone, Copy, Debug, PartialEq, Eq, Structural)]
pub struct Position {
    pub line: u32,
    pub column: u32,
}

impl Position {
    /// How a position reads in a message: line, colon, column.
    pub open spec fn spec_to_string(self) -> Seq<char> {
        decimal(self.line as nat) + ":"@ + decimal(self.column as nat)
    }

    pub fn to_string(self) -> (text: String)
        ensures
            text@ == self.spec_to_string(),
    {
        let mut text = render_u64(self.line as u64);
        text.append(":");
        let column = render_u64(self.column as u64);
        text.append(column.as_str());
        text
    }
}

/// What a token is. Names, numbers and string literals carry their payload.
#[derive(Debug)]
pub enum TokenKind {
    Var,
    Def,
    Struct,
    Enum,
    Impl,
    Print,
    Assert,
    Pass,
    If,
    Then,
    ELif,
    Else,
    And,
    Or,
    Not,
    BeginBlock,
    EndBlock,
    LineEnd,
    Equals,
    Colon,
    LParen,
    RParen,
    Comma,
    Dot,
    QuestionMark,
    Blank,
    Arrow,
    CompareEquals,
    CompareNotEquals,
    CompareGreater,
    CompareGreaterEqual,
    CompareLess,
    CompareLessEqual,
    Plus,
    Minus,
    Star,
    Slash,
    Mod,
    Power,
    Number(i64),
    Name(String),
    ConstString(String),
}

/// A token: its kind and the place it was read at.
#[derive(Debug)]
pub struct Token {
    pub kind: TokenKind,
    pub position: Position,
}

impl Clone for TokenKind {
    fn clone(&self) -> (copy: TokenKind)
        ensures
            copy == *self,
    {
        match self {
            TokenKind::Var => TokenKind::Var,
            TokenKind::Def => TokenKind::Def,
            TokenKind::Struct => TokenKind::Struct,
            TokenKind::Enum => TokenKind::Enum,
            TokenKind::Impl => TokenKind::Impl,
            TokenKind::Print => TokenKind::Print,
            TokenKind::Assert => TokenKind::Assert,
            TokenKind::Pass => TokenKind::Pass,
            TokenKind::If => TokenKind::If,
            TokenKind::Then => TokenKind::Then,
            TokenKind::ELif => TokenKind::ELif,
            TokenKind::Else => TokenKind::Else,
            TokenKind::And => TokenKind::And,
            TokenKind::Or => TokenKind::Or,
            TokenKind::Not => TokenKind::Not,
            TokenKind::BeginBlock => TokenKind::BeginBlock,
            TokenKind::EndBlock => TokenKind::EndBlock,
            TokenKind::LineEnd => TokenKind::LineEnd,
            TokenKind::Equals => TokenKind::Equals,
            TokenKind::Colon => TokenKind::Colon,
            TokenKind::LParen => TokenKind::LParen,
            TokenKind::RParen => TokenKind::RParen,
            TokenKind::Comma => TokenKind::Comma,
            TokenKind::Dot => TokenKind::Dot,
            TokenKind::QuestionMark => TokenKind::QuestionMark,
            TokenKind::Blank => TokenKind::Blank,
            TokenKind::Arrow => TokenKind::Arrow,
            TokenKind::CompareEquals => TokenKind::CompareEquals,
            TokenKind::CompareNotEquals => TokenKind::CompareNotEquals,
            TokenKind::CompareGreater => TokenKind::CompareGreater,
            TokenKind::CompareGreaterEqual => TokenKind::CompareGreaterEqual,
            TokenKind::CompareLess => TokenKind::CompareLess,
            TokenKind::CompareLessEqual => TokenKind::CompareLessEqual,
            TokenKind::Plus => TokenKind::Plus,
            TokenKind::Minus => TokenKind::Minus,
            TokenKind::Star => TokenKind::Star,
            TokenKind::Slash => TokenKind::Slash,
            TokenKind::Mod => TokenKind::Mod,
            TokenKind::Power => TokenKind::Power,
            TokenKind::Number(n) => TokenKind::Number(*n),
            TokenKind::Name(s) => TokenKind::Name(s.clone()),
            TokenKind::ConstString(s) => TokenKind::ConstString(s.clone()),
        }
    }
}

impl Clone for Token {
    fn clone(&self) -> (copy: Token)
        ensures
            copy == *self,
    {
        Token { kind: self.kind.clone(), position: self.position }
    }
}

impl Token {
    /// The text that a name or a string literal carries; nothing for any other token.
    pub open spec fn text(self) -> Option<Seq<char>> {
        match self.kind {
            TokenKind::Name(s) => Some(s@),
            TokenKind::ConstString(s) => Some(s@),
            _ => None,
        }
    }

    /// The name that a token declares or refers to: its text, or the empty
    /// name where it carries none.
    pub open spec fn name(self) -> Seq<char> {
        match self.text() {
            Some(s) => s,
            None => Seq::empty(),
        }
    }

    /// Whether two tokens carry the same name.
    pub fn same_name(&self, other: &Token) -> (same: bool)
        ensures
            same == (self.name() == other.name()),
    {
        match (self.get_string(), other.get_string()) {
            (Some(a), Some(b)) => {
                let x = String::from_str(a);
                let y = String::from_str(b);
                x == y
            },
            (Some(a), None) => {
                let empty = a.unicode_len() == 0;
                assert(empty == (a@ =~= Seq::<char>::empty()));
                empty
            },
            (None, Some(b)) => {
                let empty = b.unicode_len() == 0;
                assert(empty == (b@ =~= Seq::<char>::empty()));
                empty
            },
            (None, None) => true,
        }
    }

    /// The token's name as text.
    pub fn name_string(&self) -> (text: String)
        ensures
            text@ == self.name(),
    {
        match self.get_string() {
            Some(s) => String::from_str(s),
            None => String::new(),
        }
    }

    pub fn get_string(&self) -> (text: Option<&str>)
        ensures
            text is Some == self.text() is Some,
            text is Some ==> text.unwrap()@ == self.text().unwrap(),
    {
        match &self.kind {
            TokenKind::Name(s) => Some(s.as_str()),
            TokenKind::ConstString(s) => Some(s.as_str()),
            _ => None,
        }
    }
}

} // verus!
