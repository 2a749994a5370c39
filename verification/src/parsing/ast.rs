use vstd::prelude::*;
use crate::parsing::lexer::Token;

verus! {

/// One variant of an enumeration: its name and its ordered fields.
#[derive(Debug)]
pub struct EnumVariant {
    pub name: Token,
    pub fields: Vec<Token>,
}

#[derive(Debug)]
pub enum Stmt {
    Print(Token, Expr),
    VarDeclaration(Token, Option<Expr>),
    Assignment(Token, Expr),
    PropertyAssignment(Expr, Expr),
    Expression(Expr),
    Assert(Token, Expr),
    Pass(Token),
    FunctionDeclaration { name: Token, args: Vec<Token>, vararg: Option<Token>, body: Expr },
    StructDeclaration { name: Token, fields: Vec<Token> },
    EnumDeclaration { name: Token, variants: Vec<EnumVariant> },
    ImplBlock { name: Token, implementations: Vec<Stmt> },
}

#[derive(Debug)]
pub enum Expr {
    Number(Token),
    ConstString(Token),
    Name(Token),
    Binary(Token, Box<Expr>, Box<Expr>),
    Unary(Token, Box<Expr>),
    If(Box<Expr>, Box<Expr>, Option<Box<Expr>>),
    Block(Token, Token, Vec<Stmt>),
    SingleStatement(Box<Stmt>),
    Call(Box<Expr>, Vec<Expr>),
    PartialCall(Box<Expr>, Vec<Option<Expr>>),
    PropertyAccess(Box<Expr>, Token),
    PropertyTest(Box<Expr>, Token),
    AnonFunction(Vec<Token>, Option<Token>, Token, Box<Expr>),
}

/// The root of a program: always a block.
pub type Program = Expr;

} // verus!
