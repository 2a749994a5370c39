use vstd::prelude::*;
use crate::parsing::ast::{EnumVariant, Expr, Stmt};
use crate::parsing::lexer::{Token, TokenKind};

verus! {

/// An expression with its parts as plain sequences.
pub enum ExprModel {
    Number(Token),
    ConstString(Token),
    Name(Token),
    Binary(Token, Box<ExprModel>, Box<ExprModel>),
    Unary(Token, Box<ExprModel>),
    If(Box<ExprModel>, Box<ExprModel>, Option<Box<ExprModel>>),
    Block(Token, Token, Seq<StmtModel>),
    SingleStatement(Box<StmtModel>),
    Call(Box<ExprModel>, Seq<ExprModel>),
    PartialCall(Box<ExprModel>, Seq<Option<ExprModel>>),
    PropertyAccess(Box<ExprModel>, Token),
    PropertyTest(Box<ExprModel>, Token),
    AnonFunction(Seq<Token>, Option<Token>, Token, Box<ExprModel>),
}

/// A statement with its parts as plain sequences.
pub enum StmtModel {
    Print(Token, ExprModel),
    VarDeclaration(Token, Option<ExprModel>),
    Assignment(Token, ExprModel),
    PropertyAssignment(ExprModel, ExprModel),
    Expression(ExprModel),
    Assert(Token, ExprModel),
    Pass(Token),
    FunctionDeclaration { name: Token, args: Seq<Token>, vararg: Option<Token>, body: ExprModel },
    StructDeclaration { name: Token, fields: Seq<Token> },
    EnumDeclaration { name: Token, variants: Seq<(Token, Seq<Token>)> },
    ImplBlock { name: Token, implementations: Seq<StmtModel> },
}

/// An expression as plain sequences.
pub open spec fn expr_model(e: Expr) -> ExprModel
    decreases e, 0nat,
{
    match e {
        Expr::Number(token) => ExprModel::Number(token),
        Expr::ConstString(token) => ExprModel::ConstString(token),
        Expr::Name(token) => ExprModel::Name(token),
        Expr::Binary(op, lhs, rhs) => ExprModel::Binary(
            op,
            Box::new(expr_model(*lhs)),
            Box::new(expr_model(*rhs)),
        ),
        Expr::Unary(op, operand) => ExprModel::Unary(op, Box::new(expr_model(*operand))),
        Expr::If(condition, then_branch, else_branch) => ExprModel::If(
            Box::new(expr_model(*condition)),
            Box::new(expr_model(*then_branch)),
            match else_branch {
                Some(otherwise) => Some(Box::new(expr_model(*otherwise))),
                None => None,
            },
        ),
        Expr::Block(begin, end, stmts) => ExprModel::Block(
            begin,
            end,
            stmt_models(stmts@, stmts@.len()),
        ),
        Expr::SingleStatement(stmt) => ExprModel::SingleStatement(Box::new(stmt_model(*stmt))),
        Expr::Call(callee, args) => ExprModel::Call(
            Box::new(expr_model(*callee)),
            expr_models(args@, args@.len()),
        ),
        Expr::PartialCall(callee, args) => ExprModel::PartialCall(
            Box::new(expr_model(*callee)),
            optional_models(args@, args@.len()),
        ),
        Expr::PropertyAccess(target, name) => ExprModel::PropertyAccess(
            Box::new(expr_model(*target)),
            name,
        ),
        Expr::PropertyTest(target, name) => ExprModel::PropertyTest(
            Box::new(expr_model(*target)),
            name,
        ),
        Expr::AnonFunction(args, vararg, arrow, body) => ExprModel::AnonFunction(
            args@,
            vararg,
            arrow,
            Box::new(expr_model(*body)),
        ),
    }
}

/// A statement as plain sequences.
pub open spec fn stmt_model(s: Stmt) -> StmtModel
    decreases s, 0nat,
{
    match s {
        Stmt::Print(token, e) => StmtModel::Print(token, expr_model(e)),
        Stmt::VarDeclaration(name, initializer) => StmtModel::VarDeclaration(
            name,
            match initializer {
                Some(e) => Some(expr_model(e)),
                None => None,
            },
        ),
        Stmt::Assignment(name, e) => StmtModel::Assignment(name, expr_model(e)),
        Stmt::PropertyAssignment(target, e) => StmtModel::PropertyAssignment(
            expr_model(target),
            expr_model(e),
        ),
        Stmt::Expression(e) => StmtModel::Expression(expr_model(e)),
        Stmt::Assert(token, e) => StmtModel::Assert(token, expr_model(e)),
        Stmt::Pass(token) => StmtModel::Pass(token),
        Stmt::FunctionDeclaration { name, args, vararg, body } => StmtModel::FunctionDeclaration {
            name,
            args: args@,
            vararg,
            body: expr_model(body),
        },
        Stmt::StructDeclaration { name, fields } => StmtModel::StructDeclaration {
            name,
            fields: fields@,
        },
        Stmt::EnumDeclaration { name, variants } => StmtModel::EnumDeclaration {
            name,
            variants: variant_models(variants@),
        },
        Stmt::ImplBlock { name, implementations } => StmtModel::ImplBlock {
            name,
            implementations: stmt_models(implementations@, implementations@.len()),
        },
    }
}

/// The names and the fields of variants.
pub open spec fn variant_models(variants: Seq<EnumVariant>) -> Seq<(Token, Seq<Token>)> {
    Seq::new(variants.len(), |i: int| (variants[i].name, variants[i].fields@))
}

/// The tests and branches of the first `n` of `branches` as plain sequences.
pub open spec fn branch_models(branches: Seq<(Expr, Expr)>, n: nat) -> Seq<(ExprModel, ExprModel)>
    decreases n,
{
    if n == 0 || n > branches.len() {
        Seq::empty()
    } else {
        branch_models(branches, (n - 1) as nat).push(
            (expr_model(branches[n - 1].0), expr_model(branches[n - 1].1)),
        )
    }
}

/// The first `n` of `stmts` as plain sequences.
pub open spec fn stmt_models(stmts: Seq<Stmt>, n: nat) -> Seq<StmtModel>
    decreases stmts, n,
{
    if n == 0 || n > stmts.len() {
        Seq::empty()
    } else {
        stmt_models(stmts, (n - 1) as nat).push(stmt_model(stmts[n - 1]))
    }
}

/// The first `n` of `exprs` as plain sequences.
pub open spec fn expr_models(exprs: Seq<Expr>, n: nat) -> Seq<ExprModel>
    decreases exprs, n,
{
    if n == 0 || n > exprs.len() {
        Seq::empty()
    } else {
        expr_models(exprs, (n - 1) as nat).push(expr_model(exprs[n - 1]))
    }
}

/// The first `n` of `exprs`, of which some are missing, as plain sequences.
pub open spec fn optional_models(exprs: Seq<Option<Expr>>, n: nat) -> Seq<Option<ExprModel>>
    decreases exprs, n,
{
    if n == 0 || n > exprs.len() {
        Seq::empty()
    } else {
        optional_models(exprs, (n - 1) as nat).push(
            match exprs[n - 1] {
                Some(e) => Some(expr_model(e)),
                None => None,
            },
        )
    }
}

/// Whether the token at `pos` is of the kind `kind`, which carries nothing.
pub open spec fn is_at(tokens: Seq<Token>, pos: nat, kind: TokenKind) -> bool {
    pos < tokens.len() && tokens[pos as int].kind == kind
}

/// The position after the line end at `pos`, or `pos` where there is none.
pub open spec fn skip_line_end(tokens: Seq<Token>, pos: nat) -> nat {
    if is_at(tokens, pos, TokenKind::LineEnd) {
        pos + 1
    } else {
        pos
    }
}

/// The name at `pos`.
pub open spec fn name_at(tokens: Seq<Token>, pos: nat) -> Option<(Token, nat)> {
    if pos < tokens.len() && tokens[pos as int].kind is Name {
        Some((tokens[pos as int], pos + 1))
    } else {
        None
    }
}

/// More names after `pos`, each after a token of the kind `separator`.
pub open spec fn more_names(tokens: Seq<Token>, pos: nat, separator: TokenKind) -> (Seq<Token>, nat)
    decreases tokens.len() - pos,
{
    if is_at(tokens, pos, separator) {
        match name_at(tokens, pos + 1) {
            Some((name, after)) => {
                let (rest, end) = more_names(tokens, after, separator);
                (seq![name] + rest, end)
            },
            None => (Seq::empty(), pos),
        }
    } else {
        (Seq::empty(), pos)
    }
}

/// Names from `pos` on with a token of the kind `separator` between each
/// two; there may be none.
pub open spec fn names_from(tokens: Seq<Token>, pos: nat, separator: TokenKind) -> (Seq<Token>, nat) {
    match name_at(tokens, pos) {
        Some((name, after)) => {
            let (rest, end) = more_names(tokens, after, separator);
            (seq![name] + rest, end)
        },
        None => (Seq::empty(), pos),
    }
}

/// The parameter that takes the surplus arguments: a star and a name.
pub open spec fn vararg_at(tokens: Seq<Token>, pos: nat) -> Option<(Token, nat)> {
    if is_at(tokens, pos, TokenKind::Star) {
        name_at(tokens, pos + 1)
    } else {
        None
    }
}

/// The position after the `then` at `pos`, or `pos` where there is none.
pub open spec fn skip_then(tokens: Seq<Token>, pos: nat) -> nat {
    if is_at(tokens, pos, TokenKind::Then) {
        pos + 1
    } else {
        pos
    }
}

/// The position after the comma at `pos`, or `pos` where there is none.
pub open spec fn skip_comma(tokens: Seq<Token>, pos: nat) -> nat {
    if is_at(tokens, pos, TokenKind::Comma) {
        pos + 1
    } else {
        pos
    }
}

/// A list of parameters in parentheses: names with commas between them,
/// then, after a comma, one that takes the surplus arguments; or names
/// only; or the one that takes the surplus arguments only. A comma may
/// stand before the closing parenthesis.
pub open spec fn parameters_at(tokens: Seq<Token>, pos: nat) -> Option<
    (Seq<Token>, Option<Token>, nat),
> {
    if !is_at(tokens, pos, TokenKind::LParen) {
        None
    } else {
        let (names, after) = names_from(tokens, pos + 1, TokenKind::Comma);
        let with_rest = if is_at(tokens, after, TokenKind::Comma) {
            match vararg_at(tokens, after + 1) {
                Some((rest, end)) => if is_at(
                    tokens,
                    skip_comma(tokens, end),
                    TokenKind::RParen,
                ) {
                    Some((names, Some(rest), skip_comma(tokens, end) + 1))
                } else {
                    None
                },
                None => None,
            }
        } else {
            None
        };
        match with_rest {
            Some(found) => Some(found),
            None => if is_at(tokens, skip_comma(tokens, after), TokenKind::RParen) {
                Some((names, None, skip_comma(tokens, after) + 1))
            } else {
                match vararg_at(tokens, pos + 1) {
                    Some((rest, end)) => if is_at(
                        tokens,
                        skip_comma(tokens, end),
                        TokenKind::RParen,
                    ) {
                        Some((Seq::empty(), Some(rest), skip_comma(tokens, end) + 1))
                    } else {
                        None
                    },
                    None => None,
                }
            },
        }
    }
}

/// The names of a struct's fields in a block, with the tokens of the kind
/// `separator` between them.
pub open spec fn fields_at(tokens: Seq<Token>, pos: nat, separator: TokenKind) -> Option<
    (Seq<Token>, nat),
> {
    if !is_at(tokens, pos, TokenKind::BeginBlock) {
        None
    } else {
        let (names, after) = names_from(tokens, skip_line_end(tokens, pos + 1), separator);
        if is_at(tokens, skip_line_end(tokens, after), TokenKind::EndBlock) {
            Some((names, skip_line_end(tokens, after) + 1))
        } else {
            None
        }
    }
}

/// The names of a struct's fields in a block: one to a line, or else with
/// commas between them.
pub open spec fn field_block_at(tokens: Seq<Token>, pos: nat) -> Option<(Seq<Token>, nat)> {
    match fields_at(tokens, pos, TokenKind::LineEnd) {
        Some(found) => Some(found),
        None => fields_at(tokens, pos, TokenKind::Comma),
    }
}

/// A name, and after a colon the block of its fields, if any.
pub open spec fn shape_at(tokens: Seq<Token>, pos: nat) -> Option<(Token, Seq<Token>, nat)> {
    match name_at(tokens, pos) {
        Some((name, after)) => if is_at(tokens, after, TokenKind::Colon) {
            match field_block_at(tokens, after + 1) {
                Some((fields, end)) => Some((name, fields, end)),
                None => Some((name, Seq::empty(), after)),
            }
        } else {
            Some((name, Seq::empty(), after))
        },
        None => None,
    }
}

/// More variants after `pos`, each after a line end.
pub open spec fn more_shapes(tokens: Seq<Token>, pos: nat) -> (Seq<(Token, Seq<Token>)>, nat)
    decreases tokens.len() - pos,
{
    if is_at(tokens, pos, TokenKind::LineEnd) {
        match shape_at(tokens, pos + 1) {
            Some((name, fields, after)) => if pos < after <= tokens.len() {
                let (rest, end) = more_shapes(tokens, after);
                (seq![(name, fields)] + rest, end)
            } else {
                (Seq::empty(), pos)
            },
            None => (Seq::empty(), pos),
        }
    } else {
        (Seq::empty(), pos)
    }
}

/// The variants of an enumeration in a block, one to a line.
pub open spec fn variant_block_at(tokens: Seq<Token>, pos: nat) -> Option<
    (Seq<(Token, Seq<Token>)>, nat),
> {
    if !is_at(tokens, pos, TokenKind::BeginBlock) {
        None
    } else {
        let start = skip_line_end(tokens, pos + 1);
        let (variants, after) = match shape_at(tokens, start) {
            Some((name, fields, next)) => {
                let (rest, end) = more_shapes(tokens, next);
                (seq![(name, fields)] + rest, end)
            },
            None => (Seq::empty(), start),
        };
        if is_at(tokens, skip_line_end(tokens, after), TokenKind::EndBlock) {
            Some((variants, skip_line_end(tokens, after) + 1))
        } else {
            None
        }
    }
}

/// The precedence levels of the operators, from the loosest to the
/// tightest: `or`; `and`; `not`; equality; ordering; sums; products;
/// powers. What follows the levels is a call.
pub open spec fn level_of(kind: TokenKind) -> Option<nat> {
    match kind {
        TokenKind::Or => Some(0),
        TokenKind::And => Some(1),
        TokenKind::Not => Some(2),
        TokenKind::CompareEquals => Some(3),
        TokenKind::CompareNotEquals => Some(3),
        TokenKind::CompareGreater => Some(4),
        TokenKind::CompareGreaterEqual => Some(4),
        TokenKind::CompareLess => Some(4),
        TokenKind::CompareLessEqual => Some(4),
        TokenKind::Plus => Some(5),
        TokenKind::Minus => Some(5),
        TokenKind::Star => Some(6),
        TokenKind::Slash => Some(6),
        TokenKind::Mod => Some(6),
        TokenKind::Power => Some(7),
        _ => None,
    }
}

/// Whether the token at `pos` is an operator of the level `level`.
pub open spec fn operator_at(tokens: Seq<Token>, pos: nat, level: nat) -> bool {
    pos < tokens.len() && level_of(tokens[pos as int].kind) == Some(level)
}

/// The rank of a rule among the rules that can start at one position: a
/// rule calls only rules of a lower rank without a token in between.
pub open spec fn rank_expr() -> nat {
    25
}

pub open spec fn rank_simple() -> nat {
    20
}

pub open spec fn rank_level(level: nat) -> nat {
    if level <= 8 {
        (18 - level) as nat
    } else {
        10
    }
}

pub open spec fn rank_call() -> nat {
    5
}

pub open spec fn rank_term() -> nat {
    1
}

/// An expression: a block, a conditional, or a simple expression.
pub open spec fn expr_at(tokens: Seq<Token>, pos: nat) -> Option<(ExprModel, nat)>
    decreases tokens.len() - pos, rank_expr(), 0nat,
{
    if pos >= tokens.len() {
        None
    } else if is_at(tokens, pos, TokenKind::BeginBlock) {
        match block_at(tokens, pos) {
            Some(found) => Some(found),
            None => simple_at(tokens, pos),
        }
    } else if is_at(tokens, pos, TokenKind::If) {
        match if_at(tokens, pos) {
            Some(found) => Some(found),
            None => simple_at(tokens, pos),
        }
    } else {
        simple_at(tokens, pos)
    }
}

/// A block: what opens it, statements with line ends between them, and
/// what closes it. A line end may stand after the opening and before the
/// closing.
pub open spec fn block_at(tokens: Seq<Token>, pos: nat) -> Option<(ExprModel, nat)>
    decreases tokens.len() - pos, rank_simple(), 5nat,
{
    if !is_at(tokens, pos, TokenKind::BeginBlock) {
        None
    } else {
        let start = skip_line_end(tokens, pos + 1);
        let (stmts, after) = stmts_from(tokens, start);
        let close = skip_line_end(tokens, after);
        if is_at(tokens, close, TokenKind::EndBlock) {
            Some((ExprModel::Block(tokens[pos as int], tokens[close as int], stmts), close + 1))
        } else {
            None
        }
    }
}

/// Statements from `pos` on with line ends between them; there may be none.
pub open spec fn stmts_from(tokens: Seq<Token>, pos: nat) -> (Seq<StmtModel>, nat)
    decreases tokens.len() - pos, 45nat, 0nat,
{
    match stmt_at(tokens, pos) {
        Some((first, next)) => if pos < next <= tokens.len() {
            let (rest, end) = more_stmts(tokens, next);
            (seq![first] + rest, end)
        } else {
            (Seq::empty(), pos)
        },
        None => (Seq::empty(), pos),
    }
}

/// More statements after `pos`, each after a line end.
pub open spec fn more_stmts(tokens: Seq<Token>, pos: nat) -> (Seq<StmtModel>, nat)
    decreases tokens.len() - pos, 46nat, 0nat,
{
    if is_at(tokens, pos, TokenKind::LineEnd) {
        match stmt_at(tokens, pos + 1) {
            Some((stmt, after)) => if pos < after <= tokens.len() {
                let (rest, end) = more_stmts(tokens, after);
                (seq![stmt] + rest, end)
            } else {
                (Seq::empty(), pos)
            },
            None => (Seq::empty(), pos),
        }
    } else {
        (Seq::empty(), pos)
    }
}

/// The declaration of a variable: `var`, the name, and after an equals
/// sign the initializer, if any.
pub open spec fn variable_at(tokens: Seq<Token>, pos: nat) -> Option<(StmtModel, nat)>
    decreases tokens.len() - pos, 28nat, 0nat,
{
    if !is_at(tokens, pos, TokenKind::Var) {
        None
    } else {
        match name_at(tokens, pos + 1) {
            Some((name, after)) => if is_at(tokens, after, TokenKind::Equals) {
                match expr_at(tokens, after + 1) {
                    Some((e, end)) => Some((StmtModel::VarDeclaration(name, Some(e)), end)),
                    None => Some((StmtModel::VarDeclaration(name, None), after)),
                }
            } else {
                Some((StmtModel::VarDeclaration(name, None), after))
            },
            None => None,
        }
    }
}

/// The declaration of a struct or of an enumeration: `struct`, the name,
/// and after a colon the block of the fields, if any; or `enum`, the name,
/// and after a colon the block of the variants, if any.
pub open spec fn type_at(tokens: Seq<Token>, pos: nat) -> Option<(StmtModel, nat)> {
    if is_at(tokens, pos, TokenKind::Struct) {
        match shape_at(tokens, pos + 1) {
            Some((name, fields, end)) => Some((StmtModel::StructDeclaration { name, fields }, end)),
            None => None,
        }
    } else if is_at(tokens, pos, TokenKind::Enum) {
        match name_at(tokens, pos + 1) {
            Some((name, after)) => if is_at(tokens, after, TokenKind::Colon) {
                match variant_block_at(tokens, after + 1) {
                    Some((variants, end)) => Some(
                        (StmtModel::EnumDeclaration { name, variants }, end),
                    ),
                    None => Some(
                        (StmtModel::EnumDeclaration { name, variants: Seq::empty() }, after),
                    ),
                }
            } else {
                Some((StmtModel::EnumDeclaration { name, variants: Seq::empty() }, after))
            },
            None => None,
        }
    } else {
        None
    }
}

/// An implementation block: `impl`, the name, a colon, and the block of
/// the methods.
pub open spec fn implementation_at(tokens: Seq<Token>, pos: nat) -> Option<(StmtModel, nat)>
    decreases tokens.len() - pos, 43nat, 0nat,
{
    if !is_at(tokens, pos, TokenKind::Impl) {
        None
    } else {
        match name_at(tokens, pos + 1) {
            Some((name, after)) => if is_at(tokens, after, TokenKind::Colon) {
                match method_block_at(tokens, after + 1) {
                    Some((implementations, end)) => Some(
                        (StmtModel::ImplBlock { name, implementations }, end),
                    ),
                    None => None,
                }
            } else {
                None
            },
            None => None,
        }
    }
}

/// A statement of one keyword and at most one expression: an assertion,
/// `pass`, or a print.
pub open spec fn keyword_at(tokens: Seq<Token>, pos: nat) -> Option<(StmtModel, nat)>
    decreases tokens.len() - pos, 28nat, 0nat,
{
    if is_at(tokens, pos, TokenKind::Assert) {
        match expr_at(tokens, pos + 1) {
            Some((e, end)) => Some((StmtModel::Assert(tokens[pos as int], e), end)),
            None => None,
        }
    } else if is_at(tokens, pos, TokenKind::Pass) {
        Some((StmtModel::Pass(tokens[pos as int]), pos + 1))
    } else if is_at(tokens, pos, TokenKind::Print) {
        match expr_at(tokens, pos + 1) {
            Some((e, end)) => Some((StmtModel::Print(tokens[pos as int], e), end)),
            None => None,
        }
    } else {
        None
    }
}

/// A statement: a declaration of a variable, of a function, of a struct or
/// of an enumeration, an implementation block, an assignment, an
/// assertion, `pass`, a print, or an expression, in this order of
/// preference.
pub open spec fn stmt_at(tokens: Seq<Token>, pos: nat) -> Option<(StmtModel, nat)>
    decreases tokens.len() - pos, 44nat, 0nat,
{
    if pos >= tokens.len() {
        None
    } else {
        let special = if variable_at(tokens, pos) is Some {
            variable_at(tokens, pos)
        } else if function_at(tokens, pos) is Some {
            function_at(tokens, pos)
        } else if type_at(tokens, pos) is Some {
            type_at(tokens, pos)
        } else if implementation_at(tokens, pos) is Some {
            implementation_at(tokens, pos)
        } else if assignment_at(tokens, pos) is Some {
            assignment_at(tokens, pos)
        } else {
            keyword_at(tokens, pos)
        };
        match special {
            Some(found) => Some(found),
            None => match expr_at(tokens, pos) {
                Some((e, end)) => Some((StmtModel::Expression(e), end)),
                None => None,
            },
        }
    }
}

/// An assignment to a property: a call that ends in a property, the
/// equals sign, and an expression.
pub open spec fn property_assignment_at(tokens: Seq<Token>, pos: nat) -> Option<(StmtModel, nat)>
    decreases tokens.len() - pos, rank_call() + 1, 0nat,
{
    match call_at(tokens, pos) {
        Some((target, after)) => if target is PropertyAccess && is_at(
            tokens,
            after,
            TokenKind::Equals,
        ) && after + 1 > pos {
            match expr_at(tokens, after + 1) {
                Some((e, end)) => Some((StmtModel::PropertyAssignment(target, e), end)),
                None => None,
            }
        } else {
            None
        },
        None => None,
    }
}

/// An assignment: to a property of a value, or else to a name, which is
/// the name, the equals sign, and an expression.
pub open spec fn assignment_at(tokens: Seq<Token>, pos: nat) -> Option<(StmtModel, nat)>
    decreases tokens.len() - pos, rank_call() + 2, 0nat,
{
    match property_assignment_at(tokens, pos) {
        Some(found) => Some(found),
        None => match name_at(tokens, pos) {
            Some((name, after)) => if is_at(tokens, after, TokenKind::Equals) {
                match expr_at(tokens, after + 1) {
                    Some((e, end)) => Some((StmtModel::Assignment(name, e), end)),
                    None => None,
                }
            } else {
                None
            },
            None => None,
        },
    }
}

/// The declaration of a function: `def`, the name, the parameters in
/// parentheses, if any, the equals sign, and the body.
pub open spec fn function_at(tokens: Seq<Token>, pos: nat) -> Option<(StmtModel, nat)>
    decreases tokens.len() - pos, rank_simple(), 6nat,
{
    if !is_at(tokens, pos, TokenKind::Def) {
        None
    } else {
        match name_at(tokens, pos + 1) {
            Some((name, after)) => {
                let head = match parameters_at(tokens, after) {
                    Some((args, vararg, next)) => if is_at(tokens, next, TokenKind::Equals) {
                        Some((args, vararg, next + 1))
                    } else {
                        None
                    },
                    None => None,
                };
                let head = match head {
                    Some(found) => Some(found),
                    None => if is_at(tokens, after, TokenKind::Equals) {
                        Some((Seq::empty(), None, after + 1))
                    } else {
                        None
                    },
                };
                match head {
                    Some((args, vararg, start)) => if start > pos {
                        match expr_at(tokens, start) {
                            Some((body, end)) => Some(
                                (StmtModel::FunctionDeclaration { name, args, vararg, body }, end),
                            ),
                            None => None,
                        }
                    } else {
                        None
                    },
                    None => None,
                }
            },
            None => None,
        }
    }
}

/// Methods from `pos` on with line ends between them; there may be none.
pub open spec fn methods_from(tokens: Seq<Token>, pos: nat) -> (Seq<StmtModel>, nat)
    decreases tokens.len() - pos, 41nat, 0nat,
{
    match function_at(tokens, pos) {
        Some((first, next)) => if pos < next <= tokens.len() {
            let (rest, end) = more_methods(tokens, next);
            (seq![first] + rest, end)
        } else {
            (Seq::empty(), pos)
        },
        None => (Seq::empty(), pos),
    }
}

/// More methods after `pos`, each after a line end.
pub open spec fn more_methods(tokens: Seq<Token>, pos: nat) -> (Seq<StmtModel>, nat)
    decreases tokens.len() - pos, 40nat, 0nat,
{
    if is_at(tokens, pos, TokenKind::LineEnd) {
        match function_at(tokens, pos + 1) {
            Some((method, after)) => if pos < after <= tokens.len() {
                let (rest, end) = more_methods(tokens, after);
                (seq![method] + rest, end)
            } else {
                (Seq::empty(), pos)
            },
            None => (Seq::empty(), pos),
        }
    } else {
        (Seq::empty(), pos)
    }
}

/// The methods of an implementation block, one to a line.
pub open spec fn method_block_at(tokens: Seq<Token>, pos: nat) -> Option<(Seq<StmtModel>, nat)>
    decreases tokens.len() - pos, 42nat, 0nat,
{
    if !is_at(tokens, pos, TokenKind::BeginBlock) {
        None
    } else {
        let start = skip_line_end(tokens, pos + 1);
        let (methods, after) = methods_from(tokens, start);
        if is_at(tokens, skip_line_end(tokens, after), TokenKind::EndBlock) {
            Some((methods, skip_line_end(tokens, after) + 1))
        } else {
            None
        }
    }
}

/// More branches of a conditional from `pos` on: each is `elif`, a test,
/// `then`, if any, and an expression, with a line end after it, if any. The result is
/// the tests and expressions in order.
pub open spec fn elifs_at(tokens: Seq<Token>, pos: nat) -> (Seq<(ExprModel, ExprModel)>, nat)
    decreases tokens.len() - pos, rank_simple() + 1, 0nat,
{
    if is_at(tokens, pos, TokenKind::ELif) {
        match simple_at(tokens, pos + 1) {
            Some((test, after)) => if pos < after <= tokens.len() {
                match expr_at(tokens, skip_then(tokens, after)) {
                    Some((branch, next)) => if after <= next <= tokens.len() {
                        let (rest, end) = elifs_at(tokens, skip_line_end(tokens, next));
                        (seq![(test, branch)] + rest, end)
                    } else {
                        (Seq::empty(), pos)
                    },
                    None => (Seq::empty(), pos),
                }
            } else {
                (Seq::empty(), pos)
            },
            None => (Seq::empty(), pos),
        }
    } else {
        (Seq::empty(), pos)
    }
}

/// The conditional that `elif` branches from the `n`-th on and a last
/// branch make up: each branch is the second branch of the one before it.
pub open spec fn chain(branches: Seq<(ExprModel, ExprModel)>, n: nat, last: Option<ExprModel>) -> Option<
    Box<ExprModel>,
>
    decreases branches.len() - n,
{
    if n >= branches.len() {
        match last {
            Some(e) => Some(Box::new(e)),
            None => None,
        }
    } else {
        Some(
            Box::new(
                ExprModel::If(
                    Box::new(branches[n as int].0),
                    Box::new(branches[n as int].1),
                    chain(branches, n + 1, last),
                ),
            ),
        )
    }
}

/// A conditional: `if`, a test, `then`, if any, and an expression; then `elif` branches
/// and `else` with an expression; or `elif` branches, at least one; or
/// nothing more.
pub open spec fn if_at(tokens: Seq<Token>, pos: nat) -> Option<(ExprModel, nat)>
    decreases tokens.len() - pos, rank_simple() + 2, 0nat,
{
    if !is_at(tokens, pos, TokenKind::If) {
        None
    } else {
        match simple_at(tokens, pos + 1) {
            Some((test, after)) => if pos < after <= tokens.len() {
                match expr_at(tokens, skip_then(tokens, after)) {
                    Some((then_branch, next)) => if after <= next <= tokens.len() {
                        let (branches, end) = elifs_at(tokens, skip_line_end(tokens, next));
                        let with_else = if is_at(tokens, end, TokenKind::Else) && end > pos {
                            match expr_at(tokens, end + 1) {
                                Some((otherwise, last)) => Some(
                                    (
                                        ExprModel::If(
                                            Box::new(test),
                                            Box::new(then_branch),
                                            chain(branches, 0, Some(otherwise)),
                                        ),
                                        last,
                                    ),
                                ),
                                None => None,
                            }
                        } else {
                            None
                        };
                        match with_else {
                            Some(found) => Some(found),
                            None => if branches.len() > 0 {
                                Some(
                                    (
                                        ExprModel::If(
                                            Box::new(test),
                                            Box::new(then_branch),
                                            chain(branches, 0, None),
                                        ),
                                        end,
                                    ),
                                )
                            } else {
                                Some(
                                    (ExprModel::If(Box::new(test), Box::new(then_branch), None), next),
                                )
                            },
                        }
                    } else {
                        None
                    },
                    None => None,
                }
            } else {
                None
            },
            None => None,
        }
    }
}

/// A simple expression: an anonymous function, which is parameters, an
/// arrow and a simple expression, or an expression of operators.
pub open spec fn simple_at(tokens: Seq<Token>, pos: nat) -> Option<(ExprModel, nat)>
    decreases tokens.len() - pos, rank_simple(), 0nat,
{
    let arrow = match parameters_at(tokens, pos) {
        Some((args, vararg, after)) => if is_at(tokens, after, TokenKind::Arrow) && after + 1 > pos {
            match simple_at(tokens, after + 1) {
                Some((body, end)) => Some(
                    (
                        ExprModel::AnonFunction(args, vararg, tokens[after as int], Box::new(body)),
                        end,
                    ),
                ),
                None => None,
            }
        } else {
            None
        },
        None => None,
    };
    match arrow {
        Some(found) => Some(found),
        None => level_at(tokens, pos, 0),
    }
}

/// An expression of the operators of the level `level` and of the
/// tighter ones. An operator with two operands of a level other than
/// that of the powers takes as its left operand all that stands before it
/// at its level; a power takes as its right operand all that stands after
/// it at its level; `not` takes an operand of the next level.
pub open spec fn level_at(tokens: Seq<Token>, pos: nat, level: nat) -> Option<(ExprModel, nat)>
    decreases tokens.len() - pos, rank_level(level), 0nat,
{
    if level >= 8 {
        call_at(tokens, pos)
    } else if level == 2 {
        if operator_at(tokens, pos, 2) {
            match level_at(tokens, pos + 1, 3) {
                Some((operand, end)) => Some(
                    (ExprModel::Unary(tokens[pos as int], Box::new(operand)), end),
                ),
                None => level_at(tokens, pos, 3),
            }
        } else {
            level_at(tokens, pos, 3)
        }
    } else if level == 7 {
        match level_at(tokens, pos, 8) {
            Some((left, after)) => if operator_at(tokens, after, 7) && pos < after {
                match level_at(tokens, after + 1, 7) {
                    Some((right, end)) => Some(
                        (
                            ExprModel::Binary(tokens[after as int], Box::new(left), Box::new(right)),
                            end,
                        ),
                    ),
                    None => Some((left, after)),
                }
            } else {
                Some((left, after))
            },
            None => None,
        }
    } else {
        match level_at(tokens, pos, level + 1) {
            Some((left, after)) => if pos < after <= tokens.len() {
                Some(operands_at(tokens, after, level, left))
            } else {
                None
            },
            None => None,
        }
    }
}

/// The expression that `left` and the operators of the level `level` from
/// `pos` on make up, each with its right operand of the next level.
pub open spec fn operands_at(tokens: Seq<Token>, pos: nat, level: nat, left: ExprModel) -> (
    ExprModel,
    nat,
)
    decreases tokens.len() - pos, 19nat, 0nat,
{
    if operator_at(tokens, pos, level) && level < 7 {
        match level_at(tokens, pos + 1, level + 1) {
            Some((right, after)) => if pos < after <= tokens.len() {
                operands_at(
                    tokens,
                    after,
                    level,
                    ExprModel::Binary(tokens[pos as int], Box::new(left), Box::new(right)),
                )
            } else {
                (left, pos)
            },
            None => (left, pos),
        }
    } else {
        (left, pos)
    }
}

/// A call: a term, and after it any number of argument lists in
/// parentheses and of properties after a dot or a question mark.
pub open spec fn call_at(tokens: Seq<Token>, pos: nat) -> Option<(ExprModel, nat)>
    decreases tokens.len() - pos, rank_call(), 0nat,
{
    match term_at(tokens, pos) {
        Some((target, after)) => if pos < after <= tokens.len() {
            Some(suffixes_at(tokens, after, target))
        } else {
            None
        },
        None => None,
    }
}

/// The expression that `target` and the argument lists and properties
/// from `pos` on make up.
pub open spec fn suffixes_at(tokens: Seq<Token>, pos: nat, target: ExprModel) -> (ExprModel, nat)
    decreases tokens.len() - pos, 19nat, 1nat,
{
    if is_at(tokens, pos, TokenKind::Dot) {
        match name_at(tokens, pos + 1) {
            Some((name, after)) => suffixes_at(
                tokens,
                after,
                ExprModel::PropertyAccess(Box::new(target), name),
            ),
            None => (target, pos),
        }
    } else if is_at(tokens, pos, TokenKind::QuestionMark) {
        match name_at(tokens, pos + 1) {
            Some((name, after)) => suffixes_at(
                tokens,
                after,
                ExprModel::PropertyTest(Box::new(target), name),
            ),
            None => (target, pos),
        }
    } else if is_at(tokens, pos, TokenKind::LParen) {
        let (args, after) = arguments_at(tokens, pos + 1);
        let close = skip_comma(tokens, after);
        if is_at(tokens, close, TokenKind::RParen) && close > pos {
            suffixes_at(tokens, close + 1, ExprModel::Call(Box::new(target), args))
        } else {
            let (slots, after) = slots_at(tokens, pos + 1);
            let close = skip_comma(tokens, after);
            if is_at(tokens, close, TokenKind::RParen) && close > pos {
                suffixes_at(tokens, close + 1, ExprModel::PartialCall(Box::new(target), slots))
            } else {
                (target, pos)
            }
        }
    } else {
        (target, pos)
    }
}

/// The arguments of a call from `pos` on: simple expressions with commas
/// between them; there may be none.
pub open spec fn arguments_at(tokens: Seq<Token>, pos: nat) -> (Seq<ExprModel>, nat)
    decreases tokens.len() - pos, rank_simple() + 2, 0nat,
{
    match simple_at(tokens, pos) {
        Some((first, after)) => if pos < after <= tokens.len() {
            let (rest, end) = more_arguments(tokens, after);
            (seq![first] + rest, end)
        } else {
            (Seq::empty(), pos)
        },
        None => (Seq::empty(), pos),
    }
}

/// More arguments after `pos`, each after a comma.
pub open spec fn more_arguments(tokens: Seq<Token>, pos: nat) -> (Seq<ExprModel>, nat)
    decreases tokens.len() - pos, rank_simple() + 1, 0nat,
{
    if is_at(tokens, pos, TokenKind::Comma) {
        match simple_at(tokens, pos + 1) {
            Some((arg, after)) => if pos < after <= tokens.len() {
                let (rest, end) = more_arguments(tokens, after);
                (seq![arg] + rest, end)
            } else {
                (Seq::empty(), pos)
            },
            None => (Seq::empty(), pos),
        }
    } else {
        (Seq::empty(), pos)
    }
}

/// An argument of a partial call: a simple expression, or the blank that
/// stands for an argument still to come.
pub open spec fn slot_at(tokens: Seq<Token>, pos: nat) -> Option<(Option<ExprModel>, nat)>
    decreases tokens.len() - pos, rank_simple() + 1, 1nat,
{
    match simple_at(tokens, pos) {
        Some((arg, after)) => Some((Some(arg), after)),
        None => if is_at(tokens, pos, TokenKind::Blank) {
            Some((None, pos + 1))
        } else {
            None
        },
    }
}

/// The arguments of a partial call from `pos` on, with commas between
/// them; there may be none.
pub open spec fn slots_at(tokens: Seq<Token>, pos: nat) -> (Seq<Option<ExprModel>>, nat)
    decreases tokens.len() - pos, rank_simple() + 3, 0nat,
{
    match slot_at(tokens, pos) {
        Some((first, after)) => if pos < after <= tokens.len() {
            let (rest, end) = more_slots(tokens, after);
            (seq![first] + rest, end)
        } else {
            (Seq::empty(), pos)
        },
        None => (Seq::empty(), pos),
    }
}

/// More arguments of a partial call after `pos`, each after a comma.
pub open spec fn more_slots(tokens: Seq<Token>, pos: nat) -> (Seq<Option<ExprModel>>, nat)
    decreases tokens.len() - pos, rank_simple() + 2, 0nat,
{
    if is_at(tokens, pos, TokenKind::Comma) {
        match slot_at(tokens, pos + 1) {
            Some((slot, after)) => if pos < after <= tokens.len() {
                let (rest, end) = more_slots(tokens, after);
                (seq![slot] + rest, end)
            } else {
                (Seq::empty(), pos)
            },
            None => (Seq::empty(), pos),
        }
    } else {
        (Seq::empty(), pos)
    }
}

/// A term: a number, a name, a string, or an expression in parentheses.
pub open spec fn term_at(tokens: Seq<Token>, pos: nat) -> Option<(ExprModel, nat)>
    decreases tokens.len() - pos, rank_term(), 0nat,
{
    if pos >= tokens.len() {
        None
    } else {
        match tokens[pos as int].kind {
            TokenKind::Number(_) => Some((ExprModel::Number(tokens[pos as int]), pos + 1)),
            TokenKind::Name(_) => Some((ExprModel::Name(tokens[pos as int]), pos + 1)),
            TokenKind::ConstString(_) => Some(
                (ExprModel::ConstString(tokens[pos as int]), pos + 1),
            ),
            TokenKind::LParen => match expr_at(tokens, pos + 1) {
                Some((e, after)) => if is_at(tokens, after, TokenKind::RParen) {
                    Some((e, after + 1))
                } else {
                    None
                },
                None => None,
            },
            _ => None,
        }
    }
}

/// The program that tokens make up: one block, and nothing after it.
pub open spec fn program_at(tokens: Seq<Token>) -> Option<ExprModel> {
    match block_at(tokens, 0) {
        Some((program, end)) => if end == tokens.len() {
            Some(program)
        } else {
            None
        },
        None => None,
    }
}

} // verus!
