use vstd::prelude::*;
use crate::data::objects::Value;
use crate::execution::chunk::Opcode;
use crate::execution::vm::{apply_binary, binary_result, RuntimeErrorKind};
use crate::parsing::ast::{EnumVariant, Expr, Stmt};
use crate::parsing::lexer::{Position, Token, TokenKind};

verus! {

/// The instruction that an arithmetic or comparison operator stands for.
pub open spec fn spec_operator_opcode(kind: TokenKind) -> Option<Opcode> {
    match kind {
        TokenKind::Plus => Some(Opcode::Add),
        TokenKind::Minus => Some(Opcode::Sub),
        TokenKind::Star => Some(Opcode::Mul),
        TokenKind::Slash => Some(Opcode::Div),
        TokenKind::Mod => Some(Opcode::Mod),
        TokenKind::Power => Some(Opcode::Power),
        TokenKind::CompareEquals => Some(Opcode::Eq),
        TokenKind::CompareNotEquals => Some(Opcode::Ne),
        TokenKind::CompareGreater => Some(Opcode::Gt),
        TokenKind::CompareGreaterEqual => Some(Opcode::Ge),
        TokenKind::CompareLess => Some(Opcode::Lt),
        TokenKind::CompareLessEqual => Some(Opcode::Le),
        _ => None,
    }
}

pub fn operator_opcode(kind: &TokenKind) -> (opcode: Option<Opcode>)
    ensures
        opcode == spec_operator_opcode(*kind),
{
    match kind {
        TokenKind::Plus => Some(Opcode::Add),
        TokenKind::Minus => Some(Opcode::Sub),
        TokenKind::Star => Some(Opcode::Mul),
        TokenKind::Slash => Some(Opcode::Div),
        TokenKind::Mod => Some(Opcode::Mod),
        TokenKind::Power => Some(Opcode::Power),
        TokenKind::CompareEquals => Some(Opcode::Eq),
        TokenKind::CompareNotEquals => Some(Opcode::Ne),
        TokenKind::CompareGreater => Some(Opcode::Gt),
        TokenKind::CompareGreaterEqual => Some(Opcode::Ge),
        TokenKind::CompareLess => Some(Opcode::Lt),
        TokenKind::CompareLessEqual => Some(Opcode::Le),
        _ => None,
    }
}

/// The integer that a number literal holds.
pub open spec fn spec_literal(e: Expr) -> Option<i64> {
    match e {
        Expr::Number(token) => match token.kind {
            TokenKind::Number(n) => Some(n),
            _ => None,
        },
        _ => None,
    }
}

pub fn literal(e: &Expr) -> (n: Option<i64>)
    ensures
        n == spec_literal(*e),
{
    match e {
        Expr::Number(token) => match token.kind {
            TokenKind::Number(n) => Some(n),
            _ => None,
        },
        _ => None,
    }
}

/// What evaluating an expression over integer literals comes to at run
/// time: the operands are evaluated from left to right, the first failure
/// ends the evaluation, `and` and `or` leave their right operand alone
/// where the left one decides, and every operator does what its
/// instruction does. Nothing for an expression that holds anything else.
pub open spec fn evaluate(e: Expr) -> Option<Result<Value, RuntimeErrorKind>>
    decreases e,
{
    match e {
        Expr::Number(token) => match token.kind {
            TokenKind::Number(n) => Some(Ok(Value::Int(n))),
            _ => None,
        },
        Expr::Binary(op, lhs, rhs) => match (evaluate(*lhs), evaluate(*rhs)) {
            (Some(left), Some(right)) => match spec_operator_opcode(op.kind) {
                Some(opcode) => match (left, right) {
                    (Ok(a), Ok(b)) => Some(binary_result(opcode, a, b)),
                    (Err(kind), _) => Some(Err(kind)),
                    (Ok(_), Err(kind)) => Some(Err(kind)),
                },
                None => match op.kind {
                    TokenKind::And => match left {
                        Ok(a) => if a.spec_truthy() {
                            match right {
                                Ok(b) => Some(Ok(Value::spec_from_bool(b.spec_truthy()))),
                                Err(kind) => Some(Err(kind)),
                            }
                        } else {
                            Some(Ok(Value::Int(0)))
                        },
                        Err(kind) => Some(Err(kind)),
                    },
                    TokenKind::Or => match left {
                        Ok(a) => if a.spec_truthy() {
                            Some(Ok(Value::Int(1)))
                        } else {
                            match right {
                                Ok(b) => Some(Ok(Value::spec_from_bool(b.spec_truthy()))),
                                Err(kind) => Some(Err(kind)),
                            }
                        },
                        Err(kind) => Some(Err(kind)),
                    },
                    _ => None,
                },
            },
            _ => None,
        },
        Expr::Unary(op, operand) => match (op.kind, evaluate(*operand)) {
            (TokenKind::Not, Some(Ok(a))) => Some(Ok(Value::spec_from_bool(!a.spec_truthy()))),
            (TokenKind::Not, Some(Err(kind))) => Some(Err(kind)),
            _ => None,
        },
        _ => None,
    }
}

/// The integer that an expression folds to: that of a number literal, that
/// of an arithmetic or comparison operator whose operands both fold and
/// whose instruction does not fail on them, and that of `not` on an
/// operand that folds. Nothing for any other expression.
pub open spec fn folded_value(e: Expr) -> Option<i64>
    decreases e,
{
    match e {
        Expr::Number(token) => match token.kind {
            TokenKind::Number(n) => Some(n),
            _ => None,
        },
        Expr::Binary(op, lhs, rhs) => match (
            spec_operator_opcode(op.kind),
            folded_value(*lhs),
            folded_value(*rhs),
        ) {
            (Some(opcode), Some(a), Some(b)) => match binary_result(
                opcode,
                Value::Int(a),
                Value::Int(b),
            ) {
                Ok(Value::Int(n)) => Some(n),
                _ => None,
            },
            _ => None,
        },
        Expr::Unary(op, operand) => match (op.kind, folded_value(*operand)) {
            (TokenKind::Not, Some(a)) => Some(
                if a == 0 {
                    1
                } else {
                    0
                },
            ),
            _ => None,
        },
        _ => None,
    }
}

/// Where an expression that folds stands in the source: at its literal or
/// at its operator.
pub open spec fn fold_position(e: Expr) -> Position {
    match e {
        Expr::Number(token) => token.position,
        Expr::Binary(op, _, _) => op.position,
        Expr::Unary(op, _) => op.position,
        _ => Position { line: 0, column: 0 },
    }
}

/// The number literal for `n` at `position`.
pub open spec fn number_at(n: i64, position: Position) -> Expr {
    Expr::Number(Token { kind: TokenKind::Number(n), position })
}

/// Whether a statement declares a variable that can go: one whose name
/// occurs nowhere as a variable and whose initializer, if any, is a
/// literal after folding.
pub open spec fn droppable(s: Stmt, referenced: Set<Seq<char>>) -> bool {
    match s {
        Stmt::VarDeclaration(name, initializer) => !referenced.contains(name.name()) && (
        match initializer {
            Some(e) => folded_value(e) is Some || e is ConstString,
            None => true,
        }),
        _ => false,
    }
}

/// Whether `r` is the optimized form of `e`: an expression that folds is
/// the number literal of its value, and any other expression keeps its
/// form, with its parts optimized and the droppable declarations of its
/// blocks gone.
pub open spec fn optimizes_to(e: Expr, r: Expr, referenced: Set<Seq<char>>) -> bool
    decreases e, 0nat,
{
    match folded_value(e) {
        Some(n) => r == number_at(n, fold_position(e)),
        None => match e {
            Expr::Number(token) => r == e,
            Expr::ConstString(token) => r == e,
            Expr::Name(token) => r == e,
            Expr::Binary(op, lhs, rhs) => r matches Expr::Binary(op2, lhs2, rhs2) && op2 == op
                && optimizes_to(*lhs, *lhs2, referenced) && optimizes_to(*rhs, *rhs2, referenced),
            Expr::Unary(op, operand) => r matches Expr::Unary(op2, operand2) && op2 == op
                && optimizes_to(*operand, *operand2, referenced),
            Expr::If(condition, then_branch, else_branch) => r matches Expr::If(
                condition2,
                then2,
                else2,
            ) && optimizes_to(*condition, *condition2, referenced) && optimizes_to(
                *then_branch,
                *then2,
                referenced,
            ) && (match else_branch {
                Some(otherwise) => else2 is Some && optimizes_to(
                    *otherwise,
                    *else2->Some_0,
                    referenced,
                ),
                None => else2 is None,
            }),
            Expr::Block(begin, end, stmts) => r matches Expr::Block(begin2, end2, stmts2)
                && begin2 == begin && end2 == end && stmts_optimize_to(
                stmts@,
                stmts@.len(),
                stmts2@,
                stmts2@.len(),
                referenced,
            ),
            Expr::SingleStatement(stmt) => r matches Expr::SingleStatement(stmt2)
                && stmt_optimizes_to(*stmt, *stmt2, referenced),
            Expr::Call(callee, args) => r matches Expr::Call(callee2, args2) && optimizes_to(
                *callee,
                *callee2,
                referenced,
            ) && args2@.len() == args@.len() && forall|i: int|
                0 <= i < args@.len() ==> optimizes_to(args@[i], #[trigger] args2@[i], referenced),
            Expr::PartialCall(callee, args) => r matches Expr::PartialCall(callee2, args2)
                && optimizes_to(*callee, *callee2, referenced) && args2@.len() == args@.len()
                && forall|i: int|
                0 <= i < args@.len() ==> (match args@[i] {
                    Some(arg) => (#[trigger] args2@[i]) is Some && optimizes_to(
                        arg,
                        args2@[i]->Some_0,
                        referenced,
                    ),
                    None => args2@[i] is None,
                }),
            Expr::PropertyAccess(target, name) => r matches Expr::PropertyAccess(target2, name2)
                && name2 == name && optimizes_to(*target, *target2, referenced),
            Expr::PropertyTest(target, name) => r matches Expr::PropertyTest(target2, name2)
                && name2 == name && optimizes_to(*target, *target2, referenced),
            Expr::AnonFunction(args, vararg, arrow, body) => r matches Expr::AnonFunction(
                args2,
                vararg2,
                arrow2,
                body2,
            ) && args2@ == args@ && vararg2 == vararg && arrow2 == arrow && optimizes_to(
                *body,
                *body2,
                referenced,
            ),
        },
    }
}

/// Whether `r` is the optimized form of the statement `s`; see
/// [`optimizes_to`].
pub open spec fn stmt_optimizes_to(s: Stmt, r: Stmt, referenced: Set<Seq<char>>) -> bool
    decreases s, 0nat,
{
    match s {
        Stmt::Print(token, e) => r matches Stmt::Print(token2, e2) && token2 == token
            && optimizes_to(e, e2, referenced),
        Stmt::VarDeclaration(name, initializer) => r matches Stmt::VarDeclaration(name2, initializer2)
            && name2 == name && (match initializer {
            Some(e) => initializer2 is Some && optimizes_to(e, initializer2->Some_0, referenced),
            None => initializer2 is None,
        }),
        Stmt::Assignment(name, e) => r matches Stmt::Assignment(name2, e2) && name2 == name
            && optimizes_to(e, e2, referenced),
        Stmt::PropertyAssignment(target, e) => r matches Stmt::PropertyAssignment(target2, e2)
            && optimizes_to(target, target2, referenced) && optimizes_to(e, e2, referenced),
        Stmt::Expression(e) => r matches Stmt::Expression(e2) && optimizes_to(e, e2, referenced),
        Stmt::Assert(token, e) => r matches Stmt::Assert(token2, e2) && token2 == token
            && optimizes_to(e, e2, referenced),
        Stmt::Pass(token) => r == s,
        Stmt::FunctionDeclaration { name, args, vararg, body } => r matches Stmt::FunctionDeclaration {
            name: name2,
            args: args2,
            vararg: vararg2,
            body: body2,
        } && name2 == name && args2@ == args@ && vararg2 == vararg && optimizes_to(
            body,
            body2,
            referenced,
        ),
        Stmt::StructDeclaration { name, fields } => r matches Stmt::StructDeclaration {
            name: name2,
            fields: fields2,
        } && name2 == name && fields2@ == fields@,
        Stmt::EnumDeclaration { name, variants } => r matches Stmt::EnumDeclaration {
            name: name2,
            variants: variants2,
        } && name2 == name && variants2@.len() == variants@.len() && forall|i: int|
            0 <= i < variants@.len() ==> (#[trigger] variants2@[i]).name == variants@[i].name
                && variants2@[i].fields@ == variants@[i].fields@,
        Stmt::ImplBlock { name, implementations } => r matches Stmt::ImplBlock {
            name: name2,
            implementations: implementations2,
        } && name2 == name && implementations2@.len() == implementations@.len() && forall|i: int|
            0 <= i < implementations@.len() ==> stmt_optimizes_to(
                implementations@[i],
                #[trigger] implementations2@[i],
                referenced,
            ),
    }
}

/// Whether the first `m` statements of `result` are the optimized forms of
/// those of the first `n` statements of `stmts` that are not droppable, in
/// the same order.
pub open spec fn stmts_optimize_to(
    stmts: Seq<Stmt>,
    n: nat,
    result: Seq<Stmt>,
    m: nat,
    referenced: Set<Seq<char>>,
) -> bool
    decreases stmts, n,
{
    if n == 0 || n > stmts.len() {
        m == 0
    } else if droppable(stmts[n - 1], referenced) {
        stmts_optimize_to(stmts, (n - 1) as nat, result, m, referenced)
    } else {
        0 < m <= result.len() && stmt_optimizes_to(stmts[n - 1], result[m - 1], referenced)
            && stmts_optimize_to(stmts, (n - 1) as nat, result, (m - 1) as nat, referenced)
    }
}

/// An expression that folds evaluates to the integer that it folds to.
pub proof fn lemma_folded_value_is_evaluation(e: Expr)
    requires
        folded_value(e) is Some,
    ensures
        evaluate(e) == Some(Ok::<Value, RuntimeErrorKind>(Value::Int(folded_value(e)->Some_0))),
    decreases e,
{
    match e {
        Expr::Binary(op, lhs, rhs) => {
            lemma_folded_value_is_evaluation(*lhs);
            lemma_folded_value_is_evaluation(*rhs);
        },
        Expr::Unary(op, operand) => {
            lemma_folded_value_is_evaluation(*operand);
        },
        _ => {},
    }
}

/// Constant folding keeps what an expression over integer literals
/// evaluates to at run time, failures included.
pub proof fn lemma_folding_preserves_evaluation(e: Expr, r: Expr, referenced: Set<Seq<char>>)
    requires
        optimizes_to(e, r, referenced),
        evaluate(e) is Some,
    ensures
        evaluate(r) == evaluate(e),
    decreases e,
{
    match folded_value(e) {
        Some(n) => {
            lemma_folded_value_is_evaluation(e);
        },
        None => {
            match e {
                Expr::Binary(op, lhs, rhs) => {
                    let lhs2 = r->Binary_1;
                    let rhs2 = r->Binary_2;
                    lemma_folding_preserves_evaluation(*lhs, *lhs2, referenced);
                    lemma_folding_preserves_evaluation(*rhs, *rhs2, referenced);
                },
                Expr::Unary(op, operand) => {
                    let operand2 = r->Unary_1;
                    lemma_folding_preserves_evaluation(*operand, *operand2, referenced);
                },
                _ => {},
            }
        },
    }
}

/// The names that occur as variables in an expression: those that are
/// read and those that are assigned to.
pub open spec fn names_of(e: Expr) -> Set<Seq<char>>
    decreases e, 0nat,
{
    match e {
        Expr::Number(_) => Set::empty(),
        Expr::ConstString(_) => Set::empty(),
        Expr::Name(token) => set![token.name()],
        Expr::Binary(_, lhs, rhs) => names_of(*lhs).union(names_of(*rhs)),
        Expr::Unary(_, operand) => names_of(*operand),
        Expr::If(condition, then_branch, else_branch) => names_of(*condition).union(
            names_of(*then_branch),
        ).union(
            match else_branch {
                Some(otherwise) => names_of(*otherwise),
                None => Set::empty(),
            },
        ),
        Expr::Block(_, _, stmts) => names_of_stmts(stmts@, stmts@.len()),
        Expr::SingleStatement(stmt) => names_of_stmt(*stmt),
        Expr::Call(callee, args) => names_of(*callee).union(names_of_exprs(args@, args@.len())),
        Expr::PartialCall(callee, args) => names_of(*callee).union(
            names_of_optional_exprs(args@, args@.len()),
        ),
        Expr::PropertyAccess(target, _) => names_of(*target),
        Expr::PropertyTest(target, _) => names_of(*target),
        Expr::AnonFunction(_, _, _, body) => names_of(*body),
    }
}

/// The names that occur as variables in a statement.
pub open spec fn names_of_stmt(s: Stmt) -> Set<Seq<char>>
    decreases s, 0nat,
{
    match s {
        Stmt::Print(_, e) => names_of(e),
        Stmt::VarDeclaration(_, initializer) => match initializer {
            Some(e) => names_of(e),
            None => Set::empty(),
        },
        Stmt::Assignment(name, e) => names_of(e).insert(name.name()),
        Stmt::PropertyAssignment(target, e) => names_of(target).union(names_of(e)),
        Stmt::Expression(e) => names_of(e),
        Stmt::Assert(_, e) => names_of(e),
        Stmt::Pass(_) => Set::empty(),
        Stmt::FunctionDeclaration { name, args, vararg, body } => names_of(body),
        Stmt::StructDeclaration { name, fields } => Set::empty(),
        Stmt::EnumDeclaration { name, variants } => Set::empty(),
        Stmt::ImplBlock { name, implementations } => names_of_stmts(
            implementations@,
            implementations@.len(),
        ).insert(name.name()),
    }
}

/// The names that occur as variables in the first `n` of `stmts`.
pub open spec fn names_of_stmts(stmts: Seq<Stmt>, n: nat) -> Set<Seq<char>>
    decreases stmts, n,
{
    if n == 0 || n > stmts.len() {
        Set::empty()
    } else {
        names_of_stmts(stmts, (n - 1) as nat).union(names_of_stmt(stmts[n - 1]))
    }
}

/// The names that occur as variables in the first `n` of `exprs`.
pub open spec fn names_of_exprs(exprs: Seq<Expr>, n: nat) -> Set<Seq<char>>
    decreases exprs, n,
{
    if n == 0 || n > exprs.len() {
        Set::empty()
    } else {
        names_of_exprs(exprs, (n - 1) as nat).union(names_of(exprs[n - 1]))
    }
}

/// The names that occur as variables in those of the first `n` of `exprs`
/// that are there.
pub open spec fn names_of_optional_exprs(exprs: Seq<Option<Expr>>, n: nat) -> Set<Seq<char>>
    decreases exprs, n,
{
    if n == 0 || n > exprs.len() {
        Set::empty()
    } else {
        names_of_optional_exprs(exprs, (n - 1) as nat).union(
            match exprs[n - 1] {
                Some(e) => names_of(e),
                None => Set::empty(),
            },
        )
    }
}

/// The texts of `names` as a set.
pub open spec fn name_set(names: Seq<String>) -> Set<Seq<char>> {
    Set::new(|name: Seq<char>| exists|i: int| 0 <= i < names.len() && (#[trigger] names[i])@ == name)
}

proof fn lemma_name_set_push(names: Seq<String>, name: String)
    ensures
        name_set(names.push(name)) == name_set(names).insert(name@),
{
    let longer = names.push(name);
    assert forall|n: Seq<char>| name_set(longer).contains(n) <==> name_set(names).insert(
        name@,
    ).contains(n) by {
        if name_set(longer).contains(n) {
            let i = choose|i: int| 0 <= i < longer.len() && (#[trigger] longer[i])@ == n;
            if i < names.len() {
                assert(names[i]@ == n);
            }
        }
        if name_set(names).contains(n) {
            let i = choose|i: int| 0 <= i < names.len() && (#[trigger] names[i])@ == n;
            assert(longer[i]@ == n);
        }
        if n == name@ {
            assert(longer[names.len() as int]@ == n);
        }
    }
    assert(name_set(longer) =~= name_set(names).insert(name@));
}

/// Whether `name` is among `names`.
pub fn contains_name(names: &Vec<String>, name: &String) -> (found: bool)
    ensures
        found == name_set(names@).contains(name@),
{
    let mut i: usize = 0;
    while i < names.len()
        invariant
            i <= names.len(),
            forall|j: int| 0 <= j < i ==> (#[trigger] names@[j])@ != name@,
        decreases names.len() - i,
    {
        if names[i] == *name {
            return true;
        }
        i += 1;
    }
    false
}

/// Adds to `names` the names that occur as variables in an expression.
pub fn collect_names(e: &Expr, names: &mut Vec<String>)
    ensures
        name_set(final(names)@) == name_set(old(names)@).union(names_of(*e)),
    decreases e, 0nat,
{
    match e {
        Expr::Number(_) => {
            assert(name_set(names@).union(Set::empty()) =~= name_set(names@));
        },
        Expr::ConstString(_) => {
            assert(name_set(names@).union(Set::empty()) =~= name_set(names@));
        },
        Expr::Name(token) => {
            let text = token.name_string();
            proof {
                lemma_name_set_push(names@, text);
            }
            names.push(text);
            assert(name_set(names@) =~= name_set(old(names)@).union(names_of(*e)));
        },
        Expr::Binary(_, lhs, rhs) => {
            collect_names(lhs, names);
            collect_names(rhs, names);
            assert(name_set(names@) =~= name_set(old(names)@).union(names_of(*e)));
        },
        Expr::Unary(_, operand) => {
            collect_names(operand, names);
        },
        Expr::If(condition, then_branch, else_branch) => {
            collect_names(condition, names);
            collect_names(then_branch, names);
            match else_branch {
                Some(otherwise) => {
                    collect_names(otherwise, names);
                },
                None => {},
            }
            assert(name_set(names@) =~= name_set(old(names)@).union(names_of(*e)));
        },
        Expr::Block(_, _, stmts) => {
            collect_names_of_stmts(stmts, names);
        },
        Expr::SingleStatement(stmt) => {
            collect_names_of_stmt(stmt, names);
        },
        Expr::Call(callee, args) => {
            collect_names(callee, names);
            let ghost middle = names@;
            let mut i: usize = 0;
            assert(name_set(names@).union(Set::empty()) =~= name_set(names@));
            while i < args.len()
                invariant
                    i <= args.len(),
                    decreases_to!(e => args),
                    name_set(names@) == name_set(middle).union(names_of_exprs(args@, i as nat)),
                decreases args.len() - i,
            {
                proof {
                    assert(decreases_to!(args => args[i as int]));
                }
                collect_names(&args[i], names);
                i += 1;
                assert(name_set(names@) =~= name_set(middle).union(names_of_exprs(args@, i as nat)));
            }
            assert(name_set(names@) =~= name_set(old(names)@).union(names_of(*e)));
        },
        Expr::PartialCall(callee, args) => {
            collect_names(callee, names);
            let ghost middle = names@;
            let mut i: usize = 0;
            assert(name_set(names@).union(Set::empty()) =~= name_set(names@));
            while i < args.len()
                invariant
                    i <= args.len(),
                    decreases_to!(e => args),
                    name_set(names@) == name_set(middle).union(
                        names_of_optional_exprs(args@, i as nat),
                    ),
                decreases args.len() - i,
            {
                proof {
                    assert(decreases_to!(args => args[i as int]));
                }
                match &args[i] {
                    Some(arg) => {
                        collect_names(arg, names);
                    },
                    None => {},
                }
                i += 1;
                assert(name_set(names@) =~= name_set(middle).union(
                    names_of_optional_exprs(args@, i as nat),
                ));
            }
            assert(name_set(names@) =~= name_set(old(names)@).union(names_of(*e)));
        },
        Expr::PropertyAccess(target, _) => {
            collect_names(target, names);
        },
        Expr::PropertyTest(target, _) => {
            collect_names(target, names);
        },
        Expr::AnonFunction(_, _, _, body) => {
            collect_names(body, names);
        },
    }
}

/// Adds to `names` the names that occur as variables in a statement.
pub fn collect_names_of_stmt(s: &Stmt, names: &mut Vec<String>)
    ensures
        name_set(final(names)@) == name_set(old(names)@).union(names_of_stmt(*s)),
    decreases s, 0nat,
{
    match s {
        Stmt::Print(_, e) => {
            collect_names(e, names);
        },
        Stmt::VarDeclaration(_, initializer) => {
            match initializer {
                Some(e) => {
                    collect_names(e, names);
                },
                None => {
                    assert(name_set(names@).union(Set::empty()) =~= name_set(names@));
                },
            }
        },
        Stmt::Assignment(name, e) => {
            collect_names(e, names);
            let text = name.name_string();
            proof {
                lemma_name_set_push(names@, text);
            }
            names.push(text);
            assert(name_set(names@) =~= name_set(old(names)@).union(names_of_stmt(*s)));
        },
        Stmt::PropertyAssignment(target, e) => {
            collect_names(target, names);
            collect_names(e, names);
            assert(name_set(names@) =~= name_set(old(names)@).union(names_of_stmt(*s)));
        },
        Stmt::Expression(e) => {
            collect_names(e, names);
        },
        Stmt::Assert(_, e) => {
            collect_names(e, names);
        },
        Stmt::Pass(_) => {
            assert(name_set(names@).union(Set::empty()) =~= name_set(names@));
        },
        Stmt::FunctionDeclaration { name, args, vararg, body } => {
            collect_names(body, names);
        },
        Stmt::StructDeclaration { name, fields } => {
            assert(name_set(names@).union(Set::empty()) =~= name_set(names@));
        },
        Stmt::EnumDeclaration { name, variants } => {
            assert(name_set(names@).union(Set::empty()) =~= name_set(names@));
        },
        Stmt::ImplBlock { name, implementations } => {
            collect_names_of_stmts(implementations, names);
            let text = name.name_string();
            proof {
                lemma_name_set_push(names@, text);
            }
            names.push(text);
            assert(name_set(names@) =~= name_set(old(names)@).union(names_of_stmt(*s)));
        },
    }
}

/// Adds to `names` the names that occur as variables in statements.
pub fn collect_names_of_stmts(stmts: &Vec<Stmt>, names: &mut Vec<String>)
    ensures
        name_set(final(names)@) == name_set(old(names)@).union(
            names_of_stmts(stmts@, stmts@.len()),
        ),
    decreases stmts, 1nat,
{
    let mut i: usize = 0;
    assert(name_set(names@).union(Set::empty()) =~= name_set(names@));
    while i < stmts.len()
        invariant
            i <= stmts.len(),
            name_set(names@) == name_set(old(names)@).union(names_of_stmts(stmts@, i as nat)),
        decreases stmts.len() - i,
    {
        collect_names_of_stmt(&stmts[i], names);
        i += 1;
        assert(name_set(names@) =~= name_set(old(names)@).union(names_of_stmts(stmts@, i as nat)));
    }
}

/// The optimized form of an expression is a number literal exactly where
/// the expression folds.
pub proof fn lemma_literal_of_optimized(e: Expr, r: Expr, referenced: Set<Seq<char>>)
    requires
        optimizes_to(e, r, referenced),
    ensures
        spec_literal(r) == folded_value(e),
        r is ConstString <==> e is ConstString,
{
}

proof fn lemma_stmts_prefix(
    stmts: Seq<Stmt>,
    n: nat,
    first: Seq<Stmt>,
    second: Seq<Stmt>,
    m: nat,
    referenced: Set<Seq<char>>,
)
    requires
        stmts_optimize_to(stmts, n, first, m, referenced),
        m <= first.len(),
        m <= second.len(),
        first.subrange(0, m as int) == second.subrange(0, m as int),
    ensures
        stmts_optimize_to(stmts, n, second, m, referenced),
    decreases n,
{
    if n == 0 || n > stmts.len() {
    } else if droppable(stmts[n - 1], referenced) {
        lemma_stmts_prefix(stmts, (n - 1) as nat, first, second, m, referenced);
    } else {
        assert(first[m - 1] == first.subrange(0, m as int)[m - 1]);
        assert(second[m - 1] == second.subrange(0, m as int)[m - 1]);
        assert(first.subrange(0, m - 1) =~= first.subrange(0, m as int).subrange(0, m - 1));
        assert(second.subrange(0, m - 1) =~= second.subrange(0, m as int).subrange(0, m - 1));
        lemma_stmts_prefix(stmts, (n - 1) as nat, first, second, (m - 1) as nat, referenced);
    }
}

proof fn lemma_stmts_bound(
    stmts: Seq<Stmt>,
    n: nat,
    result: Seq<Stmt>,
    m: nat,
    referenced: Set<Seq<char>>,
)
    requires
        stmts_optimize_to(stmts, n, result, m, referenced),
    ensures
        m <= result.len(),
        m <= n,
    decreases n,
{
    if n == 0 || n > stmts.len() {
    } else if droppable(stmts[n - 1], referenced) {
        lemma_stmts_bound(stmts, (n - 1) as nat, result, m, referenced);
    } else {
        lemma_stmts_bound(stmts, (n - 1) as nat, result, (m - 1) as nat, referenced);
    }
}

/// Copies tokens.
pub fn clone_tokens(tokens: &Vec<Token>) -> (copy: Vec<Token>)
    ensures
        copy@ == tokens@,
{
    let mut copy: Vec<Token> = Vec::new();
    let mut i: usize = 0;
    while i < tokens.len()
        invariant
            i <= tokens.len(),
            copy@ == tokens@.subrange(0, i as int),
        decreases tokens.len() - i,
    {
        copy.push(tokens[i].clone());
        i += 1;
        assert(copy@ =~= tokens@.subrange(0, i as int));
    }
    assert(tokens@.subrange(0, i as int) =~= tokens@);
    copy
}

/// Copies a token that may be missing.
pub fn clone_optional_token(token: &Option<Token>) -> (copy: Option<Token>)
    ensures
        copy == *token,
{
    match token {
        Some(t) => Some(t.clone()),
        None => None,
    }
}

/// Optimizes an expression: every part that folds becomes the number
/// literal of its value, and the droppable declarations of every block go.
pub fn optimize_expr(e: &Expr, referenced: &Vec<String>) -> (r: Expr)
    ensures
        optimizes_to(*e, r, name_set(referenced@)),
    decreases e, 0nat,
{
    match e {
        Expr::Number(token) => match token.kind {
            TokenKind::Number(n) => Expr::Number(
                Token { kind: TokenKind::Number(n), position: token.position },
            ),
            _ => Expr::Number(token.clone()),
        },
        Expr::ConstString(token) => Expr::ConstString(token.clone()),
        Expr::Name(token) => Expr::Name(token.clone()),
        Expr::Binary(op, lhs, rhs) => {
            let left = optimize_expr(lhs, referenced);
            let right = optimize_expr(rhs, referenced);
            proof {
                lemma_literal_of_optimized(**lhs, left, name_set(referenced@));
                lemma_literal_of_optimized(**rhs, right, name_set(referenced@));
            }
            match (operator_opcode(&op.kind), literal(&left), literal(&right)) {
                (Some(opcode), Some(a), Some(b)) => match apply_binary(
                    opcode,
                    Value::Int(a),
                    Value::Int(b),
                ) {
                    Ok(Value::Int(n)) => {
                        return Expr::Number(
                            Token { kind: TokenKind::Number(n), position: op.position },
                        );
                    },
                    _ => {},
                },
                _ => {},
            }
            Expr::Binary(op.clone(), Box::new(left), Box::new(right))
        },
        Expr::Unary(op, operand) => {
            let inner = optimize_expr(operand, referenced);
            proof {
                lemma_literal_of_optimized(**operand, inner, name_set(referenced@));
            }
            match (&op.kind, literal(&inner)) {
                (TokenKind::Not, Some(a)) => {
                    return Expr::Number(
                        Token {
                            kind: TokenKind::Number(
                                if a == 0 {
                                    1
                                } else {
                                    0
                                },
                            ),
                            position: op.position,
                        },
                    );
                },
                _ => {},
            }
            Expr::Unary(op.clone(), Box::new(inner))
        },
        Expr::If(condition, then_branch, else_branch) => {
            let c = optimize_expr(condition, referenced);
            let t = optimize_expr(then_branch, referenced);
            let o = match else_branch {
                Some(otherwise) => Some(Box::new(optimize_expr(otherwise, referenced))),
                None => None,
            };
            Expr::If(Box::new(c), Box::new(t), o)
        },
        Expr::Block(begin, end, stmts) => {
            let optimized = optimize_stmts(stmts, referenced);
            Expr::Block(begin.clone(), end.clone(), optimized)
        },
        Expr::SingleStatement(stmt) => Expr::SingleStatement(
            Box::new(optimize_stmt(stmt, referenced)),
        ),
        Expr::Call(callee, args) => {
            let c = optimize_expr(callee, referenced);
            let mut optimized: Vec<Expr> = Vec::new();
            let mut i: usize = 0;
            while i < args.len()
                invariant
                    i <= args.len(),
                    decreases_to!(e => args),
                    optimized@.len() == i,
                    forall|k: int|
                        0 <= k < i ==> optimizes_to(
                            args@[k],
                            #[trigger] optimized@[k],
                            name_set(referenced@),
                        ),
                decreases args.len() - i,
            {
                proof {
                    assert(decreases_to!(args => args[i as int]));
                }
                let arg = optimize_expr(&args[i], referenced);
                optimized.push(arg);
                i += 1;
            }
            Expr::Call(Box::new(c), optimized)
        },
        Expr::PartialCall(callee, args) => {
            let c = optimize_expr(callee, referenced);
            let mut optimized: Vec<Option<Expr>> = Vec::new();
            let mut i: usize = 0;
            while i < args.len()
                invariant
                    i <= args.len(),
                    decreases_to!(e => args),
                    optimized@.len() == i,
                    forall|k: int|
                        0 <= k < i ==> (match args@[k] {
                            Some(arg) => (#[trigger] optimized@[k]) is Some && optimizes_to(
                                arg,
                                optimized@[k]->Some_0,
                                name_set(referenced@),
                            ),
                            None => optimized@[k] is None,
                        }),
                decreases args.len() - i,
            {
                proof {
                    assert(decreases_to!(args => args[i as int]));
                }
                let arg = match &args[i] {
                    Some(arg) => Some(optimize_expr(arg, referenced)),
                    None => None,
                };
                optimized.push(arg);
                i += 1;
            }
            Expr::PartialCall(Box::new(c), optimized)
        },
        Expr::PropertyAccess(target, name) => Expr::PropertyAccess(
            Box::new(optimize_expr(target, referenced)),
            name.clone(),
        ),
        Expr::PropertyTest(target, name) => Expr::PropertyTest(
            Box::new(optimize_expr(target, referenced)),
            name.clone(),
        ),
        Expr::AnonFunction(args, vararg, arrow, body) => Expr::AnonFunction(
            clone_tokens(args),
            clone_optional_token(vararg),
            arrow.clone(),
            Box::new(optimize_expr(body, referenced)),
        ),
    }
}

/// Optimizes a statement; see [`optimize_expr`].
pub fn optimize_stmt(s: &Stmt, referenced: &Vec<String>) -> (r: Stmt)
    ensures
        stmt_optimizes_to(*s, r, name_set(referenced@)),
    decreases s, 0nat,
{
    match s {
        Stmt::Print(token, e) => Stmt::Print(token.clone(), optimize_expr(e, referenced)),
        Stmt::VarDeclaration(name, initializer) => Stmt::VarDeclaration(
            name.clone(),
            match initializer {
                Some(e) => Some(optimize_expr(e, referenced)),
                None => None,
            },
        ),
        Stmt::Assignment(name, e) => Stmt::Assignment(name.clone(), optimize_expr(e, referenced)),
        Stmt::PropertyAssignment(target, e) => Stmt::PropertyAssignment(
            optimize_expr(target, referenced),
            optimize_expr(e, referenced),
        ),
        Stmt::Expression(e) => Stmt::Expression(optimize_expr(e, referenced)),
        Stmt::Assert(token, e) => Stmt::Assert(token.clone(), optimize_expr(e, referenced)),
        Stmt::Pass(token) => Stmt::Pass(token.clone()),
        Stmt::FunctionDeclaration { name, args, vararg, body } => Stmt::FunctionDeclaration {
            name: name.clone(),
            args: clone_tokens(args),
            vararg: clone_optional_token(vararg),
            body: optimize_expr(body, referenced),
        },
        Stmt::StructDeclaration { name, fields } => Stmt::StructDeclaration {
            name: name.clone(),
            fields: clone_tokens(fields),
        },
        Stmt::EnumDeclaration { name, variants } => {
            let mut copies: Vec<EnumVariant> = Vec::new();
            let mut i: usize = 0;
            while i < variants.len()
                invariant
                    i <= variants.len(),
                    copies@.len() == i,
                    forall|k: int|
                        0 <= k < i ==> (#[trigger] copies@[k]).name == variants@[k].name
                            && copies@[k].fields@ == variants@[k].fields@,
                decreases variants.len() - i,
            {
                copies.push(
                    EnumVariant {
                        name: variants[i].name.clone(),
                        fields: clone_tokens(&variants[i].fields),
                    },
                );
                i += 1;
            }
            Stmt::EnumDeclaration { name: name.clone(), variants: copies }
        },
        Stmt::ImplBlock { name, implementations } => {
            let mut optimized: Vec<Stmt> = Vec::new();
            let mut i: usize = 0;
            while i < implementations.len()
                invariant
                    i <= implementations.len(),
                    decreases_to!(s => implementations),
                    optimized@.len() == i,
                    forall|k: int|
                        0 <= k < i ==> stmt_optimizes_to(
                            implementations@[k],
                            #[trigger] optimized@[k],
                            name_set(referenced@),
                        ),
                decreases implementations.len() - i,
            {
                proof {
                    assert(decreases_to!(implementations => implementations[i as int]));
                }
                let method = optimize_stmt(&implementations[i], referenced);
                optimized.push(method);
                i += 1;
            }
            Stmt::ImplBlock { name: name.clone(), implementations: optimized }
        },
    }
}

/// Optimizes the statements of a block and leaves the droppable
/// declarations out.
pub fn optimize_stmts(stmts: &Vec<Stmt>, referenced: &Vec<String>) -> (result: Vec<Stmt>)
    ensures
        stmts_optimize_to(stmts@, stmts@.len(), result@, result@.len(), name_set(referenced@)),
    decreases stmts, 1nat,
{
    let mut result: Vec<Stmt> = Vec::new();
    let mut i: usize = 0;
    while i < stmts.len()
        invariant
            i <= stmts.len(),
            stmts_optimize_to(stmts@, i as nat, result@, result@.len(), name_set(referenced@)),
        decreases stmts.len() - i,
    {
        let optimized = optimize_stmt(&stmts[i], referenced);
        let drop = match &optimized {
            Stmt::VarDeclaration(name, initializer) => {
                let text = name.name_string();
                !contains_name(referenced, &text) && (match initializer {
                    Some(e) => literal(e).is_some() || (match e {
                        Expr::ConstString(_) => true,
                        _ => false,
                    }),
                    None => true,
                })
            },
            _ => false,
        };
        proof {
            match stmts@[i as int] {
                Stmt::VarDeclaration(name, initializer) => {
                    match initializer {
                        Some(e) => {
                            lemma_literal_of_optimized(
                                e,
                                optimized->VarDeclaration_1->Some_0,
                                name_set(referenced@),
                            );
                        },
                        None => {},
                    }
                },
                _ => {},
            }
            assert(stmt_optimizes_to(stmts@[i as int], optimized, name_set(referenced@)));
            assert(drop == droppable(stmts@[i as int], name_set(referenced@)));
        }
        if !drop {
            let ghost before = result@;
            result.push(optimized);
            proof {
                assert(result@.subrange(0, before.len() as int) =~= before.subrange(
                    0,
                    before.len() as int,
                ));
                lemma_stmts_prefix(
                    stmts@,
                    i as nat,
                    before,
                    result@,
                    before.len(),
                    name_set(referenced@),
                );
            }
        }
        i += 1;
    }
    result
}

/// Optimizes a program: constant expressions are folded, and declarations
/// of variables that nothing refers to and whose initializer is a literal
/// are dropped.
pub fn optimize(program: &Expr) -> (r: Expr)
    ensures
        optimizes_to(*program, r, names_of(*program)),
{
    let mut referenced: Vec<String> = Vec::new();
    collect_names(program, &mut referenced);
    assert(name_set(referenced@) =~= names_of(*program)) by {
        assert(name_set(Seq::<String>::empty()) =~= Set::<Seq<char>>::empty());
    }
    optimize_expr(program, &referenced)
}

} // verus!
