use vstd::prelude::*;
use vstd::string::StringExecFns;
use crate::parsing::ast::{Expr, Program, Stmt};
use crate::parsing::lexer::Token;
use crate::text::join2;

verus! {

/// A name that is introduced twice where it may be introduced once.
#[derive(Debug)]
pub enum SemanticError {
    /// `name` is declared in a scope that already holds `previous`.
    Redefinition { name: Token, previous: Token },
    /// `argument` occurs twice among the parameters of `function`.
    FunctionArgumentRepeats { argument: Token, function: Token },
    /// `argument` occurs twice among the parameters of the anonymous
    /// function with the arrow `arrow`.
    AnonymousArgumentRepeats { argument: Token, arrow: Token },
    /// `name` is assigned to, and it names a builtin.
    AssignmentToBuiltin { name: Token },
    /// `name` is assigned to, and nothing declares it.
    AssignmentToUndefined { name: Token },
    /// The function around `at` needs more slots than an instruction can name.
    TooManySlots { at: crate::parsing::lexer::Position },
}

impl SemanticError {
    /// The diagnostic for an error.
    pub open spec fn spec_to_string(&self) -> Seq<char> {
        match self {
            SemanticError::Redefinition { name, previous } => "name "@ + name.name() + " ["@
                + name.position.spec_to_string() + "] is redefined in block, previous definition at ["@
                + previous.position.spec_to_string() + "]"@,
            SemanticError::FunctionArgumentRepeats { argument, function } => "argument "@
                + argument.name() + " repeats in function "@ + function.name() + " at ["@
                + function.position.spec_to_string() + "]"@,
            SemanticError::AnonymousArgumentRepeats { argument, arrow } => "argument "@
                + argument.name() + " repeats in anonymous function at ["@
                + arrow.position.spec_to_string() + "]"@,
            SemanticError::AssignmentToBuiltin { name } => "cannot assign to builtin "@
                + name.name() + " at ["@ + name.position.spec_to_string() + "]"@,
            SemanticError::AssignmentToUndefined { name } => "cannot assign to undefined name "@
                + name.name() + " at ["@ + name.position.spec_to_string() + "]"@,
            SemanticError::TooManySlots { at } => "too many values in one function at ["@
                + at.spec_to_string() + "]"@,
        }
    }

    pub fn to_string(&self) -> (text: String)
        ensures
            text@ == self.spec_to_string(),
    {
        match self {
            SemanticError::Redefinition { name, previous } => {
                let mut text = join2("name ", name.name_string().as_str());
                text.append(" [");
                text.append(name.position.to_string().as_str());
                text.append("] is redefined in block, previous definition at [");
                text.append(previous.position.to_string().as_str());
                text.append("]");
                text
            },
            SemanticError::FunctionArgumentRepeats { argument, function } => {
                let mut text = join2("argument ", argument.name_string().as_str());
                text.append(" repeats in function ");
                text.append(function.name_string().as_str());
                text.append(" at [");
                text.append(function.position.to_string().as_str());
                text.append("]");
                text
            },
            SemanticError::AnonymousArgumentRepeats { argument, arrow } => {
                let mut text = join2("argument ", argument.name_string().as_str());
                text.append(" repeats in anonymous function at [");
                text.append(arrow.position.to_string().as_str());
                text.append("]");
                text
            },
            SemanticError::AssignmentToBuiltin { name } => {
                let mut text = join2("cannot assign to builtin ", name.name_string().as_str());
                text.append(" at [");
                text.append(name.position.to_string().as_str());
                text.append("]");
                text
            },
            SemanticError::AssignmentToUndefined { name } => {
                let mut text = join2("cannot assign to undefined name ", name.name_string().as_str());
                text.append(" at [");
                text.append(name.position.to_string().as_str());
                text.append("]");
                text
            },
            SemanticError::TooManySlots { at } => {
                let mut text = join2(
                    "too many values in one function at [",
                    at.to_string().as_str(),
                );
                text.append("]");
                text
            },
        }
    }
}

/// The first token of `scope` that has the name `name`.
pub open spec fn previous_definition(scope: Seq<Token>, name: Seq<char>) -> Option<Token>
    decreases scope.len(),
{
    if scope.len() == 0 {
        None
    } else if scope[0].name() == name {
        Some(scope[0])
    } else {
        previous_definition(scope.drop_first(), name)
    }
}

/// Declares `name` in `scope`: the scope with the token added, or the token
/// that already declares the name there.
pub open spec fn declare(scope: Seq<Token>, name: Token) -> Result<Seq<Token>, Token> {
    match previous_definition(scope, name.name()) {
        Some(previous) => Err(previous),
        None => Ok(scope.push(name)),
    }
}

/// Declares the first `n` of `params` in order, starting from `scope`: the
/// scope that results, or the first parameter whose name is already there.
pub open spec fn declare_params(scope: Seq<Token>, params: Seq<Token>, n: nat) -> Result<
    Seq<Token>,
    Token,
>
    decreases n,
{
    if n == 0 || n > params.len() {
        Ok(scope)
    } else {
        match declare_params(scope, params, (n - 1) as nat) {
            Ok(declared) => match declare(declared, params[n - 1]) {
                Ok(extended) => Ok(extended),
                Err(_) => Err(params[n - 1]),
            },
            Err(repeated) => Err(repeated),
        }
    }
}

/// The parameters of a function: the named ones, then the one that takes
/// the surplus arguments, where there is one.
pub open spec fn all_params(args: Seq<Token>, vararg: Option<Token>) -> Seq<Token> {
    match vararg {
        Some(rest) => args.push(rest),
        None => args,
    }
}

/// The scope of a function body before the body is walked: the parameters,
/// or the error for the first one that repeats.
pub open spec fn function_scope(name: Token, args: Seq<Token>, vararg: Option<Token>) -> Result<
    Seq<Token>,
    SemanticError,
> {
    match declare_params(Seq::empty(), all_params(args, vararg), all_params(args, vararg).len()) {
        Ok(scope) => Ok(scope),
        Err(argument) => Err(SemanticError::FunctionArgumentRepeats { argument, function: name }),
    }
}

/// The scope of an anonymous function's body before the body is walked.
pub open spec fn anon_function_scope(
    arrow: Token,
    args: Seq<Token>,
    vararg: Option<Token>,
) -> Result<Seq<Token>, SemanticError> {
    match declare_params(Seq::empty(), all_params(args, vararg), all_params(args, vararg).len()) {
        Ok(scope) => Ok(scope),
        Err(argument) => Err(SemanticError::AnonymousArgumentRepeats { argument, arrow }),
    }
}

/// Walks an expression that stands in a scope holding the declarations
/// `scope`. The result is the scope after the expression, with what the
/// expression declared in it, or the first error in source order.
///
/// A block, a function body and an anonymous function each open a scope of
/// their own, which starts empty (a function's with its parameters) and is
/// dropped at the end: what they declare never reaches the enclosing scope,
/// and what the enclosing scopes hold never clashes with it.
pub open spec fn walk_expr(scope: Seq<Token>, e: Expr) -> Result<Seq<Token>, SemanticError>
    decreases e, 0nat,
{
    match e {
        Expr::Number(_) => Ok(scope),
        Expr::ConstString(_) => Ok(scope),
        Expr::Name(_) => Ok(scope),
        Expr::Binary(_, lhs, rhs) => match walk_expr(scope, *lhs) {
            Ok(after) => walk_expr(after, *rhs),
            Err(error) => Err(error),
        },
        Expr::Unary(_, operand) => walk_expr(scope, *operand),
        Expr::If(condition, then_branch, else_branch) => match walk_expr(scope, *condition) {
            Ok(after_condition) => match walk_expr(after_condition, *then_branch) {
                Ok(after_then) => match else_branch {
                    Some(otherwise) => walk_expr(after_then, *otherwise),
                    None => Ok(after_then),
                },
                Err(error) => Err(error),
            },
            Err(error) => Err(error),
        },
        Expr::Block(_, _, stmts) => match walk_stmts(Seq::empty(), stmts@, stmts@.len()) {
            Ok(_) => Ok(scope),
            Err(error) => Err(error),
        },
        Expr::SingleStatement(stmt) => walk_stmt(scope, *stmt),
        Expr::Call(callee, args) => match walk_expr(scope, *callee) {
            Ok(after) => walk_exprs(after, args@, args@.len()),
            Err(error) => Err(error),
        },
        Expr::PartialCall(callee, args) => match walk_expr(scope, *callee) {
            Ok(after) => walk_optional_exprs(after, args@, args@.len()),
            Err(error) => Err(error),
        },
        Expr::PropertyAccess(target, _) => walk_expr(scope, *target),
        Expr::PropertyTest(target, _) => walk_expr(scope, *target),
        Expr::AnonFunction(args, vararg, arrow, body) => match anon_function_scope(
            arrow,
            args@,
            vararg,
        ) {
            Ok(params) => match walk_expr(params, *body) {
                Ok(_) => Ok(scope),
                Err(error) => Err(error),
            },
            Err(error) => Err(error),
        },
    }
}

/// Walks a statement; see [`walk_expr`]. A variable is declared after its
/// initializer has been walked, a function before its body.
pub open spec fn walk_stmt(scope: Seq<Token>, s: Stmt) -> Result<Seq<Token>, SemanticError>
    decreases s, 0nat,
{
    match s {
        Stmt::Print(_, e) => walk_expr(scope, e),
        Stmt::VarDeclaration(name, rhs) => {
            let walked = match rhs {
                Some(e) => walk_expr(scope, e),
                None => Ok(scope),
            };
            match walked {
                Ok(after) => match declare(after, name) {
                    Ok(extended) => Ok(extended),
                    Err(previous) => Err(SemanticError::Redefinition { name, previous }),
                },
                Err(error) => Err(error),
            }
        },
        Stmt::Assignment(_, e) => walk_expr(scope, e),
        Stmt::PropertyAssignment(target, e) => match walk_expr(scope, target) {
            Ok(after) => walk_expr(after, e),
            Err(error) => Err(error),
        },
        Stmt::Expression(e) => walk_expr(scope, e),
        Stmt::Assert(_, e) => walk_expr(scope, e),
        Stmt::Pass(_) => Ok(scope),
        Stmt::FunctionDeclaration { name, args, vararg, body } => match declare(scope, name) {
            Ok(extended) => match function_scope(name, args@, vararg) {
                Ok(params) => match walk_expr(params, body) {
                    Ok(_) => Ok(extended),
                    Err(error) => Err(error),
                },
                Err(error) => Err(error),
            },
            Err(previous) => Err(SemanticError::Redefinition { name, previous }),
        },
        Stmt::StructDeclaration { name, fields } => match declare(scope, name) {
            Ok(extended) => Ok(extended),
            Err(previous) => Err(SemanticError::Redefinition { name, previous }),
        },
        Stmt::EnumDeclaration { name, variants } => match declare(scope, name) {
            Ok(extended) => Ok(extended),
            Err(previous) => Err(SemanticError::Redefinition { name, previous }),
        },
        Stmt::ImplBlock { name, implementations } => match walk_stmts(
            Seq::empty(),
            implementations@,
            implementations@.len(),
        ) {
            Ok(_) => Ok(scope),
            Err(error) => Err(error),
        },
    }
}

/// Walks the first `n` of `stmts` in order.
pub open spec fn walk_stmts(scope: Seq<Token>, stmts: Seq<Stmt>, n: nat) -> Result<
    Seq<Token>,
    SemanticError,
>
    decreases stmts, n,
{
    if n == 0 || n > stmts.len() {
        Ok(scope)
    } else {
        match walk_stmts(scope, stmts, (n - 1) as nat) {
            Ok(after) => walk_stmt(after, stmts[n - 1]),
            Err(error) => Err(error),
        }
    }
}

/// Walks the first `n` of `exprs` in order.
pub open spec fn walk_exprs(scope: Seq<Token>, exprs: Seq<Expr>, n: nat) -> Result<
    Seq<Token>,
    SemanticError,
>
    decreases exprs, n,
{
    if n == 0 || n > exprs.len() {
        Ok(scope)
    } else {
        match walk_exprs(scope, exprs, (n - 1) as nat) {
            Ok(after) => walk_expr(after, exprs[n - 1]),
            Err(error) => Err(error),
        }
    }
}

/// Walks those of the first `n` of `exprs` that are there, in order.
pub open spec fn walk_optional_exprs(scope: Seq<Token>, exprs: Seq<Option<Expr>>, n: nat) -> Result<
    Seq<Token>,
    SemanticError,
>
    decreases exprs, n,
{
    if n == 0 || n > exprs.len() {
        Ok(scope)
    } else {
        match walk_optional_exprs(scope, exprs, (n - 1) as nat) {
            Ok(after) => match exprs[n - 1] {
                Some(e) => walk_expr(after, e),
                None => Ok(after),
            },
            Err(error) => Err(error),
        }
    }
}

proof fn lemma_previous_definition(scope: Seq<Token>, name: Seq<char>, k: int)
    requires
        0 <= k <= scope.len(),
        forall|j: int| 0 <= j < k ==> (#[trigger] scope[j]).name() != name,
        k < scope.len() ==> scope[k].name() == name,
    ensures
        previous_definition(scope, name) == if k < scope.len() {
            Some(scope[k])
        } else {
            None
        },
    decreases k,
{
    if k > 0 {
        let rest = scope.drop_first();
        assert(scope[0].name() != name);
        assert forall|j: int| 0 <= j < k - 1 implies (#[trigger] rest[j]).name() != name by {
            assert(rest[j] == scope[j + 1]);
        }
        lemma_previous_definition(rest, name, k - 1);
    }
}

/// Checks that no name is declared twice in one scope and that no
/// parameter occurs twice in one parameter list.
pub struct NameRedefinitionChecker {
    scope: Vec<Vec<Token>>,
}

impl NameRedefinitionChecker {
    /// The declarations of the innermost scope.
    pub closed spec fn current(&self) -> Seq<Token> {
        self.scope@.last()@
    }

    /// The enclosing scopes, outermost first.
    pub closed spec fn enclosing(&self) -> Seq<Vec<Token>> {
        self.scope@.drop_last()
    }

    /// The number of open scopes.
    pub closed spec fn depth(&self) -> nat {
        self.scope@.len()
    }

    /// Whether `self` is what `before` becomes when its innermost scope
    /// becomes `scope`.
    pub open spec fn follows(&self, before: &NameRedefinitionChecker, scope: Seq<Token>) -> bool {
        &&& self.depth() == before.depth()
        &&& self.enclosing() == before.enclosing()
        &&& self.current() == scope
    }

    /// Walks a program. The result is the diagnostic for the first name, in
    /// source order, that is declared twice in its scope, or for the first
    /// parameter that occurs twice in its list; it is `Ok` where there is
    /// none.
    pub fn check(ast: &Program) -> (result: Result<(), String>)
        ensures
            walk_expr(Seq::empty(), *ast) is Ok ==> result is Ok,
            walk_expr(Seq::empty(), *ast) matches Err(error) ==> result is Err
                && result->Err_0@ == error.spec_to_string(),
    {
        let mut scope: Vec<Vec<Token>> = Vec::new();
        scope.push(Vec::new());
        let mut visitor = NameRedefinitionChecker { scope };
        match visitor.visit_expr(ast) {
            Ok(_) => Ok(()),
            Err(error) => Err(error.to_string()),
        }
    }

    fn new_scope(&mut self)
        ensures
            final(self).depth() == old(self).depth() + 1,
            final(self).current() == Seq::<Token>::empty(),
            final(self).enclosing() == old(self).scope@,
    {
        self.scope.push(Vec::new());
        assert(self.scope@.drop_last() =~= old(self).scope@);
    }

    fn pop_scope(&mut self)
        requires
            old(self).depth() > 0,
        ensures
            final(self).scope@ == old(self).enclosing(),
    {
        self.scope.pop();
    }

    fn declare_name(&mut self, name: &Token) -> (result: Result<(), Token>)
        requires
            old(self).depth() > 0,
        ensures
            declare(old(self).current(), *name) matches Ok(scope) ==> result is Ok && final(self).follows(old(self), scope),
            declare(old(self).current(), *name) matches Err(previous) ==> result == Err::<
                (),
                Token,
            >(previous),
    {
        let last = self.scope.len() - 1;
        let mut i: usize = 0;
        while i < self.scope[last].len()
            invariant
                *self == *old(self),
                last == self.scope@.len() - 1,
                i <= self.current().len(),
                forall|j: int| 0 <= j < i ==> (#[trigger] self.current()[j]).name() != name.name(),
            decreases self.current().len() - i,
        {
            if self.scope[last][i].same_name(name) {
                proof {
                    lemma_previous_definition(self.current(), name.name(), i as int);
                }
                return Err(self.scope[last][i].clone());
            }
            i += 1;
        }
        proof {
            lemma_previous_definition(self.current(), name.name(), i as int);
        }
        let mut innermost = self.scope.pop().unwrap();
        innermost.push(name.clone());
        self.scope.push(innermost);
        assert(self.scope@.drop_last() =~= old(self).scope@.drop_last());
        Ok(())
    }

    fn declare_parameters(&mut self, args: &Vec<Token>, vararg: Option<&Token>) -> (result: Result<
        (),
        Token,
    >)
        requires
            old(self).depth() > 0,
        ensures
            declare_params(
                old(self).current(),
                all_params(args@, clone_option(vararg)),
                all_params(args@, clone_option(vararg)).len(),
            ) matches Ok(scope) ==> result is Ok && final(self).follows(old(self), scope),
            declare_params(
                old(self).current(),
                all_params(args@, clone_option(vararg)),
                all_params(args@, clone_option(vararg)).len(),
            ) matches Err(repeated) ==> result == Err::<(), Token>(repeated),
    {
        let ghost params = all_params(args@, clone_option(vararg));
        let mut i: usize = 0;
        while i < args.len()
            invariant
                i <= args.len(),
                params == all_params(args@, clone_option(vararg)),
                self.depth() > 0,
                declare_params(old(self).current(), params, i as nat) is Ok,
                self.follows(old(self), declare_params(old(self).current(), params, i as nat)->Ok_0),
            decreases args.len() - i,
        {
            assert(params[i as int] == args@[i as int]);
            match self.declare_name(&args[i]) {
                Ok(_) => {},
                Err(_) => {
                    proof {
                        lemma_declare_params_fails(old(self).current(), params, (i + 1) as nat, params.len());
                    }
                    return Err(args[i].clone());
                },
            }
            i += 1;
        }
        match vararg {
            Some(rest) => {
                assert(params[i as int] == *rest);
                match self.declare_name(rest) {
                    Ok(_) => Ok(()),
                    Err(_) => Err(rest.clone()),
                }
            },
            None => Ok(()),
        }
    }

    fn visit_var_stmt(&mut self, name: &Token, rhs: Option<&Expr>) -> (result: Result<
        (),
        SemanticError,
    >)
        requires
            old(self).depth() > 0,
        ensures
            walk_stmt(old(self).current(), Stmt::VarDeclaration(*name, clone_option(rhs)))
                matches Ok(scope) ==> result is Ok && final(self).follows(old(self), scope),
            walk_stmt(old(self).current(), Stmt::VarDeclaration(*name, clone_option(rhs)))
                matches Err(error) ==> result == Err::<(), SemanticError>(error),
        decreases rhs, 1nat,
    {
        match rhs {
            Some(e) => match self.visit_expr(e) {
                Ok(_) => {},
                Err(error) => {
                    return Err(error);
                },
            },
            None => {},
        }
        match self.declare_name(name) {
            Ok(_) => Ok(()),
            Err(previous) => Err(SemanticError::Redefinition { name: name.clone(), previous }),
        }
    }

    fn visit_function_declaration_statement(
        &mut self,
        name: &Token,
        args: &Vec<Token>,
        vararg: Option<&Token>,
        body: &Expr,
    ) -> (result: Result<(), SemanticError>)
        requires
            old(self).depth() > 0,
        ensures
            walk_stmt(
                old(self).current(),
                Stmt::FunctionDeclaration {
                    name: *name,
                    args: *args,
                    vararg: clone_option(vararg),
                    body: *body,
                },
            ) matches Ok(scope) ==> result is Ok && final(self).follows(old(self), scope),
            walk_stmt(
                old(self).current(),
                Stmt::FunctionDeclaration {
                    name: *name,
                    args: *args,
                    vararg: clone_option(vararg),
                    body: *body,
                },
            ) matches Err(error) ==> result == Err::<(), SemanticError>(error),
        decreases body, 1nat,
    {
        match self.declare_name(name) {
            Ok(_) => {},
            Err(previous) => {
                return Err(SemanticError::Redefinition { name: name.clone(), previous });
            },
        }
        let ghost declared = *self;
        self.new_scope();
        match self.declare_parameters(args, vararg) {
            Ok(_) => {},
            Err(argument) => {
                return Err(
                    SemanticError::FunctionArgumentRepeats { argument, function: name.clone() },
                );
            },
        }
        match self.visit_expr(body) {
            Ok(_) => {},
            Err(error) => {
                return Err(error);
            },
        }
        self.pop_scope();
        assert(self.scope@ =~= declared.scope@);
        Ok(())
    }

    fn visit_block(&mut self, _start_token: &Token, _end_token: &Token, containing_statements: &Vec<Stmt>) -> (result:
        Result<(), SemanticError>)
        requires
            old(self).depth() > 0,
        ensures
            walk_stmts(Seq::empty(), containing_statements@, containing_statements@.len()) is Ok
                ==> result is Ok && final(self).follows(old(self), old(self).current()),
            walk_stmts(Seq::empty(), containing_statements@, containing_statements@.len())
                matches Err(error) ==> result == Err::<(), SemanticError>(error),
        decreases containing_statements, 1nat,
    {
        self.new_scope();
        let ghost opened = *self;
        let mut i: usize = 0;
        while i < containing_statements.len()
            invariant
                i <= containing_statements.len(),
                opened.depth() == old(self).depth() + 1,
                opened.enclosing() == old(self).scope@,
                walk_stmts(Seq::empty(), containing_statements@, i as nat) is Ok,
                self.follows(
                    &opened,
                    walk_stmts(Seq::empty(), containing_statements@, i as nat)->Ok_0,
                ),
            decreases containing_statements.len() - i,
        {
            match self.visit_stmt(&containing_statements[i]) {
                Ok(_) => {},
                Err(error) => {
                    proof {
                        lemma_walk_stmts_fails(
                            Seq::empty(),
                            containing_statements@,
                            (i + 1) as nat,
                            containing_statements@.len(),
                        );
                    }
                    return Err(error);
                },
            }
            i += 1;
        }
        self.pop_scope();
        assert(self.scope@ =~= old(self).scope@);
        Ok(())
    }

    fn visit_anon_function_expr(
        &mut self,
        args: &Vec<Token>,
        vararg: Option<&Token>,
        arrow: &Token,
        body: &Expr,
    ) -> (result: Result<(), SemanticError>)
        requires
            old(self).depth() > 0,
        ensures
            walk_expr(
                old(self).current(),
                Expr::AnonFunction(*args, clone_option(vararg), *arrow, Box::new(*body)),
            ) is Ok ==> result is Ok && final(self).follows(old(self), old(self).current()),
            walk_expr(
                old(self).current(),
                Expr::AnonFunction(*args, clone_option(vararg), *arrow, Box::new(*body)),
            ) matches Err(error) ==> result == Err::<(), SemanticError>(error),
        decreases body, 1nat,
    {
        self.new_scope();
        match self.declare_parameters(args, vararg) {
            Ok(_) => {},
            Err(argument) => {
                return Err(
                    SemanticError::AnonymousArgumentRepeats { argument, arrow: arrow.clone() },
                );
            },
        }
        match self.visit_expr(body) {
            Ok(_) => {},
            Err(error) => {
                return Err(error);
            },
        }
        self.pop_scope();
        assert(self.scope@ =~= old(self).scope@);
        Ok(())
    }

    fn visit_exprs(&mut self, exprs: &Vec<Expr>) -> (result: Result<(), SemanticError>)
        requires
            old(self).depth() > 0,
        ensures
            walk_exprs(old(self).current(), exprs@, exprs@.len()) matches Ok(scope) ==> result is Ok
                && final(self).follows(old(self), scope),
            walk_exprs(old(self).current(), exprs@, exprs@.len()) matches Err(error) ==> result
                == Err::<(), SemanticError>(error),
        decreases exprs, 1nat,
    {
        let mut i: usize = 0;
        while i < exprs.len()
            invariant
                i <= exprs.len(),
                self.depth() > 0,
                walk_exprs(old(self).current(), exprs@, i as nat) is Ok,
                self.follows(old(self), walk_exprs(old(self).current(), exprs@, i as nat)->Ok_0),
            decreases exprs.len() - i,
        {
            match self.visit_expr(&exprs[i]) {
                Ok(_) => {},
                Err(error) => {
                    proof {
                        lemma_walk_exprs_fails(
                            old(self).current(),
                            exprs@,
                            (i + 1) as nat,
                            exprs@.len(),
                        );
                    }
                    return Err(error);
                },
            }
            i += 1;
        }
        Ok(())
    }

    fn visit_optional_exprs(&mut self, exprs: &Vec<Option<Expr>>) -> (result: Result<
        (),
        SemanticError,
    >)
        requires
            old(self).depth() > 0,
        ensures
            walk_optional_exprs(old(self).current(), exprs@, exprs@.len()) matches Ok(scope)
                ==> result is Ok && final(self).follows(old(self), scope),
            walk_optional_exprs(old(self).current(), exprs@, exprs@.len()) matches Err(error)
                ==> result == Err::<(), SemanticError>(error),
        decreases exprs, 1nat,
    {
        let mut i: usize = 0;
        while i < exprs.len()
            invariant
                i <= exprs.len(),
                self.depth() > 0,
                walk_optional_exprs(old(self).current(), exprs@, i as nat) is Ok,
                self.follows(
                    old(self),
                    walk_optional_exprs(old(self).current(), exprs@, i as nat)->Ok_0,
                ),
            decreases exprs.len() - i,
        {
            match &exprs[i] {
                Some(e) => {
                    proof {
                        assert(decreases_to!(exprs => exprs[i as int]));
                    }
                    match self.visit_expr(e) {
                        Ok(_) => {},
                        Err(error) => {
                            proof {
                                lemma_walk_optional_exprs_fails(
                                    old(self).current(),
                                    exprs@,
                                    (i + 1) as nat,
                                    exprs@.len(),
                                );
                            }
                            return Err(error);
                        },
                    }
                },
                None => {},
            }
            i += 1;
        }
        Ok(())
    }

    fn visit_expr(&mut self, e: &Expr) -> (result: Result<(), SemanticError>)
        requires
            old(self).depth() > 0,
        ensures
            walk_expr(old(self).current(), *e) matches Ok(scope) ==> result is Ok && final(self).follows(old(self), scope),
            walk_expr(old(self).current(), *e) matches Err(error) ==> result == Err::<
                (),
                SemanticError,
            >(error),
        decreases e, 0nat,
    {
        match e {
            Expr::Number(_) => Ok(()),
            Expr::ConstString(_) => Ok(()),
            Expr::Name(_) => Ok(()),
            Expr::Binary(_, lhs, rhs) => {
                match self.visit_expr(lhs) {
                    Ok(_) => {},
                    Err(error) => {
                        return Err(error);
                    },
                }
                self.visit_expr(rhs)
            },
            Expr::Unary(_, operand) => self.visit_expr(operand),
            Expr::If(condition, then_branch, else_branch) => {
                match self.visit_expr(condition) {
                    Ok(_) => {},
                    Err(error) => {
                        return Err(error);
                    },
                }
                match self.visit_expr(then_branch) {
                    Ok(_) => {},
                    Err(error) => {
                        return Err(error);
                    },
                }
                match else_branch {
                    Some(otherwise) => self.visit_expr(otherwise),
                    None => Ok(()),
                }
            },
            Expr::Block(start_token, end_token, stmts) => self.visit_block(
                start_token,
                end_token,
                stmts,
            ),
            Expr::SingleStatement(stmt) => self.visit_stmt(stmt),
            Expr::Call(callee, args) => {
                match self.visit_expr(callee) {
                    Ok(_) => {},
                    Err(error) => {
                        return Err(error);
                    },
                }
                self.visit_exprs(args)
            },
            Expr::PartialCall(callee, args) => {
                match self.visit_expr(callee) {
                    Ok(_) => {},
                    Err(error) => {
                        return Err(error);
                    },
                }
                self.visit_optional_exprs(args)
            },
            Expr::PropertyAccess(target, _) => self.visit_expr(target),
            Expr::PropertyTest(target, _) => self.visit_expr(target),
            Expr::AnonFunction(args, vararg, arrow, body) => self.visit_anon_function_expr(
                args,
                vararg.as_ref(),
                arrow,
                body,
            ),
        }
    }

    fn visit_stmt(&mut self, s: &Stmt) -> (result: Result<(), SemanticError>)
        requires
            old(self).depth() > 0,
        ensures
            walk_stmt(old(self).current(), *s) matches Ok(scope) ==> result is Ok && final(self).follows(old(self), scope),
            walk_stmt(old(self).current(), *s) matches Err(error) ==> result == Err::<
                (),
                SemanticError,
            >(error),
        decreases s, 0nat,
    {
        match s {
            Stmt::Print(_, e) => self.visit_expr(e),
            Stmt::VarDeclaration(name, rhs) => self.visit_var_stmt(name, rhs.as_ref()),
            Stmt::Assignment(_, e) => self.visit_expr(e),
            Stmt::PropertyAssignment(target, e) => {
                match self.visit_expr(target) {
                    Ok(_) => {},
                    Err(error) => {
                        return Err(error);
                    },
                }
                self.visit_expr(e)
            },
            Stmt::Expression(e) => self.visit_expr(e),
            Stmt::Assert(_, e) => self.visit_expr(e),
            Stmt::Pass(_) => Ok(()),
            Stmt::FunctionDeclaration { name, args, vararg, body } => {
                self.visit_function_declaration_statement(name, args, vararg.as_ref(), body)
            },
            Stmt::StructDeclaration { name, fields } => match self.declare_name(name) {
                Ok(_) => Ok(()),
                Err(previous) => Err(SemanticError::Redefinition { name: name.clone(), previous }),
            },
            Stmt::EnumDeclaration { name, variants } => match self.declare_name(name) {
                Ok(_) => Ok(()),
                Err(previous) => Err(SemanticError::Redefinition { name: name.clone(), previous }),
            },
            Stmt::ImplBlock { name, implementations } => self.visit_block(
                name,
                name,
                implementations,
            ),
        }
    }
}

/// What an optional reference refers to, as an optional value.
pub open spec fn clone_option<T>(reference: Option<&T>) -> Option<T> {
    match reference {
        Some(r) => Some(*r),
        None => None,
    }
}

proof fn lemma_declare_params_fails(scope: Seq<Token>, params: Seq<Token>, k: nat, n: nat)
    requires
        declare_params(scope, params, k) is Err,
        k <= n <= params.len(),
    ensures
        declare_params(scope, params, n) == declare_params(scope, params, k),
    decreases n - k,
{
    if k < n {
        lemma_declare_params_fails(scope, params, k, (n - 1) as nat);
    }
}

proof fn lemma_walk_stmts_fails(scope: Seq<Token>, stmts: Seq<Stmt>, k: nat, n: nat)
    requires
        walk_stmts(scope, stmts, k) is Err,
        k <= n <= stmts.len(),
    ensures
        walk_stmts(scope, stmts, n) == walk_stmts(scope, stmts, k),
    decreases n - k,
{
    if k < n {
        lemma_walk_stmts_fails(scope, stmts, k, (n - 1) as nat);
    }
}

proof fn lemma_walk_exprs_fails(scope: Seq<Token>, exprs: Seq<Expr>, k: nat, n: nat)
    requires
        walk_exprs(scope, exprs, k) is Err,
        k <= n <= exprs.len(),
    ensures
        walk_exprs(scope, exprs, n) == walk_exprs(scope, exprs, k),
    decreases n - k,
{
    if k < n {
        lemma_walk_exprs_fails(scope, exprs, k, (n - 1) as nat);
    }
}

proof fn lemma_walk_optional_exprs_fails(
    scope: Seq<Token>,
    exprs: Seq<Option<Expr>>,
    k: nat,
    n: nat,
)
    requires
        walk_optional_exprs(scope, exprs, k) is Err,
        k <= n <= exprs.len(),
    ensures
        walk_optional_exprs(scope, exprs, n) == walk_optional_exprs(scope, exprs, k),
    decreases n - k,
{
    if k < n {
        lemma_walk_optional_exprs_fails(scope, exprs, k, (n - 1) as nat);
    }
}

} // verus!
