use vstd::prelude::*;
use crate::parsing::ast::{EnumVariant, Expr, Stmt};
use crate::parsing::grammar::{arguments_at, assignment_at, block_at, call_at, chain, elifs_at, expr_at, expr_model, expr_models, field_block_at, function_at, if_at, is_at, level_at, method_block_at, more_arguments, more_methods, more_names, more_shapes, more_slots, more_stmts, name_at, names_from, operands_at, operator_at, optional_models, parameters_at, program_at, shape_at, simple_at, skip_comma, skip_line_end, slot_at, slots_at, stmt_at, stmt_model, stmt_models, fields_at, skip_then, suffixes_at, term_at, vararg_at, variant_block_at, branch_models, methods_from, implementation_at, keyword_at, property_assignment_at, stmts_from, type_at, variable_at, variant_models, ExprModel, StmtModel};
use crate::parsing::lexer::{Token, TokenKind};

verus! {

/// Why tokens are no program: the index of the token furthest into the
/// tokens at which a rule of the grammar could not go on.
#[derive(Clone, Copy, Debug, PartialEq, Eq, Structural)]
pub struct ParseError {
    pub location: usize,
}

/// Whether two token kinds are the same keyword or sign.
fn same_sign(a: &TokenKind, b: &TokenKind) -> (same: bool)
    requires
        !(*b is Number) && !(*b is Name) && !(*b is ConstString),
    ensures
        same == (*a == *b),
{
    match (a, b) {
            (TokenKind::Var, TokenKind::Var) => true,
            (TokenKind::Def, TokenKind::Def) => true,
            (TokenKind::Struct, TokenKind::Struct) => true,
            (TokenKind::Enum, TokenKind::Enum) => true,
            (TokenKind::Impl, TokenKind::Impl) => true,
            (TokenKind::Print, TokenKind::Print) => true,
            (TokenKind::Assert, TokenKind::Assert) => true,
            (TokenKind::Pass, TokenKind::Pass) => true,
            (TokenKind::If, TokenKind::If) => true,
            (TokenKind::Then, TokenKind::Then) => true,
            (TokenKind::ELif, TokenKind::ELif) => true,
            (TokenKind::Else, TokenKind::Else) => true,
            (TokenKind::And, TokenKind::And) => true,
            (TokenKind::Or, TokenKind::Or) => true,
            (TokenKind::Not, TokenKind::Not) => true,
            (TokenKind::BeginBlock, TokenKind::BeginBlock) => true,
            (TokenKind::EndBlock, TokenKind::EndBlock) => true,
            (TokenKind::LineEnd, TokenKind::LineEnd) => true,
            (TokenKind::Equals, TokenKind::Equals) => true,
            (TokenKind::Colon, TokenKind::Colon) => true,
            (TokenKind::LParen, TokenKind::LParen) => true,
            (TokenKind::RParen, TokenKind::RParen) => true,
            (TokenKind::Comma, TokenKind::Comma) => true,
            (TokenKind::Dot, TokenKind::Dot) => true,
            (TokenKind::QuestionMark, TokenKind::QuestionMark) => true,
            (TokenKind::Blank, TokenKind::Blank) => true,
            (TokenKind::Arrow, TokenKind::Arrow) => true,
            (TokenKind::CompareEquals, TokenKind::CompareEquals) => true,
            (TokenKind::CompareNotEquals, TokenKind::CompareNotEquals) => true,
            (TokenKind::CompareGreater, TokenKind::CompareGreater) => true,
            (TokenKind::CompareGreaterEqual, TokenKind::CompareGreaterEqual) => true,
            (TokenKind::CompareLess, TokenKind::CompareLess) => true,
            (TokenKind::CompareLessEqual, TokenKind::CompareLessEqual) => true,
            (TokenKind::Plus, TokenKind::Plus) => true,
            (TokenKind::Minus, TokenKind::Minus) => true,
            (TokenKind::Star, TokenKind::Star) => true,
            (TokenKind::Slash, TokenKind::Slash) => true,
            (TokenKind::Mod, TokenKind::Mod) => true,
            (TokenKind::Power, TokenKind::Power) => true,
        _ => false,
    }
}

/// The parser: the tokens, and the index of the token furthest into them
/// at which a token was looked for and not found.
pub struct Parser<'a> {
    pub tokens: &'a Vec<Token>,
    pub furthest: usize,
}

impl<'a> Parser<'a> {
    /// Whether the token at `pos` is of the kind `kind`.
    fn at(&mut self, pos: usize, kind: TokenKind) -> (found: bool)
        requires
            !(kind is Number) && !(kind is Name) && !(kind is ConstString),
        ensures
            found == is_at(old(self).tokens@, pos as nat, kind),
            found ==> pos < old(self).tokens@.len() <= usize::MAX,
            final(self).tokens == old(self).tokens,
    {
        let found = pos < self.tokens.len() && same_sign(&self.tokens[pos].kind, &kind);
        if !found && pos > self.furthest {
            self.furthest = pos;
        }
        found
    }

    /// The position after the line end at `pos`, if there is one.
    fn skip_line_end(&mut self, pos: usize) -> (after: usize)
        requires
            pos <= old(self).tokens@.len(),
        ensures
            after == skip_line_end(old(self).tokens@, pos as nat),
            pos <= after <= old(self).tokens@.len(),
            final(self).tokens == old(self).tokens,
    {
        if self.at(pos, TokenKind::LineEnd) {
            pos + 1
        } else {
            pos
        }
    }

    /// The position after the `then` at `pos`, if there is one.
    fn skip_then(&mut self, pos: usize) -> (after: usize)
        requires
            pos <= old(self).tokens@.len(),
        ensures
            after == skip_then(old(self).tokens@, pos as nat),
            pos <= after <= old(self).tokens@.len(),
            final(self).tokens == old(self).tokens,
    {
        if self.at(pos, TokenKind::Then) {
            pos + 1
        } else {
            pos
        }
    }

    /// The position after the comma at `pos`, if there is one.
    fn skip_comma(&mut self, pos: usize) -> (after: usize)
        requires
            pos <= old(self).tokens@.len(),
        ensures
            after == skip_comma(old(self).tokens@, pos as nat),
            pos <= after <= old(self).tokens@.len(),
            final(self).tokens == old(self).tokens,
    {
        if self.at(pos, TokenKind::Comma) {
            pos + 1
        } else {
            pos
        }
    }

    /// The name at `pos`.
    fn name(&mut self, pos: usize) -> (found: Option<(Token, usize)>)
        ensures
            final(self).tokens == old(self).tokens,
            name_at(old(self).tokens@, pos as nat) is None ==> found is None,
            name_at(old(self).tokens@, pos as nat) matches Some((token, after)) ==> found == Some(
                (token, after as usize),
            ) && after == pos + 1 && after <= old(self).tokens@.len() <= usize::MAX,
    {
        if pos < self.tokens.len() {
            match self.tokens[pos].kind {
                TokenKind::Name(_) => {
                    return Some((self.tokens[pos].clone(), pos + 1));
                },
                _ => {},
            }
        }
        if pos > self.furthest {
            self.furthest = pos;
        }
        None
    }

    /// Names from `pos` on with a token of the kind `separator` between
    /// each two.
    fn names(&mut self, pos: usize, separator: TokenKind) -> (found: (Vec<Token>, usize))
        requires
            pos <= old(self).tokens@.len(),
            separator == TokenKind::Comma || separator == TokenKind::LineEnd,
        ensures
            final(self).tokens == old(self).tokens,
            (found.0@, found.1 as nat) == names_from(old(self).tokens@, pos as nat, separator),
            pos <= found.1 <= old(self).tokens@.len(),
    {
        let ghost tokens = self.tokens@;
        let mut names: Vec<Token> = Vec::new();
        let first = match self.name(pos) {
            Some(found) => found,
            None => {
                return (names, pos);
            },
        };
        names.push(first.0);
        let mut at = first.1;
        proof {
            assert(names@ + more_names(tokens, at as nat, separator).0 =~= names_from(
                tokens,
                pos as nat,
                separator,
            ).0);
        }
        let mut done = false;
        while !done
            invariant
                self.tokens == old(self).tokens,
                self.tokens@ == tokens,
                pos <= at <= tokens.len(),
                separator == TokenKind::Comma || separator == TokenKind::LineEnd,
                names@ + more_names(tokens, at as nat, separator).0 == names_from(
                    tokens,
                    pos as nat,
                    separator,
                ).0,
                more_names(tokens, at as nat, separator).1 == names_from(
                    tokens,
                    pos as nat,
                    separator,
                ).1,
                done ==> more_names(tokens, at as nat, separator) == (Seq::<Token>::empty(), at as nat),
            decreases tokens.len() - at, if done { 0int } else { 1int },
        {
            let separated = match separator {
                TokenKind::Comma => self.at(at, TokenKind::Comma),
                _ => self.at(at, TokenKind::LineEnd),
            };
            if !separated {
                done = true;
            } else {
                match self.name(at + 1) {
                    Some((name, after)) => {
                        proof {
                            let rest = more_names(tokens, after as nat, separator).0;
                            assert(names@.push(name) + rest =~= names@ + (seq![name] + rest));
                        }
                        names.push(name);
                        at = after;
                    },
                    None => {
                        done = true;
                    },
                }
            }
        }
        proof {
            assert(names@ + Seq::<Token>::empty() =~= names@);
        }
        (names, at)
    }

    /// The parameter that takes the surplus arguments.
    fn vararg(&mut self, pos: usize) -> (found: Option<(Token, usize)>)
        ensures
            final(self).tokens == old(self).tokens,
            vararg_at(old(self).tokens@, pos as nat) is None ==> found is None,
            vararg_at(old(self).tokens@, pos as nat) matches Some((token, after)) ==> found == Some(
                (token, after as usize),
            ) && pos < after <= old(self).tokens@.len() <= usize::MAX,
    {
        if self.at(pos, TokenKind::Star) {
            self.name(pos + 1)
        } else {
            None
        }
    }

    /// A list of parameters in parentheses.
    fn parameters(&mut self, pos: usize) -> (found: Option<(Vec<Token>, Option<Token>, usize)>)
        ensures
            final(self).tokens == old(self).tokens,
            parameters_at(old(self).tokens@, pos as nat) is None ==> found is None,
            parameters_at(old(self).tokens@, pos as nat) matches Some((args, vararg, after))
                ==> found is Some && found->Some_0.0@ == args && found->Some_0.1 == vararg
                && found->Some_0.2 == after && pos < after <= old(self).tokens@.len(),
    {
        if !self.at(pos, TokenKind::LParen) {
            return None;
        }
        let (names, after) = self.names(pos + 1, TokenKind::Comma);
        if self.at(after, TokenKind::Comma) {
            match self.vararg(after + 1) {
                Some((rest, end)) => {
                    let close = self.skip_comma(end);
                    if self.at(close, TokenKind::RParen) {
                        return Some((names, Some(rest), close + 1));
                    }
                },
                None => {},
            }
        }
        let close = self.skip_comma(after);
        if self.at(close, TokenKind::RParen) {
            return Some((names, None, close + 1));
        }
        match self.vararg(pos + 1) {
            Some((rest, end)) => {
                let close = self.skip_comma(end);
                if self.at(close, TokenKind::RParen) {
                    Some((Vec::new(), Some(rest), close + 1))
                } else {
                    None
                }
            },
            None => None,
        }
    }

    /// The names of a struct's fields in a block, with one kind of
    /// separator between them.
    fn fields(&mut self, pos: usize, separator: TokenKind) -> (found: Option<(Vec<Token>, usize)>)
        requires
            separator == TokenKind::Comma || separator == TokenKind::LineEnd,
        ensures
            final(self).tokens == old(self).tokens,
            fields_at(old(self).tokens@, pos as nat, separator) is None ==> found is None,
            fields_at(old(self).tokens@, pos as nat, separator) matches Some((names, after))
                ==> found is Some && found->Some_0.0@ == names && found->Some_0.1 == after && pos
                < after <= old(self).tokens@.len(),
    {
        if !self.at(pos, TokenKind::BeginBlock) {
            return None;
        }
        let start = self.skip_line_end(pos + 1);
        let (names, after) = self.names(start, separator);
        let close = self.skip_line_end(after);
        if self.at(close, TokenKind::EndBlock) {
            Some((names, close + 1))
        } else {
            None
        }
    }

    /// The names of a struct's fields in a block.
    fn field_block(&mut self, pos: usize) -> (found: Option<(Vec<Token>, usize)>)
        ensures
            final(self).tokens == old(self).tokens,
            field_block_at(old(self).tokens@, pos as nat) is None ==> found is None,
            field_block_at(old(self).tokens@, pos as nat) matches Some((names, after))
                ==> found is Some && found->Some_0.0@ == names && found->Some_0.1 == after && pos
                < after <= old(self).tokens@.len(),
    {
        match self.fields(pos, TokenKind::LineEnd) {
            Some(found) => Some(found),
            None => self.fields(pos, TokenKind::Comma),
        }
    }

    /// A name, and after a colon the block of its fields, if any.
    fn shape(&mut self, pos: usize) -> (found: Option<(Token, Vec<Token>, usize)>)
        ensures
            final(self).tokens == old(self).tokens,
            shape_at(old(self).tokens@, pos as nat) is None ==> found is None,
            shape_at(old(self).tokens@, pos as nat) matches Some((name, fields, after))
                ==> found is Some && found->Some_0.0 == name && found->Some_0.1@ == fields
                && found->Some_0.2 == after && pos < after <= old(self).tokens@.len(),
    {
        match self.name(pos) {
            Some((name, after)) => {
                if self.at(after, TokenKind::Colon) {
                    match self.field_block(after + 1) {
                        Some((fields, end)) => {
                            return Some((name, fields, end));
                        },
                        None => {},
                    }
                }
                Some((name, Vec::new(), after))
            },
            None => None,
        }
    }

    /// The variants of an enumeration in a block.
    fn variant_block(&mut self, pos: usize) -> (found: Option<(Vec<EnumVariant>, usize)>)
        ensures
            final(self).tokens == old(self).tokens,
            variant_block_at(old(self).tokens@, pos as nat) is None ==> found is None,
            variant_block_at(old(self).tokens@, pos as nat) matches Some((variants, after))
                ==> found is Some && variant_models(found->Some_0.0@) == variants && found->Some_0.1
                == after && pos < after <= old(self).tokens@.len(),
    {
        let ghost tokens = self.tokens@;
        if !self.at(pos, TokenKind::BeginBlock) {
            return None;
        }
        let start = self.skip_line_end(pos + 1);
        let mut variants: Vec<EnumVariant> = Vec::new();
        let mut at = start;
        match self.shape(start) {
            Some((name, fields, next)) => {
                variants.push(EnumVariant { name, fields });
                at = next;
                proof {
                    assert(variant_models(variants@) =~= seq![(name, fields@)]);
                }
                let mut done = false;
                while !done
                    invariant
                        self.tokens == old(self).tokens,
                        self.tokens@ == tokens,
                        start < at <= tokens.len(),
                        next <= at,
                        variant_models(variants@) + more_shapes(tokens, at as nat).0 == seq![
                            (name, fields@),
                        ] + more_shapes(tokens, next as nat).0,
                        more_shapes(tokens, at as nat).1 == more_shapes(tokens, next as nat).1,
                        done ==> more_shapes(tokens, at as nat) == (
                            Seq::<(Token, Seq<Token>)>::empty(),
                            at as nat,
                        ),
                    decreases tokens.len() - at, if done { 0int } else { 1int },
                {
                    if !self.at(at, TokenKind::LineEnd) {
                        done = true;
                    } else {
                        match self.shape(at + 1) {
                            Some((variant, shape, after)) => {
                                proof {
                                    let rest = more_shapes(tokens, after as nat).0;
                                    assert(variant_models(
                                        variants@.push(EnumVariant { name: variant, fields: shape }),
                                    ) =~= variant_models(variants@).push((variant, shape@)));
                                    assert(variant_models(variants@).push((variant, shape@)) + rest
                                        =~= variant_models(variants@) + (seq![(variant, shape@)]
                                        + rest));
                                }
                                variants.push(EnumVariant { name: variant, fields: shape });
                                at = after;
                            },
                            None => {
                                done = true;
                            },
                        }
                    }
                }
                proof {
                    assert(variant_models(variants@) + Seq::<(Token, Seq<Token>)>::empty()
                        =~= variant_models(variants@));
                }
            },
            None => {
                proof {
                    assert(variant_models(variants@) =~= Seq::<(Token, Seq<Token>)>::empty());
                }
            },
        }
        let close = self.skip_line_end(at);
        if self.at(close, TokenKind::EndBlock) {
            Some((variants, close + 1))
        } else {
            None
        }
    }

    /// Whether `found` is what the grammar makes of the tokens: nothing
    /// where the grammar finds nothing, and else the expression and the
    /// position after it.
    pub open spec fn parsed(
        found: Option<(Expr, usize)>,
        expected: Option<(ExprModel, nat)>,
        pos: usize,
        len: nat,
    ) -> bool {
        match expected {
            None => found is None,
            Some((model, after)) => found is Some && expr_model(found->Some_0.0) == model
                && found->Some_0.1 == after && pos <= after <= len,
        }
    }

    /// Whether `found` is what the grammar makes of the tokens, for a
    /// statement.
    pub open spec fn parsed_stmt(
        found: Option<(Stmt, usize)>,
        expected: Option<(StmtModel, nat)>,
        pos: usize,
        len: nat,
    ) -> bool {
        match expected {
            None => found is None,
            Some((model, after)) => found is Some && stmt_model(found->Some_0.0) == model
                && found->Some_0.1 == after && pos <= after <= len,
        }
    }

    /// An expression: a block, a conditional, or a simple expression.
    fn expr(&mut self, pos: usize) -> (found: Option<(Expr, usize)>)
        ensures
            final(self).tokens == old(self).tokens,
            Self::parsed(
                found,
                expr_at(old(self).tokens@, pos as nat),
                pos,
                old(self).tokens@.len(),
            ),
        decreases old(self).tokens@.len() - pos, 25nat, 0nat,
    {
        if pos >= self.tokens.len() {
            return None;
        }
        if self.at(pos, TokenKind::BeginBlock) {
            match self.block(pos) {
                Some(found) => Some(found),
                None => self.simple(pos),
            }
        } else if self.at(pos, TokenKind::If) {
            match self.conditional(pos) {
                Some(found) => Some(found),
                None => self.simple(pos),
            }
        } else {
            self.simple(pos)
        }
    }

    /// A block.
    fn block(&mut self, pos: usize) -> (found: Option<(Expr, usize)>)
        ensures
            final(self).tokens == old(self).tokens,
            Self::parsed(
                found,
                block_at(old(self).tokens@, pos as nat),
                pos,
                old(self).tokens@.len(),
            ),
        decreases old(self).tokens@.len() - pos, 20nat, 5nat,
    {
        if !self.at(pos, TokenKind::BeginBlock) {
            return None;
        }
        let begin = self.tokens[pos].clone();
        let start = self.skip_line_end(pos + 1);
        let (stmts, at) = self.statements(start);
        let close = self.skip_line_end(at);
        if self.at(close, TokenKind::EndBlock) {
            let end = self.tokens[close].clone();
            Some((Expr::Block(begin, end, stmts), close + 1))
        } else {
            None
        }
    }

    /// Statements from `pos` on with line ends between them.
    fn statements(&mut self, pos: usize) -> (found: (Vec<Stmt>, usize))
        requires
            pos <= old(self).tokens@.len(),
        ensures
            final(self).tokens == old(self).tokens,
            (stmt_models(found.0@, found.0@.len()), found.1 as nat) == stmts_from(
                old(self).tokens@,
                pos as nat,
            ),
            pos <= found.1 <= old(self).tokens@.len(),
        decreases old(self).tokens@.len() - pos, 45nat, 0nat,
    {
        let ghost tokens = self.tokens@;
        let mut stmts: Vec<Stmt> = Vec::new();
        let (first, next) = match self.stmt(pos) {
            Some(found) => found,
            None => {
                return (stmts, pos);
            },
        };
        if next <= pos {
            return (stmts, pos);
        }
        let ghost first_model = stmt_model(first);
        stmts.push(first);
        let mut at = next;
        proof {
            lemma_stmt_models_push(Seq::empty(), stmts@[0]);
            assert(stmts@ =~= Seq::<Stmt>::empty().push(stmts@[0]));
            assert(stmt_models(stmts@, stmts@.len()) =~= seq![first_model]);
        }
        let mut done = false;
        while !done
            invariant
                self.tokens == old(self).tokens,
                self.tokens@ == tokens,
                pos < next <= at <= tokens.len(),
                stmt_models(stmts@, stmts@.len()) + more_stmts(tokens, at as nat).0 == seq![
                    first_model,
                ] + more_stmts(tokens, next as nat).0,
                more_stmts(tokens, at as nat).1 == more_stmts(tokens, next as nat).1,
                done ==> more_stmts(tokens, at as nat) == (Seq::<StmtModel>::empty(), at as nat),
            decreases tokens.len() - at, if done { 0int } else { 1int },
        {
            if !self.at(at, TokenKind::LineEnd) {
                done = true;
            } else {
                match self.stmt(at + 1) {
                    Some((stmt, after)) => {
                        if after > at {
                            proof {
                                let rest = more_stmts(tokens, after as nat).0;
                                lemma_stmt_models_push(stmts@, stmt);
                                assert(stmt_models(stmts@, stmts@.len()).push(stmt_model(stmt))
                                    + rest =~= stmt_models(stmts@, stmts@.len()) + (seq![
                                    stmt_model(stmt),
                                ] + rest));
                            }
                            stmts.push(stmt);
                            at = after;
                        } else {
                            done = true;
                        }
                    },
                    None => {
                        done = true;
                    },
                }
            }
        }
        proof {
            assert(stmt_models(stmts@, stmts@.len()) + Seq::<StmtModel>::empty() =~= stmt_models(
                stmts@,
                stmts@.len(),
            ));
        }
        (stmts, at)
    }

    /// The declaration of a variable.
    fn variable(&mut self, pos: usize) -> (found: Option<(Stmt, usize)>)
        ensures
            final(self).tokens == old(self).tokens,
            Self::parsed_stmt(
                found,
                variable_at(old(self).tokens@, pos as nat),
                pos,
                old(self).tokens@.len(),
            ),
        decreases old(self).tokens@.len() - pos, 28nat, 0nat,
    {
        if !self.at(pos, TokenKind::Var) {
            return None;
        }
        match self.name(pos + 1) {
            Some((name, after)) => {
                if self.at(after, TokenKind::Equals) {
                    match self.expr(after + 1) {
                        Some((e, end)) => {
                            return Some((Stmt::VarDeclaration(name, Some(e)), end));
                        },
                        None => {},
                    }
                }
                Some((Stmt::VarDeclaration(name, None), after))
            },
            None => None,
        }
    }

    /// The declaration of a struct or of an enumeration.
    fn type_declaration(&mut self, pos: usize) -> (found: Option<(Stmt, usize)>)
        ensures
            final(self).tokens == old(self).tokens,
            Self::parsed_stmt(
                found,
                type_at(old(self).tokens@, pos as nat),
                pos,
                old(self).tokens@.len(),
            ),
    {
        if self.at(pos, TokenKind::Struct) {
            match self.shape(pos + 1) {
                Some((name, fields, end)) => Some((Stmt::StructDeclaration { name, fields }, end)),
                None => None,
            }
        } else if self.at(pos, TokenKind::Enum) {
            match self.name(pos + 1) {
                Some((name, after)) => {
                    if self.at(after, TokenKind::Colon) {
                        match self.variant_block(after + 1) {
                            Some((variants, end)) => {
                                return Some((Stmt::EnumDeclaration { name, variants }, end));
                            },
                            None => {},
                        }
                    }
                    let none: Vec<EnumVariant> = Vec::new();
                    proof {
                        assert(variant_models(none@) =~= Seq::<(Token, Seq<Token>)>::empty());
                    }
                    Some((Stmt::EnumDeclaration { name, variants: none }, after))
                },
                None => None,
            }
        } else {
            None
        }
    }

    /// An implementation block.
    fn implementation(&mut self, pos: usize) -> (found: Option<(Stmt, usize)>)
        ensures
            final(self).tokens == old(self).tokens,
            Self::parsed_stmt(
                found,
                implementation_at(old(self).tokens@, pos as nat),
                pos,
                old(self).tokens@.len(),
            ),
        decreases old(self).tokens@.len() - pos, 43nat, 0nat,
    {
        if !self.at(pos, TokenKind::Impl) {
            return None;
        }
        match self.name(pos + 1) {
            Some((name, after)) => {
                if self.at(after, TokenKind::Colon) {
                    match self.method_block(after + 1) {
                        Some((implementations, end)) => Some(
                            (implementation_of(name, implementations), end),
                        ),
                        None => None,
                    }
                } else {
                    None
                }
            },
            None => None,
        }
    }

    /// An assertion, `pass`, or a print.
    fn keyword_stmt(&mut self, pos: usize) -> (found: Option<(Stmt, usize)>)
        ensures
            final(self).tokens == old(self).tokens,
            Self::parsed_stmt(
                found,
                keyword_at(old(self).tokens@, pos as nat),
                pos,
                old(self).tokens@.len(),
            ),
        decreases old(self).tokens@.len() - pos, 28nat, 0nat,
    {
        if self.at(pos, TokenKind::Assert) {
            match self.expr(pos + 1) {
                Some((e, end)) => Some((Stmt::Assert(self.tokens[pos].clone(), e), end)),
                None => None,
            }
        } else if self.at(pos, TokenKind::Pass) {
            Some((Stmt::Pass(self.tokens[pos].clone()), pos + 1))
        } else if self.at(pos, TokenKind::Print) {
            match self.expr(pos + 1) {
                Some((e, end)) => Some((Stmt::Print(self.tokens[pos].clone(), e), end)),
                None => None,
            }
        } else {
            None
        }
    }

    /// A statement.
    fn stmt(&mut self, pos: usize) -> (found: Option<(Stmt, usize)>)
        ensures
            final(self).tokens == old(self).tokens,
            Self::parsed_stmt(
                found,
                stmt_at(old(self).tokens@, pos as nat),
                pos,
                old(self).tokens@.len(),
            ),
        decreases old(self).tokens@.len() - pos, 44nat, 0nat,
    {
        if pos >= self.tokens.len() {
            return None;
        }
        match self.variable(pos) {
            Some(found) => {
                return Some(found);
            },
            None => {},
        }
        match self.function(pos) {
            Some(found) => {
                return Some(found);
            },
            None => {},
        }
        match self.type_declaration(pos) {
            Some(found) => {
                return Some(found);
            },
            None => {},
        }
        match self.implementation(pos) {
            Some(found) => {
                return Some(found);
            },
            None => {},
        }
        match self.assignment(pos) {
            Some(found) => {
                return Some(found);
            },
            None => {},
        }
        match self.keyword_stmt(pos) {
            Some(found) => {
                return Some(found);
            },
            None => {},
        }
        match self.expr(pos) {
            Some((e, end)) => Some((Stmt::Expression(e), end)),
            None => None,
        }
    }

    /// An assignment to a property.
    fn property_assignment(&mut self, pos: usize) -> (found: Option<(Stmt, usize)>)
        ensures
            final(self).tokens == old(self).tokens,
            Self::parsed_stmt(
                found,
                property_assignment_at(old(self).tokens@, pos as nat),
                pos,
                old(self).tokens@.len(),
            ),
        decreases old(self).tokens@.len() - pos, 6nat, 0nat,
    {
        match self.call(pos) {
            Some((target, after)) => {
                if is_property_access(&target) && self.at(after, TokenKind::Equals) {
                    match self.expr(after + 1) {
                        Some((e, end)) => {
                            let ghost target_model = expr_model(target);
                            let ghost value_model = expr_model(e);
                            let stmt = Stmt::PropertyAssignment(target, e);
                            assert(stmt_model(stmt) == StmtModel::PropertyAssignment(
                                target_model,
                                value_model,
                            ));
                            Some((stmt, end))
                        },
                        None => None,
                    }
                } else {
                    None
                }
            },
            None => None,
        }
    }

    /// An assignment.
    fn assignment(&mut self, pos: usize) -> (found: Option<(Stmt, usize)>)
        ensures
            final(self).tokens == old(self).tokens,
            Self::parsed_stmt(
                found,
                assignment_at(old(self).tokens@, pos as nat),
                pos,
                old(self).tokens@.len(),
            ),
        decreases old(self).tokens@.len() - pos, 7nat, 0nat,
    {
        match self.property_assignment(pos) {
            Some(found) => {
                return Some(found);
            },
            None => {},
        }
        match self.name(pos) {
            Some((name, after)) => {
                if self.at(after, TokenKind::Equals) {
                    match self.expr(after + 1) {
                        Some((e, end)) => Some((Stmt::Assignment(name, e), end)),
                        None => None,
                    }
                } else {
                    None
                }
            },
            None => None,
        }
    }

    /// The declaration of a function.
    fn function(&mut self, pos: usize) -> (found: Option<(Stmt, usize)>)
        ensures
            final(self).tokens == old(self).tokens,
            Self::parsed_stmt(
                found,
                function_at(old(self).tokens@, pos as nat),
                pos,
                old(self).tokens@.len(),
            ),
        decreases old(self).tokens@.len() - pos, 20nat, 6nat,
    {
        if !self.at(pos, TokenKind::Def) {
            return None;
        }
        let (name, after) = match self.name(pos + 1) {
            Some(found) => found,
            None => {
                return None;
            },
        };
        let mut head: Option<(Vec<Token>, Option<Token>, usize)> = None;
        match self.parameters(after) {
            Some((args, vararg, next)) => {
                if self.at(next, TokenKind::Equals) {
                    head = Some((args, vararg, next + 1));
                }
            },
            None => {},
        }
        let head = match head {
            Some(found) => Some(found),
            None => {
                if self.at(after, TokenKind::Equals) {
                    Some((Vec::new(), None, after + 1))
                } else {
                    None
                }
            },
        };
        match head {
            Some((args, vararg, start)) => {
                if start > pos {
                    match self.expr(start) {
                        Some((body, end)) => Some(
                            (Stmt::FunctionDeclaration { name, args, vararg, body }, end),
                        ),
                        None => None,
                    }
                } else {
                    None
                }
            },
            None => None,
        }
    }

    /// The methods of an implementation block.
    fn method_block(&mut self, pos: usize) -> (found: Option<(Vec<Stmt>, usize)>)
        ensures
            final(self).tokens == old(self).tokens,
            method_block_at(old(self).tokens@, pos as nat) is None ==> found is None,
            method_block_at(old(self).tokens@, pos as nat) matches Some((methods, after))
                ==> found is Some && stmt_models(found->Some_0.0@, found->Some_0.0@.len())
                == methods && found->Some_0.1 == after && pos < after <= old(self).tokens@.len(),
        decreases old(self).tokens@.len() - pos, 42nat, 0nat,
    {
        if !self.at(pos, TokenKind::BeginBlock) {
            return None;
        }
        let start = self.skip_line_end(pos + 1);
        let (methods, at) = self.methods(start);
        let close = self.skip_line_end(at);
        if self.at(close, TokenKind::EndBlock) {
            Some((methods, close + 1))
        } else {
            None
        }
    }

    /// Methods from `pos` on with line ends between them.
    fn methods(&mut self, pos: usize) -> (found: (Vec<Stmt>, usize))
        requires
            pos <= old(self).tokens@.len(),
        ensures
            final(self).tokens == old(self).tokens,
            (stmt_models(found.0@, found.0@.len()), found.1 as nat) == methods_from(
                old(self).tokens@,
                pos as nat,
            ),
            pos <= found.1 <= old(self).tokens@.len(),
        decreases old(self).tokens@.len() - pos, 41nat, 0nat,
    {
        let ghost tokens = self.tokens@;
        let mut methods: Vec<Stmt> = Vec::new();
        let (first, next) = match self.function(pos) {
            Some(found) => found,
            None => {
                return (methods, pos);
            },
        };
        if next <= pos {
            return (methods, pos);
        }
        let ghost first_model = stmt_model(first);
        methods.push(first);
        let mut at = next;
        proof {
            lemma_stmt_models_push(Seq::empty(), methods@[0]);
            assert(methods@ =~= Seq::<Stmt>::empty().push(methods@[0]));
            assert(stmt_models(methods@, methods@.len()) =~= seq![first_model]);
        }
        let mut done = false;
        while !done
            invariant
                self.tokens == old(self).tokens,
                self.tokens@ == tokens,
                pos < next <= at <= tokens.len(),
                stmt_models(methods@, methods@.len()) + more_methods(tokens, at as nat).0 == seq![
                    first_model,
                ] + more_methods(tokens, next as nat).0,
                more_methods(tokens, at as nat).1 == more_methods(tokens, next as nat).1,
                done ==> more_methods(tokens, at as nat) == (Seq::<StmtModel>::empty(), at as nat),
            decreases tokens.len() - at, if done { 0int } else { 1int },
        {
            if !self.at(at, TokenKind::LineEnd) {
                done = true;
            } else {
                match self.function(at + 1) {
                    Some((method, after)) => {
                        if after > at {
                            proof {
                                let rest = more_methods(tokens, after as nat).0;
                                lemma_stmt_models_push(methods@, method);
                                assert(stmt_models(methods@, methods@.len()).push(
                                    stmt_model(method),
                                ) + rest =~= stmt_models(methods@, methods@.len()) + (seq![
                                    stmt_model(method),
                                ] + rest));
                            }
                            methods.push(method);
                            at = after;
                        } else {
                            done = true;
                        }
                    },
                    None => {
                        done = true;
                    },
                }
            }
        }
        proof {
            assert(stmt_models(methods@, methods@.len()) + Seq::<StmtModel>::empty()
                =~= stmt_models(methods@, methods@.len()));
        }
        (methods, at)
    }

    /// The `elif` branches from `pos` on.
    fn elifs(&mut self, pos: usize) -> (found: (Vec<(Expr, Expr)>, usize))
        requires
            pos <= old(self).tokens@.len(),
        ensures
            final(self).tokens == old(self).tokens,
            (branch_models(found.0@, found.0@.len()), found.1 as nat) == elifs_at(
                old(self).tokens@,
                pos as nat,
            ),
            pos <= found.1 <= old(self).tokens@.len(),
        decreases old(self).tokens@.len() - pos, 21nat, 0nat,
    {
        let ghost tokens = self.tokens@;
        let mut branches: Vec<(Expr, Expr)> = Vec::new();
        let mut at = pos;
        let mut done = false;
        proof {
            assert(branch_models(branches@, 0) + elifs_at(tokens, pos as nat).0 =~= elifs_at(
                tokens,
                pos as nat,
            ).0);
        }
        while !done
            invariant
                self.tokens == old(self).tokens,
                self.tokens@ == tokens,
                pos <= at <= tokens.len(),
                branch_models(branches@, branches@.len()) + elifs_at(tokens, at as nat).0
                    == elifs_at(tokens, pos as nat).0,
                elifs_at(tokens, at as nat).1 == elifs_at(tokens, pos as nat).1,
                done ==> elifs_at(tokens, at as nat) == (
                    Seq::<(ExprModel, ExprModel)>::empty(),
                    at as nat,
                ),
            decreases tokens.len() - at, if done { 0int } else { 1int },
        {
            if !self.at(at, TokenKind::ELif) {
                done = true;
            } else {
                match self.simple(at + 1) {
                    Some((test, after)) => {
                        if after > at {
                            let start = self.skip_then(after);
                            match self.expr(start) {
                                Some((branch, next)) => {
                                    let end = self.skip_line_end(next);
                                    proof {
                                        let rest = elifs_at(tokens, end as nat).0;
                                        let pair = (expr_model(test), expr_model(branch));
                                        lemma_branch_models_push(branches@, (test, branch));
                                        assert(branch_models(branches@, branches@.len()).push(pair)
                                            + rest =~= branch_models(branches@, branches@.len())
                                            + (seq![pair] + rest));
                                    }
                                    branches.push((test, branch));
                                    at = end;
                                },
                                None => {
                                    done = true;
                                },
                            }
                        } else {
                            done = true;
                        }
                    },
                    None => {
                        done = true;
                    },
                }
            }
        }
        proof {
            assert(branch_models(branches@, branches@.len()) + Seq::<
                (ExprModel, ExprModel),
            >::empty() =~= branch_models(branches@, branches@.len()));
        }
        (branches, at)
    }

    /// A conditional.
    fn conditional(&mut self, pos: usize) -> (found: Option<(Expr, usize)>)
        ensures
            final(self).tokens == old(self).tokens,
            Self::parsed(found, if_at(old(self).tokens@, pos as nat), pos, old(self).tokens@.len()),
        decreases old(self).tokens@.len() - pos, 22nat, 0nat,
    {
        if !self.at(pos, TokenKind::If) {
            return None;
        }
        let (test, after) = match self.simple(pos + 1) {
            Some(found) => found,
            None => {
                return None;
            },
        };
        if after <= pos {
            return None;
        }
        let body = self.skip_then(after);
        let (then_branch, next) = match self.expr(body) {
            Some(found) => found,
            None => {
                return None;
            },
        };
        let start = self.skip_line_end(next);
        let (branches, end) = self.elifs(start);
        let ghost models = branch_models(branches@, branches@.len());
        let count = branches.len();
        if self.at(end, TokenKind::Else) && end > pos {
            match self.expr(end + 1) {
                Some((otherwise, last)) => {
                    let tail = link(branches, Some(Box::new(otherwise)));
                    return Some((Expr::If(Box::new(test), Box::new(then_branch), tail), last));
                },
                None => {},
            }
        }
        if count > 0 {
            let tail = link(branches, None);
            Some((Expr::If(Box::new(test), Box::new(then_branch), tail), end))
        } else {
            Some((Expr::If(Box::new(test), Box::new(then_branch), None), next))
        }
    }

    /// A simple expression.
    fn simple(&mut self, pos: usize) -> (found: Option<(Expr, usize)>)
        ensures
            final(self).tokens == old(self).tokens,
            Self::parsed(
                found,
                simple_at(old(self).tokens@, pos as nat),
                pos,
                old(self).tokens@.len(),
            ),
        decreases old(self).tokens@.len() - pos, 20nat, 0nat,
    {
        match self.parameters(pos) {
            Some((args, vararg, after)) => {
                if self.at(after, TokenKind::Arrow) {
                    let arrow = self.tokens[after].clone();
                    match self.simple(after + 1) {
                        Some((body, end)) => {
                            return Some(
                                (Expr::AnonFunction(args, vararg, arrow, Box::new(body)), end),
                            );
                        },
                        None => {},
                    }
                }
            },
            None => {},
        }
        self.level(pos, 0)
    }

    /// Whether the token at `pos` is an operator of the level `level`.
    fn operator(&mut self, pos: usize, level: u8) -> (found: bool)
        ensures
            final(self).tokens == old(self).tokens,
            found == operator_at(old(self).tokens@, pos as nat, level as nat),
            found ==> pos < old(self).tokens@.len() <= usize::MAX,
    {
        let found = pos < self.tokens.len() && (match self.tokens[pos].kind {
            TokenKind::Or => level == 0,
            TokenKind::And => level == 1,
            TokenKind::Not => level == 2,
            TokenKind::CompareEquals => level == 3,
            TokenKind::CompareNotEquals => level == 3,
            TokenKind::CompareGreater => level == 4,
            TokenKind::CompareGreaterEqual => level == 4,
            TokenKind::CompareLess => level == 4,
            TokenKind::CompareLessEqual => level == 4,
            TokenKind::Plus => level == 5,
            TokenKind::Minus => level == 5,
            TokenKind::Star => level == 6,
            TokenKind::Slash => level == 6,
            TokenKind::Mod => level == 6,
            TokenKind::Power => level == 7,
            _ => false,
        });
        if !found && pos > self.furthest {
            self.furthest = pos;
        }
        found
    }

    /// An expression of the operators of a level and of the tighter ones.
    fn level(&mut self, pos: usize, level: u8) -> (found: Option<(Expr, usize)>)
        ensures
            final(self).tokens == old(self).tokens,
            Self::parsed(
                found,
                level_at(old(self).tokens@, pos as nat, level as nat),
                pos,
                old(self).tokens@.len(),
            ),
        decreases old(self).tokens@.len() - pos, crate::parsing::grammar::rank_level(level as nat), 0nat,
    {
        let ghost tokens = self.tokens@;
        if level >= 8 {
            return self.call(pos);
        }
        if level == 2 {
            if self.operator(pos, 2) {
                let op = self.tokens[pos].clone();
                match self.level(pos + 1, 3) {
                    Some((operand, end)) => {
                        return Some((Expr::Unary(op, Box::new(operand)), end));
                    },
                    None => {},
                }
            }
            return self.level(pos, 3);
        }
        if level == 7 {
            return match self.level(pos, 8) {
                Some((left, after)) => {
                    if after > pos && self.operator(after, 7) {
                        let op = self.tokens[after].clone();
                        match self.level(after + 1, 7) {
                            Some((right, end)) => Some(
                                (Expr::Binary(op, Box::new(left), Box::new(right)), end),
                            ),
                            None => Some((left, after)),
                        }
                    } else {
                        Some((left, after))
                    }
                },
                None => None,
            };
        }
        let (first, after) = match self.level(pos, level + 1) {
            Some(found) => found,
            None => {
                return None;
            },
        };
        if after <= pos {
            return None;
        }
        let mut left = first;
        let mut at = after;
        let mut done = false;
        while !done
            invariant
                self.tokens == old(self).tokens,
                self.tokens@ == tokens,
                level < 7,
                level != 2,
                pos < at <= tokens.len(),
                operands_at(tokens, at as nat, level as nat, expr_model(left)) == operands_at(
                    tokens,
                    after as nat,
                    level as nat,
                    expr_model(first),
                ),
                done ==> operands_at(tokens, at as nat, level as nat, expr_model(left)) == (
                    expr_model(left),
                    at as nat,
                ),
            decreases tokens.len() - at, if done { 0int } else { 1int },
        {
            if !self.operator(at, level) {
                done = true;
            } else {
                let op = self.tokens[at].clone();
                match self.level(at + 1, level + 1) {
                    Some((right, next)) => {
                        if next > at {
                            left = Expr::Binary(op, Box::new(left), Box::new(right));
                            at = next;
                        } else {
                            done = true;
                        }
                    },
                    None => {
                        done = true;
                    },
                }
            }
        }
        Some((left, at))
    }

    /// A call.
    fn call(&mut self, pos: usize) -> (found: Option<(Expr, usize)>)
        ensures
            final(self).tokens == old(self).tokens,
            Self::parsed(
                found,
                call_at(old(self).tokens@, pos as nat),
                pos,
                old(self).tokens@.len(),
            ),
        decreases old(self).tokens@.len() - pos, 5nat, 0nat,
    {
        let ghost tokens = self.tokens@;
        let (first, after) = match self.term(pos) {
            Some(found) => found,
            None => {
                return None;
            },
        };
        if after <= pos {
            return None;
        }
        let mut target = first;
        let mut at = after;
        let mut done = false;
        while !done
            invariant
                self.tokens == old(self).tokens,
                self.tokens@ == tokens,
                pos < at <= tokens.len(),
                suffixes_at(tokens, at as nat, expr_model(target)) == suffixes_at(
                    tokens,
                    after as nat,
                    expr_model(first),
                ),
                done ==> suffixes_at(tokens, at as nat, expr_model(target)) == (
                    expr_model(target),
                    at as nat,
                ),
            decreases tokens.len() - at, if done { 0int } else { 1int },
        {
            if self.at(at, TokenKind::Dot) {
                match self.name(at + 1) {
                    Some((name, next)) => {
                        target = Expr::PropertyAccess(Box::new(target), name);
                        at = next;
                    },
                    None => {
                        done = true;
                    },
                }
            } else if self.at(at, TokenKind::QuestionMark) {
                match self.name(at + 1) {
                    Some((name, next)) => {
                        target = Expr::PropertyTest(Box::new(target), name);
                        at = next;
                    },
                    None => {
                        done = true;
                    },
                }
            } else if self.at(at, TokenKind::LParen) {
                let (args, next) = self.arguments(at + 1);
                let close = self.skip_comma(next);
                if self.at(close, TokenKind::RParen) && close > at {
                    target = Expr::Call(Box::new(target), args);
                    at = close + 1;
                } else {
                    let (slots, next) = self.slots(at + 1);
                    let close = self.skip_comma(next);
                    if self.at(close, TokenKind::RParen) && close > at {
                        target = Expr::PartialCall(Box::new(target), slots);
                        at = close + 1;
                    } else {
                        done = true;
                    }
                }
            } else {
                done = true;
            }
        }
        Some((target, at))
    }

    /// The arguments of a call from `pos` on.
    fn arguments(&mut self, pos: usize) -> (found: (Vec<Expr>, usize))
        requires
            pos <= old(self).tokens@.len(),
        ensures
            final(self).tokens == old(self).tokens,
            (expr_models(found.0@, found.0@.len()), found.1 as nat) == arguments_at(
                old(self).tokens@,
                pos as nat,
            ),
            pos <= found.1 <= old(self).tokens@.len(),
        decreases old(self).tokens@.len() - pos, 22nat, 0nat,
    {
        let ghost tokens = self.tokens@;
        let mut args: Vec<Expr> = Vec::new();
        let (first, after) = match self.simple(pos) {
            Some(found) => found,
            None => {
                return (args, pos);
            },
        };
        if after <= pos {
            return (args, pos);
        }
        let ghost first_model = expr_model(first);
        args.push(first);
        let mut at = after;
        proof {
            lemma_expr_models_push(Seq::empty(), args@[0]);
            assert(args@ =~= Seq::<Expr>::empty().push(args@[0]));
            assert(expr_models(args@, args@.len()) =~= seq![first_model]);
        }
        let mut done = false;
        while !done
            invariant
                self.tokens == old(self).tokens,
                self.tokens@ == tokens,
                pos < after <= at <= tokens.len(),
                expr_models(args@, args@.len()) + more_arguments(tokens, at as nat).0 == seq![
                    first_model,
                ] + more_arguments(tokens, after as nat).0,
                more_arguments(tokens, at as nat).1 == more_arguments(tokens, after as nat).1,
                done ==> more_arguments(tokens, at as nat) == (
                    Seq::<ExprModel>::empty(),
                    at as nat,
                ),
            decreases tokens.len() - at, if done { 0int } else { 1int },
        {
            if !self.at(at, TokenKind::Comma) {
                done = true;
            } else {
                match self.simple(at + 1) {
                    Some((arg, next)) => {
                        if next > at {
                            proof {
                                let rest = more_arguments(tokens, next as nat).0;
                                lemma_expr_models_push(args@, arg);
                                assert(expr_models(args@, args@.len()).push(expr_model(arg)) + rest
                                    =~= expr_models(args@, args@.len()) + (seq![expr_model(arg)]
                                    + rest));
                            }
                            args.push(arg);
                            at = next;
                        } else {
                            done = true;
                        }
                    },
                    None => {
                        done = true;
                    },
                }
            }
        }
        proof {
            assert(expr_models(args@, args@.len()) + Seq::<ExprModel>::empty() =~= expr_models(
                args@,
                args@.len(),
            ));
        }
        (args, at)
    }

    /// An argument of a partial call.
    fn slot(&mut self, pos: usize) -> (found: Option<(Option<Expr>, usize)>)
        ensures
            final(self).tokens == old(self).tokens,
            slot_at(old(self).tokens@, pos as nat) is None ==> found is None,
            slot_at(old(self).tokens@, pos as nat) matches Some((model, after)) ==> found is Some
                && slot_model(found->Some_0.0) == model && found->Some_0.1 == after && pos <= after
                <= old(self).tokens@.len(),
        decreases old(self).tokens@.len() - pos, 21nat, 1nat,
    {
        match self.simple(pos) {
            Some((arg, after)) => Some((Some(arg), after)),
            None => {
                if self.at(pos, TokenKind::Blank) {
                    Some((None, pos + 1))
                } else {
                    None
                }
            },
        }
    }

    /// The arguments of a partial call from `pos` on.
    fn slots(&mut self, pos: usize) -> (found: (Vec<Option<Expr>>, usize))
        requires
            pos <= old(self).tokens@.len(),
        ensures
            final(self).tokens == old(self).tokens,
            (optional_models(found.0@, found.0@.len()), found.1 as nat) == slots_at(
                old(self).tokens@,
                pos as nat,
            ),
            pos <= found.1 <= old(self).tokens@.len(),
        decreases old(self).tokens@.len() - pos, 23nat, 0nat,
    {
        let ghost tokens = self.tokens@;
        let mut slots: Vec<Option<Expr>> = Vec::new();
        let (first, after) = match self.slot(pos) {
            Some(found) => found,
            None => {
                return (slots, pos);
            },
        };
        if after <= pos {
            return (slots, pos);
        }
        let ghost first_model = slot_model(first);
        slots.push(first);
        let mut at = after;
        proof {
            lemma_optional_models_push(Seq::empty(), slots@[0]);
            assert(slots@ =~= Seq::<Option<Expr>>::empty().push(slots@[0]));
            assert(optional_models(slots@, slots@.len()) =~= seq![first_model]);
        }
        let mut done = false;
        while !done
            invariant
                self.tokens == old(self).tokens,
                self.tokens@ == tokens,
                pos < after <= at <= tokens.len(),
                optional_models(slots@, slots@.len()) + more_slots(tokens, at as nat).0 == seq![
                    first_model,
                ] + more_slots(tokens, after as nat).0,
                more_slots(tokens, at as nat).1 == more_slots(tokens, after as nat).1,
                done ==> more_slots(tokens, at as nat) == (
                    Seq::<Option<ExprModel>>::empty(),
                    at as nat,
                ),
            decreases tokens.len() - at, if done { 0int } else { 1int },
        {
            if !self.at(at, TokenKind::Comma) {
                done = true;
            } else {
                match self.slot(at + 1) {
                    Some((slot, next)) => {
                        if next > at {
                            proof {
                                let rest = more_slots(tokens, next as nat).0;
                                let model = slot_model(slot);
                                lemma_optional_models_push(slots@, slot);
                                assert(optional_models(slots@, slots@.len()).push(model) + rest
                                    =~= optional_models(slots@, slots@.len()) + (seq![model]
                                    + rest));
                            }
                            slots.push(slot);
                            at = next;
                        } else {
                            done = true;
                        }
                    },
                    None => {
                        done = true;
                    },
                }
            }
        }
        proof {
            assert(optional_models(slots@, slots@.len()) + Seq::<Option<ExprModel>>::empty()
                =~= optional_models(slots@, slots@.len()));
        }
        (slots, at)
    }

    /// A term.
    fn term(&mut self, pos: usize) -> (found: Option<(Expr, usize)>)
        ensures
            final(self).tokens == old(self).tokens,
            Self::parsed(
                found,
                term_at(old(self).tokens@, pos as nat),
                pos,
                old(self).tokens@.len(),
            ),
        decreases old(self).tokens@.len() - pos, 1nat, 0nat,
    {
        if pos >= self.tokens.len() {
            if pos > self.furthest {
                self.furthest = pos;
            }
            return None;
        }
        match self.tokens[pos].kind {
            TokenKind::Number(_) => Some((Expr::Number(self.tokens[pos].clone()), pos + 1)),
            TokenKind::Name(_) => Some((Expr::Name(self.tokens[pos].clone()), pos + 1)),
            TokenKind::ConstString(_) => Some(
                (Expr::ConstString(self.tokens[pos].clone()), pos + 1),
            ),
            TokenKind::LParen => match self.expr(pos + 1) {
                Some((e, after)) => {
                    if self.at(after, TokenKind::RParen) {
                        Some((e, after + 1))
                    } else {
                        None
                    }
                },
                None => None,
            },
            _ => {
                if pos > self.furthest {
                    self.furthest = pos;
                }
                None
            },
        }
    }
}

/// The implementation block of a name with methods.
fn implementation_of(name: Token, implementations: Vec<Stmt>) -> (stmt: Stmt)
    ensures
        stmt_model(stmt) == (StmtModel::ImplBlock {
            name,
            implementations: stmt_models(implementations@, implementations@.len()),
        }),
{
    Stmt::ImplBlock { name, implementations }
}

/// Whether an expression reads a property.
fn is_property_access(e: &Expr) -> (b: bool)
    ensures
        b == (expr_model(*e) is PropertyAccess),
{
    match e {
        Expr::PropertyAccess(_, _) => true,
        _ => false,
    }
}

/// The conditional that `elif` branches and a last branch make up.
fn link(branches: Vec<(Expr, Expr)>, last: Option<Box<Expr>>) -> (tail: Option<Box<Expr>>)
    ensures
        option_model(tail) == chain(
            branch_models(branches@, branches@.len()),
            0,
            boxed_model(last),
        ),
{
    let ghost all = branch_models(branches@, branches@.len());
    let ghost last_model: Option<ExprModel> = boxed_model(last);
    let mut rest = branches;
    let mut tail = last;
    proof {
        assert(all.len() == rest@.len()) by {
            lemma_branch_models_len(rest@, rest@.len());
        }
    }
    while rest.len() > 0
        invariant
            rest@.len() <= all.len(),
            branch_models(rest@, rest@.len()) == all.subrange(0, rest@.len() as int),
            option_model(tail) == chain(all, rest@.len() as nat, last_model),
        decreases rest@.len(),
    {
        let ghost before = rest@;
        let (test, branch) = match rest.pop() {
            Some(pair) => pair,
            None => {
                return tail;
            },
        };
        proof {
            lemma_branch_models_len(before, before.len());
            lemma_branch_models_len(rest@, rest@.len());
            assert(before.drop_last() == rest@);
            lemma_branch_models_prefix(before, rest@.len());
            assert(branch_models(rest@, rest@.len()) =~= all.subrange(0, rest@.len() as int));
            assert(all[rest@.len() as int] == (expr_model(test), expr_model(branch))) by {
                assert(all.subrange(0, before.len() as int)[rest@.len() as int] == branch_models(
                    before,
                    before.len(),
                )[rest@.len() as int]);
            }
        }
        tail = Some(Box::new(Expr::If(Box::new(test), Box::new(branch), tail)));
    }
    tail
}

/// An argument of a partial call as plain sequences.
pub open spec fn slot_model(slot: Option<Expr>) -> Option<ExprModel> {
    match slot {
        Some(e) => Some(expr_model(e)),
        None => None,
    }
}

/// An expression in a box that may be missing, as plain sequences.
pub open spec fn boxed_model(e: Option<Box<Expr>>) -> Option<ExprModel> {
    match e {
        Some(inner) => Some(expr_model(*inner)),
        None => None,
    }
}

/// A boxed expression that may be missing, as plain sequences.
pub open spec fn option_model(e: Option<Box<Expr>>) -> Option<Box<ExprModel>> {
    match e {
        Some(inner) => Some(Box::new(expr_model(*inner))),
        None => None,
    }
}

proof fn lemma_branch_models_len(branches: Seq<(Expr, Expr)>, n: nat)
    requires
        n <= branches.len(),
    ensures
        branch_models(branches, n).len() == n,
    decreases n,
{
    if n > 0 {
        lemma_branch_models_len(branches, (n - 1) as nat);
    }
}

proof fn lemma_branch_models_prefix(branches: Seq<(Expr, Expr)>, n: nat)
    requires
        n < branches.len(),
    ensures
        branch_models(branches.drop_last(), n) == branch_models(branches, n),
        n + 1 == branches.len() ==> branch_models(branches, branches.len()) == branch_models(
            branches.drop_last(),
            n,
        ).push((expr_model(branches.last().0), expr_model(branches.last().1))),
    decreases n,
{
    if n > 0 {
        lemma_branch_models_prefix(branches, (n - 1) as nat);
        assert(branches.drop_last()[n - 1] == branches[n - 1]);
    }
}

proof fn lemma_branch_models_push(branches: Seq<(Expr, Expr)>, pair: (Expr, Expr))
    ensures
        branch_models(branches.push(pair), branches.len() + 1) == branch_models(
            branches,
            branches.len(),
        ).push((expr_model(pair.0), expr_model(pair.1))),
{
    lemma_branch_models_same(branches.push(pair), branches, branches.len());
}

proof fn lemma_branch_models_same(a: Seq<(Expr, Expr)>, b: Seq<(Expr, Expr)>, n: nat)
    requires
        n <= a.len(),
        n <= b.len(),
        forall|i: int| 0 <= i < n ==> a[i] == b[i],
    ensures
        branch_models(a, n) == branch_models(b, n),
    decreases n,
{
    if n > 0 {
        lemma_branch_models_same(a, b, (n - 1) as nat);
    }
}

proof fn lemma_stmt_models_same(a: Seq<Stmt>, b: Seq<Stmt>, n: nat)
    requires
        n <= a.len(),
        n <= b.len(),
        forall|i: int| 0 <= i < n ==> a[i] == b[i],
    ensures
        stmt_models(a, n) == stmt_models(b, n),
    decreases n,
{
    if n > 0 {
        lemma_stmt_models_same(a, b, (n - 1) as nat);
    }
}

proof fn lemma_stmt_models_push(stmts: Seq<Stmt>, stmt: Stmt)
    ensures
        stmt_models(stmts.push(stmt), stmts.len() + 1) == stmt_models(stmts, stmts.len()).push(
            stmt_model(stmt),
        ),
{
    lemma_stmt_models_same(stmts.push(stmt), stmts, stmts.len());
}

proof fn lemma_expr_models_same(a: Seq<Expr>, b: Seq<Expr>, n: nat)
    requires
        n <= a.len(),
        n <= b.len(),
        forall|i: int| 0 <= i < n ==> a[i] == b[i],
    ensures
        expr_models(a, n) == expr_models(b, n),
    decreases n,
{
    if n > 0 {
        lemma_expr_models_same(a, b, (n - 1) as nat);
    }
}

proof fn lemma_expr_models_push(exprs: Seq<Expr>, e: Expr)
    ensures
        expr_models(exprs.push(e), exprs.len() + 1) == expr_models(exprs, exprs.len()).push(
            expr_model(e),
        ),
{
    lemma_expr_models_same(exprs.push(e), exprs, exprs.len());
}

proof fn lemma_optional_models_same(a: Seq<Option<Expr>>, b: Seq<Option<Expr>>, n: nat)
    requires
        n <= a.len(),
        n <= b.len(),
        forall|i: int| 0 <= i < n ==> a[i] == b[i],
    ensures
        optional_models(a, n) == optional_models(b, n),
    decreases n,
{
    if n > 0 {
        lemma_optional_models_same(a, b, (n - 1) as nat);
    }
}

proof fn lemma_optional_models_push(exprs: Seq<Option<Expr>>, e: Option<Expr>)
    ensures
        optional_models(exprs.push(e), exprs.len() + 1) == optional_models(
            exprs,
            exprs.len(),
        ).push(slot_model(e)),
{
    lemma_optional_models_same(exprs.push(e), exprs, exprs.len());
}

/// Parses a program: the tokens must be one block and nothing more.
pub fn parse(tokens: &Vec<Token>) -> (result: Result<Expr, ParseError>)
    ensures
        program_at(tokens@) is None ==> result is Err,
        program_at(tokens@) matches Some(model) ==> result is Ok && expr_model(result->Ok_0)
            == model,
        result matches Err(error) ==> error.location <= tokens@.len(),
{
    let mut parser = Parser { tokens, furthest: 0 };
    let n = tokens.len();
    match parser.block(0) {
        Some((program, end)) => {
            if end == n {
                Ok(program)
            } else {
                let location = if parser.furthest > end {
                    parser.furthest
                } else {
                    end
                };
                Err(ParseError { location: if location > n { n } else { location } })
            }
        },
        None => Err(ParseError { location: if parser.furthest > n { n } else { parser.furthest } }),
    }
}

} // verus!
