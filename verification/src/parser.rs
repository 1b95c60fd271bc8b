//! The parser: from tokens to the syntax tree.
//!
//! A recursive-descent parser with one function for each rule of the
//! grammar; each computes what its rule says. After an error the parser
//! skips ahead to where the next statement may begin and goes on, so that
//! one run reports every error it can find.

use vstd::prelude::*;
use vstd::string::*;
use crate::error::{error_views, ErrorView, LoxError};
use crate::expr::{expr_views, lemma_expr_views_push, Expression, ExprView};
use crate::grammar::{Parse, Parsed, at_end, begins_statement, check, consume, error_at};
use crate::grammar::{for_loop, g_and, g_and_rest, g_arguments, g_assignment, g_block, g_branch};
use crate::grammar::{g_call, g_comparison, g_comparison_rest, g_condition, g_declaration};
use crate::grammar::{g_equality, g_equality_rest, g_expression, g_expression_statement};
use crate::grammar::{g_factor, g_factor_rest, g_for, g_for_initializer, g_for_tail, g_function};
use crate::grammar::{g_initializer, g_jump, g_lambda, g_optional, g_or, g_or_rest, g_params};
use crate::grammar::{g_params_and_body, g_primary, g_print, g_program, g_return, g_statement};
use crate::grammar::{g_term, g_term_rest, g_ternary, g_unary, g_var_declaration, g_vars};
use crate::grammar::{g_while, no_expression, normalized, previous, sync, sync_rest};
use crate::stmt::{lemma_stmt_views_push, stmt_views, Statement, StmtView};
use crate::token::{token_views, Token, TokenView};
use crate::types::{FuncType, Literal, TokenType};

verus! {

/// The most parameters a function may have, and the most arguments a call.
pub const MAX_ARITY: usize = 256;

pub struct Parser {
    tokens: Vec<Token>,
    current: usize,
}

/// Whether what is left of a rule, begun `offset` tokens ago, makes the
/// whole of it.
pub open spec fn continues<T>(rest: Parsed<T>, offset: int, whole: Parsed<T>) -> bool {
    rest.value == whole.value && offset + rest.used == whole.used
}

pub open spec fn optional_expr_view(expression: Option<Expression>) -> Option<ExprView> {
    match expression {
        Some(expression) => Some(expression@),
        None => None,
    }
}

pub open spec fn optional_stmt_view(statement: Option<Statement>) -> Option<StmtView> {
    match statement {
        Some(statement) => Some(statement@),
        None => None,
    }
}

pub open spec fn boxed_stmt_view(statement: Option<Box<Statement>>) -> Option<Box<StmtView>> {
    match statement {
        Some(statement) => Some(Box::new(statement@)),
        None => None,
    }
}

fn starts_statement(token_type: TokenType) -> (res: bool)
    ensures
        res == begins_statement(token_type),
{
    match token_type {
        TokenType::Class
        | TokenType::Func
        | TokenType::Let
        | TokenType::For
        | TokenType::If
        | TokenType::While
        | TokenType::Print
        | TokenType::Return => true,
        _ => false,
    }
}

/// The message for a token with which no expression can begin.
fn no_expression_message(token: &Token) -> (res: String)
    ensures
        res@ == no_expression(token@),
{
    match token.token_type {
        TokenType::Star
        | TokenType::Slash
        | TokenType::Comma
        | TokenType::Greater
        | TokenType::GreaterEqual
        | TokenType::Less
        | TokenType::LessEqual
        | TokenType::EqualEqual
        | TokenType::BangEqual => String::from_str("Expect a expression before '").concat(
            token.lexeme.as_str(),
        ).concat("'"),
        _ => String::from_str("Expect expression."),
    }
}

impl Parser {
    /// The tokens being parsed.
    pub closed spec fn toks(&self) -> Seq<TokenView> {
        token_views(self.tokens@)
    }

    /// How many tokens have been taken.
    pub closed spec fn taken(&self) -> int {
        self.current as int
    }

    /// The tokens end with the end-of-input token, and the parser stands at
    /// one of them.
    pub closed spec fn wf(&self) -> bool {
        &&& self.tokens@.len() > 0
        &&& self.current < self.tokens@.len()
        &&& self.tokens@.last().token_type == TokenType::Eof
    }

    /// Whether the parser has kept its tokens and not gone back since
    /// `before`.
    pub closed spec fn follows(&self, before: &Self) -> bool {
        &&& self.wf()
        &&& self.tokens == before.tokens
        &&& self.current >= before.current
    }

    /// How many tokens are left.
    pub closed spec fn left(&self) -> nat {
        (self.tokens@.len() - self.current) as nat
    }

    /// Whether the parser went from `before` to here by a rule that made
    /// `parsed` of the tokens, and `res` is what the rule made.
    pub closed spec fn yields_expr(
        &self,
        before: &Self,
        res: Result<Expression, LoxError>,
        parsed: Parsed<ExprView>,
    ) -> bool {
        &&& self.follows(before)
        &&& self.current == before.current + parsed.used
        &&& match res {
            Ok(expression) => parsed.value == Ok::<ExprView, ErrorView>(expression@)
                && self.current > before.current,
            Err(error) => parsed.value == Err::<ExprView, ErrorView>(error@),
        }
    }

    pub closed spec fn yields_stmt(
        &self,
        before: &Self,
        res: Result<Statement, LoxError>,
        parsed: Parsed<StmtView>,
    ) -> bool {
        &&& self.follows(before)
        &&& self.current == before.current + parsed.used
        &&& match res {
            Ok(statement) => parsed.value == Ok::<StmtView, ErrorView>(statement@) && self.current
                > before.current,
            Err(error) => parsed.value == Err::<StmtView, ErrorView>(error@),
        }
    }

    pub closed spec fn yields_stmts(
        &self,
        before: &Self,
        res: Result<Vec<Statement>, LoxError>,
        parsed: Parsed<Seq<StmtView>>,
    ) -> bool {
        &&& self.follows(before)
        &&& self.current == before.current + parsed.used
        &&& match res {
            Ok(statements) => parsed.value == Ok::<Seq<StmtView>, ErrorView>(
                stmt_views(statements@, statements@.len() as int),
            ) && self.current > before.current,
            Err(error) => parsed.value == Err::<Seq<StmtView>, ErrorView>(error@),
        }
    }

    pub closed spec fn yields_token(
        &self,
        before: &Self,
        res: Result<Token, LoxError>,
        parsed: Parsed<TokenView>,
    ) -> bool {
        &&& self.follows(before)
        &&& self.current == before.current + parsed.used
        &&& match res {
            Ok(token) => parsed.value == Ok::<TokenView, ErrorView>(token@) && self.current
                > before.current,
            Err(error) => parsed.value == Err::<TokenView, ErrorView>(error@),
        }
    }

    pub closed spec fn yields_optional(
        &self,
        before: &Self,
        res: Result<Option<Expression>, LoxError>,
        parsed: Parsed<Option<ExprView>>,
    ) -> bool {
        &&& self.follows(before)
        &&& self.current == before.current + parsed.used
        &&& match res {
            Ok(Some(expression)) => parsed.value == Ok::<Option<ExprView>, ErrorView>(
                Some(expression@),
            ),
            Ok(None) => parsed.value == Ok::<Option<ExprView>, ErrorView>(None),
            Err(error) => parsed.value == Err::<Option<ExprView>, ErrorView>(error@),
        }
    }

    /// A parser for `tokens`. Tokens that do not end with the end-of-input
    /// token are given one.
    pub fn new(tokens: Vec<Token>) -> (res: Self)
        ensures
            res.wf(),
            res.taken() == 0,
            res.toks() == normalized(token_views(tokens@)),
    {
        let mut tokens = tokens;
        let ghost given = token_views(tokens@);
        let complete = tokens.len() > 0 && tokens[tokens.len() - 1].token_type == TokenType::Eof;
        if !complete {
            let position = if tokens.len() > 0 {
                tokens[tokens.len() - 1].position
            } else {
                (0, 0)
            };
            let end = Token::new(TokenType::Eof, String::new(), position);
            tokens.push(end);
            assert(token_views(tokens@) =~= given.push(end@));
        }
        Parser { tokens, current: 0 }
    }

    fn is_at_end(&self) -> (res: bool)
        requires
            self.wf(),
        ensures
            res == at_end(self.toks(), self.taken()),
    {
        self.tokens[self.current].token_type == TokenType::Eof
    }

    fn peek(&self) -> (res: &Token)
        requires
            self.wf(),
        ensures
            res@ == self.toks()[self.taken()],
            *res == self.tokens@[self.current as int],
    {
        &self.tokens[self.current]
    }

    /// The token taken last, or, where none was taken, the first token.
    fn previous(&self) -> (res: Token)
        requires
            self.wf(),
        ensures
            res@ == previous(self.toks(), self.taken()),
    {
        if self.current > 0 {
            self.tokens[self.current - 1].clone()
        } else {
            self.tokens[0].clone()
        }
    }

    fn check(&self, token_type: TokenType) -> (res: bool)
        requires
            self.wf(),
        ensures
            res == check(self.toks(), self.taken(), token_type),
    {
        if self.is_at_end() {
            return false;
        }
        self.tokens[self.current].token_type == token_type
    }

    /// Takes the token the parser stands at, unless it is the end of input,
    /// and returns it.
    fn advance(&mut self) -> (res: Token)
        requires
            old(self).wf(),
        ensures
            final(self).follows(old(self)),
            !at_end(old(self).toks(), old(self).taken()) ==> final(self).current == old(
                self,
            ).current + 1,
            at_end(old(self).toks(), old(self).taken()) ==> final(self).current == old(
                self,
            ).current,
            res@ == old(self).toks()[old(self).taken()],
    {
        let token = self.tokens[self.current].clone();
        if !self.is_at_end() {
            let len = self.tokens.len();
            assert(self.current < len - 1) by {
                assert(self.tokens@.last() == self.tokens@[len - 1]);
            }
            self.current += 1;
        }
        token
    }

    fn error(token: &Token, msg: &str) -> (res: LoxError)
        ensures
            res@ == error_at(token@, msg@),
    {
        LoxError::create_parse_error(token, String::from_str(msg))
    }

    fn consume(&mut self, token_type: TokenType, msg: &str) -> (res: Result<Token, LoxError>)
        requires
            old(self).wf(),
        ensures
            final(self).yields_token(
                old(self),
                res,
                consume(old(self).toks(), old(self).taken(), token_type, msg@),
            ),
    {
        if self.check(token_type) {
            return Ok(self.advance());
        }
        Err(Self::error(self.peek(), msg))
    }

    /// Skips ahead to where the next statement may begin: behind the next
    /// semicolon, or in front of the next token that begins a statement.
    /// At least one token is skipped unless the input is at its end.
    #[verifier::spinoff_prover]
    fn synchronize(&mut self)
        requires
            old(self).wf(),
        ensures
            final(self).follows(old(self)),
            final(self).current == old(self).current + sync(old(self).toks(), old(self).taken()),
            final(self).current > old(self).current || at_end(
                final(self).toks(),
                final(self).taken(),
            ),
    {
        proof {
            reveal(sync_rest);
        }
        let start = self.current;
        let skipped = self.advance();
        if skipped.token_type == TokenType::Semicolon {
            return ;
        }
        if self.current == start {
            return ;
        }
        while !self.is_at_end()
            invariant
                self.follows(old(self)),
                self.current > old(self).current,
                (self.current - old(self).current) + sync_rest(self.toks(), self.taken()) == sync(
                    old(self).toks(),
                    old(self).taken(),
                ),
            decreases self.left(),
        {
            proof {
                reveal(sync_rest);
            }
            if starts_statement(self.peek().token_type) {
                return ;
            }
            let skipped = self.advance();
            if skipped.token_type == TokenType::Semicolon {
                return ;
            }
        }
    }

    /// Parses the whole input. Returns the statements of the program, or,
    /// if there were errors, every error found.
    #[verifier::spinoff_prover]
    pub fn parse(&mut self) -> (res: Result<Vec<Statement>, Vec<LoxError>>)
        requires
            old(self).wf(),
        ensures
            final(self).follows(old(self)),
            at_end(final(self).toks(), final(self).taken()),
            match res {
                Ok(statements) => {
                    &&& g_program(
                        old(self).toks(),
                        old(self).taken(),
                        Parse { statements: Seq::empty(), errors: Seq::empty() },
                    ).errors.len() == 0
                    &&& stmt_views(statements@, statements@.len() as int) == g_program(
                        old(self).toks(),
                        old(self).taken(),
                        Parse { statements: Seq::empty(), errors: Seq::empty() },
                    ).statements
                },
                Err(errors) => errors@.len() >= 1 && error_views(errors@) == g_program(
                    old(self).toks(),
                    old(self).taken(),
                    Parse { statements: Seq::empty(), errors: Seq::empty() },
                ).errors,
            },
    {
        proof {
            reveal(g_program);
        }
        let mut statements: Vec<Statement> = Vec::new();
        let mut errors: Vec<LoxError> = Vec::new();
        assert(error_views(errors@) =~= Seq::empty());
        while !self.is_at_end()
            invariant
                self.follows(old(self)),
                g_program(
                    self.toks(),
                    self.taken(),
                    Parse {
                        statements: stmt_views(statements@, statements@.len() as int),
                        errors: error_views(errors@),
                    },
                ) == g_program(old(self).toks(), old(self).taken(), Parse { statements: Seq::empty(), errors: Seq::empty() }),
            decreases self.left(),
        {
            proof {
                reveal(g_program);
            }
            let ghost errors_before = error_views(errors@);
            match self.declaration() {
                Ok(statement) => {
                    proof {
                        lemma_stmt_views_push(statements@, statement);
                    }
                    statements.push(statement);
                },
                Err(error) => {
                    errors.push(error);
                    assert(error_views(errors@) =~= errors_before.push(error@));
                },
            }
        }
        if errors.len() > 0 {
            return Err(errors);
        }
        Ok(statements)
    }

    #[verifier::spinoff_prover]
    fn declaration(&mut self) -> (res: Result<Statement, LoxError>)
        requires
            old(self).wf(),
        ensures
            final(self).follows(old(self)),
            final(self).current == old(self).current + g_declaration(
                old(self).toks(),
                old(self).taken(),
            ).used,
            match res {
                Ok(statement) => g_declaration(old(self).toks(), old(self).taken()).value == Ok::<
                    StmtView,
                    ErrorView,
                >(statement@) && final(self).current > old(self).current,
                Err(error) => g_declaration(old(self).toks(), old(self).taken()).value == Err::<
                    StmtView,
                    ErrorView,
                >(error@) && (final(self).current > old(self).current || at_end(
                    final(self).toks(),
                    final(self).taken(),
                )),
            },
        decreases old(self).left(), 20nat,
    {
        proof {
            reveal(g_declaration);
        }
        let result = if self.check(TokenType::Let) {
            self.advance();
            self.var_declaration()
        } else if self.check(TokenType::Func) {
            self.advance();
            self.function(FuncType::Normal)
        } else {
            self.statement()
        };
        match result {
            Ok(statement) => Ok(statement),
            Err(error) => {
                self.synchronize();
                Err(error)
            },
        }
    }

    /// The parameters of a function, up to the closing parenthesis.
    #[verifier::spinoff_prover]
    fn parameters(&mut self) -> (res: Result<Vec<Token>, LoxError>)
        requires
            old(self).wf(),
        ensures
            final(self).follows(old(self)),
            final(self).current == old(self).current + g_params(
                old(self).toks(),
                old(self).taken(),
                Seq::empty(),
            ).used,
            match res {
                Ok(params) => g_params(old(self).toks(), old(self).taken(), Seq::empty()).value
                    == Ok::<Seq<TokenView>, ErrorView>(token_views(params@)),
                Err(error) => g_params(old(self).toks(), old(self).taken(), Seq::empty()).value
                    == Err::<Seq<TokenView>, ErrorView>(error@),
            },
    {
        proof {
            reveal(g_params);
        }
        let mut params: Vec<Token> = Vec::new();
        assert(token_views(params@) =~= Seq::empty());
        while !self.check(TokenType::RightParen)
            invariant
                self.follows(old(self)),
                continues(
                    g_params(self.toks(), self.taken(), token_views(params@)),
                    self.current - old(self).current,
                    g_params(old(self).toks(), old(self).taken(), Seq::empty()),
                ),
            decreases self.left(),
        {
            proof {
                reveal(g_params);
            }
            if params.len() >= MAX_ARITY {
                return Err(Self::error(self.peek(), "The maximum number of parameters is 256."));
            }
            let ghost before = token_views(params@);
            let param = self.consume(TokenType::Identifier, "Expect parameter name.")?;
            params.push(param);
            assert(token_views(params@) =~= before.push(param@));
            if self.check(TokenType::Comma) {
                self.advance();
            }
        }
        Ok(params)
    }

    /// The parameters and the body of a function, from behind the opening
    /// parenthesis on.
    #[verifier::spinoff_prover]
    fn function_params_and_body(&mut self) -> (res: Result<
        (Vec<Token>, Vec<Statement>),
        LoxError,
    >)
        requires
            old(self).wf(),
        ensures
            final(self).follows(old(self)),
            final(self).current == old(self).current + g_params_and_body(
                old(self).toks(),
                old(self).taken(),
            ).used,
            match res {
                Ok(parts) => g_params_and_body(old(self).toks(), old(self).taken()).value == Ok::<
                    (Seq<TokenView>, Seq<StmtView>),
                    ErrorView,
                >((token_views(parts.0@), stmt_views(parts.1@, parts.1@.len() as int)))
                    && final(self).current > old(self).current,
                Err(error) => g_params_and_body(old(self).toks(), old(self).taken()).value
                    == Err::<(Seq<TokenView>, Seq<StmtView>), ErrorView>(error@),
            },
        decreases old(self).left(), 22nat,
    {
        proof {
            reveal(g_params_and_body);
        }
        let params = self.parameters()?;
        self.consume(TokenType::RightParen, "Expect ')' after parameters.")?;
        self.consume(TokenType::LeftBrace, "Expect '{' before function body.")?;
        let body = self.block_statement()?;
        Ok((params, body))
    }

    /// A function, from behind `func` on: with a name it is a declaration,
    /// without one a statement that holds a function value.
    #[verifier::spinoff_prover]
    fn function(&mut self, kind: FuncType) -> (res: Result<Statement, LoxError>)
        requires
            old(self).wf(),
        ensures
            final(self).yields_stmt(
                old(self),
                res,
                g_function(old(self).toks(), old(self).taken(), kind),
            ),
        decreases old(self).left(), 23nat,
    {
        proof {
            reveal(g_function);
        }
        if self.check(TokenType::LeftParen) {
            let keyword = self.previous();
            self.advance();
            let (params, body) = self.function_params_and_body()?;
            let end = self.previous();
            let expression = Expression::LambdaExpression { keyword, params, body };
            assert(expression@ == (ExprView::Lambda {
                keyword: keyword@,
                params: token_views(params@),
                body: stmt_views(body@, body@.len() as int),
            }));
            Ok(Statement::ExpressionStatement { expression, end })
        } else {
            let what = String::from_str("Expect ").concat(kind.label()).concat(" name.");
            let name = self.consume(TokenType::Identifier, what.as_str())?;
            let what = String::from_str("Expect '(' after ").concat(kind.label()).concat(" name.");
            self.consume(TokenType::LeftParen, what.as_str())?;
            let (params, body) = self.function_params_and_body()?;
            Ok(Statement::FunctionStatement { name, params, body, function_type: kind })
        }
    }

    /// The value that a variable is declared with: `= value`, or nothing.
    #[verifier::spinoff_prover]
    fn initializer(&mut self) -> (res: Result<Option<Expression>, LoxError>)
        requires
            old(self).wf(),
        ensures
            final(self).yields_optional(
                old(self),
                res,
                g_initializer(old(self).toks(), old(self).taken()),
            ),
        decreases old(self).left(), 20nat,
    {
        proof {
            reveal(g_initializer);
        }
        if self.check(TokenType::Equal) {
            self.advance();
            Ok(Some(self.ternary()?))
        } else {
            Ok(None)
        }
    }

    /// The variables of a `let`, from behind the `let` on.
    #[verifier::spinoff_prover]
    fn var_declaration(&mut self) -> (res: Result<Statement, LoxError>)
        requires
            old(self).wf(),
        ensures
            final(self).yields_stmt(
                old(self),
                res,
                g_var_declaration(old(self).toks(), old(self).taken()),
            ),
        decreases old(self).left(), 23nat,
    {
        proof {
            reveal(g_var_declaration);
            reveal(g_vars);
        }
        let mut vars: Vec<Statement> = Vec::new();
        while !self.is_at_end() && !self.check(TokenType::Semicolon)
            invariant
                self.follows(old(self)),
                continues(
                    g_vars(self.toks(), self.taken(), stmt_views(vars@, vars@.len() as int)),
                    self.current - old(self).current,
                    g_vars(old(self).toks(), old(self).taken(), Seq::empty()),
                ),
            decreases self.left(),
        {
            proof {
                reveal(g_var_declaration);
                reveal(g_vars);
            }
            let name = self.consume(TokenType::Identifier, "Expect a variable name.")?;
            let initializer = self.initializer()?;
            let variable = Statement::VarStatement { name, initializer };
            proof {
                lemma_stmt_views_push(vars@, variable);
            }
            vars.push(variable);
            if !self.check(TokenType::Semicolon) {
                self.consume(TokenType::Comma, "Expect ',' after value")?;
            }
        }
        self.consume(TokenType::Semicolon, "Expect ';' after value")?;
        Ok(Statement::MultiVarStatement { vars })
    }

    /// `break;` or `continue;`, from behind the word on.
    #[verifier::spinoff_prover]
    fn jump(&mut self, word: &str) -> (res: Result<Token, LoxError>)
        requires
            old(self).wf(),
        ensures
            final(self).yields_token(
                old(self),
                res,
                g_jump(old(self).toks(), old(self).taken(), word@),
            ),
    {
        proof {
            reveal(g_jump);
        }
        let token = self.previous();
        let msg = String::from_str("Expect ';' after '").concat(word).concat("'");
        self.consume(TokenType::Semicolon, msg.as_str())?;
        Ok(token)
    }

    #[verifier::spinoff_prover]
    fn statement(&mut self) -> (res: Result<Statement, LoxError>)
        requires
            old(self).wf(),
        ensures
            final(self).yields_stmt(
                old(self),
                res,
                g_statement(old(self).toks(), old(self).taken()),
            ),
        decreases old(self).left(), 19nat,
    {
        proof {
            reveal(g_statement);
        }
        if self.check(TokenType::For) {
            self.advance();
            return self.for_statement();
        }
        if self.check(TokenType::If) {
            self.advance();
            return self.branch_statement();
        }
        if self.check(TokenType::Print) {
            self.advance();
            return self.print_statement();
        }
        if self.check(TokenType::Return) {
            self.advance();
            return self.return_statement();
        }
        if self.check(TokenType::While) {
            self.advance();
            return self.while_statement();
        }
        if self.check(TokenType::Break) {
            self.advance();
            let token = self.jump("break")?;
            return Ok(Statement::BreakStatement { token });
        }
        if self.check(TokenType::Continue) {
            self.advance();
            let token = self.jump("continue")?;
            return Ok(Statement::ContinueStatement { token });
        }
        if self.check(TokenType::LeftBrace) {
            self.advance();
            let statements = self.block_statement()?;
            return Ok(Statement::BlockStatement { statements });
        }
        self.expression_statement()
    }

    #[verifier::spinoff_prover]
    fn return_statement(&mut self) -> (res: Result<Statement, LoxError>)
        requires
            old(self).wf(),
        ensures
            final(self).yields_stmt(old(self), res, g_return(old(self).toks(), old(self).taken())),
        decreases old(self).left(), 22nat,
    {
        proof {
            reveal(g_return);
        }
        let key_word = self.previous();
        if self.check(TokenType::Semicolon) {
            self.advance();
            return Ok(Statement::ReturnStatement { key_word, value: None });
        }
        let value = self.expression()?;
        self.consume(TokenType::Semicolon, "Expect ';' after return value.")?;
        Ok(Statement::ReturnStatement { key_word, value: Some(value) })
    }

    /// The first part of the head of a `for` loop, with the semicolon that
    /// ends it.
    #[verifier::spinoff_prover]
    fn for_initializer(&mut self) -> (res: Result<Option<Statement>, LoxError>)
        requires
            old(self).wf(),
        ensures
            final(self).follows(old(self)),
            final(self).current == old(self).current + g_for_initializer(
                old(self).toks(),
                old(self).taken(),
            ).used,
            match res {
                Ok(Some(statement)) => g_for_initializer(old(self).toks(), old(self).taken()).value
                    == Ok::<Option<StmtView>, ErrorView>(Some(statement@)),
                Ok(None) => g_for_initializer(old(self).toks(), old(self).taken()).value == Ok::<
                    Option<StmtView>,
                    ErrorView,
                >(None),
                Err(error) => g_for_initializer(old(self).toks(), old(self).taken()).value
                    == Err::<Option<StmtView>, ErrorView>(error@),
            },
        decreases old(self).left(), 20nat,
    {
        proof {
            reveal(g_for_initializer);
        }
        if self.check(TokenType::Let) {
            self.advance();
            Ok(Some(self.var_declaration()?))
        } else if self.check(TokenType::Semicolon) {
            self.advance();
            Ok(None)
        } else {
            Ok(Some(self.expression_statement()?))
        }
    }

    /// An expression that may be left out in front of a token of kind
    /// `end`.
    #[verifier::spinoff_prover]
    fn optional(&mut self, end: TokenType) -> (res: Result<Option<Expression>, LoxError>)
        requires
            old(self).wf(),
        ensures
            final(self).yields_optional(
                old(self),
                res,
                g_optional(old(self).toks(), old(self).taken(), end),
            ),
        decreases old(self).left(), 20nat,
    {
        proof {
            reveal(g_optional);
        }
        if self.check(end) {
            Ok(None)
        } else {
            Ok(Some(self.expression()?))
        }
    }

    /// A `for` loop, from behind the `for` on. It becomes a `while` loop
    /// that carries the increment, which runs after the body and after
    /// every `continue`; the initializer, if there is one, stands with the
    /// loop in a block of their own. Without a condition the loop runs as
    /// if the condition were `true`.
    #[verifier::spinoff_prover]
    fn for_statement(&mut self) -> (res: Result<Statement, LoxError>)
        requires
            old(self).wf(),
        ensures
            final(self).yields_stmt(old(self), res, g_for(old(self).toks(), old(self).taken())),
        decreases old(self).left(), 22nat,
    {
        proof {
            reveal(g_for);
            reveal(g_for_tail);
        }
        self.consume(TokenType::LeftParen, "Expect '(' after 'for'")?;
        let initializer = self.for_initializer()?;
        let condition = self.optional(TokenType::Semicolon)?;
        let semicolon = self.consume(TokenType::Semicolon, "Expect ';' after loop condition")?;
        let increment = self.optional(TokenType::RightParen)?;
        let paren = self.consume(TokenType::RightParen, "Expect ')' after 'for'")?;
        let body = self.statement()?;
        let ghost wanted = for_loop(
            optional_stmt_view(initializer),
            optional_expr_view(condition),
            semicolon@,
            optional_expr_view(increment),
            paren@,
            body@,
        );
        let increment = match increment {
            Some(expression) => {
                let statement = Statement::ExpressionStatement { expression, end: paren };
                assert(statement@ == (StmtView::Expression {
                    expression: expression@,
                    end: paren@,
                }));
                Some(Box::new(statement))
            },
            None => None,
        };
        let condition = match condition {
            Some(condition) => condition,
            None => {
                let always = Expression::LiteralExpression {
                    value: Literal::Bool(true),
                    token: semicolon,
                };
                assert(always@ == (ExprView::Literal {
                    value: crate::types::LiteralView::Bool(true),
                    token: semicolon@,
                }));
                always
            },
        };
        let looping = Statement::WhileStatement { condition, body: Box::new(body), increment };
        assert(looping@ == (StmtView::While {
            condition: condition@,
            body: Box::new(body@),
            increment: boxed_stmt_view(increment),
        }));
        match initializer {
            Some(initializer) => {
                let mut statements: Vec<Statement> = Vec::new();
                proof {
                    lemma_stmt_views_push(statements@, initializer);
                    lemma_stmt_views_push(statements@.push(initializer), looping);
                }
                statements.push(initializer);
                statements.push(looping);
                assert(stmt_views(statements@, 2) =~= seq![initializer@, looping@]);
                let block = Statement::BlockStatement { statements };
                assert(block@ == wanted);
                Ok(block)
            },
            None => {
                assert(looping@ == wanted);
                Ok(looping)
            },
        }
    }

    /// The head of a loop or a branch: `( condition )`.
    #[verifier::spinoff_prover]
    fn condition(&mut self, msg: &str) -> (res: Result<Expression, LoxError>)
        requires
            old(self).wf(),
        ensures
            final(self).yields_expr(
                old(self),
                res,
                g_condition(old(self).toks(), old(self).taken(), msg@),
            ),
        decreases old(self).left(), 20nat,
    {
        proof {
            reveal(g_condition);
        }
        self.consume(TokenType::LeftParen, msg)?;
        let condition = self.expression()?;
        self.consume(TokenType::RightParen, "Expect ')' after the condition")?;
        Ok(condition)
    }

    #[verifier::spinoff_prover]
    fn while_statement(&mut self) -> (res: Result<Statement, LoxError>)
        requires
            old(self).wf(),
        ensures
            final(self).yields_stmt(old(self), res, g_while(old(self).toks(), old(self).taken())),
        decreases old(self).left(), 22nat,
    {
        proof {
            reveal(g_while);
        }
        let condition = self.condition("Expect '(' after 'while'")?;
        let body = self.statement()?;
        Ok(Statement::WhileStatement { condition, body: Box::new(body), increment: None })
    }

    #[verifier::spinoff_prover]
    fn branch_statement(&mut self) -> (res: Result<Statement, LoxError>)
        requires
            old(self).wf(),
        ensures
            final(self).yields_stmt(old(self), res, g_branch(old(self).toks(), old(self).taken())),
        decreases old(self).left(), 22nat,
    {
        proof {
            reveal(g_branch);
        }
        let condition = self.condition("Expect '(' after 'if'")?;
        let then_branch = self.statement()?;
        if self.check(TokenType::Else) {
            self.advance();
            let else_branch = self.statement()?;
            Ok(
                Statement::BranchStatement {
                    condition,
                    then_branch: Box::new(then_branch),
                    else_branch: Some(Box::new(else_branch)),
                },
            )
        } else {
            Ok(
                Statement::BranchStatement {
                    condition,
                    then_branch: Box::new(then_branch),
                    else_branch: None,
                },
            )
        }
    }

    /// The statements of a block, from behind the opening brace on.
    #[verifier::spinoff_prover]
    fn block_statement(&mut self) -> (res: Result<Vec<Statement>, LoxError>)
        requires
            old(self).wf(),
        ensures
            final(self).yields_stmts(
                old(self),
                res,
                g_block(old(self).toks(), old(self).taken(), Seq::empty()),
            ),
        decreases old(self).left(), 21nat,
    {
        proof {
            reveal(g_block);
        }
        let mut statements: Vec<Statement> = Vec::new();
        while !self.check(TokenType::RightBrace) && !self.is_at_end()
            invariant
                self.follows(old(self)),
                continues(
                    g_block(
                        self.toks(),
                        self.taken(),
                        stmt_views(statements@, statements@.len() as int),
                    ),
                    self.current - old(self).current,
                    g_block(old(self).toks(), old(self).taken(), Seq::empty()),
                ),
            decreases self.left(),
        {
            proof {
                reveal(g_block);
            }
            let statement = self.declaration()?;
            proof {
                lemma_stmt_views_push(statements@, statement);
            }
            statements.push(statement);
        }
        self.consume(TokenType::RightBrace, "Expect '}' after block")?;
        Ok(statements)
    }

    #[verifier::spinoff_prover]
    fn print_statement(&mut self) -> (res: Result<Statement, LoxError>)
        requires
            old(self).wf(),
        ensures
            final(self).yields_stmt(old(self), res, g_print(old(self).toks(), old(self).taken())),
        decreases old(self).left(), 22nat,
    {
        proof {
            reveal(g_print);
        }
        let keyword = self.previous();
        let expression = self.expression()?;
        self.consume(TokenType::Semicolon, "Expect ';' after value")?;
        Ok(Statement::PrintStatement { expression, keyword })
    }

    #[verifier::spinoff_prover]
    fn expression_statement(&mut self) -> (res: Result<Statement, LoxError>)
        requires
            old(self).wf(),
        ensures
            final(self).yields_stmt(
                old(self),
                res,
                g_expression_statement(old(self).toks(), old(self).taken()),
            ),
        decreases old(self).left(), 18nat,
    {
        proof {
            reveal(g_expression_statement);
        }
        let expression = self.expression()?;
        let end = self.consume(TokenType::Semicolon, "Expect ';' after value")?;
        Ok(Statement::ExpressionStatement { expression, end })
    }

    #[verifier::spinoff_prover]
    fn expression(&mut self) -> (res: Result<Expression, LoxError>)
        requires
            old(self).wf(),
        ensures
            final(self).yields_expr(
                old(self),
                res,
                g_expression(old(self).toks(), old(self).taken()),
            ),
        decreases old(self).left(), 17nat,
    {
        proof {
            reveal(g_expression);
        }
        self.assignment()
    }

    #[verifier::spinoff_prover]
    fn assignment(&mut self) -> (res: Result<Expression, LoxError>)
        requires
            old(self).wf(),
        ensures
            final(self).yields_expr(
                old(self),
                res,
                g_assignment(old(self).toks(), old(self).taken()),
            ),
        decreases old(self).left(), 16nat,
    {
        proof {
            reveal(g_assignment);
        }
        let expr = self.or()?;
        let assigns = match self.peek().token_type {
            TokenType::PlusEqual
            | TokenType::MinusEqual
            | TokenType::StarEqual
            | TokenType::SlashEqual
            | TokenType::ModEqual
            | TokenType::Equal => true,
            _ => false,
        };
        if assigns {
            let op = self.advance();
            let value = self.assignment()?;
            return match expr {
                Expression::VariableExpression { name } => match op.token_type {
                    TokenType::Equal => Ok(
                        Expression::AssignExpression { name, value: Box::new(value) },
                    ),
                    _ => Ok(
                        Expression::OperateAndAssignExpression {
                            name,
                            op,
                            value: Box::new(value),
                        },
                    ),
                },
                _ => Err(Self::error(&op, "Invalid assignment target")),
            };
        }
        Ok(expr)
    }

    #[verifier::spinoff_prover]
    fn or(&mut self) -> (res: Result<Expression, LoxError>)
        requires
            old(self).wf(),
        ensures
            final(self).yields_expr(old(self), res, g_or(old(self).toks(), old(self).taken())),
        decreases old(self).left(), 15nat,
    {
        proof {
            reveal(g_or);
            reveal(g_or_rest);
        }
        let mut expr = self.and()?;
        while self.check(TokenType::Or)
            invariant
                self.follows(old(self)),
                self.current > old(self).current,
                continues(
                    g_or_rest(self.toks(), self.taken(), expr@),
                    self.current - old(self).current,
                    g_or(old(self).toks(), old(self).taken()),
                ),
            decreases self.left(),
        {
            proof {
                reveal(g_or);
                reveal(g_or_rest);
            }
            let op = self.advance();
            let right = self.and()?;
            expr = Expression::LogicalExpression { left: Box::new(expr), op, right: Box::new(right) };
        }
        Ok(expr)
    }

    #[verifier::spinoff_prover]
    fn and(&mut self) -> (res: Result<Expression, LoxError>)
        requires
            old(self).wf(),
        ensures
            final(self).yields_expr(old(self), res, g_and(old(self).toks(), old(self).taken())),
        decreases old(self).left(), 14nat,
    {
        proof {
            reveal(g_and);
            reveal(g_and_rest);
        }
        let mut expr = self.ternary()?;
        while self.check(TokenType::And)
            invariant
                self.follows(old(self)),
                self.current > old(self).current,
                continues(
                    g_and_rest(self.toks(), self.taken(), expr@),
                    self.current - old(self).current,
                    g_and(old(self).toks(), old(self).taken()),
                ),
            decreases self.left(),
        {
            proof {
                reveal(g_and);
                reveal(g_and_rest);
            }
            let op = self.advance();
            let right = self.ternary()?;
            expr = Expression::LogicalExpression { left: Box::new(expr), op, right: Box::new(right) };
        }
        Ok(expr)
    }

    #[verifier::spinoff_prover]
    fn ternary(&mut self) -> (res: Result<Expression, LoxError>)
        requires
            old(self).wf(),
        ensures
            final(self).yields_expr(old(self), res, g_ternary(old(self).toks(), old(self).taken())),
        decreases old(self).left(), 13nat,
    {
        proof {
            reveal(g_ternary);
        }
        let condition = self.equality()?;
        if self.check(TokenType::QuestionMark) {
            self.advance();
            let true_value = self.ternary()?;
            if self.check(TokenType::Colon) {
                self.advance();
                let false_value = self.ternary()?;
                return Ok(
                    Expression::TernaryExpression {
                        condition: Box::new(condition),
                        true_value: Box::new(true_value),
                        false_value: Box::new(false_value),
                    },
                );
            }
            return Err(Self::error(self.peek(), "Expected ':' after expression"));
        }
        Ok(condition)
    }

    #[verifier::spinoff_prover]
    fn equality(&mut self) -> (res: Result<Expression, LoxError>)
        requires
            old(self).wf(),
        ensures
            final(self).yields_expr(
                old(self),
                res,
                g_equality(old(self).toks(), old(self).taken()),
            ),
        decreases old(self).left(), 12nat,
    {
        proof {
            reveal(g_equality);
            reveal(g_equality_rest);
        }
        let mut expr = self.comparison()?;
        while self.check(TokenType::BangEqual) || self.check(TokenType::EqualEqual)
            invariant
                self.follows(old(self)),
                self.current > old(self).current,
                continues(
                    g_equality_rest(self.toks(), self.taken(), expr@),
                    self.current - old(self).current,
                    g_equality(old(self).toks(), old(self).taken()),
                ),
            decreases self.left(),
        {
            proof {
                reveal(g_equality);
                reveal(g_equality_rest);
            }
            let op = self.advance();
            let right = self.comparison()?;
            expr = Expression::BinaryExpression { left: Box::new(expr), op, right: Box::new(right) };
        }
        Ok(expr)
    }

    #[verifier::spinoff_prover]
    fn comparison(&mut self) -> (res: Result<Expression, LoxError>)
        requires
            old(self).wf(),
        ensures
            final(self).yields_expr(
                old(self),
                res,
                g_comparison(old(self).toks(), old(self).taken()),
            ),
        decreases old(self).left(), 11nat,
    {
        proof {
            reveal(g_comparison);
            reveal(g_comparison_rest);
        }
        let mut expr = self.term()?;
        while self.check(TokenType::Greater) || self.check(TokenType::GreaterEqual) || self.check(
            TokenType::Less,
        ) || self.check(TokenType::LessEqual)
            invariant
                self.follows(old(self)),
                self.current > old(self).current,
                continues(
                    g_comparison_rest(self.toks(), self.taken(), expr@),
                    self.current - old(self).current,
                    g_comparison(old(self).toks(), old(self).taken()),
                ),
            decreases self.left(),
        {
            proof {
                reveal(g_comparison);
                reveal(g_comparison_rest);
            }
            let op = self.advance();
            let right = self.term()?;
            expr = Expression::BinaryExpression { left: Box::new(expr), op, right: Box::new(right) };
        }
        Ok(expr)
    }

    #[verifier::spinoff_prover]
    fn term(&mut self) -> (res: Result<Expression, LoxError>)
        requires
            old(self).wf(),
        ensures
            final(self).yields_expr(old(self), res, g_term(old(self).toks(), old(self).taken())),
        decreases old(self).left(), 10nat,
    {
        proof {
            reveal(g_term);
            reveal(g_term_rest);
        }
        let mut expr = self.factor()?;
        while self.check(TokenType::Plus) || self.check(TokenType::Minus)
            invariant
                self.follows(old(self)),
                self.current > old(self).current,
                continues(
                    g_term_rest(self.toks(), self.taken(), expr@),
                    self.current - old(self).current,
                    g_term(old(self).toks(), old(self).taken()),
                ),
            decreases self.left(),
        {
            proof {
                reveal(g_term);
                reveal(g_term_rest);
            }
            let op = self.advance();
            let right = self.factor()?;
            expr = Expression::BinaryExpression { left: Box::new(expr), op, right: Box::new(right) };
        }
        Ok(expr)
    }

    #[verifier::spinoff_prover]
    fn factor(&mut self) -> (res: Result<Expression, LoxError>)
        requires
            old(self).wf(),
        ensures
            final(self).yields_expr(old(self), res, g_factor(old(self).toks(), old(self).taken())),
        decreases old(self).left(), 9nat,
    {
        proof {
            reveal(g_factor);
            reveal(g_factor_rest);
        }
        let mut expr = self.unary()?;
        while self.check(TokenType::Star) || self.check(TokenType::Slash) || self.check(
            TokenType::Mod,
        )
            invariant
                self.follows(old(self)),
                self.current > old(self).current,
                continues(
                    g_factor_rest(self.toks(), self.taken(), expr@),
                    self.current - old(self).current,
                    g_factor(old(self).toks(), old(self).taken()),
                ),
            decreases self.left(),
        {
            proof {
                reveal(g_factor);
                reveal(g_factor_rest);
            }
            let op = self.advance();
            let right = self.unary()?;
            expr = Expression::BinaryExpression { left: Box::new(expr), op, right: Box::new(right) };
        }
        Ok(expr)
    }

    #[verifier::spinoff_prover]
    fn unary(&mut self) -> (res: Result<Expression, LoxError>)
        requires
            old(self).wf(),
        ensures
            final(self).yields_expr(old(self), res, g_unary(old(self).toks(), old(self).taken())),
        decreases old(self).left(), 8nat,
    {
        proof {
            reveal(g_unary);
        }
        if self.check(TokenType::Bang) || self.check(TokenType::Minus) || self.check(
            TokenType::Plus,
        ) {
            let op = self.advance();
            let right = self.unary()?;
            return Ok(Expression::UnaryExpression { op, right: Box::new(right) });
        }
        self.call()
    }

    #[verifier::spinoff_prover]
    fn call(&mut self) -> (res: Result<Expression, LoxError>)
        requires
            old(self).wf(),
        ensures
            final(self).yields_expr(old(self), res, g_call(old(self).toks(), old(self).taken())),
        decreases old(self).left(), 7nat,
    {
        proof {
            reveal(g_call);
        }
        let callee = self.primary()?;
        if self.check(TokenType::LeftParen) {
            self.advance();
            let arguments = self.arguments()?;
            let paren = self.consume(TokenType::RightParen, "Expect ')' after arguments")?;
            Ok(Expression::CallExpression { callee: Box::new(callee), paren, arguments })
        } else {
            Ok(callee)
        }
    }

    /// The arguments of a call, from behind the opening parenthesis up to
    /// the closing one.
    #[verifier::spinoff_prover]
    fn arguments(&mut self) -> (res: Result<Vec<Expression>, LoxError>)
        requires
            old(self).wf(),
        ensures
            final(self).follows(old(self)),
            final(self).current == old(self).current + g_arguments(
                old(self).toks(),
                old(self).taken(),
                Seq::empty(),
            ).used,
            match res {
                Ok(arguments) => g_arguments(old(self).toks(), old(self).taken(), Seq::empty()).value
                    == Ok::<Seq<ExprView>, ErrorView>(
                    expr_views(arguments@, arguments@.len() as int),
                ),
                Err(error) => g_arguments(old(self).toks(), old(self).taken(), Seq::empty()).value
                    == Err::<Seq<ExprView>, ErrorView>(error@),
            },
        decreases old(self).left(), 22nat,
    {
        proof {
            reveal(g_arguments);
        }
        let mut args: Vec<Expression> = Vec::new();
        while !self.check(TokenType::RightParen)
            invariant
                self.follows(old(self)),
                continues(
                    g_arguments(self.toks(), self.taken(), expr_views(args@, args@.len() as int)),
                    self.current - old(self).current,
                    g_arguments(old(self).toks(), old(self).taken(), Seq::empty()),
                ),
            decreases self.left(),
        {
            proof {
                reveal(g_arguments);
            }
            proof {
                crate::expr::lemma_expr_views_len(args@, args@.len() as int);
            }
            if args.len() >= MAX_ARITY {
                return Err(Self::error(self.peek(), "The maximum number of arguments is 256."));
            }
            if self.is_at_end() {
                let msg = no_expression_message(self.peek());
                return Err(Self::error(self.peek(), msg.as_str()));
            }
            let argument = self.expression()?;
            proof {
                lemma_expr_views_push(args@, argument);
            }
            args.push(argument);
            if self.check(TokenType::Comma) {
                self.advance();
            }
        }
        Ok(args)
    }

    /// A function without a name, from behind `func` on.
    #[verifier::spinoff_prover]
    fn lambda(&mut self) -> (res: Result<Expression, LoxError>)
        requires
            old(self).wf(),
        ensures
            final(self).yields_expr(old(self), res, g_lambda(old(self).toks(), old(self).taken())),
        decreases old(self).left(), 23nat,
    {
        proof {
            reveal(g_lambda);
        }
        let keyword = self.previous();
        self.consume(TokenType::LeftParen, "Expect '(' after func.")?;
        let (params, body) = self.function_params_and_body()?;
        Ok(Expression::LambdaExpression { keyword, params, body })
    }

    #[verifier::spinoff_prover]
    fn primary(&mut self) -> (res: Result<Expression, LoxError>)
        requires
            old(self).wf(),
        ensures
            final(self).yields_expr(old(self), res, g_primary(old(self).toks(), old(self).taken())),
        decreases old(self).left(), 6nat,
    {
        proof {
            reveal(g_primary);
        }
        if self.check(TokenType::False) {
            let token = self.advance();
            Ok(Expression::LiteralExpression { value: Literal::Bool(false), token })
        } else if self.check(TokenType::True) {
            let token = self.advance();
            Ok(Expression::LiteralExpression { value: Literal::Bool(true), token })
        } else if self.check(TokenType::Nil) {
            let token = self.advance();
            Ok(Expression::LiteralExpression { value: Literal::Nil, token })
        } else if self.check(TokenType::Number) || self.check(TokenType::String) {
            let token = self.advance();
            let value = match &token.literal {
                Some(value) => Some(value.clone()),
                None => None,
            };
            match value {
                Some(value) => Ok(Expression::LiteralExpression { value, token }),
                None => Err(Self::error(&token, "Expect a value for the literal.")),
            }
        } else if self.check(TokenType::Identifier) {
            let name = self.advance();
            Ok(Expression::VariableExpression { name })
        } else if self.check(TokenType::LeftParen) {
            self.advance();
            let expression = self.expression()?;
            self.consume(TokenType::RightParen, "Expect ')' after expression.")?;
            Ok(Expression::GroupingExpression { expression: Box::new(expression) })
        } else if self.check(TokenType::Func) {
            self.advance();
            self.lambda()
        } else {
            let msg = no_expression_message(self.peek());
            Err(Self::error(self.peek(), msg.as_str()))
        }
    }
}

} // verus!
