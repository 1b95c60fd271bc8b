//! The static checks made on the syntax tree before it is compiled.
//!
//! One pass over the tree finds every `break` and `continue` outside a
//! loop, every `return` outside a function, every `return` of a value from
//! an initializer and every `self` outside a method, and keeps a table of
//! the variables declared and whether each has been read since.

use vstd::prelude::*;
use vstd::string::*;
use crate::error::{error_views, ErrorView, LoxError};
use crate::expr::{expr_views, Expression, ExprView};
use crate::stmt::{stmt_views, Statement, StmtView};
use crate::text::str_equal;
use crate::token::{Token, TokenView};
use crate::types::{ClassType, FuncType};

verus! {

/// Where in the program a piece of the tree stands.
#[derive(Debug, Clone, Copy, PartialEq, Eq, Structural)]
pub struct Context {
    pub function_type: FuncType,
    pub class_type: ClassType,
    pub is_in_while: bool,
}

/// What the checks have found: the table of variables, each with the flag
/// that says whether it has been read since it was last declared, and the
/// errors, in the order in which the tree was walked.
pub struct Findings {
    pub table: Seq<(Seq<char>, bool)>,
    pub errors: Seq<ErrorView>,
}

/// The index of the first entry for `name`.
pub open spec fn index_of(table: Seq<(Seq<char>, bool)>, name: Seq<char>) -> Option<int>
    decreases table.len(),
{
    if table.len() == 0 {
        None
    } else if index_of(table.drop_last(), name) is Some {
        index_of(table.drop_last(), name)
    } else if table.last().0 == name {
        Some(table.len() - 1)
    } else {
        None
    }
}

/// The table after a declaration of `name`: the name is entered, or entered
/// anew, as not yet read.
pub open spec fn declare(table: Seq<(Seq<char>, bool)>, name: Seq<char>) -> Seq<(Seq<char>, bool)> {
    match index_of(table, name) {
        Some(at) => table.update(at, (name, false)),
        None => table.push((name, false)),
    }
}

/// The table after `name` was read: a declared name is marked as read, any
/// other name is passed over.
pub open spec fn mark(table: Seq<(Seq<char>, bool)>, name: Seq<char>) -> Seq<(Seq<char>, bool)> {
    match index_of(table, name) {
        Some(at) => table.update(at, (name, true)),
        None => table,
    }
}

/// The names that were never read since they were last declared, among
/// the first `n` entries, in the order of their first declaration.
pub open spec fn unused(table: Seq<(Seq<char>, bool)>, n: int) -> Seq<Seq<char>>
    decreases n,
{
    if n <= 0 || n > table.len() {
        Seq::empty()
    } else if table[n - 1].1 {
        unused(table, n - 1)
    } else {
        unused(table, n - 1).push(table[n - 1].0)
    }
}

/// The error for a token that stands where it may not.
pub open spec fn misuse(token: TokenView, msg: Seq<char>) -> ErrorView {
    ErrorView::Parse {
        position: token.position,
        lexeme: token.lexeme,
        token_type: token.token_type,
        msg,
    }
}

impl Findings {
    pub open spec fn with_error(self, error: ErrorView) -> Findings {
        Findings { table: self.table, errors: self.errors.push(error) }
    }

    pub open spec fn with_table(self, table: Seq<(Seq<char>, bool)>) -> Findings {
        Findings { table, errors: self.errors }
    }
}

impl Context {
    pub open spec fn in_function(self, function_type: FuncType) -> Context {
        Context { function_type, class_type: self.class_type, is_in_while: self.is_in_while }
    }

    pub open spec fn in_class(self, class_type: ClassType) -> Context {
        Context { function_type: self.function_type, class_type, is_in_while: self.is_in_while }
    }

    pub open spec fn in_loop(self, is_in_while: bool) -> Context {
        Context { function_type: self.function_type, class_type: self.class_type, is_in_while }
    }

    /// Whether `self` may be written here: inside a class, or in a method or
    /// an initializer.
    pub open spec fn allows_self(self) -> bool {
        !(self.class_type == ClassType::Outside && !(self.function_type == FuncType::Initializer
            || self.function_type == FuncType::Method))
    }
}

/// The kind of function that a method of this name is.
pub open spec fn method_type(name: Seq<char>) -> FuncType {
    if name == "__init__"@ {
        FuncType::Initializer
    } else {
        FuncType::Method
    }
}

/// What is found after an expression has been checked.
pub open spec fn check_expr(expr: ExprView, context: Context, found: Findings) -> Findings
    decreases expr, 0nat,
{
    match expr {
        ExprView::Assign { name, value } => check_expr(*value, context, found),
        ExprView::Binary { left, op, right } => check_expr(
            *right,
            context,
            check_expr(*left, context, found),
        ),
        ExprView::Call { callee, paren, arguments } => check_exprs(
            arguments,
            arguments.len() as int,
            context,
            check_expr(*callee, context, found),
        ),
        ExprView::GetField { object, name } => check_expr(*object, context, found),
        ExprView::Grouping { expression } => check_expr(*expression, context, found),
        ExprView::Literal { value, token } => found,
        ExprView::Logical { left, op, right } => check_expr(
            *right,
            context,
            check_expr(*left, context, found),
        ),
        ExprView::SetField { object, name, value } => check_expr(
            *value,
            context,
            check_expr(*object, context, found),
        ),
        ExprView::Super { keyword, method } => found,
        ExprView::SelfReference { keyword } => {
            if context.allows_self() {
                found
            } else {
                found.with_error(
                    misuse(
                        keyword,
                        "Keyword `self` can only be used in method(static methods are not included)."@,
                    ),
                )
            }
        },
        ExprView::Ternary { condition, true_value, false_value } => check_expr(
            *false_value,
            context,
            check_expr(*true_value, context, check_expr(*condition, context, found)),
        ),
        ExprView::Unary { op, right } => check_expr(*right, context, found),
        ExprView::Variable { name } => found.with_table(
            mark(found.table, name.lexeme),
        ),
        ExprView::Lambda { keyword, params, body } => check_stmts(
            body,
            body.len() as int,
            context.in_function(FuncType::Lambda),
            found,
        ),
        ExprView::OperateAndAssign { name, op, value } => check_expr(
            *value,
            context,
            found,
        ),
    }
}

/// What is found after the first `n` of the expressions have been checked.
pub open spec fn check_exprs(
    exprs: Seq<ExprView>,
    n: int,
    context: Context,
    found: Findings,
) -> Findings
    decreases exprs, n,
{
    if n <= 0 || n > exprs.len() {
        found
    } else {
        check_expr(exprs[n - 1], context, check_exprs(exprs, n - 1, context, found))
    }
}

/// What is found after the first `n` of the methods of a class have been
/// checked: each is checked as a method, or, if its name is `__init__`, as
/// an initializer. With `fixed`, each is checked as the kind of function
/// that it says it is.
pub open spec fn check_methods(
    methods: Seq<StmtView>,
    n: int,
    fixed: bool,
    context: Context,
    found: Findings,
) -> Findings
    decreases methods, n,
{
    if n <= 0 || n > methods.len() {
        found
    } else {
        let before = check_methods(methods, n - 1, fixed, context, found);
        match methods[n - 1] {
            StmtView::Function { name, params, body, function_type } => check_stmts(
                body,
                body.len() as int,
                context.in_function(
                    if fixed {
                        function_type
                    } else {
                        method_type(name.lexeme)
                    },
                ),
                before,
            ),
            _ => before,
        }
    }
}

/// What is found after a statement has been checked.
pub open spec fn check_stmt(stmt: StmtView, context: Context, found: Findings) -> Findings
    decreases stmt, 0nat,
{
    match stmt {
        StmtView::Expression { expression, end } => check_expr(
            expression,
            context,
            found,
        ),
        StmtView::Print { expression, keyword } => check_expr(
            expression,
            context,
            found,
        ),
        StmtView::Var { name, initializer } => {
            let declared = found.with_table(declare(found.table, name.lexeme));
            match initializer {
                Some(init) => check_expr(init, context, declared),
                None => declared,
            }
        },
        StmtView::MultiVar { vars } => check_stmts(
            vars,
            vars.len() as int,
            context,
            found,
        ),
        StmtView::Block { statements } => check_stmts(
            statements,
            statements.len() as int,
            context,
            found,
        ),
        StmtView::Branch { condition, then_branch, else_branch } => {
            let then_found = check_stmt(
                *then_branch,
                context,
                check_expr(condition, context, found),
            );
            match else_branch {
                Some(else_branch) => check_stmt(*else_branch, context, then_found),
                None => then_found,
            }
        },
        StmtView::While { condition, body, increment } => {
            let body_found = check_stmt(
                *body,
                context.in_loop(true),
                check_expr(condition, context, found),
            );
            match increment {
                Some(increment) => check_stmt(*increment, context, body_found),
                None => body_found,
            }
        },
        StmtView::Continue { token } => {
            if context.is_in_while {
                found
            } else {
                found.with_error(
                    misuse(token, "`continue` can only be used in `while` or `for` statements"@),
                )
            }
        },
        StmtView::Break { token } => {
            if context.is_in_while {
                found
            } else {
                found.with_error(
                    misuse(token, "`break` can only be used in `while` or `for` statements"@),
                )
            }
        },
        StmtView::Function { name, params, body, function_type } => check_stmts(
            body,
            body.len() as int,
            context.in_function(function_type),
            found,
        ),
        StmtView::Return { key_word, value } => {
            if context.function_type == FuncType::Main {
                found.with_error(misuse(key_word, "`return` can only be used in a function."@))
            } else {
                match value {
                    Some(value) => {
                        if context.function_type == FuncType::Initializer {
                            found.with_error(
                                misuse(key_word, "function `__init__` can not return value."@),
                            )
                        } else {
                            check_expr(value, context, found)
                        }
                    },
                    None => found,
                }
            }
        },
        StmtView::Class { name, methods, static_methods } => check_methods(
            static_methods,
            static_methods.len() as int,
            true,
            context,
            check_methods(
                methods,
                methods.len() as int,
                false,
                context.in_class(ClassType::Class),
                found,
            ),
        ),
    }
}

/// What is found after the first `n` of the statements have been checked.
pub open spec fn check_stmts(
    stmts: Seq<StmtView>,
    n: int,
    context: Context,
    found: Findings,
) -> Findings
    decreases stmts, n,
{
    if n <= 0 || n > stmts.len() {
        found
    } else {
        check_stmt(stmts[n - 1], context, check_stmts(stmts, n - 1, context, found))
    }
}

pub open spec fn table_view(table: Seq<(String, bool)>) -> Seq<(Seq<char>, bool)> {
    table.map_values(|entry: (String, bool)| (entry.0@, entry.1))
}

pub open spec fn name_views(names: Seq<String>) -> Seq<Seq<char>> {
    names.map_values(|name: String| name@)
}

/// A name that no entry holds has no index.
proof fn lemma_index_of_absent(table: Seq<(Seq<char>, bool)>, name: Seq<char>)
    requires
        forall|i: int| 0 <= i < table.len() ==> table[i].0 != name,
    ensures
        index_of(table, name) is None,
    decreases table.len(),
{
    if table.len() > 0 {
        lemma_index_of_absent(table.drop_last(), name);
    }
}

/// The index of a name is the index of the first entry that holds it.
proof fn lemma_index_of_first(table: Seq<(Seq<char>, bool)>, name: Seq<char>, at: int)
    requires
        0 <= at < table.len(),
        table[at].0 == name,
        forall|i: int| 0 <= i < at ==> table[i].0 != name,
    ensures
        index_of(table, name) == Some(at),
    decreases table.len(),
{
    if at < table.len() - 1 {
        lemma_index_of_first(table.drop_last(), name, at);
    } else {
        lemma_index_of_absent(table.drop_last(), name);
    }
}

pub struct Resolver {
    function_type: FuncType,
    class_type: ClassType,
    is_in_while: bool,
    var_use_table: Vec<(String, bool)>,
    errors: Vec<LoxError>,
}

impl Resolver {
    /// Where the resolver stands.
    pub closed spec fn context(&self) -> Context {
        Context {
            function_type: self.function_type,
            class_type: self.class_type,
            is_in_while: self.is_in_while,
        }
    }

    /// What the resolver has found.
    pub closed spec fn findings(&self) -> Findings {
        Findings { table: table_view(self.var_use_table@), errors: error_views(self.errors@) }
    }

    /// A resolver at the top of a program, with nothing found.
    pub fn new() -> (res: Self)
        ensures
            res.context() == (Context {
                function_type: FuncType::Main,
                class_type: ClassType::Outside,
                is_in_while: false,
            }),
            res.findings() == (Findings { table: Seq::empty(), errors: Seq::empty() }),
    {
        let res = Resolver {
            function_type: FuncType::Main,
            class_type: ClassType::Outside,
            is_in_while: false,
            var_use_table: Vec::new(),
            errors: Vec::new(),
        };
        assert(table_view(res.var_use_table@) =~= Seq::empty());
        assert(error_views(res.errors@) =~= Seq::empty());
        res
    }

    /// The index of the first entry for `name`.
    fn find(&self, name: &String) -> (res: Option<usize>)
        ensures
            match res {
                Some(at) => at < self.var_use_table@.len() && index_of(
                    self.findings().table,
                    name@,
                ) == Some(at as int),
                None => index_of(self.findings().table, name@) is None,
            },
    {
        let ghost table = table_view(self.var_use_table@);
        let mut i: usize = 0;
        while i < self.var_use_table.len()
            invariant
                i <= self.var_use_table@.len(),
                table == table_view(self.var_use_table@),
                forall|k: int| 0 <= k < i ==> table[k].0 != name@,
            decreases self.var_use_table@.len() - i,
        {
            if self.var_use_table[i].0 == *name {
                proof {
                    lemma_index_of_first(table, name@, i as int);
                }
                return Some(i);
            }
            i += 1;
        }
        proof {
            lemma_index_of_absent(table, name@);
        }
        None
    }

    /// Enters `name` in the table as declared and not yet read.
    pub fn variable_define(&mut self, name: String)
        ensures
            final(self).context() == old(self).context(),
            final(self).findings() == old(self).findings().with_table(
                declare(old(self).findings().table, name@),
            ),
    {
        match self.find(&name) {
            Some(at) => {
                self.var_use_table.set(at, (name, false));
                assert(table_view(self.var_use_table@) =~= table_view(
                    old(self).var_use_table@,
                ).update(at as int, (name@, false)));
            },
            None => {
                self.var_use_table.push((name, false));
                assert(table_view(self.var_use_table@) =~= table_view(
                    old(self).var_use_table@,
                ).push((name@, false)));
            },
        }
    }

    /// Marks `name` as read, if it is declared.
    pub fn variable_used(&mut self, name: &String)
        ensures
            final(self).context() == old(self).context(),
            final(self).findings() == old(self).findings().with_table(
                mark(old(self).findings().table, name@),
            ),
    {
        match self.find(name) {
            Some(at) => {
                self.var_use_table.set(at, (name.clone(), true));
                assert(table_view(self.var_use_table@) =~= table_view(
                    old(self).var_use_table@,
                ).update(at as int, (name@, true)));
            },
            None => {},
        }
    }

    /// Records that `token` stands where it may not.
    fn report(&mut self, token: &Token, msg: &str)
        ensures
            final(self).context() == old(self).context(),
            final(self).findings() == old(self).findings().with_error(misuse(token@, msg@)),
    {
        self.errors.push(LoxError::create_parse_error(token, String::from_str(msg)));
        assert(error_views(self.errors@) =~= error_views(old(self).errors@).push(
            misuse(token@, msg@),
        ));
    }

    pub fn resolve_expression(&mut self, expression: &Expression)
        ensures
            final(self).context() == old(self).context(),
            final(self).findings() == check_expr(
                expression@,
                old(self).context(),
                old(self).findings(),
            ),
        decreases expression, 0nat,
    {
        match expression {
            Expression::AssignExpression { name: _, value } => self.resolve_expression(value),
            Expression::BinaryExpression { left, op: _, right } => {
                self.resolve_expression(left);
                self.resolve_expression(right);
            },
            Expression::CallExpression { callee, paren: _, arguments } => {
                proof {
                    crate::expr::lemma_expr_views_len(arguments@, arguments@.len() as int);
                }
                self.resolve_expression(callee);
                let ghost start = self.findings();
                let mut i: usize = 0;
                while i < arguments.len()
                    invariant
                        i <= arguments@.len(),
                        decreases_to!(expression => arguments),
                        self.context() == old(self).context(),
                        self.findings() == check_exprs(
                            expr_views(arguments@, arguments@.len() as int),
                            i as int,
                            old(self).context(),
                            start,
                        ),
                    decreases arguments@.len() - i,
                {
                    proof {
                        vstd::std_specs::vec::axiom_vec_index_decreases(*arguments, i as int);
                        crate::expr::lemma_expr_views_len(arguments@, arguments@.len() as int);
                    }
                    self.resolve_expression(&arguments[i]);
                    i += 1;
                }
            },
            Expression::GetExpression { object, name: _ } => self.resolve_expression(object),
            Expression::GroupingExpression { expression } => self.resolve_expression(expression),
            Expression::LiteralExpression { value: _, token: _ } => {},
            Expression::LogicalExpression { left, op: _, right } => {
                self.resolve_expression(left);
                self.resolve_expression(right);
            },
            Expression::SetExpression { object, name: _, value } => {
                self.resolve_expression(object);
                self.resolve_expression(value);
            },
            Expression::SuperExpression { keyword: _, method: _ } => {},
            Expression::SelfExpression { keyword } => {
                let outside = match self.class_type {
                    ClassType::Outside => true,
                    _ => false,
                };
                let in_method = match self.function_type {
                    FuncType::Initializer | FuncType::Method => true,
                    _ => false,
                };
                if outside && !in_method {
                    self.report(
                        keyword,
                        "Keyword `self` can only be used in method(static methods are not included).",
                    );
                }
            },
            Expression::TernaryExpression { condition, true_value, false_value } => {
                self.resolve_expression(condition);
                self.resolve_expression(true_value);
                self.resolve_expression(false_value);
            },
            Expression::UnaryExpression { op: _, right } => self.resolve_expression(right),
            Expression::VariableExpression { name } => self.variable_used(&name.lexeme),
            Expression::LambdaExpression { keyword: _, params: _, body } => {
                proof {
                    crate::stmt::lemma_stmt_views_len(body@, body@.len() as int);
                }
                self.resolve_function(body, FuncType::Lambda);
            },
            Expression::OperateAndAssignExpression { name: _, op: _, value } => {
                self.resolve_expression(value)
            },
        }
    }

    pub fn resolve_statement(&mut self, statement: &Statement)
        ensures
            final(self).context() == old(self).context(),
            final(self).findings() == check_stmt(
                statement@,
                old(self).context(),
                old(self).findings(),
            ),
        decreases statement, 0nat,
    {
        match statement {
            Statement::ExpressionStatement { expression, end: _ } => {
                self.resolve_expression(expression)
            },
            Statement::PrintStatement { expression, keyword: _ } => {
                self.resolve_expression(expression)
            },
            Statement::VarStatement { name, initializer } => {
                self.variable_define(name.lexeme.clone());
                if let Some(init) = initializer {
                    self.resolve_expression(init);
                }
            },
            Statement::MultiVarStatement { vars } => {
                proof {
                    crate::stmt::lemma_stmt_views_len(vars@, vars@.len() as int);
                }
                self.resolve_statements(vars)
            },
            Statement::BlockStatement { statements } => {
                proof {
                    crate::stmt::lemma_stmt_views_len(statements@, statements@.len() as int);
                }
                self.resolve_statements(statements)
            },
            Statement::BranchStatement { condition, then_branch, else_branch } => {
                self.resolve_expression(condition);
                self.resolve_statement(then_branch);
                if let Some(else_branch) = else_branch {
                    self.resolve_statement(else_branch);
                }
            },
            Statement::WhileStatement { condition, body, increment } => {
                self.resolve_expression(condition);
                let outer = self.is_in_while;
                self.is_in_while = true;
                self.resolve_statement(body);
                self.is_in_while = outer;
                if let Some(increment) = increment {
                    self.resolve_statement(increment);
                }
            },
            Statement::ContinueStatement { token } => {
                if !self.is_in_while {
                    self.report(
                        token,
                        "`continue` can only be used in `while` or `for` statements",
                    );
                }
            },
            Statement::BreakStatement { token } => {
                if !self.is_in_while {
                    self.report(token, "`break` can only be used in `while` or `for` statements");
                }
            },
            Statement::FunctionStatement { name: _, params: _, body, function_type } => {
                proof {
                    crate::stmt::lemma_stmt_views_len(body@, body@.len() as int);
                }
                self.resolve_function(body, *function_type)
            },
            Statement::ReturnStatement { key_word, value } => {
                match self.function_type {
                    FuncType::Main => {
                        self.report(key_word, "`return` can only be used in a function.");
                    },
                    FuncType::Initializer => {
                        if value.is_some() {
                            self.report(key_word, "function `__init__` can not return value.");
                        }
                    },
                    _ => {
                        if let Some(value) = value {
                            self.resolve_expression(value);
                        }
                    },
                }
            },
            Statement::ClassStatement { name: _, methods, static_methods } => {
                proof {
                    crate::stmt::lemma_stmt_views_len(methods@, methods@.len() as int);
                    crate::stmt::lemma_stmt_views_len(
                        static_methods@,
                        static_methods@.len() as int,
                    );
                }
                let outer = self.class_type;
                self.class_type = ClassType::Class;
                self.resolve_methods(methods, false);
                self.class_type = outer;
                self.resolve_methods(static_methods, true);
            },
        }
    }

    /// Checks the methods of a class: each as a method, or, if its name is
    /// `__init__`, as an initializer; with `fixed`, each as the kind of
    /// function that it says it is.
    fn resolve_methods(&mut self, methods: &Vec<Statement>, fixed: bool)
        ensures
            final(self).context() == old(self).context(),
            final(self).findings() == check_methods(
                stmt_views(methods@, methods@.len() as int),
                methods@.len() as int,
                fixed,
                old(self).context(),
                old(self).findings(),
            ),
        decreases methods, methods@.len(),
    {
        let mut i: usize = 0;
        while i < methods.len()
            invariant
                i <= methods@.len(),
                self.context() == old(self).context(),
                self.findings() == check_methods(
                    stmt_views(methods@, methods@.len() as int),
                    i as int,
                    fixed,
                    old(self).context(),
                    old(self).findings(),
                ),
            decreases methods@.len() - i,
        {
            proof {
                vstd::std_specs::vec::axiom_vec_index_decreases(*methods, i as int);
                crate::stmt::lemma_stmt_views_len(methods@, methods@.len() as int);
            }
            match &methods[i] {
                Statement::FunctionStatement { name, params: _, body, function_type } => {
                    proof {
                        crate::stmt::lemma_stmt_views_len(body@, body@.len() as int);
                    }
                    let function_type = if fixed {
                        *function_type
                    } else if str_equal(name.lexeme.as_str(), "__init__") {
                        FuncType::Initializer
                    } else {
                        FuncType::Method
                    };
                    self.resolve_function(body, function_type);
                },
                _ => {},
            }
            i += 1;
        }
    }

    /// Checks the body of a function of the given kind.
    pub fn resolve_function(&mut self, body: &Vec<Statement>, function_type: FuncType)
        ensures
            final(self).context() == old(self).context(),
            final(self).findings() == check_stmts(
                stmt_views(body@, body@.len() as int),
                body@.len() as int,
                old(self).context().in_function(function_type),
                old(self).findings(),
            ),
        decreases body, body@.len() + 1,
    {
        let outer = self.function_type;
        self.function_type = function_type;
        self.resolve_statements(body);
        self.function_type = outer;
    }

    pub fn resolve_statements(&mut self, statements: &Vec<Statement>)
        ensures
            final(self).context() == old(self).context(),
            final(self).findings() == check_stmts(
                stmt_views(statements@, statements@.len() as int),
                statements@.len() as int,
                old(self).context(),
                old(self).findings(),
            ),
        decreases statements, statements@.len(),
    {
        let mut i: usize = 0;
        while i < statements.len()
            invariant
                i <= statements@.len(),
                self.context() == old(self).context(),
                self.findings() == check_stmts(
                    stmt_views(statements@, statements@.len() as int),
                    i as int,
                    old(self).context(),
                    old(self).findings(),
                ),
            decreases statements@.len() - i,
        {
            proof {
                vstd::std_specs::vec::axiom_vec_index_decreases(*statements, i as int);
                crate::stmt::lemma_stmt_views_len(statements@, statements@.len() as int);
            }
            self.resolve_statement(&statements[i]);
            i += 1;
        }
    }

    /// Checks a program. Every error found is returned, and the table of
    /// variables is kept for `unused_variables`.
    pub fn resolve(&mut self, statements: &Vec<Statement>) -> (res: Result<(), Vec<LoxError>>)
        ensures
            final(self).context() == old(self).context(),
            final(self).findings().table == check_stmts(
                stmt_views(statements@, statements@.len() as int),
                statements@.len() as int,
                old(self).context(),
                old(self).findings(),
            ).table,
            final(self).findings().errors.len() == 0,
            match res {
                Ok(_) => check_stmts(
                    stmt_views(statements@, statements@.len() as int),
                    statements@.len() as int,
                    old(self).context(),
                    old(self).findings(),
                ).errors.len() == 0,
                Err(errors) => errors@.len() > 0 && error_views(errors@) == check_stmts(
                    stmt_views(statements@, statements@.len() as int),
                    statements@.len() as int,
                    old(self).context(),
                    old(self).findings(),
                ).errors,
            },
    {
        self.resolve_statements(statements);
        let mut errors: Vec<LoxError> = Vec::new();
        std::mem::swap(&mut errors, &mut self.errors);
        assert(error_views(self.errors@) =~= Seq::empty());
        if errors.len() == 0 {
            Ok(())
        } else {
            Err(errors)
        }
    }

    /// The variables that were never read since they were last declared,
    /// in the order of their first declaration.
    pub fn unused_variables(&self) -> (res: Vec<String>)
        ensures
            name_views(res@) == unused(
                self.findings().table,
                self.findings().table.len() as int,
            ),
    {
        let mut names: Vec<String> = Vec::new();
        let mut i: usize = 0;
        assert(name_views(names@) =~= Seq::empty());
        while i < self.var_use_table.len()
            invariant
                i <= self.var_use_table@.len(),
                name_views(names@) == unused(table_view(self.var_use_table@), i as int),
            decreases self.var_use_table@.len() - i,
        {
            let ghost before = name_views(names@);
            if !self.var_use_table[i].1 {
                names.push(self.var_use_table[i].0.clone());
                assert(name_views(names@) =~= before.push(self.var_use_table@[i as int].0@));
            }
            i += 1;
        }
        names
    }
}

/// What has been found stays found: checking an expression adds to the
/// errors and takes none away.
pub proof fn lemma_check_expr_keeps_errors(expr: ExprView, context: Context, found: Findings)
    ensures
        check_expr(expr, context, found).errors.len() >= found.errors.len(),
    decreases expr, 0nat,
{
    match expr {
        ExprView::Assign { name, value } => {
            lemma_check_expr_keeps_errors(*value, context, found);
        },
        ExprView::Binary { left, op, right } => {
            lemma_check_expr_keeps_errors(*left, context, found);
            lemma_check_expr_keeps_errors(*right, context, check_expr(*left, context, found));
        },
        ExprView::Call { callee, paren, arguments } => {
            lemma_check_expr_keeps_errors(*callee, context, found);
            lemma_check_exprs_keeps_errors(
                arguments,
                arguments.len() as int,
                context,
                check_expr(*callee, context, found),
            );
        },
        ExprView::GetField { object, name } => {
            lemma_check_expr_keeps_errors(*object, context, found);
        },
        ExprView::Grouping { expression } => {
            lemma_check_expr_keeps_errors(*expression, context, found);
        },
        ExprView::Logical { left, op, right } => {
            lemma_check_expr_keeps_errors(*left, context, found);
            lemma_check_expr_keeps_errors(*right, context, check_expr(*left, context, found));
        },
        ExprView::SetField { object, name, value } => {
            lemma_check_expr_keeps_errors(*object, context, found);
            lemma_check_expr_keeps_errors(*value, context, check_expr(*object, context, found));
        },
        ExprView::Ternary { condition, true_value, false_value } => {
            lemma_check_expr_keeps_errors(*condition, context, found);
            let first = check_expr(*condition, context, found);
            lemma_check_expr_keeps_errors(*true_value, context, first);
            lemma_check_expr_keeps_errors(
                *false_value,
                context,
                check_expr(*true_value, context, first),
            );
        },
        ExprView::Unary { op, right } => {
            lemma_check_expr_keeps_errors(*right, context, found);
        },
        ExprView::Lambda { keyword, params, body } => {
            lemma_check_stmts_keeps_errors(
                body,
                body.len() as int,
                context.in_function(FuncType::Lambda),
                found,
            );
        },
        ExprView::OperateAndAssign { name, op, value } => {
            lemma_check_expr_keeps_errors(*value, context, found);
        },
        _ => {},
    }
}

pub proof fn lemma_check_exprs_keeps_errors(
    exprs: Seq<ExprView>,
    n: int,
    context: Context,
    found: Findings,
)
    ensures
        check_exprs(exprs, n, context, found).errors.len() >= found.errors.len(),
    decreases exprs, n,
{
    if 0 < n <= exprs.len() {
        lemma_check_exprs_keeps_errors(exprs, n - 1, context, found);
        lemma_check_expr_keeps_errors(
            exprs[n - 1],
            context,
            check_exprs(exprs, n - 1, context, found),
        );
    }
}

pub proof fn lemma_check_methods_keeps_errors(
    methods: Seq<StmtView>,
    n: int,
    fixed: bool,
    context: Context,
    found: Findings,
)
    ensures
        check_methods(methods, n, fixed, context, found).errors.len() >= found.errors.len(),
    decreases methods, n,
{
    if 0 < n <= methods.len() {
        lemma_check_methods_keeps_errors(methods, n - 1, fixed, context, found);
        let before = check_methods(methods, n - 1, fixed, context, found);
        match methods[n - 1] {
            StmtView::Function { name, params, body, function_type } => {
                lemma_check_stmts_keeps_errors(
                    body,
                    body.len() as int,
                    context.in_function(
                        if fixed {
                            function_type
                        } else {
                            method_type(name.lexeme)
                        },
                    ),
                    before,
                );
            },
            _ => {},
        }
    }
}

/// What has been found stays found: checking a statement adds to the
/// errors and takes none away.
pub proof fn lemma_check_stmt_keeps_errors(stmt: StmtView, context: Context, found: Findings)
    ensures
        check_stmt(stmt, context, found).errors.len() >= found.errors.len(),
    decreases stmt, 0nat,
{
    match stmt {
        StmtView::Expression { expression, end } => {
            lemma_check_expr_keeps_errors(expression, context, found);
        },
        StmtView::Print { expression, keyword } => {
            lemma_check_expr_keeps_errors(expression, context, found);
        },
        StmtView::Var { name, initializer } => {
            let declared = found.with_table(declare(found.table, name.lexeme));
            match initializer {
                Some(init) => {
                    lemma_check_expr_keeps_errors(init, context, declared);
                },
                None => {},
            }
        },
        StmtView::MultiVar { vars } => {
            lemma_check_stmts_keeps_errors(vars, vars.len() as int, context, found);
        },
        StmtView::Block { statements } => {
            lemma_check_stmts_keeps_errors(statements, statements.len() as int, context, found);
        },
        StmtView::Branch { condition, then_branch, else_branch } => {
            lemma_check_expr_keeps_errors(condition, context, found);
            let first = check_expr(condition, context, found);
            lemma_check_stmt_keeps_errors(*then_branch, context, first);
            match else_branch {
                Some(else_branch) => {
                    lemma_check_stmt_keeps_errors(
                        *else_branch,
                        context,
                        check_stmt(*then_branch, context, first),
                    );
                },
                None => {},
            }
        },
        StmtView::While { condition, body, increment } => {
            lemma_check_expr_keeps_errors(condition, context, found);
            let first = check_expr(condition, context, found);
            lemma_check_stmt_keeps_errors(*body, context.in_loop(true), first);
            match increment {
                Some(increment) => {
                    lemma_check_stmt_keeps_errors(
                        *increment,
                        context,
                        check_stmt(*body, context.in_loop(true), first),
                    );
                },
                None => {},
            }
        },
        StmtView::Function { name, params, body, function_type } => {
            lemma_check_stmts_keeps_errors(
                body,
                body.len() as int,
                context.in_function(function_type),
                found,
            );
        },
        StmtView::Return { key_word, value } => {
            match value {
                Some(value) => {
                    lemma_check_expr_keeps_errors(value, context, found);
                },
                None => {},
            }
        },
        StmtView::Class { name, methods, static_methods } => {
            let inside = check_methods(
                methods,
                methods.len() as int,
                false,
                context.in_class(ClassType::Class),
                found,
            );
            lemma_check_methods_keeps_errors(
                methods,
                methods.len() as int,
                false,
                context.in_class(ClassType::Class),
                found,
            );
            lemma_check_methods_keeps_errors(
                static_methods,
                static_methods.len() as int,
                true,
                context,
                inside,
            );
        },
        _ => {},
    }
}

pub proof fn lemma_check_stmts_keeps_errors(
    stmts: Seq<StmtView>,
    n: int,
    context: Context,
    found: Findings,
)
    ensures
        check_stmts(stmts, n, context, found).errors.len() >= found.errors.len(),
    decreases stmts, n,
{
    if 0 < n <= stmts.len() {
        lemma_check_stmts_keeps_errors(stmts, n - 1, context, found);
        lemma_check_stmt_keeps_errors(
            stmts[n - 1],
            context,
            check_stmts(stmts, n - 1, context, found),
        );
    }
}

} // verus!
