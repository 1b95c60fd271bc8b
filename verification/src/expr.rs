//! Expressions of the syntax tree.

use vstd::prelude::*;
use vstd::string::*;
use crate::stmt::{stmt_views, Statement, StmtView};
use crate::token::{token_views, Token, TokenView};
use crate::types::{Literal, LiteralView};

verus! {

#[derive(Debug)]
#[allow(inconsistent_fields)]
pub enum Expression {
    /// `name = value`
    AssignExpression { name: Token, value: Box<Expression> },
    /// `left op right`
    BinaryExpression { left: Box<Expression>, op: Token, right: Box<Expression> },
    /// `callee(arguments)`; `paren` is the closing parenthesis.
    CallExpression { callee: Box<Expression>, paren: Token, arguments: Vec<Expression> },
    /// `object.name`
    GetExpression { object: Box<Expression>, name: Token },
    /// `(expression)`
    GroupingExpression { expression: Box<Expression> },
    /// A constant; `token` is the token it was read from.
    LiteralExpression { value: Literal, token: Token },
    /// `left and right`, `left or right`
    LogicalExpression { left: Box<Expression>, op: Token, right: Box<Expression> },
    /// `object.name = value`
    SetExpression { object: Box<Expression>, name: Token, value: Box<Expression> },
    /// `super.method`
    SuperExpression { keyword: Token, method: Token },
    /// `self`
    SelfExpression { keyword: Token },
    /// `condition ? true_value : false_value`
    TernaryExpression {
        condition: Box<Expression>,
        true_value: Box<Expression>,
        false_value: Box<Expression>,
    },
    /// `op right`
    UnaryExpression { op: Token, right: Box<Expression> },
    /// A variable read by name.
    VariableExpression { name: Token },
    /// `func (params) { body }`; `keyword` is the `func`.
    LambdaExpression { keyword: Token, params: Vec<Token>, body: Vec<Statement> },
    /// `name op value` with `op` one of `+=`, `-=`, `*=`, `/=`, `%=`.
    OperateAndAssignExpression { name: Token, op: Token, value: Box<Expression> },
}

impl Expression {
    pub fn assign(name: Token, value: Box<Expression>) -> (res: Expression)
        ensures
            res == (Expression::AssignExpression { name, value }),
    {
        Expression::AssignExpression { name, value }
    }

    pub fn binary(left: Box<Expression>, op: Token, right: Box<Expression>) -> (res: Expression)
        ensures
            res == (Expression::BinaryExpression { left, op, right }),
    {
        Expression::BinaryExpression { left, op, right }
    }

    pub fn call(callee: Box<Expression>, paren: Token, arguments: Vec<Expression>) -> (res:
        Expression)
        ensures
            res == (Expression::CallExpression { callee, paren, arguments }),
    {
        Expression::CallExpression { callee, paren, arguments }
    }

    pub fn get(object: Box<Expression>, name: Token) -> (res: Expression)
        ensures
            res == (Expression::GetExpression { object, name }),
    {
        Expression::GetExpression { object, name }
    }

    pub fn grouping(expression: Box<Expression>) -> (res: Expression)
        ensures
            res == (Expression::GroupingExpression { expression }),
    {
        Expression::GroupingExpression { expression }
    }

    /// The constant `value`, read from `token`.
    pub fn literal(value: Literal, token: Token) -> (res: Expression)
        ensures
            res == (Expression::LiteralExpression { value, token }),
    {
        Expression::LiteralExpression { value, token }
    }

    pub fn logical(left: Box<Expression>, op: Token, right: Box<Expression>) -> (res: Expression)
        ensures
            res == (Expression::LogicalExpression { left, op, right }),
    {
        Expression::LogicalExpression { left, op, right }
    }

    pub fn set(object: Box<Expression>, name: Token, value: Box<Expression>) -> (res: Expression)
        ensures
            res == (Expression::SetExpression { object, name, value }),
    {
        Expression::SetExpression { object, name, value }
    }

    pub fn create_super(keyword: Token, method: Token) -> (res: Expression)
        ensures
            res == (Expression::SuperExpression { keyword, method }),
    {
        Expression::SuperExpression { keyword, method }
    }

    pub fn ternary(
        condition: Box<Expression>,
        true_value: Box<Expression>,
        false_value: Box<Expression>,
    ) -> (res: Expression)
        ensures
            res == (Expression::TernaryExpression { condition, true_value, false_value }),
    {
        Expression::TernaryExpression { condition, true_value, false_value }
    }

    /// The object that the running method belongs to: `self`.
    pub fn this(keyword: Token) -> (res: Expression)
        ensures
            res == (Expression::SelfExpression { keyword }),
    {
        Expression::SelfExpression { keyword }
    }

    pub fn unary(op: Token, right: Box<Expression>) -> (res: Expression)
        ensures
            res == (Expression::UnaryExpression { op, right }),
    {
        Expression::UnaryExpression { op, right }
    }

    pub fn variable(name: Token) -> (res: Expression)
        ensures
            res == (Expression::VariableExpression { name }),
    {
        Expression::VariableExpression { name }
    }
}

/// An `Expression` with its texts as sequences of characters and its lists
/// as sequences.
#[allow(inconsistent_fields)]
pub enum ExprView {
    Assign { name: TokenView, value: Box<ExprView> },
    Binary { left: Box<ExprView>, op: TokenView, right: Box<ExprView> },
    Call { callee: Box<ExprView>, paren: TokenView, arguments: Seq<ExprView> },
    GetField { object: Box<ExprView>, name: TokenView },
    Grouping { expression: Box<ExprView> },
    Literal { value: LiteralView, token: TokenView },
    Logical { left: Box<ExprView>, op: TokenView, right: Box<ExprView> },
    SetField { object: Box<ExprView>, name: TokenView, value: Box<ExprView> },
    Super { keyword: TokenView, method: TokenView },
    SelfReference { keyword: TokenView },
    Ternary { condition: Box<ExprView>, true_value: Box<ExprView>, false_value: Box<ExprView> },
    Unary { op: TokenView, right: Box<ExprView> },
    Variable { name: TokenView },
    Lambda { keyword: TokenView, params: Seq<TokenView>, body: Seq<StmtView> },
    OperateAndAssign { name: TokenView, op: TokenView, value: Box<ExprView> },
}

pub open spec fn expr_view(expr: Expression) -> ExprView
    decreases expr, 0nat,
{
    match expr {
        Expression::AssignExpression { name, value } => ExprView::Assign {
            name: name@,
            value: Box::new(expr_view(*value)),
        },
        Expression::BinaryExpression { left, op, right } => ExprView::Binary {
            left: Box::new(expr_view(*left)),
            op: op@,
            right: Box::new(expr_view(*right)),
        },
        Expression::CallExpression { callee, paren, arguments } => ExprView::Call {
            callee: Box::new(expr_view(*callee)),
            paren: paren@,
            arguments: expr_views(arguments@, arguments@.len() as int),
        },
        Expression::GetExpression { object, name } => ExprView::GetField {
            object: Box::new(expr_view(*object)),
            name: name@,
        },
        Expression::GroupingExpression { expression } => ExprView::Grouping {
            expression: Box::new(expr_view(*expression)),
        },
        Expression::LiteralExpression { value, token } => ExprView::Literal {
            value: value@,
            token: token@,
        },
        Expression::LogicalExpression { left, op, right } => ExprView::Logical {
            left: Box::new(expr_view(*left)),
            op: op@,
            right: Box::new(expr_view(*right)),
        },
        Expression::SetExpression { object, name, value } => ExprView::SetField {
            object: Box::new(expr_view(*object)),
            name: name@,
            value: Box::new(expr_view(*value)),
        },
        Expression::SuperExpression { keyword, method } => ExprView::Super {
            keyword: keyword@,
            method: method@,
        },
        Expression::SelfExpression { keyword } => ExprView::SelfReference { keyword: keyword@ },
        Expression::TernaryExpression { condition, true_value, false_value } => ExprView::Ternary {
            condition: Box::new(expr_view(*condition)),
            true_value: Box::new(expr_view(*true_value)),
            false_value: Box::new(expr_view(*false_value)),
        },
        Expression::UnaryExpression { op, right } => ExprView::Unary {
            op: op@,
            right: Box::new(expr_view(*right)),
        },
        Expression::VariableExpression { name } => ExprView::Variable { name: name@ },
        Expression::LambdaExpression { keyword, params, body } => ExprView::Lambda {
            keyword: keyword@,
            params: token_views(params@),
            body: stmt_views(body@, body@.len() as int),
        },
        Expression::OperateAndAssignExpression { name, op, value } => ExprView::OperateAndAssign {
            name: name@,
            op: op@,
            value: Box::new(expr_view(*value)),
        },
    }
}

/// The views of the first `n` of the expressions.
pub open spec fn expr_views(exprs: Seq<Expression>, n: int) -> Seq<ExprView>
    decreases exprs, n,
{
    if n <= 0 || n > exprs.len() {
        Seq::empty()
    } else {
        expr_views(exprs, n - 1).push(expr_view(exprs[n - 1]))
    }
}

impl View for Expression {
    type V = ExprView;

    open spec fn view(&self) -> ExprView {
        expr_view(*self)
    }
}

/// The views of the first expressions of a list do not depend on the rest
/// of the list.
pub proof fn lemma_expr_views_prefix(a: Seq<Expression>, b: Seq<Expression>, n: int)
    requires
        0 <= n <= a.len(),
        n <= b.len(),
        forall|i: int| 0 <= i < n ==> a[i] == b[i],
    ensures
        expr_views(a, n) == expr_views(b, n),
    decreases n,
{
    if n > 0 {
        lemma_expr_views_prefix(a, b, n - 1);
    }
}

/// The views of a list with one expression more.
pub proof fn lemma_expr_views_push(list: Seq<Expression>, last: Expression)
    ensures
        expr_views(list.push(last), list.len() as int + 1) == expr_views(list, list.len() as int).push(
            expr_view(last),
        ),
{
    lemma_expr_views_prefix(list.push(last), list, list.len() as int);
}

/// The list of views is as long as the list.
pub proof fn lemma_expr_views_len(list: Seq<Expression>, n: int)
    requires
        0 <= n <= list.len(),
    ensures
        expr_views(list, n).len() == n,
        forall|i: int| 0 <= i < n ==> expr_views(list, n)[i] == expr_view(list[i]),
    decreases n,
{
    if n > 0 {
        lemma_expr_views_len(list, n - 1);
    }
}

/// The text of a constant: a number as it was written in the source, any
/// other value as `print` writes it.
pub open spec fn shown_constant(value: LiteralView, token: TokenView) -> Seq<char> {
    if value is Number {
        token.lexeme
    } else {
        value.text()
    }
}

/// The expression as it is written in the language, with one space on
/// either side of an operator between two operands.
pub open spec fn shown(expr: ExprView) -> Seq<char>
    decreases expr, 0nat,
{
    match expr {
        ExprView::Assign { name, value } => name.lexeme + " = "@ + shown(*value),
        ExprView::Binary { left, op, right } => shown(*left) + " "@ + op.lexeme + " "@ + shown(
            *right,
        ),
        ExprView::Call { callee, paren, arguments } => shown(*callee) + "("@ + shown_list(
            arguments,
            arguments.len() as int,
        ) + ")"@,
        ExprView::GetField { object, name } => shown(*object) + "."@ + name.lexeme,
        ExprView::Grouping { expression } => "("@ + shown(*expression) + ")"@,
        ExprView::Literal { value, token } => shown_constant(value, token),
        ExprView::Logical { left, op, right } => shown(*left) + " "@ + op.lexeme + " "@ + shown(
            *right,
        ),
        ExprView::SetField { object, name, value } => shown(*object) + "."@ + name.lexeme
            + " = "@ + shown(*value),
        ExprView::Super { keyword, method } => keyword.lexeme + "."@ + method.lexeme,
        ExprView::SelfReference { keyword } => keyword.lexeme,
        ExprView::Ternary { condition, true_value, false_value } => shown(*condition) + " ? "@
            + shown(*true_value) + " : "@ + shown(*false_value),
        ExprView::Unary { op, right } => op.lexeme + shown(*right),
        ExprView::Variable { name } => name.lexeme,
        ExprView::Lambda { keyword, params, body } => "func("@ + shown_names(
            params,
            params.len() as int,
        ) + ") { ... }"@,
        ExprView::OperateAndAssign { name, op, value } => name.lexeme + " "@ + op.lexeme + " "@
            + shown(*value),
    }
}

/// The first `n` of the expressions, with a comma and a space between one
/// and the next.
pub open spec fn shown_list(exprs: Seq<ExprView>, n: int) -> Seq<char>
    decreases exprs, n,
{
    if n <= 0 || n > exprs.len() {
        Seq::empty()
    } else if n == 1 {
        shown(exprs[0])
    } else {
        shown_list(exprs, n - 1) + ", "@ + shown(exprs[n - 1])
    }
}

/// The first `n` of the names, with a comma and a space between one and
/// the next.
pub open spec fn shown_names(names: Seq<TokenView>, n: int) -> Seq<char>
    decreases n,
{
    if n <= 0 || n > names.len() {
        Seq::empty()
    } else if n == 1 {
        names[0].lexeme
    } else {
        shown_names(names, n - 1) + ", "@ + names[n - 1].lexeme
    }
}

/// The names with a comma and a space between one and the next.
fn names_text(names: &Vec<Token>) -> (res: String)
    ensures
        res@ == shown_names(token_views(names@), names@.len() as int),
{
    let mut text = String::new();
    let mut i: usize = 0;
    assert(text@ =~= shown_names(token_views(names@), 0));
    while i < names.len()
        invariant
            i <= names@.len(),
            text@ == shown_names(token_views(names@), i as int),
        decreases names@.len() - i,
    {
        if i > 0 {
            text.append(", ");
        }
        text.append(names[i].lexeme.as_str());
        i += 1;
        proof {
            if i == 1 {
                assert(text@ =~= names@[0].lexeme@);
            }
        }
    }
    text
}

impl Expression {
    /// The expression as it is written in the language.
    pub fn to_text(&self) -> (res: String)
        ensures
            res@ == shown(self@),
        decreases self, 0nat,
    {
        match self {
            Expression::AssignExpression { name, value } => {
                let mut text = name.lexeme.clone();
                text.append(" = ");
                text.append(value.to_text().as_str());
                text
            },
            Expression::BinaryExpression { left, op, right } => {
                let mut text = left.to_text();
                text.append(" ");
                text.append(op.lexeme.as_str());
                text.append(" ");
                text.append(right.to_text().as_str());
                text
            },
            Expression::CallExpression { callee, paren: _, arguments } => {
                let mut text = callee.to_text();
                text.append("(");
                let ghost head = text@;
                let ghost views = expr_views(arguments@, arguments@.len() as int);
                let mut i: usize = 0;
                proof {
                    lemma_expr_views_len(arguments@, arguments@.len() as int);
                    assert(head + shown_list(views, 0) =~= head);
                }
                while i < arguments.len()
                    invariant
                        i <= arguments@.len(),
                        decreases_to!(self => arguments),
                        views == expr_views(arguments@, arguments@.len() as int),
                        views.len() == arguments@.len(),
                        forall|k: int|
                            0 <= k < views.len() ==> views[k] == expr_view(arguments@[k]),
                        text@ == head + shown_list(views, i as int),
                    decreases arguments@.len() - i,
                {
                    proof {
                        vstd::std_specs::vec::axiom_vec_index_decreases(*arguments, i as int);
                    }
                    let ghost before = text@;
                    if i > 0 {
                        text.append(", ");
                    }
                    let argument = (&arguments[i]).to_text();
                    text.append(argument.as_str());
                    i += 1;
                    assert(text@ =~= head + shown_list(views, i as int));
                }
                text.append(")");
                text
            },
            Expression::GetExpression { object, name } => {
                let mut text = object.to_text();
                text.append(".");
                text.append(name.lexeme.as_str());
                text
            },
            Expression::GroupingExpression { expression } => {
                let mut text = String::from_str("(");
                text.append(expression.to_text().as_str());
                text.append(")");
                text
            },
            Expression::LiteralExpression { value, token } => {
                match value.to_text() {
                    Some(text) => text,
                    None => token.lexeme.clone(),
                }
            },
            Expression::LogicalExpression { left, op, right } => {
                let mut text = left.to_text();
                text.append(" ");
                text.append(op.lexeme.as_str());
                text.append(" ");
                text.append(right.to_text().as_str());
                text
            },
            Expression::SetExpression { object, name, value } => {
                let mut text = object.to_text();
                text.append(".");
                text.append(name.lexeme.as_str());
                text.append(" = ");
                text.append(value.to_text().as_str());
                text
            },
            Expression::SuperExpression { keyword, method } => {
                let mut text = keyword.lexeme.clone();
                text.append(".");
                text.append(method.lexeme.as_str());
                text
            },
            Expression::SelfExpression { keyword } => keyword.lexeme.clone(),
            Expression::TernaryExpression { condition, true_value, false_value } => {
                let mut text = condition.to_text();
                text.append(" ? ");
                text.append(true_value.to_text().as_str());
                text.append(" : ");
                text.append(false_value.to_text().as_str());
                text
            },
            Expression::UnaryExpression { op, right } => {
                let mut text = op.lexeme.clone();
                text.append(right.to_text().as_str());
                text
            },
            Expression::VariableExpression { name } => name.lexeme.clone(),
            Expression::LambdaExpression { keyword: _, params, body: _ } => {
                let mut text = String::from_str("func(");
                text.append(names_text(params).as_str());
                text.append(") { ... }");
                text
            },
            Expression::OperateAndAssignExpression { name, op, value } => {
                let mut text = name.lexeme.clone();
                text.append(" ");
                text.append(op.lexeme.as_str());
                text.append(" ");
                text.append(value.to_text().as_str());
                text
            },
        }
    }
}

} // verus!
