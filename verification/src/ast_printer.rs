//! A printer that writes an expression in prefix form, fully parenthesized.

use vstd::prelude::*;
use vstd::string::*;
use crate::expr::{expr_view, expr_views, lemma_expr_views_len, Expression, ExprView};
use crate::types::LiteralView;

verus! {

pub struct AstPrinter;

/// The text of a constant: a number as it was written in the source, any
/// other value as `print` writes it.
pub open spec fn constant_text(value: LiteralView, lexeme: Seq<char>) -> Seq<char> {
    if value is Number {
        lexeme
    } else {
        value.text()
    }
}

/// The expression in prefix form: an operator and its operands in
/// parentheses, a name or a constant as it is.
pub open spec fn rendered(expr: ExprView) -> Seq<char>
    decreases expr, 0nat,
{
    match expr {
        ExprView::Assign { name, value } => "("@ + "="@ + " "@ + name.lexeme + " "@
            + rendered(*value) + ")"@,
        ExprView::Binary { left, op, right } => "("@ + op.lexeme + " "@ + rendered(
            *left,
        ) + " "@ + rendered(*right) + ")"@,
        ExprView::Call { callee, paren, arguments } => "(call "@ + rendered(*callee)
            + rendered_all(arguments, arguments.len() as int) + ")"@,
        ExprView::GetField { object, name } => "("@ + "get"@ + " "@ + rendered(*object)
            + " "@ + name.lexeme + ")"@,
        ExprView::Grouping { expression } => "(group "@ + rendered(*expression)
            + ")"@,
        ExprView::Literal { value, token } => constant_text(value, token.lexeme),
        ExprView::Logical { left, op, right } => "("@ + op.lexeme + " "@ + rendered(
            *left,
        ) + " "@ + rendered(*right) + ")"@,
        ExprView::SetField { object, name, value } => "(set "@ + rendered(*object) + " "@
            + name.lexeme + " "@ + rendered(*value) + ")"@,
        ExprView::Super { keyword, method } => "(super "@ + method.lexeme + ")"@,
        ExprView::SelfReference { keyword } => keyword.lexeme,
        ExprView::Ternary { condition, true_value, false_value } => "(ternary "@
            + rendered(*condition) + " "@ + rendered(*true_value) + " "@ + rendered(*false_value)
            + ")"@,
        ExprView::Unary { op, right } => "("@ + op.lexeme + " "@ + rendered(*right)
            + ")"@,
        ExprView::Variable { name } => name.lexeme,
        ExprView::Lambda { keyword, params, body } => "(func)"@,
        ExprView::OperateAndAssign { name, op, value } => "("@ + op.lexeme + " "@
            + name.lexeme + " "@ + rendered(*value) + ")"@,
    }
}

/// The first `n` of the expressions, each with a space in front of it.
pub open spec fn rendered_all(exprs: Seq<ExprView>, n: int) -> Seq<char>
    decreases exprs, n,
{
    if n <= 0 || n > exprs.len() {
        Seq::empty()
    } else {
        rendered_all(exprs, n - 1) + " "@ + rendered(exprs[n - 1])
    }
}

impl AstPrinter {
    pub fn new() -> (res: Self) {
        AstPrinter
    }

    /// Writes `name` and the operands in parentheses, with spaces between
    /// them.
    fn parenthesize(name: &str, left: &str, right: Option<&str>) -> (res: String)
        ensures
            res@ == (match right {
                Some(right) => "("@ + name@ + " "@ + left@ + " "@ + right@ + ")"@,
                None => "("@ + name@ + " "@ + left@ + ")"@,
            }),
    {
        let mut text = String::from_str("(");
        text.append(name);
        text.append(" ");
        text.append(left);
        if let Some(right) = right {
            text.append(" ");
            text.append(right);
        }
        text.append(")");
        text
    }

    /// The expression in prefix form.
    pub fn print(&self, expr: &Expression) -> (res: String)
        ensures
            res@ == rendered(expr@),
        decreases expr, 0nat,
    {
        match expr {
            Expression::AssignExpression { name, value } => {
                let value = self.print(value);
                Self::parenthesize("=", name.lexeme.as_str(), Some(value.as_str()))
            },
            Expression::BinaryExpression { left, op, right } => {
                let left = self.print(left);
                let right = self.print(right);
                Self::parenthesize(op.lexeme.as_str(), left.as_str(), Some(right.as_str()))
            },
            Expression::CallExpression { callee, paren: _, arguments } => {
                let mut text = String::from_str("(call ");
                text.append(self.print(callee).as_str());
                let ghost head = text@;
                let ghost views = expr_views(arguments@, arguments@.len() as int);
                let mut i: usize = 0;
                proof {
                    lemma_expr_views_len(arguments@, arguments@.len() as int);
                    assert(head + rendered_all(views, 0) =~= head);
                }
                while i < arguments.len()
                    invariant
                        i <= arguments@.len(),
                        decreases_to!(expr => arguments),
                        views == expr_views(arguments@, arguments@.len() as int),
                        views.len() == arguments@.len(),
                        forall|k: int|
                            0 <= k < views.len() ==> views[k] == expr_view(arguments@[k]),
                        text@ == head + rendered_all(views, i as int),
                    decreases arguments@.len() - i,
                {
                    proof {
                        vstd::std_specs::vec::axiom_vec_index_decreases(*arguments, i as int);
                    }
                    let argument = self.print(&arguments[i]);
                    text.append(" ");
                    text.append(argument.as_str());
                    i += 1;
                    assert(text@ =~= head + rendered_all(views, i as int));
                }
                text.append(")");
                text
            },
            Expression::GetExpression { object, name } => {
                let object = self.print(object);
                Self::parenthesize("get", object.as_str(), Some(name.lexeme.as_str()))
            },
            Expression::GroupingExpression { expression } => {
                let inner = self.print(expression);
                let mut text = String::from_str("(group ");
                text.append(inner.as_str());
                text.append(")");
                text
            },
            Expression::LiteralExpression { value, token } => {
                match value.to_text() {
                    Some(text) => text,
                    None => token.lexeme.clone(),
                }
            },
            Expression::LogicalExpression { left, op, right } => {
                let left = self.print(left);
                let right = self.print(right);
                Self::parenthesize(op.lexeme.as_str(), left.as_str(), Some(right.as_str()))
            },
            Expression::SetExpression { object, name, value } => {
                let mut text = String::from_str("(set ");
                text.append(self.print(object).as_str());
                text.append(" ");
                text.append(name.lexeme.as_str());
                text.append(" ");
                text.append(self.print(value).as_str());
                text.append(")");
                text
            },
            Expression::SuperExpression { keyword: _, method } => {
                let mut text = String::from_str("(super ");
                text.append(method.lexeme.as_str());
                text.append(")");
                text
            },
            Expression::SelfExpression { keyword } => keyword.lexeme.clone(),
            Expression::TernaryExpression { condition, true_value, false_value } => {
                let mut text = String::from_str("(ternary ");
                text.append(self.print(condition).as_str());
                text.append(" ");
                text.append(self.print(true_value).as_str());
                text.append(" ");
                text.append(self.print(false_value).as_str());
                text.append(")");
                text
            },
            Expression::UnaryExpression { op, right } => {
                let right = self.print(right);
                Self::parenthesize(op.lexeme.as_str(), right.as_str(), None)
            },
            Expression::VariableExpression { name } => name.lexeme.clone(),
            Expression::LambdaExpression { keyword: _, params: _, body: _ } => String::from_str(
                "(func)",
            ),
            Expression::OperateAndAssignExpression { name, op, value } => {
                let value = self.print(value);
                Self::parenthesize(op.lexeme.as_str(), name.lexeme.as_str(), Some(value.as_str()))
            },
        }
    }
}

} // verus!
