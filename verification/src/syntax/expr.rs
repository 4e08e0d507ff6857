//! The expression tree, the visitor that walks it, and two printers.

pub use crate::lexer::token::{Literal, Token};

use crate::lexer::token::{LiteralView, TokenView};
use crate::text::push_char;
use vstd::prelude::*;

verus! {

/// An expression. Every node owns its operands.
pub enum Expr {
    Binary(BinaryExpr),
    Grouping(GroupingExpr),
    Literal(LiteralExpr),
    Unary(UnaryExpr),
}

/// Two operands and the operator between them.
pub struct BinaryExpr {
    pub left: Box<Expr>,
    pub operator: Token,
    pub right: Box<Expr>,
}

/// An expression in parentheses.
pub struct GroupingExpr {
    pub expression: Box<Expr>,
}

/// A literal value.
pub struct LiteralExpr {
    pub value: Literal,
}

/// An operator and the operand behind it.
pub struct UnaryExpr {
    pub operator: Token,
    pub right: Box<Expr>,
}

/// An expression as contracts see it.
pub enum ExprView {
    Binary { left: Box<ExprView>, operator: TokenView, right: Box<ExprView> },
    Grouping { expression: Box<ExprView> },
    Literal { value: LiteralView },
    Unary { operator: TokenView, right: Box<ExprView> },
}

impl Expr {
    /// The tree that this expression stands for.
    pub open spec fn tree(&self) -> ExprView
        decreases self,
    {
        match self {
            Expr::Binary(e) => ExprView::Binary {
                left: Box::new(e.left.tree()),
                operator: e.operator@,
                right: Box::new(e.right.tree()),
            },
            Expr::Grouping(e) => ExprView::Grouping { expression: Box::new(e.expression.tree()) },
            Expr::Literal(e) => ExprView::Literal { value: e.value@ },
            Expr::Unary(e) => ExprView::Unary {
                operator: e.operator@,
                right: Box::new(e.right.tree()),
            },
        }
    }
}

impl View for Expr {
    type V = ExprView;

    open spec fn view(&self) -> ExprView {
        self.tree()
    }
}

impl View for BinaryExpr {
    type V = ExprView;

    open spec fn view(&self) -> ExprView {
        ExprView::Binary {
            left: Box::new(self.left.tree()),
            operator: self.operator@,
            right: Box::new(self.right.tree()),
        }
    }
}

impl View for GroupingExpr {
    type V = ExprView;

    open spec fn view(&self) -> ExprView {
        ExprView::Grouping { expression: Box::new(self.expression.tree()) }
    }
}

impl View for LiteralExpr {
    type V = ExprView;

    open spec fn view(&self) -> ExprView {
        ExprView::Literal { value: self.value@ }
    }
}

impl View for UnaryExpr {
    type V = ExprView;

    open spec fn view(&self) -> ExprView {
        ExprView::Unary { operator: self.operator@, right: Box::new(self.right.tree()) }
    }
}

/// One handler for each kind of node. `walk_expr` hands a node to the handler
/// of its kind; what a handler yields is stated by the visitor itself.
pub trait ExprVisitor<T> {
    /// Whether `result` is what this visitor yields for the binary node `e`.
    spec fn binary_result(&self, e: &BinaryExpr, result: T) -> bool;

    /// Whether `result` is what this visitor yields for the grouping `e`.
    spec fn grouping_result(&self, e: &GroupingExpr, result: T) -> bool;

    /// Whether `result` is what this visitor yields for the literal `e`.
    spec fn literal_result(&self, e: &LiteralExpr, result: T) -> bool;

    /// Whether `result` is what this visitor yields for the unary node `e`.
    spec fn unary_result(&self, e: &UnaryExpr, result: T) -> bool;

    fn visit_binary_expr(&self, e: &BinaryExpr) -> (result: T)
        ensures
            self.binary_result(e, result),
    ;

    fn visit_grouping_expr(&self, e: &GroupingExpr) -> (result: T)
        ensures
            self.grouping_result(e, result),
    ;

    fn visit_literal_expr(&self, e: &LiteralExpr) -> (result: T)
        ensures
            self.literal_result(e, result),
    ;

    fn visit_unary_expr(&self, e: &UnaryExpr) -> (result: T)
        ensures
            self.unary_result(e, result),
    ;
}

impl Expr {
    /// Hands the expression to the handler of `v` for its kind.
    pub fn walk_expr<T>(&self, v: &dyn ExprVisitor<T>) -> (result: T)
        ensures
            match self {
                Expr::Binary(e) => v.binary_result(e, result),
                Expr::Grouping(e) => v.grouping_result(e, result),
                Expr::Literal(e) => v.literal_result(e, result),
                Expr::Unary(e) => v.unary_result(e, result),
            },
    {
        match self {
            Expr::Binary(e) => v.visit_binary_expr(e),
            Expr::Grouping(e) => v.visit_grouping_expr(e),
            Expr::Literal(e) => v.visit_literal_expr(e),
            Expr::Unary(e) => v.visit_unary_expr(e),
        }
    }
}

impl BinaryExpr {
    pub fn new(left: Box<Expr>, operator: Token, right: Box<Expr>) -> (e: BinaryExpr)
        ensures
            e.left == left,
            e.operator == operator,
            e.right == right,
    {
        BinaryExpr { left, operator, right }
    }

    pub fn walk_binary_expr<T>(&self, v: &dyn ExprVisitor<T>) -> (result: T)
        ensures
            v.binary_result(self, result),
    {
        v.visit_binary_expr(self)
    }
}

impl GroupingExpr {
    pub fn new(expression: Box<Expr>) -> (e: GroupingExpr)
        ensures
            e.expression == expression,
    {
        GroupingExpr { expression }
    }

    pub fn walk_grouping_expr<T>(&self, v: &dyn ExprVisitor<T>) -> (result: T)
        ensures
            v.grouping_result(self, result),
    {
        v.visit_grouping_expr(self)
    }
}

impl LiteralExpr {
    pub fn new(value: Literal) -> (e: LiteralExpr)
        ensures
            e.value == value,
    {
        LiteralExpr { value }
    }

    pub fn walk_literal_expr<T>(&self, v: &dyn ExprVisitor<T>) -> (result: T)
        ensures
            v.literal_result(self, result),
    {
        v.visit_literal_expr(self)
    }
}

impl UnaryExpr {
    pub fn new(operator: Token, right: Box<Expr>) -> (e: UnaryExpr)
        ensures
            e.operator == operator,
            e.right == right,
    {
        UnaryExpr { operator, right }
    }

    pub fn walk_unary_expr<T>(&self, v: &dyn ExprVisitor<T>) -> (result: T)
        ensures
            v.unary_result(self, result),
    {
        v.visit_unary_expr(self)
    }
}

/// The tree of an expression is the tree of the node that it holds.
pub proof fn lemma_tree_of_node(e: &Expr)
    ensures
        match e {
            Expr::Binary(b) => e@ == b@,
            Expr::Grouping(g) => e@ == g@,
            Expr::Literal(l) => e@ == l@,
            Expr::Unary(u) => e@ == u@,
        },
{
}

/// The text of a literal's value: a number as it is written in its shortest
/// form, a string without its quotes.
pub open spec fn literal_value_text(value: LiteralView) -> Seq<char> {
    match value {
        LiteralView::Num { val } => val,
        LiteralView::Str { val, .. } => val,
    }
}

/// The parts, each with a blank before it.
pub open spec fn joined(parts: Seq<Seq<char>>) -> Seq<char>
    decreases parts.len(),
{
    if parts.len() == 0 {
        Seq::empty()
    } else {
        joined(parts.drop_last()) + seq![' '] + parts.last()
    }
}

/// `(name part part ...)`.
pub open spec fn parenthesized(name: Seq<char>, parts: Seq<Seq<char>>) -> Seq<char> {
    seq!['('] + name + joined(parts) + seq![')']
}

/// The prefix form of a tree, with a pair of parentheses around every
/// operator and its operands: `(* (- 123) (group 45.67))`.
pub open spec fn ast_text(e: ExprView) -> Seq<char>
    decreases e,
{
    match e {
        ExprView::Binary { left, operator, right } => parenthesized(
            operator.lexeme,
            seq![ast_text(*left), ast_text(*right)],
        ),
        ExprView::Grouping { expression } => parenthesized("group"@, seq![ast_text(*expression)]),
        ExprView::Literal { value } => literal_value_text(value),
        ExprView::Unary { operator, right } => parenthesized(
            operator.lexeme,
            seq![ast_text(*right)],
        ),
    }
}

/// The prefix forms of `exprs`.
pub open spec fn ast_texts(exprs: Seq<&Box<Expr>>) -> Seq<Seq<char>> {
    Seq::new(exprs.len(), |i: int| ast_text(exprs[i].tree()))
}

/// The postfix form of a tree: the operands, then the operator, separated by
/// blanks. Groupings leave no trace: `1 2 + 4 3 - *`.
pub open spec fn rpn_text(e: ExprView) -> Seq<char>
    decreases e,
{
    match e {
        ExprView::Binary { left, operator, right } => rpn_text(*left) + seq![' '] + rpn_text(
            *right,
        ) + seq![' '] + operator.lexeme,
        ExprView::Grouping { expression } => rpn_text(*expression),
        ExprView::Literal { value } => literal_value_text(value),
        ExprView::Unary { operator, right } => rpn_text(*right) + seq![' '] + operator.lexeme,
    }
}

/// The text of a literal's value.
fn literal_to_string(value: &Literal) -> (text: String)
    ensures
        text@ == literal_value_text(value@),
{
    match value {
        Literal::Num { val } => val.to_string(),
        Literal::Str { val, .. } => val.clone(),
    }
}

/// Prints a tree in prefix form, fully parenthesized.
pub struct AstPrinter;

impl AstPrinter {
    /// The prefix form of `e`.
    pub fn print(&self, e: &Expr) -> (text: String)
        ensures
            text@ == ast_text(e@),
    {
        proof {
            lemma_tree_of_node(e);
        }
        e.walk_expr(self)
    }

    /// `(name e1 e2 ...)`, each expression in its prefix form.
    pub fn parenthesize(&self, name: &String, exprs: &[&Box<Expr>]) -> (text: String)
        ensures
            text@ == parenthesized(name@, ast_texts(exprs@)),
    {
        let mut ret = String::new();
        push_char(&mut ret, '(');
        ret.append(name.as_str());
        let mut i: usize = 0;
        assert(ast_texts(exprs@).take(0) =~= Seq::<Seq<char>>::empty());
        while i < exprs.len()
            invariant
                i <= exprs.len(),
                ret@ == seq!['('] + name@ + joined(ast_texts(exprs@).take(i as int)),
            decreases exprs.len() - i,
        {
            let x: &Box<Expr> = exprs[i];
            proof {
                lemma_tree_of_node(x);
            }
            let some = x.walk_expr(self);
            push_char(&mut ret, ' ');
            ret.append(some.as_str());
            proof {
                let parts = ast_texts(exprs@);
                assert(parts.take(i + 1).drop_last() =~= parts.take(i as int));
                assert(parts.take(i + 1).last() == some@);
                assert(ret@ =~= seq!['('] + name@ + joined(parts.take(i + 1)));
            }
            i += 1;
        }
        assert(ast_texts(exprs@).take(i as int) =~= ast_texts(exprs@));
        push_char(&mut ret, ')');
        ret
    }
}

impl ExprVisitor<String> for AstPrinter {
    open spec fn binary_result(&self, e: &BinaryExpr, result: String) -> bool {
        result@ == ast_text(e@)
    }

    open spec fn grouping_result(&self, e: &GroupingExpr, result: String) -> bool {
        result@ == ast_text(e@)
    }

    open spec fn literal_result(&self, e: &LiteralExpr, result: String) -> bool {
        result@ == ast_text(e@)
    }

    open spec fn unary_result(&self, e: &UnaryExpr, result: String) -> bool {
        result@ == ast_text(e@)
    }

    fn visit_binary_expr(&self, b: &BinaryExpr) -> (result: String) {
        let exprs: [&Box<Expr>; 2] = [&b.left, &b.right];
        let result = self.parenthesize(&b.operator.lexeme, &exprs);
        assert(ast_texts(exprs@) =~= seq![ast_text(b.left.tree()), ast_text(b.right.tree())]);
        result
    }

    fn visit_grouping_expr(&self, g: &GroupingExpr) -> (result: String) {
        let exprs: [&Box<Expr>; 1] = [&g.expression];
        let name = String::from_str("group");
        let result = self.parenthesize(&name, &exprs);
        assert(ast_texts(exprs@) =~= seq![ast_text(g.expression.tree())]);
        result
    }

    fn visit_literal_expr(&self, l: &LiteralExpr) -> (result: String) {
        literal_to_string(&l.value)
    }

    fn visit_unary_expr(&self, u: &UnaryExpr) -> (result: String) {
        let exprs: [&Box<Expr>; 1] = [&u.right];
        let result = self.parenthesize(&u.operator.lexeme, &exprs);
        assert(ast_texts(exprs@) =~= seq![ast_text(u.right.tree())]);
        result
    }
}

/// Prints a tree in postfix form. A unary operator is written behind its
/// operand like a binary one, so the output cannot always be read back.
pub struct ReversePolishPrinter {}

impl ReversePolishPrinter {
    /// The postfix form of `e`.
    pub fn print(&self, e: &Expr) -> (text: String)
        ensures
            text@ == rpn_text(e@),
    {
        proof {
            lemma_tree_of_node(e);
        }
        e.walk_expr(self)
    }

    /// The postfix form of a binary node: left operand, right operand,
    /// operator.
    pub fn infix_to_polish(&self, binary_expr: &BinaryExpr) -> (text: String)
        ensures
            text@ == rpn_text(binary_expr@),
    {
        proof {
            lemma_tree_of_node(&binary_expr.left);
            lemma_tree_of_node(&binary_expr.right);
        }
        let mut text = binary_expr.left.walk_expr(self);
        push_char(&mut text, ' ');
        let right = binary_expr.right.walk_expr(self);
        text.append(right.as_str());
        push_char(&mut text, ' ');
        text.append(binary_expr.operator.lexeme.as_str());
        assert(text@ =~= rpn_text(binary_expr@));
        text
    }
}

impl ExprVisitor<String> for ReversePolishPrinter {
    open spec fn binary_result(&self, e: &BinaryExpr, result: String) -> bool {
        result@ == rpn_text(e@)
    }

    open spec fn grouping_result(&self, e: &GroupingExpr, result: String) -> bool {
        result@ == rpn_text(e@)
    }

    open spec fn literal_result(&self, e: &LiteralExpr, result: String) -> bool {
        result@ == rpn_text(e@)
    }

    open spec fn unary_result(&self, e: &UnaryExpr, result: String) -> bool {
        result@ == rpn_text(e@)
    }

    fn visit_binary_expr(&self, b: &BinaryExpr) -> (result: String) {
        self.infix_to_polish(b)
    }

    fn visit_grouping_expr(&self, g: &GroupingExpr) -> (result: String) {
        proof {
            lemma_tree_of_node(&g.expression);
        }
        g.expression.walk_expr(self)
    }

    fn visit_literal_expr(&self, l: &LiteralExpr) -> (result: String) {
        literal_to_string(&l.value)
    }

    fn visit_unary_expr(&self, u: &UnaryExpr) -> (result: String) {
        proof {
            lemma_tree_of_node(&u.right);
        }
        let mut text = u.right.walk_expr(self);
        push_char(&mut text, ' ');
        text.append(u.operator.lexeme.as_str());
        assert(text@ =~= rpn_text(u@));
        text
    }
}


} // verus!
