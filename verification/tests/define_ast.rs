use lox_interpreter::define_ast::{
    ast_source, define_ast, define_visitor, describe_type, snake_case, visitor_source, TreeType,
    TypeNames,
};

fn binary() -> TreeType {
    TreeType {
        base_name: "Expr".to_string(),
        class_name: "Binary".to_string(),
        fields: vec![
            "Box<Expr> left".to_string(),
            "Token operator".to_string(),
            "Box<Expr> right".to_string(),
        ],
    }
}

fn literal() -> TreeType {
    TreeType {
        base_name: "Expr".to_string(),
        class_name: "Literal".to_string(),
        fields: vec!["Literal value".to_string()],
    }
}

const LITERAL_VISITOR: &str = "pub trait ExprVisitor<T> {\n\
\tfn visit_literal_expr(&self, e: &LiteralExpr) -> T;\n\
}\n\n\
impl Expr {\n\
\tpub fn walk_expr<T>(&self, v: &dyn ExprVisitor<T>) -> T {\n\
\t\tmatch self {\n\
\t\t\tExpr::Literal(e) => e.walk_literal_expr(v),\n\
\t\t}\n\
\t}\n\
}\n\n\
impl LiteralExpr {\n\
\tpub fn walk_literal_expr<T>(&self, v: &dyn ExprVisitor<T>) -> T {\n\
\t\tv.visit_literal_expr(self)\n\
\t}\n\
}\n\n";

#[test]
fn full_name_joins_class_and_base() {
    assert_eq!(binary().full_name(), "BinaryExpr");
    assert_eq!(literal().full_name(), "LiteralExpr");
}

#[test]
fn snake_case_full_name_is_lower_case() {
    assert_eq!(binary().snake_case_full_name(), "binary_expr");
    let shouting = TreeType {
        base_name: "STMT".to_string(),
        class_name: "\u{c9}COLE".to_string(),
        fields: vec![],
    };
    assert_eq!(shouting.snake_case_full_name(), "\u{e9}cole_stmt");
    assert_eq!(snake_case("a", "b"), "a_b");
    assert_eq!(snake_case("", ""), "_");
}

#[test]
fn to_struct_puts_the_name_before_the_type() {
    assert_eq!(
        binary().to_struct(),
        "pub struct BinaryExpr {\n\tpub left: Box<Expr>,\n\tpub operator: Token,\n\tpub right: Box<Expr>,\n}\n\n"
    );
    let odd = TreeType {
        base_name: "Expr".to_string(),
        class_name: "Odd".to_string(),
        fields: vec!["Vec<u8> two words".to_string(), " x".to_string(), "T ".to_string()],
    };
    assert!(odd.has_named_fields());
    assert_eq!(
        odd.to_struct(),
        "pub struct OddExpr {\n\tpub two words: Vec<u8>,\n\tpub x: ,\n\tpub : T,\n}\n\n"
    );
    let empty = TreeType {
        base_name: "Expr".to_string(),
        class_name: "Unit".to_string(),
        fields: vec![],
    };
    assert_eq!(empty.to_struct(), "pub struct UnitExpr {\n}\n\n");
}

#[test]
fn fields_without_names_are_found() {
    let nameless = TreeType {
        base_name: "Expr".to_string(),
        class_name: "Bad".to_string(),
        fields: vec!["Token operator".to_string(), "Token".to_string()],
    };
    assert!(!nameless.has_named_fields());
    assert!(binary().has_named_fields());
}

#[test]
fn names_hold_the_lower_case_forms() {
    let names = binary().names();
    assert_eq!(names.class_name, "Binary");
    assert_eq!(names.full_name, "BinaryExpr");
    assert_eq!(names.lower_class, "binary");
    assert_eq!(names.lower_base, "expr");
}

#[test]
fn visitor_for_one_kind() {
    assert_eq!(define_visitor("Expr".to_string(), vec![literal()]), LITERAL_VISITOR);
    let names = vec![TypeNames {
        class_name: "Literal".to_string(),
        full_name: "LiteralExpr".to_string(),
        lower_class: "literal".to_string(),
        lower_base: "expr".to_string(),
    }];
    assert_eq!(visitor_source("Expr", "expr", &names), LITERAL_VISITOR);
}

#[test]
fn visitor_for_no_kind() {
    assert_eq!(
        define_visitor("Stmt".to_string(), vec![]),
        "pub trait StmtVisitor<T> {\n}\n\nimpl Stmt {\n\tpub fn walk_stmt<T>(&self, v: &dyn StmtVisitor<T>) -> T {\n\t\tmatch self {\n\t\t}\n\t}\n}\n\n"
    );
}

#[test]
fn visitor_for_two_kinds_keeps_their_order() {
    let text = define_visitor("Expr".to_string(), vec![binary(), literal()]);
    let binary_visit = text.find("\tfn visit_binary_expr(&self, e: &BinaryExpr) -> T;\n").unwrap();
    let literal_visit =
        text.find("\tfn visit_literal_expr(&self, e: &LiteralExpr) -> T;\n").unwrap();
    assert!(binary_visit < literal_visit);
    let binary_arm = text.find("\t\t\tExpr::Binary(e) => e.walk_binary_expr(v),\n").unwrap();
    let literal_arm = text.find("\t\t\tExpr::Literal(e) => e.walk_literal_expr(v),\n").unwrap();
    assert!(literal_visit < binary_arm);
    assert!(binary_arm < literal_arm);
    let binary_impl = text.find("impl BinaryExpr {\n").unwrap();
    let literal_impl = text.find("impl LiteralExpr {\n").unwrap();
    assert!(literal_arm < binary_impl);
    assert!(binary_impl < literal_impl);
    assert!(text.ends_with("\t\tv.visit_literal_expr(self)\n\t}\n}\n\n"));
}

#[test]
fn descriptions_are_split_and_trimmed() {
    let base = "Expr".to_string();
    let described =
        describe_type(&base, "Binary : Box<Expr> left, Token operator, Box<Expr> right").unwrap();
    assert_eq!(described.base_name, "Expr");
    assert_eq!(described.class_name, "Binary");
    assert_eq!(described.fields, vec!["Box<Expr> left", "Token operator", "Box<Expr> right"]);
    let described = describe_type(&base, "  Unit:").unwrap();
    assert_eq!(described.class_name, "Unit");
    assert_eq!(described.fields, vec![""]);
    let described = describe_type(&base, "A:b c,,  d e  ,").unwrap();
    assert_eq!(described.fields, vec!["b c", "", "d e", ""]);
    let described = describe_type(&base, "A : b : c").unwrap();
    assert_eq!(described.class_name, "A");
    assert_eq!(described.fields, vec!["b : c"]);
    assert!(describe_type(&base, "Binary Box<Expr> left").is_none());
    assert!(describe_type(&base, "").is_none());
}

#[test]
fn whole_source_of_a_tree() {
    let file = define_ast(
        "out/dir".to_string(),
        "Expr".to_string(),
        vec!["Literal : Literal value".to_string()],
    )
    .unwrap();
    assert_eq!(file.path, "out/dir/expr.rs");
    let head = "pub use crate::lexer::{Literal, Token};\n\n\
pub enum Expr {\n\
\tLiteral(LiteralExpr),\n\
}\n\n\
pub struct LiteralExpr {\n\
\tpub value: Literal,\n\
}\n\n";
    assert_eq!(file.text, format!("{}{}", head, LITERAL_VISITOR));
    let types = vec![literal()];
    let names = vec![literal().names()];
    assert_eq!(ast_source("Expr", "expr", &types, &names), file.text);
}

#[test]
fn source_of_the_expression_tree() {
    let file = define_ast(
        ".".to_string(),
        "Expr".to_string(),
        vec![
            "Binary : Box<Expr> left, Token operator, Box<Expr> right".to_string(),
            "Grouping : Box<Expr> expression".to_string(),
            "Literal : Literal value".to_string(),
            "Unary : Token operator, Box<Expr> right".to_string(),
        ],
    )
    .unwrap();
    assert_eq!(file.path, "./expr.rs");
    assert!(file.text.starts_with(
        "pub use crate::lexer::{Literal, Token};\n\npub enum Expr {\n\tBinary(BinaryExpr),\n\tGrouping(GroupingExpr),\n\tLiteral(LiteralExpr),\n\tUnary(UnaryExpr),\n}\n\npub struct BinaryExpr {\n"
    ));
    assert!(file.text.contains(
        "pub struct UnaryExpr {\n\tpub operator: Token,\n\tpub right: Box<Expr>,\n}\n\npub trait ExprVisitor<T> {\n"
    ));
    assert!(file.text.ends_with(
        "impl UnaryExpr {\n\tpub fn walk_unary_expr<T>(&self, v: &dyn ExprVisitor<T>) -> T {\n\t\tv.visit_unary_expr(self)\n\t}\n}\n\n"
    ));
}

#[test]
fn bad_descriptions_give_no_source() {
    assert!(define_ast(
        ".".to_string(),
        "Expr".to_string(),
        vec!["Literal : Literal value".to_string(), "Unary Token operator".to_string()],
    )
    .is_none());
    assert!(define_ast(
        ".".to_string(),
        "Expr".to_string(),
        vec!["Literal : Literal".to_string()],
    )
    .is_none());
    assert!(define_ast(".".to_string(), "Expr".to_string(), vec![]).is_some());
}
