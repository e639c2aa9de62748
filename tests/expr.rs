use rlox::expr::{Expr, LiteralValue, Visitor};
use rlox::token::{Token, TokenType};

struct Printer;

impl Visitor<String> for Printer {
    fn visit_binary(&mut self, left: &Expr, operator: &Token, right: &Expr) -> String {
        format!("({} {} {})", operator.lexeme, left.accept(self), right.accept(self))
    }

    fn visit_grouping(&mut self, expression: &Expr) -> String {
        format!("(group {})", expression.accept(self))
    }

    fn visit_literal(&mut self, value: &LiteralValue) -> String {
        match value {
            LiteralValue::Number(n) => n.clone(),
            LiteralValue::String(s) => format!("\"{}\"", s),
            LiteralValue::Bool(b) => format!("{}", b),
            LiteralValue::Nil => "nil".to_string(),
        }
    }

    fn visit_unary(&mut self, operator: &Token, right: &Expr) -> String {
        format!("({} {})", operator.lexeme, right.accept(self))
    }
}

#[test]
fn visitor_walks_a_tree() {
    let minus = Token::new(TokenType::Minus, "-".to_string(), None, 1);
    let star = Token::new(TokenType::Star, "*".to_string(), None, 1);
    let tree = Expr::binary(
        Expr::unary(minus, Expr::literal(LiteralValue::Number("123".to_string()))),
        star,
        Expr::grouping(Expr::literal(LiteralValue::Number("45.67".to_string()))),
    );
    assert_eq!(tree.accept(&mut Printer), "(* (- 123) (group 45.67))");
}

#[test]
fn literal_constructor_keeps_value() {
    let e = Expr::literal(LiteralValue::String("hi".to_string()));
    match e {
        Expr::Literal { value } => assert_eq!(value, LiteralValue::String("hi".to_string())),
        other => panic!("unexpected node {:?}", other),
    }
    let printed = Expr::literal(LiteralValue::Nil).accept(&mut Printer);
    assert_eq!(printed, "nil");
    let printed = Expr::literal(LiteralValue::Bool(true)).accept(&mut Printer);
    assert_eq!(printed, "true");
}
