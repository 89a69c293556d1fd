use rscheme::expression::{Expression, LValue, Procedure};
use std::cmp::Ordering;
use rscheme::list::ListNode;
use rscheme::parser::{parse_primitives, PrimitiveToken};
use rscheme::program::Program;
use rscheme::text::{integer_text, parse_integer_word};

fn tokens(code: &str) -> Vec<PrimitiveToken> {
    parse_primitives(&code.to_string())
}

fn describe(t: &PrimitiveToken) -> String {
    match t {
        PrimitiveToken::LeftParen => "(".to_string(),
        PrimitiveToken::RightParen => ")".to_string(),
        PrimitiveToken::Quote => "'".to_string(),
        PrimitiveToken::Word(w) => format!("w:{}", w),
        PrimitiveToken::StringLiteral(s) => format!("s:{}", s),
        PrimitiveToken::NumericLiteral(n) => format!("n:{}", n),
    }
}

fn lexed(code: &str) -> Vec<String> {
    tokens(code).iter().map(describe).collect()
}

#[test]
fn lexer_basic_forms() {
    assert_eq!(lexed("(+ 1 2)"), vec!["(", "w:+", "n:1", "n:2", ")"]);
    assert_eq!(lexed("[foo 1])"), vec!["(", "w:foo", "n:1", ")", ")"]);
    assert_eq!(lexed("'x"), vec!["'", "w:x"]);
    assert_eq!(lexed("a'b"), vec!["w:a", "'", "w:b"]);
}

#[test]
fn lexer_comments_and_whitespace() {
    assert_eq!(lexed("a ; comment (x)\nb"), vec!["w:a", "w:b"]);
    assert_eq!(lexed(" \t\r\n "), Vec::<String>::new());
    assert_eq!(lexed(""), Vec::<String>::new());
    assert_eq!(lexed("word"), vec!["w:word"]);
}

#[test]
fn lexer_strings() {
    assert_eq!(lexed("\"a b;c\" x"), vec!["s:a b;c", "w:x"]);
    assert_eq!(lexed("ab\"cd\""), vec!["w:ab", "s:cd"]);
    assert_eq!(lexed("x \"unterminated"), vec!["w:x"]);
    assert_eq!(lexed("\"\""), vec!["s:"]);
}

#[test]
fn lexer_numbers() {
    assert_eq!(lexed("-12 +7 007 1.5 - +"), vec!["n:-12", "n:7", "n:7", "w:1.5", "w:-", "w:+"]);
    assert_eq!(lexed("9223372036854775807 9223372036854775808"), vec!["n:9223372036854775807", "w:9223372036854775808"]);
    assert_eq!(lexed("-9223372036854775808 -9223372036854775809"), vec!["n:-9223372036854775808", "w:-9223372036854775809"]);
}

#[test]
fn integer_reading_and_writing() {
    assert_eq!(parse_integer_word(&"-305".chars().collect()), Some(-305));
    assert_eq!(parse_integer_word(&"3x".chars().collect()), None);
    assert_eq!(parse_integer_word(&"".chars().collect()), None);
    assert_eq!(integer_text(0), "0");
    assert_eq!(integer_text(-9223372036854775808), "-9223372036854775808");
    assert_eq!(integer_text(120), "120");
}

fn tree(code: &str) -> ListNode {
    ListNode::from_primitive_tokens(&tokens(code))
}

fn shape(n: &ListNode) -> String {
    match n {
        ListNode::Node(q, cs) => {
            let inner: Vec<String> = cs.iter().map(shape).collect();
            format!("{}[{}]", if *q { "'" } else { "" }, inner.join(" "))
        }
        ListNode::Identifier(q, s) => format!("{}{}", if *q { "'" } else { "" }, s),
        ListNode::StringLiteral(s) => format!("\"{}\"", s),
        ListNode::NumericLiteral(v) => format!("{}", v),
        ListNode::BooleanLiteral(b) => format!("{}", b),
    }
}

#[test]
fn list_builder_shapes() {
    assert_eq!(shape(&tree("(a (b c) 1) d")), "[[a [b c] 1] d]");
    assert_eq!(shape(&tree("'(a 'b) 'c #t #f")), "['[a 'b] 'c true false]");
    assert_eq!(shape(&tree("'\"s\" x")), "[\"s\" x]");
    assert_eq!(shape(&tree("(a (b")), "[[a [b]]]");
    assert_eq!(shape(&tree("a ) b")), "[a]");
}

fn lowered(code: &str) -> Result<Expression, String> {
    match tree(code) {
        ListNode::Node(_, cs) => Expression::from_list(&cs[0]),
        _ => panic!("root is always a node"),
    }
}

fn lowering_error(code: &str) -> String {
    match lowered(code) {
        Err(s) => s,
        Ok(e) => panic!("lowered: {:?}", e),
    }
}

#[test]
fn lowering_special_forms() {
    assert!(matches!(lowered("(define x 1)"), Ok(Expression::Definition { .. })));
    assert!(matches!(lowered("(if 1 2)"), Ok(Expression::IfCondition { no_expr: None, .. })));
    assert!(matches!(lowered("(if 1 2 3)"), Ok(Expression::IfCondition { no_expr: Some(_), .. })));
    assert!(matches!(lowered("(eval x)"), Ok(Expression::Eval(_))));
    assert!(matches!(lowered("(quote x)"), Ok(Expression::Value(LValue::Quoted(_)))));
    assert!(matches!(lowered("()"), Ok(Expression::List(ref v)) if v.is_empty()));
    assert!(matches!(lowered("('define x 1)"), Ok(Expression::List(ref v)) if v.len() == 3));
    match lowered("(lambda (a b) a b)") {
        Ok(Expression::Lambda(Procedure::UserDefined { arguments, body })) => {
            assert_eq!(arguments, vec!["a".to_string(), "b".to_string()]);
            assert_eq!(body.len(), 2);
        }
        other => panic!("{:?}", other),
    }
}

#[test]
fn lowering_errors() {
    assert_eq!(lowering_error("(define x)"), "A definition statement needs exactly 2 arguments.");
    assert_eq!(lowering_error("(define 'x 1)"), "Identifier name in define statement must not be quoted.");
    assert_eq!(lowering_error("(define 1 1)"), "First argument must be a valid identifier.");
    assert_eq!(lowering_error("(lambda)"), "A lambda expression needs an argument list.");
    assert_eq!(lowering_error("(lambda x x)"), "A lambda expression needs an argument list.");
    assert_eq!(lowering_error("(lambda '(a) a)"), "The argument list in a lambda expression must not be quoted.");
    assert_eq!(lowering_error("(lambda (a 'b) a)"), "Argument name must not be quoted in a lambda expression");
    assert_eq!(lowering_error("(lambda (a 1) a)"), "The argument list must only contain non-quoted identifiers.");
    assert_eq!(lowering_error("(if 1)"), "'if' statement requires two or three expressions.");
    assert_eq!(lowering_error("(if 1 2 3 4)"), "'if' statement requires two or three expressions.");
    assert_eq!(lowering_error("(quote)"), "Quote expression must contain exactly one expression.");
    assert_eq!(lowering_error("(eval 1 2)"), "Eval expression must contain exactly one expression.");
    assert_eq!(lowering_error("(f (define))"), "A definition statement needs exactly 2 arguments.");
}

#[test]
fn value_display_and_source() {
    assert_eq!(LValue::StringValue("hi".to_string()).display(), "\"hi\"");
    assert_eq!(LValue::NumericalValue(-42).display(), "-42");
    assert_eq!(LValue::BooleanValue(false).display(), "#f");
    assert_eq!(LValue::Undefined.display(), "#<undefined>");
    assert_eq!(LValue::Procedure(Procedure::Not).display(), "#<procedure>:not");
    let e = lowered("(f 1 (g \"x\"))").unwrap();
    assert_eq!(e.to_source(), "(f 1 (g \"x\"))");
}

#[test]
fn copies_are_deep_and_equal() {
    let e = lowered("(lambda (a) (if a 'b (c 1)))").unwrap();
    let copy = e.duplicate();
    assert_eq!(copy.to_source(), e.to_source());
    let v = LValue::Quoted(Box::new(e));
    assert_eq!(v.duplicate().display(), v.display());
}

#[test]
fn comparison_and_coercion_methods() {
    let a = LValue::StringValue("apple".to_string());
    let b = LValue::StringValue("banana".to_string());
    assert_eq!(a.compare(&b), Ok(Ordering::Less));
    assert_eq!(LValue::NumericalValue(3).compare(&LValue::NumericalValue(3)), Ok(Ordering::Equal));
    assert!(LValue::Undefined.compare(&LValue::Undefined).is_err());
    assert_eq!(LValue::NumericalValue(-1).to_boolean(), Ok(false));
    assert_eq!(LValue::StringValue(String::new()).to_boolean(), Ok(true));
    assert!(LValue::Procedure(Procedure::Sum).to_boolean().is_err());
}

#[test]
fn initialize_pushes_a_global_scope() {
    let mut p = Program::new();
    p.initialize();
    assert_eq!(p.run_code("(+ 2 2)".to_string(), false), vec!["4"]);
}

#[test]
fn clones_print_alike() {
    let e = lowered("(define k '(a \"b\" 3))").unwrap();
    assert_eq!(e.clone().to_source(), "(define k '(a \"b\" 3))");
    let v = LValue::Procedure(Procedure::UserDefined {
        arguments: vec!["x".to_string()],
        body: vec![lowered("(* x x)").unwrap()],
    });
    let w = v.clone();
    assert_eq!(w.display(), "#<procedure>:user-defined");
    assert_eq!(LValue::Quoted(Box::new(e)).clone().display(), "#<expression>:(define k '(a \"b\" 3))");
}
