use rscheme::program::Program;

fn run(code: &str) -> Vec<String> {
    let mut p = Program::new();
    p.run_code(code.to_string(), false)
}

fn one(code: &str) -> String {
    let out = run(code);
    assert_eq!(out.len(), 1, "{:?}", out);
    out[0].clone()
}

#[test]
fn arithmetic_identities() {
    assert_eq!(one("(+)"), "0");
    assert_eq!(one("(*)"), "1");
    assert_eq!(one("(-)"), "0");
    assert_eq!(one("(/)"), "1");
}

#[test]
fn difference_forms() {
    assert_eq!(one("(- 5)"), "-5");
    assert_eq!(one("(- 10 3 2)"), "5");
    assert_eq!(one("(- 10 #t 3)"), "7");
}

#[test]
fn division_forms() {
    assert_eq!(one("(/ 20 2 5)"), "2");
    assert_eq!(one("(/ 7 2)"), "3");
    assert_eq!(one("(/ -7 2)"), "-3");
    assert_eq!(one("(/ 1)"), "1");
    assert_eq!(one("(/ 4)"), "0");
}

#[test]
fn division_by_zero() {
    assert_eq!(one("(/ 1 0)"), "Runtime error: Division by zero.");
    assert_eq!(one("(/ 0)"), "Runtime error: Division by zero.");
}

#[test]
fn overflow_is_an_error() {
    assert_eq!(one("(+ 9223372036854775807 1)"), "Runtime error: Arithmetic overflow.");
    assert_eq!(one("(* 4294967296 4294967296)"), "Runtime error: Arithmetic overflow.");
    assert_eq!(one("(- -9223372036854775808)"), "Runtime error: Arithmetic overflow.");
    assert_eq!(one("(/ -9223372036854775808 -1)"), "Runtime error: Arithmetic overflow.");
}

#[test]
fn exact_result_despite_large_partial_sums() {
    assert_eq!(one("(+ 9223372036854775807 1 -1)"), "9223372036854775807");
    assert_eq!(one("(* -9223372036854775808 -1 -1)"), "-9223372036854775808");
    assert_eq!(one("(* 9223372036854775807 9223372036854775807 0)"), "0");
}

#[test]
fn comparisons() {
    assert_eq!(run("(= 2 2) (< 2 3) (> 2 3)"), vec!["#t", "#t", "#f"]);
    assert_eq!(run("(< \"abc\" \"abd\") (> \"b\" \"abc\") (= \"x\" \"x\")"), vec!["#t", "#t", "#t"]);
    assert_eq!(run("(< #f #t) (= #t #f)"), vec!["#t", "#f"]);
    assert_eq!(run("(< \"ab\" \"abc\")"), vec!["#t"]);
}

#[test]
fn comparison_errors() {
    assert_eq!(one("(= 1)"), "Runtime error: Equality test needs two arguments.");
    assert_eq!(one("(< 1 2 3)"), "Runtime error: Comparison test needs two arguments.");
    assert_eq!(one("(= 1 \"a\")"), "Runtime error: Expected numerical expression as the second argument.");
    assert_eq!(one("(= \"a\" 1)"), "Runtime error: Expected string expression as the second argument.");
    assert_eq!(one("(= #t 1)"), "Runtime error: Expected boolean expression as the second argument.");
    assert_eq!(one("(= '(a) 1)"), "Runtime error: Can't compare quoted expressions.");
    assert_eq!(one("(= + 1)"), "Runtime error: Can't compare procedures.");
    assert_eq!(one("(= (if #f 1) 1)"), "Runtime error: Can't compare #<undefined>'s.");
}

#[test]
fn connectives() {
    assert_eq!(run("(and #t #t) (and #t #f 1) (or #f #f) (or #f 0)"), vec!["#t", "#f", "#f", "#t"]);
    assert_eq!(one("(not -1)"), "#t");
}

#[test]
fn connective_errors() {
    assert_eq!(one("(and #t)"), "Runtime error: 'And' requires at least two operands.");
    assert_eq!(one("(or #t)"), "Runtime error: 'Or' requires at least two operands.");
    assert_eq!(one("(not #t #f)"), "Runtime error: 'Not' requires a single argument.");
    assert_eq!(
        one("(and #t +)"),
        "Runtime error: Can't convert procedures and #undefined's to booleans."
    );
    assert_eq!(
        one("(if + 1 2)"),
        "Runtime error: Can't convert procedures and #undefined's to booleans."
    );
}

#[test]
fn call_errors() {
    assert_eq!(one("()"), "Runtime error: Empty expression can't be evaluated.");
    assert_eq!(one("(1 2)"), "Runtime error: First expression not a procedure.");
    assert_eq!(one("((lambda (a) a))"), "Runtime error: Invalid number of arguments provided.");
    assert_eq!(one("((lambda (a)) 1)"), "Runtime error: Empty function body.");
}

#[test]
fn body_stops_at_first_error() {
    assert_eq!(
        run("(define f (lambda () (undefined-thing) 5)) (f)"),
        vec!["Runtime error: Undefined identifier 'undefined-thing'."]
    );
    assert_eq!(run("(define g (lambda () 1 2 3)) (g)"), vec!["3"]);
}

#[test]
fn duplicate_parameters_take_the_last_argument() {
    assert_eq!(one("((lambda (a a) a) 1 2)"), "2");
}

#[test]
fn printing_of_procedures_and_quotes() {
    assert_eq!(
        run("+ - * / = < > and or not"),
        vec![
            "#<procedure>:+", "#<procedure>:-", "#<procedure>:*", "#<procedure>:/",
            "#<procedure>:=", "#<procedure>:<", "#<procedure>:>", "#<procedure>:and",
            "#<procedure>:or", "#<procedure>:not"
        ]
    );
    assert_eq!(one("(lambda (x) x)"), "#<procedure>:user-defined");
    assert_eq!(one("'(+ 1 \"a\" #t)"), "#<expression>:(+ 1 \"a\" #t)");
    assert_eq!(one("'x"), "#<expression>:x");
    assert_eq!(
        one("(quote (define f (lambda (a b) (if a b))))"),
        "#<expression>:(define f (lambda (a b) (if a b)))"
    );
    assert_eq!(one("(quote (eval (if 1 2 3)))"), "#<expression>:(eval (if 1 2 3))");
    assert_eq!(one("(quote '(a))"), "#<expression>:'(a)");
}
