use rscheme::program::Program;

fn run(code: &str) -> Vec<String> {
    let mut p = Program::new();
    p.run_code(code.to_string(), false)
}

#[test]
fn sum_of_three() {
    assert_eq!(run("(+ 1 2 3)"), vec!["6"]);
}

#[test]
fn define_then_read() {
    assert_eq!(run("(define x 5) x"), vec!["5"]);
}

#[test]
fn square_procedure() {
    assert_eq!(run("(define sq (lambda (n) (* n n))) (sq 7)"), vec!["49"]);
}

#[test]
fn if_picks_yes() {
    assert_eq!(run("(if (< 3 4) \"yes\" \"no\")"), vec!["\"yes\""]);
}

#[test]
fn eval_of_quote() {
    assert_eq!(run("(eval (quote (+ 10 20)))"), vec!["30"]);
}

#[test]
fn conditional_procedure_twice() {
    assert_eq!(
        run("(define f (lambda (a b) (if (= a b) a (+ a b)))) (f 2 2) (f 2 3)"),
        vec!["2", "5"]
    );
}

#[test]
fn non_numeric_addend_is_skipped() {
    assert_eq!(run("(+ 1 \"two\")"), vec!["1"]);
}

#[test]
fn undefined_name_is_runtime_error() {
    assert_eq!(
        run("(undefined-name)"),
        vec!["Runtime error: Undefined identifier 'undefined-name'."]
    );
}

#[test]
fn empty_define_is_syntax_error() {
    assert_eq!(
        run("(define)"),
        vec!["Syntax error: A definition statement needs exactly 2 arguments."]
    );
}

#[test]
fn runtime_error_continues_with_next_form() {
    assert_eq!(
        run("(foo) (+ 1 1)"),
        vec!["Runtime error: Undefined identifier 'foo'.", "2"]
    );
}

#[test]
fn syntax_error_stops_the_run() {
    assert_eq!(
        run("(+ 1 1) (define) (+ 2 2)"),
        vec!["2", "Syntax error: A definition statement needs exactly 2 arguments."]
    );
}

#[test]
fn silent_run_prints_only_errors() {
    let mut p = Program::new();
    let out = p.run_code("(define y 3) (+ y 1) (nope)".to_string(), true);
    assert_eq!(out, vec!["Runtime error: Undefined identifier 'nope'."]);
    let out = p.run_code("y\n".to_string(), false);
    assert_eq!(out, vec!["3"]);
}

#[test]
fn environment_persists_between_runs() {
    let mut p = Program::new();
    assert_eq!(p.run_code("(define double (lambda (x) (* 2 x)))".to_string(), false), Vec::<String>::new());
    assert_eq!(p.run_code("(double 21)".to_string(), false), vec!["42"]);
}

#[test]
fn double_negation() {
    assert_eq!(run("(not (not #t)) (not (not #f))"), vec!["#t", "#f"]);
}

#[test]
fn sum_and_product_commute_and_associate() {
    assert_eq!(run("(+ 1 2 3) (+ 3 2 1) (+ (+ 1 2) 3) (+ 1 (+ 2 3))"), vec!["6", "6", "6", "6"]);
    assert_eq!(run("(* 2 3 4) (* 4 3 2) (* (* 2 3) 4) (* 2 (* 3 4))"), vec!["24", "24", "24", "24"]);
}

#[test]
fn literal_evaluates_to_itself() {
    assert_eq!(run("7 -3 #t #f \"s\""), vec!["7", "-3", "#t", "#f", "\"s\""]);
}

#[test]
fn inner_scope_shadows_outer() {
    assert_eq!(
        run("(define x 1) (define f (lambda (x) x)) (f 2) x"),
        vec!["2", "1"]
    );
}

#[test]
fn define_in_body_stays_local() {
    assert_eq!(
        run("(define g (lambda () (define local 9) local)) (g) local"),
        vec!["9", "Runtime error: Undefined identifier 'local'."]
    );
}

#[test]
fn call_after_error_sees_same_scopes() {
    assert_eq!(
        run("(define h (lambda (a) (missing a))) (h 1) (define z 4) z"),
        vec!["Runtime error: Undefined identifier 'missing'.", "4"]
    );
}

#[test]
fn free_names_resolve_at_call_time() {
    assert_eq!(
        run("(define show (lambda () n)) (define call (lambda (n) (show))) (call 8)"),
        vec!["8"]
    );
}

#[test]
fn quote_mark_and_eval() {
    assert_eq!(run("(eval '(* 6 7))"), vec!["42"]);
    assert_eq!(run("(define q '(+ 1 2)) (eval q)"), vec!["3"]);
}

#[test]
fn eval_of_plain_value_is_the_value() {
    assert_eq!(run("(eval 5)"), vec!["5"]);
}

#[test]
fn redefinition_replaces_binding() {
    assert_eq!(run("(define v 1) (define v 2) v"), vec!["2"]);
}

#[test]
fn if_without_alternative() {
    assert_eq!(run("(if #f 1)"), vec!["#<undefined>"]);
    assert_eq!(run("(if -1 1 2) (if 0 1 2) (if \"\" 1 2)"), vec!["2", "1", "1"]);
}

#[test]
fn recursion_works() {
    assert_eq!(
        run("(define fact (lambda (n) (if (< n 2) 1 (* n (fact (- n 1)))))) (fact 10)"),
        vec!["3628800"]
    );
}

#[test]
fn runaway_recursion_stops_with_error() {
    assert_eq!(
        run("(define loop (lambda (n) (loop n))) (loop 1)"),
        vec!["Runtime error: Maximum evaluation depth exceeded."]
    );
}

#[test]
fn reordered_arguments_give_same_result() {
    assert_eq!(run("(+ 1 \"a\" 2 5) (+ 5 2 #t 1)"), vec!["8", "8"]);
    assert_eq!(run("(* 3 '(x) 4 -2) (* -2 4 3)"), vec!["-24", "-24"]);
}

#[test]
fn eval_quote_matches_direct_evaluation() {
    assert_eq!(
        run("(define w 6) (eval (quote (* w 7))) (* w 7) (eval (quote (nothing))) (nothing)"),
        vec![
            "42",
            "42",
            "Runtime error: Undefined identifier 'nothing'.",
            "Runtime error: Undefined identifier 'nothing'."
        ]
    );
}
