//! The meaning of programs: the environment as a stack of maps, the built-in
//! procedures and evaluation, as spec functions over the models.
use vstd::prelude::*;
use crate::expression::{ExprModel, ProcModel, ValueModel};

verus! {

/// One scope: names bound to values.
pub type Frame = Map<Seq<char>, ValueModel>;

/// The environment: index 0 is the global scope, the last is the innermost.
pub type Stack = Seq<Frame>;

/// A value or an error message.
pub type Outcome = Result<ValueModel, Seq<char>>;

/// The innermost binding of `name`.
pub open spec fn lookup(st: Stack, name: Seq<char>) -> Option<ValueModel>
    decreases st.len(),
{
    if st.len() == 0 {
        None
    } else if st.last().contains_key(name) {
        Some(st.last()[name])
    } else {
        lookup(st.drop_last(), name)
    }
}

/// Binds `name` in the innermost scope, replacing a binding there.
pub open spec fn define(st: Stack, name: Seq<char>, v: ValueModel) -> Stack {
    st.update(st.len() - 1, st.last().insert(name, v))
}

/// Two stacks of one height that differ at most in the innermost scope.
pub open spec fn same_below_top(a: Stack, b: Stack) -> bool {
    &&& a.len() == b.len()
    &&& a.len() >= 1
    &&& forall|i: int| 0 <= i < a.len() - 1 ==> #[trigger] a[i] == b[i]
}

/// The scope of a call: each parameter bound to its argument, later ones
/// replacing earlier ones of the same name.
pub open spec fn bind_params(params: Seq<Seq<char>>, args: Seq<ValueModel>, n: int) -> Frame
    decreases n,
{
    if n <= 0 || n > params.len() || n > args.len() {
        Map::empty()
    } else {
        bind_params(params, args, n - 1).insert(params[n - 1], args[n - 1])
    }
}

pub open spec fn undefined_message(name: Seq<char>) -> Seq<char> {
    "Undefined identifier '"@ + name + "'."@
}

pub open spec fn depth_message() -> Seq<char> {
    "Maximum evaluation depth exceeded."@
}

pub open spec fn empty_call_message() -> Seq<char> {
    "Empty expression can't be evaluated."@
}

pub open spec fn not_procedure_message() -> Seq<char> {
    "First expression not a procedure."@
}

pub open spec fn arity_message() -> Seq<char> {
    "Invalid number of arguments provided."@
}

pub open spec fn empty_body_message() -> Seq<char> {
    "Empty function body."@
}

pub open spec fn overflow_message() -> Seq<char> {
    "Arithmetic overflow."@
}

pub open spec fn division_by_zero_message() -> Seq<char> {
    "Division by zero."@
}

pub open spec fn boolean_message() -> Seq<char> {
    "Can't convert procedures and #undefined's to booleans."@
}

pub open spec fn equal_arity_message() -> Seq<char> {
    "Equality test needs two arguments."@
}

pub open spec fn comparison_arity_message() -> Seq<char> {
    "Comparison test needs two arguments."@
}

pub open spec fn and_arity_message() -> Seq<char> {
    "'And' requires at least two operands."@
}

pub open spec fn or_arity_message() -> Seq<char> {
    "'Or' requires at least two operands."@
}

pub open spec fn not_arity_message() -> Seq<char> {
    "'Not' requires a single argument."@
}

/// Boolean coercion for `if`, `and`, `or` and `not`.
pub open spec fn to_bool(v: ValueModel) -> Result<bool, Seq<char>> {
    match v {
        ValueModel::Bool(b) => Ok(b),
        ValueModel::Num(x) => Ok(x >= 0),
        ValueModel::Str(_) => Ok(true),
        ValueModel::Quoted(_) => Ok(true),
        _ => Err(boolean_message()),
    }
}

/// Lexicographic order of two texts.
pub open spec fn text_order(a: Seq<char>, b: Seq<char>) -> core::cmp::Ordering
    decreases a.len(),
{
    if a.len() == 0 && b.len() == 0 {
        core::cmp::Ordering::Equal
    } else if a.len() == 0 {
        core::cmp::Ordering::Less
    } else if b.len() == 0 {
        core::cmp::Ordering::Greater
    } else if a[0] < b[0] {
        core::cmp::Ordering::Less
    } else if a[0] > b[0] {
        core::cmp::Ordering::Greater
    } else {
        text_order(a.skip(1), b.skip(1))
    }
}

pub open spec fn int_order(a: int, b: int) -> core::cmp::Ordering {
    if a > b {
        core::cmp::Ordering::Greater
    } else if a == b {
        core::cmp::Ordering::Equal
    } else {
        core::cmp::Ordering::Less
    }
}

/// Comparison of two values of the same kind among numbers, booleans and
/// strings; anything else is an error.
pub open spec fn compare_values(a: ValueModel, b: ValueModel) -> Result<core::cmp::Ordering, Seq<char>> {
    match a {
        ValueModel::Str(s1) => match b {
            ValueModel::Str(s2) => Ok(text_order(s1, s2)),
            _ => Err("Expected string expression as the second argument."@),
        },
        ValueModel::Bool(b1) => match b {
            ValueModel::Bool(b2) => Ok(int_order(if b1 { 1 } else { 0 }, if b2 { 1 } else { 0 })),
            _ => Err("Expected boolean expression as the second argument."@),
        },
        ValueModel::Num(x1) => match b {
            ValueModel::Num(x2) => Ok(int_order(x1 as int, x2 as int)),
            _ => Err("Expected numerical expression as the second argument."@),
        },
        ValueModel::Quoted(_) => Err("Can't compare quoted expressions."@),
        ValueModel::Proc(_) => Err("Can't compare procedures."@),
        ValueModel::Undefined => Err("Can't compare #<undefined>'s."@),
    }
}

/// The numbers among the first `n` arguments, in order; other values are
/// skipped.
pub open spec fn numbers(args: Seq<ValueModel>, n: int) -> Seq<i64>
    decreases n,
{
    if n <= 0 || n > args.len() {
        Seq::empty()
    } else {
        match args[n - 1] {
            ValueModel::Num(x) => numbers(args, n - 1).push(x),
            _ => numbers(args, n - 1),
        }
    }
}

pub open spec fn numeric_args(args: Seq<ValueModel>) -> Seq<i64> {
    numbers(args, args.len() as int)
}

/// The exact sum of a list of numbers.
pub open spec fn sum_of(ns: Seq<i64>) -> int
    decreases ns.len(),
{
    if ns.len() == 0 {
        0
    } else {
        sum_of(ns.drop_last()) + ns.last()
    }
}

/// The exact product of a list of numbers.
pub open spec fn product_of(ns: Seq<i64>) -> int
    decreases ns.len(),
{
    if ns.len() == 0 {
        1
    } else {
        product_of(ns.drop_last()) * ns.last()
    }
}

pub open spec fn fits(x: int) -> bool {
    i64::MIN <= x <= i64::MAX
}

/// An exact result, or an overflow error when it leaves the range of `i64`.
pub open spec fn checked(x: int) -> Outcome {
    if fits(x) {
        Ok(ValueModel::Num(x as i64))
    } else {
        Err(overflow_message())
    }
}

/// What `-` gives: the negation of a single number, else the first minus
/// the others (zero when there are none).
pub open spec fn difference_of(ns: Seq<i64>) -> Outcome {
    if ns.len() == 0 {
        Ok(ValueModel::Num(0))
    } else if ns.len() == 1 {
        checked(-(ns[0] as int))
    } else {
        checked(ns[0] - sum_of(ns.skip(1)))
    }
}

/// Division truncating toward zero.
pub open spec fn quotient(a: int, b: int) -> int
    recommends
        b != 0,
{
    let q = (if a >= 0 { a } else { -a }) / (if b >= 0 { b } else { -b });
    if (a >= 0) == (b > 0) || q == 0 {
        q
    } else {
        -q
    }
}

/// Dividing `acc` by the numbers `ns[i..]` in turn.
pub open spec fn divide_by(acc: int, ns: Seq<i64>, i: int) -> Outcome
    decreases ns.len() - i,
{
    if i >= ns.len() || i < 0 {
        checked(acc)
    } else if ns[i] == 0 {
        Err(division_by_zero_message())
    } else if !fits(quotient(acc, ns[i] as int)) {
        Err(overflow_message())
    } else {
        divide_by(quotient(acc, ns[i] as int), ns, i + 1)
    }
}

/// What `/` gives: the reciprocal of a single number, else the first divided
/// by the others in turn (one when there are none).
pub open spec fn division_of(ns: Seq<i64>) -> Outcome {
    if ns.len() == 0 {
        Ok(ValueModel::Num(1))
    } else if ns.len() == 1 {
        divide_by(1, ns, 0)
    } else {
        divide_by(ns[0] as int, ns, 1)
    }
}

/// The conjunction (or disjunction) of the coerced first `n` arguments; the
/// first argument that cannot be coerced gives the error.
pub open spec fn fold_bools(args: Seq<ValueModel>, n: int, conj: bool) -> Result<bool, Seq<char>>
    decreases n,
{
    if n <= 0 || n > args.len() {
        Ok(conj)
    } else {
        match fold_bools(args, n - 1, conj) {
            Err(s) => Err(s),
            Ok(acc) => match to_bool(args[n - 1]) {
                Err(s) => Err(s),
                Ok(b) => Ok(if conj { acc && b } else { acc || b }),
            },
        }
    }
}

pub open spec fn ordering_test(
    args: Seq<ValueModel>,
    arity: Seq<char>,
    wanted: core::cmp::Ordering,
) -> Outcome {
    if args.len() != 2 {
        Err(arity)
    } else {
        match compare_values(args[0], args[1]) {
            Ok(o) => Ok(ValueModel::Bool(o == wanted)),
            Err(s) => Err(s),
        }
    }
}

/// What a built-in procedure returns on the given arguments. (`apply` runs
/// user-defined procedures; here they only meet the arity error.)
pub open spec fn apply_builtin(p: ProcModel, args: Seq<ValueModel>) -> Outcome {
    match p {
        ProcModel::Sum => checked(sum_of(numeric_args(args))),
        ProcModel::Product => checked(product_of(numeric_args(args))),
        ProcModel::Difference => difference_of(numeric_args(args)),
        ProcModel::Division => division_of(numeric_args(args)),
        ProcModel::Equal => ordering_test(args, equal_arity_message(), core::cmp::Ordering::Equal),
        ProcModel::Less => ordering_test(args, comparison_arity_message(), core::cmp::Ordering::Less),
        ProcModel::Greater => ordering_test(
            args,
            comparison_arity_message(),
            core::cmp::Ordering::Greater,
        ),
        ProcModel::And => if args.len() < 2 {
            Err(and_arity_message())
        } else {
            match fold_bools(args, args.len() as int, true) {
                Ok(b) => Ok(ValueModel::Bool(b)),
                Err(s) => Err(s),
            }
        },
        ProcModel::Or => if args.len() < 2 {
            Err(or_arity_message())
        } else {
            match fold_bools(args, args.len() as int, false) {
                Ok(b) => Ok(ValueModel::Bool(b)),
                Err(s) => Err(s),
            }
        },
        ProcModel::Not => if args.len() != 1 {
            Err(not_arity_message())
        } else {
            match to_bool(args[0]) {
                Ok(b) => Ok(ValueModel::Bool(!b)),
                Err(s) => Err(s),
            }
        },
        ProcModel::UserDefined(_, _) => Err(arity_message()),
    }
}

/// Evaluates `e` in `st` with at most `fuel` nested steps; returns the
/// environment afterwards and the outcome.
pub open spec fn eval_expr(st: Stack, e: ExprModel, fuel: nat) -> (Stack, Outcome)
    decreases fuel, 0int,
{
    if fuel == 0 {
        (st, Err(depth_message()))
    } else {
        let f = (fuel - 1) as nat;
        match e {
            ExprModel::Value(v) => (st, Ok(v)),
            ExprModel::Identifier(s) => match lookup(st, s) {
                Some(v) => (st, Ok(v)),
                None => (st, Err(undefined_message(s))),
            },
            ExprModel::Lambda(p) => (st, Ok(ValueModel::Proc(p))),
            ExprModel::Definition(name, value) => {
                let (st1, r) = eval_expr(st, *value, f);
                match r {
                    Ok(v) => (define(st1, name, v), Ok(ValueModel::Undefined)),
                    Err(s) => (st1, Err(s)),
                }
            },
            ExprModel::If(c, y, n) => {
                let (st1, r) = eval_expr(st, *c, f);
                match r {
                    Err(s) => (st1, Err(s)),
                    Ok(cv) => match to_bool(cv) {
                        Err(s) => (st1, Err(s)),
                        Ok(b) => if b {
                            eval_expr(st1, *y, f)
                        } else {
                            match n {
                                Some(ne) => eval_expr(st1, *ne, f),
                                None => (st1, Ok(ValueModel::Undefined)),
                            }
                        },
                    },
                }
            },
            ExprModel::Eval(inner) => {
                let (st1, r) = eval_expr(st, *inner, f);
                match r {
                    Ok(ValueModel::Quoted(q)) => eval_expr(st1, *q, f),
                    _ => (st1, r),
                }
            },
            ExprModel::List(es) => if es.len() == 0 {
                (st, Err(empty_call_message()))
            } else {
                let (st1, r) = eval_expr(st, es[0], f);
                match r {
                    Err(s) => (st1, Err(s)),
                    Ok(ValueModel::Proc(p)) => {
                        let (st2, ra) = eval_args(st1, es, es.len() as int, f);
                        match ra {
                            Err(s) => (st2, Err(s)),
                            Ok(args) => (st2, apply(st2, p, args, f)),
                        }
                    },
                    Ok(_) => (st1, Err(not_procedure_message())),
                }
            },
        }
    }
}

/// Evaluates the operands `es[1..n]` left to right; the first error wins.
pub open spec fn eval_args(st: Stack, es: Seq<ExprModel>, n: int, fuel: nat) -> (
    Stack,
    Result<Seq<ValueModel>, Seq<char>>,
)
    decreases fuel, n,
{
    if n <= 1 || n > es.len() {
        (st, Ok(Seq::empty()))
    } else {
        let (st1, r) = eval_args(st, es, n - 1, fuel);
        match r {
            Err(s) => (st1, Err(s)),
            Ok(vs) => {
                let (st2, r2) = eval_expr(st1, es[n - 1], fuel);
                match r2 {
                    Err(s) => (st2, Err(s)),
                    Ok(v) => (st2, Ok(vs.push(v))),
                }
            },
        }
    }
}

/// Evaluates `body[0..n]` in order and gives the last value; the first error
/// wins, and an empty body is an error.
pub open spec fn eval_body(st: Stack, body: Seq<ExprModel>, n: int, fuel: nat) -> (Stack, Outcome)
    decreases fuel, n,
{
    if n <= 0 || n > body.len() {
        (st, Err(empty_body_message()))
    } else if n == 1 {
        eval_expr(st, body[0], fuel)
    } else {
        let (st1, r) = eval_body(st, body, n - 1, fuel);
        match r {
            Err(s) => (st1, Err(s)),
            Ok(_) => eval_expr(st1, body[n - 1], fuel),
        }
    }
}

/// Applies a procedure. A call of a user-defined procedure runs its body in a
/// scope of its own, which is dropped afterwards: the caller's environment is
/// left as it was.
pub open spec fn apply(st: Stack, p: ProcModel, args: Seq<ValueModel>, fuel: nat) -> Outcome
    decreases fuel, 0int,
{
    match p {
        ProcModel::UserDefined(params, body) => if params.len() != args.len() {
            Err(arity_message())
        } else if fuel == 0 {
            Err(depth_message())
        } else {
            eval_body(
                st.push(bind_params(params, args, params.len() as int)),
                body,
                body.len() as int,
                (fuel - 1) as nat,
            ).1
        },
        _ => apply_builtin(p, args),
    }
}

/// Evaluation changes at most the innermost scope and never the height of
/// the stack.
pub proof fn lemma_eval_keeps_frames(st: Stack, e: ExprModel, fuel: nat)
    requires
        st.len() >= 1,
    ensures
        same_below_top(st, eval_expr(st, e, fuel).0),
    decreases fuel, 0int,
{
    if fuel > 0 {
        let f = (fuel - 1) as nat;
        match e {
            ExprModel::Definition(name, value) => {
                lemma_eval_keeps_frames(st, *value, f);
            },
            ExprModel::If(c, y, n) => {
                lemma_eval_keeps_frames(st, *c, f);
                let st1 = eval_expr(st, *c, f).0;
                lemma_eval_keeps_frames(st1, *y, f);
                if let Some(ne) = n {
                    lemma_eval_keeps_frames(st1, *ne, f);
                }
            },
            ExprModel::Eval(inner) => {
                lemma_eval_keeps_frames(st, *inner, f);
                let (st1, r) = eval_expr(st, *inner, f);
                if let Ok(ValueModel::Quoted(q)) = r {
                    lemma_eval_keeps_frames(st1, *q, f);
                }
            },
            ExprModel::List(es) => {
                if es.len() > 0 {
                    lemma_eval_keeps_frames(st, es[0], f);
                    let st1 = eval_expr(st, es[0], f).0;
                    lemma_args_keep_frames(st1, es, es.len() as int, f);
                }
            },
            _ => {},
        }
    }
}

pub proof fn lemma_args_keep_frames(st: Stack, es: Seq<ExprModel>, n: int, fuel: nat)
    requires
        st.len() >= 1,
    ensures
        same_below_top(st, eval_args(st, es, n, fuel).0),
    decreases fuel, n,
{
    if 1 < n <= es.len() {
        lemma_args_keep_frames(st, es, n - 1, fuel);
        let st1 = eval_args(st, es, n - 1, fuel).0;
        lemma_eval_keeps_frames(st1, es[n - 1], fuel);
    }
}

pub proof fn lemma_body_keeps_frames(st: Stack, body: Seq<ExprModel>, n: int, fuel: nat)
    requires
        st.len() >= 1,
    ensures
        same_below_top(st, eval_body(st, body, n, fuel).0),
    decreases fuel, n,
{
    if 0 < n <= body.len() {
        if n == 1 {
            lemma_eval_keeps_frames(st, body[0], fuel);
        } else {
            lemma_body_keeps_frames(st, body, n - 1, fuel);
            let st1 = eval_body(st, body, n - 1, fuel).0;
            lemma_eval_keeps_frames(st1, body[n - 1], fuel);
        }
    }
}

} // verus!
