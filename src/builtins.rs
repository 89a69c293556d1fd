//! The built-in procedures on argument values.
use vstd::prelude::*;
use crate::expression::{LValue, ValueModel};
use crate::semantics::{
    Outcome, apply_builtin, checked, comparison_arity_message, difference_of, division_of,
    divide_by, equal_arity_message, fold_bools, numbers, numeric_args, ordering_test, product_of,
    sum_of, text_order, quotient,
};
use crate::text::{owned, chars_of};

verus! {

pub open spec fn values_view(v: Seq<LValue>) -> Seq<ValueModel> {
    v.map_values(|x: LValue| x@)
}

pub open spec fn outcome_view(r: Result<LValue, String>) -> Outcome {
    match r {
        Ok(v) => Ok(v@),
        Err(s) => Err(s@),
    }
}

const BOUND: i128 = 0x8000_0000_0000_0000;

/// The numbers among the arguments, in order.
pub fn numeric_values(args: &Vec<LValue>) -> (r: Vec<i64>)
    ensures
        r@ == numeric_args(values_view(args@)),
{
    let ghost vs = values_view(args@);
    let mut r: Vec<i64> = Vec::new();
    let mut i: usize = 0;
    while i < args.len()
        invariant
            i <= args.len(),
            vs == values_view(args@),
            r@ == numbers(vs, i as int),
        decreases args.len() - i,
    {
        assert(vs[i as int] == args@[i as int]@);
        if let LValue::NumericalValue(x) = &args[i] {
            r.push(*x);
        }
        i = i + 1;
    }
    r
}

/// The exact sum of `ns[lo..]`.
fn exact_sum(ns: &Vec<i64>, lo: usize) -> (r: i128)
    requires
        lo <= ns.len(),
    ensures
        r == sum_of(ns@.skip(lo as int)),
        -((ns@.len() - lo) * BOUND) <= r <= (ns@.len() - lo) * BOUND,
{
    let mut acc: i128 = 0;
    let mut i: usize = lo;
    assert(ns@.subrange(lo as int, lo as int) =~= Seq::<i64>::empty());
    while i < ns.len()
        invariant
            lo <= i <= ns.len(),
            acc == sum_of(ns@.subrange(lo as int, i as int)),
            -((i - lo) * BOUND) <= acc <= (i - lo) * BOUND,
        decreases ns.len() - i,
    {
        assert(ns@.subrange(lo as int, i + 1).drop_last() =~= ns@.subrange(lo as int, i as int));
        acc = acc + ns[i] as i128;
        i = i + 1;
    }
    assert(ns@.subrange(lo as int, i as int) =~= ns@.skip(lo as int));
    acc
}

fn checked_value(x: i128) -> (r: Result<LValue, String>)
    ensures
        outcome_view(r) == checked(x as int),
{
    if -BOUND <= x && x < BOUND {
        Ok(LValue::NumericalValue(x as i64))
    } else {
        Err(owned("Arithmetic overflow."))
    }
}

/// `+`: the sum of the numeric arguments.
pub fn sum_values(args: &Vec<LValue>) -> (r: Result<LValue, String>)
    ensures
        outcome_view(r) == checked(sum_of(numeric_args(values_view(args@)))),
{
    let ns = numeric_values(args);
    assert(ns@.skip(0) =~= ns@);
    checked_value(exact_sum(&ns, 0))
}

/// `-`: negation of a single number, else the first minus the rest.
pub fn difference_values(args: &Vec<LValue>) -> (r: Result<LValue, String>)
    ensures
        outcome_view(r) == difference_of(numeric_args(values_view(args@))),
{
    let ns = numeric_values(args);
    if ns.len() == 0 {
        Ok(LValue::NumericalValue(0))
    } else if ns.len() == 1 {
        checked_value(0 - ns[0] as i128)
    } else {
        let rest = exact_sum(&ns, 1);
        checked_value(ns[0] as i128 - rest)
    }
}

proof fn lemma_product_zero(ns: Seq<i64>, j: int)
    requires
        0 <= j < ns.len(),
        ns[j] == 0,
    ensures
        product_of(ns) == 0,
    decreases ns.len(),
{
    if j < ns.len() - 1 {
        lemma_product_zero(ns.drop_last(), j);
    }
}

proof fn lemma_product_grows(ns: Seq<i64>, k: int)
    requires
        0 <= k <= ns.len(),
        forall|j: int| 0 <= j < ns.len() ==> #[trigger] ns[j] != 0,
    ensures
        abs(product_of(ns.take(k))) <= abs(product_of(ns)),
    decreases ns.len() - k,
{
    if k < ns.len() {
        lemma_product_grows(ns, k + 1);
        let p = product_of(ns.take(k));
        let x = ns[k] as int;
        assert(ns.take(k + 1).drop_last() =~= ns.take(k));
        assert(abs(p) <= abs(p * x)) by (nonlinear_arith)
            requires
                x != 0,
        ;
    } else {
        assert(ns.take(k) =~= ns);
    }
}

pub open spec fn abs(x: int) -> int {
    if x >= 0 {
        x
    } else {
        -x
    }
}

/// `*`: the product of the numeric arguments.
pub fn product_values(args: &Vec<LValue>) -> (r: Result<LValue, String>)
    ensures
        outcome_view(r) == checked(product_of(numeric_args(values_view(args@)))),
{
    let ns = numeric_values(args);
    let mut i: usize = 0;
    while i < ns.len()
        invariant
            i <= ns.len(),
            ns@ == numeric_args(values_view(args@)),
            forall|j: int| 0 <= j < i ==> #[trigger] ns@[j] != 0,
        decreases ns.len() - i,
    {
        if ns[i] == 0 {
            proof {
                lemma_product_zero(ns@, i as int);
            }
            return Ok(LValue::NumericalValue(0));
        }
        i = i + 1;
    }
    let mut acc: i128 = 1;
    let mut i: usize = 0;
    assert(ns@.take(0) =~= Seq::<i64>::empty());
    while i < ns.len()
        invariant
            i <= ns.len(),
            ns@ == numeric_args(values_view(args@)),
            forall|j: int| 0 <= j < ns.len() ==> #[trigger] ns@[j] != 0,
            acc == product_of(ns@.take(i as int)),
            -BOUND <= acc <= BOUND,
        decreases ns.len() - i,
    {
        assert(ns@.take(i + 1).drop_last() =~= ns@.take(i as int));
        let x = ns[i] as i128;
        assert(-BOUND * BOUND <= acc * x <= BOUND * BOUND) by (nonlinear_arith)
            requires
                -BOUND <= acc <= BOUND,
                -BOUND <= x <= BOUND,
        ;
        acc = acc * x;
        i = i + 1;
        if acc > BOUND || acc < -BOUND {
            proof {
                lemma_product_grows(ns@, i as int);
            }
            return Err(owned("Arithmetic overflow."));
        }
    }
    assert(ns@.take(i as int) =~= ns@);
    checked_value(acc)
}

/// Division truncating toward zero.
fn truncating_quotient(a: i128, b: i128) -> (r: i128)
    requires
        b != 0,
        -BOUND <= a <= BOUND,
        -BOUND <= b <= BOUND,
    ensures
        r == quotient(a as int, b as int),
{
    let ua: u128 = if a >= 0 { a as u128 } else { (0 - a) as u128 };
    let ub: u128 = if b >= 0 { b as u128 } else { (0 - b) as u128 };
    let q: u128 = ua / ub;
    assert(q <= ua) by (nonlinear_arith)
        requires
            ub >= 1,
            q == ua / ub,
    ;
    if (a >= 0) == (b > 0) || q == 0 {
        q as i128
    } else {
        0 - q as i128
    }
}

/// `/`: the reciprocal of a single number, else the first divided by the
/// rest in turn.
pub fn division_values(args: &Vec<LValue>) -> (r: Result<LValue, String>)
    ensures
        outcome_view(r) == division_of(numeric_args(values_view(args@))),
{
    let ns = numeric_values(args);
    if ns.len() == 0 {
        return Ok(LValue::NumericalValue(1));
    }
    let mut acc: i128;
    let mut i: usize;
    if ns.len() == 1 {
        acc = 1;
        i = 0;
    } else {
        acc = ns[0] as i128;
        i = 1;
    }
    while i < ns.len()
        invariant
            i <= ns.len(),
            -BOUND <= acc < BOUND,
            ns@ == numeric_args(values_view(args@)),
            division_of(ns@) == divide_by(acc as int, ns@, i as int),
        decreases ns.len() - i,
    {
        if ns[i] == 0 {
            return Err(owned("Division by zero."));
        }
        let q = truncating_quotient(acc, ns[i] as i128);
        if !(-BOUND <= q && q < BOUND) {
            return Err(owned("Arithmetic overflow."));
        }
        acc = q;
        i = i + 1;
    }
    checked_value(acc)
}

/// `and` (when `conj`) or `or` over the coerced arguments.
fn fold_booleans(args: &Vec<LValue>, conj: bool) -> (r: Result<bool, String>)
    ensures
        match r {
            Ok(b) => fold_bools(values_view(args@), args@.len() as int, conj) == Ok::<bool, Seq<char>>(b),
            Err(s) => fold_bools(values_view(args@), args@.len() as int, conj) == Err::<bool, Seq<char>>(s@),
        },
{
    let ghost vs = values_view(args@);
    let mut acc = conj;
    let mut i: usize = 0;
    while i < args.len()
        invariant
            i <= args.len(),
            vs == values_view(args@),
            fold_bools(vs, i as int, conj) == Ok::<bool, Seq<char>>(acc),
        decreases args.len() - i,
    {
        assert(vs[i as int] == args@[i as int]@);
        match args[i].to_boolean() {
            Ok(b) => {
                acc = if conj { acc && b } else { acc || b };
            },
            Err(s) => {
                proof {
                    lemma_fold_bools_err(vs, i + 1, args@.len() as int, conj);
                }
                return Err(s);
            },
        }
        i = i + 1;
    }
    Ok(acc)
}

proof fn lemma_fold_bools_err(args: Seq<ValueModel>, k: int, n: int, conj: bool)
    requires
        0 < k <= n <= args.len(),
        fold_bools(args, k, conj) is Err,
    ensures
        fold_bools(args, n, conj) == fold_bools(args, k, conj),
    decreases n - k,
{
    if k < n {
        lemma_fold_bools_err(args, k, n - 1, conj);
    }
}

/// `and` or `or`: at least two operands.
pub fn connective(args: &Vec<LValue>, conj: bool) -> (r: Result<LValue, String>)
    ensures
        outcome_view(r) == apply_builtin(
            if conj { crate::expression::ProcModel::And } else { crate::expression::ProcModel::Or },
            values_view(args@),
        ),
{
    if args.len() < 2 {
        if conj {
            return Err(owned("'And' requires at least two operands."));
        } else {
            return Err(owned("'Or' requires at least two operands."));
        }
    }
    match fold_booleans(args, conj) {
        Ok(b) => Ok(LValue::BooleanValue(b)),
        Err(s) => Err(s),
    }
}

/// `not`: exactly one operand.
pub fn negation(args: &Vec<LValue>) -> (r: Result<LValue, String>)
    ensures
        outcome_view(r) == apply_builtin(crate::expression::ProcModel::Not, values_view(args@)),
{
    if args.len() != 1 {
        return Err(owned("'Not' requires a single argument."));
    }
    assert(values_view(args@)[0] == args@[0]@);
    match args[0].to_boolean() {
        Ok(b) => Ok(LValue::BooleanValue(!b)),
        Err(s) => Err(s),
    }
}

/// `=`, `<` or `>`: exactly two comparable operands.
pub fn ordering_values(
    args: &Vec<LValue>,
    wanted: core::cmp::Ordering,
    equality: bool,
) -> (r: Result<LValue, String>)
    ensures
        outcome_view(r) == ordering_test(
            values_view(args@),
            if equality { equal_arity_message() } else { comparison_arity_message() },
            wanted,
        ),
{
    if args.len() != 2 {
        if equality {
            return Err(owned("Equality test needs two arguments."));
        } else {
            return Err(owned("Comparison test needs two arguments."));
        }
    }
    assert(values_view(args@)[0] == args@[0]@);
    assert(values_view(args@)[1] == args@[1]@);
    match args[0].compare(&args[1]) {
        Ok(o) => {
            let same = match (o, wanted) {
                (core::cmp::Ordering::Less, core::cmp::Ordering::Less) => true,
                (core::cmp::Ordering::Equal, core::cmp::Ordering::Equal) => true,
                (core::cmp::Ordering::Greater, core::cmp::Ordering::Greater) => true,
                _ => false,
            };
            Ok(LValue::BooleanValue(same))
        },
        Err(s) => Err(s),
    }
}

/// Lexicographic order of two strings, character by character.
pub fn text_compare(a: &String, b: &String) -> (r: core::cmp::Ordering)
    ensures
        r == text_order(a@, b@),
{
    let x = chars_of(a);
    let y = chars_of(b);
    let mut i: usize = 0;
    assert(x@.skip(0) =~= x@);
    assert(y@.skip(0) =~= y@);
    while i < x.len() && i < y.len()
        invariant
            i <= x.len(),
            i <= y.len(),
            x@ == a@,
            y@ == b@,
            text_order(x@, y@) == text_order(x@.skip(i as int), y@.skip(i as int)),
        decreases x.len() - i,
    {
        assert(x@.skip(i as int)[0] == x@[i as int]);
        assert(y@.skip(i as int)[0] == y@[i as int]);
        if x[i] < y[i] {
            return core::cmp::Ordering::Less;
        }
        if x[i] > y[i] {
            return core::cmp::Ordering::Greater;
        }
        assert(x@.skip(i as int).skip(1) =~= x@.skip(i + 1));
        assert(y@.skip(i as int).skip(1) =~= y@.skip(i + 1));
        i = i + 1;
    }
    assert(x@.skip(i as int).len() == x@.len() - i);
    assert(y@.skip(i as int).len() == y@.len() - i);
    if i == x.len() && i == y.len() {
        core::cmp::Ordering::Equal
    } else if i == x.len() {
        core::cmp::Ordering::Less
    } else {
        core::cmp::Ordering::Greater
    }
}

} // verus!
