//! Laws of the language, proved over the spec functions that the
//! executable code is verified against.
use vstd::prelude::*;
use crate::expression::{ExprModel, ProcModel, ValueModel, lower, lower_form, quote_of, quoted_expr};
use crate::list::NodeModel;
use crate::semantics::{
    Stack, apply, apply_builtin, depth_message, eval_args, eval_expr, lemma_eval_keeps_frames,
    lookup, numbers, numeric_args, product_of, sum_of,
};

verus! {

/// A literal evaluates to itself and leaves the environment alone.
pub proof fn law_literal(st: Stack, v: ValueModel, fuel: nat)
    requires
        fuel >= 1,
    ensures
        eval_expr(st, ExprModel::Value(v), fuel) == (st, Ok::<ValueModel, Seq<char>>(v)),
{
}

/// An identifier bound in the innermost scope evaluates to its value.
pub proof fn law_identifier_top(st: Stack, name: Seq<char>, v: ValueModel, fuel: nat)
    requires
        fuel >= 1,
        st.len() >= 1,
        st.last().contains_key(name),
        st.last()[name] == v,
    ensures
        eval_expr(st, ExprModel::Identifier(name), fuel) == (st, Ok::<ValueModel, Seq<char>>(v)),
{
}

/// Lookup finds the binding of the innermost scope that has one.
pub proof fn lemma_lookup_innermost(st: Stack, i: int, name: Seq<char>)
    requires
        0 <= i < st.len(),
        st[i].contains_key(name),
        forall|k: int| i < k < st.len() ==> !(#[trigger] st[k]).contains_key(name),
    ensures
        lookup(st, name) == Some(st[i][name]),
    decreases st.len(),
{
    if i < st.len() - 1 {
        lemma_lookup_innermost(st.drop_last(), i, name);
    }
}

/// Shadowing: when a name is bound in scope `n` and in scope `n + 1`, and no
/// scope further in binds it, lookup gives the binding of scope `n + 1`.
pub proof fn law_shadowing(st: Stack, n: int, name: Seq<char>)
    requires
        0 <= n,
        n + 1 < st.len(),
        st[n].contains_key(name),
        st[n + 1].contains_key(name),
        forall|k: int| n + 1 < k < st.len() ==> !(#[trigger] st[k]).contains_key(name),
    ensures
        lookup(st, name) == Some(st[n + 1][name]),
{
    lemma_lookup_innermost(st, n + 1, name);
}

/// Frame balance: whatever it returns, success or error, evaluation leaves
/// as many scopes as it found, and only the innermost may have changed.
/// (A call's own scope is always dropped again.)
pub proof fn law_frame_balance(st: Stack, e: ExprModel, fuel: nat)
    requires
        st.len() >= 1,
    ensures
        eval_expr(st, e, fuel).0.len() == st.len(),
        forall|i: int| 0 <= i < st.len() - 1 ==> #[trigger] eval_expr(st, e, fuel).0[i] == st[i],
{
    lemma_eval_keeps_frames(st, e, fuel);
}

/// Quotation and `eval` undo each other: `(eval (quote e))` gives what `e`
/// gives, environment included, at one more level of nesting.
pub proof fn law_eval_quote(st: Stack, e: ExprModel, fuel: nat)
    ensures
        eval_expr(
            st,
            ExprModel::Eval(Box::new(ExprModel::Value(ValueModel::Quoted(Box::new(e))))),
            fuel + 1,
        ) == eval_expr(st, e, fuel),
{
    let q = ExprModel::Value(ValueModel::Quoted(Box::new(e)));
    if fuel == 0 {
        assert(eval_expr(st, q, 0) == (st, Err::<ValueModel, Seq<char>>(depth_message())));
        assert(eval_expr(st, e, 0) == (st, Err::<ValueModel, Seq<char>>(depth_message())));
    } else {
        assert(eval_expr(st, q, fuel) == (st, Ok::<ValueModel, Seq<char>>(ValueModel::Quoted(Box::new(e)))));
    }
}

proof fn lemma_numbers_concat(a: Seq<ValueModel>, b: Seq<ValueModel>, n: int)
    requires
        0 <= n <= b.len(),
    ensures
        numbers(a + b, a.len() + n) == numbers(a, a.len() as int) + numbers(b, n),
    decreases n,
{
    if n == 0 {
        assert(numbers(a + b, a.len() as int) == numbers(a, a.len() as int)) by {
            lemma_numbers_prefix(a, b, a.len() as int);
        }
        assert(numbers(a, a.len() as int) + numbers(b, 0) =~= numbers(a, a.len() as int));
    } else {
        lemma_numbers_concat(a, b, n - 1);
        assert((a + b)[a.len() + n - 1] == b[n - 1]);
        assert(numbers(a + b, a.len() + n) =~= numbers(a, a.len() as int) + numbers(b, n));
    }
}

proof fn lemma_numbers_prefix(a: Seq<ValueModel>, b: Seq<ValueModel>, n: int)
    requires
        0 <= n <= a.len(),
    ensures
        numbers(a + b, n) == numbers(a, n),
    decreases n,
{
    if n > 0 {
        lemma_numbers_prefix(a, b, n - 1);
        assert((a + b)[n - 1] == a[n - 1]);
    }
}

/// The numbers among concatenated arguments are those of each part.
pub proof fn lemma_numeric_args_concat(a: Seq<ValueModel>, b: Seq<ValueModel>)
    ensures
        numeric_args(a + b) == numeric_args(a) + numeric_args(b),
{
    lemma_numbers_concat(a, b, b.len() as int);
}

pub proof fn lemma_sum_concat(a: Seq<i64>, b: Seq<i64>)
    ensures
        sum_of(a + b) == sum_of(a) + sum_of(b),
    decreases b.len(),
{
    if b.len() > 0 {
        lemma_sum_concat(a, b.drop_last());
        assert((a + b).drop_last() =~= a + b.drop_last());
    } else {
        assert(a + b =~= a);
    }
}

pub proof fn lemma_product_concat(a: Seq<i64>, b: Seq<i64>)
    ensures
        product_of(a + b) == product_of(a) * product_of(b),
    decreases b.len(),
{
    if b.len() > 0 {
        lemma_product_concat(a, b.drop_last());
        assert((a + b).drop_last() =~= a + b.drop_last());
        let pa = product_of(a);
        let pb = product_of(b.drop_last());
        let x = b.last() as int;
        assert(pa * pb * x == pa * (pb * x)) by (nonlinear_arith);
    } else {
        assert(a + b =~= a);
    }
}

/// `+` is commutative: swapping two runs of arguments changes nothing.
pub proof fn law_sum_commutative(xs: Seq<ValueModel>, ys: Seq<ValueModel>)
    ensures
        apply_builtin(ProcModel::Sum, xs + ys) == apply_builtin(ProcModel::Sum, ys + xs),
{
    lemma_numeric_args_concat(xs, ys);
    lemma_numeric_args_concat(ys, xs);
    lemma_sum_concat(numeric_args(xs), numeric_args(ys));
    lemma_sum_concat(numeric_args(ys), numeric_args(xs));
}

/// `*` is commutative: swapping two runs of arguments changes nothing.
pub proof fn law_product_commutative(xs: Seq<ValueModel>, ys: Seq<ValueModel>)
    ensures
        apply_builtin(ProcModel::Product, xs + ys) == apply_builtin(ProcModel::Product, ys + xs),
{
    lemma_numeric_args_concat(xs, ys);
    lemma_numeric_args_concat(ys, xs);
    lemma_product_concat(numeric_args(xs), numeric_args(ys));
    lemma_product_concat(numeric_args(ys), numeric_args(xs));
    let p = product_of(numeric_args(xs));
    let q = product_of(numeric_args(ys));
    assert(p * q == q * p) by (nonlinear_arith);
}

proof fn lemma_sum_remove(t: Seq<i64>, j: int)
    requires
        0 <= j < t.len(),
    ensures
        sum_of(t) == sum_of(t.remove(j)) + t[j],
{
    let a = t.take(j);
    let b = t.skip(j + 1);
    assert(t =~= a + (seq![t[j]] + b));
    assert(t.remove(j) =~= a + b);
    lemma_sum_concat(a, seq![t[j]] + b);
    lemma_sum_concat(seq![t[j]], b);
    lemma_sum_concat(a, b);
    assert(sum_of(seq![t[j]]) == t[j]) by {
        assert(seq![t[j]].drop_last() =~= Seq::<i64>::empty());
        assert(sum_of(Seq::<i64>::empty()) == 0);
    }
}

proof fn lemma_product_remove(t: Seq<i64>, j: int)
    requires
        0 <= j < t.len(),
    ensures
        product_of(t) == product_of(t.remove(j)) * t[j],
{
    let a = t.take(j);
    let b = t.skip(j + 1);
    assert(t =~= a + (seq![t[j]] + b));
    assert(t.remove(j) =~= a + b);
    lemma_product_concat(a, seq![t[j]] + b);
    lemma_product_concat(seq![t[j]], b);
    lemma_product_concat(a, b);
    assert(product_of(seq![t[j]]) == t[j]) by {
        assert(seq![t[j]].drop_last() =~= Seq::<i64>::empty());
        assert(product_of(Seq::<i64>::empty()) == 1);
    }
    let pa = product_of(a);
    let pb = product_of(b);
    let x = t[j] as int;
    assert(pa * (x * pb) == pa * pb * x) by (nonlinear_arith);
}

/// A sum does not depend on the order of its terms.
pub proof fn lemma_sum_reordered(s: Seq<i64>, t: Seq<i64>)
    requires
        s.to_multiset() == t.to_multiset(),
    ensures
        sum_of(s) == sum_of(t),
    decreases s.len(),
{
    broadcast use vstd::seq_lib::group_to_multiset_ensures, vstd::multiset::group_multiset_axioms;

    if s.len() == 0 {
        assert(s.to_multiset().len() == 0);
        assert(t.to_multiset().len() == 0);
        assert(t.len() == 0);
    } else {
        let x = s.last();
        let rest = s.drop_last();
        assert(s =~= rest.push(x));
        assert(t.to_multiset().count(x) > 0);
        assert(t.contains(x));
        let j = choose|j: int| 0 <= j < t.len() && t[j] == x;
        assert(t.remove(j).to_multiset() =~= rest.to_multiset());
        lemma_sum_reordered(rest, t.remove(j));
        lemma_sum_remove(t, j);
    }
}

/// A product does not depend on the order of its factors.
pub proof fn lemma_product_reordered(s: Seq<i64>, t: Seq<i64>)
    requires
        s.to_multiset() == t.to_multiset(),
    ensures
        product_of(s) == product_of(t),
    decreases s.len(),
{
    broadcast use vstd::seq_lib::group_to_multiset_ensures, vstd::multiset::group_multiset_axioms;

    if s.len() == 0 {
        assert(s.to_multiset().len() == 0);
        assert(t.to_multiset().len() == 0);
        assert(t.len() == 0);
    } else {
        let x = s.last();
        let rest = s.drop_last();
        assert(s =~= rest.push(x));
        assert(t.to_multiset().count(x) > 0);
        assert(t.contains(x));
        let j = choose|j: int| 0 <= j < t.len() && t[j] == x;
        assert(t.remove(j).to_multiset() =~= rest.to_multiset());
        lemma_product_reordered(rest, t.remove(j));
        lemma_product_remove(t, j);
    }
}

/// `+` is commutative in full: arguments whose numbers are the same up to
/// order (other values anywhere among them) give the same result.
pub proof fn law_sum_reordered(xs: Seq<ValueModel>, ys: Seq<ValueModel>)
    requires
        numeric_args(xs).to_multiset() == numeric_args(ys).to_multiset(),
    ensures
        apply_builtin(ProcModel::Sum, xs) == apply_builtin(ProcModel::Sum, ys),
{
    lemma_sum_reordered(numeric_args(xs), numeric_args(ys));
}

/// `*` is commutative in full: arguments whose numbers are the same up to
/// order (other values anywhere among them) give the same result.
pub proof fn law_product_reordered(xs: Seq<ValueModel>, ys: Seq<ValueModel>)
    requires
        numeric_args(xs).to_multiset() == numeric_args(ys).to_multiset(),
    ensures
        apply_builtin(ProcModel::Product, xs) == apply_builtin(ProcModel::Product, ys),
{
    lemma_product_reordered(numeric_args(xs), numeric_args(ys));
}

/// `+` is associative: when `(+ xs)` gives a number, adding it to `ys` is
/// adding all of `xs` and `ys`, on either side.
pub proof fn law_sum_associative(xs: Seq<ValueModel>, ys: Seq<ValueModel>, v: ValueModel)
    requires
        apply_builtin(ProcModel::Sum, xs) == Ok::<ValueModel, Seq<char>>(v),
    ensures
        apply_builtin(ProcModel::Sum, seq![v] + ys) == apply_builtin(ProcModel::Sum, xs + ys),
        apply_builtin(ProcModel::Sum, ys + seq![v]) == apply_builtin(ProcModel::Sum, ys + xs),
{
    let n = v->Num_0;
    assert(numbers(seq![v], 0) == Seq::<i64>::empty());
    assert(numeric_args(seq![v]) =~= seq![n]);
    assert(sum_of(seq![n]) == n) by {
        assert(seq![n].drop_last() =~= Seq::<i64>::empty());
        assert(sum_of(Seq::<i64>::empty()) == 0);
    }
    lemma_numeric_args_concat(seq![v], ys);
    lemma_numeric_args_concat(xs, ys);
    lemma_numeric_args_concat(ys, seq![v]);
    lemma_numeric_args_concat(ys, xs);
    lemma_sum_concat(seq![n], numeric_args(ys));
    lemma_sum_concat(numeric_args(xs), numeric_args(ys));
    lemma_sum_concat(numeric_args(ys), seq![n]);
    lemma_sum_concat(numeric_args(ys), numeric_args(xs));
}

/// `*` is associative: when `(* xs)` gives a number, multiplying it with
/// `ys` is multiplying all of `xs` and `ys`, on either side.
pub proof fn law_product_associative(xs: Seq<ValueModel>, ys: Seq<ValueModel>, v: ValueModel)
    requires
        apply_builtin(ProcModel::Product, xs) == Ok::<ValueModel, Seq<char>>(v),
    ensures
        apply_builtin(ProcModel::Product, seq![v] + ys) == apply_builtin(ProcModel::Product, xs + ys),
        apply_builtin(ProcModel::Product, ys + seq![v]) == apply_builtin(ProcModel::Product, ys + xs),
{
    let n = v->Num_0;
    assert(numbers(seq![v], 0) == Seq::<i64>::empty());
    assert(numeric_args(seq![v]) =~= seq![n]);
    assert(product_of(seq![n]) == n) by {
        assert(seq![n].drop_last() =~= Seq::<i64>::empty());
        assert(product_of(Seq::<i64>::empty()) == 1);
    }
    lemma_numeric_args_concat(seq![v], ys);
    lemma_numeric_args_concat(xs, ys);
    lemma_numeric_args_concat(ys, seq![v]);
    lemma_numeric_args_concat(ys, xs);
    lemma_product_concat(seq![n], numeric_args(ys));
    lemma_product_concat(numeric_args(xs), numeric_args(ys));
    lemma_product_concat(numeric_args(ys), seq![n]);
    lemma_product_concat(numeric_args(ys), numeric_args(xs));
}

/// In source form too: `(eval (quote x))` lowers to `eval` applied to the
/// quoted lowering of `x`, and fails exactly when `x` does.
pub proof fn law_lower_eval_quote(x: NodeModel)
    ensures
        lower(
            NodeModel::Node(
                false,
                seq![
                    NodeModel::Identifier(false, "eval"@),
                    NodeModel::Node(false, seq![NodeModel::Identifier(false, "quote"@), x]),
                ],
            ),
        ) == match lower(x) {
            Ok(e) => Ok(ExprModel::Eval(Box::new(quoted_expr(e)))),
            Err(s) => Err::<ExprModel, Seq<char>>(s),
        },
{
    reveal_strlit("eval");
    reveal_strlit("quote");
    reveal_strlit("lambda");
    reveal_strlit("define");
    reveal_strlit("if");
    let q = seq![NodeModel::Identifier(false, "quote"@), x];
    assert("quote"@[0] != "lambda"@[0]);
    assert("quote"@[0] != "define"@[0]);
    assert("quote"@[0] != "if"@[0]);
    assert("eval"@[0] != "lambda"@[0]);
    assert("eval"@[0] != "define"@[0]);
    assert("eval"@[0] != "if"@[0]);
    assert("eval"@[0] != "quote"@[0]);
    assert(lower_form(q) == quote_of(lower(x)));
    assert(lower(NodeModel::Node(false, q)) == quote_of(lower(x)));
    let outer = seq![NodeModel::Identifier(false, "eval"@), NodeModel::Node(false, q)];
    assert(outer[1] == NodeModel::Node(false, q));
    assert(lower_form(outer) == match lower(NodeModel::Node(false, q)) {
        Ok(e) => Ok(ExprModel::Eval(Box::new(e))),
        Err(s) => Err::<ExprModel, Seq<char>>(s),
    });
}

/// `(not (not b))` gives `b` for a boolean literal `b`, wherever `not`
/// names the built-in.
pub proof fn law_double_negation(st: Stack, b: bool, fuel: nat)
    requires
        fuel >= 3,
        lookup(st, "not"@) == Some(ValueModel::Proc(ProcModel::Not)),
    ensures
        eval_expr(
            st,
            ExprModel::List(
                seq![
                    ExprModel::Identifier("not"@),
                    ExprModel::List(
                        seq![ExprModel::Identifier("not"@), ExprModel::Value(ValueModel::Bool(b))],
                    ),
                ],
            ),
            fuel,
        ) == (st, Ok::<ValueModel, Seq<char>>(ValueModel::Bool(b))),
{
    let inner = ExprModel::List(
        seq![ExprModel::Identifier("not"@), ExprModel::Value(ValueModel::Bool(b))],
    );
    let outer = ExprModel::List(seq![ExprModel::Identifier("not"@), inner]);
    let f1 = (fuel - 1) as nat;
    let f2 = (fuel - 2) as nat;
    let ies = seq![ExprModel::Identifier("not"@), ExprModel::Value(ValueModel::Bool(b))];
    let oes = seq![ExprModel::Identifier("not"@), inner];
    let not_proc = Ok::<ValueModel, Seq<char>>(ValueModel::Proc(ProcModel::Not));
    assert(eval_expr(st, ExprModel::Identifier("not"@), f2) == (st, not_proc));
    assert(eval_expr(st, ExprModel::Identifier("not"@), f1) == (st, not_proc));
    assert(eval_expr(st, ies[1], f2) == (st, Ok::<ValueModel, Seq<char>>(ValueModel::Bool(b))));
    assert(eval_args(st, ies, 1, f2) == (st, Ok::<Seq<ValueModel>, Seq<char>>(Seq::empty())));
    assert(eval_args(st, ies, 2, f2) == (st, Ok::<Seq<ValueModel>, Seq<char>>(seq![ValueModel::Bool(b)])));
    assert(apply(st, ProcModel::Not, seq![ValueModel::Bool(b)], f2) == Ok::<ValueModel, Seq<char>>(
        ValueModel::Bool(!b),
    ));
    assert(eval_expr(st, inner, f1) == (st, Ok::<ValueModel, Seq<char>>(ValueModel::Bool(!b))));
    assert(eval_args(st, oes, 1, f1) == (st, Ok::<Seq<ValueModel>, Seq<char>>(Seq::empty())));
    assert(eval_args(st, oes, 2, f1) == (st, Ok::<Seq<ValueModel>, Seq<char>>(seq![ValueModel::Bool(!b)])));
    assert(apply(st, ProcModel::Not, seq![ValueModel::Bool(!b)], f1) == Ok::<ValueModel, Seq<char>>(
        ValueModel::Bool(b),
    ));
}

} // verus!
