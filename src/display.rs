//! How values are printed; a quoted expression is shown as source text.
use vstd::prelude::*;
use vstd::string::StringExecFns;
use crate::expression::{
    Expression, ExprModel, LValue, ProcModel, Procedure, ValueModel, exprs_model, lemma_exprs_view,
    names_view,
};
use crate::text::{int_text, integer_text};

verus! {

broadcast use vstd::std_specs::vec::group_vec_axioms;

pub open spec fn procedure_name(p: ProcModel) -> Seq<char> {
    match p {
        ProcModel::UserDefined(_, _) => "user-defined"@,
        ProcModel::Sum => "+"@,
        ProcModel::Difference => "-"@,
        ProcModel::Product => "*"@,
        ProcModel::Division => "/"@,
        ProcModel::Equal => "="@,
        ProcModel::Less => "<"@,
        ProcModel::Greater => ">"@,
        ProcModel::And => "and"@,
        ProcModel::Or => "or"@,
        ProcModel::Not => "not"@,
    }
}

/// Parameter names separated by single spaces.
pub open spec fn join_names(ns: Seq<Seq<char>>, n: int) -> Seq<char>
    decreases n,
{
    if n <= 0 || n > ns.len() {
        Seq::empty()
    } else if n == 1 {
        ns[0]
    } else {
        join_names(ns, n - 1) + " "@ + ns[n - 1]
    }
}

/// Expressions rendered and separated by single spaces.
pub open spec fn render_seq(es: Seq<ExprModel>, n: int) -> Seq<char>
    decreases es, n,
{
    if n <= 0 || n > es.len() {
        Seq::empty()
    } else if n == 1 {
        render(es[0])
    } else {
        render_seq(es, n - 1) + " "@ + render(es[n - 1])
    }
}

/// A procedure as source text: a lambda is written out, a built-in is named.
pub open spec fn render_proc(p: ProcModel) -> Seq<char>
    decreases p, 0int,
{
    match p {
        ProcModel::UserDefined(params, body) => "(lambda ("@ + join_names(params, params.len() as int)
            + ")"@ + (if body.len() == 0 {
            Seq::empty()
        } else {
            " "@ + render_seq(body, body.len() as int)
        }) + ")"@,
        _ => "#<procedure>:"@ + procedure_name(p),
    }
}

/// A literal value as source text.
pub open spec fn render_value(v: ValueModel) -> Seq<char>
    decreases v, 0int,
{
    match v {
        ValueModel::Str(s) => "\""@ + s + "\""@,
        ValueModel::Num(n) => int_text(n as int),
        ValueModel::Bool(b) => if b {
            "#t"@
        } else {
            "#f"@
        },
        ValueModel::Quoted(e) => "'"@ + render(*e),
        ValueModel::Proc(p) => render_proc(p),
        ValueModel::Undefined => "#<undefined>"@,
    }
}

/// An expression as source text.
pub open spec fn render(e: ExprModel) -> Seq<char>
    decreases e, 0int,
{
    match e {
        ExprModel::List(es) => "("@ + render_seq(es, es.len() as int) + ")"@,
        ExprModel::Eval(x) => "(eval "@ + render(*x) + ")"@,
        ExprModel::Definition(name, x) => "(define "@ + name + " "@ + render(*x) + ")"@,
        ExprModel::Lambda(p) => render_proc(p),
        ExprModel::Identifier(s) => s,
        ExprModel::Value(v) => render_value(v),
        ExprModel::If(c, y, n) => "(if "@ + render(*c) + " "@ + render(*y) + (match n {
            Some(x) => " "@ + render(*x),
            None => Seq::empty(),
        }) + ")"@,
    }
}

/// How a value is printed.
pub open spec fn show_value(v: ValueModel) -> Seq<char> {
    match v {
        ValueModel::Str(s) => "\""@ + s + "\""@,
        ValueModel::Num(n) => int_text(n as int),
        ValueModel::Bool(b) => if b {
            "#t"@
        } else {
            "#f"@
        },
        ValueModel::Quoted(e) => "#<expression>:"@ + render(*e),
        ValueModel::Proc(p) => "#<procedure>:"@ + procedure_name(p),
        ValueModel::Undefined => "#<undefined>"@,
    }
}

fn push_str(out: &mut String, s: &str)
    ensures
        final(out)@ == old(out)@ + s@,
{
    out.append(s);
}

fn push_string(out: &mut String, s: &String)
    ensures
        final(out)@ == old(out)@ + s@,
{
    out.append(s.as_str());
}

fn procedure_label(p: &Procedure) -> (r: &'static str)
    ensures
        r@ == procedure_name(p@),
{
    match p {
        Procedure::UserDefined { .. } => "user-defined",
        Procedure::Sum => "+",
        Procedure::Difference => "-",
        Procedure::Product => "*",
        Procedure::Division => "/",
        Procedure::Equal => "=",
        Procedure::Less => "<",
        Procedure::Greater => ">",
        Procedure::And => "and",
        Procedure::Or => "or",
        Procedure::Not => "not",
    }
}

fn write_names(ns: &Vec<String>, out: &mut String)
    ensures
        final(out)@ == old(out)@ + join_names(names_view(ns@), ns@.len() as int),
{
    let ghost nv = names_view(ns@);
    let mut i: usize = 0;
    while i < ns.len()
        invariant
            i <= ns.len(),
            nv == names_view(ns@),
            out@ == old(out)@ + join_names(nv, i as int),
        decreases ns.len() - i,
    {
        if i > 0 {
            push_str(out, " ");
        }
        push_string(out, &ns[i]);
        i = i + 1;
        assert(out@ =~= old(out)@ + join_names(nv, i as int));
    }
}

fn write_seq(es: &Vec<Expression>, out: &mut String)
    ensures
        final(out)@ == old(out)@ + render_seq(exprs_model(es@), es@.len() as int),
    decreases es, 1int,
{
    let ghost em = exprs_model(es@);
    proof {
        lemma_exprs_view(es@, es@.len() as int);
    }
    let mut i: usize = 0;
    while i < es.len()
        invariant
            i <= es.len(),
            em == exprs_model(es@),
            em.len() == es@.len(),
            forall|k: int| 0 <= k < es@.len() ==> #[trigger] em[k] == es@[k]@,
            out@ == old(out)@ + render_seq(em, i as int),
        decreases es.len() - i,
    {
        if i > 0 {
            push_str(out, " ");
        }
        write_expr(&es[i], out);
        i = i + 1;
        assert(out@ =~= old(out)@ + render_seq(em, i as int));
    }
}

fn write_proc(p: &Procedure, out: &mut String)
    ensures
        final(out)@ == old(out)@ + render_proc(p@),
    decreases p, 2int,
{
    match p {
        Procedure::UserDefined { arguments, body } => {
            proof {
                lemma_exprs_view(body@, body@.len() as int);
            }
            push_str(out, "(lambda (");
            write_names(arguments, out);
            push_str(out, ")");
            if body.len() > 0 {
                push_str(out, " ");
                write_seq(body, out);
            }
            push_str(out, ")");
            assert(out@ =~= old(out)@ + render_proc(p@));
        },
        _ => {
            push_str(out, "#<procedure>:");
            push_str(out, procedure_label(p));
            assert(out@ =~= old(out)@ + render_proc(p@));
        },
    }
}

fn write_value(v: &LValue, out: &mut String)
    ensures
        final(out)@ == old(out)@ + render_value(v@),
    decreases v, 2int,
{
    match v {
        LValue::StringValue(s) => {
            push_str(out, "\"");
            push_string(out, s);
            push_str(out, "\"");
        },
        LValue::NumericalValue(n) => {
            let t = integer_text(*n);
            push_string(out, &t);
        },
        LValue::BooleanValue(b) => {
            if *b {
                push_str(out, "#t");
            } else {
                push_str(out, "#f");
            }
        },
        LValue::Quoted(e) => {
            push_str(out, "'");
            write_expr(e, out);
        },
        LValue::Procedure(p) => write_proc(p, out),
        LValue::Undefined => push_str(out, "#<undefined>"),
    }
    assert(out@ =~= old(out)@ + render_value(v@));
}

fn write_expr(e: &Expression, out: &mut String)
    ensures
        final(out)@ == old(out)@ + render(e@),
    decreases e, 2int,
{
    match e {
        Expression::List(es) => {
            proof {
                lemma_exprs_view(es@, es@.len() as int);
            }
            push_str(out, "(");
            write_seq(es, out);
            push_str(out, ")");
        },
        Expression::Eval(x) => {
            push_str(out, "(eval ");
            write_expr(x, out);
            push_str(out, ")");
        },
        Expression::Definition { name, value } => {
            push_str(out, "(define ");
            push_string(out, name);
            push_str(out, " ");
            write_expr(value, out);
            push_str(out, ")");
        },
        Expression::Lambda(p) => write_proc(p, out),
        Expression::Identifier(s) => push_string(out, s),
        Expression::Value(v) => write_value(v, out),
        Expression::IfCondition { cond, yes_expr, no_expr } => {
            push_str(out, "(if ");
            write_expr(cond, out);
            push_str(out, " ");
            write_expr(yes_expr, out);
            match no_expr {
                Some(n) => {
                    push_str(out, " ");
                    write_expr(n, out);
                },
                None => {},
            }
            push_str(out, ")");
        },
    }
    assert(out@ =~= old(out)@ + render(e@));
}

impl Expression {
    /// The expression as source text.
    pub fn to_source(&self) -> (r: String)
        ensures
            r@ == render(self@),
    {
        let mut out = String::new();
        write_expr(self, &mut out);
        assert(out@ =~= render(self@));
        out
    }
}

impl LValue {
    /// The printed form of a value.
    pub fn display(&self) -> (r: String)
        ensures
            r@ == show_value(self@),
    {
        let mut out = String::new();
        match self {
            LValue::StringValue(s) => {
                push_str(&mut out, "\"");
                push_string(&mut out, s);
                push_str(&mut out, "\"");
            },
            LValue::NumericalValue(n) => {
                out = integer_text(*n);
            },
            LValue::BooleanValue(b) => {
                if *b {
                    push_str(&mut out, "#t");
                } else {
                    push_str(&mut out, "#f");
                }
            },
            LValue::Quoted(e) => {
                push_str(&mut out, "#<expression>:");
                write_expr(e, &mut out);
            },
            LValue::Procedure(p) => {
                push_str(&mut out, "#<procedure>:");
                push_str(&mut out, procedure_label(p));
            },
            LValue::Undefined => push_str(&mut out, "#<undefined>"),
        }
        assert(out@ =~= show_value(self@));
        out
    }
}

} // verus!
