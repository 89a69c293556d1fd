//! The evaluator: a stack of scopes and the tree walk over expressions.
use vstd::prelude::*;
use crate::builtins::{
    connective, difference_values, division_values, negation, ordering_values, outcome_view,
    product_values, sum_values, values_view,
};
use crate::expression::{
    Expression, LValue, ProcModel, Procedure, ValueModel, exprs_model, lemma_exprs_view, names_view,
};
use crate::semantics::{
    Frame, Stack, apply, bind_params, define, eval_args, eval_body, eval_expr, lemma_body_keeps_frames,
    lookup,
};
use crate::text::{concat_str, owned};
use crate::display::show_value;
use crate::expression::lower;
use crate::list::{ListNode, NodeModel, build_tree, lemma_nodes_view_len, nodes_view};
use crate::parser::{lex, parse_primitives};

verus! {

broadcast use vstd::std_specs::vec::group_vec_axioms;

/// How deeply evaluation may nest before it stops with an error.
pub const MAX_DEPTH: u64 = 1000;

/// A scope as stored: each name at most once.
pub open spec fn frame_view(f: Seq<(String, LValue)>) -> Frame
    decreases f.len(),
{
    if f.len() == 0 {
        Map::empty()
    } else {
        frame_view(f.drop_last()).insert(f.last().0@, f.last().1@)
    }
}

pub open spec fn keys_unique(f: Seq<(String, LValue)>) -> bool {
    forall|i: int, j: int| 0 <= i < j < f.len() ==> #[trigger] f[i].0@ != #[trigger] f[j].0@
}

pub open spec fn stack_view(s: Seq<Vec<(String, LValue)>>) -> Stack {
    s.map_values(|f: Vec<(String, LValue)>| frame_view(f@))
}

proof fn lemma_frame_has(f: Seq<(String, LValue)>, j: int)
    requires
        keys_unique(f),
        0 <= j < f.len(),
    ensures
        frame_view(f).contains_key(f[j].0@),
        frame_view(f)[f[j].0@] == f[j].1@,
    decreases f.len(),
{
    if j < f.len() - 1 {
        lemma_frame_has(f.drop_last(), j);
    }
}

proof fn lemma_frame_lacks(f: Seq<(String, LValue)>, k: Seq<char>)
    requires
        forall|j: int| 0 <= j < f.len() ==> #[trigger] f[j].0@ != k,
    ensures
        !frame_view(f).contains_key(k),
    decreases f.len(),
{
    if f.len() > 0 {
        lemma_frame_lacks(f.drop_last(), k);
    }
}

proof fn lemma_frame_replace(f: Seq<(String, LValue)>, j: int, p: (String, LValue))
    requires
        keys_unique(f),
        0 <= j < f.len(),
        p.0@ == f[j].0@,
    ensures
        frame_view(f.update(j, p)) == frame_view(f).insert(p.0@, p.1@),
        keys_unique(f.update(j, p)),
    decreases f.len(),
{
    let g = f.update(j, p);
    if j == f.len() - 1 {
        assert(g.drop_last() =~= f.drop_last());
        assert(frame_view(g) =~= frame_view(f).insert(p.0@, p.1@));
    } else {
        assert(g.drop_last() =~= f.drop_last().update(j, p));
        lemma_frame_replace(f.drop_last(), j, p);
        assert(frame_view(g) =~= frame_view(f).insert(p.0@, p.1@));
    }
}

proof fn lemma_frame_push(f: Seq<(String, LValue)>, p: (String, LValue))
    requires
        keys_unique(f),
        forall|j: int| 0 <= j < f.len() ==> #[trigger] f[j].0@ != p.0@,
    ensures
        frame_view(f.push(p)) == frame_view(f).insert(p.0@, p.1@),
        keys_unique(f.push(p)),
{
    assert(f.push(p).drop_last() =~= f);
}

/// Where `name` is bound in a scope, if it is.
fn position(f: &Vec<(String, LValue)>, name: &String) -> (r: Option<usize>)
    ensures
        match r {
            Some(j) => j < f@.len() && f@[j as int].0@ == name@,
            None => forall|j: int| 0 <= j < f@.len() ==> #[trigger] f@[j].0@ != name@,
        },
{
    let mut j: usize = 0;
    while j < f.len()
        invariant
            j <= f@.len(),
            forall|k: int| 0 <= k < j ==> #[trigger] f@[k].0@ != name@,
        decreases f.len() - j,
    {
        if f[j].0 == *name {
            return Some(j);
        }
        j = j + 1;
    }
    None
}

/// Binds `name` in a scope, replacing its binding there if it has one.
fn bind(f: &mut Vec<(String, LValue)>, name: String, v: LValue)
    requires
        keys_unique(old(f)@),
    ensures
        keys_unique(final(f)@),
        frame_view(final(f)@) == frame_view(old(f)@).insert(name@, v@),
{
    match position(f, &name) {
        Some(j) => {
            proof {
                lemma_frame_replace(f@, j as int, (name, v));
            }
            f.set(j, (name, v));
        },
        None => {
            proof {
                lemma_frame_push(f@, (name, v));
            }
            f.push((name, v));
        },
    }
}

/// The global scope: the built-in procedures under their names.
pub open spec fn global_frame() -> Frame {
    Map::empty().insert("+"@, ValueModel::Proc(ProcModel::Sum)).insert(
        "-"@,
        ValueModel::Proc(ProcModel::Difference),
    ).insert("*"@, ValueModel::Proc(ProcModel::Product)).insert(
        "/"@,
        ValueModel::Proc(ProcModel::Division),
    ).insert("="@, ValueModel::Proc(ProcModel::Equal)).insert(
        "<"@,
        ValueModel::Proc(ProcModel::Less),
    ).insert(">"@, ValueModel::Proc(ProcModel::Greater)).insert(
        "and"@,
        ValueModel::Proc(ProcModel::And),
    ).insert("or"@, ValueModel::Proc(ProcModel::Or)).insert(
        "not"@,
        ValueModel::Proc(ProcModel::Not),
    )
}

pub open spec fn lines_view(v: Seq<String>) -> Seq<Seq<char>> {
    v.map_values(|s: String| s@)
}

/// Runs the first `n` top-level forms: each is lowered and evaluated, and
/// its value printed unless `silent` or the form is a definition; a runtime error is printed and the next
/// form runs, a syntax error is printed and nothing after it runs. Returns
/// the environment, the printed lines and whether a syntax error stopped the
/// run.
pub open spec fn run_forms(st: Stack, forms: Seq<NodeModel>, n: int, silent: bool) -> (
    Stack,
    Seq<Seq<char>>,
    bool,
)
    decreases n,
{
    if n <= 0 || n > forms.len() {
        (st, Seq::empty(), false)
    } else {
        let (st1, out, halted) = run_forms(st, forms, n - 1, silent);
        if halted {
            (st1, out, true)
        } else {
            match lower(forms[n - 1]) {
                Err(s) => (st1, out.push("Syntax error: "@ + s), true),
                Ok(e) => {
                    let (st2, r) = eval_expr(st1, e, MAX_DEPTH as nat);
                    match r {
                        Ok(v) => (st2, if silent || e is Definition {
                            out
                        } else {
                            out.push(show_value(v))
                        }, false),
                        Err(s) => (st2, out.push("Runtime error: "@ + s), false),
                    }
                },
            }
        }
    }
}

/// Runs a whole source text: the environment afterwards and the printed
/// lines.
pub open spec fn run_text(st: Stack, code: Seq<char>, silent: bool) -> (Stack, Seq<Seq<char>>) {
    match build_tree(lex(code)) {
        NodeModel::Node(_, forms) => {
            let (st1, out, _) = run_forms(st, forms, forms.len() as int, silent);
            (st1, out)
        },
        _ => (st, Seq::empty()),
    }
}

proof fn lemma_run_halted(st: Stack, forms: Seq<NodeModel>, k: int, n: int, silent: bool)
    requires
        0 < k <= n <= forms.len(),
        run_forms(st, forms, k, silent).2,
    ensures
        run_forms(st, forms, n, silent) == run_forms(st, forms, k, silent),
    decreases n - k,
{
    if k < n {
        lemma_run_halted(st, forms, k, n - 1, silent);
    }
}

/// An interpreter session: the environment that evaluation reads and
/// changes.
pub struct Program {
    stack: Vec<Vec<(String, LValue)>>,
}

impl View for Program {
    type V = Stack;

    closed spec fn view(&self) -> Stack {
        stack_view(self.stack@)
    }
}

impl Program {
    /// Every scope binds each name at most once.
    pub closed spec fn frames_wf(&self) -> bool {
        forall|i: int| 0 <= i < self.stack@.len() ==> keys_unique(#[trigger] self.stack@[i]@)
    }

    /// Well-formed: there is a global scope, and no scope binds a name twice.
    pub open spec fn wf(&self) -> bool {
        &&& self@.len() >= 1
        &&& self.frames_wf()
    }

    /// A session whose only scope is the global one, with the built-ins.
    pub fn new() -> (p: Program)
        ensures
            p.wf(),
            p@ == seq![global_frame()],
    {
        let mut p = Program { stack: Vec::new() };
        p.initialize();
        assert(p@ =~= seq![global_frame()]);
        p
    }

    /// Pushes a scope with the built-in procedures.
    pub fn initialize(&mut self)
        requires
            old(self).frames_wf(),
        ensures
            final(self).frames_wf(),
            final(self)@ == old(self)@.push(global_frame()),
    {
        let mut basic_map: Vec<(String, LValue)> = Vec::new();
        bind(&mut basic_map, owned("+"), LValue::Procedure(Procedure::Sum));
        bind(&mut basic_map, owned("-"), LValue::Procedure(Procedure::Difference));
        bind(&mut basic_map, owned("*"), LValue::Procedure(Procedure::Product));
        bind(&mut basic_map, owned("/"), LValue::Procedure(Procedure::Division));
        bind(&mut basic_map, owned("="), LValue::Procedure(Procedure::Equal));
        bind(&mut basic_map, owned("<"), LValue::Procedure(Procedure::Less));
        bind(&mut basic_map, owned(">"), LValue::Procedure(Procedure::Greater));
        bind(&mut basic_map, owned("and"), LValue::Procedure(Procedure::And));
        bind(&mut basic_map, owned("or"), LValue::Procedure(Procedure::Or));
        bind(&mut basic_map, owned("not"), LValue::Procedure(Procedure::Not));
        assert(frame_view(basic_map@) =~= global_frame());
        self.stack.push(basic_map);
        assert(self@ =~= old(self)@.push(global_frame()));
    }

    /// The innermost binding of `name`.
    pub fn find_identifier(&self, name: &String) -> (r: Option<&LValue>)
        requires
            self.frames_wf(),
        ensures
            match r {
                Some(v) => lookup(self@, name@) == Some(v@),
                None => lookup(self@, name@) is None,
            },
    {
        let ghost st = self@;
        let mut i: usize = self.stack.len();
        assert(st.take(i as int) =~= st);
        while i > 0
            invariant
                i <= self.stack@.len(),
                st == self@,
                self.frames_wf(),
                lookup(st, name@) == lookup(st.take(i as int), name@),
            decreases i,
        {
            i = i - 1;
            let frame = &self.stack[i];
            assert(keys_unique(self.stack@[i as int]@));
            assert(st.take(i + 1).drop_last() =~= st.take(i as int));
            assert(st.take(i + 1).last() == frame_view(frame@));
            match position(frame, name) {
                Some(j) => {
                    proof {
                        lemma_frame_has(frame@, j as int);
                    }
                    return Some(&frame[j].1);
                },
                None => {
                    proof {
                        lemma_frame_lacks(frame@, name@);
                    }
                },
            }
        }
        None
    }

    /// Applies a procedure to evaluated arguments. The environment is the
    /// same afterwards: a user-defined procedure runs in a scope of its own,
    /// which is dropped on return and on error alike.
    fn evaluate_call(&mut self, p: &Procedure, args: &Vec<LValue>, fuel: u64) -> (r: Result<LValue, String>)
        requires
            old(self).wf(),
        ensures
            final(self).wf(),
            final(self)@ == old(self)@,
            outcome_view(r) == apply(old(self)@, p@, values_view(args@), fuel as nat),
        decreases fuel, 0int,
    {
        match p {
            Procedure::Sum => sum_values(args),
            Procedure::Product => product_values(args),
            Procedure::Difference => difference_values(args),
            Procedure::Division => division_values(args),
            Procedure::Equal => ordering_values(args, core::cmp::Ordering::Equal, true),
            Procedure::Less => ordering_values(args, core::cmp::Ordering::Less, false),
            Procedure::Greater => ordering_values(args, core::cmp::Ordering::Greater, false),
            Procedure::And => connective(args, true),
            Procedure::Or => connective(args, false),
            Procedure::Not => negation(args),
            Procedure::UserDefined { arguments, body } => {
                if arguments.len() != args.len() {
                    return Err(owned("Invalid number of arguments provided."));
                }
                if fuel == 0 {
                    return Err(owned("Maximum evaluation depth exceeded."));
                }
                let ghost params = names_view(arguments@);
                let ghost vals = values_view(args@);
                let mut arg_stack: Vec<(String, LValue)> = Vec::new();
                let mut i: usize = 0;
                assert(frame_view(arg_stack@) =~= bind_params(params, vals, 0));
                while i < args.len()
                    invariant
                        i <= args.len(),
                        args.len() == arguments.len(),
                        params == names_view(arguments@),
                        vals == values_view(args@),
                        keys_unique(arg_stack@),
                        frame_view(arg_stack@) == bind_params(params, vals, i as int),
                    decreases args.len() - i,
                {
                    bind(&mut arg_stack, arguments[i].clone(), args[i].duplicate());
                    i = i + 1;
                }
                let ghost st = self@;
                let ghost frame = frame_view(arg_stack@);
                self.stack.push(arg_stack);
                assert(self@ =~= st.push(frame));
                assert(self.frames_wf()) by {
                    assert forall|k: int| 0 <= k < self.stack@.len() implies keys_unique(
                        #[trigger] self.stack@[k]@,
                    ) by {
                        if k < self.stack@.len() - 1 {
                            assert(self.stack@[k] == old(self).stack@[k]);
                        }
                    }
                }
                let lres = self.evaluate_body(body, fuel - 1);
                proof {
                    lemma_body_keeps_frames(
                        st.push(frame),
                        exprs_model(body@),
                        body@.len() as int,
                        (fuel - 1) as nat,
                    );
                    lemma_exprs_view(body@, body@.len() as int);
                }
                let ghost inner = self.stack@;
                self.stack.pop();
                assert(self@ =~= st) by {
                    assert forall|k: int| 0 <= k < st.len() implies #[trigger] self@[k] == st[k] by {
                        assert(self@[k] == stack_view(inner)[k]);
                        assert(st.push(frame)[k] == st[k]);
                    }
                }
                assert(self.frames_wf()) by {
                    assert forall|k: int| 0 <= k < self.stack@.len() implies keys_unique(
                        #[trigger] self.stack@[k]@,
                    ) by {
                        assert(self.stack@[k] == inner[k]);
                    }
                }
                lres
            },
        }
    }

    /// Evaluates a body in order and gives the last value.
    fn evaluate_body(&mut self, body: &Vec<Expression>, fuel: u64) -> (r: Result<LValue, String>)
        requires
            old(self).wf(),
        ensures
            final(self).wf(),
            (final(self)@, outcome_view(r)) == eval_body(
                old(self)@,
                exprs_model(body@),
                body@.len() as int,
                fuel as nat,
            ),
        decreases fuel, 1int,
    {
        let ghost st = self@;
        let ghost bm = exprs_model(body@);
        proof {
            lemma_exprs_view(body@, body@.len() as int);
        }
        if body.len() == 0 {
            return Err(owned("Empty function body."));
        }
        let mut lres = self.evaluate_expression(&body[0], fuel);
        let mut i: usize = 1;
        while i < body.len()
            invariant
                1 <= i <= body.len(),
                st == old(self)@,
                bm == exprs_model(body@),
                bm.len() == body@.len(),
                forall|k: int| 0 <= k < body@.len() ==> #[trigger] bm[k] == body@[k]@,
                self.wf(),
                eval_body(st, bm, i as int, fuel as nat) == (self@, outcome_view(lres)),
            decreases body.len() - i,
        {
            if lres.is_err() {
                proof {
                    lemma_body_err(st, bm, i as int, body@.len() as int, fuel as nat);
                }
                return lres;
            }
            lres = self.evaluate_expression(&body[i], fuel);
            i = i + 1;
        }
        lres
    }

    /// Evaluates the operands `es[1..]` left to right.
    fn evaluate_args(&mut self, es: &Vec<Expression>, fuel: u64) -> (r: Result<Vec<LValue>, String>)
        requires
            old(self).wf(),
        ensures
            final(self).wf(),
            ({
                let (st, res) = eval_args(old(self)@, exprs_model(es@), es@.len() as int, fuel as nat);
                &&& final(self)@ == st
                &&& match r {
                    Ok(vs) => res == Ok::<Seq<ValueModel>, Seq<char>>(values_view(vs@)),
                    Err(s) => res == Err::<Seq<ValueModel>, Seq<char>>(s@),
                }
            }),
        decreases fuel, 1int,
    {
        let ghost st = self@;
        let ghost em = exprs_model(es@);
        proof {
            lemma_exprs_view(es@, es@.len() as int);
        }
        let mut arg_values: Vec<LValue> = Vec::new();
        let mut i: usize = 1;
        assert(values_view(arg_values@) =~= Seq::<ValueModel>::empty());
        while i < es.len()
            invariant
                1 <= i,
                i <= es.len() || es.len() == 0,
                st == old(self)@,
                em == exprs_model(es@),
                em.len() == es@.len(),
                forall|k: int| 0 <= k < es@.len() ==> #[trigger] em[k] == es@[k]@,
                self.wf(),
                eval_args(st, em, i as int, fuel as nat) == (
                    self@,
                    Ok::<Seq<ValueModel>, Seq<char>>(values_view(arg_values@)),
                ),
            decreases es.len() - i,
        {
            match self.evaluate_expression(&es[i], fuel) {
                Ok(v) => {
                    let ghost before = arg_values@;
                    arg_values.push(v);
                    assert(values_view(arg_values@) =~= values_view(before).push(v@));
                },
                Err(s) => {
                    proof {
                        lemma_args_err(st, em, i + 1, es@.len() as int, fuel as nat);
                    }
                    return Err(s);
                },
            }
            i = i + 1;
        }
        proof {
            if es@.len() <= 1 {
                assert(eval_args(st, em, es@.len() as int, fuel as nat) == eval_args(
                    st,
                    em,
                    i as int,
                    fuel as nat,
                ));
            }
        }
        Ok(arg_values)
    }

    /// Evaluates an expression with at most `fuel` nested steps.
    pub fn evaluate_expression(&mut self, e: &Expression, fuel: u64) -> (r: Result<LValue, String>)
        requires
            old(self).wf(),
        ensures
            final(self).wf(),
            (final(self)@, outcome_view(r)) == eval_expr(old(self)@, e@, fuel as nat),
        decreases fuel, 0int,
    {
        if fuel == 0 {
            return Err(owned("Maximum evaluation depth exceeded."));
        }
        let f = fuel - 1;
        match e {
            Expression::Value(v) => Ok(v.duplicate()),
            Expression::Identifier(s) => {
                match self.find_identifier(s) {
                    Some(v) => Ok(v.duplicate()),
                    None => {
                        let m = concat_str(&concat_str(&owned("Undefined identifier '"), s.as_str()), "'.");
                        Err(m)
                    },
                }
            },
            Expression::Lambda(p) => Ok(LValue::Procedure(p.duplicate())),
            Expression::Definition { name, value } => {
                match self.evaluate_expression(value, f) {
                    Ok(v) => {
                        self.define_binding(name.clone(), v);
                        Ok(LValue::Undefined)
                    },
                    Err(s) => Err(s),
                }
            },
            Expression::IfCondition { cond, yes_expr, no_expr } => {
                let c = match self.evaluate_expression(cond, f) {
                    Ok(v) => v,
                    Err(s) => return Err(s),
                };
                let b = match c.to_boolean() {
                    Ok(b) => b,
                    Err(s) => return Err(s),
                };
                if b {
                    self.evaluate_expression(yes_expr, f)
                } else {
                    match no_expr {
                        Some(n) => self.evaluate_expression(n, f),
                        None => Ok(LValue::Undefined),
                    }
                }
            },
            Expression::Eval(inner) => {
                let r = self.evaluate_expression(inner, f);
                match r {
                    Ok(LValue::Quoted(q)) => self.evaluate_expression(&q, f),
                    _ => r,
                }
            },
            Expression::List(es) => {
                proof {
                    lemma_exprs_view(es@, es@.len() as int);
                }
                if es.len() == 0 {
                    return Err(owned("Empty expression can't be evaluated."));
                }
                let head = match self.evaluate_expression(&es[0], f) {
                    Ok(v) => v,
                    Err(s) => return Err(s),
                };
                match head {
                    LValue::Procedure(p) => {
                        let args = match self.evaluate_args(es, f) {
                            Ok(a) => a,
                            Err(s) => return Err(s),
                        };
                        self.evaluate_call(&p, &args, f)
                    },
                    _ => Err(owned("First expression not a procedure.")),
                }
            },
        }
    }

    /// Runs source text form by form and gives the lines to print: each
    /// value unless `silent` (definitions print nothing), and every error.
    pub fn run_code(&mut self, code: String, silent: bool) -> (lines: Vec<String>)
        requires
            old(self).wf(),
        ensures
            final(self).wf(),
            (final(self)@, lines_view(lines@)) == run_text(old(self)@, code@, silent),
    {
        let ghost st = self@;
        let tokens = parse_primitives(&code);
        let list_tree = ListNode::from_primitive_tokens(&tokens);
        let mut out: Vec<String> = Vec::new();
        if let ListNode::Node(_, v) = &list_tree {
            let ghost forms = nodes_view(v@, v@.len() as int);
            proof {
                lemma_nodes_view_len(v@, v@.len() as int);
            }
            let mut i: usize = 0;
            assert(lines_view(out@) =~= Seq::<Seq<char>>::empty());
            while i < v.len()
                invariant
                    i <= v.len(),
                    st == old(self)@,
                    forms == nodes_view(v@, v@.len() as int),
                    forms.len() == v@.len(),
                    forall|k: int| 0 <= k < v@.len() ==> #[trigger] forms[k] == v@[k]@,
                    run_text(st, code@, silent) == (
                        run_forms(st, forms, forms.len() as int, silent).0,
                        run_forms(st, forms, forms.len() as int, silent).1,
                    ),
                    self.wf(),
                    run_forms(st, forms, i as int, silent) == (self@, lines_view(out@), false),
                decreases v.len() - i,
            {
                let ghost before = out@;
                match Expression::from_list(&v[i]) {
                    Ok(res) => {
                        match self.evaluate_expression(&res, MAX_DEPTH) {
                            Ok(result) => {
                                let definition = matches!(res, Expression::Definition { .. });
                                if !silent && !definition {
                                    out.push(result.display());
                                }
                            },
                            Err(s) => {
                                out.push(concat_str(&owned("Runtime error: "), s.as_str()));
                            },
                        }
                        assert(lines_view(out@) =~= run_forms(st, forms, i + 1, silent).1);
                    },
                    Err(s) => {
                        out.push(concat_str(&owned("Syntax error: "), s.as_str()));
                        proof {
                            assert(lines_view(out@) =~= run_forms(st, forms, i + 1, silent).1);
                            lemma_run_halted(st, forms, i + 1, forms.len() as int, silent);
                        }
                        return out;
                    },
                }
                i = i + 1;
            }
        }
        out
    }

    /// Binds `name` in the innermost scope.
    fn define_binding(&mut self, name: String, v: LValue)
        requires
            old(self).wf(),
        ensures
            final(self).wf(),
            final(self)@ == define(old(self)@, name@, v@),
    {
        let ghost st = self@;
        let mut frame = self.stack.pop().unwrap();
        assert(keys_unique(old(self).stack@[old(self).stack@.len() - 1]@));
        bind(&mut frame, name, v);
        self.stack.push(frame);
        assert(self@ =~= define(st, name@, v@));
        assert forall|i: int| 0 <= i < self.stack@.len() implies keys_unique(
            #[trigger] self.stack@[i]@,
        ) by {
            if i < self.stack@.len() - 1 {
                assert(self.stack@[i] == old(self).stack@[i]);
            }
        }
    }
}

proof fn lemma_args_err(st: Stack, es: Seq<crate::expression::ExprModel>, k: int, n: int, fuel: nat)
    requires
        1 < k <= n <= es.len(),
        eval_args(st, es, k, fuel).1 is Err,
    ensures
        eval_args(st, es, n, fuel) == eval_args(st, es, k, fuel),
    decreases n - k,
{
    if k < n {
        lemma_args_err(st, es, k, n - 1, fuel);
    }
}

proof fn lemma_body_err(st: Stack, body: Seq<crate::expression::ExprModel>, k: int, n: int, fuel: nat)
    requires
        1 <= k <= n <= body.len(),
        eval_body(st, body, k, fuel).1 is Err,
    ensures
        eval_body(st, body, n, fuel) == eval_body(st, body, k, fuel),
    decreases n - k,
{
    if k < n {
        lemma_body_err(st, body, k, n - 1, fuel);
    }
}

} // verus!
