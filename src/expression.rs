//! Values, procedures and the typed expression tree, with the lowering pass
//! from the generic list tree.
use vstd::prelude::*;
use crate::list::{ListNode, NodeModel, nodes_view, lemma_nodes_view_len};
use crate::text::owned;
use crate::semantics::{compare_values, to_bool};
use crate::builtins::text_compare;

verus! {

broadcast use vstd::std_specs::vec::group_vec_axioms;

/// A procedure: one of the built-ins, or one written in the language.
#[derive(Debug)]
pub enum Procedure {
    UserDefined { arguments: Vec<String>, body: Vec<Expression> },
    Sum,
    Difference,
    Product,
    Division,
    Equal,
    Less,
    Greater,
    And,
    Or,
    Not,
}

/// A runtime value.
#[derive(Debug)]
pub enum LValue {
    StringValue(String),
    NumericalValue(i64),
    BooleanValue(bool),
    Quoted(Box<Expression>),
    Procedure(Procedure),
    Undefined,
}

/// The expression tree that the evaluator walks.
#[derive(Debug)]
pub enum Expression {
    List(Vec<Expression>),
    Eval(Box<Expression>),
    Definition { name: String, value: Box<Expression> },
    Lambda(Procedure),
    Identifier(String),
    Value(LValue),
    IfCondition { cond: Box<Expression>, yes_expr: Box<Expression>, no_expr: Option<Box<Expression>> },
}

/// A procedure as a mathematical value.
pub enum ProcModel {
    UserDefined(Seq<Seq<char>>, Seq<ExprModel>),
    Sum,
    Difference,
    Product,
    Division,
    Equal,
    Less,
    Greater,
    And,
    Or,
    Not,
}

/// A runtime value as a mathematical value.
pub enum ValueModel {
    Str(Seq<char>),
    Num(i64),
    Bool(bool),
    Quoted(Box<ExprModel>),
    Proc(ProcModel),
    Undefined,
}

/// An expression as a mathematical value.
pub enum ExprModel {
    List(Seq<ExprModel>),
    Eval(Box<ExprModel>),
    Definition(Seq<char>, Box<ExprModel>),
    Lambda(ProcModel),
    Identifier(Seq<char>),
    Value(ValueModel),
    If(Box<ExprModel>, Box<ExprModel>, Option<Box<ExprModel>>),
}

pub open spec fn names_view(v: Seq<String>) -> Seq<Seq<char>> {
    v.map_values(|s: String| s@)
}

/// The models of the first `n` expressions of `s`.
pub open spec fn exprs_view(s: Seq<Expression>, n: int) -> Seq<ExprModel>
    decreases s, n,
{
    if n <= 0 || n > s.len() {
        Seq::empty()
    } else {
        exprs_view(s, n - 1).push(expr_view(s[n - 1]))
    }
}

pub open spec fn expr_view(e: Expression) -> ExprModel
    decreases e, 0int,
{
    match e {
        Expression::List(v) => ExprModel::List(exprs_view(v@, v@.len() as int)),
        Expression::Eval(b) => ExprModel::Eval(Box::new(expr_view(*b))),
        Expression::Definition { name, value } => ExprModel::Definition(
            name@,
            Box::new(expr_view(*value)),
        ),
        Expression::Lambda(p) => ExprModel::Lambda(proc_view(p)),
        Expression::Identifier(s) => ExprModel::Identifier(s@),
        Expression::Value(v) => ExprModel::Value(value_view(v)),
        Expression::IfCondition { cond, yes_expr, no_expr } => ExprModel::If(
            Box::new(expr_view(*cond)),
            Box::new(expr_view(*yes_expr)),
            match no_expr {
                Some(n) => Some(Box::new(expr_view(*n))),
                None => None,
            },
        ),
    }
}

pub open spec fn proc_view(p: Procedure) -> ProcModel
    decreases p, 0int,
{
    match p {
        Procedure::UserDefined { arguments, body } => ProcModel::UserDefined(
            names_view(arguments@),
            exprs_view(body@, body@.len() as int),
        ),
        Procedure::Sum => ProcModel::Sum,
        Procedure::Difference => ProcModel::Difference,
        Procedure::Product => ProcModel::Product,
        Procedure::Division => ProcModel::Division,
        Procedure::Equal => ProcModel::Equal,
        Procedure::Less => ProcModel::Less,
        Procedure::Greater => ProcModel::Greater,
        Procedure::And => ProcModel::And,
        Procedure::Or => ProcModel::Or,
        Procedure::Not => ProcModel::Not,
    }
}

pub open spec fn value_view(v: LValue) -> ValueModel
    decreases v, 0int,
{
    match v {
        LValue::StringValue(s) => ValueModel::Str(s@),
        LValue::NumericalValue(n) => ValueModel::Num(n),
        LValue::BooleanValue(b) => ValueModel::Bool(b),
        LValue::Quoted(e) => ValueModel::Quoted(Box::new(expr_view(*e))),
        LValue::Procedure(p) => ValueModel::Proc(proc_view(p)),
        LValue::Undefined => ValueModel::Undefined,
    }
}

impl View for Expression {
    type V = ExprModel;

    open spec fn view(&self) -> ExprModel {
        expr_view(*self)
    }
}

impl View for LValue {
    type V = ValueModel;

    open spec fn view(&self) -> ValueModel {
        value_view(*self)
    }
}

impl View for Procedure {
    type V = ProcModel;

    open spec fn view(&self) -> ProcModel {
        proc_view(*self)
    }
}

pub proof fn lemma_exprs_view(s: Seq<Expression>, n: int)
    requires
        0 <= n <= s.len(),
    ensures
        exprs_view(s, n).len() == n,
        forall|i: int| 0 <= i < n ==> #[trigger] exprs_view(s, n)[i] == s[i]@,
    decreases n,
{
    if n > 0 {
        lemma_exprs_view(s, n - 1);
    }
}

/// The models of a whole vector of expressions.
pub open spec fn exprs_model(v: Seq<Expression>) -> Seq<ExprModel> {
    exprs_view(v, v.len() as int)
}

/// Two vectors whose elements have equal models have equal models.
pub proof fn lemma_exprs_model_eq(a: Seq<Expression>, b: Seq<Expression>)
    requires
        a.len() == b.len(),
        forall|i: int| 0 <= i < a.len() ==> #[trigger] a[i]@ == b[i]@,
    ensures
        exprs_model(a) == exprs_model(b),
{
    lemma_exprs_view(a, a.len() as int);
    lemma_exprs_view(b, b.len() as int);
    assert(exprs_model(a) =~= exprs_model(b));
}

/// Appending an expression appends its model.
pub proof fn lemma_exprs_model_push(a: Seq<Expression>, x: Expression)
    ensures
        exprs_model(a.push(x)) == exprs_model(a).push(x@),
{
    lemma_exprs_view(a, a.len() as int);
    lemma_exprs_view(a.push(x), a.len() + 1int);
    assert(exprs_model(a.push(x)) =~= exprs_model(a).push(x@));
}

pub(crate) fn copy_names(v: &Vec<String>) -> (r: Vec<String>)
    ensures
        names_view(r@) == names_view(v@),
{
    let mut r: Vec<String> = Vec::new();
    let mut i: usize = 0;
    while i < v.len()
        invariant
            i <= v.len(),
            r@.len() == i,
            forall|j: int| 0 <= j < i ==> #[trigger] r@[j]@ == v@[j]@,
        decreases v.len() - i,
    {
        r.push(v[i].clone());
        i = i + 1;
    }
    assert(names_view(r@) =~= names_view(v@));
    r
}

pub(crate) fn copy_exprs(v: &Vec<Expression>) -> (r: Vec<Expression>)
    ensures
        exprs_model(r@) == exprs_model(v@),
    decreases v, 1int,
{
    let mut r: Vec<Expression> = Vec::new();
    let mut i: usize = 0;
    while i < v.len()
        invariant
            i <= v.len(),
            r@.len() == i,
            forall|j: int| 0 <= j < i ==> #[trigger] r@[j]@ == v@[j]@,
        decreases v.len() - i,
    {
        let e = v[i].duplicate();
        r.push(e);
        i = i + 1;
    }
    proof {
        lemma_exprs_model_eq(r@, v@);
    }
    r
}

impl Procedure {
    /// A deep copy.
    pub fn duplicate(&self) -> (r: Procedure)
        ensures
            r@ == self@,
        decreases self, 0int,
    {
        match self {
            Procedure::UserDefined { arguments, body } => Procedure::UserDefined {
                arguments: copy_names(arguments),
                body: copy_exprs(body),
            },
            Procedure::Sum => Procedure::Sum,
            Procedure::Difference => Procedure::Difference,
            Procedure::Product => Procedure::Product,
            Procedure::Division => Procedure::Division,
            Procedure::Equal => Procedure::Equal,
            Procedure::Less => Procedure::Less,
            Procedure::Greater => Procedure::Greater,
            Procedure::And => Procedure::And,
            Procedure::Or => Procedure::Or,
            Procedure::Not => Procedure::Not,
        }
    }
}

impl LValue {
    /// A deep copy.
    pub fn duplicate(&self) -> (r: LValue)
        ensures
            r@ == self@,
        decreases self, 0int,
    {
        match self {
            LValue::StringValue(s) => LValue::StringValue(s.clone()),
            LValue::NumericalValue(n) => LValue::NumericalValue(*n),
            LValue::BooleanValue(b) => LValue::BooleanValue(*b),
            LValue::Quoted(e) => LValue::Quoted(Box::new(e.duplicate())),
            LValue::Procedure(p) => LValue::Procedure(p.duplicate()),
            LValue::Undefined => LValue::Undefined,
        }
    }
}

impl Expression {
    /// A deep copy.
    pub fn duplicate(&self) -> (r: Expression)
        ensures
            r@ == self@,
        decreases self, 0int,
    {
        match self {
            Expression::List(v) => Expression::List(copy_exprs(v)),
            Expression::Eval(b) => Expression::Eval(Box::new(b.duplicate())),
            Expression::Definition { name, value } => Expression::Definition {
                name: name.clone(),
                value: Box::new(value.duplicate()),
            },
            Expression::Lambda(p) => Expression::Lambda(p.duplicate()),
            Expression::Identifier(s) => Expression::Identifier(s.clone()),
            Expression::Value(v) => Expression::Value(v.duplicate()),
            Expression::IfCondition { cond, yes_expr, no_expr } => Expression::IfCondition {
                cond: Box::new(cond.duplicate()),
                yes_expr: Box::new(yes_expr.duplicate()),
                no_expr: match no_expr {
                    Some(n) => Some(Box::new(n.duplicate())),
                    None => None,
                },
            },
        }
    }
}

impl Clone for LValue {
    fn clone(&self) -> (r: LValue)
        ensures
            r@ == self@,
    {
        self.duplicate()
    }
}

impl Clone for Expression {
    fn clone(&self) -> (r: Expression)
        ensures
            r@ == self@,
    {
        self.duplicate()
    }
}

impl Clone for Procedure {
    fn clone(&self) -> (r: Procedure)
        ensures
            r@ == self@,
    {
        self.duplicate()
    }
}

/// The model of a lowering result.
pub open spec fn lowered_view(r: Result<Expression, String>) -> Result<ExprModel, Seq<char>> {
    match r {
        Ok(e) => Ok(e@),
        Err(s) => Err(s@),
    }
}

pub open spec fn quoted_expr(e: ExprModel) -> ExprModel {
    ExprModel::Value(ValueModel::Quoted(Box::new(e)))
}

pub open spec fn quote_of(r: Result<ExprModel, Seq<char>>) -> Result<ExprModel, Seq<char>> {
    match r {
        Ok(e) => Ok(quoted_expr(e)),
        Err(s) => Err(s),
    }
}

pub open spec fn list_of(r: Result<Seq<ExprModel>, Seq<char>>) -> Result<ExprModel, Seq<char>> {
    match r {
        Ok(es) => Ok(ExprModel::List(es)),
        Err(s) => Err(s),
    }
}

/// Lowers a node of the list tree to an expression, or says why it cannot.
pub open spec fn lower(n: NodeModel) -> Result<ExprModel, Seq<char>>
    decreases n, 0int,
{
    match n {
        NodeModel::Node(q, cs) => if q {
            quote_of(lower_form(cs))
        } else {
            lower_form(cs)
        },
        NodeModel::Identifier(q, s) => if q {
            Ok(quoted_expr(ExprModel::Identifier(s)))
        } else {
            Ok(ExprModel::Identifier(s))
        },
        NodeModel::StringLiteral(s) => Ok(ExprModel::Value(ValueModel::Str(s))),
        NodeModel::NumericLiteral(v) => Ok(ExprModel::Value(ValueModel::Num(v))),
        NodeModel::BooleanLiteral(b) => Ok(ExprModel::Value(ValueModel::Bool(b))),
    }
}

/// Lowers the nodes `cs[lo..hi]` in order; the first error wins.
pub open spec fn lower_range(cs: Seq<NodeModel>, lo: int, hi: int) -> Result<
    Seq<ExprModel>,
    Seq<char>,
>
    decreases cs, hi - lo,
{
    if hi <= lo || lo < 0 || hi > cs.len() {
        Ok(Seq::empty())
    } else {
        match lower_range(cs, lo, hi - 1) {
            Err(s) => Err(s),
            Ok(es) => match lower(cs[hi - 1]) {
                Err(s) => Err(s),
                Ok(e) => Ok(es.push(e)),
            },
        }
    }
}

/// The children of an unquoted node: a special form when the head is one of
/// the reserved words, else a call.
pub open spec fn lower_form(cs: Seq<NodeModel>) -> Result<ExprModel, Seq<char>>
    decreases cs, cs.len() + 1,
{
    if cs.len() == 0 {
        Ok(ExprModel::List(Seq::empty()))
    } else {
        match cs[0] {
            NodeModel::Identifier(false, s) => if s == "lambda"@ {
                lower_lambda(cs)
            } else if s == "define"@ {
                lower_define(cs)
            } else if s == "if"@ {
                lower_if(cs)
            } else if s == "quote"@ {
                if cs.len() != 2 {
                    Err(quote_arity_message())
                } else {
                    quote_of(lower(cs[1]))
                }
            } else if s == "eval"@ {
                if cs.len() != 2 {
                    Err(eval_arity_message())
                } else {
                    match lower(cs[1]) {
                        Ok(e) => Ok(ExprModel::Eval(Box::new(e))),
                        Err(s) => Err(s),
                    }
                }
            } else {
                list_of(lower_range(cs, 0, cs.len() as int))
            },
            _ => list_of(lower_range(cs, 0, cs.len() as int)),
        }
    }
}

pub open spec fn quote_arity_message() -> Seq<char> {
    "Quote expression must contain exactly one expression."@
}

pub open spec fn eval_arity_message() -> Seq<char> {
    "Eval expression must contain exactly one expression."@
}

pub open spec fn define_arity_message() -> Seq<char> {
    "A definition statement needs exactly 2 arguments."@
}

pub open spec fn define_quoted_message() -> Seq<char> {
    "Identifier name in define statement must not be quoted."@
}

pub open spec fn define_name_message() -> Seq<char> {
    "First argument must be a valid identifier."@
}

pub open spec fn lambda_list_message() -> Seq<char> {
    "A lambda expression needs an argument list."@
}

pub open spec fn lambda_quoted_list_message() -> Seq<char> {
    "The argument list in a lambda expression must not be quoted."@
}

pub open spec fn lambda_quoted_arg_message() -> Seq<char> {
    "Argument name must not be quoted in a lambda expression"@
}

pub open spec fn lambda_arg_message() -> Seq<char> {
    "The argument list must only contain non-quoted identifiers."@
}

pub open spec fn if_arity_message() -> Seq<char> {
    "'if' statement requires two or three expressions."@
}

/// `(define name value)`.
pub open spec fn lower_define(cs: Seq<NodeModel>) -> Result<ExprModel, Seq<char>>
    decreases cs, cs.len(),
{
    if cs.len() != 3 {
        Err(define_arity_message())
    } else {
        match cs[1] {
            NodeModel::Identifier(q, name) => if q {
                Err(define_quoted_message())
            } else {
                match lower(cs[2]) {
                    Ok(e) => Ok(ExprModel::Definition(name, Box::new(e))),
                    Err(s) => Err(s),
                }
            },
            _ => Err(define_name_message()),
        }
    }
}

/// The parameter names of the first `n` nodes of a lambda's argument list.
pub open spec fn arg_names(args: Seq<NodeModel>, n: int) -> Result<Seq<Seq<char>>, Seq<char>>
    decreases n,
{
    if n <= 0 || n > args.len() {
        Ok(Seq::empty())
    } else {
        match arg_names(args, n - 1) {
            Err(s) => Err(s),
            Ok(names) => match args[n - 1] {
                NodeModel::Identifier(q, s) => if q {
                    Err(lambda_quoted_arg_message())
                } else {
                    Ok(names.push(s))
                },
                _ => Err(lambda_arg_message()),
            },
        }
    }
}

/// `(lambda (params...) body...)`.
pub open spec fn lower_lambda(cs: Seq<NodeModel>) -> Result<ExprModel, Seq<char>>
    decreases cs, cs.len(),
{
    if cs.len() < 2 {
        Err(lambda_list_message())
    } else {
        match cs[1] {
            NodeModel::Node(q, args) => if q {
                Err(lambda_quoted_list_message())
            } else {
                match arg_names(args, args.len() as int) {
                    Err(s) => Err(s),
                    Ok(names) => match lower_range(cs, 2, cs.len() as int) {
                        Err(s) => Err(s),
                        Ok(body) => Ok(ExprModel::Lambda(ProcModel::UserDefined(names, body))),
                    },
                }
            },
            _ => Err(lambda_list_message()),
        }
    }
}

/// `(if cond yes)` or `(if cond yes no)`.
pub open spec fn lower_if(cs: Seq<NodeModel>) -> Result<ExprModel, Seq<char>>
    decreases cs, cs.len(),
{
    if cs.len() < 3 || cs.len() > 4 {
        Err(if_arity_message())
    } else {
        match lower(cs[1]) {
            Err(s) => Err(s),
            Ok(c) => match lower(cs[2]) {
                Err(s) => Err(s),
                Ok(y) => if cs.len() == 3 {
                    Ok(ExprModel::If(Box::new(c), Box::new(y), None))
                } else {
                    match lower(cs[3]) {
                        Err(s) => Err(s),
                        Ok(n) => Ok(ExprModel::If(Box::new(c), Box::new(y), Some(Box::new(n)))),
                    }
                },
            },
        }
    }
}

/// Once lowering a prefix fails, every longer prefix fails the same way.
proof fn lemma_lower_range_err(cs: Seq<NodeModel>, lo: int, k: int, hi: int)
    requires
        lo < k <= hi <= cs.len(),
        0 <= lo,
        lower_range(cs, lo, k) is Err,
    ensures
        lower_range(cs, lo, hi) == lower_range(cs, lo, k),
    decreases hi - k,
{
    if k < hi {
        lemma_lower_range_err(cs, lo, k, hi - 1);
    }
}

proof fn lemma_arg_names_err(args: Seq<NodeModel>, k: int, n: int)
    requires
        0 < k <= n <= args.len(),
        arg_names(args, k) is Err,
    ensures
        arg_names(args, n) == arg_names(args, k),
    decreases n - k,
{
    if k < n {
        lemma_arg_names_err(args, k, n - 1);
    }
}

proof fn lemma_children_view(v: Seq<ListNode>)
    ensures
        nodes_view(v, v.len() as int).len() == v.len(),
        forall|i: int| 0 <= i < v.len() ==> #[trigger] nodes_view(v, v.len() as int)[i] == v[i]@,
{
    lemma_nodes_view_len(v, v.len() as int);
}

/// `e` as quoted data.
fn quote_expr(e: Expression) -> (r: Expression)
    ensures
        r@ == quoted_expr(e@),
{
    let v = LValue::Quoted(Box::new(e));
    assert(v@ == ValueModel::Quoted(Box::new(e@)));
    Expression::Value(v)
}

/// A literal.
fn value_expr(v: LValue) -> (r: Expression)
    ensures
        r@ == ExprModel::Value(v@),
{
    Expression::Value(v)
}

/// A lambda with the given parameters and body.
fn lambda_expr(arguments: Vec<String>, body: Vec<Expression>) -> (r: Expression)
    ensures
        r@ == ExprModel::Lambda(ProcModel::UserDefined(names_view(arguments@), exprs_model(body@))),
{
    let p = Procedure::UserDefined { arguments, body };
    assert(p@ == ProcModel::UserDefined(names_view(arguments@), exprs_model(body@)));
    Expression::Lambda(p)
}

impl Expression {
    /// Lowers a node of the list tree, recognising the special forms.
    pub fn from_list(l: &ListNode) -> (r: Result<Expression, String>)
        ensures
            lowered_view(r) == lower(l@),
        decreases l, 1int,
    {
        match l {
            ListNode::StringLiteral(s) => Ok(value_expr(LValue::StringValue(s.clone()))),
            ListNode::BooleanLiteral(b) => Ok(value_expr(LValue::BooleanValue(*b))),
            ListNode::NumericLiteral(v) => Ok(value_expr(LValue::NumericalValue(*v))),
            ListNode::Node(quoted, v) => {
                let r = Expression::process_form(v);
                if *quoted {
                    match r {
                        Ok(e) => Ok(quote_expr(e)),
                        Err(s) => Err(s),
                    }
                } else {
                    r
                }
            },
            ListNode::Identifier(quoted, s) => {
                if !*quoted {
                    Ok(Expression::Identifier(s.clone()))
                } else {
                    Ok(quote_expr(Expression::Identifier(s.clone())))
                }
            },
        }
    }

    fn process_form(v: &Vec<ListNode>) -> (r: Result<Expression, String>)
        ensures
            lowered_view(r) == lower_form(nodes_view(v@, v@.len() as int)),
        decreases v, 2int,
    {
        proof {
            lemma_children_view(v@);
        }
        if v.len() == 0 {
            let r = Expression::List(Vec::new());
            assert(exprs_view(Seq::<Expression>::empty(), 0) =~= Seq::<ExprModel>::empty());
            return Ok(r);
        }
        match &v[0] {
            ListNode::Identifier(false, s) => {
                if *s == owned("lambda") {
                    Expression::process_lambda(v)
                } else if *s == owned("define") {
                    Expression::process_define(v)
                } else if *s == owned("if") {
                    Expression::process_if(v)
                } else if *s == owned("quote") {
                    if v.len() != 2 {
                        Err(owned("Quote expression must contain exactly one expression."))
                    } else {
                        Expression::process_quote(&v[1])
                    }
                } else if *s == owned("eval") {
                    if v.len() != 2 {
                        Err(owned("Eval expression must contain exactly one expression."))
                    } else {
                        Expression::process_eval(&v[1])
                    }
                } else {
                    Expression::process_list(v)
                }
            },
            _ => Expression::process_list(v),
        }
    }

    fn process_quote(n: &ListNode) -> (r: Result<Expression, String>)
        ensures
            lowered_view(r) == quote_of(lower(n@)),
        decreases n, 2int,
    {
        match Expression::from_list(n) {
            Ok(e) => Ok(quote_expr(e)),
            Err(s) => Err(s),
        }
    }

    fn process_eval(n: &ListNode) -> (r: Result<Expression, String>)
        ensures
            lowered_view(r) == (match lower(n@) {
                Ok(e) => Ok(ExprModel::Eval(Box::new(e))),
                Err(s) => Err(s),
            }),
        decreases n, 2int,
    {
        match Expression::from_list(n) {
            Ok(e) => Ok(Expression::Eval(Box::new(e))),
            Err(s) => Err(s),
        }
    }

    /// Lowers `v[lo..]` in order.
    fn process_range(v: &Vec<ListNode>, lo: usize) -> (r: Result<Vec<Expression>, String>)
        requires
            lo <= v.len(),
        ensures
            match r {
                Ok(es) => lower_range(nodes_view(v@, v@.len() as int), lo as int, v@.len() as int)
                    == Ok::<Seq<ExprModel>, Seq<char>>(exprs_model(es@)),
                Err(s) => lower_range(nodes_view(v@, v@.len() as int), lo as int, v@.len() as int)
                    == Err::<Seq<ExprModel>, Seq<char>>(s@),
            },
        decreases v, 0int,
    {
        let ghost cs = nodes_view(v@, v@.len() as int);
        proof {
            lemma_children_view(v@);
        }
        let mut out: Vec<Expression> = Vec::new();
        let mut i: usize = lo;
        assert(exprs_model(out@) =~= Seq::<ExprModel>::empty());
        while i < v.len()
            invariant
                lo <= i <= v.len(),
                cs == nodes_view(v@, v@.len() as int),
                cs.len() == v@.len(),
                forall|k: int| 0 <= k < v@.len() ==> #[trigger] cs[k] == v@[k]@,
                lower_range(cs, lo as int, i as int) == Ok::<Seq<ExprModel>, Seq<char>>(
                    exprs_model(out@),
                ),
            decreases v.len() - i,
        {
            match Expression::from_list(&v[i]) {
                Ok(e) => {
                    proof {
                        lemma_exprs_model_push(out@, e);
                    }
                    out.push(e);
                },
                Err(s) => {
                    proof {
                        lemma_lower_range_err(cs, lo as int, i + 1, v@.len() as int);
                    }
                    return Err(s);
                },
            }
            i = i + 1;
        }
        Ok(out)
    }

    fn process_list(v: &Vec<ListNode>) -> (r: Result<Expression, String>)
        ensures
            lowered_view(r) == list_of(lower_range(nodes_view(v@, v@.len() as int), 0, v@.len() as int)),
        decreases v, 1int,
    {
        match Expression::process_range(v, 0) {
            Ok(es) => Ok(Expression::List(es)),
            Err(s) => Err(s),
        }
    }

    fn process_define(v: &Vec<ListNode>) -> (r: Result<Expression, String>)
        requires
            v.len() > 0,
        ensures
            lowered_view(r) == lower_define(nodes_view(v@, v@.len() as int)),
        decreases v, 1int,
    {
        proof {
            lemma_children_view(v@);
        }
        if v.len() != 3 {
            Err(owned("A definition statement needs exactly 2 arguments."))
        } else {
            match &v[1] {
                ListNode::Identifier(quoted, s) => {
                    if *quoted {
                        Err(owned("Identifier name in define statement must not be quoted."))
                    } else {
                        match Expression::from_list(&v[2]) {
                            Ok(e) => Ok(Expression::Definition { name: s.clone(), value: Box::new(e) }),
                            Err(s) => Err(s),
                        }
                    }
                },
                _ => Err(owned("First argument must be a valid identifier.")),
            }
        }
    }

    fn process_lambda(v: &Vec<ListNode>) -> (r: Result<Expression, String>)
        requires
            v.len() > 0,
        ensures
            lowered_view(r) == lower_lambda(nodes_view(v@, v@.len() as int)),
        decreases v, 1int,
    {
        proof {
            lemma_children_view(v@);
        }
        if v.len() < 2 {
            return Err(owned("A lambda expression needs an argument list."));
        }
        let mut args: Vec<String> = Vec::new();
        match &v[1] {
            ListNode::Node(quoted, a) => {
                if *quoted {
                    return Err(owned("The argument list in a lambda expression must not be quoted."));
                }
                let ghost an = nodes_view(a@, a@.len() as int);
                proof {
                    lemma_children_view(a@);
                }
                let mut i: usize = 0;
                assert(names_view(args@) =~= Seq::<Seq<char>>::empty());
                while i < a.len()
                    invariant
                        i <= a.len(),
                        an == nodes_view(a@, a@.len() as int),
                        an.len() == a@.len(),
                        v@.len() >= 2,
                        nodes_view(v@, v@.len() as int).len() == v@.len(),
                        nodes_view(v@, v@.len() as int)[1] == NodeModel::Node(false, an),
                        forall|k: int| 0 <= k < a@.len() ==> #[trigger] an[k] == a@[k]@,
                        arg_names(an, i as int) == Ok::<Seq<Seq<char>>, Seq<char>>(names_view(args@)),
                    decreases a.len() - i,
                {
                    assert(an[i as int] == a@[i as int]@);
                    match &a[i] {
                        ListNode::Identifier(q, s) => {
                            if *q {
                                proof {
                                    lemma_arg_names_err(an, i + 1, an.len() as int);
                                }
                                return Err(owned("Argument name must not be quoted in a lambda expression"));
                            }
                            let ghost before = args@;
                            args.push(s.clone());
                            assert(names_view(args@) =~= names_view(before).push(s@));
                        },
                        _ => {
                            proof {
                                lemma_arg_names_err(an, i + 1, an.len() as int);
                            }
                            return Err(owned("The argument list must only contain non-quoted identifiers."));
                        },
                    }
                    i = i + 1;
                }
                assert(arg_names(an, an.len() as int) == arg_names(an, i as int));
            },
            _ => {
                return Err(owned("A lambda expression needs an argument list."));
            },
        }
        match Expression::process_range(v, 2) {
            Ok(body) => Ok(lambda_expr(args, body)),
            Err(s) => Err(s),
        }
    }

    fn process_if(v: &Vec<ListNode>) -> (r: Result<Expression, String>)
        requires
            v.len() > 0,
        ensures
            lowered_view(r) == lower_if(nodes_view(v@, v@.len() as int)),
        decreases v, 1int,
    {
        proof {
            lemma_children_view(v@);
        }
        if v.len() < 3 || v.len() > 4 {
            return Err(owned("'if' statement requires two or three expressions."));
        }
        let condition = match Expression::from_list(&v[1]) {
            Ok(e) => e,
            Err(s) => return Err(s),
        };
        let yes_expr = match Expression::from_list(&v[2]) {
            Ok(e) => e,
            Err(s) => return Err(s),
        };
        let no_expr = if v.len() < 4 {
            None
        } else {
            match Expression::from_list(&v[3]) {
                Ok(e) => Some(Box::new(e)),
                Err(s) => return Err(s),
            }
        };
        Ok(Expression::IfCondition { cond: Box::new(condition), yes_expr: Box::new(yes_expr), no_expr })
    }
}

impl LValue {
    /// Orders two values of the same kind among numbers, booleans and
    /// strings.
    pub fn compare(&self, rhs: &LValue) -> (r: Result<core::cmp::Ordering, String>)
        ensures
            match r {
                Ok(o) => compare_values(self@, rhs@) == Ok::<core::cmp::Ordering, Seq<char>>(o),
                Err(s) => compare_values(self@, rhs@) == Err::<core::cmp::Ordering, Seq<char>>(s@),
            },
    {
        match self {
            LValue::StringValue(s1) => match rhs {
                LValue::StringValue(s2) => Ok(text_compare(s1, s2)),
                _ => Err(owned("Expected string expression as the second argument.")),
            },
            LValue::BooleanValue(b1) => match rhs {
                LValue::BooleanValue(b2) => Ok(
                    if *b1 && !*b2 {
                        core::cmp::Ordering::Greater
                    } else if *b1 == *b2 {
                        core::cmp::Ordering::Equal
                    } else {
                        core::cmp::Ordering::Less
                    },
                ),
                _ => Err(owned("Expected boolean expression as the second argument.")),
            },
            LValue::NumericalValue(x1) => match rhs {
                LValue::NumericalValue(x2) => Ok(
                    if *x1 > *x2 {
                        core::cmp::Ordering::Greater
                    } else if *x1 == *x2 {
                        core::cmp::Ordering::Equal
                    } else {
                        core::cmp::Ordering::Less
                    },
                ),
                _ => Err(owned("Expected numerical expression as the second argument.")),
            },
            LValue::Quoted(_) => Err(owned("Can't compare quoted expressions.")),
            LValue::Procedure(_) => Err(owned("Can't compare procedures.")),
            LValue::Undefined => Err(owned("Can't compare #<undefined>'s.")),
        }
    }

    /// Boolean coercion.
    pub fn to_boolean(&self) -> (r: Result<bool, String>)
        ensures
            match r {
                Ok(b) => to_bool(self@) == Ok::<bool, Seq<char>>(b),
                Err(s) => to_bool(self@) == Err::<bool, Seq<char>>(s@),
            },
    {
        match self {
            LValue::NumericalValue(x) => Ok(*x >= 0),
            LValue::BooleanValue(b) => Ok(*b),
            LValue::StringValue(_) => Ok(true),
            LValue::Quoted(_) => Ok(true),
            _ => Err(owned("Can't convert procedures and #undefined's to booleans.")),
        }
    }
}

} // verus!
