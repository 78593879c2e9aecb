use vstd::prelude::*;

use core::cmp::Ordering;

use crate::compiler::{value_set, CompiledExpression, Expr};
use crate::decimal::{compare_number_chars, int_cmp, text_number_cmp};
use crate::mvt::{tag_value_model, TagValue};
use crate::pattern::{regex_finds, regex_group};
use crate::text::{
    chars_of, cmp_chars, cmp_str, ends_with, int_text, is_prefix, is_suffix, lex_cmp, push_int_text,
    starts_with, str_eq,
};
use crate::value::{render, truthy, values_equal, ExpressionValue, Val};

verus! {

broadcast use vstd::std_specs::vec::group_vec_axioms;

/// What an expression is evaluated against: the feature's properties, the
/// layer, the feature's geometry kind, and the tag key under test, if any.
#[derive(Debug)]
pub struct EvaluationContext {
    pub layer_name: String,
    /// The feature's properties, each name once.
    pub properties: Vec<(String, ExpressionValue)>,
    pub current_key: Option<String>,
    pub geometry_type: Option<String>,
}

/// The mathematical form of an [`EvaluationContext`].
pub struct Ctx {
    pub layer: Seq<char>,
    pub props: Seq<(Seq<char>, Val)>,
    pub key: Option<Seq<char>>,
    pub geom: Option<Seq<char>>,
}

pub open spec fn opt_text(o: Option<String>) -> Option<Seq<char>> {
    match o {
        Some(s) => Some(s@),
        None => None,
    }
}

impl EvaluationContext {
    pub open spec fn model(&self) -> Ctx {
        Ctx {
            layer: self.layer_name@,
            props: Seq::new(
                self.properties.len() as nat,
                |i: int| (self.properties[i].0@, self.properties[i].1.model()),
            ),
            key: opt_text(self.current_key),
            geom: opt_text(self.geometry_type),
        }
    }

    /// A context for the layer `layer_name` and a feature with the given
    /// properties, with no key and no geometry kind.
    pub fn new(layer_name: &str, properties: Vec<(String, TagValue)>) -> (r: EvaluationContext)
        ensures
            r.model().layer == layer_name@,
            r.model().props.len() == properties.len(),
            forall|i: int|
                0 <= i < properties.len() ==> (#[trigger] r.model().props[i]) == (
                properties[i].0@,
                tag_value_model(properties[i].1),
            ),
            r.current_key is None,
            r.geometry_type is None,
    {
        let mut props: Vec<(String, ExpressionValue)> = Vec::new();
        let mut i: usize = 0;
        while i < properties.len()
            invariant
                i <= properties.len(),
                props.len() == i,
                forall|j: int|
                    0 <= j < i ==> props[j].0@ == properties[j].0@ && props[j].1.model()
                        == tag_value_model(properties[j].1),
            decreases properties.len() - i,
        {
            let name = properties[i].0.clone();
            let value = ExpressionValue::from_mvt_value(&properties[i].1);
            props.push((name, value));
            i = i + 1;
        }
        EvaluationContext {
            layer_name: crate::text::owned(layer_name),
            properties: props,
            current_key: None,
            geometry_type: None,
        }
    }

    /// This context with `key` as the tag key under test.
    pub fn with_current_key(self, key: &str) -> (r: EvaluationContext)
        ensures
            r.model() == (Ctx { key: Some(key@), ..self.model() }),
    {
        let mut c = self;
        c.current_key = Some(crate::text::owned(key));
        c
    }

    /// This context with `geometry_type` as the feature's geometry kind.
    pub fn with_geometry_type(self, geometry_type: &str) -> (r: EvaluationContext)
        ensures
            r.model() == (Ctx { geom: Some(geometry_type@), ..self.model() }),
    {
        let mut c = self;
        c.geometry_type = Some(crate::text::owned(geometry_type));
        c
    }
}

/// The value of the property `name`: the first entry with that name, or
/// null when there is none.
pub open spec fn lookup(props: Seq<(Seq<char>, Val)>, name: Seq<char>) -> Val
    decreases props.len(),
{
    if props.len() == 0 {
        Val::Null
    } else if props[0].0 == name {
        props[0].1
    } else {
        lookup(props.drop_first(), name)
    }
}

pub open spec fn bool_cmp(a: bool, b: bool) -> Ordering {
    if a == b {
        Ordering::Equal
    } else if !a {
        Ordering::Less
    } else {
        Ordering::Greater
    }
}

/// The order of two values: null below everything else; booleans, integers
/// and strings among their own kind; numbers of either kind by numeric value;
/// any other pair by their texts.
#[verifier::opaque]
pub open spec fn compare(a: Val, b: Val) -> Ordering {
    match (a, b) {
        (Val::Null, Val::Null) => Ordering::Equal,
        (Val::Null, _) => Ordering::Less,
        (_, Val::Null) => Ordering::Greater,
        (Val::Bool(x), Val::Bool(y)) => bool_cmp(x, y),
        (Val::Num(x), Val::Num(y)) => int_cmp(x, y),
        (Val::Flt(x), Val::Flt(y)) => text_number_cmp(x, y),
        (Val::Num(x), Val::Flt(y)) => text_number_cmp(int_text(x), y),
        (Val::Flt(x), Val::Num(y)) => text_number_cmp(x, int_text(y)),
        (Val::Str(x), Val::Str(y)) => lex_cmp(x, y),
        _ => lex_cmp(render(a), render(b)),
    }
}

pub open spec fn text_value(o: Option<Seq<char>>) -> Val {
    match o {
        Some(s) => Val::Str(s),
        None => Val::Null,
    }
}

/// The value of an expression in a context.
#[verifier::opaque]
pub open spec fn eval(e: Expr, c: Ctx) -> Val
    decreases e,
{
    match e {
        Expr::Equal(l, r) => Val::Bool(compare(eval(*l, c), eval(*r, c)) == Ordering::Equal),
        Expr::NotEqual(l, r) => Val::Bool(compare(eval(*l, c), eval(*r, c)) != Ordering::Equal),
        Expr::LessThan(l, r) => Val::Bool(compare(eval(*l, c), eval(*r, c)) == Ordering::Less),
        Expr::GreaterThan(l, r) => Val::Bool(compare(eval(*l, c), eval(*r, c)) == Ordering::Greater),
        Expr::LessThanOrEqual(l, r) => Val::Bool(compare(eval(*l, c), eval(*r, c)) != Ordering::Greater),
        Expr::GreaterThanOrEqual(l, r) => Val::Bool(compare(eval(*l, c), eval(*r, c)) != Ordering::Less),
        Expr::Any(es) => Val::Bool(any_true(es, c)),
        Expr::All(es) => Val::Bool(all_true(es, c)),
        Expr::NoneOf(es) => Val::Bool(!any_true(es, c)),
        Expr::Not(x) => Val::Bool(!truthy(eval(*x, c))),
        Expr::In(x, set) => Val::Bool(set.contains(eval(*x, c))),
        Expr::StartsWith(x, p) => Val::Bool(is_prefix(p, render(eval(*x, c)))),
        Expr::EndsWith(x, p) => Val::Bool(is_suffix(p, render(eval(*x, c)))),
        Expr::RegexMatch(x, p) => Val::Bool(regex_finds(p, render(eval(*x, c)))),
        Expr::RegexCapture(x, p, g) => match regex_group(p, render(eval(*x, c)), g) {
            Some(s) => Val::Str(s),
            None => Val::Null,
        },
        Expr::Boolean(x) => Val::Bool(truthy(eval(*x, c))),
        Expr::Literal(v) => v,
        Expr::Tag(n) => lookup(c.props, n),
        Expr::Key => text_value(c.key),
        Expr::Type => text_value(c.geom),
    }
}

/// Whether some expression of `es` is true.
#[verifier::opaque]
pub open spec fn any_true(es: Seq<Expr>, c: Ctx) -> bool
    decreases es,
{
    es.len() > 0 && (truthy(eval(es[0], c)) || any_true(es.drop_first(), c))
}

/// Whether every expression of `es` is true.
#[verifier::opaque]
pub open spec fn all_true(es: Seq<Expr>, c: Ctx) -> bool
    decreases es,
{
    es.len() == 0 || (truthy(eval(es[0], c)) && all_true(es.drop_first(), c))
}

/// Evaluation of a compiled expression cannot fail; this type has no values
/// that evaluation produces.
#[derive(Debug, Clone, Copy, PartialEq, Eq, Structural)]
pub enum EvaluationError {
    /// Reserved: a compiled expression always evaluates.
    Unreachable,
}

fn text_of(v: &ExpressionValue) -> (r: Vec<char>)
    ensures
        r@ == render(v.model()),
{
    let mut out: Vec<char> = Vec::new();
    v.render_into(&mut out);
    assert(out@ =~= render(v.model()));
    out
}

/// Evaluates compiled expressions.
pub struct ExpressionExecutor;

impl ExpressionExecutor {
    /// Compares two values (see [`compare`]).
    pub fn compare_values(left: &ExpressionValue, right: &ExpressionValue) -> (r: Ordering)
        ensures
            r == compare(left.model(), right.model()),
    {
        proof {
            reveal(compare);
        }
        match (left, right) {
            (ExpressionValue::Null, ExpressionValue::Null) => Ordering::Equal,
            (ExpressionValue::Null, _) => Ordering::Less,
            (_, ExpressionValue::Null) => Ordering::Greater,
            (ExpressionValue::Boolean(a), ExpressionValue::Boolean(b)) => {
                if *a == *b {
                    Ordering::Equal
                } else if !*a {
                    Ordering::Less
                } else {
                    Ordering::Greater
                }
            },
            (ExpressionValue::Number(a), ExpressionValue::Number(b)) => {
                if *a < *b {
                    Ordering::Less
                } else if *a > *b {
                    Ordering::Greater
                } else {
                    Ordering::Equal
                }
            },
            (ExpressionValue::Float(a), ExpressionValue::Float(b)) => {
                compare_number_chars(&chars_of(a.as_str()), &chars_of(b.as_str()))
            },
            (ExpressionValue::Number(a), ExpressionValue::Float(b)) => {
                let mut x: Vec<char> = Vec::new();
                push_int_text(*a, &mut x);
                assert(x@ =~= int_text(*a as int));
                compare_number_chars(&x, &chars_of(b.as_str()))
            },
            (ExpressionValue::Float(a), ExpressionValue::Number(b)) => {
                let mut y: Vec<char> = Vec::new();
                push_int_text(*b, &mut y);
                assert(y@ =~= int_text(*b as int));
                compare_number_chars(&chars_of(a.as_str()), &y)
            },
            (ExpressionValue::String(a), ExpressionValue::String(b)) => cmp_str(a.as_str(), b.as_str()),
            _ => cmp_chars(&text_of(left), &text_of(right)),
        }
    }

    /// Evaluates an expression (see [`eval`]).
    pub fn evaluate(expr: &CompiledExpression, context: &EvaluationContext) -> (r: Result<ExpressionValue, EvaluationError>)
        ensures
            r is Ok,
            r->Ok_0.model() == eval(expr.model(), context.model()),
    {
        Ok(evaluate_expr(expr, context))
    }

    /// Evaluates an expression and takes the truth of the result.
    pub fn evaluate_bool(expr: &CompiledExpression, context: &EvaluationContext) -> (r: Result<bool, EvaluationError>)
        ensures
            r == Ok::<bool, EvaluationError>(truthy(eval(expr.model(), context.model()))),
    {
        Ok(evaluate_expr(expr, context).to_bool())
    }
}

fn lookup_property(context: &EvaluationContext, name: &String) -> (r: ExpressionValue)
    ensures
        r.model() == lookup(context.model().props, name@),
{
    let ghost props = context.model().props;
    let mut i: usize = 0;
    assert(props.subrange(0, props.len() as int) =~= props);
    while i < context.properties.len()
        invariant
            i <= context.properties.len(),
            props == context.model().props,
            lookup(props, name@) == lookup(props.subrange(i as int, props.len() as int), name@),
        decreases context.properties.len() - i,
    {
        assert(props.subrange(i as int, props.len() as int).drop_first() =~= props.subrange(i + 1, props.len() as int));
        if str_eq(context.properties[i].0.as_str(), name.as_str()) {
            return context.properties[i].1.copy();
        }
        i = i + 1;
    }
    ExpressionValue::Null
}

fn order_of(expr: &CompiledExpression, l: &CompiledExpression, r: &CompiledExpression, context: &EvaluationContext) -> (o: Ordering)
    requires
        decreases_to!(expr => l),
        decreases_to!(expr => r),
    ensures
        o == compare(eval(l.model(), context.model()), eval(r.model(), context.model())),
    decreases expr, 0nat,
{
    let a = evaluate_expr(l, context);
    let b = evaluate_expr(r, context);
    ExpressionExecutor::compare_values(&a, &b)
}

fn evaluate_expr(expr: &CompiledExpression, context: &EvaluationContext) -> (r: ExpressionValue)
    ensures
        r.model() == eval(expr.model(), context.model()),
    decreases expr, 1nat,
{
    proof {
        reveal(eval);
    }
    match expr {
        CompiledExpression::Equal(l, r) => ExpressionValue::Boolean(matches!(order_of(expr, l, r, context), Ordering::Equal)),
        CompiledExpression::NotEqual(l, r) => ExpressionValue::Boolean(!matches!(order_of(expr, l, r, context), Ordering::Equal)),
        CompiledExpression::LessThan(l, r) => ExpressionValue::Boolean(matches!(order_of(expr, l, r, context), Ordering::Less)),
        CompiledExpression::GreaterThan(l, r) => ExpressionValue::Boolean(matches!(order_of(expr, l, r, context), Ordering::Greater)),
        CompiledExpression::LessThanOrEqual(l, r) => ExpressionValue::Boolean(!matches!(order_of(expr, l, r, context), Ordering::Greater)),
        CompiledExpression::GreaterThanOrEqual(l, r) => ExpressionValue::Boolean(!matches!(order_of(expr, l, r, context), Ordering::Less)),
        CompiledExpression::Any(exprs) => {
            let ghost es = expr.model()->Any_0;
            let ghost c = context.model();
            assert(expr.model() == Expr::Any(es));
            assert(es.subrange(0, es.len() as int) =~= es);
            let mut i: usize = 0;
            while i < exprs.len()
                invariant
                    *expr == CompiledExpression::Any(*exprs),
                    expr.model() == Expr::Any(es),
                    decreases_to!(expr => exprs),
                    c == context.model(),
                    i <= exprs.len(),
                    es.len() == exprs.len(),
                    forall|j: int| 0 <= j < exprs.len() ==> es[j] == (#[trigger] exprs[j]).model(),
                    any_true(es, c) == any_true(es.subrange(i as int, es.len() as int), c),
                decreases exprs.len() - i,
            {
                proof {
                    lemma_unfold_lists(es.subrange(i as int, es.len() as int), c);
                    assert(es.subrange(i as int, es.len() as int).drop_first() =~= es.subrange(i + 1, es.len() as int));
                }
                let t = evaluate_expr(&exprs[i], context).to_bool();
                proof {
                    assert(es.subrange(i as int, es.len() as int)[0] == es[i as int]);
                    assert(t == truthy(eval(es[i as int], c)));
                }
                if t {
                    proof {
                        lemma_eval_lists(es, c);
                    }
                    return ExpressionValue::Boolean(true);
                }
                i = i + 1;
            }
            proof {
                lemma_unfold_lists(es.subrange(i as int, es.len() as int), c);
                lemma_eval_lists(es, c);
            }
            ExpressionValue::Boolean(false)
        },
        CompiledExpression::All(exprs) => {
            let ghost es = expr.model()->All_0;
            let ghost c = context.model();
            assert(expr.model() == Expr::All(es));
            assert(es.subrange(0, es.len() as int) =~= es);
            let mut i: usize = 0;
            while i < exprs.len()
                invariant
                    *expr == CompiledExpression::All(*exprs),
                    expr.model() == Expr::All(es),
                    decreases_to!(expr => exprs),
                    c == context.model(),
                    i <= exprs.len(),
                    es.len() == exprs.len(),
                    forall|j: int| 0 <= j < exprs.len() ==> es[j] == (#[trigger] exprs[j]).model(),
                    all_true(es, c) == all_true(es.subrange(i as int, es.len() as int), c),
                decreases exprs.len() - i,
            {
                proof {
                    lemma_unfold_lists(es.subrange(i as int, es.len() as int), c);
                    assert(es.subrange(i as int, es.len() as int).drop_first() =~= es.subrange(i + 1, es.len() as int));
                }
                let t = evaluate_expr(&exprs[i], context).to_bool();
                proof {
                    assert(es.subrange(i as int, es.len() as int)[0] == es[i as int]);
                    assert(t == truthy(eval(es[i as int], c)));
                }
                if !t {
                    proof {
                        lemma_eval_lists(es, c);
                    }
                    return ExpressionValue::Boolean(false);
                }
                i = i + 1;
            }
            proof {
                lemma_unfold_lists(es.subrange(i as int, es.len() as int), c);
                lemma_eval_lists(es, c);
            }
            ExpressionValue::Boolean(true)
        },
        CompiledExpression::NoneOf(exprs) => {
            let ghost es = expr.model()->NoneOf_0;
            let ghost c = context.model();
            assert(expr.model() == Expr::NoneOf(es));
            assert(es.subrange(0, es.len() as int) =~= es);
            let mut i: usize = 0;
            while i < exprs.len()
                invariant
                    *expr == CompiledExpression::NoneOf(*exprs),
                    expr.model() == Expr::NoneOf(es),
                    decreases_to!(expr => exprs),
                    c == context.model(),
                    i <= exprs.len(),
                    es.len() == exprs.len(),
                    forall|j: int| 0 <= j < exprs.len() ==> es[j] == (#[trigger] exprs[j]).model(),
                    any_true(es, c) == any_true(es.subrange(i as int, es.len() as int), c),
                decreases exprs.len() - i,
            {
                proof {
                    lemma_unfold_lists(es.subrange(i as int, es.len() as int), c);
                    assert(es.subrange(i as int, es.len() as int).drop_first() =~= es.subrange(i + 1, es.len() as int));
                }
                let t = evaluate_expr(&exprs[i], context).to_bool();
                proof {
                    assert(es.subrange(i as int, es.len() as int)[0] == es[i as int]);
                    assert(t == truthy(eval(es[i as int], c)));
                }
                if t {
                    proof {
                        lemma_eval_lists(es, c);
                    }
                    return ExpressionValue::Boolean(false);
                }
                i = i + 1;
            }
            proof {
                lemma_unfold_lists(es.subrange(i as int, es.len() as int), c);
                lemma_eval_lists(es, c);
            }
            ExpressionValue::Boolean(true)
        },
        CompiledExpression::Not(x) => ExpressionValue::Boolean(!evaluate_expr(x, context).to_bool()),
        CompiledExpression::In(x, vals) => {
            let v = evaluate_expr(x, context);
            assert(expr.model() == Expr::In(Box::new(x.model()), value_set(vals@)));
            let mut i: usize = 0;
            while i < vals.len()
                invariant
                    expr.model() == Expr::In(Box::new(x.model()), value_set(vals@)),
                    v.model() == eval(x.model(), context.model()),
                    i <= vals.len(),
                    forall|j: int| 0 <= j < i ==> vals[j].model() != v.model(),
                decreases vals.len() - i,
            {
                if values_equal(&vals[i], &v) {
                    proof {
                        reveal(eval);
                        assert(value_set(vals@).contains(v.model()));
                    }
                    return ExpressionValue::Boolean(true);
                }
                i = i + 1;
            }
            proof {
                reveal(eval);
            }
            ExpressionValue::Boolean(false)
        },
        CompiledExpression::StartsWith(x, p) => {
            let s = evaluate_expr(x, context).to_string();
            ExpressionValue::Boolean(starts_with(s.as_str(), p.as_str()))
        },
        CompiledExpression::EndsWith(x, p) => {
            let s = evaluate_expr(x, context).to_string();
            ExpressionValue::Boolean(ends_with(s.as_str(), p.as_str()))
        },
        CompiledExpression::RegexMatch(x, p) => {
            let s = evaluate_expr(x, context).to_string();
            ExpressionValue::Boolean(p.is_match(s.as_str()))
        },
        CompiledExpression::RegexCapture(x, p, g) => {
            let s = evaluate_expr(x, context).to_string();
            match p.capture(s.as_str(), *g) {
                Some(c) => ExpressionValue::String(c),
                None => ExpressionValue::Null,
            }
        },
        CompiledExpression::Boolean(x) => ExpressionValue::Boolean(evaluate_expr(x, context).to_bool()),
        CompiledExpression::Literal(v) => v.copy(),
        CompiledExpression::Tag(name) => lookup_property(context, name),
        CompiledExpression::Key => match &context.current_key {
            Some(k) => ExpressionValue::String(k.clone()),
            None => ExpressionValue::Null,
        },
        CompiledExpression::Type => match &context.geometry_type {
            Some(g) => ExpressionValue::String(g.clone()),
            None => ExpressionValue::Null,
        },
    }
}

proof fn lemma_eval_lists(es: Seq<Expr>, c: Ctx)
    ensures
        eval(Expr::Any(es), c) == Val::Bool(any_true(es, c)),
        eval(Expr::All(es), c) == Val::Bool(all_true(es, c)),
        eval(Expr::NoneOf(es), c) == Val::Bool(!any_true(es, c)),
{
    reveal(eval);
    reveal(any_true);
    reveal(all_true);
}

proof fn lemma_unfold_lists(es: Seq<Expr>, c: Ctx)
    ensures
        es.len() == 0 ==> !any_true(es, c) && all_true(es, c),
        es.len() > 0 ==> any_true(es, c) == (truthy(eval(es[0], c)) || any_true(es.drop_first(), c)),
        es.len() > 0 ==> all_true(es, c) == (truthy(eval(es[0], c)) && all_true(es.drop_first(), c)),
{
    reveal(eval);
    reveal(any_true);
    reveal(all_true);
}

/// Coercing to a boolean twice is coercing once.
pub proof fn lemma_boolean_idempotent(e: Expr, c: Ctx)
    ensures
        eval(Expr::Boolean(Box::new(Expr::Boolean(Box::new(e)))), c) == eval(Expr::Boolean(Box::new(e)), c),
{
    reveal(eval);
}

/// A value is in an `In` set exactly when it equals one of the set's members.
pub proof fn lemma_in_membership(x: Expr, vals: Seq<ExpressionValue>, v: ExpressionValue, c: Ctx)
    requires
        eval(x, c) == v.model(),
    ensures
        eval(Expr::In(Box::new(x), value_set(vals)), c) == Val::Bool(
            exists|i: int| 0 <= i < vals.len() && vals[i].model() == v.model(),
        ),
{
    reveal(eval);
}

} // verus!
