use vstd::prelude::*;

use crate::error::CompileError;
use crate::json::{Json, JsonValue};
use crate::operator::{operator_named, Operator};
use crate::pattern::{regex_accepts, Pattern};
use crate::value::{values_equal, ExpressionValue, Val};

verus! {

broadcast use vstd::std_specs::vec::group_vec_axioms;

/// A compiled filter expression, ready for evaluation.
#[derive(Debug)]
pub enum CompiledExpression {
    Equal(Box<CompiledExpression>, Box<CompiledExpression>),
    NotEqual(Box<CompiledExpression>, Box<CompiledExpression>),
    LessThan(Box<CompiledExpression>, Box<CompiledExpression>),
    GreaterThan(Box<CompiledExpression>, Box<CompiledExpression>),
    LessThanOrEqual(Box<CompiledExpression>, Box<CompiledExpression>),
    GreaterThanOrEqual(Box<CompiledExpression>, Box<CompiledExpression>),
    Any(Vec<CompiledExpression>),
    All(Vec<CompiledExpression>),
    NoneOf(Vec<CompiledExpression>),
    Not(Box<CompiledExpression>),
    /// Membership in a set of values, held without repetition.
    In(Box<CompiledExpression>, Vec<ExpressionValue>),
    StartsWith(Box<CompiledExpression>, String),
    EndsWith(Box<CompiledExpression>, String),
    RegexMatch(Box<CompiledExpression>, Pattern),
    RegexCapture(Box<CompiledExpression>, Pattern, usize),
    Boolean(Box<CompiledExpression>),
    Literal(ExpressionValue),
    Tag(String),
    Key,
    Type,
}

/// The mathematical form of a [`CompiledExpression`].
pub enum Expr {
    Equal(Box<Expr>, Box<Expr>),
    NotEqual(Box<Expr>, Box<Expr>),
    LessThan(Box<Expr>, Box<Expr>),
    GreaterThan(Box<Expr>, Box<Expr>),
    LessThanOrEqual(Box<Expr>, Box<Expr>),
    GreaterThanOrEqual(Box<Expr>, Box<Expr>),
    Any(Seq<Expr>),
    All(Seq<Expr>),
    NoneOf(Seq<Expr>),
    Not(Box<Expr>),
    In(Box<Expr>, Set<Val>),
    StartsWith(Box<Expr>, Seq<char>),
    EndsWith(Box<Expr>, Seq<char>),
    RegexMatch(Box<Expr>, Seq<char>),
    RegexCapture(Box<Expr>, Seq<char>, nat),
    Boolean(Box<Expr>),
    Literal(Val),
    Tag(Seq<char>),
    Key,
    Type,
}

/// The set of the models of some values.
pub open spec fn value_set(v: Seq<ExpressionValue>) -> Set<Val> {
    Set::new(|m: Val| exists|i: int| 0 <= i < v.len() && v[i].model() == m)
}

impl CompiledExpression {
    /// What this expression denotes.
    pub open spec fn model(&self) -> Expr
        decreases self,
    {
        match self {
            CompiledExpression::Equal(l, r) => Expr::Equal(Box::new(l.model()), Box::new(r.model())),
            CompiledExpression::NotEqual(l, r) => Expr::NotEqual(Box::new(l.model()), Box::new(r.model())),
            CompiledExpression::LessThan(l, r) => Expr::LessThan(Box::new(l.model()), Box::new(r.model())),
            CompiledExpression::GreaterThan(l, r) => Expr::GreaterThan(Box::new(l.model()), Box::new(r.model())),
            CompiledExpression::LessThanOrEqual(l, r) => Expr::LessThanOrEqual(
                Box::new(l.model()),
                Box::new(r.model()),
            ),
            CompiledExpression::GreaterThanOrEqual(l, r) => Expr::GreaterThanOrEqual(
                Box::new(l.model()),
                Box::new(r.model()),
            ),
            CompiledExpression::Any(v) => Expr::Any(
                Seq::new(
                    v.len() as nat,
                    |i: int|
                        if 0 <= i < v.len() {
                            v[i].model()
                        } else {
                            Expr::Key
                        },
                ),
            ),
            CompiledExpression::All(v) => Expr::All(
                Seq::new(
                    v.len() as nat,
                    |i: int|
                        if 0 <= i < v.len() {
                            v[i].model()
                        } else {
                            Expr::Key
                        },
                ),
            ),
            CompiledExpression::NoneOf(v) => Expr::NoneOf(
                Seq::new(
                    v.len() as nat,
                    |i: int|
                        if 0 <= i < v.len() {
                            v[i].model()
                        } else {
                            Expr::Key
                        },
                ),
            ),
            CompiledExpression::Not(x) => Expr::Not(Box::new(x.model())),
            CompiledExpression::In(x, vals) => Expr::In(Box::new(x.model()), value_set(vals@)),
            CompiledExpression::StartsWith(x, p) => Expr::StartsWith(Box::new(x.model()), p@),
            CompiledExpression::EndsWith(x, p) => Expr::EndsWith(Box::new(x.model()), p@),
            CompiledExpression::RegexMatch(x, p) => Expr::RegexMatch(Box::new(x.model()), p@),
            CompiledExpression::RegexCapture(x, p, g) => Expr::RegexCapture(Box::new(x.model()), p@, *g as nat),
            CompiledExpression::Boolean(x) => Expr::Boolean(Box::new(x.model())),
            CompiledExpression::Literal(v) => Expr::Literal(v.model()),
            CompiledExpression::Tag(n) => Expr::Tag(n@),
            CompiledExpression::Key => Expr::Key,
            CompiledExpression::Type => Expr::Type,
        }
    }

    /// No two members of an `In` set are equal, anywhere in the expression.
    pub open spec fn sets_distinct(&self) -> bool
        decreases self,
    {
        match self {
            CompiledExpression::Equal(l, r) => l.sets_distinct() && r.sets_distinct(),
            CompiledExpression::NotEqual(l, r) => l.sets_distinct() && r.sets_distinct(),
            CompiledExpression::LessThan(l, r) => l.sets_distinct() && r.sets_distinct(),
            CompiledExpression::GreaterThan(l, r) => l.sets_distinct() && r.sets_distinct(),
            CompiledExpression::LessThanOrEqual(l, r) => l.sets_distinct() && r.sets_distinct(),
            CompiledExpression::GreaterThanOrEqual(l, r) => l.sets_distinct() && r.sets_distinct(),
            CompiledExpression::Any(v) => forall|i: int| 0 <= i < v.len() ==> (#[trigger] v[i]).sets_distinct(),
            CompiledExpression::All(v) => forall|i: int| 0 <= i < v.len() ==> (#[trigger] v[i]).sets_distinct(),
            CompiledExpression::NoneOf(v) => forall|i: int| 0 <= i < v.len() ==> (#[trigger] v[i]).sets_distinct(),
            CompiledExpression::Not(x) => x.sets_distinct(),
            CompiledExpression::In(x, vals) => x.sets_distinct() && forall|i: int, j: int|
                0 <= i < j < vals.len() ==> vals[i].model() != vals[j].model(),
            CompiledExpression::StartsWith(x, _) => x.sets_distinct(),
            CompiledExpression::EndsWith(x, _) => x.sets_distinct(),
            CompiledExpression::RegexMatch(x, _) => x.sets_distinct(),
            CompiledExpression::RegexCapture(x, _, _) => x.sets_distinct(),
            CompiledExpression::Boolean(x) => x.sets_distinct(),
            _ => true,
        }
    }
}

/// The value that a JSON document stands for as a literal: integers that fit
/// as numbers, other numbers by their text, objects by their serialised text.
pub open spec fn literal_of(j: Json) -> Val
    decreases j,
{
    match j {
        Json::Null => Val::Null,
        Json::Bool(b) => Val::Bool(b),
        Json::Num { as_int, text, .. } => match as_int {
            Some(i) => Val::Num(i),
            None => Val::Flt(text),
        },
        Json::Str(s) => Val::Str(s),
        Json::Arr(a) => Val::Arr(
            Seq::new(
                a.len(),
                |i: int|
                    if 0 <= i < a.len() {
                        literal_of(a[i])
                    } else {
                        Val::Null
                    },
            ),
        ),
        Json::Obj(t) => Val::Str(t),
    }
}

pub open spec fn count_error(expected: nat, got: nat) -> CompileError {
    CompileError::ArgumentCount { expected: expected as usize, got: got as usize }
}

/// The expression an operator applied to two compiled arguments stands for.
pub open spec fn binary_expr(op: Operator, x: Expr, y: Expr) -> Expr {
    match op {
        Operator::Equal => Expr::Equal(Box::new(x), Box::new(y)),
        Operator::NotEqual => Expr::NotEqual(Box::new(x), Box::new(y)),
        Operator::LessThan => Expr::LessThan(Box::new(x), Box::new(y)),
        Operator::GreaterThan => Expr::GreaterThan(Box::new(x), Box::new(y)),
        Operator::LessThanOrEqual => Expr::LessThanOrEqual(Box::new(x), Box::new(y)),
        _ => Expr::GreaterThanOrEqual(Box::new(x), Box::new(y)),
    }
}

pub open spec fn is_comparison(op: Operator) -> bool {
    op == Operator::Equal || op == Operator::NotEqual || op == Operator::LessThan || op
        == Operator::GreaterThan || op == Operator::LessThanOrEqual || op
        == Operator::GreaterThanOrEqual
}

/// What compiling a JSON expression gives: the expression, or the first
/// error met, checking the operator's arity first and its arguments from
/// left to right.
pub open spec fn compile_spec(j: Json) -> Result<Expr, CompileError>
    decreases j, 2nat, 0nat,
{
    match j {
        Json::Arr(a) => if a.len() == 0 {
            Err(CompileError::EmptyExpression)
        } else {
            match a[0] {
                Json::Str(name) => match operator_named(name) {
                    Some(op) => compile_operator_spec(op, j),
                    None => Err(CompileError::UnknownOperator),
                },
                _ => Err(CompileError::OperatorNotString),
            }
        },
        Json::Obj(_) => Err(CompileError::ObjectExpression),
        _ => Ok(Expr::Literal(literal_of(j))),
    }
}

/// What compiling the arguments of `j` from the `k`-th element on gives.
pub open spec fn compile_list_spec(j: Json, k: nat) -> Result<Seq<Expr>, CompileError>
    decreases j, 0nat, j->Arr_0.len() - k,
{
    if j is Arr && k < j->Arr_0.len() {
        match compile_spec(j->Arr_0[k as int]) {
            Err(e) => Err(e),
            Ok(x) => match compile_list_spec(j, k + 1) {
                Err(e) => Err(e),
                Ok(rest) => Ok(seq![x] + rest),
            },
        }
    } else {
        Ok(Seq::empty())
    }
}

/// What compiling the expression array `j`, whose operator is `op`, gives.
pub open spec fn compile_operator_spec(op: Operator, j: Json) -> Result<Expr, CompileError>
    decreases j, 1nat, 0nat,
{
    if j is Arr && j->Arr_0.len() >= 1 {
        let a = j->Arr_0;
        let n = (a.len() - 1) as nat;
        if is_comparison(op) {
            if n != 2 {
                Err(count_error(2, n))
            } else {
                match compile_spec(a[1]) {
                    Err(e) => Err(e),
                    Ok(x) => match compile_spec(a[2]) {
                        Err(e) => Err(e),
                        Ok(y) => Ok(binary_expr(op, x, y)),
                    },
                }
            }
        } else if op == Operator::Any || op == Operator::All || op == Operator::NoneOf {
            match compile_list_spec(j, 1) {
                Err(e) => Err(e),
                Ok(xs) => Ok(
                    if op == Operator::Any {
                        Expr::Any(xs)
                    } else if op == Operator::All {
                        Expr::All(xs)
                    } else {
                        Expr::NoneOf(xs)
                    },
                ),
            }
        } else if op == Operator::Not || op == Operator::Boolean {
            if n != 1 {
                Err(count_error(1, n))
            } else {
                match compile_spec(a[1]) {
                    Err(e) => Err(e),
                    Ok(x) => Ok(
                        if op == Operator::Not {
                            Expr::Not(Box::new(x))
                        } else {
                            Expr::Boolean(Box::new(x))
                        },
                    ),
                }
            }
        } else if op == Operator::In {
            if n != 2 {
                Err(count_error(2, n))
            } else {
                match compile_spec(a[1]) {
                    Err(e) => Err(e),
                    Ok(x) => match compile_spec(a[2]) {
                        Err(e) => Err(e),
                        Ok(Expr::Literal(Val::Arr(items))) => Ok(Expr::In(Box::new(x), items.to_set())),
                        Ok(_) => Err(CompileError::ExpectedArray),
                    },
                }
            }
        } else if op == Operator::StartsWith || op == Operator::EndsWith || op == Operator::RegexMatch {
            if n != 2 {
                Err(count_error(2, n))
            } else {
                match compile_spec(a[1]) {
                    Err(e) => Err(e),
                    Ok(x) => match a[2] {
                        Json::Str(p) => if op == Operator::StartsWith {
                            Ok(Expr::StartsWith(Box::new(x), p))
                        } else if op == Operator::EndsWith {
                            Ok(Expr::EndsWith(Box::new(x), p))
                        } else if regex_accepts(p) {
                            Ok(Expr::RegexMatch(Box::new(x), p))
                        } else {
                            Err(CompileError::InvalidRegex)
                        },
                        _ => Err(CompileError::ExpectedString),
                    },
                }
            }
        } else if op == Operator::RegexCapture {
            if n < 3 {
                Err(CompileError::TooFewArguments { min: 3, got: n as usize })
            } else {
                match compile_spec(a[1]) {
                    Err(e) => Err(e),
                    Ok(x) => match a[2] {
                        Json::Str(p) => match a[3] {
                            Json::Num { as_nat: Some(g), .. } => if g <= usize::MAX {
                                if regex_accepts(p) {
                                    Ok(Expr::RegexCapture(Box::new(x), p, g))
                                } else {
                                    Err(CompileError::InvalidRegex)
                                }
                            } else {
                                Err(CompileError::ExpectedGroupIndex)
                            },
                            _ => Err(CompileError::ExpectedGroupIndex),
                        },
                        _ => Err(CompileError::ExpectedString),
                    },
                }
            }
        } else if op == Operator::Literal {
            if n != 1 {
                Err(count_error(1, n))
            } else {
                Ok(Expr::Literal(literal_of(a[1])))
            }
        } else if op == Operator::Tag {
            if n != 1 {
                Err(count_error(1, n))
            } else {
                match a[1] {
                    Json::Str(name) => Ok(Expr::Tag(name)),
                    _ => Err(CompileError::ExpectedString),
                }
            }
        } else if n != 0 {
            Err(count_error(0, n))
        } else if op == Operator::Key {
            Ok(Expr::Key)
        } else {
            Ok(Expr::Type)
        }
    } else {
        Err(CompileError::EmptyExpression)
    }
}

/// `r` is the outcome that `s` describes.
pub open spec fn compiled_as(r: Result<CompiledExpression, CompileError>, s: Result<Expr, CompileError>) -> bool {
    match s {
        Ok(e) => r is Ok && r->Ok_0.model() == e && r->Ok_0.sets_distinct(),
        Err(e) => r == Err::<CompiledExpression, CompileError>(e),
    }
}

impl ExpressionValue {
    /// The literal value that a JSON document stands for (see [`literal_of`]).
    pub fn from_json_value(value: &JsonValue) -> (r: ExpressionValue)
        ensures
            r.model() == literal_of(value.model()),
        decreases value,
    {
        match value {
            JsonValue::Null => ExpressionValue::Null,
            JsonValue::Bool(b) => ExpressionValue::Boolean(*b),
            JsonValue::Number(n) => match n.as_i64 {
                Some(i) => ExpressionValue::Number(i),
                None => ExpressionValue::Float(n.text.clone()),
            },
            JsonValue::String(s) => ExpressionValue::String(s.clone()),
            JsonValue::Array(items) => {
                let mut out: Vec<ExpressionValue> = Vec::new();
                let mut i: usize = 0;
                while i < items.len()
                    invariant
                        *value == JsonValue::Array(*items),
                        decreases_to!(value => items),
                        i <= items.len(),
                        out.len() == i,
                        forall|j: int| 0 <= j < i ==> out[j].model() == literal_of(items[j].model()),
                    decreases items.len() - i,
                {
                    out.push(ExpressionValue::from_json_value(&items[i]));
                    i = i + 1;
                }
                let r = ExpressionValue::Array(out);
                assert(r.model()->Arr_0 =~= literal_of(value.model())->Arr_0);
                r
            },
            JsonValue::Object(t) => ExpressionValue::String(t.clone()),
        }
    }
}

/// Appending a value adds its model to the set of models.
proof fn lemma_value_set_push(s: Seq<ExpressionValue>, x: ExpressionValue)
    ensures
        value_set(s.push(x)) == value_set(s).insert(x.model()),
{
    let t = s.push(x);
    assert forall|m: Val| #[trigger] value_set(t).contains(m) <==> value_set(s).insert(x.model()).contains(m) by {
        if value_set(t).contains(m) {
            let p = choose|p: int| 0 <= p < t.len() && t[p].model() == m;
            if p < s.len() {
                assert(s[p].model() == m);
            }
        }
        if value_set(s).contains(m) {
            let p = choose|p: int| 0 <= p < s.len() && s[p].model() == m;
            assert(t[p].model() == m);
        }
        if m == x.model() {
            assert(t[s.len() as int].model() == m);
        }
    }
    assert(value_set(t) =~= value_set(s).insert(x.model()));
}

/// The members of `items`, each once.
fn distinct_values(items: &Vec<ExpressionValue>) -> (r: Vec<ExpressionValue>)
    ensures
        value_set(r@) == value_set(items@),
        forall|i: int, j: int| 0 <= i < j < r.len() ==> r[i].model() != r[j].model(),
{
    let mut out: Vec<ExpressionValue> = Vec::new();
    let mut i: usize = 0;
    assert(value_set(out@) =~= value_set(items@.subrange(0, 0)));
    while i < items.len()
        invariant
            i <= items.len(),
            forall|p: int, q: int| 0 <= p < q < out.len() ==> out[p].model() != out[q].model(),
            value_set(out@) == value_set(items@.subrange(0, i as int)),
        decreases items.len() - i,
    {
        let mut found = false;
        let mut k: usize = 0;
        while k < out.len()
            invariant
                k <= out.len(),
                i < items.len(),
                found ==> value_set(out@).contains(items[i as int].model()),
                !found ==> forall|p: int| 0 <= p < k ==> out[p].model() != items[i as int].model(),
            decreases out.len() - k,
        {
            if values_equal(&out[k], &items[i]) {
                found = true;
            }
            k = k + 1;
        }
        proof {
            assert(items@.subrange(0, i + 1) =~= items@.subrange(0, i as int).push(items[i as int]));
            lemma_value_set_push(items@.subrange(0, i as int), items[i as int]);
        }
        if !found {
            let c = items[i].copy();
            proof {
                lemma_value_set_push(out@, c);
            }
            out.push(c);
        } else {
            proof {
                assert(value_set(out@).insert(items[i as int].model()) =~= value_set(out@));
            }
        }
        i = i + 1;
    }
    proof {
        assert(items@.subrange(0, i as int) =~= items@);
    }
    out
}

/// The values of `v` as a set equal the set of their models.
proof fn lemma_value_set_is_to_set(v: Seq<ExpressionValue>, items: Seq<Val>)
    requires
        v.len() == items.len(),
        forall|i: int| 0 <= i < v.len() ==> v[i].model() == items[i],
    ensures
        value_set(v) == items.to_set(),
{
    assert forall|m: Val| #[trigger] value_set(v).contains(m) <==> items.to_set().contains(m) by {
        if value_set(v).contains(m) {
            let p = choose|p: int| 0 <= p < v.len() && v[p].model() == m;
            assert(items[p] == m);
        }
        if items.to_set().contains(m) {
            let p = choose|p: int| 0 <= p < items.len() && items[p] == m;
            assert(v[p].model() == m);
        }
    }
    assert(value_set(v) =~= items.to_set());
}

fn ensure_arg_count(got: usize, expected: usize) -> (r: Result<(), CompileError>)
    ensures
        got == expected ==> r is Ok,
        got != expected ==> r == Err::<(), CompileError>(CompileError::ArgumentCount { expected, got }),
{
    if got != expected {
        Err(CompileError::ArgumentCount { expected, got })
    } else {
        Ok(())
    }
}

fn ensure_min_arg_count(got: usize, min: usize) -> (r: Result<(), CompileError>)
    ensures
        got >= min ==> r is Ok,
        got < min ==> r == Err::<(), CompileError>(CompileError::TooFewArguments { min, got }),
{
    if got < min {
        Err(CompileError::TooFewArguments { min, got })
    } else {
        Ok(())
    }
}

fn make_binary(op: Operator, x: CompiledExpression, y: CompiledExpression) -> (r: CompiledExpression)
    ensures
        r.model() == binary_expr(op, x.model(), y.model()),
        r.sets_distinct() == (x.sets_distinct() && y.sets_distinct()),
{
    match op {
        Operator::Equal => CompiledExpression::Equal(Box::new(x), Box::new(y)),
        Operator::NotEqual => CompiledExpression::NotEqual(Box::new(x), Box::new(y)),
        Operator::LessThan => CompiledExpression::LessThan(Box::new(x), Box::new(y)),
        Operator::GreaterThan => CompiledExpression::GreaterThan(Box::new(x), Box::new(y)),
        Operator::LessThanOrEqual => CompiledExpression::LessThanOrEqual(Box::new(x), Box::new(y)),
        _ => CompiledExpression::GreaterThanOrEqual(Box::new(x), Box::new(y)),
    }
}

/// Compiles filter expressions written in JSON.
pub struct ExpressionCompiler;

impl ExpressionCompiler {
    /// Compiles an expression (see [`compile_spec`]).
    pub fn compile(expr: &JsonValue) -> (r: Result<CompiledExpression, CompileError>)
        ensures
            compiled_as(r, compile_spec(expr.model())),
        decreases expr, 2nat, 0nat,
    {
        match expr {
            JsonValue::Array(arr) => {
                if arr.len() == 0 {
                    return Err(CompileError::EmptyExpression);
                }
                assert(expr.model()->Arr_0[0] == arr[0].model());
                match &arr[0] {
                    JsonValue::String(name) => match Operator::from_str(name.as_str()) {
                        Ok(op) => Self::compile_operator(op, expr),
                        Err(e) => Err(e),
                    },
                    _ => Err(CompileError::OperatorNotString),
                }
            },
            JsonValue::Object(_) => Err(CompileError::ObjectExpression),
            _ => Ok(CompiledExpression::Literal(ExpressionValue::from_json_value(expr))),
        }
    }

    /// Compiles the arguments of the expression array `expr` from the `k`-th element on.
    fn compile_list(expr: &JsonValue, k: usize) -> (r: Result<Vec<CompiledExpression>, CompileError>)
        ensures
            match compile_list_spec(expr.model(), k as nat) {
                Ok(xs) => r is Ok && r->Ok_0.len() == xs.len() && (forall|i: int|
                    0 <= i < xs.len() ==> (#[trigger] r->Ok_0[i]).model() == xs[i] && r->Ok_0[i].sets_distinct()),
                Err(e) => r == Err::<Vec<CompiledExpression>, CompileError>(e),
            },
        decreases expr, 0nat, expr.model()->Arr_0.len() - k,
    {
        match expr {
            JsonValue::Array(arr) => {
                if k < arr.len() {
                    assert(expr.model()->Arr_0[k as int] == arr[k as int].model());
                    let x = match Self::compile(&arr[k]) {
                        Ok(x) => x,
                        Err(e) => return Err(e),
                    };
                    let mut rest = match Self::compile_list(expr, k + 1) {
                        Ok(rest) => rest,
                        Err(e) => return Err(e),
                    };
                    rest.insert(0, x);
                    Ok(rest)
                } else {
                    Ok(Vec::new())
                }
            },
            _ => Ok(Vec::new()),
        }
    }

    /// Compiles the expression array `expr`, whose operator is `op` (see
    /// [`compile_operator_spec`]).
    fn compile_operator(op: Operator, expr: &JsonValue) -> (r: Result<CompiledExpression, CompileError>)
        ensures
            compiled_as(r, compile_operator_spec(op, expr.model())),
        decreases expr, 1nat, 0nat,
    {
        let arr = match expr {
            JsonValue::Array(arr) => arr,
            _ => return Err(CompileError::EmptyExpression),
        };
        if arr.len() == 0 {
            return Err(CompileError::EmptyExpression);
        }
        let ghost a = expr.model()->Arr_0;
        assert(forall|i: int| 0 <= i < arr.len() ==> a[i] == (#[trigger] arr[i]).model());
        let n = arr.len() - 1;
        match op {
            Operator::Equal | Operator::NotEqual | Operator::LessThan | Operator::GreaterThan
            | Operator::LessThanOrEqual | Operator::GreaterThanOrEqual => {
                if let Err(e) = ensure_arg_count(n, 2) {
                    return Err(e);
                }
                let x = match Self::compile(&arr[1]) {
                    Ok(x) => x,
                    Err(e) => return Err(e),
                };
                let y = match Self::compile(&arr[2]) {
                    Ok(y) => y,
                    Err(e) => return Err(e),
                };
                Ok(make_binary(op, x, y))
            },
            Operator::Any | Operator::All | Operator::NoneOf => {
                let xs = match Self::compile_list(expr, 1) {
                    Ok(xs) => xs,
                    Err(e) => return Err(e),
                };
                let ghost spec_xs = compile_list_spec(expr.model(), 1)->Ok_0;
                let r = match op {
                    Operator::Any => CompiledExpression::Any(xs),
                    Operator::All => CompiledExpression::All(xs),
                    _ => CompiledExpression::NoneOf(xs),
                };
                proof {
                    if r is Any {
                        assert(r.model()->Any_0 =~= spec_xs);
                    } else if r is All {
                        assert(r.model()->All_0 =~= spec_xs);
                    } else {
                        assert(r.model()->NoneOf_0 =~= spec_xs);
                    }
                }
                Ok(r)
            },
            Operator::Not | Operator::Boolean => {
                if let Err(e) = ensure_arg_count(n, 1) {
                    return Err(e);
                }
                let x = match Self::compile(&arr[1]) {
                    Ok(x) => x,
                    Err(e) => return Err(e),
                };
                match op {
                    Operator::Not => Ok(CompiledExpression::Not(Box::new(x))),
                    _ => Ok(CompiledExpression::Boolean(Box::new(x))),
                }
            },
            Operator::In => {
                if let Err(e) = ensure_arg_count(n, 2) {
                    return Err(e);
                }
                let x = match Self::compile(&arr[1]) {
                    Ok(x) => x,
                    Err(e) => return Err(e),
                };
                let y = match Self::compile(&arr[2]) {
                    Ok(y) => y,
                    Err(e) => return Err(e),
                };
                match y {
                    CompiledExpression::Literal(ExpressionValue::Array(items)) => {
                        let vals = distinct_values(&items);
                        proof {
                            lemma_value_set_is_to_set(items@, y.model()->Literal_0->Arr_0);
                        }
                        Ok(CompiledExpression::In(Box::new(x), vals))
                    },
                    _ => Err(CompileError::ExpectedArray),
                }
            },
            Operator::StartsWith | Operator::EndsWith | Operator::RegexMatch => {
                if let Err(e) = ensure_arg_count(n, 2) {
                    return Err(e);
                }
                let x = match Self::compile(&arr[1]) {
                    Ok(x) => x,
                    Err(e) => return Err(e),
                };
                let p = match &arr[2] {
                    JsonValue::String(p) => p,
                    _ => return Err(CompileError::ExpectedString),
                };
                match op {
                    Operator::StartsWith => Ok(CompiledExpression::StartsWith(Box::new(x), p.clone())),
                    Operator::EndsWith => Ok(CompiledExpression::EndsWith(Box::new(x), p.clone())),
                    _ => match Pattern::new(p.as_str()) {
                        Some(pattern) => Ok(CompiledExpression::RegexMatch(Box::new(x), pattern)),
                        None => Err(CompileError::InvalidRegex),
                    },
                }
            },
            Operator::RegexCapture => {
                if let Err(e) = ensure_min_arg_count(n, 3) {
                    return Err(e);
                }
                let x = match Self::compile(&arr[1]) {
                    Ok(x) => x,
                    Err(e) => return Err(e),
                };
                let p = match &arr[2] {
                    JsonValue::String(p) => p,
                    _ => return Err(CompileError::ExpectedString),
                };
                let group: usize = match &arr[3] {
                    JsonValue::Number(num) => match num.as_u64 {
                        Some(g) => {
                            if g > usize::MAX as u64 {
                                return Err(CompileError::ExpectedGroupIndex);
                            }
                            g as usize
                        },
                        None => return Err(CompileError::ExpectedGroupIndex),
                    },
                    _ => return Err(CompileError::ExpectedGroupIndex),
                };
                match Pattern::new(p.as_str()) {
                    Some(pattern) => Ok(CompiledExpression::RegexCapture(Box::new(x), pattern, group)),
                    None => Err(CompileError::InvalidRegex),
                }
            },
            Operator::Literal => {
                if let Err(e) = ensure_arg_count(n, 1) {
                    return Err(e);
                }
                Ok(CompiledExpression::Literal(ExpressionValue::from_json_value(&arr[1])))
            },
            Operator::Tag => {
                if let Err(e) = ensure_arg_count(n, 1) {
                    return Err(e);
                }
                match &arr[1] {
                    JsonValue::String(name) => Ok(CompiledExpression::Tag(name.clone())),
                    _ => Err(CompileError::ExpectedString),
                }
            },
            Operator::Key | Operator::Type => {
                if let Err(e) = ensure_arg_count(n, 0) {
                    return Err(e);
                }
                match op {
                    Operator::Key => Ok(CompiledExpression::Key),
                    _ => Ok(CompiledExpression::Type),
                }
            },
        }
    }
}

} // verus!
