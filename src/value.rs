use vstd::prelude::*;

use crate::text::{chars_of, int_text, push_int_text, string_of, str_eq};

verus! {

broadcast use vstd::std_specs::vec::group_vec_axioms;

/// A value that a filter expression evaluates to.
///
/// A `Float` holds the decimal rendering of a floating-point number, so that
/// values compare and hash exactly.
#[derive(Debug, Eq)]
pub enum ExpressionValue {
    String(String),
    Number(i64),
    Float(String),
    Boolean(bool),
    Null,
    Array(Vec<ExpressionValue>),
}

/// The mathematical form of an [`ExpressionValue`].
pub enum Val {
    Str(Seq<char>),
    Num(int),
    Flt(Seq<char>),
    Bool(bool),
    Null,
    Arr(Seq<Val>),
}

impl ExpressionValue {
    /// What this value denotes.
    pub open spec fn model(&self) -> Val
        decreases self,
    {
        match self {
            ExpressionValue::String(s) => Val::Str(s@),
            ExpressionValue::Number(n) => Val::Num(*n as int),
            ExpressionValue::Float(s) => Val::Flt(s@),
            ExpressionValue::Boolean(b) => Val::Bool(*b),
            ExpressionValue::Null => Val::Null,
            ExpressionValue::Array(v) => Val::Arr(
                Seq::new(
                    v.len() as nat,
                    |i: int|
                        if 0 <= i < v.len() {
                            v[i].model()
                        } else {
                            Val::Null
                        },
                ),
            ),
        }
    }
}

/// The truth of a value when a condition needs one: a non-empty string or
/// array, a non-zero number, a float other than `0` and `0.0`, `true`.
pub open spec fn truthy(v: Val) -> bool {
    match v {
        Val::Bool(b) => b,
        Val::Str(s) => s.len() > 0,
        Val::Num(n) => n != 0,
        Val::Flt(s) => s != seq!['0'] && s != seq!['0', '.', '0'],
        Val::Null => false,
        Val::Arr(a) => a.len() > 0,
    }
}

/// The text of a value: strings and float texts as they are, numbers in
/// decimal, `true`, `false`, `null`, and arrays as `[a, b]`.
pub open spec fn render(v: Val) -> Seq<char>
    decreases v,
{
    match v {
        Val::Str(s) => s,
        Val::Num(n) => int_text(n),
        Val::Flt(s) => s,
        Val::Bool(b) => if b {
            seq!['t', 'r', 'u', 'e']
        } else {
            seq!['f', 'a', 'l', 's', 'e']
        },
        Val::Null => seq!['n', 'u', 'l', 'l'],
        Val::Arr(a) => seq!['['] + render_list(a) + seq![']'],
    }
}

/// The texts of the values of `a`, with `", "` between them.
pub open spec fn render_list(a: Seq<Val>) -> Seq<char>
    decreases a,
{
    if a.len() == 0 {
        Seq::empty()
    } else if a.len() == 1 {
        render(a[0])
    } else {
        render_list(a.drop_last()) + seq![',', ' '] + render(a.last())
    }
}

/// Tells whether two values are the same kind with the same payload.
pub fn values_equal(a: &ExpressionValue, b: &ExpressionValue) -> (r: bool)
    ensures
        r == (a.model() == b.model()),
    decreases a,
{
    match (a, b) {
        (ExpressionValue::String(x), ExpressionValue::String(y)) => str_eq(x.as_str(), y.as_str()),
        (ExpressionValue::Number(x), ExpressionValue::Number(y)) => *x == *y,
        (ExpressionValue::Float(x), ExpressionValue::Float(y)) => str_eq(x.as_str(), y.as_str()),
        (ExpressionValue::Boolean(x), ExpressionValue::Boolean(y)) => *x == *y,
        (ExpressionValue::Null, ExpressionValue::Null) => true,
        (ExpressionValue::Array(x), ExpressionValue::Array(y)) => {
            if x.len() != y.len() {
                proof {
                    assert(a.model()->Arr_0.len() != b.model()->Arr_0.len());
                }
                return false;
            }
            let mut i: usize = 0;
            while i < x.len()
                invariant
                    x.len() == y.len(),
                    i <= x.len(),
                    *a == ExpressionValue::Array(*x),
                    *b == ExpressionValue::Array(*y),
                    forall|j: int| 0 <= j < i ==> x[j].model() == y[j].model(),
                decreases x.len() - i,
            {
                if !values_equal(&x[i], &y[i]) {
                    proof {
                        assert(a.model()->Arr_0[i as int] != b.model()->Arr_0[i as int]);
                    }
                    return false;
                }
                i = i + 1;
            }
            proof {
                assert(a.model()->Arr_0 =~= b.model()->Arr_0);
            }
            true
        },
        _ => false,
    }
}

/// Appends the text of `v` to `out`.
fn render_value_into(v: &ExpressionValue, out: &mut Vec<char>)
    ensures
        final(out)@ == old(out)@ + render(v.model()),
    decreases v,
{
    match v {
        ExpressionValue::String(s) => {
            let mut cs = chars_of(s.as_str());
            out.append(&mut cs);
        },
        ExpressionValue::Number(n) => push_int_text(*n, out),
        ExpressionValue::Float(s) => {
            let mut cs = chars_of(s.as_str());
            out.append(&mut cs);
        },
        ExpressionValue::Boolean(b) => {
            let mut cs = if *b {
                vec!['t', 'r', 'u', 'e']
            } else {
                vec!['f', 'a', 'l', 's', 'e']
            };
            proof {
                if *b {
                    assert(cs@ =~= seq!['t', 'r', 'u', 'e']);
                } else {
                    assert(cs@ =~= seq!['f', 'a', 'l', 's', 'e']);
                }
            }
            out.append(&mut cs);
        },
        ExpressionValue::Null => {
            let mut cs = vec!['n', 'u', 'l', 'l'];
            assert(cs@ =~= seq!['n', 'u', 'l', 'l']);
            out.append(&mut cs);
        },
        ExpressionValue::Array(items) => {
            let ghost start = old(out)@;
            let ghost a = v.model()->Arr_0;
            out.push('[');
            let mut i: usize = 0;
            while i < items.len()
                invariant
                    *v == ExpressionValue::Array(*items),
                    decreases_to!(v => items),
                    i <= items.len(),
                    a.len() == items.len(),
                    forall|j: int| 0 <= j < items.len() ==> a[j] == items[j].model(),
                    out@ == start + seq!['['] + render_list(a.subrange(0, i as int)),
                decreases items.len() - i,
            {
                if i > 0 {
                    out.push(',');
                    out.push(' ');
                }
                render_value_into(&items[i], out);
                proof {
                    let p = a.subrange(0, i + 1);
                    assert(p.drop_last() =~= a.subrange(0, i as int));
                    assert(out@ =~= start + seq!['['] + render_list(p));
                }
                i = i + 1;
            }
            out.push(']');
            proof {
                assert(a.subrange(0, i as int) =~= a);
                assert(v.model() == Val::Arr(a));
                assert(out@ =~= start + render(v.model()));
            }
        },
    }
}

impl ExpressionValue {
    /// The truth of this value (see [`truthy`]).
    pub fn to_bool(&self) -> (r: bool)
        ensures
            r == truthy(self.model()),
    {
        match self {
            ExpressionValue::Boolean(b) => *b,
            ExpressionValue::String(s) => !s.as_str().is_empty(),
            ExpressionValue::Number(n) => *n != 0,
            ExpressionValue::Float(f) => {
                let cs = chars_of(f.as_str());
                let zero = cs.len() == 1 && cs[0] == '0';
                let zero_point_zero = cs.len() == 3 && cs[0] == '0' && cs[1] == '.' && cs[2] == '0';
                proof {
                    assert(zero ==> cs@ =~= seq!['0']);
                    assert(zero_point_zero ==> cs@ =~= seq!['0', '.', '0']);
                }
                !zero && !zero_point_zero
            },
            ExpressionValue::Null => false,
            ExpressionValue::Array(a) => a.len() != 0,
        }
    }

    /// Appends the text of this value to `out`.
    pub fn render_into(&self, out: &mut Vec<char>)
        ensures
            final(out)@ == old(out)@ + render(self.model()),
    {
        render_value_into(self, out)
    }

    /// The text of this value (see [`render`]).
    pub fn to_string(&self) -> (r: String)
        ensures
            r@ == render(self.model()),
    {
        let mut out: Vec<char> = Vec::new();
        self.render_into(&mut out);
        assert(out@ =~= render(self.model()));
        string_of(&out)
    }
}

/// A copy of `v`.
fn copy_value(v: &ExpressionValue) -> (r: ExpressionValue)
    ensures
        r.model() == v.model(),
    decreases v,
{
    match v {
        ExpressionValue::String(s) => ExpressionValue::String(s.clone()),
        ExpressionValue::Number(n) => ExpressionValue::Number(*n),
        ExpressionValue::Float(s) => ExpressionValue::Float(s.clone()),
        ExpressionValue::Boolean(b) => ExpressionValue::Boolean(*b),
        ExpressionValue::Null => ExpressionValue::Null,
        ExpressionValue::Array(items) => {
            let mut out: Vec<ExpressionValue> = Vec::new();
            let mut i: usize = 0;
            while i < items.len()
                invariant
                    *v == ExpressionValue::Array(*items),
                    decreases_to!(v => items),
                    i <= items.len(),
                    out.len() == i,
                    forall|j: int| 0 <= j < i ==> out[j].model() == items[j].model(),
                decreases items.len() - i,
            {
                out.push(copy_value(&items[i]));
                i = i + 1;
            }
            let r = ExpressionValue::Array(out);
            assert(r.model()->Arr_0 =~= v.model()->Arr_0);
            r
        },
    }
}

impl ExpressionValue {
    /// A copy of this value.
    pub fn copy(&self) -> (r: ExpressionValue)
        ensures
            r.model() == self.model(),
    {
        copy_value(self)
    }
}

impl PartialEq for ExpressionValue {
    fn eq(&self, other: &ExpressionValue) -> (r: bool) {
        values_equal(self, other)
    }
}

impl vstd::std_specs::cmp::PartialEqSpecImpl for ExpressionValue {
    open spec fn obeys_eq_spec() -> bool {
        true
    }

    open spec fn eq_spec(&self, other: &ExpressionValue) -> bool {
        self.model() == other.model()
    }
}

/// Equality of values, the kind first and then the payload (the `==` of
/// [`ExpressionValue`] compares models), is an equivalence: reflexive,
/// symmetric and transitive.
pub proof fn lemma_value_equality_is_equivalence(a: Val, b: Val, c: Val)
    ensures
        a == a,
        (a == b) == (b == a),
        a == b && b == c ==> a == c,
{
}

} // verus!
