use vstd::prelude::*;

use crate::text::str_eq;
use crate::value::{ExpressionValue, Val};

verus! {

/// A floating-point tag value: its IEEE 754 bits (an `f32`'s widened to 64
/// bits) and its shortest decimal rendering.
#[derive(Debug, Clone)]
pub struct FloatValue {
    pub bits: u64,
    pub text: String,
}

/// A typed value of a vector-tile layer's value dictionary. Exactly one
/// field is set in a well-formed tile; when several are, the first of
/// string, int, uint, sint, float, double, bool counts.
#[derive(Debug, Clone)]
pub struct TagValue {
    pub string_value: Option<String>,
    pub float_value: Option<FloatValue>,
    pub double_value: Option<FloatValue>,
    pub int_value: Option<i64>,
    pub uint_value: Option<u64>,
    pub sint_value: Option<i64>,
    pub bool_value: Option<bool>,
}

/// The signed reading of the bits of an unsigned 64-bit integer.
pub open spec fn wrap_i64(u: nat) -> int {
    if u <= i64::MAX {
        u as int
    } else {
        u - 0x1_0000_0000_0000_0000
    }
}

/// The expression value of a tag value: strings as strings, integers as
/// numbers (an unsigned one read as signed bits), floats by their decimal
/// text, booleans as booleans; a value with no field set is null.
pub open spec fn tag_value_model(t: TagValue) -> Val {
    if t.string_value is Some {
        Val::Str(t.string_value->0@)
    } else if t.int_value is Some {
        Val::Num(t.int_value->0 as int)
    } else if t.uint_value is Some {
        Val::Num(wrap_i64(t.uint_value->0 as nat))
    } else if t.sint_value is Some {
        Val::Num(t.sint_value->0 as int)
    } else if t.float_value is Some {
        Val::Flt(t.float_value->0.text@)
    } else if t.double_value is Some {
        Val::Flt(t.double_value->0.text@)
    } else if t.bool_value is Some {
        Val::Bool(t.bool_value->0)
    } else {
        Val::Null
    }
}

/// Whether the bits are those of a NaN of the given width.
pub open spec fn is_nan_bits(bits: u64, double: bool) -> bool {
    if double {
        bits & 0x7ff0_0000_0000_0000 == 0x7ff0_0000_0000_0000 && bits & 0x000f_ffff_ffff_ffff != 0
    } else {
        bits & 0x7f80_0000 == 0x7f80_0000 && bits & 0x007f_ffff != 0
    }
}

/// Whether the bits are those of a zero (of either sign) of the given width.
pub open spec fn is_zero_bits(bits: u64, double: bool) -> bool {
    if double {
        bits & 0x7fff_ffff_ffff_ffff == 0
    } else {
        bits & 0x7fff_ffff == 0
    }
}

/// IEEE 754 equality: NaN equals nothing, the two zeros are equal, other
/// values are equal when their bits are.
pub open spec fn float_eq(a: u64, b: u64, double: bool) -> bool {
    !is_nan_bits(a, double) && !is_nan_bits(b, double) && (a == b || (is_zero_bits(a, double)
        && is_zero_bits(b, double)))
}

pub open spec fn opt_float_eq(a: Option<FloatValue>, b: Option<FloatValue>, double: bool) -> bool {
    match (a, b) {
        (Some(x), Some(y)) => float_eq(x.bits, y.bits, double),
        (None, None) => true,
        _ => false,
    }
}

pub open spec fn opt_str_eq(a: Option<String>, b: Option<String>) -> bool {
    match (a, b) {
        (Some(x), Some(y)) => x@ == y@,
        (None, None) => true,
        _ => false,
    }
}

/// Field-by-field equality of tag values, floats compared as IEEE 754 numbers.
pub open spec fn tag_values_equal(a: TagValue, b: TagValue) -> bool {
    &&& opt_str_eq(a.string_value, b.string_value)
    &&& opt_float_eq(a.float_value, b.float_value, false)
    &&& opt_float_eq(a.double_value, b.double_value, true)
    &&& a.int_value == b.int_value
    &&& a.uint_value == b.uint_value
    &&& a.sint_value == b.sint_value
    &&& a.bool_value == b.bool_value
}

fn same_float(a: &Option<FloatValue>, b: &Option<FloatValue>, double: bool) -> (r: bool)
    ensures
        r == opt_float_eq(*a, *b, double),
{
    match (a, b) {
        (Some(x), Some(y)) => {
            let (nan_mask, nan_exp, mantissa, zero_mask) = if double {
                (0x7ff0_0000_0000_0000u64, 0x7ff0_0000_0000_0000u64, 0x000f_ffff_ffff_ffffu64, 0x7fff_ffff_ffff_ffffu64)
            } else {
                (0x7f80_0000u64, 0x7f80_0000u64, 0x007f_ffffu64, 0x7fff_ffffu64)
            };
            let x_nan = x.bits & nan_mask == nan_exp && x.bits & mantissa != 0;
            let y_nan = y.bits & nan_mask == nan_exp && y.bits & mantissa != 0;
            let zeros = x.bits & zero_mask == 0 && y.bits & zero_mask == 0;
            !x_nan && !y_nan && (x.bits == y.bits || zeros)
        },
        (None, None) => true,
        _ => false,
    }
}

fn same_str(a: &Option<String>, b: &Option<String>) -> (r: bool)
    ensures
        r == opt_str_eq(*a, *b),
{
    match (a, b) {
        (Some(x), Some(y)) => str_eq(x.as_str(), y.as_str()),
        (None, None) => true,
        _ => false,
    }
}

impl TagValue {
    /// Whether two tag values are equal (see [`tag_values_equal`]).
    pub fn same_as(&self, other: &TagValue) -> (r: bool)
        ensures
            r == tag_values_equal(*self, *other),
    {
        same_str(&self.string_value, &other.string_value) && same_float(
            &self.float_value,
            &other.float_value,
            false,
        ) && same_float(&self.double_value, &other.double_value, true) && self.int_value
            == other.int_value && self.uint_value == other.uint_value && self.sint_value
            == other.sint_value && self.bool_value == other.bool_value
    }
}

impl ExpressionValue {
    /// The expression value of a tag value (see [`tag_value_model`]).
    pub fn from_mvt_value(value: &TagValue) -> (r: ExpressionValue)
        ensures
            r.model() == tag_value_model(*value),
    {
        if let Some(s) = &value.string_value {
            ExpressionValue::String(s.clone())
        } else if let Some(i) = value.int_value {
            ExpressionValue::Number(i)
        } else if let Some(u) = value.uint_value {
            if u <= i64::MAX as u64 {
                ExpressionValue::Number(u as i64)
            } else {
                ExpressionValue::Number(i64::MIN + (u - 0x8000_0000_0000_0000u64) as i64)
            }
        } else if let Some(i) = value.sint_value {
            ExpressionValue::Number(i)
        } else if let Some(f) = &value.float_value {
            ExpressionValue::Float(f.text.clone())
        } else if let Some(d) = &value.double_value {
            ExpressionValue::Float(d.text.clone())
        } else if let Some(b) = value.bool_value {
            ExpressionValue::Boolean(b)
        } else {
            ExpressionValue::Null
        }
    }
}

/// Both values are held the same way: the same fields set, with the same
/// texts and bits.
pub open spec fn same_repr(a: TagValue, b: TagValue) -> bool {
    &&& opt_str_eq(a.string_value, b.string_value)
    &&& opt_float_repr(a.float_value, b.float_value)
    &&& opt_float_repr(a.double_value, b.double_value)
    &&& a.int_value == b.int_value
    &&& a.uint_value == b.uint_value
    &&& a.sint_value == b.sint_value
    &&& a.bool_value == b.bool_value
}

pub open spec fn opt_float_repr(a: Option<FloatValue>, b: Option<FloatValue>) -> bool {
    match (a, b) {
        (Some(x), Some(y)) => x.bits == y.bits && x.text@ == y.text@,
        (None, None) => true,
        _ => false,
    }
}

fn copy_float(f: &Option<FloatValue>) -> (r: Option<FloatValue>)
    ensures
        opt_float_repr(r, *f),
{
    match f {
        Some(x) => Some(FloatValue { bits: x.bits, text: x.text.clone() }),
        None => None,
    }
}

fn copy_str(s: &Option<String>) -> (r: Option<String>)
    ensures
        opt_str_eq(r, *s),
{
    match s {
        Some(x) => Some(x.clone()),
        None => None,
    }
}

impl TagValue {
    /// A copy of this value.
    pub fn copy(&self) -> (r: TagValue)
        ensures
            same_repr(r, *self),
            tag_value_model(r) == tag_value_model(*self),
    {
        TagValue {
            string_value: copy_str(&self.string_value),
            float_value: copy_float(&self.float_value),
            double_value: copy_float(&self.double_value),
            int_value: self.int_value,
            uint_value: self.uint_value,
            sint_value: self.sint_value,
            bool_value: self.bool_value,
        }
    }
}

/// A feature of a vector-tile layer. Its tags are pairs of indexes into the
/// layer's key and value dictionaries.
#[derive(Debug, Clone)]
pub struct MvtFeature {
    pub id: Option<u64>,
    pub tags: Vec<u32>,
    pub geom_type: Option<i32>,
    pub geometry: Vec<u32>,
}

/// A layer of a vector tile.
#[derive(Debug, Clone)]
pub struct MvtLayer {
    pub version: u32,
    pub name: String,
    pub features: Vec<MvtFeature>,
    pub keys: Vec<String>,
    pub values: Vec<TagValue>,
    pub extent: Option<u32>,
}

/// The number of whole tag pairs in a tag list; a trailing odd entry is ignored.
pub open spec fn pairs(t: Seq<u32>) -> int {
    t.len() as int / 2
}

/// The key index of the `p`-th tag pair.
pub open spec fn key_at(t: Seq<u32>, p: int) -> u32 {
    t[2 * p]
}

/// The value index of the `p`-th tag pair.
pub open spec fn val_at(t: Seq<u32>, p: int) -> u32 {
    t[2 * p + 1]
}

/// Every tag pair of `t` indexes into dictionaries of these sizes.
pub open spec fn tags_in_range(t: Seq<u32>, n_keys: int, n_values: int) -> bool {
    forall|p: int| 0 <= p < pairs(t) ==> #[trigger] key_at(t, p) < n_keys && val_at(t, p) < n_values
}

/// Some tag pair of `t` uses key index `k`.
pub open spec fn refs_key(t: Seq<u32>, k: int) -> bool {
    exists|p: int| 0 <= p < pairs(t) && #[trigger] key_at(t, p) == k
}

/// Some tag pair of `t` uses value index `v`.
pub open spec fn refs_value(t: Seq<u32>, v: int) -> bool {
    exists|p: int| 0 <= p < pairs(t) && #[trigger] val_at(t, p) == v
}

/// A layer is well-formed: every tag list is even and within the dictionaries.
pub open spec fn layer_well_formed(l: MvtLayer) -> bool {
    forall|j: int|
        0 <= j < l.features.len() ==> (#[trigger] l.features[j]).tags.len() % 2 == 0 && tags_in_range(
            l.features[j].tags@,
            l.keys.len() as int,
            l.values.len() as int,
        )
}

/// Some feature's tags use key index `k`.
pub open spec fn key_used(fs: Seq<MvtFeature>, k: int) -> bool {
    exists|j: int| 0 <= j < fs.len() && refs_key(#[trigger] fs[j].tags@, k)
}

/// Some feature's tags use value index `v`.
pub open spec fn value_used(fs: Seq<MvtFeature>, v: int) -> bool {
    exists|j: int| 0 <= j < fs.len() && refs_value(#[trigger] fs[j].tags@, v)
}

/// Every dictionary entry of a layer is used by some feature's tags.
pub open spec fn dictionaries_used(l: MvtLayer) -> bool {
    &&& forall|k: int| 0 <= k < l.keys.len() ==> #[trigger] key_used(l.features@, k)
    &&& forall|v: int| 0 <= v < l.values.len() ==> #[trigger] value_used(l.features@, v)
}

/// The total number of tag pairs of some features.
pub open spec fn pair_total(fs: Seq<MvtFeature>) -> int
    decreases fs.len(),
{
    if fs.len() == 0 {
        0
    } else {
        pair_total(fs.drop_last()) + pairs(fs.last().tags@)
    }
}

} // verus!
