use vstd::prelude::*;

use core::cmp::Ordering;

use crate::text::{cmp_chars, lex_cmp};

verus! {

/// Exponents beyond this magnitude are read as this magnitude: far outside
/// the range of any floating-point format, so the order is unaffected.
pub const EXPONENT_CAP: u64 = 1_000_000_000;

/// A decimal number in normal form: `±0.d1d2…dk × 10^point` with `d1` and
/// `dk` non-zero; zero has no digits.
pub struct Decimal {
    pub neg: bool,
    pub digits: Seq<char>,
    pub point: int,
}

pub open spec fn is_digit(c: char) -> bool {
    '0' as u32 <= c as u32 <= '9' as u32
}

pub open spec fn digit_value(c: char) -> int {
    c as u32 - '0' as u32
}

/// The end of the run of digits that starts at `i`.
pub open spec fn digits_end(t: Seq<char>, i: int) -> int
    decreases t.len() - i,
{
    if 0 <= i < t.len() && is_digit(t[i]) {
        digits_end(t, i + 1)
    } else {
        i
    }
}

/// The value of a digit string, capped at [`EXPONENT_CAP`].
pub open spec fn capped_value(d: Seq<char>) -> int
    decreases d.len(),
{
    if d.len() == 0 {
        0
    } else {
        let v = capped_value(d.drop_last()) * 10 + digit_value(d.last());
        if v > EXPONENT_CAP {
            EXPONENT_CAP as int
        } else {
            v
        }
    }
}

/// The exponent written from `i` to the end of `t`: an optional sign and
/// at least one digit.
pub open spec fn exponent_at(t: Seq<char>, i: int) -> Option<int> {
    let signed = i < t.len() && (t[i] == '-' || t[i] == '+');
    let j = if signed {
        i + 1
    } else {
        i
    };
    let e = digits_end(t, j);
    if e > j && e == t.len() {
        let v = capped_value(t.subrange(j, e));
        Some(
            if signed && t[i] == '-' {
                -v
            } else {
                v
            },
        )
    } else {
        None
    }
}

pub open spec fn leading_zeros(m: Seq<char>) -> nat
    decreases m.len(),
{
    if m.len() > 0 && m[0] == '0' {
        1 + leading_zeros(m.drop_first())
    } else {
        0
    }
}

pub open spec fn trailing_zeros(m: Seq<char>) -> nat
    decreases m.len(),
{
    if m.len() > 0 && m.last() == '0' {
        1 + trailing_zeros(m.drop_last())
    } else {
        0
    }
}

pub open spec fn zero_decimal() -> Decimal {
    Decimal { neg: false, digits: Seq::empty(), point: 0 }
}

/// The normal form of `±0.m × 10^point`.
pub open spec fn normalize(neg: bool, m: Seq<char>, point: int) -> Decimal {
    let lz = leading_zeros(m);
    let rest = m.subrange(lz as int, m.len() as int);
    if lz == m.len() {
        zero_decimal()
    } else {
        Decimal { neg, digits: rest.subrange(0, rest.len() - trailing_zeros(rest)), point: point - lz }
    }
}

/// The number written in `t`: an optional sign, digits with an optional
/// decimal point (at least one digit), and an optional exponent after `e`
/// or `E`. `None` when `t` is not such a text.
pub open spec fn parse_decimal(t: Seq<char>) -> Option<Decimal> {
    let s: int = if t.len() > 0 && (t[0] == '-' || t[0] == '+') {
        1
    } else {
        0
    };
    let neg = t.len() > 0 && t[0] == '-';
    let e1 = digits_end(t, s);
    let has_dot = e1 < t.len() && t[e1] == '.';
    let f0 = if has_dot {
        e1 + 1
    } else {
        e1
    };
    let f1 = if has_dot {
        digits_end(t, f0)
    } else {
        e1
    };
    let m = t.subrange(s, e1) + t.subrange(f0, f1);
    let exp = if f1 == t.len() {
        Some(0int)
    } else if t[f1] == 'e' || t[f1] == 'E' {
        exponent_at(t, f1 + 1)
    } else {
        None
    };
    if m.len() == 0 {
        None
    } else {
        match exp {
            Some(x) => Some(normalize(neg, m, (e1 - s) + x)),
            None => None,
        }
    }
}

/// The number that a float text denotes; a text that is not a number counts as zero.
pub open spec fn decimal_of(t: Seq<char>) -> Decimal {
    match parse_decimal(t) {
        Some(d) => d,
        None => zero_decimal(),
    }
}

pub open spec fn sign_of(d: Decimal) -> int {
    if d.digits.len() == 0 {
        0
    } else if d.neg {
        -1
    } else {
        1
    }
}

pub open spec fn int_cmp(a: int, b: int) -> Ordering {
    if a < b {
        Ordering::Less
    } else if a > b {
        Ordering::Greater
    } else {
        Ordering::Equal
    }
}

pub open spec fn reverse(o: Ordering) -> Ordering {
    match o {
        Ordering::Less => Ordering::Greater,
        Ordering::Greater => Ordering::Less,
        Ordering::Equal => Ordering::Equal,
    }
}

/// The order of two decimal numbers by value.
pub open spec fn decimal_cmp(a: Decimal, b: Decimal) -> Ordering {
    let sa = sign_of(a);
    let sb = sign_of(b);
    if sa != sb {
        int_cmp(sa, sb)
    } else if sa == 0 {
        Ordering::Equal
    } else {
        let magnitude = if a.point != b.point {
            int_cmp(a.point, b.point)
        } else {
            lex_cmp(a.digits, b.digits)
        };
        if sa > 0 {
            magnitude
        } else {
            reverse(magnitude)
        }
    }
}

/// The order of the numbers that two texts denote.
pub open spec fn text_number_cmp(a: Seq<char>, b: Seq<char>) -> Ordering {
    decimal_cmp(decimal_of(a), decimal_of(b))
}

/// A decimal number in normal form, as the executable code holds it.
struct DecimalForm {
    neg: bool,
    digits: Vec<char>,
    point: i128,
}

impl DecimalForm {
    spec fn model(&self) -> Decimal {
        Decimal { neg: self.neg, digits: self.digits@, point: self.point as int }
    }
}

fn is_digit_char(c: char) -> (r: bool)
    ensures
        r == is_digit(c),
{
    '0' as u32 <= c as u32 && c as u32 <= '9' as u32
}

fn find_digits_end(t: &Vec<char>, i: usize) -> (r: usize)
    requires
        i <= t.len(),
    ensures
        r as int == digits_end(t@, i as int),
        i <= r <= t.len(),
{
    let mut j = i;
    while j < t.len() && is_digit_char(t[j])
        invariant
            i <= j <= t.len(),
            digits_end(t@, i as int) == digits_end(t@, j as int),
        decreases t.len() - j,
    {
        j = j + 1;
    }
    j
}

fn read_exponent(t: &Vec<char>, i: usize) -> (r: Option<i64>)
    requires
        i <= t.len(),
    ensures
        match exponent_at(t@, i as int) {
            Some(x) => r == Some(x as i64) && -(EXPONENT_CAP as int) <= x <= EXPONENT_CAP,
            None => r is None,
        },
{
    let signed = i < t.len() && (t[i] == '-' || t[i] == '+');
    let j = if signed {
        i + 1
    } else {
        i
    };
    let e = find_digits_end(t, j);
    if e > j && e == t.len() {
        let mut v: u64 = 0;
        let mut k = j;
        assert forall|q: int| j <= q < e implies is_digit(#[trigger] t@[q]) by {
            lemma_digits_in_run(t@, j as int, q);
        }
        assert(t@.subrange(j as int, j as int) =~= Seq::<char>::empty());
        while k < e
            invariant
                j <= k <= e,
                e <= t.len(),
                forall|q: int| j <= q < e ==> is_digit(#[trigger] t@[q]),
                v as int == capped_value(t@.subrange(j as int, k as int)),
                v <= EXPONENT_CAP,
            decreases e - k,
        {
            proof {
                assert(t@.subrange(j as int, k + 1).drop_last() =~= t@.subrange(j as int, k as int));
            }
            let d = (t[k] as u32 - '0' as u32) as u64;
            let w = v * 10 + d;
            v = if w > EXPONENT_CAP {
                EXPONENT_CAP
            } else {
                w
            };
            k = k + 1;
        }
        if signed && t[i] == '-' {
            Some(0 - v as i64)
        } else {
            Some(v as i64)
        }
    } else {
        None
    }
}

fn count_leading_zeros(m: &Vec<char>) -> (r: usize)
    ensures
        r == leading_zeros(m@),
        r <= m.len(),
{
    let mut k: usize = 0;
    assert(m@.subrange(0, m@.len() as int) =~= m@);
    while k < m.len() && m[k] == '0'
        invariant
            k <= m.len(),
            leading_zeros(m@) == k + leading_zeros(m@.subrange(k as int, m@.len() as int)),
        decreases m.len() - k,
    {
        assert(m@.subrange(k as int, m@.len() as int).drop_first() =~= m@.subrange(k + 1, m@.len() as int));
        k = k + 1;
    }
    k
}

fn count_trailing_zeros(m: &Vec<char>) -> (r: usize)
    ensures
        r == trailing_zeros(m@),
        r <= m.len(),
{
    let mut k: usize = 0;
    assert(m@.subrange(0, m@.len() as int) =~= m@);
    while k < m.len() && m[m.len() - 1 - k] == '0'
        invariant
            k <= m.len(),
            trailing_zeros(m@) == k + trailing_zeros(m@.subrange(0, m@.len() - k)),
        decreases m.len() - k,
    {
        assert(m@.subrange(0, m@.len() - k).drop_last() =~= m@.subrange(0, m@.len() - k - 1));
        k = k + 1;
    }
    k
}

/// Appends `t[from..to]` to `out`.
fn push_range(t: &Vec<char>, from: usize, to: usize, out: &mut Vec<char>)
    requires
        from <= to <= t.len(),
    ensures
        final(out)@ == old(out)@ + t@.subrange(from as int, to as int),
{
    let mut k = from;
    while k < to
        invariant
            from <= k <= to,
            to <= t.len(),
            out@ == old(out)@ + t@.subrange(from as int, k as int),
        decreases to - k,
    {
        out.push(t[k]);
        assert(t@.subrange(from as int, k + 1) =~= t@.subrange(from as int, k as int).push(t@[k as int]));
        k = k + 1;
    }
}

fn normal_form(neg: bool, m: &Vec<char>, point: i128) -> (r: DecimalForm)
    requires
        -0x1_0000_0000_0000_0000_0000 <= point <= 0x1_0000_0000_0000_0000_0000,
    ensures
        r.model() == normalize(neg, m@, point as int),
{
    let lz = count_leading_zeros(m);
    if lz == m.len() {
        return DecimalForm { neg: false, digits: Vec::new(), point: 0 };
    }
    let mut rest: Vec<char> = Vec::new();
    push_range(m, lz, m.len(), &mut rest);
    let tz = count_trailing_zeros(&rest);
    let mut digits: Vec<char> = Vec::new();
    push_range(&rest, 0, rest.len() - tz, &mut digits);
    assert(digits@ =~= rest@.subrange(0, rest@.len() - tz));
    DecimalForm { neg, digits, point: point - lz as i128 }
}

/// Reads the number written in `t` (see [`parse_decimal`]).
fn parse_chars(t: &Vec<char>) -> (r: Option<DecimalForm>)
    ensures
        match parse_decimal(t@) {
            Some(d) => r is Some && r->0.model() == d,
            None => r is None,
        },
{
    let s: usize = if t.len() > 0 && (t[0] == '-' || t[0] == '+') {
        1
    } else {
        0
    };
    let neg = t.len() > 0 && t[0] == '-';
    let e1 = find_digits_end(t, s);
    let has_dot = e1 < t.len() && t[e1] == '.';
    let f0 = if has_dot {
        e1 + 1
    } else {
        e1
    };
    let f1 = if has_dot {
        find_digits_end(t, f0)
    } else {
        e1
    };
    let mut m: Vec<char> = Vec::new();
    push_range(t, s, e1, &mut m);
    push_range(t, f0, f1, &mut m);
    let exp: Option<i64> = if f1 == t.len() {
        Some(0)
    } else if t[f1] == 'e' || t[f1] == 'E' {
        read_exponent(t, f1 + 1)
    } else {
        None
    };
    if m.len() == 0 {
        return None;
    }
    match exp {
        Some(x) => Some(normal_form(neg, &m, (e1 - s) as i128 + x as i128)),
        None => None,
    }
}

fn sign_of_form(d: &DecimalForm) -> (r: i8)
    ensures
        r as int == sign_of(d.model()),
{
    if d.digits.len() == 0 {
        0
    } else if d.neg {
        -1
    } else {
        1
    }
}

fn cmp_i128(a: i128, b: i128) -> (r: Ordering)
    ensures
        r == int_cmp(a as int, b as int),
{
    if a < b {
        Ordering::Less
    } else if a > b {
        Ordering::Greater
    } else {
        Ordering::Equal
    }
}

fn compare_forms(a: &DecimalForm, b: &DecimalForm) -> (r: Ordering)
    ensures
        r == decimal_cmp(a.model(), b.model()),
{
    let sa = sign_of_form(a);
    let sb = sign_of_form(b);
    if sa != sb {
        return cmp_i128(sa as i128, sb as i128);
    }
    if sa == 0 {
        return Ordering::Equal;
    }
    let magnitude = if a.point != b.point {
        cmp_i128(a.point, b.point)
    } else {
        cmp_chars(&a.digits, &b.digits)
    };
    if sa > 0 {
        magnitude
    } else {
        match magnitude {
            Ordering::Less => Ordering::Greater,
            Ordering::Greater => Ordering::Less,
            Ordering::Equal => Ordering::Equal,
        }
    }
}

/// Compares the numbers that two texts denote (see [`decimal_of`]).
pub fn compare_number_chars(a: &Vec<char>, b: &Vec<char>) -> (r: Ordering)
    ensures
        r == text_number_cmp(a@, b@),
{
    let x = match parse_chars(a) {
        Some(d) => d,
        None => DecimalForm { neg: false, digits: Vec::new(), point: 0 },
    };
    let y = match parse_chars(b) {
        Some(d) => d,
        None => DecimalForm { neg: false, digits: Vec::new(), point: 0 },
    };
    proof {
        assert(x.model().digits =~= decimal_of(a@).digits);
        assert(y.model().digits =~= decimal_of(b@).digits);
    }
    compare_forms(&x, &y)
}

proof fn lemma_digits_in_run(t: Seq<char>, j: int, q: int)
    requires
        0 <= j,
        j <= q < digits_end(t, j),
    ensures
        is_digit(t[q]),
    decreases t.len() - j,
{
    if q > j {
        lemma_digits_in_run(t, j + 1, q);
    }
}

} // verus!
