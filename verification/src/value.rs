//! Reading the value that a group carries.
//!
//! A group reads `VALUE` or `VALUE*UNIT`. The value is turned into a float,
//! an integer or a text, as the parameter's type asks. A float is kept as the
//! decimal text that was checked against the grammar of float literals.

use vstd::prelude::*;
use vstd::string::StrSliceExecFns;
use crate::message::{EngValue, EngValueModel, ParameterValue, ParameterValueModel};
use crate::registry::{
    eq_ignore_ascii_case, same_ignoring_case, DmsrParam, DmsrParamType, ParamModel,
};
use crate::text::{lemma_positions_step, positions, split_on, split_seq, texts};

verus! {

/// Whether `c` is one of the digits `0` to `9`.
pub open spec fn is_digit(c: char) -> bool {
    '0' as int <= c as int <= '9' as int
}

/// Whether `s` holds digits only.
pub open spec fn all_digits(s: Seq<char>) -> bool {
    forall|i: int| 0 <= i < s.len() ==> is_digit(#[trigger] s[i])
}

/// The number that the digits `s` write in base ten.
pub open spec fn decimal_value(s: Seq<char>) -> int
    decreases s.len(),
{
    if s.len() == 0 {
        0
    } else {
        10 * decimal_value(s.drop_last()) + (s.last() as int - '0' as int)
    }
}

/// Whether `s` starts with a plus or minus sign.
pub open spec fn has_sign(s: Seq<char>) -> bool {
    s.len() > 0 && (s[0] == '+' || s[0] == '-')
}

/// `s` without the sign that may start it.
pub open spec fn unsigned_part(s: Seq<char>) -> Seq<char> {
    if has_sign(s) {
        s.subrange(1, s.len() as int)
    } else {
        s
    }
}

/// The integer that `s` writes, if `s` is an optional sign followed by one
/// or more digits and the number fits in 64 bits.
pub open spec fn integer_of(s: Seq<char>) -> Option<i64> {
    let digits = unsigned_part(s);
    let magnitude = decimal_value(digits);
    let value = if has_sign(s) && s[0] == '-' {
        -magnitude
    } else {
        magnitude
    };
    if digits.len() > 0 && all_digits(digits) && i64::MIN <= value <= i64::MAX {
        Some(value as i64)
    } else {
        None
    }
}

/// Whether `m` is the mantissa of a decimal number: digits with at most one
/// point among them, before them or behind them, and at least one digit.
pub open spec fn is_mantissa(m: Seq<char>) -> bool {
    let dots = positions(m, set!['.']);
    if dots.len() == 0 {
        m.len() > 0 && all_digits(m)
    } else if dots.len() == 1 {
        &&& m.len() > 1
        &&& all_digits(m.subrange(0, dots[0]))
        &&& all_digits(m.subrange(dots[0] + 1, m.len() as int))
    } else {
        false
    }
}

/// Whether `x` is an exponent: an optional sign and one or more digits.
pub open spec fn is_exponent(x: Seq<char>) -> bool {
    unsigned_part(x).len() > 0 && all_digits(unsigned_part(x))
}

/// Whether `b` is a decimal number without sign: a mantissa, which an `e`
/// or `E` and an exponent may follow.
pub open spec fn is_number(b: Seq<char>) -> bool {
    let marks = positions(b, set!['e', 'E']);
    if marks.len() == 0 {
        is_mantissa(b)
    } else if marks.len() == 1 {
        is_mantissa(b.subrange(0, marks[0])) && is_exponent(
            b.subrange(marks[0] + 1, b.len() as int),
        )
    } else {
        false
    }
}

/// Whether `s` is a float literal: an optional sign, then a decimal number
/// or one of `inf`, `infinity` and `nan` in any mix of upper and lower case.
pub open spec fn is_float_literal(s: Seq<char>) -> bool {
    let body = unsigned_part(s);
    ||| is_number(body)
    ||| eq_ignore_ascii_case(body, "inf"@)
    ||| eq_ignore_ascii_case(body, "infinity"@)
    ||| eq_ignore_ascii_case(body, "nan"@)
}

/// The digits of a prefix write no more than the digits of the whole.
proof fn lemma_decimal_monotone(s: Seq<char>, n: int)
    requires
        0 <= n <= s.len(),
        all_digits(s),
    ensures
        0 <= decimal_value(s.take(n)) <= decimal_value(s),
    decreases s.len() - n,
{
    if n < s.len() {
        lemma_decimal_monotone(s.drop_last(), n);
        assert(s.drop_last().take(n) =~= s.take(n));
        assert(is_digit(s[s.len() - 1]));
    } else {
        assert(s.take(n) =~= s);
        lemma_decimal_nonnegative(s);
    }
}

/// Digits write a number that is not negative.
proof fn lemma_decimal_nonnegative(s: Seq<char>)
    requires
        all_digits(s),
    ensures
        0 <= decimal_value(s),
    decreases s.len(),
{
    if s.len() > 0 {
        lemma_decimal_nonnegative(s.drop_last());
        assert(is_digit(s[s.len() - 1]));
    }
}

/// The number of the character `c`.
fn code_point(c: char) -> (u: u32)
    ensures
        u == c as int,
{
    c as u32
}

/// Whether `s` holds digits only.
fn only_digits(s: &str) -> (r: bool)
    ensures
        r == all_digits(s@),
{
    for c in it: s.chars()
        invariant
            it.seq() == s@,
            forall|j: int| 0 <= j < it.index() ==> is_digit(#[trigger] s@[j]),
    {
        let u = code_point(c);
        if u < 48 || u > 57 {
            return false;
        }
    }
    true
}

/// `s` without the sign that may start it.
fn skip_sign(s: &str) -> (r: &str)
    ensures
        r@ == unsigned_part(s@),
{
    let n = s.unicode_len();
    if n > 0 {
        let c = s.get_char(0);
        if c == '+' || c == '-' {
            return s.substring_char(1, n);
        }
    }
    s
}

/// The integer that `s` writes: an optional sign followed by one or more
/// digits. `None` for any other text and for a number outside 64 bits.
pub fn parse_integer(s: &str) -> (r: Option<i64>)
    ensures
        r == integer_of(s@),
{
    let n = s.unicode_len();
    if n == 0 {
        return None;
    }
    let negative = s.get_char(0) == '-';
    let digits = skip_sign(s);
    let ghost d = digits@;
    let m = digits.unicode_len();
    if m == 0 {
        return None;
    }
    let limit: i128 = 9223372036854775808;
    let mut acc: i128 = 0;
    let mut i: usize = 0;
    proof {
        assert(d.take(0) =~= Seq::<char>::empty());
    }
    for c in it: digits.chars()
        invariant
            it.seq() == d,
            d == digits@,
            d == unsigned_part(s@),
            m == d.len(),
            i == it.index(),
            i <= m,
            limit == 9223372036854775808,
            all_digits(d.take(i as int)),
            acc == decimal_value(d.take(i as int)),
            0 <= acc <= limit,
    {
        let u = code_point(c);
        if u < 48 || u > 57 {
            proof {
                assert(!is_digit(d[i as int]));
            }
            return None;
        }
        proof {
            assert(d.take(i as int + 1).drop_last() =~= d.take(i as int));
            assert forall|j: int| 0 <= j < i + 1 implies is_digit(
                #[trigger] d.take(i as int + 1)[j],
            ) by {
                if j < i {
                    assert(is_digit(d.take(i as int)[j]));
                }
            }
        }
        acc = acc * 10 + (u as i128 - 48);
        i = i + 1;
        if acc > limit {
            proof {
                assert(d.take(m as int) =~= d);
                if all_digits(d) {
                    lemma_decimal_monotone(d, i as int);
                }
            }
            return None;
        }
    }
    proof {
        assert(d.take(i as int) =~= d);
    }
    if negative {
        Some((-acc) as i64)
    } else if acc < limit {
        Some(acc as i64)
    } else {
        None
    }
}

/// The places in `s` where `a` or `b` stands, ascending.
fn mark_positions(s: &str, a: char, b: char) -> (v: Vec<usize>)
    ensures
        v@.len() == positions(s@, set![a, b]).len(),
        forall|k: int| 0 <= k < v@.len() ==> #[trigger] v@[k] == positions(s@, set![a, b])[k],
        forall|k: int| 0 <= k < v@.len() ==> #[trigger] v@[k] < s@.len(),
{
    let ghost t = s@;
    let ghost marks = set![a, b];
    let n = s.unicode_len();
    let mut v: Vec<usize> = Vec::new();
    let mut i: usize = 0;
    proof {
        assert(t.take(0) =~= Seq::<char>::empty());
    }
    for c in it: s.chars()
        invariant
            t == s@,
            marks == set![a, b],
            it.seq() == t,
            n == t.len(),
            i == it.index(),
            i <= n,
            v@.len() == positions(t.take(i as int), marks).len(),
            forall|k: int|
                0 <= k < v@.len() ==> #[trigger] v@[k] == positions(t.take(i as int), marks)[k],
            forall|k: int| 0 <= k < v@.len() ==> #[trigger] v@[k] < i,
    {
        proof {
            lemma_positions_step(t, marks, i as int);
        }
        if c == a || c == b {
            v.push(i);
        }
        i = i + 1;
    }
    proof {
        assert(t.take(i as int) =~= t);
    }
    v
}

/// Whether `m` is the mantissa of a decimal number.
fn check_mantissa(m: &str) -> (r: bool)
    ensures
        r == is_mantissa(m@),
{
    let dots = mark_positions(m, '.', '.');
    let n = m.unicode_len();
    proof {
        assert(set!['.', '.'] =~= set!['.']);
    }
    if dots.len() == 0 {
        n > 0 && only_digits(m)
    } else if dots.len() == 1 {
        let at = dots[0];
        n > 1 && only_digits(m.substring_char(0, at)) && only_digits(m.substring_char(at + 1, n))
    } else {
        false
    }
}

/// Whether `x` is an exponent.
fn check_exponent(x: &str) -> (r: bool)
    ensures
        r == is_exponent(x@),
{
    let digits = skip_sign(x);
    digits.unicode_len() > 0 && only_digits(digits)
}

/// Whether `b` is a decimal number without sign.
fn check_number(b: &str) -> (r: bool)
    ensures
        r == is_number(b@),
{
    let marks = mark_positions(b, 'e', 'E');
    let n = b.unicode_len();
    if marks.len() == 0 {
        check_mantissa(b)
    } else if marks.len() == 1 {
        let at = marks[0];
        check_mantissa(b.substring_char(0, at)) && check_exponent(b.substring_char(at + 1, n))
    } else {
        false
    }
}

/// Whether `s` is a float literal: the texts that the standard conversion of
/// a string to a float accepts.
pub fn check_float(s: &str) -> (r: bool)
    ensures
        r == is_float_literal(s@),
{
    let body = skip_sign(s);
    check_number(body) || same_ignoring_case(body, "inf") || same_ignoring_case(body, "infinity")
        || same_ignoring_case(body, "nan")
}

/// The value that `text` writes for a parameter of type `ptype`. A float
/// must be a float literal and an integer a signed decimal number in 64
/// bits; a text is taken as it stands.
pub open spec fn decode_value(ptype: DmsrParamType, text: Seq<char>) -> Option<EngValueModel> {
    match ptype {
        DmsrParamType::Float => if is_float_literal(text) {
            Some(EngValueModel::Float(text))
        } else {
            None
        },
        DmsrParamType::Integer => match integer_of(text) {
            Some(v) => Some(EngValueModel::Integer(v)),
            None => None,
        },
        DmsrParamType::String => Some(EngValueModel::Text(text)),
    }
}

/// The value of `param` that `text` writes, under the id of `param`.
pub open spec fn value_record(param: ParamModel, text: Seq<char>) -> Option<ParameterValueModel> {
    match decode_value(param.ptype, text) {
        Some(v) => Some(ParameterValueModel { id: param.pid, eng_value: v }),
        None => None,
    }
}

/// The part of a group before its first `*`: the value.
pub open spec fn value_text(group: Seq<char>) -> Seq<char> {
    split_seq(group, '*')[0]
}

/// The part of a group between its first `*` and its second, or its end:
/// the unit. `None` for a group without `*`.
pub open spec fn unit_text(group: Seq<char>) -> Option<Seq<char>> {
    let pieces = split_seq(group, '*');
    if pieces.len() > 1 {
        Some(pieces[1])
    } else {
        None
    }
}

/// Cuts a group into its value and, if a `*` follows, its unit.
pub fn split_group(group: &str) -> (r: (&str, Option<&str>))
    ensures
        r.0@ == value_text(group@),
        match r.1 {
            Some(u) => unit_text(group@) == Some(u@),
            None => unit_text(group@) is None,
        },
{
    let pieces = split_on(group, '*');
    proof {
        assert(texts(pieces@).len() == pieces@.len());
        assert(texts(pieces@)[0] == pieces@[0]@);
    }
    if pieces.len() > 1 {
        proof {
            assert(texts(pieces@)[1] == pieces@[1]@);
        }
        (pieces[0], Some(pieces[1]))
    } else {
        (pieces[0], None)
    }
}

/// Reads `str_value` as a value of `dmsr_param`. `None` where the text is
/// no value of the parameter's type.
pub fn get_pvalue(dmsr_param: &DmsrParam, str_value: &str) -> (r: Option<ParameterValue>)
    ensures
        match value_record(dmsr_param@, str_value@) {
            Some(v) => r matches Some(pv) && pv@ == v,
            None => r is None,
        },
{
    let eng_value = match dmsr_param.ptype {
        DmsrParamType::Float => {
            if check_float(str_value) {
                EngValue::Float(str_value.to_owned())
            } else {
                return None;
            }
        },
        DmsrParamType::Integer => match parse_integer(str_value) {
            Some(v) => EngValue::Integer(v),
            None => {
                return None;
            },
        },
        DmsrParamType::String => EngValue::Text(str_value.to_owned()),
    };
    Some(ParameterValue { id: dmsr_param.pid, eng_value })
}

} // verus!
