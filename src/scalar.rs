//! The core schema's resolution of plain scalars: the pattern families in
//! their order of precedence, and the conversion of each matched text.
use vstd::prelude::*;
use crate::data::{FloatValue, StandardValue, YamlError, YamlFloatValue, YamlStandardData, result_view};
use crate::node::YamlScalarStyle;

verus! {

pub open spec fn is_dec_digit(c: char) -> bool {
    '0' <= c <= '9'
}

pub open spec fn is_oct_digit(c: char) -> bool {
    '0' <= c <= '7'
}

pub open spec fn is_hex_digit(c: char) -> bool {
    is_dec_digit(c) || ('a' <= c <= 'f') || ('A' <= c <= 'F')
}

/// `c` is a digit in base `base` (8, 10 or 16).
pub open spec fn is_digit_of(c: char, base: int) -> bool {
    if base == 8 {
        is_oct_digit(c)
    } else if base == 16 {
        is_hex_digit(c)
    } else {
        is_dec_digit(c)
    }
}

/// The value of a hexadecimal (or lesser) digit.
pub open spec fn digit_value(c: char) -> int {
    if is_dec_digit(c) {
        c as int - '0' as int
    } else if 'a' <= c <= 'f' {
        c as int - 'a' as int + 10
    } else {
        c as int - 'A' as int + 10
    }
}

/// The number that the digits `s` write in base `base`, most significant first.
pub open spec fn digits_value(s: Seq<char>, base: int) -> int
    decreases s.len(),
{
    if s.len() == 0 {
        0
    } else {
        digits_value(s.drop_last(), base) * base + digit_value(s.last())
    }
}

pub open spec fn is_sign(c: char) -> bool {
    c == '+' || c == '-'
}

/// `t` without its leading sign, if it has one.
pub open spec fn unsigned_part(t: Seq<char>) -> Seq<char> {
    if t.len() > 0 && is_sign(t[0]) {
        t.drop_first()
    } else {
        t
    }
}

/// One or more decimal digits.
pub open spec fn is_dec_digits(s: Seq<char>) -> bool {
    s.len() >= 1 && forall|i: int| 0 <= i < s.len() ==> is_dec_digit(#[trigger] s[i])
}

/// `[-+]?[0-9]+`
pub open spec fn is_decimal_int(t: Seq<char>) -> bool {
    is_dec_digits(unsigned_part(t))
}

/// The value of a decimal integer literal.
pub open spec fn decimal_value(t: Seq<char>) -> int {
    if t.len() > 0 && t[0] == '-' {
        -digits_value(t.drop_first(), 10)
    } else {
        digits_value(unsigned_part(t), 10)
    }
}

/// `0` then `marker` then one or more digits of base `base`.
pub open spec fn is_prefixed_int(t: Seq<char>, marker: char, base: int) -> bool {
    &&& t.len() >= 3
    &&& t[0] == '0'
    &&& t[1] == marker
    &&& forall|i: int| 2 <= i < t.len() ==> is_digit_of(#[trigger] t[i], base)
}

/// `0o[0-7]+`
pub open spec fn is_octal_int(t: Seq<char>) -> bool {
    is_prefixed_int(t, 'o', 8)
}

/// `0x[0-9a-fA-F]+`
pub open spec fn is_hex_int(t: Seq<char>) -> bool {
    is_prefixed_int(t, 'x', 16)
}

pub open spec fn is_exp_marker(c: char) -> bool {
    c == 'e' || c == 'E'
}

/// `\.[0-9]+|[0-9]+(\.[0-9]*)?`: digits and at most one point, with at least
/// one digit.
pub open spec fn is_mantissa(m: Seq<char>) -> bool {
    &&& forall|i: int| 0 <= i < m.len() ==> is_dec_digit(#[trigger] m[i]) || m[i] == '.'
    &&& forall|i: int, j: int|
        0 <= i < m.len() && 0 <= j < m.len() && #[trigger] m[i] == '.' && #[trigger] m[j] == '.'
            ==> i == j
    &&& exists|i: int| 0 <= i < m.len() && is_dec_digit(#[trigger] m[i])
}

/// `[-+]?(\.[0-9]+|[0-9]+(\.[0-9]*)?)([eE][-+]?[0-9]+)?`
pub open spec fn is_float_text(t: Seq<char>) -> bool {
    let u = unsigned_part(t);
    ||| (forall|i: int| 0 <= i < u.len() ==> !is_exp_marker(#[trigger] u[i])) && is_mantissa(u)
    ||| exists|k: int|
        0 <= k < u.len() && is_exp_marker(#[trigger] u[k]) && is_mantissa(u.subrange(0, k))
            && is_decimal_int(u.subrange(k + 1, u.len() as int))
}

/// `\.inf|\.Inf|\.INF`
pub open spec fn is_inf_word(s: Seq<char>) -> bool {
    ||| s == seq!['.', 'i', 'n', 'f']
    ||| s == seq!['.', 'I', 'n', 'f']
    ||| s == seq!['.', 'I', 'N', 'F']
}

/// `[+]?(\.inf|\.Inf|\.INF)`
pub open spec fn is_pos_inf(t: Seq<char>) -> bool {
    is_inf_word(t) || (t.len() > 0 && t[0] == '+' && is_inf_word(t.drop_first()))
}

/// `-(\.inf|\.Inf|\.INF)`
pub open spec fn is_neg_inf(t: Seq<char>) -> bool {
    t.len() > 0 && t[0] == '-' && is_inf_word(t.drop_first())
}

/// `\.nan|\.NaN|\.NAN`
pub open spec fn is_nan(t: Seq<char>) -> bool {
    ||| t == seq!['.', 'n', 'a', 'n']
    ||| t == seq!['.', 'N', 'a', 'N']
    ||| t == seq!['.', 'N', 'A', 'N']
}

/// `null|Null|NULL|~`
pub open spec fn is_null(t: Seq<char>) -> bool {
    ||| t == seq!['n', 'u', 'l', 'l']
    ||| t == seq!['N', 'u', 'l', 'l']
    ||| t == seq!['N', 'U', 'L', 'L']
    ||| t == seq!['~']
}

/// `true|True|TRUE|yes|Yes|YES`
pub open spec fn is_true(t: Seq<char>) -> bool {
    ||| t == seq!['t', 'r', 'u', 'e']
    ||| t == seq!['T', 'r', 'u', 'e']
    ||| t == seq!['T', 'R', 'U', 'E']
    ||| t == seq!['y', 'e', 's']
    ||| t == seq!['Y', 'e', 's']
    ||| t == seq!['Y', 'E', 'S']
}

/// `false|False|FALSE|no|No|NO`
pub open spec fn is_false(t: Seq<char>) -> bool {
    ||| t == seq!['f', 'a', 'l', 's', 'e']
    ||| t == seq!['F', 'a', 'l', 's', 'e']
    ||| t == seq!['F', 'A', 'L', 'S', 'E']
    ||| t == seq!['n', 'o']
    ||| t == seq!['N', 'o']
    ||| t == seq!['N', 'O']
}

/// An integer literal's value, or the literal itself as the error where the
/// value does not fit in an `i64`.
pub open spec fn integer_result(v: int, t: Seq<char>) -> Result<StandardValue, Seq<char>> {
    if i64::MIN <= v <= i64::MAX {
        Ok(StandardValue::Integer(v))
    } else {
        Err(t)
    }
}

/// What a scalar of text `t` and style `style` resolves to: for a plain
/// scalar, the first family that matches the whole text, in this order;
/// otherwise, and where none matches, the text itself.
pub open spec fn resolution(t: Seq<char>, style: YamlScalarStyle) -> Result<
    StandardValue,
    Seq<char>,
> {
    if style != YamlScalarStyle::YamlPlainScalarStyle {
        Ok(StandardValue::Text(t))
    } else if is_decimal_int(t) {
        integer_result(decimal_value(t), t)
    } else if is_octal_int(t) {
        integer_result(digits_value(t.subrange(2, t.len() as int), 8), t)
    } else if is_hex_int(t) {
        integer_result(digits_value(t.subrange(2, t.len() as int), 16), t)
    } else if is_float_text(t) {
        Ok(StandardValue::Float(FloatValue::Finite(t)))
    } else if is_pos_inf(t) {
        Ok(StandardValue::Float(FloatValue::PosInfinity))
    } else if is_neg_inf(t) {
        Ok(StandardValue::Float(FloatValue::NegInfinity))
    } else if is_nan(t) {
        Ok(StandardValue::Float(FloatValue::NaN))
    } else if is_null(t) {
        Ok(StandardValue::Null)
    } else if is_true(t) {
        Ok(StandardValue::Bool(true))
    } else if is_false(t) {
        Ok(StandardValue::Bool(false))
    } else {
        Ok(StandardValue::Text(t))
    }
}

fn chars_of(text: &str) -> (r: Vec<char>)
    ensures
        r@ == text@,
{
    let mut out: Vec<char> = Vec::new();
    for c in it: text.chars()
        invariant
            out@ == it.seq().subrange(0, it.index() as int),
    {
        out.push(c);
    }
    out
}

/// Whether `cs[lo..]` equals `w`.
fn rest_equals(cs: &Vec<char>, lo: usize, w: &[char]) -> (r: bool)
    requires
        lo <= cs.len(),
    ensures
        r == (cs@.subrange(lo as int, cs.len() as int) == w@),
{
    if cs.len() - lo != w.len() {
        return false;
    }
    let mut i: usize = 0;
    while i < w.len()
        invariant
            i <= w.len(),
            cs.len() - lo == w.len(),
            lo <= cs.len(),
            forall|j: int| 0 <= j < i ==> cs@[lo + j] == w@[j],
        decreases w.len() - i,
    {
        if cs[lo + i] != w[i] {
            assert(cs@.subrange(lo as int, cs.len() as int)[i as int] != w@[i as int]);
            return false;
        }
        i = i + 1;
    }
    assert(cs@.subrange(lo as int, cs.len() as int) =~= w@);
    true
}

fn is_digit_in(c: char, base: u32) -> (r: bool)
    requires
        base == 8 || base == 10 || base == 16,
    ensures
        r == is_digit_of(c, base as int),
{
    if base == 8 {
        '0' <= c && c <= '7'
    } else if base == 16 {
        ('0' <= c && c <= '9') || ('a' <= c && c <= 'f') || ('A' <= c && c <= 'F')
    } else {
        '0' <= c && c <= '9'
    }
}

/// Whether every character of `cs[lo..]` is a digit of base `base`.
fn digits_from(cs: &Vec<char>, lo: usize, base: u32) -> (r: bool)
    requires
        lo <= cs.len(),
        base == 8 || base == 10 || base == 16,
    ensures
        r == forall|i: int| lo <= i < cs.len() ==> is_digit_of(#[trigger] cs@[i], base as int),
{
    let mut i: usize = lo;
    while i < cs.len()
        invariant
            lo <= i <= cs.len(),
            base == 8 || base == 10 || base == 16,
            forall|j: int| lo <= j < i ==> is_digit_of(#[trigger] cs@[j], base as int),
        decreases cs.len() - i,
    {
        if !is_digit_in(cs[i], base) {
            return false;
        }
        i = i + 1;
    }
    true
}

/// Where the text after an optional leading sign starts.
fn sign_len(cs: &Vec<char>) -> (lo: usize)
    ensures
        lo <= cs.len(),
        cs@.subrange(lo as int, cs.len() as int) == unsigned_part(cs@),
{
    if cs.len() > 0 && (cs[0] == '+' || cs[0] == '-') {
        assert(cs@.subrange(1, cs.len() as int) =~= cs@.drop_first());
        1
    } else {
        assert(cs@.subrange(0, cs.len() as int) =~= cs@);
        0
    }
}

/// Whether `cs[lo..]` is one or more decimal digits.
fn dec_digits_from(cs: &Vec<char>, lo: usize) -> (r: bool)
    requires
        lo <= cs.len(),
    ensures
        r == is_dec_digits(cs@.subrange(lo as int, cs.len() as int)),
{
    let all = digits_from(cs, lo, 10);
    let ghost u = cs@.subrange(lo as int, cs.len() as int);
    assert(all == forall|i: int| 0 <= i < u.len() ==> is_dec_digit(#[trigger] u[i])) by {
        if all {
            assert forall|i: int| 0 <= i < u.len() implies is_dec_digit(#[trigger] u[i]) by {
                assert(is_digit_of(cs@[lo + i], 10));
            }
        } else {
            let j = choose|j: int| lo <= j < cs.len() && !is_digit_of(#[trigger] cs@[j], 10);
            assert(u[j - lo] == cs@[j]);
        }
    }
    lo < cs.len() && all
}

fn scan_decimal(cs: &Vec<char>) -> (r: bool)
    ensures
        r == is_decimal_int(cs@),
{
    let lo = sign_len(cs);
    dec_digits_from(cs, lo)
}

fn scan_prefixed(cs: &Vec<char>, marker: char, base: u32) -> (r: bool)
    requires
        base == 8 || base == 10 || base == 16,
    ensures
        r == is_prefixed_int(cs@, marker, base as int),
{
    cs.len() >= 3 && cs[0] == '0' && cs[1] == marker && digits_from(cs, 2, base)
}

/// The index of the first exponent marker at or after `lo`, or the length.
fn first_marker(cs: &Vec<char>, lo: usize) -> (p: usize)
    requires
        lo <= cs.len(),
    ensures
        lo <= p <= cs.len(),
        forall|j: int| lo <= j < p ==> !is_exp_marker(#[trigger] cs@[j]),
        p < cs.len() ==> is_exp_marker(cs@[p as int]),
{
    let mut i: usize = lo;
    while i < cs.len()
        invariant
            lo <= i <= cs.len(),
            forall|j: int| lo <= j < i ==> !is_exp_marker(#[trigger] cs@[j]),
        decreases cs.len() - i,
    {
        if cs[i] == 'e' || cs[i] == 'E' {
            return i;
        }
        i = i + 1;
    }
    i
}

fn scan_mantissa(cs: &Vec<char>, lo: usize, hi: usize) -> (r: bool)
    requires
        lo <= hi <= cs.len(),
    ensures
        r == is_mantissa(cs@.subrange(lo as int, hi as int)),
{
    let ghost m = cs@.subrange(lo as int, hi as int);
    let mut dot: Option<usize> = None;
    let mut digit = false;
    let ghost mut witness: int = 0;
    let mut i: usize = lo;
    while i < hi
        invariant
            lo <= i <= hi <= cs.len(),
            m == cs@.subrange(lo as int, hi as int),
            forall|j: int| lo <= j < i ==> is_dec_digit(#[trigger] cs@[j]) || cs@[j] == '.',
            dot is None ==> forall|j: int| lo <= j < i ==> #[trigger] cs@[j] != '.',
            dot is Some ==> lo <= dot->0 < i && cs@[dot->0 as int] == '.' && forall|j: int|
                lo <= j < i && #[trigger] cs@[j] == '.' ==> j == dot->0,
            digit ==> lo <= witness < i && is_dec_digit(cs@[witness]),
            !digit ==> forall|j: int| lo <= j < i ==> !is_dec_digit(#[trigger] cs@[j]),
        decreases hi - i,
    {
        let c = cs[i];
        if c == '.' {
            if let Some(d) = dot {
                assert(m[d - lo] == '.' && m[i - lo] == '.');
                return false;
            }
            dot = Some(i);
        } else if '0' <= c && c <= '9' {
            digit = true;
            proof {
                witness = i as int;
            }
        } else {
            assert(m[i - lo] == c);
            return false;
        }
        i = i + 1;
    }
    proof {
        assert forall|j: int| 0 <= j < m.len() implies is_dec_digit(#[trigger] m[j]) || m[j]
            == '.' by {
            assert(m[j] == cs@[lo + j]);
        }
        assert forall|a: int, b: int|
            0 <= a < m.len() && 0 <= b < m.len() && #[trigger] m[a] == '.' && #[trigger] m[b]
                == '.' implies a == b by {
            assert(m[a] == cs@[lo + a] && m[b] == cs@[lo + b]);
        }
        if digit {
            assert(m[witness - lo] == cs@[witness]);
        } else {
            assert forall|j: int| 0 <= j < m.len() implies !is_dec_digit(#[trigger] m[j]) by {
                assert(m[j] == cs@[lo + j]);
            }
        }
    }
    digit
}

fn scan_float(cs: &Vec<char>) -> (r: bool)
    ensures
        r == is_float_text(cs@),
{
    let lo = sign_len(cs);
    let ghost u = unsigned_part(cs@);
    let p = first_marker(cs, lo);
    let ghost k = p - lo;
    assert forall|j: int| 0 <= j < k implies !is_exp_marker(#[trigger] u[j]) by {
        assert(u[j] == cs@[lo + j]);
    }
    assert(cs@.subrange(lo as int, p as int) =~= u.subrange(0, k));
    if p == cs.len() {
        scan_mantissa(cs, lo, p)
    } else {
        assert(u[k] == cs@[p as int]);
        let m = scan_mantissa(cs, lo, p);
        let e = dec_digits_after_sign(cs, p + 1);
        assert(cs@.subrange(p + 1, cs.len() as int) =~= u.subrange(k + 1, u.len() as int));
        if !(m && e) {
            assert forall|k2: int|
                0 <= k2 < u.len() && is_exp_marker(#[trigger] u[k2]) && is_mantissa(
                    u.subrange(0, k2),
                ) implies k2 == k by {
                if k2 > k {
                    assert(u.subrange(0, k2)[k] == u[k]);
                }
            }
        }
        m && e
    }
}

/// Whether `cs[lo..]` is `[-+]?[0-9]+`.
fn dec_digits_after_sign(cs: &Vec<char>, lo: usize) -> (r: bool)
    requires
        lo <= cs.len(),
    ensures
        r == is_decimal_int(cs@.subrange(lo as int, cs.len() as int)),
{
    let ghost t = cs@.subrange(lo as int, cs.len() as int);
    if lo < cs.len() && (cs[lo] == '+' || cs[lo] == '-') {
        assert(cs@.subrange(lo + 1, cs.len() as int) =~= t.drop_first());
        dec_digits_from(cs, lo + 1)
    } else {
        dec_digits_from(cs, lo)
    }
}

proof fn lemma_digits_value_nonneg(s: Seq<char>, base: int)
    requires
        base >= 1,
        forall|i: int| 0 <= i < s.len() ==> is_hex_digit(#[trigger] s[i]),
    ensures
        digits_value(s, base) >= 0,
    decreases s.len(),
{
    if s.len() > 0 {
        lemma_digits_value_nonneg(s.drop_last(), base);
        assert(is_hex_digit(s[s.len() - 1]));
        assert(digits_value(s.drop_last(), base) * base >= 0) by (nonlinear_arith)
            requires
                digits_value(s.drop_last(), base) >= 0,
                base >= 1,
        ;
    }
}

/// A prefix of a digit string never writes a larger number than the whole.
proof fn lemma_digits_value_prefix(s: Seq<char>, base: int, i: int)
    requires
        base >= 1,
        0 <= i <= s.len(),
        forall|j: int| 0 <= j < s.len() ==> is_hex_digit(#[trigger] s[j]),
    ensures
        digits_value(s.subrange(0, i), base) <= digits_value(s, base),
    decreases s.len(),
{
    if i == s.len() {
        assert(s.subrange(0, i) =~= s);
    } else {
        let t = s.drop_last();
        lemma_digits_value_prefix(t, base, i);
        assert(t.subrange(0, i) =~= s.subrange(0, i));
        lemma_digits_value_nonneg(t, base);
        assert(is_hex_digit(s[s.len() - 1]));
        let x = digits_value(t, base);
        assert(x * base >= x) by (nonlinear_arith)
            requires
                x >= 0,
                base >= 1,
        ;
    }
}

fn digit_of(c: char) -> (r: i64)
    requires
        is_hex_digit(c),
    ensures
        r == digit_value(c),
        0 <= r < 16,
{
    if '0' <= c && c <= '9' {
        (c as u32 - '0' as u32) as i64
    } else if 'a' <= c && c <= 'f' {
        (c as u32 - 'a' as u32 + 10) as i64
    } else {
        (c as u32 - 'A' as u32 + 10) as i64
    }
}

/// The value that the digits `cs[lo..]` write in base `base`, negated when
/// `negative`; `None` where it does not fit in an `i64`.
fn parse_digits(cs: &Vec<char>, lo: usize, base: u32, negative: bool) -> (r: Option<i64>)
    requires
        lo <= cs.len(),
        base == 8 || base == 10 || base == 16,
        forall|i: int| lo <= i < cs.len() ==> is_digit_of(#[trigger] cs@[i], base as int),
    ensures
        ({
            let n = digits_value(cs@.subrange(lo as int, cs.len() as int), base as int);
            let v = if negative {
                -n
            } else {
                n
            };
            &&& r is Some <==> i64::MIN <= v <= i64::MAX
            &&& r is Some ==> r->0 == v
        }),
{
    let ghost ds = cs@.subrange(lo as int, cs.len() as int);
    assert forall|j: int| 0 <= j < ds.len() implies is_hex_digit(#[trigger] ds[j]) by {
        assert(ds[j] == cs@[lo + j]);
        assert(is_digit_of(cs@[lo + j], base as int));
    }
    let b = base as i64;
    let mut acc: i64 = 0;
    let mut i: usize = lo;
    while i < cs.len()
        invariant
            lo <= i <= cs.len(),
            b == base as int,
            base == 8 || base == 10 || base == 16,
            ds == cs@.subrange(lo as int, cs.len() as int),
            forall|j: int| 0 <= j < ds.len() ==> is_hex_digit(#[trigger] ds[j]),
            forall|j: int| lo <= j < cs.len() ==> is_digit_of(#[trigger] cs@[j], base as int),
            acc == (if negative {
                -digits_value(ds.subrange(0, i - lo), base as int)
            } else {
                digits_value(ds.subrange(0, i - lo), base as int)
            }),
        decreases cs.len() - i,
    {
        assert(is_digit_of(cs@[i as int], base as int));
        let d = digit_of(cs[i]);
        let ghost prev = digits_value(ds.subrange(0, i - lo), base as int);
        let ghost next = ds.subrange(0, i + 1 - lo);
        assert(next.drop_last() =~= ds.subrange(0, i - lo));
        assert(next.last() == cs@[i as int]);
        assert(digits_value(next, base as int) == prev * base + d);
        proof {
            lemma_digits_value_nonneg(ds.subrange(0, i - lo), base as int);
            lemma_digits_value_prefix(ds, base as int, i + 1 - lo);
        }
        let scaled = acc.checked_mul(b);
        match scaled {
            None => {
                assert(prev * base + d >= prev * base);
                return None;
            },
            Some(m) => {
                let stepped = if negative {
                    m.checked_sub(d)
                } else {
                    m.checked_add(d)
                };
                match stepped {
                    None => {
                        return None;
                    },
                    Some(a) => {
                        acc = a;
                    },
                }
            },
        }
        i = i + 1;
    }
    assert(ds.subrange(0, i - lo) =~= ds);
    Some(acc)
}

fn scan_inf_word(cs: &Vec<char>, lo: usize) -> (r: bool)
    requires
        lo <= cs.len(),
    ensures
        r == is_inf_word(cs@.subrange(lo as int, cs.len() as int)),
{
    rest_equals(cs, lo, &['.', 'i', 'n', 'f']) || rest_equals(cs, lo, &['.', 'I', 'n', 'f'])
        || rest_equals(cs, lo, &['.', 'I', 'N', 'F'])
}

fn scan_pos_inf(cs: &Vec<char>) -> (r: bool)
    ensures
        r == is_pos_inf(cs@),
{
    assert(cs@.subrange(0, cs.len() as int) =~= cs@);
    if cs.len() > 0 {
        assert(cs@.subrange(1, cs.len() as int) =~= cs@.drop_first());
    }
    scan_inf_word(cs, 0) || (cs.len() > 0 && cs[0] == '+' && scan_inf_word(cs, 1))
}

fn scan_neg_inf(cs: &Vec<char>) -> (r: bool)
    ensures
        r == is_neg_inf(cs@),
{
    if cs.len() > 0 {
        assert(cs@.subrange(1, cs.len() as int) =~= cs@.drop_first());
    }
    cs.len() > 0 && cs[0] == '-' && scan_inf_word(cs, 1)
}

fn scan_nan(cs: &Vec<char>) -> (r: bool)
    ensures
        r == is_nan(cs@),
{
    assert(cs@.subrange(0, cs.len() as int) =~= cs@);
    rest_equals(cs, 0, &['.', 'n', 'a', 'n']) || rest_equals(cs, 0, &['.', 'N', 'a', 'N'])
        || rest_equals(cs, 0, &['.', 'N', 'A', 'N'])
}

fn scan_null(cs: &Vec<char>) -> (r: bool)
    ensures
        r == is_null(cs@),
{
    assert(cs@.subrange(0, cs.len() as int) =~= cs@);
    let tilde = ['~'];
    assert(tilde@ =~= seq!['~']);
    rest_equals(cs, 0, &['n', 'u', 'l', 'l']) || rest_equals(cs, 0, &['N', 'u', 'l', 'l'])
        || rest_equals(cs, 0, &['N', 'U', 'L', 'L']) || rest_equals(cs, 0, &tilde)
}

fn scan_true(cs: &Vec<char>) -> (r: bool)
    ensures
        r == is_true(cs@),
{
    assert(cs@.subrange(0, cs.len() as int) =~= cs@);
    rest_equals(cs, 0, &['t', 'r', 'u', 'e']) || rest_equals(cs, 0, &['T', 'r', 'u', 'e'])
        || rest_equals(cs, 0, &['T', 'R', 'U', 'E']) || rest_equals(cs, 0, &['y', 'e', 's'])
        || rest_equals(cs, 0, &['Y', 'e', 's']) || rest_equals(cs, 0, &['Y', 'E', 'S'])
}

fn scan_false(cs: &Vec<char>) -> (r: bool)
    ensures
        r == is_false(cs@),
{
    assert(cs@.subrange(0, cs.len() as int) =~= cs@);
    rest_equals(cs, 0, &['f', 'a', 'l', 's', 'e']) || rest_equals(cs, 0, &['F', 'a', 'l', 's', 'e'])
        || rest_equals(cs, 0, &['F', 'A', 'L', 'S', 'E']) || rest_equals(cs, 0, &['n', 'o'])
        || rest_equals(cs, 0, &['N', 'o']) || rest_equals(cs, 0, &['N', 'O'])
}

fn integer_or_overflow(v: Option<i64>, text: &str) -> (r: Result<YamlStandardData, YamlError>)
    ensures
        v is Some ==> r == Ok::<YamlStandardData, YamlError>(YamlStandardData::YamlInteger(v->0)),
        v is None ==> r is Err && r->Err_0@ == text@,
{
    match v {
        Some(x) => Ok(YamlStandardData::YamlInteger(x)),
        None => Err(YamlError::YamlIntegerOverflow(text.to_owned())),
    }
}

/// The integer that the digits after the two-character prefix write in base
/// `base`, or the overflow error.
fn parse_prefixed(cs: &Vec<char>, text: &str, base: u32) -> (r: Result<YamlStandardData, YamlError>)
    requires
        cs@ == text@,
        base == 8 || base == 16,
        is_prefixed_int(cs@, if base == 8 { 'o' } else { 'x' }, base as int),
    ensures
        result_view(r) == integer_result(digits_value(cs@.subrange(2, cs.len() as int), base as int), text@),
{
    let v = parse_digits(cs, 2, base, false);
    integer_or_overflow(v, text)
}

/// Resolves a scalar under the core schema: a plain scalar takes the type
/// of the first pattern family that matches its whole text, any other
/// style keeps its text. An integer literal whose value does not fit in an
/// `i64` is an error that holds the literal.
pub fn resolve_scalar(text: &str, style: YamlScalarStyle) -> (r: Result<YamlStandardData, YamlError>)
    ensures
        result_view(r) == resolution(text@, style),
{
    match style {
        YamlScalarStyle::YamlPlainScalarStyle => {},
        _ => {
            return Ok(YamlStandardData::YamlString(text.to_owned()));
        },
    }
    let cs = chars_of(text);
    if scan_decimal(&cs) {
        let lo = sign_len(&cs);
        let negative = cs[0] == '-';
        let ghost u = unsigned_part(cs@);
        assert forall|i: int| lo <= i < cs.len() implies is_digit_of(#[trigger] cs@[i], 10) by {
            assert(cs@[i] == u[i - lo]);
        }
        let v = parse_digits(&cs, lo, 10, negative);
        integer_or_overflow(v, text)
    } else if scan_prefixed(&cs, 'o', 8) {
        parse_prefixed(&cs, text, 8)
    } else if scan_prefixed(&cs, 'x', 16) {
        parse_prefixed(&cs, text, 16)
    } else if scan_float(&cs) {
        Ok(YamlStandardData::YamlFloat(YamlFloatValue::YamlFiniteFloat(text.to_owned())))
    } else if scan_pos_inf(&cs) {
        Ok(YamlStandardData::YamlFloat(YamlFloatValue::YamlInfinity))
    } else if scan_neg_inf(&cs) {
        Ok(YamlStandardData::YamlFloat(YamlFloatValue::YamlNegInfinity))
    } else if scan_nan(&cs) {
        Ok(YamlStandardData::YamlFloat(YamlFloatValue::YamlNaN))
    } else if scan_null(&cs) {
        Ok(YamlStandardData::YamlNull)
    } else if scan_true(&cs) {
        Ok(YamlStandardData::YamlBool(true))
    } else if scan_false(&cs) {
        Ok(YamlStandardData::YamlBool(false))
    } else {
        Ok(YamlStandardData::YamlString(text.to_owned()))
    }
}

/// Resolution depends on the text and the style alone: two resolutions of
/// the same scalar give equal values.
pub proof fn lemma_resolution_deterministic(
    t: Seq<char>,
    style: YamlScalarStyle,
    r1: Result<YamlStandardData, YamlError>,
    r2: Result<YamlStandardData, YamlError>,
)
    requires
        result_view(r1) == resolution(t, style),
        result_view(r2) == resolution(t, style),
    ensures
        result_view(r1) == result_view(r2),
{
}

/// No text of the float grammar has the octal or hexadecimal prefix.
proof fn lemma_float_not_prefixed(t: Seq<char>, marker: char, base: int)
    requires
        is_float_text(t),
        !is_dec_digit(marker),
        !is_exp_marker(marker),
        marker != '.',
    ensures
        !is_prefixed_int(t, marker, base),
{
    if is_prefixed_int(t, marker, base) {
        let u = unsigned_part(t);
        assert(u == t);
        if forall|i: int| 0 <= i < u.len() ==> !is_exp_marker(#[trigger] u[i]) {
            assert(is_mantissa(u));
            assert(is_dec_digit(u[1]) || u[1] == '.');
        } else {
            let k = choose|k: int|
                0 <= k < u.len() && is_exp_marker(#[trigger] u[k]) && is_mantissa(u.subrange(0, k))
                    && is_decimal_int(u.subrange(k + 1, u.len() as int));
            assert(k >= 2);
            let m = u.subrange(0, k);
            assert(m[1] == u[1]);
            assert(is_dec_digit(m[1]) || m[1] == '.');
        }
    }
}

/// A plain scalar whose text is of the float grammar but not a decimal
/// integer (`1.0`, `-.4`, `1e+2`) resolves to a float: the integer families
/// that come first do not claim it.
pub proof fn lemma_float_precedence(t: Seq<char>)
    requires
        is_float_text(t),
        !is_decimal_int(t),
    ensures
        resolution(t, YamlScalarStyle::YamlPlainScalarStyle) == Ok::<StandardValue, Seq<char>>(
            StandardValue::Float(FloatValue::Finite(t)),
        ),
{
    lemma_float_not_prefixed(t, 'o', 8);
    lemma_float_not_prefixed(t, 'x', 16);
}

} // verus!
