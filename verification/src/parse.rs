//! Decimal numbers written as text: the integer forms that `str::parse`
//! accepts for `u32` and `i32`, and money amounts in cents.
use vstd::prelude::*;
use crate::text::{chars_of, find_char, find_char_in, lemma_find_char};

verus! {

/// Whether `c` is one of the ASCII digits '0' to '9'.
pub open spec fn is_digit(c: char) -> bool {
    '0' <= c <= '9'
}

/// The value of an ASCII digit.
pub open spec fn digit_value(c: char) -> nat {
    (c as int - '0' as int) as nat
}

/// Every character is an ASCII digit.
pub open spec fn all_digits(s: Seq<char>) -> bool {
    forall|i: int| 0 <= i < s.len() ==> is_digit(#[trigger] s[i])
}

/// The value of a sequence of decimal digits, most significant first.
pub open spec fn decimal_value(s: Seq<char>) -> nat
    decreases s.len(),
{
    if s.len() == 0 {
        0
    } else {
        decimal_value(s.drop_last()) * 10 + digit_value(s.last())
    }
}

/// A prefix of a digit sequence has no larger value.
pub proof fn lemma_decimal_value_prefix(s: Seq<char>, k: int)
    requires
        0 <= k <= s.len(),
    ensures
        decimal_value(s.take(k)) <= decimal_value(s),
    decreases s.len() - k,
{
    if k < s.len() {
        lemma_decimal_value_prefix(s, k + 1);
        assert(s.take(k + 1).drop_last() == s.take(k));
    } else {
        assert(s.take(k) == s);
    }
}

/// The digits after an optional leading sign character `sign`.
pub open spec fn after_sign(s: Seq<char>, sign: char) -> Seq<char> {
    if s.len() > 0 && s[0] == sign {
        s.drop_first()
    } else {
        s
    }
}

/// What `s.parse::<u32>()` gives: an optional '+' then one or more ASCII
/// digits, whose value fits in a `u32`.
pub open spec fn parse_u32_spec(s: Seq<char>) -> Option<u32> {
    let body = after_sign(s, '+');
    if body.len() > 0 && all_digits(body) && decimal_value(body) <= u32::MAX {
        Some(decimal_value(body) as u32)
    } else {
        None
    }
}

/// What `s.parse::<i32>()` gives: an optional '+' or '-' then one or more
/// ASCII digits, whose signed value fits in an `i32`.
pub open spec fn parse_i32_spec(s: Seq<char>) -> Option<i32> {
    if s.len() > 0 && s[0] == '-' {
        let body = s.drop_first();
        if body.len() > 0 && all_digits(body) && decimal_value(body) <= 0x8000_0000 {
            Some((-decimal_value(body)) as i32)
        } else {
            None
        }
    } else {
        let body = after_sign(s, '+');
        if body.len() > 0 && all_digits(body) && decimal_value(body) <= i32::MAX {
            Some(decimal_value(body) as i32)
        } else {
            None
        }
    }
}

/// The value of the digits `v[from..]`, if they are all digits and the
/// value is at most `bound`.
fn digits_value_up_to(v: &Vec<char>, from: usize, bound: u64) -> (r: Option<u64>)
    requires
        from <= v@.len(),
        bound <= u64::MAX / 16,
    ensures
        match r {
            Some(x) => all_digits(v@.skip(from as int)) && decimal_value(v@.skip(from as int))
                == x && x <= bound,
            None => !all_digits(v@.skip(from as int)) || decimal_value(v@.skip(from as int))
                > bound,
        },
{
    let ghost body = v@.skip(from as int);
    let mut acc: u64 = 0;
    let mut i: usize = from;
    while i < v.len()
        invariant
            from <= i <= v@.len(),
            body == v@.skip(from as int),
            bound <= u64::MAX / 16,
            all_digits(body.take(i - from)),
            acc == decimal_value(body.take(i - from)),
            acc <= bound,
        decreases v@.len() - i,
    {
        let c = v[i];
        if !('0' <= c && c <= '9') {
            assert(body[i - from] == c);
            return None;
        }
        let d = (c as u32 - '0' as u32) as u64;
        let ghost k = i - from;
        assert(body.take(k + 1).drop_last() == body.take(k));
        assert(body.take(k + 1).last() == c);
        acc = acc * 10 + d;
        if acc > bound {
            proof {
                if all_digits(body) {
                    lemma_decimal_value_prefix(body, k + 1);
                }
            }
            return None;
        }
        assert forall|j: int| 0 <= j < k + 1 implies is_digit(#[trigger] body.take(k + 1)[j]) by {
            if j < k {
                assert(body.take(k + 1)[j] == body.take(k)[j]);
            }
        }
        i = i + 1;
    }
    assert(body.take(body.len() as int) == body);
    Some(acc)
}

/// `s.parse::<u32>().ok()`, on the characters of `s`.
pub fn parse_u32_chars(v: &Vec<char>) -> (r: Option<u32>)
    ensures
        r == parse_u32_spec(v@),
{
    let from: usize = if v.len() > 0 && v[0] == '+' {
        1
    } else {
        0
    };
    assert(v@.skip(from as int) == after_sign(v@, '+'));
    if from == v.len() {
        return None;
    }
    match digits_value_up_to(v, from, 0xFFFF_FFFF) {
        Some(x) => Some(x as u32),
        None => None,
    }
}

/// `s.parse::<i32>().ok()`, on the characters of `s`.
pub fn parse_i32_chars(v: &Vec<char>) -> (r: Option<i32>)
    ensures
        r == parse_i32_spec(v@),
{
    if v.len() > 0 && v[0] == '-' {
        assert(v@.skip(1) == v@.drop_first());
        if v.len() == 1 {
            return None;
        }
        match digits_value_up_to(v, 1, 0x8000_0000) {
            Some(x) => {
                let neg: i64 = 0 - (x as i64);
                Some(neg as i32)
            },
            None => None,
        }
    } else {
        let from: usize = if v.len() > 0 && v[0] == '+' {
            1
        } else {
            0
        };
        assert(v@.skip(from as int) == after_sign(v@, '+'));
        if from == v.len() {
            return None;
        }
        match digits_value_up_to(v, from, 0x7FFF_FFFF) {
            Some(x) => Some(x as i32),
            None => None,
        }
    }
}

/// The value of the digit at `i` of `s`, or 0 outside it.
pub open spec fn digit_or_zero(s: Seq<char>, i: int) -> nat {
    if 0 <= i < s.len() {
        digit_value(s[i])
    } else {
        0
    }
}

/// The value of the first `n` digits of `d`, continued with zeros past its
/// end; 0 when `n` is not positive.
pub open spec fn digit_prefix(d: Seq<char>, n: int) -> nat
    decreases n,
{
    if n <= 0 {
        0
    } else {
        digit_prefix(d, n - 1) * 10 + digit_or_zero(d, n - 1)
    }
}

/// Ten to the power `n`.
pub open spec fn pow10(n: nat) -> nat
    decreases n,
{
    if n == 0 {
        1
    } else {
        10 * pow10((n - 1) as nat)
    }
}

proof fn lemma_pow10_mono(a: nat, b: nat)
    requires
        a <= b,
    ensures
        pow10(a) <= pow10(b),
    decreases b,
{
    if a < b {
        lemma_pow10_mono(a, (b - 1) as nat);
    }
}

proof fn lemma_digit_prefix_mono(d: Seq<char>, k: int, n: int)
    requires
        k <= n,
    ensures
        digit_prefix(d, k) <= digit_prefix(d, n),
    decreases n - k,
{
    if k < n {
        lemma_digit_prefix_mono(d, k, n - 1);
    }
}

proof fn lemma_digit_prefix_zero(d: Seq<char>, n: int)
    requires
        forall|i: int| 0 <= i < d.len() ==> #[trigger] digit_or_zero(d, i) == 0,
    ensures
        digit_prefix(d, n) == 0,
    decreases n,
{
    if n > 0 {
        lemma_digit_prefix_zero(d, n - 1);
        assert(digit_or_zero(d, n - 1) == 0);
    }
}

/// Past a digit that is not zero, each further digit multiplies the value
/// by at least ten.
proof fn lemma_digit_prefix_grows(d: Seq<char>, z: int, n: int)
    requires
        0 <= z < n,
        digit_or_zero(d, z) >= 1,
    ensures
        digit_prefix(d, n) >= pow10((n - z - 1) as nat),
    decreases n,
{
    if n > z + 1 {
        lemma_digit_prefix_grows(d, z, n - 1);
        assert(pow10((n - z - 1) as nat) == 10 * pow10((n - z - 2) as nat));
    }
}

/// The text before the first '.', or all of it.
pub open spec fn integer_text(s: Seq<char>) -> Seq<char> {
    match find_char(s, '.') {
        Some(k) => s.take(k),
        None => s,
    }
}

/// The text after the first '.', or nothing.
pub open spec fn fraction_text(s: Seq<char>) -> Seq<char> {
    match find_char(s, '.') {
        Some(k) => s.skip(k + 1),
        None => Seq::empty(),
    }
}

/// Whether `c` marks an exponent.
pub open spec fn is_exponent_mark(c: char) -> bool {
    c == 'e' || c == 'E'
}

/// The index of the first exponent mark of `s` at or after `i`, if any.
pub open spec fn exponent_mark_from(s: Seq<char>, i: int) -> Option<int>
    decreases s.len() - i,
{
    if i < 0 || i >= s.len() {
        None
    } else if is_exponent_mark(s[i]) {
        Some(i)
    } else {
        exponent_mark_from(s, i + 1)
    }
}

/// The index of the first exponent mark ('e' or 'E') of `s`, if any.
pub open spec fn exponent_mark(s: Seq<char>) -> Option<int> {
    exponent_mark_from(s, 0)
}

proof fn lemma_exponent_mark_from(s: Seq<char>, i: int)
    requires
        0 <= i <= s.len(),
    ensures
        exponent_mark_from(s, i) matches Some(k) ==> i <= k < s.len(),
    decreases s.len() - i,
{
    if i < s.len() && !is_exponent_mark(s[i]) {
        lemma_exponent_mark_from(s, i + 1);
    }
}

/// The text before the exponent mark, or all of it.
pub open spec fn mantissa_text(s: Seq<char>) -> Seq<char> {
    match exponent_mark(s) {
        Some(k) => s.take(k),
        None => s,
    }
}

/// The value of an exponent: an optional '+' or '-', then one or more
/// digits.
pub open spec fn exponent_value(x: Seq<char>) -> Option<int> {
    if x.len() > 0 && x[0] == '-' {
        let b = x.drop_first();
        if b.len() > 0 && all_digits(b) {
            Some(-decimal_value(b))
        } else {
            None
        }
    } else {
        let b = after_sign(x, '+');
        if b.len() > 0 && all_digits(b) {
            Some(decimal_value(b) as int)
        } else {
            None
        }
    }
}

/// The power of ten that scales the amount `s`: 0 without an exponent mark,
/// `None` when the text after the mark is not an exponent.
pub open spec fn amount_exponent(s: Seq<char>) -> Option<int> {
    match exponent_mark(s) {
        Some(k) => exponent_value(s.skip(k + 1)),
        None => Some(0),
    }
}

/// The digits of the mantissa of `s`: those before the point, then those
/// after it.
pub open spec fn mantissa_digits(s: Seq<char>) -> Seq<char> {
    integer_text(mantissa_text(s)) + fraction_text(mantissa_text(s))
}

/// The magnitude in cents of the unsigned amount `s` scaled by ten to the
/// power `e`: the digits up to the second after the scaled point, rounded
/// half up on the third.
pub open spec fn magnitude_cents(s: Seq<char>, e: int) -> int {
    scaled_cents(mantissa_digits(s), integer_text(mantissa_text(s)).len() + e + 2)
}

/// The cents of the digits `d` when the whole cents end after the first `q`
/// of them: those digits, continued with zeros, rounded half up on the
/// next one.
pub open spec fn scaled_cents(d: Seq<char>, q: int) -> int {
    digit_prefix(d, q) + if digit_or_zero(d, q) >= 5 {
        1int
    } else {
        0
    }
}

/// An amount of money written in decimal, as whole cents, in the forms that
/// `f64` parsing takes apart from "inf", "infinity" and "nan": an optional
/// '+' or '-', then digits with at most one '.' and at least one digit in
/// all, then optionally 'e' or 'E' and an exponent (an optional sign and
/// digits). Digits past the second after the scaled point round the cents
/// half up on the third. `None` for any other text, or when the magnitude
/// in cents exceeds `i64::MAX`.
pub open spec fn amount_cents_spec(s: Seq<char>) -> Option<i64> {
    let negative = s.len() > 0 && s[0] == '-';
    let body = if negative {
        s.drop_first()
    } else {
        after_sign(s, '+')
    };
    let int_part = integer_text(mantissa_text(body));
    let frac = fraction_text(mantissa_text(body));
    match amount_exponent(body) {
        Some(e) => if all_digits(int_part) && all_digits(frac) && int_part.len() + frac.len() > 0
            && magnitude_cents(body, e) <= i64::MAX {
            if negative {
                Some((-magnitude_cents(body, e)) as i64)
            } else {
                Some(magnitude_cents(body, e) as i64)
            }
        } else {
            None
        },
        None => None,
    }
}

/// The characters `v[from..to]`.
fn copy_range(v: &Vec<char>, from: usize, to: usize) -> (r: Vec<char>)
    requires
        from <= to <= v@.len(),
    ensures
        r@ == v@.subrange(from as int, to as int),
{
    let mut r: Vec<char> = Vec::new();
    let mut i = from;
    while i < to
        invariant
            from <= i <= to <= v@.len(),
            r@ == v@.subrange(from as int, i as int),
        decreases to - i,
    {
        r.push(v[i]);
        assert(r@ =~= v@.subrange(from as int, i + 1));
        i = i + 1;
    }
    r
}

/// The index of the first exponent mark of `v`, if any.
fn find_exponent_mark(v: &Vec<char>) -> (r: Option<usize>)
    ensures
        match r {
            Some(k) => exponent_mark(v@) == Some(k as int) && k < v@.len(),
            None => exponent_mark(v@) is None,
        },
{
    let mut i: usize = 0;
    while i < v.len()
        invariant
            i <= v.len(),
            exponent_mark(v@) == exponent_mark_from(v@, i as int),
        decreases v.len() - i,
    {
        if v[i] == 'e' || v[i] == 'E' {
            return Some(i);
        }
        i = i + 1;
    }
    None
}

/// The size beyond which an exponent is taken at that size: far larger
/// than any number of digits, so the amount is then 0 or too large.
pub open spec fn exponent_cap() -> int {
    0x10_0000_0000_0000_0000_0000_0000
}

/// `e` limited to the range from `-exponent_cap()` to `exponent_cap()`.
pub open spec fn clamp_exponent(e: int) -> int {
    if e > exponent_cap() {
        exponent_cap()
    } else if e < -exponent_cap() {
        -exponent_cap()
    } else {
        e
    }
}

/// The value of the digits `x[from..]` limited to `exponent_cap()`, when
/// there is at least one and all are digits.
fn capped_digits_value(x: &Vec<char>, from: usize) -> (r: Option<u128>)
    requires
        from <= x@.len(),
    ensures
        match r {
            Some(c) => x@.skip(from as int).len() > 0 && all_digits(x@.skip(from as int)) && c
                as int == if decimal_value(x@.skip(from as int)) > exponent_cap() {
                exponent_cap()
            } else {
                decimal_value(x@.skip(from as int)) as int
            },
            None => !(x@.skip(from as int).len() > 0 && all_digits(x@.skip(from as int))),
        },
{
    let ghost body = x@.skip(from as int);
    if from == x.len() {
        return None;
    }
    let cap: u128 = 0x10_0000_0000_0000_0000_0000_0000;
    let mut acc: u128 = 0;
    let mut i: usize = from;
    while i < x.len()
        invariant
            from <= i <= x@.len(),
            body == x@.skip(from as int),
            cap == exponent_cap(),
            all_digits(body.take(i - from)),
            acc as int == if decimal_value(body.take(i - from)) > exponent_cap() {
                exponent_cap()
            } else {
                decimal_value(body.take(i - from)) as int
            },
        decreases x@.len() - i,
    {
        let c = x[i];
        if !('0' <= c && c <= '9') {
            assert(body[i - from] == c);
            return None;
        }
        let ghost k = i - from;
        assert(body.take(k + 1).drop_last() == body.take(k));
        assert(body.take(k + 1).last() == c);
        let dig = (c as u32 - '0' as u32) as u128;
        if acc < cap {
            acc = acc * 10 + dig;
            if acc > cap {
                acc = cap;
            }
        }
        assert forall|j: int| 0 <= j < k + 1 implies is_digit(#[trigger] body.take(k + 1)[j]) by {
            if j < k {
                assert(body.take(k + 1)[j] == body.take(k)[j]);
            }
        }
        i = i + 1;
    }
    assert(body.take(body.len() as int) == body);
    Some(acc)
}

/// The exponent written in `x`, limited by `clamp_exponent`.
fn clamped_exponent(x: &Vec<char>) -> (r: Option<i128>)
    ensures
        match r {
            Some(c) => exponent_value(x@) matches Some(e) && c as int == clamp_exponent(e),
            None => exponent_value(x@) is None,
        },
{
    if x.len() > 0 && x[0] == '-' {
        assert(x@.skip(1) == x@.drop_first());
        match capped_digits_value(x, 1) {
            Some(c) => Some(0 - c as i128),
            None => None,
        }
    } else {
        let from: usize = if x.len() > 0 && x[0] == '+' {
            1
        } else {
            0
        };
        assert(x@.skip(from as int) == after_sign(x@, '+'));
        match capped_digits_value(x, from) {
            Some(c) => Some(c as i128),
            None => None,
        }
    }
}

/// The index of the first digit of `d` that is not '0', if any.
fn first_nonzero(d: &Vec<char>) -> (r: Option<usize>)
    ensures
        match r {
            Some(z) => z < d@.len() && d@[z as int] != '0' && forall|i: int|
                0 <= i < z ==> d@[i] == '0',
            None => forall|i: int| 0 <= i < d@.len() ==> d@[i] == '0',
        },
{
    let mut i: usize = 0;
    while i < d.len()
        invariant
            i <= d@.len(),
            forall|j: int| 0 <= j < i ==> d@[j] == '0',
        decreases d.len() - i,
    {
        if d[i] != '0' {
            return Some(i);
        }
        i = i + 1;
    }
    None
}

/// Appends the characters `v[from..to]` to `d`; `false` (with `d` left
/// partly extended) when one of them is not a digit.
fn push_digits(v: &Vec<char>, from: usize, to: usize, d: &mut Vec<char>) -> (ok: bool)
    requires
        from <= to <= v@.len(),
    ensures
        ok == all_digits(v@.subrange(from as int, to as int)),
        ok ==> final(d)@ == old(d)@ + v@.subrange(from as int, to as int),
{
    let mut i = from;
    while i < to
        invariant
            from <= i <= to <= v@.len(),
            all_digits(v@.subrange(from as int, i as int)),
            d@ == old(d)@ + v@.subrange(from as int, i as int),
        decreases to - i,
    {
        let c = v[i];
        if !('0' <= c && c <= '9') {
            assert(v@.subrange(from as int, to as int)[i - from] == c);
            return false;
        }
        d.push(c);
        assert(v@.subrange(from as int, i + 1) =~= v@.subrange(from as int, i as int).push(c));
        assert(d@ =~= old(d)@ + v@.subrange(from as int, i + 1));
        i = i + 1;
    }
    true
}

/// The cents of the digits `d`, whose point follows the first `int_len`
/// of them, scaled by ten to the power `e` (given limited by
/// `clamp_exponent`); `None` when they exceed `i64::MAX`.
fn scaled_magnitude(d: &Vec<char>, int_len: usize, exp: i128, Ghost(e): Ghost<int>) -> (r: Option<
    u64,
>)
    requires
        all_digits(d@),
        int_len <= d@.len(),
        exp as int == clamp_exponent(e),
    ensures
        match r {
            Some(m) => m as int == scaled_cents(d@, int_len + e + 2) && m <= i64::MAX,
            None => scaled_cents(d@, int_len + e + 2) > i64::MAX,
        },
{
    let ghost dg = d@;
    let ghost q_spec = int_len + e + 2;
    let z = match first_nonzero(d) {
        Some(z) => z,
        None => {
            proof {
                assert forall|i: int| 0 <= i < dg.len() implies #[trigger] digit_or_zero(dg, i)
                    == 0 by {
                    assert(dg[i] == '0');
                }
                lemma_digit_prefix_zero(dg, q_spec);
                if 0 <= q_spec < dg.len() {
                    assert(digit_or_zero(dg, q_spec) == 0);
                }
            }
            return Some(0);
        },
    };
    assert(is_digit(dg[z as int]));
    assert(digit_or_zero(dg, z as int) >= 1);
    assert(usize::MAX <= 0xFFFF_FFFF_FFFF_FFFF);
    let q: i128 = int_len as i128 + exp + 2;
    if q - z as i128 >= 20 {
        proof {
            assert(q_spec >= q);
            lemma_digit_prefix_grows(dg, z as int, q_spec);
            lemma_pow10_mono(19, (q_spec - z - 1) as nat);
            reveal_with_fuel(pow10, 20);
            assert(pow10(19) == 10_000_000_000_000_000_000);
        }
        return None;
    }
    if q < 0 {
        assert(q_spec <= q);
        return Some(0);
    }
    assert(q == q_spec);
    let n: u128 = q as u128;
    let mut acc: u128 = 0;
    let mut k: u128 = 0;
    while k < n
        invariant
            k <= n,
            n as int == q_spec,
            q_spec == int_len + e + 2,
            d@ == dg,
            all_digits(dg),
            acc as int == digit_prefix(dg, k as int),
            acc <= 0x7FFF_FFFF_FFFF_FFFF,
        decreases n - k,
    {
        let dig: u128 = if k < d.len() as u128 {
            (d[k as usize] as u32 - '0' as u32) as u128
        } else {
            0
        };
        assert(dig as int == digit_or_zero(dg, k as int));
        acc = acc * 10 + dig;
        k = k + 1;
        if acc > 0x7FFF_FFFF_FFFF_FFFF {
            proof {
                lemma_digit_prefix_mono(dg, k as int, q_spec);
            }
            return None;
        }
    }
    let round: u128 = if n < d.len() as u128 && d[n as usize] >= '5' {
        1
    } else {
        0
    };
    assert(round as int == if digit_or_zero(dg, q_spec) >= 5 {
        1int
    } else {
        0
    });
    let total: u128 = acc + round;
    if total > 0x7FFF_FFFF_FFFF_FFFF {
        return None;
    }
    Some(total as u64)
}

/// The mantissa of `body` and its exponent limited by `clamp_exponent`;
/// `None` when the text after the exponent mark is not an exponent.
fn split_exponent(body: &Vec<char>) -> (r: Option<(Vec<char>, i128)>)
    ensures
        match r {
            Some((m, c)) => m@ == mantissa_text(body@) && (amount_exponent(body@) matches Some(e)
                && c as int == clamp_exponent(e)),
            None => amount_exponent(body@) is None,
        },
{
    match find_exponent_mark(body) {
        Some(k) => {
            assert(k < body.len());
            let x = copy_range(body, k + 1, body.len());
            assert(x@ =~= body@.skip(k + 1));
            match clamped_exponent(&x) {
                Some(c) => {
                    let m = copy_range(body, 0, k);
                    assert(m@ =~= mantissa_text(body@));
                    Some((m, c))
                },
                None => None,
            }
        },
        None => {
            let m = copy_range(body, 0, body.len());
            assert(m@ =~= mantissa_text(body@));
            Some((m, 0i128))
        },
    }
}

/// The digits of the mantissa `mant`, those before the point then those
/// after it, and how many come before the point; `None` unless both parts
/// are digits and there is at least one.
fn mantissa_parts(mant: &Vec<char>) -> (r: Option<(Vec<char>, usize)>)
    ensures
        match r {
            Some((d, n)) => all_digits(integer_text(mant@)) && all_digits(fraction_text(mant@))
                && integer_text(mant@).len() + fraction_text(mant@).len() > 0 && d@
                == integer_text(mant@) + fraction_text(mant@) && n == integer_text(mant@).len()
                && all_digits(d@),
            None => !(all_digits(integer_text(mant@)) && all_digits(fraction_text(mant@))
                && integer_text(mant@).len() + fraction_text(mant@).len() > 0),
        },
{
    proof {
        lemma_find_char(mant@, '.');
    }
    let (int_end, frac_start) = match find_char_in(mant, '.') {
        Some(k) => {
            assert(k < mant.len());
            (k, k + 1)
        },
        None => (mant.len(), mant.len()),
    };
    let ghost int_part = integer_text(mant@);
    let ghost frac = fraction_text(mant@);
    assert(int_part =~= mant@.subrange(0, int_end as int));
    assert(frac =~= mant@.subrange(frac_start as int, mant@.len() as int));
    let mut d: Vec<char> = Vec::new();
    if !push_digits(mant, 0, int_end, &mut d) {
        return None;
    }
    if !push_digits(mant, frac_start, mant.len(), &mut d) {
        return None;
    }
    assert(d@ =~= int_part + frac);
    if d.len() == 0 {
        return None;
    }
    assert(all_digits(d@)) by {
        assert forall|i: int| 0 <= i < d@.len() implies is_digit(#[trigger] d@[i]) by {
            if i < int_part.len() {
                assert(d@[i] == int_part[i]);
            } else {
                assert(d@[i] == frac[i - int_part.len()]);
            }
        }
    }
    Some((d, int_end))
}

/// The amount written in `v`, in cents (see `amount_cents_spec`).
pub fn parse_amount_chars(v: &Vec<char>) -> (r: Option<i64>)
    ensures
        r == amount_cents_spec(v@),
{
    let negative = v.len() > 0 && v[0] == '-';
    let from: usize = if v.len() > 0 && (v[0] == '-' || v[0] == '+') {
        1
    } else {
        0
    };
    let body = copy_range(v, from, v.len());
    assert(body@ =~= if negative {
        v@.drop_first()
    } else {
        after_sign(v@, '+')
    });
    let (mant, exp) = match split_exponent(&body) {
        Some(p) => p,
        None => {
            return None;
        },
    };
    let (d, int_len) = match mantissa_parts(&mant) {
        Some(p) => p,
        None => {
            return None;
        },
    };
    let ghost e = amount_exponent(body@).unwrap();
    match scaled_magnitude(&d, int_len, exp, Ghost(e)) {
        Some(m) => {
            let magnitude = m as i64;
            if negative {
                Some(0 - magnitude)
            } else {
                Some(magnitude)
            }
        },
        None => None,
    }
}

/// The amount written in `s`, in cents (see `amount_cents_spec`).
pub fn parse_amount(s: &str) -> (r: Option<i64>)
    ensures
        r == amount_cents_spec(s@),
{
    parse_amount_chars(&chars_of(s))
}

} // verus!
